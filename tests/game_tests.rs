use rand::rngs::StdRng;
use rand::SeedableRng;
use witherdream::dialogue::ChoiceAction;
use witherdream::game_state::{
    advance_hold, GameMode, GameState, Particle, TransitionState, ALPHA_OPAQUE, DUST_LIFE_MS,
};
use witherdream::input::FrameInput;
use witherdream::maze::{Cell, Maze, MAZE_HEIGHT, MAZE_WIDTH};
use witherdream::dream_world::DreamWorld;
use witherdream::player::Player;

fn connected(m: &Maze) -> bool {
    let h = m.grid.len();
    let w = m.grid[0].len();
    let mut seen = vec![vec![false; w]; h];
    let mut frontier = vec![(1usize, 1usize)];
    seen[1][1] = true;
    while let Some((x, y)) = frontier.pop() {
        let cand = [(x.wrapping_sub(1), y), (x + 1, y), (x, y.wrapping_sub(1)), (x, y + 1)];
        for (nx, ny) in cand {
            if ny < h && nx < w && m.grid[ny][nx] == Cell::Path && !seen[ny][nx] {
                seen[ny][nx] = true;
                frontier.push((nx, ny));
            }
        }
    }
    (0..h).all(|y| (0..w).all(|x| (m.grid[y][x] == Cell::Path) == seen[y][x]))
}

fn dreaming_session(seed: u64) -> GameState {
    let mut s = GameState::with_seed(seed);
    s.mode = GameMode::Dreaming;
    s.maze = Some(Maze::generate(MAZE_WIDTH, MAZE_HEIGHT, &mut StdRng::seed_from_u64(seed)));
    s.current_world = Some(DreamWorld::from_index(0));
    s
}

#[test]
fn hold_fires_on_the_fourth_half_second() {
    let mut progress = 0;
    let mut fired = vec![];
    for _ in 0..4 {
        let (p, f) = advance_hold(progress, true, 500);
        progress = p;
        fired.push(f);
    }
    assert_eq!(fired, vec![false, false, false, true]);
    assert_eq!(progress, 0);
}

#[test]
fn releasing_the_hold_restarts_it() {
    let (p, f) = advance_hold(0, true, 1900);
    assert_eq!((p, f), (1900, false));
    let (p, f) = advance_hold(p, false, 16);
    assert_eq!((p, f), (0, false));
    let (p, f) = advance_hold(p, true, 1900);
    assert_eq!((p, f), (1900, false));
    let (p, f) = advance_hold(p, true, 100);
    assert_eq!((p, f), (0, true));
    assert_eq!(advance_hold(1999, true, u64::MAX), (0, true));
}

#[test]
fn fade_alpha_grows_then_finishes_once() {
    let mut s = dreaming_session(1);
    s.mode = GameMode::Sleeping;
    s.enter_dream();
    assert_eq!(s.transition_state, TransitionState::FadingToDream);
    let mut last = 0;
    for _ in 0..9 {
        s.update_transition(100);
        assert!(s.transition_alpha >= last && s.transition_alpha <= ALPHA_OPAQUE);
        last = s.transition_alpha;
        assert_eq!(s.mode, GameMode::Sleeping);
    }
    assert_eq!(s.transition_alpha, 900);
    s.update_transition(100);
    assert_eq!(s.mode, GameMode::Dreaming);
    assert_eq!(s.transition_state, TransitionState::Idle);
    assert_eq!((s.transition_alpha, s.transition_timer), (0, 0));
    s.update_transition(5000);
    assert_eq!(s.mode, GameMode::Dreaming);
    assert_eq!(s.transition_state, TransitionState::Idle);
}

#[test]
fn starting_a_fade_during_a_fade_does_nothing() {
    let mut s = dreaming_session(2);
    s.wake_up();
    s.update_transition(300);
    s.enter_dream();
    s.wake_up();
    assert_eq!(s.transition_state, TransitionState::FadingToWake);
    assert_eq!(s.transition_timer, 300);
    assert_eq!(s.transition_alpha, 300);
}

#[test]
fn sleeping_through_the_bed_and_fading_into_the_dream() {
    let mut s = GameState::with_seed(7);
    // confirm "Start" on the title menu
    let mut input = FrameInput::idle(16);
    input.confirm_pressed = true;
    s.update(&input);
    assert_eq!(s.mode, GameMode::Awake);
    // the spawn point is next to the bed: ask it
    let mut input = FrameInput::idle(0);
    input.interact_pressed = true;
    s.update(&input);
    let d = s.dialogue.as_ref().expect("the bed answers");
    assert_eq!(d.speaker, "Bed");
    assert_eq!(d.choices.len(), 2);
    assert_eq!(d.select(), Some(ChoiceAction::CommitSleep));
    // commit to sleep
    let mut input = FrameInput::idle(0);
    input.confirm_pressed = true;
    s.update(&input);
    assert!(s.dialogue.is_none());
    assert_eq!(s.mode, GameMode::Sleeping);
    let m = s.maze.as_ref().expect("a maze was carved");
    assert_eq!(m.grid.len(), MAZE_HEIGHT);
    assert_eq!(m.grid[0].len(), MAZE_WIDTH);
    assert!(connected(m));
    assert!(s.current_world.is_some());
    // fall into the dream
    let mut input = FrameInput::idle(0);
    input.dream_pressed = true;
    s.update(&input);
    assert_eq!(s.transition_state, TransitionState::FadingToDream);
    s.update(&FrameInput::idle(500));
    assert_eq!(s.transition_alpha, 500);
    assert_eq!(s.mode, GameMode::Sleeping);
    s.update(&FrameInput::idle(500));
    assert_eq!(s.mode, GameMode::Dreaming);
    assert_eq!(s.transition_alpha, 0);
    assert_eq!(s.transition_state, TransitionState::Idle);
}

#[test]
fn cancelling_the_bed_keeps_the_player_awake() {
    let mut s = GameState::with_seed(8);
    s.mode = GameMode::Awake;
    let mut input = FrameInput::idle(0);
    input.interact_pressed = true;
    s.update(&input);
    let mut input = FrameInput::idle(0);
    input.menu_down_pressed = true;
    s.update(&input);
    assert_eq!(s.dialogue.as_ref().unwrap().selected_choice, 1);
    let mut input = FrameInput::idle(0);
    input.confirm_pressed = true;
    s.update(&input);
    assert!(s.dialogue.is_none());
    assert_eq!(s.mode, GameMode::Awake);
    assert!(s.maze.is_none());
}

#[test]
fn the_bed_does_not_answer_from_afar() {
    let mut s = GameState::with_seed(8);
    s.mode = GameMode::Awake;
    s.player = Player { x: 0, y: 0 };
    let mut input = FrameInput::idle(0);
    input.interact_pressed = true;
    input.inventory_pressed = true;
    s.update(&input);
    assert!(s.dialogue.is_none());
    assert!(s.inventory.is_open);
}

#[test]
fn picking_up_the_bicycle_once() {
    let mut s = dreaming_session(3);
    s.player = Player { x: 90_000, y: 90_000 };
    s.update(&FrameInput::idle(0));
    assert!(s.bicycle.collected);
    assert!(s.bicycle_speed_boost);
    assert_eq!(s.inventory.items, vec!["Bicycle".to_string()]);
    assert!(!s.knife.collected);
    assert_eq!(s.dust_particles.len(), 1);
    let p = s.dust_particles[0];
    assert_eq!((p.x, p.y, p.life), (130_000, 130_000, DUST_LIFE_MS));
    assert!(-50 <= p.vx && p.vx < 50 && -50 <= p.vy && p.vy < 50);
    for _ in 0..5 {
        s.update(&FrameInput::idle(0));
        assert_eq!(s.inventory.items, vec!["Bicycle".to_string()]);
    }
}

#[test]
fn picking_up_both_items_in_one_frame() {
    let mut s = dreaming_session(4);
    s.player = Player { x: 125_000, y: 120_000 };
    s.update(&FrameInput::idle(0));
    assert_eq!(s.inventory.items, vec!["Bicycle".to_string(), "Knife".to_string()]);
    s.update(&FrameInput::idle(0));
    s.update(&FrameInput::idle(0));
    assert_eq!(s.inventory.items.len(), 2);
}

#[test]
fn holding_interact_wakes_the_dreamer() {
    let mut s = dreaming_session(5);
    s.player = Player { x: 700_000, y: 500_000 };
    let mut input = FrameInput::idle(500);
    input.interact_held = true;
    for i in 0..3 {
        s.update(&input);
        assert_eq!(s.wake_progress, 500 * (i + 1));
        assert_eq!(s.transition_state, TransitionState::Idle);
    }
    s.update(&input);
    assert_eq!(s.transition_state, TransitionState::FadingToWake);
    assert_eq!(s.wake_progress, 0);
    s.update(&input);
    assert_eq!(s.transition_alpha, 500);
    s.update(&input);
    assert_eq!(s.mode, GameMode::Awake);
    assert!(s.maze.is_none());
    assert!(s.current_world.is_none());
    assert_eq!(s.player, Player::new());
}

#[test]
fn releasing_interact_resets_the_wake_bar() {
    let mut s = dreaming_session(6);
    s.player = Player { x: 700_000, y: 500_000 };
    let mut held = FrameInput::idle(950);
    held.interact_held = true;
    s.update(&held);
    s.update(&held);
    assert_eq!(s.wake_progress, 1900);
    s.update(&FrameInput::idle(10));
    assert_eq!(s.wake_progress, 0);
    s.update(&held);
    assert_eq!(s.wake_progress, 950);
    assert_eq!(s.transition_state, TransitionState::Idle);
}

#[test]
fn greeting_the_nearest_figure() {
    let mut s = dreaming_session(7);
    s.player = Player { x: 420_000, y: 300_000 };
    let mut input = FrameInput::idle(0);
    input.interact_pressed = true;
    s.update(&input);
    let d = s.dialogue.as_ref().expect("a greeting");
    assert_eq!(d.text, "Hello, I am Mysterious Figure");
    assert_eq!(d.speaker, "Mysterious Figure");
    assert!(d.choices.is_empty());
    let mut input = FrameInput::idle(0);
    input.confirm_pressed = true;
    s.update(&input);
    assert!(s.dialogue.is_none());
    assert_eq!(s.mode, GameMode::Dreaming);
}

#[test]
fn walls_stop_the_dreamer() {
    let mut s = dreaming_session(8);
    // the body's middle sits in the corner wall cell (0, 0)
    s.player = Player { x: 0, y: 0 };
    let mut input = FrameInput::idle(100);
    input.right_held = true;
    s.update(&input);
    let m = s.maze.as_ref().unwrap();
    let cx = ((15_000 + 40_000) / 40_000) as usize;
    let expected = if m.grid[1][cx] == Cell::Wall { 0 } else { 15_000 };
    assert_eq!(s.player.x, expected);
}

#[test]
fn no_gameplay_during_a_fade() {
    let mut s = dreaming_session(9);
    s.player = Player { x: 90_000, y: 90_000 };
    s.wake_up();
    s.update(&FrameInput::idle(100));
    assert!(!s.bicycle.collected);
    assert!(s.inventory.items.is_empty());
}

#[test]
fn dust_fades_away() {
    let mut s = GameState::with_seed(10);
    s.dust_particles.push(Particle { x: 0, y: 0, vx: 10, vy: -5, life: 300 });
    s.dust_particles.push(Particle { x: 5, y: 5, vx: 0, vy: 0, life: 1000 });
    s.update_particles(200);
    assert_eq!(s.dust_particles.len(), 2);
    assert_eq!(s.dust_particles[0], Particle { x: 2000, y: -1000, vx: 10, vy: -5, life: 100 });
    s.update_particles(100);
    assert_eq!(s.dust_particles, vec![Particle { x: 5, y: 5, vx: 0, vy: 0, life: 700 }]);
    s.add_dust_particle(1, 2);
    assert_eq!(s.dust_particles.len(), 2);
    assert_eq!(s.dust_particles[1].life, DUST_LIFE_MS);
}

#[test]
fn menus_lead_to_settings_and_credits() {
    let mut s = GameState::new().expect("entropy");
    let mut input = FrameInput::idle(16);
    input.menu_down_pressed = true;
    input.confirm_pressed = true;
    s.update(&input);
    assert_eq!(s.mode, GameMode::Settings);
    assert!(s.settings_menu.is_open);
    let mut input = FrameInput::idle(16);
    input.cancel_pressed = true;
    s.update(&input);
    assert_eq!(s.mode, GameMode::StartMenu);
    assert!(!s.settings_menu.is_open);
    let mut input = FrameInput::idle(16);
    input.menu_down_pressed = true;
    input.confirm_pressed = true;
    s.update(&input);
    assert_eq!(s.mode, GameMode::Credits);
    let mut input = FrameInput::idle(16);
    input.cancel_pressed = true;
    s.update(&input);
    assert_eq!(s.mode, GameMode::StartMenu);
}

#[test]
fn going_to_sleep_carves_a_maze() {
    let mut s = GameState::with_seed(12);
    s.mode = GameMode::Awake;
    s.go_to_sleep();
    assert_eq!(s.mode, GameMode::Sleeping);
    assert!(connected(s.maze.as_ref().unwrap()));
    let names = ["Purple Forest", "Orange Desert", "Blue Ocean", "Pink Mountains", "Green Fields", "Golden Plains"];
    assert!(names.contains(&s.current_world.unwrap().name));
}

#[test]
fn dust_drifts_in_varied_directions() {
    let mut s = GameState::with_seed(13);
    for _ in 0..40 {
        s.add_dust_particle(100_000, 100_000);
    }
    let first = s.dust_particles[0];
    assert!(s.dust_particles.iter().all(|p| -50 <= p.vx && p.vx < 50 && -50 <= p.vy && p.vy < 50));
    assert!(s.dust_particles.iter().any(|p| p.vx != first.vx || p.vy != first.vy));
    assert!(s.dust_particles.iter().all(|p| p.x == 100_000 && p.y == 100_000 && p.life == DUST_LIFE_MS));
}

#[test]
fn fresh_session_starts_on_the_menu() {
    let s = GameState::with_seed(14);
    assert_eq!(s.mode, GameMode::StartMenu);
    assert_eq!(s.player, Player::new());
    assert_eq!(s.transition_state, TransitionState::Idle);
    assert!(s.dialogue.is_none() && s.maze.is_none() && s.current_world.is_none());
    assert!(s.inventory.items.is_empty());
    assert_eq!(s.npcs.len(), 2);
    assert_eq!(s.npcs[0].name, "Mysterious Figure");
    assert_eq!(s.npcs[1].name, "Dream Guardian");
    assert_eq!((s.bed_x, s.bed_y), (370_000, 280_000));
}

#[test]
fn hold_counts_while_walking_and_browsing() {
    let mut s = dreaming_session(15);
    s.player = Player { x: 700_000, y: 500_000 };
    let mut input = FrameInput::idle(500);
    input.interact_held = true;
    input.left_held = true;
    input.inventory_pressed = true;
    input.menu_down_pressed = true;
    for i in 0..3 {
        s.update(&input);
        assert_eq!(s.wake_progress, 500 * (i + 1));
        assert_eq!(s.transition_state, TransitionState::Idle);
    }
    s.update(&input);
    assert_eq!(s.transition_state, TransitionState::FadingToWake);
    assert_eq!(s.wake_progress, 0);
    input.dt_ms = 100;
    s.update(&input);
    assert_eq!(s.transition_state, TransitionState::FadingToWake);
    assert_eq!(s.transition_timer, 100);
    assert_eq!(s.wake_progress, 0);
}
