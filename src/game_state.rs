//! The scene state machine: which phase the game is in, the timed fades
//! between phases, and the per-frame rules of each phase.
use crate::dialogue::{navigated, Choice, ChoiceAction, Dialogue};
use crate::dream_world::{is_world, DreamWorld};
use crate::geometry::{closer_than, rects_overlap, within_distance, Rect};
use crate::input::FrameInput;
use crate::inventory::Inventory;
use crate::item::Item;
use crate::maze::{is_perfect, path_at, Maze, CELL_SIZE, MAZE_HEIGHT, MAZE_WIDTH};
use crate::npc::NPC;
use crate::player::{player_moved, Player, PLAYER_SIZE};
use crate::random::{draw_between, seeded_rng, try_entropy_rng};
use crate::ui::{menu_moved, MenuOption, SettingsMenu, StartMenu};
use rand::rngs::StdRng;
use vstd::prelude::*;

verus! {

#[derive(Clone, Copy, PartialEq, Eq, Structural, Debug)]
pub enum GameMode {
    StartMenu,
    Settings,
    Credits,
    Awake,
    Sleeping,
    Dreaming,
}

#[derive(Clone, Copy, PartialEq, Eq, Structural, Debug)]
pub enum TransitionState {
    Idle,
    FadingToWake,
    FadingToDream,
}

/// A speck of dust: position in thousandths of a world unit, velocity in
/// thousandths per millisecond, remaining life in milliseconds.
#[derive(Clone, Copy, PartialEq, Eq, Structural, Debug)]
pub struct Particle {
    pub x: i64,
    pub y: i64,
    pub vx: i64,
    pub vy: i64,
    pub life: i64,
}

/// Length of a fade, in milliseconds.
pub const TRANSITION_MS: u64 = 1000;

/// Opacity of a finished fade; opacity is kept in thousandths.
pub const ALPHA_OPAQUE: u64 = 1000;

/// How long "interact" must be held in a dream to wake up, in milliseconds.
pub const WAKE_HOLD_MS: u64 = 2000;

/// The bed answers within this distance of the player's corner.
pub const BED_REACH: i64 = 50_000;

/// A figure answers within this distance of the player's corner.
pub const NPC_REACH: i64 = 100_000;

/// Offset from the player's corner to the middle of the body.
pub const BODY_CENTER: i64 = 40_000;

pub const BICYCLE_WIDTH: i64 = 30_000;

pub const BICYCLE_HEIGHT: i64 = 20_000;

pub const KNIFE_WIDTH: i64 = 20_000;

pub const KNIFE_HEIGHT: i64 = 20_000;

/// Life of a new dust speck, in milliseconds.
pub const DUST_LIFE_MS: i64 = 1000;

/// Dust drifts at less than this speed along each axis.
pub const DUST_SPEED: i64 = 50;

/// Dust stays within this distance of the origin.
pub const DUST_BOUND: i64 = 1_000_000_000_000;

pub struct GameState {
    pub player: Player,
    pub mode: GameMode,
    pub current_world: Option<DreamWorld>,
    pub bed_x: i64,
    pub bed_y: i64,
    pub bicycle: Item,
    pub knife: Item,
    pub npcs: Vec<NPC>,
    pub transition_state: TransitionState,
    pub transition_alpha: u64,
    pub transition_timer: u64,
    pub dialogue: Option<Dialogue>,
    pub inventory: Inventory,
    pub maze: Option<Maze>,
    pub start_menu: StartMenu,
    pub settings_menu: SettingsMenu,
    pub wake_progress: u64,
    pub dust_particles: Vec<Particle>,
    pub bicycle_speed_boost: bool,
    pub rng: StdRng,
}

/// Opacity of a fade `t` milliseconds in.
pub open spec fn alpha_at(t: int) -> int {
    if t >= TRANSITION_MS {
        ALPHA_OPAQUE as int
    } else {
        t * ALPHA_OPAQUE / TRANSITION_MS as int
    }
}

/// Hold progress after one frame: releasing resets it, reaching the
/// threshold fires the wake action and resets it, otherwise it grows by `dt`.
/// The second component says whether the action fired.
pub open spec fn hold_after(progress: int, held: bool, dt: int) -> (int, bool) {
    if !held {
        (0, false)
    } else if progress + dt >= WAKE_HOLD_MS {
        (0, true)
    } else {
        (progress + dt, false)
    }
}

/// The player's corner where the game starts and after waking.
pub open spec fn spawn_point() -> Player {
    Player { x: 360_000, y: 260_000 }
}

pub open spec fn body_box(p: Player) -> Rect {
    Rect { x: p.x, y: p.y, w: PLAYER_SIZE, h: PLAYER_SIZE }
}

pub open spec fn bicycle_box(i: Item) -> Rect {
    Rect { x: i.x, y: i.y, w: BICYCLE_WIDTH, h: BICYCLE_HEIGHT }
}

pub open spec fn knife_box(i: Item) -> Rect {
    Rect { x: i.x, y: i.y, w: KNIFE_WIDTH, h: KNIFE_HEIGHT }
}

/// The item is still lying there and the player's body touches its box.
pub open spec fn picks_up(item: Item, item_box: Rect, p: Player) -> bool {
    !item.collected && rects_overlap(body_box(p), item_box)
}

/// A dust speck alive within its bounds.
pub open spec fn particle_ok(p: Particle) -> bool {
    &&& -DUST_SPEED <= p.vx <= DUST_SPEED
    &&& -DUST_SPEED <= p.vy <= DUST_SPEED
    &&& 0 < p.life <= DUST_LIFE_MS
    &&& -DUST_BOUND + DUST_SPEED * p.life <= p.x <= DUST_BOUND - DUST_SPEED * p.life
    &&& -DUST_BOUND + DUST_SPEED * p.life <= p.y <= DUST_BOUND - DUST_SPEED * p.life
}

/// A speck just raised at `(x, y)`.
pub open spec fn fresh_dust(p: Particle, x: int, y: int) -> bool {
    &&& p.x == x
    &&& p.y == y
    &&& -DUST_SPEED <= p.vx < DUST_SPEED
    &&& -DUST_SPEED <= p.vy < DUST_SPEED
    &&& p.life == DUST_LIFE_MS
}

/// A speck `dt` milliseconds later.
pub open spec fn drifted(p: Particle, dt: int) -> Particle {
    Particle {
        x: (p.x + p.vx * dt) as i64,
        y: (p.y + p.vy * dt) as i64,
        life: (p.life - dt) as i64,
        ..p
    }
}

/// The specks that outlive the next `dt` milliseconds, drifted, in order.
pub open spec fn aged(s: Seq<Particle>, dt: int) -> Seq<Particle>
    decreases s.len(),
{
    if s.len() == 0 {
        s
    } else if s.last().life > dt {
        aged(s.drop_last(), dt).push(drifted(s.last(), dt))
    } else {
        aged(s.drop_last(), dt)
    }
}

/// The index of the last figure within reach of `(x, y)`, or -1.
pub open spec fn last_in_reach(npcs: Seq<NPC>, x: int, y: int) -> int
    decreases npcs.len(),
{
    if npcs.len() == 0 {
        -1
    } else if closer_than(x, y, npcs.last().x as int, npcs.last().y as int, NPC_REACH as int) {
        npcs.len() - 1
    } else {
        last_in_reach(npcs.drop_last(), x, y)
    }
}

/// The greeting of figure `npc`: no choices, nothing selected.
pub open spec fn is_greeting(d: Dialogue, npc: NPC) -> bool {
    &&& d.text@ == "Hello, I am "@ + npc.name@
    &&& d.speaker@ == npc.name@
    &&& d.is_active
    &&& d.choices@.len() == 0
    &&& d.selected_choice == 0
}

/// The bed's question, offering to lie down or to cancel.
pub open spec fn is_bed_question(d: Dialogue) -> bool {
    &&& d.text@ == "The bed is so comfortable, I want to sleep here forever..."@
    &&& d.speaker@ == "Bed"@
    &&& d.is_active
    &&& d.choices@.len() == 2
    &&& d.choices@[0].text@ == "Lay down"@
    &&& d.choices@[0].action == ChoiceAction::CommitSleep
    &&& d.choices@[1].text@ == "Cancel"@
    &&& d.choices@[1].action == ChoiceAction::Cancel
    &&& d.selected_choice == 0
}

/// A freshly carved dream maze of the configured size.
pub open spec fn is_dream_maze(m: Maze) -> bool {
    &&& m.wf()
    &&& m.width() == MAZE_WIDTH
    &&& m.height() == MAZE_HEIGHT
    &&& is_perfect(m.cells())
}

/// The maze reports a wall at the point `(x, y)`.
pub open spec fn wall_at(m: Maze, x: int, y: int) -> bool {
    !(x >= 0 && y >= 0 && path_at(m.cells(), x / CELL_SIZE as int, y / CELL_SIZE as int))
}

/// The dialogue after one frame of navigation.
pub open spec fn dialogue_navigated(d: Dialogue, up: bool, down: bool) -> Dialogue {
    Dialogue {
        selected_choice: if d.is_active {
            navigated(d.selected_choice as int, d.choices@.len() as int, up, down) as usize
        } else {
            d.selected_choice
        },
        ..d
    }
}

/// The fade stage of a frame.
pub open spec fn transition_done(pre: GameState, dt: int, post: GameState) -> bool {
    let t = pre.transition_timer + dt;
    match pre.transition_state {
        TransitionState::Idle => post == pre,
        TransitionState::FadingToWake => if t >= TRANSITION_MS {
            post == GameState {
                mode: GameMode::Awake,
                current_world: None,
                maze: None,
                player: spawn_point(),
                transition_state: TransitionState::Idle,
                transition_alpha: 0,
                transition_timer: 0,
                wake_progress: 0,
                ..pre
            }
        } else {
            post == GameState {
                transition_timer: t as u64,
                transition_alpha: alpha_at(t) as u64,
                ..pre
            }
        },
        TransitionState::FadingToDream => if t >= TRANSITION_MS {
            post == GameState {
                mode: GameMode::Dreaming,
                transition_state: TransitionState::Idle,
                transition_alpha: 0,
                transition_timer: 0,
                ..pre
            }
        } else {
            post == GameState {
                transition_timer: t as u64,
                transition_alpha: alpha_at(t) as u64,
                ..pre
            }
        },
    }
}

/// The dust stage of a frame.
pub open spec fn particles_done(pre: GameState, dt: int, post: GameState) -> bool {
    &&& post.dust_particles@ == aged(pre.dust_particles@, dt)
    &&& post == GameState { dust_particles: post.dust_particles, ..pre }
}

/// A frame on the title menu: navigate, then act on the selection when
/// confirmed.
pub open spec fn start_menu_done(pre: GameState, input: FrameInput, post: GameState) -> bool {
    let sel = menu_moved(pre.start_menu.selected, input.menu_up_pressed, input.menu_down_pressed);
    let menu = StartMenu { selected: sel };
    if !input.confirm_pressed {
        post == GameState { start_menu: menu, ..pre }
    } else {
        match sel {
            MenuOption::Start => post == GameState { start_menu: menu, mode: GameMode::Awake, ..pre },
            MenuOption::Settings => post == GameState {
                start_menu: menu,
                settings_menu: SettingsMenu { is_open: true },
                mode: GameMode::Settings,
                ..pre
            },
            MenuOption::Credits => post == GameState {
                start_menu: menu,
                mode: GameMode::Credits,
                ..pre
            },
        }
    }
}

/// A frame on the settings screen: cancel goes back to the title menu.
pub open spec fn settings_done(pre: GameState, input: FrameInput, post: GameState) -> bool {
    if input.cancel_pressed {
        post == GameState {
            settings_menu: SettingsMenu { is_open: false },
            mode: GameMode::StartMenu,
            ..pre
        }
    } else {
        post == pre
    }
}

/// A frame on the credits: cancel goes back to the title menu.
pub open spec fn credits_done(pre: GameState, input: FrameInput, post: GameState) -> bool {
    if input.cancel_pressed {
        post == GameState { mode: GameMode::StartMenu, ..pre }
    } else {
        post == pre
    }
}

/// A waking frame: walk, ask the bed when "interact" is pressed near it,
/// toggle the inventory view. Nothing happens during a fade.
pub open spec fn awake_done(pre: GameState, input: FrameInput, post: GameState) -> bool {
    if pre.transition_state != TransitionState::Idle {
        post == pre
    } else {
        let p = player_moved(pre.player, input, false);
        let ask = input.interact_pressed && closer_than(
            p.x as int,
            p.y as int,
            pre.bed_x as int,
            pre.bed_y as int,
            BED_REACH as int,
        );
        &&& post.player == p
        &&& ask ==> post.dialogue is Some && is_bed_question(post.dialogue->0)
        &&& !ask ==> post.dialogue == pre.dialogue
        &&& post.inventory.items == pre.inventory.items
        &&& post.inventory.is_open == (pre.inventory.is_open != input.inventory_pressed)
        &&& post == GameState {
            player: post.player,
            dialogue: post.dialogue,
            inventory: post.inventory,
            ..pre
        }
    }
}

/// A sleeping frame: the dream key starts the fade into the dream.
pub open spec fn sleeping_done(pre: GameState, input: FrameInput, post: GameState) -> bool {
    if pre.transition_state == TransitionState::Idle && input.dream_pressed {
        post == GameState {
            transition_state: TransitionState::FadingToDream,
            transition_alpha: 0,
            transition_timer: 0,
            ..pre
        }
    } else {
        post == pre
    }
}

/// Where the player stands after a dreaming frame: the move is undone when
/// the middle of the body would end in a wall.
pub open spec fn dream_position(pre: GameState, input: FrameInput) -> Player {
    let moved = player_moved(pre.player, input, pre.bicycle_speed_boost);
    match pre.maze {
        Some(m) => if wall_at(m, moved.x + BODY_CENTER, moved.y + BODY_CENTER) {
            pre.player
        } else {
            moved
        },
        None => moved,
    }
}

/// The names a dreaming frame adds to the inventory.
pub open spec fn dream_pickups(bike: bool, knife: bool) -> Seq<Seq<char>> {
    (if bike {
        seq!["Bicycle"@]
    } else {
        Seq::empty()
    }) + (if knife {
        seq!["Knife"@]
    } else {
        Seq::empty()
    })
}

/// A dreaming frame: move unless a wall is in the way, pick up what the body
/// touches, raise dust while riding, greet the last figure in reach when
/// "interact" is pressed, count the hold of "interact" towards waking up,
/// toggle the inventory view. Nothing happens during a fade.
pub open spec fn dreaming_done(pre: GameState, input: FrameInput, post: GameState) -> bool {
    if pre.transition_state != TransitionState::Idle {
        post == pre
    } else {
        let p = dream_position(pre, input);
        let bike = picks_up(pre.bicycle, bicycle_box(pre.bicycle), p);
        let knife = picks_up(pre.knife, knife_box(pre.knife), p);
        let boost = pre.bicycle_speed_boost || bike;
        let k = last_in_reach(pre.npcs@, p.x as int, p.y as int);
        let greet = input.interact_pressed && k >= 0;
        let hold = hold_after(pre.wake_progress as int, input.interact_held, input.dt_ms as int);
        &&& post.player == p
        &&& post.bicycle == Item { collected: pre.bicycle.collected || bike, ..pre.bicycle }
        &&& post.knife == Item { collected: pre.knife.collected || knife, ..pre.knife }
        &&& post.bicycle_speed_boost == boost
        &&& post.inventory.names() == pre.inventory.names() + dream_pickups(bike, knife)
        &&& post.inventory.is_open == (pre.inventory.is_open != input.inventory_pressed)
        &&& boost ==> {
            &&& post.dust_particles@.len() == pre.dust_particles@.len() + 1
            &&& post.dust_particles@.drop_last() == pre.dust_particles@
            &&& fresh_dust(post.dust_particles@.last(), p.x + BODY_CENTER, p.y + BODY_CENTER)
        }
        &&& !boost ==> post.dust_particles == pre.dust_particles
        &&& greet ==> post.dialogue is Some && is_greeting(post.dialogue->0, pre.npcs@[k])
        &&& !greet ==> post.dialogue == pre.dialogue
        &&& post.wake_progress == hold.0
        &&& hold.1 ==> post.transition_state == TransitionState::FadingToWake
        &&& !hold.1 ==> post.transition_state == TransitionState::Idle
        &&& post == GameState {
            player: post.player,
            bicycle: post.bicycle,
            knife: post.knife,
            bicycle_speed_boost: post.bicycle_speed_boost,
            inventory: post.inventory,
            dust_particles: post.dust_particles,
            dialogue: post.dialogue,
            wake_progress: post.wake_progress,
            transition_state: post.transition_state,
            rng: post.rng,
            ..pre
        }
    }
}

/// The phase stage of a frame.
pub open spec fn mode_done(pre: GameState, input: FrameInput, post: GameState) -> bool {
    match pre.mode {
        GameMode::StartMenu => start_menu_done(pre, input, post),
        GameMode::Settings => settings_done(pre, input, post),
        GameMode::Credits => credits_done(pre, input, post),
        GameMode::Awake => awake_done(pre, input, post),
        GameMode::Sleeping => sleeping_done(pre, input, post),
        GameMode::Dreaming => dreaming_done(pre, input, post),
    }
}

/// The dialogue stage of a frame: navigate the open conversation; on
/// confirm, close it, and fall asleep if lying down was chosen.
pub open spec fn dialogue_done(pre: GameState, input: FrameInput, post: GameState) -> bool {
    match pre.dialogue {
        None => post == pre,
        Some(d) => {
            let d2 = dialogue_navigated(d, input.menu_up_pressed, input.menu_down_pressed);
            let commit = d2.choices@.len() > 0 && d2.choices@[d2.selected_choice as int].action
                == ChoiceAction::CommitSleep;
            if !input.confirm_pressed {
                post == GameState { dialogue: Some(d2), ..pre }
            } else if commit {
                &&& post.mode == GameMode::Sleeping
                &&& post.dialogue is None
                &&& post.maze is Some && is_dream_maze(post.maze->0)
                &&& post.current_world is Some && exists|i: int|
                    is_world(post.current_world->0, i)
                &&& post == GameState {
                    mode: post.mode,
                    dialogue: None,
                    maze: post.maze,
                    current_world: post.current_world,
                    rng: post.rng,
                    ..pre
                }
            } else {
                post == GameState { dialogue: None, ..pre }
            }
        },
    }
}

/// One whole frame: the fade first, then the dust, then the phase's own
/// rules, then the open conversation.
pub open spec fn frame_done(pre: GameState, input: FrameInput, post: GameState) -> bool {
    exists|a: GameState, b: GameState, c: GameState|
        #[trigger] transition_done(pre, input.dt_ms as int, a) && #[trigger] particles_done(
            a,
            input.dt_ms as int,
            b,
        ) && #[trigger] mode_done(b, input, c) && dialogue_done(c, input, post)
}

/// Hold progress after holding "interact" through frames of the given
/// lengths from a standing start, and whether the last frame fired.
pub open spec fn held_through(ticks: Seq<int>) -> (int, bool)
    decreases ticks.len(),
{
    if ticks.len() == 0 {
        (0, false)
    } else {
        hold_after(held_through(ticks.drop_last()).0, true, ticks.last())
    }
}

/// Total length of the frames.
pub open spec fn total_ms(ticks: Seq<int>) -> int
    decreases ticks.len(),
{
    if ticks.len() == 0 {
        0
    } else {
        total_ms(ticks.drop_last()) + ticks.last()
    }
}

/// Holding "interact" from a standing start, the wake action fires on the
/// frame where the held time first reaches the threshold and on no frame
/// before it; until then the progress is the held time.
pub proof fn lemma_hold_fires_once_at_threshold(ticks: Seq<int>)
    requires
        ticks.len() > 0,
        forall|i: int| 0 <= i < ticks.len() ==> #[trigger] ticks[i] >= 0,
        total_ms(ticks.drop_last()) < WAKE_HOLD_MS,
    ensures
        forall|j: int|
            0 <= j < ticks.len() - 1 ==> #[trigger] held_through(ticks.take(j + 1)) == (
            total_ms(ticks.take(j + 1)), false),
        held_through(ticks).1 <==> total_ms(ticks) >= WAKE_HOLD_MS,
{
    let front = ticks.drop_last();
    lemma_total_grows(front);
    assert forall|j: int| 0 <= j < ticks.len() - 1 implies #[trigger] held_through(
        ticks.take(j + 1),
    ) == (total_ms(ticks.take(j + 1)), false) by {
        assert(ticks.take(j + 1) =~= front.take(j + 1));
        lemma_held_matches_total(ticks, j);
    }
    assert(held_through(ticks) == hold_after(held_through(front).0, true, ticks.last()));
    assert(total_ms(ticks) == total_ms(front) + ticks.last());
    if front.len() > 0 {
        assert(front =~= ticks.take(ticks.len() - 1));
        lemma_held_matches_total(ticks, ticks.len() - 2);
    } else {
        assert(held_through(front) == (0int, false));
        assert(total_ms(front) == 0);
    }
}

proof fn lemma_total_grows(ticks: Seq<int>)
    requires
        forall|i: int| 0 <= i < ticks.len() ==> #[trigger] ticks[i] >= 0,
    ensures
        forall|j: int| 0 <= j <= ticks.len() ==> #[trigger] total_ms(ticks.take(j)) <= total_ms(ticks),
    decreases ticks.len(),
{
    if ticks.len() > 0 {
        let front = ticks.drop_last();
        lemma_total_grows(front);
        assert forall|j: int| 0 <= j <= ticks.len() implies #[trigger] total_ms(ticks.take(j))
            <= total_ms(ticks) by {
            if j == ticks.len() {
                assert(ticks.take(j) =~= ticks);
            } else {
                assert(ticks.take(j) =~= front.take(j));
            }
        }
    }
}

/// While the held time stays below the threshold, the progress equals it and
/// nothing fires.
proof fn lemma_held_matches_total(ticks: Seq<int>, j: int)
    requires
        forall|i: int| 0 <= i < ticks.len() ==> #[trigger] ticks[i] >= 0,
        0 <= j < ticks.len(),
        total_ms(ticks.take(j + 1)) < WAKE_HOLD_MS,
    ensures
        held_through(ticks.take(j + 1)) == (total_ms(ticks.take(j + 1)), false),
    decreases j,
{
    let t = ticks.take(j + 1);
    assert(t.drop_last() =~= ticks.take(j));
    assert(t.last() == ticks[j]);
    assert(held_through(t) == hold_after(held_through(t.drop_last()).0, true, t.last()));
    assert(total_ms(t) == total_ms(t.drop_last()) + t.last());
    if j > 0 {
        lemma_held_matches_total(ticks, j - 1);
    } else {
        assert(ticks.take(0).len() == 0);
        assert(held_through(ticks.take(0)) == (0int, false));
        assert(total_ms(ticks.take(0)) == 0);
    }
}

/// A collected bicycle stays collected, and a frame never adds its name
/// again: the inventory is unchanged, or only the knife joins it.
pub proof fn lemma_collected_bicycle_adds_nothing(pre: GameState, input: FrameInput, post: GameState)
    requires
        frame_done(pre, input, post),
        pre.bicycle.collected,
    ensures
        post.bicycle.collected,
        post.inventory.names() == pre.inventory.names() || post.inventory.names()
            == pre.inventory.names().push("Knife"@),
{
    let (a, b, c) = choose|a: GameState, b: GameState, c: GameState|
        #[trigger] transition_done(pre, input.dt_ms as int, a) && #[trigger] particles_done(
            a,
            input.dt_ms as int,
            b,
        ) && #[trigger] mode_done(b, input, c) && dialogue_done(c, input, post);
    assert(dream_pickups(false, false) =~= Seq::<Seq<char>>::empty());
    assert(b.inventory.names() + Seq::<Seq<char>>::empty() =~= b.inventory.names());
    assert(b.inventory.names() + dream_pickups(false, true) =~= b.inventory.names().push("Knife"@));
}

/// A collected knife stays collected, and a frame never adds its name again:
/// the inventory is unchanged, or only the bicycle joins it.
pub proof fn lemma_collected_knife_adds_nothing(pre: GameState, input: FrameInput, post: GameState)
    requires
        frame_done(pre, input, post),
        pre.knife.collected,
    ensures
        post.knife.collected,
        post.inventory.names() == pre.inventory.names() || post.inventory.names()
            == pre.inventory.names().push("Bicycle"@),
{
    let (a, b, c) = choose|a: GameState, b: GameState, c: GameState|
        #[trigger] transition_done(pre, input.dt_ms as int, a) && #[trigger] particles_done(
            a,
            input.dt_ms as int,
            b,
        ) && #[trigger] mode_done(b, input, c) && dialogue_done(c, input, post);
    assert(dream_pickups(false, false) =~= Seq::<Seq<char>>::empty());
    assert(b.inventory.names() + Seq::<Seq<char>>::empty() =~= b.inventory.names());
    assert(b.inventory.names() + dream_pickups(true, false) =~= b.inventory.names().push(
        "Bicycle"@,
    ));
}

/// In a dream with no fade running, whatever else is held or pressed, a frame
/// counts the hold of "interact" by `hold_after`: released, the progress
/// drops to zero and nothing starts; held, the frame's time is added, and
/// the fade back to waking starts exactly when the total reaches the
/// threshold, the progress then starting again from zero.
pub proof fn lemma_dream_frame_counts_hold(pre: GameState, input: FrameInput, post: GameState)
    requires
        frame_done(pre, input, post),
        pre.mode == GameMode::Dreaming,
        pre.transition_state == TransitionState::Idle,
    ensures
        (post.wake_progress as int, post.transition_state == TransitionState::FadingToWake)
            == hold_after(pre.wake_progress as int, input.interact_held, input.dt_ms as int),
        post.transition_state == TransitionState::Idle || post.transition_state
            == TransitionState::FadingToWake,
{
    let (a, b, c) = choose|a: GameState, b: GameState, c: GameState|
        #[trigger] transition_done(pre, input.dt_ms as int, a) && #[trigger] particles_done(
            a,
            input.dt_ms as int,
            b,
        ) && #[trigger] mode_done(b, input, c) && dialogue_done(c, input, post);
}

/// Once the fade back to waking has started, frames only run it down and
/// never start it again, whatever is held or pressed: either it goes on,
/// its timer advanced by the frame and the hold progress untouched, or it
/// has run its time and finished with no hold progress left.
pub proof fn lemma_wake_fade_never_restarts(pre: GameState, input: FrameInput, post: GameState)
    requires
        frame_done(pre, input, post),
        pre.transition_state == TransitionState::FadingToWake,
    ensures
        post.transition_state == TransitionState::FadingToWake ==> post.transition_timer
            == pre.transition_timer + input.dt_ms && post.wake_progress == pre.wake_progress,
        post.transition_state != TransitionState::FadingToWake ==> post.transition_state
            == TransitionState::Idle && post.wake_progress == 0 && pre.transition_timer
            + input.dt_ms >= TRANSITION_MS,
{
    let (a, b, c) = choose|a: GameState, b: GameState, c: GameState|
        #[trigger] transition_done(pre, input.dt_ms as int, a) && #[trigger] particles_done(
            a,
            input.dt_ms as int,
            b,
        ) && #[trigger] mode_done(b, input, c) && dialogue_done(c, input, post);
}

/// Once both items are collected, frames never change the inventory's
/// contents, however often the player walks over where the items lay.
pub proof fn lemma_collected_items_add_nothing(states: Seq<GameState>, inputs: Seq<FrameInput>)
    requires
        states.len() == inputs.len() + 1,
        forall|i: int|
            0 <= i < inputs.len() ==> #[trigger] frame_done(states[i], inputs[i], states[i + 1]),
        states[0].bicycle.collected,
        states[0].knife.collected,
    ensures
        forall|i: int|
            0 <= i < states.len() ==> (#[trigger] states[i]).inventory.names()
                == states[0].inventory.names() && states[i].bicycle.collected
                && states[i].knife.collected,
    decreases inputs.len(),
{
    if inputs.len() > 0 {
        let n = inputs.len() - 1;
        let front = states.drop_last();
        assert forall|i: int| 0 <= i < n implies #[trigger] frame_done(
            front[i],
            inputs.drop_last()[i],
            front[i + 1],
        ) by {
            assert(frame_done(states[i], inputs[i], states[i + 1]));
        }
        lemma_collected_items_add_nothing(front, inputs.drop_last());
        assert(frame_done(states[n], inputs[n], states[n + 1]));
        assert(front[n] == states[n]);
        lemma_frame_keeps_inventory(states[n], inputs[n], states[n + 1]);
        assert forall|i: int| 0 <= i < states.len() implies (#[trigger] states[i]).inventory.names()
            == states[0].inventory.names() && states[i].bicycle.collected
            && states[i].knife.collected by {
            if i < states.len() - 1 {
                assert(front[i] == states[i]);
            }
        }
    }
}

/// One frame leaves the inventory alone once both items are collected.
proof fn lemma_frame_keeps_inventory(pre: GameState, input: FrameInput, post: GameState)
    requires
        frame_done(pre, input, post),
        pre.bicycle.collected,
        pre.knife.collected,
    ensures
        post.inventory.names() == pre.inventory.names(),
        post.bicycle.collected,
        post.knife.collected,
{
    let (a, b, c) = choose|a: GameState, b: GameState, c: GameState|
        #[trigger] transition_done(pre, input.dt_ms as int, a) && #[trigger] particles_done(
            a,
            input.dt_ms as int,
            b,
        ) && #[trigger] mode_done(b, input, c) && dialogue_done(c, input, post);
    assert(dream_pickups(false, false) =~= Seq::<Seq<char>>::empty());
    assert(b.inventory.names() + Seq::<Seq<char>>::empty() =~= b.inventory.names());
}

/// Advances the hold of "interact" by one frame of `dt` milliseconds.
pub fn advance_hold(progress: u64, held: bool, dt: u64) -> (r: (u64, bool))
    requires
        progress < WAKE_HOLD_MS,
    ensures
        (r.0 as int, r.1) == hold_after(progress as int, held, dt as int),
        r.0 < WAKE_HOLD_MS,
{
    if !held {
        (0, false)
    } else if dt >= WAKE_HOLD_MS - progress {
        (0, true)
    } else {
        (progress + dt, false)
    }
}

fn greeting(npc: NPC) -> (d: Dialogue)
    ensures
        is_greeting(d, npc),
{
    let text = String::from_str("Hello, I am ").concat(npc.name);
    Dialogue::new(text, String::from_str(npc.name))
}

fn bed_question() -> (d: Dialogue)
    ensures
        is_bed_question(d),
{
    let mut choices: Vec<Choice> = Vec::new();
    choices.push(Choice { text: String::from_str("Lay down"), action: ChoiceAction::CommitSleep });
    choices.push(Choice { text: String::from_str("Cancel"), action: ChoiceAction::Cancel });
    Dialogue::new(
        String::from_str("The bed is so comfortable, I want to sleep here forever..."),
        String::from_str("Bed"),
    ).with_choices(choices)
}

/// A session as it starts: on the title menu with "Start" selected, the
/// player at the spawn point, nothing collected, no fade, conversation, dream
/// or dust.
pub open spec fn fresh_session(s: GameState) -> bool {
    &&& s.mode == GameMode::StartMenu
    &&& s.player == spawn_point()
    &&& s.transition_state == TransitionState::Idle
    &&& s.transition_timer == 0
    &&& s.transition_alpha == 0
    &&& s.dialogue is None
    &&& s.maze is None
    &&& s.current_world is None
    &&& s.inventory.items@.len() == 0
    &&& !s.inventory.is_open
    &&& s.bicycle == (Item { x: 100_000, y: 100_000, collected: false })
    &&& s.knife == (Item { x: 200_000, y: 200_000, collected: false })
    &&& s.bed_x == 370_000
    &&& s.bed_y == 280_000
    &&& s.npcs@.len() == 2
    &&& s.npcs@[0].x == 400_000 && s.npcs@[0].y == 300_000 && s.npcs@[0].name@
        == "Mysterious Figure"@
    &&& s.npcs@[1].x == 600_000 && s.npcs@[1].y == 150_000 && s.npcs@[1].name@
        == "Dream Guardian"@
    &&& s.wake_progress == 0
    &&& s.dust_particles@.len() == 0
    &&& !s.bicycle_speed_boost
    &&& s.start_menu.selected == MenuOption::Start
    &&& !s.settings_menu.is_open
}

/// The specks of `s` that outlive the next `dt` milliseconds, drifted.
fn age_particles(s: &Vec<Particle>, dt: u64) -> (r: Vec<Particle>)
    requires
        forall|i: int| 0 <= i < s@.len() ==> particle_ok(#[trigger] s@[i]),
    ensures
        r@ == aged(s@, dt as int),
        forall|i: int| 0 <= i < r@.len() ==> particle_ok(#[trigger] r@[i]),
{
    let mut kept: Vec<Particle> = Vec::new();
    let mut i: usize = 0;
    while i < s.len()
        invariant
            i <= s@.len(),
            forall|j: int| 0 <= j < s@.len() ==> particle_ok(#[trigger] s@[j]),
            kept@ == aged(s@.take(i as int), dt as int),
            forall|j: int| 0 <= j < kept@.len() ==> particle_ok(#[trigger] kept@[j]),
        decreases s@.len() - i,
    {
        let p = s[i];
        assert(particle_ok(s@[i as int]));
        assert(s@.take(i + 1).drop_last() =~= s@.take(i as int));
        assert(s@.take(i + 1).last() == p);
        if dt < p.life as u64 {
            let t = dt as i64;
            proof {
                assert(-DUST_SPEED * t <= p.vx * t <= DUST_SPEED * t) by (nonlinear_arith)
                    requires
                        -DUST_SPEED <= p.vx <= DUST_SPEED,
                        0 <= t,
                ;
                assert(-DUST_SPEED * t <= p.vy * t <= DUST_SPEED * t) by (nonlinear_arith)
                    requires
                        -DUST_SPEED <= p.vy <= DUST_SPEED,
                        0 <= t,
                ;
            }
            let q = Particle {
                x: p.x + p.vx * t,
                y: p.y + p.vy * t,
                vx: p.vx,
                vy: p.vy,
                life: p.life - t,
            };
            assert(q == drifted(p, dt as int));
            kept.push(q);
        }
        i = i + 1;
    }
    assert(s@.take(s@.len() as int) =~= s@);
    kept
}

/// The index of the last figure within reach of `(x, y)`.
fn last_npc_in_reach(npcs: &Vec<NPC>, x: i64, y: i64) -> (r: Option<usize>)
    ensures
        r matches Some(k) ==> k as int == last_in_reach(npcs@, x as int, y as int) && k
            < npcs@.len(),
        r is None ==> last_in_reach(npcs@, x as int, y as int) == -1,
{
    let mut found: Option<usize> = None;
    let mut i: usize = 0;
    while i < npcs.len()
        invariant
            i <= npcs@.len(),
            found matches Some(k) ==> k as int == last_in_reach(
                npcs@.take(i as int),
                x as int,
                y as int,
            ) && k < i,
            found is None ==> last_in_reach(npcs@.take(i as int), x as int, y as int) == -1,
        decreases npcs@.len() - i,
    {
        let npc = npcs[i];
        assert(npcs@.take(i + 1).drop_last() =~= npcs@.take(i as int));
        assert(npcs@.take(i + 1).last() == npc);
        if within_distance(x, y, npc.x, npc.y, NPC_REACH) {
            found = Some(i);
        }
        i = i + 1;
    }
    assert(npcs@.take(npcs@.len() as int) =~= npcs@);
    found
}

impl GameState {
    /// The invariants every frame keeps.
    pub open spec fn wf(&self) -> bool {
        &&& self.player.wf()
        &&& self.transition_state == TransitionState::Idle ==> self.transition_timer == 0
            && self.transition_alpha == 0
        &&& self.transition_state != TransitionState::Idle ==> self.transition_timer
            < TRANSITION_MS && self.transition_alpha == alpha_at(self.transition_timer as int)
        &&& self.wake_progress < WAKE_HOLD_MS
        &&& self.dialogue is Some ==> self.dialogue->0.wf()
        &&& self.maze is Some ==> is_dream_maze(self.maze->0)
        &&& (self.mode == GameMode::Sleeping || self.mode == GameMode::Dreaming
            || self.transition_state == TransitionState::FadingToDream) ==> self.maze is Some
            && self.current_world is Some
        &&& forall|i: int|
            0 <= i < self.dust_particles@.len() ==> particle_ok(#[trigger] self.dust_particles@[i])
    }

    /// A fresh session on the title menu, drawing its dreams from `rng`.
    pub fn with_rng(rng: StdRng) -> (s: GameState)
        ensures
            s.wf(),
            fresh_session(s),
    {
        let mut npcs: Vec<NPC> = Vec::new();
        npcs.push(NPC::new(400_000, 300_000, "Mysterious Figure"));
        npcs.push(NPC::new(600_000, 150_000, "Dream Guardian"));
        GameState {
            player: Player::new(),
            mode: GameMode::StartMenu,
            current_world: None,
            bed_x: 370_000,
            bed_y: 280_000,
            bicycle: Item::new(100_000, 100_000),
            knife: Item::new(200_000, 200_000),
            npcs,
            transition_state: TransitionState::Idle,
            transition_alpha: 0,
            transition_timer: 0,
            dialogue: None,
            inventory: Inventory::new(),
            maze: None,
            start_menu: StartMenu::new(),
            settings_menu: SettingsMenu::new(),
            wake_progress: 0,
            dust_particles: Vec::new(),
            bicycle_speed_boost: false,
            rng,
        }
    }

    /// A fresh session whose dreams follow from `seed`.
    pub fn with_seed(seed: u64) -> (s: GameState)
        ensures
            s.wf(),
            fresh_session(s),
    {
        GameState::with_rng(seeded_rng(seed))
    }

    /// A fresh session seeded by the operating system; `None` when the
    /// system supplies no entropy.
    pub fn new() -> (r: Option<GameState>)
        ensures
            r matches Some(s) ==> s.wf() && fresh_session(s),
    {
        match try_entropy_rng() {
            Some(rng) => Some(GameState::with_rng(rng)),
            None => None,
        }
    }

    /// Starts the fade back to waking life, unless a fade is already running.
    pub fn wake_up(&mut self)
        requires
            old(self).wf(),
        ensures
            final(self).wf(),
            old(self).transition_state == TransitionState::Idle ==> *final(self) == (GameState {
                transition_state: TransitionState::FadingToWake,
                transition_alpha: 0,
                transition_timer: 0,
                ..*old(self)
            }),
            old(self).transition_state != TransitionState::Idle ==> *final(self) == *old(self),
    {
        if self.transition_state == TransitionState::Idle {
            self.transition_state = TransitionState::FadingToWake;
            self.transition_alpha = 0;
            self.transition_timer = 0;
        }
    }

    /// Falls asleep: draws a dream theme and carves a fresh maze.
    pub fn go_to_sleep(&mut self)
        requires
            old(self).wf(),
        ensures
            final(self).wf(),
            final(self).mode == GameMode::Sleeping,
            final(self).maze is Some && is_dream_maze(final(self).maze->0),
            final(self).current_world is Some && exists|i: int|
                is_world(final(self).current_world->0, i),
            *final(self) == (GameState {
                mode: final(self).mode,
                maze: final(self).maze,
                current_world: final(self).current_world,
                rng: final(self).rng,
                ..*old(self)
            }),
    {
        let world = DreamWorld::random(&mut self.rng);
        let maze = Maze::generate(MAZE_WIDTH, MAZE_HEIGHT, &mut self.rng);
        self.mode = GameMode::Sleeping;
        self.current_world = Some(world);
        self.maze = Some(maze);
        proof {
            let i = choose|i: int| is_world(world, i);
            assert(is_world(self.current_world->0, i));
        }
    }

    /// Starts the fade into the dream, unless a fade is already running.
    pub fn enter_dream(&mut self)
        requires
            old(self).wf(),
            old(self).maze is Some,
            old(self).current_world is Some,
        ensures
            final(self).wf(),
            old(self).transition_state == TransitionState::Idle ==> *final(self) == (GameState {
                transition_state: TransitionState::FadingToDream,
                transition_alpha: 0,
                transition_timer: 0,
                ..*old(self)
            }),
            old(self).transition_state != TransitionState::Idle ==> *final(self) == *old(self),
    {
        if self.transition_state == TransitionState::Idle {
            self.transition_state = TransitionState::FadingToDream;
            self.transition_alpha = 0;
            self.transition_timer = 0;
        }
    }

    /// Runs the fade for `dt` milliseconds and finishes it once its time is
    /// up: waking puts the player back at the spawn point and forgets the
    /// dream; dreaming switches to the dream phase.
    pub fn update_transition(&mut self, dt: u64)
        requires
            old(self).wf(),
        ensures
            final(self).wf(),
            transition_done(*old(self), dt as int, *final(self)),
            old(self).transition_state != TransitionState::Idle && old(self).transition_timer + dt
                < TRANSITION_MS ==> {
                &&& final(self).transition_state == old(self).transition_state
                &&& old(self).transition_alpha <= final(self).transition_alpha <= ALPHA_OPAQUE
            },
            (old(self).transition_state != TransitionState::Idle && final(self).transition_state
                == TransitionState::Idle) <==> (old(self).transition_state
                != TransitionState::Idle && old(self).transition_timer + dt >= TRANSITION_MS),
    {
        match self.transition_state {
            TransitionState::Idle => {},
            TransitionState::FadingToWake => {
                if dt >= TRANSITION_MS - self.transition_timer {
                    self.mode = GameMode::Awake;
                    self.current_world = None;
                    self.maze = None;
                    self.player = Player::new();
                    self.transition_state = TransitionState::Idle;
                    self.transition_alpha = 0;
                    self.transition_timer = 0;
                    self.wake_progress = 0;
                } else {
                    self.transition_timer = self.transition_timer + dt;
                    self.transition_alpha = self.transition_timer * ALPHA_OPAQUE / TRANSITION_MS;
                }
            },
            TransitionState::FadingToDream => {
                if dt >= TRANSITION_MS - self.transition_timer {
                    self.mode = GameMode::Dreaming;
                    self.transition_state = TransitionState::Idle;
                    self.transition_alpha = 0;
                    self.transition_timer = 0;
                } else {
                    self.transition_timer = self.transition_timer + dt;
                    self.transition_alpha = self.transition_timer * ALPHA_OPAQUE / TRANSITION_MS;
                }
            },
        }
        proof {
            let t = old(self).transition_timer as int;
            assert(t * ALPHA_OPAQUE / TRANSITION_MS as int <= (t + dt) * ALPHA_OPAQUE
                / TRANSITION_MS as int) by (nonlinear_arith)
                requires
                    dt >= 0,
                    t >= 0,
                    ALPHA_OPAQUE == 1000,
                    TRANSITION_MS == 1000,
            ;
        }
    }
    /// Ages the dust by `dt` milliseconds, dropping the specks whose life ran
    /// out.
    pub fn update_particles(&mut self, dt: u64)
        requires
            old(self).wf(),
        ensures
            final(self).wf(),
            particles_done(*old(self), dt as int, *final(self)),
    {
        let kept = age_particles(&self.dust_particles, dt);
        self.dust_particles = kept;
    }

    /// Raises a speck of dust at `(x, y)` drifting in a random direction.
    pub fn add_dust_particle(&mut self, x: i64, y: i64)
        requires
            old(self).wf(),
            -DUST_BOUND + DUST_SPEED * DUST_LIFE_MS <= x <= DUST_BOUND - DUST_SPEED * DUST_LIFE_MS,
            -DUST_BOUND + DUST_SPEED * DUST_LIFE_MS <= y <= DUST_BOUND - DUST_SPEED * DUST_LIFE_MS,
        ensures
            final(self).wf(),
            final(self).dust_particles@.len() == old(self).dust_particles@.len() + 1,
            final(self).dust_particles@.drop_last() == old(self).dust_particles@,
            fresh_dust(final(self).dust_particles@.last(), x as int, y as int),
            *final(self) == (GameState {
                dust_particles: final(self).dust_particles,
                rng: final(self).rng,
                ..*old(self)
            }),
    {
        let vx = draw_between(&mut self.rng, -DUST_SPEED, DUST_SPEED);
        let vy = draw_between(&mut self.rng, -DUST_SPEED, DUST_SPEED);
        self.dust_particles.push(Particle { x, y, vx, vy, life: DUST_LIFE_MS });
        assert(self.dust_particles@.drop_last() =~= old(self).dust_particles@);
    }

    /// A frame on the title menu.
    pub fn update_start_menu(&mut self, input: &FrameInput)
        requires
            old(self).wf(),
            old(self).mode == GameMode::StartMenu,
        ensures
            final(self).wf(),
            start_menu_done(*old(self), *input, *final(self)),
    {
        self.start_menu.update(input.menu_up_pressed, input.menu_down_pressed);
        if input.confirm_pressed {
            match self.start_menu.selected {
                MenuOption::Start => {
                    self.mode = GameMode::Awake;
                },
                MenuOption::Settings => {
                    self.settings_menu.is_open = true;
                    self.mode = GameMode::Settings;
                },
                MenuOption::Credits => {
                    self.mode = GameMode::Credits;
                },
            }
        }
    }

    /// A frame on the settings screen.
    pub fn update_settings(&mut self, input: &FrameInput)
        requires
            old(self).wf(),
            old(self).mode == GameMode::Settings,
        ensures
            final(self).wf(),
            settings_done(*old(self), *input, *final(self)),
    {
        if input.cancel_pressed {
            self.settings_menu.is_open = false;
            self.mode = GameMode::StartMenu;
        }
    }

    /// A frame on the credits.
    pub fn update_credits(&mut self, input: &FrameInput)
        requires
            old(self).wf(),
            old(self).mode == GameMode::Credits,
        ensures
            final(self).wf(),
            credits_done(*old(self), *input, *final(self)),
    {
        if input.cancel_pressed {
            self.mode = GameMode::StartMenu;
        }
    }

    /// A waking frame.
    pub fn update_awake(&mut self, input: &FrameInput)
        requires
            old(self).wf(),
            old(self).mode == GameMode::Awake,
        ensures
            final(self).wf(),
            awake_done(*old(self), *input, *final(self)),
    {
        if self.transition_state != TransitionState::Idle {
            return;
        }
        self.player.update(input, false);
        if input.interact_pressed && within_distance(
            self.player.x,
            self.player.y,
            self.bed_x,
            self.bed_y,
            BED_REACH,
        ) {
            self.dialogue = Some(bed_question());
        }
        if input.inventory_pressed {
            self.inventory.toggle_open();
        }
    }

    /// A sleeping frame.
    pub fn update_sleeping(&mut self, input: &FrameInput)
        requires
            old(self).wf(),
            old(self).mode == GameMode::Sleeping,
        ensures
            final(self).wf(),
            sleeping_done(*old(self), *input, *final(self)),
    {
        if self.transition_state == TransitionState::Idle && input.dream_pressed {
            self.enter_dream();
        }
    }

    /// Walks in the dream; the step is undone when the middle of the body
    /// would end in a wall.
    fn dream_move(&mut self, input: &FrameInput)
        requires
            old(self).wf(),
        ensures
            final(self).wf(),
            *final(self) == (GameState { player: dream_position(*old(self), *input), ..*old(self) }),
    {
        let before = self.player;
        self.player.update(input, self.bicycle_speed_boost);
        let blocked = match &self.maze {
            Some(m) => m.is_wall(self.player.x + BODY_CENTER, self.player.y + BODY_CENTER),
            None => false,
        };
        if blocked {
            self.player = before;
        }
    }

    /// Picks up the bicycle when the body touches it, which also lets the
    /// player ride.
    fn collect_bicycle(&mut self) -> (hit: bool)
        requires
            old(self).wf(),
        ensures
            final(self).wf(),
            hit == picks_up(old(self).bicycle, bicycle_box(old(self).bicycle), old(self).player),
            hit ==> final(self).inventory.names() == old(self).inventory.names().push("Bicycle"@),
            !hit ==> final(self).inventory.items == old(self).inventory.items,
            final(self).inventory.is_open == old(self).inventory.is_open,
            *final(self) == (GameState {
                bicycle: Item { collected: old(self).bicycle.collected || hit, ..old(self).bicycle },
                bicycle_speed_boost: old(self).bicycle_speed_boost || hit,
                inventory: final(self).inventory,
                ..*old(self)
            }),
    {
        if self.bicycle.collected {
            return false;
        }
        let body = Rect::new(self.player.x, self.player.y, PLAYER_SIZE, PLAYER_SIZE);
        let bike_box = Rect::new(self.bicycle.x, self.bicycle.y, BICYCLE_WIDTH, BICYCLE_HEIGHT);
        if body.overlaps(&bike_box) {
            self.bicycle.collected = true;
            self.inventory.add_item(String::from_str("Bicycle"));
            self.bicycle_speed_boost = true;
            assert(self.inventory.names() =~= old(self).inventory.names().push("Bicycle"@));
            true
        } else {
            false
        }
    }

    /// Picks up the knife when the body touches it.
    fn collect_knife(&mut self) -> (hit: bool)
        requires
            old(self).wf(),
        ensures
            final(self).wf(),
            hit == picks_up(old(self).knife, knife_box(old(self).knife), old(self).player),
            hit ==> final(self).inventory.names() == old(self).inventory.names().push("Knife"@),
            !hit ==> final(self).inventory.items == old(self).inventory.items,
            final(self).inventory.is_open == old(self).inventory.is_open,
            *final(self) == (GameState {
                knife: Item { collected: old(self).knife.collected || hit, ..old(self).knife },
                inventory: final(self).inventory,
                ..*old(self)
            }),
    {
        if self.knife.collected {
            return false;
        }
        let body = Rect::new(self.player.x, self.player.y, PLAYER_SIZE, PLAYER_SIZE);
        let knife_box = Rect::new(self.knife.x, self.knife.y, KNIFE_WIDTH, KNIFE_HEIGHT);
        if body.overlaps(&knife_box) {
            self.knife.collected = true;
            self.inventory.add_item(String::from_str("Knife"));
            assert(self.inventory.names() =~= old(self).inventory.names().push("Knife"@));
            true
        } else {
            false
        }
    }

    /// Greets the last figure within reach when "interact" was pressed.
    fn greet_npc(&mut self, input: &FrameInput)
        requires
            old(self).wf(),
        ensures
            final(self).wf(),
            ({
                let k = last_in_reach(old(self).npcs@, old(self).player.x as int, old(self).player.y as int);
                &&& input.interact_pressed && k >= 0 ==> final(self).dialogue is Some
                    && is_greeting(final(self).dialogue->0, old(self).npcs@[k])
                &&& !(input.interact_pressed && k >= 0) ==> final(self).dialogue == old(self).dialogue
            }),
            *final(self) == (GameState { dialogue: final(self).dialogue, ..*old(self) }),
    {
        if input.interact_pressed {
            match last_npc_in_reach(&self.npcs, self.player.x, self.player.y) {
                Some(k) => {
                    self.dialogue = Some(greeting(self.npcs[k]));
                },
                None => {},
            }
        }
    }

    /// Counts the hold of "interact" and starts waking up once it is long
    /// enough.
    fn count_hold(&mut self, input: &FrameInput)
        requires
            old(self).wf(),
            old(self).transition_state == TransitionState::Idle,
        ensures
            final(self).wf(),
            ({
                let hold = hold_after(
                    old(self).wake_progress as int,
                    input.interact_held,
                    input.dt_ms as int,
                );
                &&& final(self).wake_progress == hold.0
                &&& hold.1 ==> final(self).transition_state == TransitionState::FadingToWake
                &&& !hold.1 ==> final(self).transition_state == TransitionState::Idle
            }),
            *final(self) == (GameState {
                wake_progress: final(self).wake_progress,
                transition_state: final(self).transition_state,
                ..*old(self)
            }),
    {
        let (progress, fire) = advance_hold(self.wake_progress, input.interact_held, input.dt_ms);
        self.wake_progress = progress;
        if fire {
            self.wake_up();
        }
    }

    /// A dreaming frame.
    pub fn update_dreaming(&mut self, input: &FrameInput)
        requires
            old(self).wf(),
            old(self).mode == GameMode::Dreaming,
        ensures
            final(self).wf(),
            dreaming_done(*old(self), *input, *final(self)),
    {
        if self.transition_state != TransitionState::Idle {
            return;
        }
        self.dream_move(input);
        let ghost s1 = *self;
        let bike = self.collect_bicycle();
        let ghost s2 = *self;
        if self.bicycle_speed_boost {
            self.add_dust_particle(self.player.x + BODY_CENTER, self.player.y + BODY_CENTER);
        }
        let ghost s3 = *self;
        let knife = self.collect_knife();
        let ghost s4 = *self;
        self.greet_npc(input);
        self.count_hold(input);
        if input.inventory_pressed {
            self.inventory.toggle_open();
        }
        proof {
            assert(s3.inventory == s2.inventory);
            assert(s4.inventory.names() =~= old(self).inventory.names() + dream_pickups(bike, knife));
        }
    }

    /// The open conversation's share of a frame.
    pub fn handle_dialogue(&mut self, input: &FrameInput)
        requires
            old(self).wf(),
        ensures
            final(self).wf(),
            dialogue_done(*old(self), *input, *final(self)),
    {
        let current = self.dialogue.take();
        match current {
            None => {},
            Some(d) => {
                let mut d = d;
                d.update(input.menu_up_pressed, input.menu_down_pressed);
                if input.confirm_pressed {
                    match d.select() {
                        Some(ChoiceAction::CommitSleep) => {
                            self.go_to_sleep();
                        },
                        _ => {},
                    }
                } else {
                    self.dialogue = Some(d);
                }
            },
        }
    }

    /// The phase's own rules for one frame.
    pub fn update_mode(&mut self, input: &FrameInput)
        requires
            old(self).wf(),
        ensures
            final(self).wf(),
            mode_done(*old(self), *input, *final(self)),
    {
        match self.mode {
            GameMode::StartMenu => self.update_start_menu(input),
            GameMode::Settings => self.update_settings(input),
            GameMode::Credits => self.update_credits(input),
            GameMode::Awake => self.update_awake(input),
            GameMode::Sleeping => self.update_sleeping(input),
            GameMode::Dreaming => self.update_dreaming(input),
        }
    }

    /// Advances the whole game by one frame of `input`: the fade first, then
    /// the dust, then the phase's rules, then the open conversation.
    pub fn update(&mut self, input: &FrameInput)
        requires
            old(self).wf(),
        ensures
            final(self).wf(),
            frame_done(*old(self), *input, *final(self)),
    {
        self.update_transition(input.dt_ms);
        let ghost a = *self;
        self.update_particles(input.dt_ms);
        let ghost b = *self;
        self.update_mode(input);
        let ghost c = *self;
        self.handle_dialogue(input);
        assert(transition_done(*old(self), input.dt_ms as int, a) && particles_done(
            a,
            input.dt_ms as int,
            b,
        ) && mode_done(b, *input, c) && dialogue_done(c, *input, *self));
    }
}

} // verus!
