use rand::rngs::StdRng;
use rand::SeedableRng;
use witherdream::dream_world::{DreamWorld, WORLD_COUNT};
use witherdream::geometry::{within_distance, Rect};
use witherdream::input::FrameInput;
use witherdream::player::{Player, MAX_X, MAX_Y};
use witherdream::ui::{MenuOption, SettingsMenu, StartMenu};

#[test]
fn catalogue_of_worlds() {
    let w = DreamWorld::from_index(0);
    assert_eq!(w.name, "Purple Forest");
    assert_eq!(w.background_color, (100, 50, 150));
    let w = DreamWorld::from_index(5);
    assert_eq!(w.name, "Golden Plains");
    assert_eq!(w.background_color, (200, 150, 100));
    assert_eq!(DreamWorld::from_index(2).name, "Blue Ocean");
}

#[test]
fn random_world_comes_from_catalogue() {
    let mut rng = StdRng::seed_from_u64(9);
    let names: Vec<&str> = (0..WORLD_COUNT).map(|i| DreamWorld::from_index(i).name).collect();
    let mut seen = std::collections::HashSet::new();
    for _ in 0..200 {
        let w = DreamWorld::random(&mut rng);
        assert!(names.contains(&w.name));
        seen.insert(w.name);
    }
    assert!(seen.len() > 1);
}

#[test]
fn rects_touching_at_an_edge_overlap() {
    let a = Rect::new(0, 0, 10, 10);
    assert!(a.overlaps(&Rect::new(10, 10, 5, 5)));
    assert!(a.overlaps(&Rect::new(5, 5, 1, 1)));
    assert!(!a.overlaps(&Rect::new(11, 0, 5, 5)));
    assert!(!a.overlaps(&Rect::new(0, -6, 5, 5)));
    assert!(Rect::new(i64::MAX, 0, i64::MAX, 1).overlaps(&Rect::new(i64::MAX, 0, 1, 1)));
}

#[test]
fn distance_is_euclidean_and_strict() {
    assert!(within_distance(0, 0, 30, 40, 51));
    assert!(!within_distance(0, 0, 30, 40, 50));
    assert!(within_distance(-5, -5, -5, -5, 1));
    assert!(!within_distance(-5, -5, -5, -5, 0));
    assert!(!within_distance(i64::MIN, i64::MIN, i64::MAX, i64::MAX, i64::MAX));
    assert!(within_distance(0, 0, 0, i64::MAX - 1, i64::MAX));
}

#[test]
fn player_starts_mid_screen_and_walks() {
    let mut p = Player::new();
    assert_eq!((p.x, p.y), (360_000, 260_000));
    let mut input = FrameInput::idle(100);
    input.right_held = true;
    p.update(&input, false);
    assert_eq!((p.x, p.y), (375_000, 260_000));
    p.update(&input, true);
    assert_eq!((p.x, p.y), (397_500, 260_000));
    input.right_held = false;
    input.up_held = true;
    input.left_held = true;
    p.update(&input, false);
    assert_eq!((p.x, p.y), (382_500, 245_000));
}

#[test]
fn player_stays_on_screen() {
    let mut p = Player::new();
    let mut input = FrameInput::idle(u64::MAX);
    input.right_held = true;
    input.down_held = true;
    p.update(&input, true);
    assert_eq!((p.x, p.y), (MAX_X, MAX_Y));
    input.right_held = false;
    input.down_held = false;
    input.left_held = true;
    input.up_held = true;
    p.update(&input, false);
    assert_eq!((p.x, p.y), (0, 0));
    input.right_held = true;
    input.down_held = true;
    p.update(&input, false);
    assert_eq!((p.x, p.y), (0, 0));
}

#[test]
fn start_menu_wraps_around() {
    let mut m = StartMenu::new();
    assert_eq!(m.selected, MenuOption::Start);
    m.update(true, false);
    assert_eq!(m.selected, MenuOption::Credits);
    m.update(false, true);
    assert_eq!(m.selected, MenuOption::Start);
    m.update(false, true);
    assert_eq!(m.selected, MenuOption::Settings);
    m.update(true, true);
    assert_eq!(m.selected, MenuOption::Settings);
    assert!(!SettingsMenu::new().is_open);
}
