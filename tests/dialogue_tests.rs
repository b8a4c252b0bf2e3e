use witherdream::dialogue::{Choice, ChoiceAction, Dialogue};
use witherdream::inventory::Inventory;

fn two_choices() -> Dialogue {
    Dialogue::new("Sleep?".to_string(), "Bed".to_string()).with_choices(vec![
        Choice { text: "Lay down".to_string(), action: ChoiceAction::CommitSleep },
        Choice { text: "Cancel".to_string(), action: ChoiceAction::Cancel },
    ])
}

#[test]
fn new_dialogue_has_no_choices() {
    let d = Dialogue::new("Hi".to_string(), "Someone".to_string());
    assert!(d.is_active);
    assert_eq!(d.text, "Hi");
    assert_eq!(d.speaker, "Someone");
    assert_eq!(d.selected_choice, 0);
    assert_eq!(d.select(), None);
}

#[test]
fn navigation_is_clamped() {
    let mut d = two_choices();
    assert_eq!(d.select(), Some(ChoiceAction::CommitSleep));
    d.update(true, false);
    assert_eq!(d.selected_choice, 0);
    d.update(false, true);
    assert_eq!(d.selected_choice, 1);
    assert_eq!(d.select(), Some(ChoiceAction::Cancel));
    d.update(false, true);
    assert_eq!(d.selected_choice, 1);
    d.update(true, false);
    assert_eq!(d.selected_choice, 0);
    d.update(true, true);
    assert_eq!(d.selected_choice, 1);
}

#[test]
fn navigation_without_choices_stays_at_zero() {
    let mut d = Dialogue::new("Hi".to_string(), "Someone".to_string());
    for _ in 0..5 {
        d.update(false, true);
        d.update(true, false);
        d.update(true, true);
        assert_eq!(d.selected_choice, 0);
    }
    assert_eq!(d.select(), None);
}

#[test]
fn any_navigation_keeps_index_in_range() {
    let mut d = two_choices();
    let presses = [(true, false), (false, true), (false, true), (true, true), (false, true), (true, false), (true, false)];
    for (up, down) in presses.iter().cycle().take(50) {
        d.update(*up, *down);
        assert!(d.selected_choice < d.choices.len());
    }
}

#[test]
fn inactive_dialogue_ignores_navigation() {
    let mut d = two_choices();
    d.is_active = false;
    d.update(false, true);
    assert_eq!(d.selected_choice, 0);
}

#[test]
fn with_choices_selects_first() {
    let mut d = two_choices();
    d.update(false, true);
    let d = d.with_choices(vec![Choice { text: "Only".to_string(), action: ChoiceAction::Cancel }]);
    assert_eq!(d.selected_choice, 0);
    assert_eq!(d.select(), Some(ChoiceAction::Cancel));
}

#[test]
fn inventory_keeps_collection_order() {
    let mut inv = Inventory::new();
    assert!(inv.items.is_empty());
    assert!(!inv.is_open);
    inv.add_item("Bicycle".to_string());
    inv.add_item("Knife".to_string());
    assert_eq!(inv.items, vec!["Bicycle".to_string(), "Knife".to_string()]);
    inv.toggle_open();
    assert!(inv.is_open);
    inv.toggle_open();
    assert!(!inv.is_open);
    assert_eq!(inv.items.len(), 2);
}
