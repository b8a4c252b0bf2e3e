//! The title menu and the settings screen.
use vstd::prelude::*;

verus! {

#[derive(Clone, Copy, PartialEq, Eq, Structural, Debug)]
pub enum MenuOption {
    Start,
    Settings,
    Credits,
}

pub struct StartMenu {
    pub selected: MenuOption,
}

pub struct SettingsMenu {
    pub is_open: bool,
}

/// The option above `o`, wrapping from the first to the last.
pub open spec fn option_above(o: MenuOption) -> MenuOption {
    match o {
        MenuOption::Start => MenuOption::Credits,
        MenuOption::Settings => MenuOption::Start,
        MenuOption::Credits => MenuOption::Settings,
    }
}

/// The option below `o`, wrapping from the last to the first.
pub open spec fn option_below(o: MenuOption) -> MenuOption {
    match o {
        MenuOption::Start => MenuOption::Settings,
        MenuOption::Settings => MenuOption::Credits,
        MenuOption::Credits => MenuOption::Start,
    }
}

/// The selection after a frame in which up and then down may be pressed.
pub open spec fn menu_moved(o: MenuOption, up: bool, down: bool) -> MenuOption {
    let a = if up {
        option_above(o)
    } else {
        o
    };
    if down {
        option_below(a)
    } else {
        a
    }
}

impl StartMenu {
    /// The title menu with "Start" selected.
    pub fn new() -> (m: StartMenu)
        ensures
            m.selected == MenuOption::Start,
    {
        StartMenu { selected: MenuOption::Start }
    }

    /// One frame of navigation, `up` and `down` being that frame's presses.
    pub fn update(&mut self, up: bool, down: bool)
        ensures
            final(self).selected == menu_moved(old(self).selected, up, down),
    {
        if up {
            self.selected = match self.selected {
                MenuOption::Start => MenuOption::Credits,
                MenuOption::Settings => MenuOption::Start,
                MenuOption::Credits => MenuOption::Settings,
            };
        }
        if down {
            self.selected = match self.selected {
                MenuOption::Start => MenuOption::Settings,
                MenuOption::Settings => MenuOption::Credits,
                MenuOption::Credits => MenuOption::Start,
            };
        }
    }
}

impl SettingsMenu {
    /// A closed settings screen.
    pub fn new() -> (m: SettingsMenu)
        ensures
            !m.is_open,
    {
        SettingsMenu { is_open: false }
    }
}

} // verus!
