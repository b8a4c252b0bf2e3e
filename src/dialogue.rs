//! A single conversation with optional choices.
use vstd::prelude::*;

verus! {

/// What a confirmed choice asks the caller to do.
#[derive(Clone, Copy, PartialEq, Eq, Structural, Debug)]
pub enum ChoiceAction {
    /// Lie down and fall asleep.
    CommitSleep,
    /// Close the conversation and do nothing else.
    Cancel,
}

#[derive(Clone, Debug)]
pub struct Choice {
    pub text: String,
    pub action: ChoiceAction,
}

pub struct Dialogue {
    pub text: String,
    pub speaker: String,
    pub is_active: bool,
    pub choices: Vec<Choice>,
    pub selected_choice: usize,
}

/// The selection after one frame of navigation: up moves towards the first
/// choice, then down towards the last, neither past its end.
pub open spec fn navigated(selected: int, len: int, up: bool, down: bool) -> int {
    let after_up = if up && selected > 0 {
        selected - 1
    } else {
        selected
    };
    if down && after_up + 1 < len {
        after_up + 1
    } else {
        after_up
    }
}

/// The selection after a run of navigation frames, each a pair of presses
/// (up, down).
pub open spec fn navigated_all(selected: int, len: int, moves: Seq<(bool, bool)>) -> int
    decreases moves.len(),
{
    if moves.len() == 0 {
        selected
    } else {
        navigated(navigated_all(selected, len, moves.drop_last()), len, moves.last().0, moves.last().1)
    }
}

/// However the player navigates, the selection stays on a choice, or at 0
/// when there are no choices.
pub proof fn lemma_navigation_stays_on_a_choice(selected: int, len: int, moves: Seq<(bool, bool)>)
    requires
        (0 <= selected < len) || (len == 0 && selected == 0),
    ensures
        ({
            let r = navigated_all(selected, len, moves);
            (0 <= r < len) || (len == 0 && r == 0)
        }),
    decreases moves.len(),
{
    if moves.len() > 0 {
        lemma_navigation_stays_on_a_choice(selected, len, moves.drop_last());
    }
}

impl Dialogue {
    /// The selection lies on a choice, or is 0 when there is none.
    pub open spec fn wf(&self) -> bool {
        self.selected_choice < self.choices@.len() || (self.choices@.len() == 0
            && self.selected_choice == 0)
    }

    /// An active conversation without choices.
    pub fn new(text: String, speaker: String) -> (d: Dialogue)
        ensures
            d.text == text,
            d.speaker == speaker,
            d.is_active,
            d.choices@.len() == 0,
            d.selected_choice == 0,
            d.wf(),
    {
        Dialogue { text, speaker, is_active: true, choices: Vec::new(), selected_choice: 0 }
    }

    /// The same conversation offering `choices`, the first one selected.
    pub fn with_choices(self, choices: Vec<Choice>) -> (d: Dialogue)
        ensures
            d.text == self.text,
            d.speaker == self.speaker,
            d.is_active == self.is_active,
            d.choices@ == choices@,
            d.selected_choice == 0,
            d.wf(),
    {
        let mut d = self;
        d.choices = choices;
        d.selected_choice = 0;
        d
    }

    /// One frame of navigation, `up` and `down` being the key presses of that
    /// frame; an inactive conversation ignores them.
    pub fn update(&mut self, up: bool, down: bool)
        requires
            old(self).wf(),
        ensures
            final(self).wf(),
            final(self).text == old(self).text,
            final(self).speaker == old(self).speaker,
            final(self).is_active == old(self).is_active,
            final(self).choices == old(self).choices,
            final(self).selected_choice == if old(self).is_active {
                navigated(old(self).selected_choice as int, old(self).choices@.len() as int, up, down)
            } else {
                old(self).selected_choice as int
            },
    {
        if !self.is_active {
            return;
        }
        if up && self.selected_choice > 0 {
            self.selected_choice = self.selected_choice - 1;
        }
        if down && self.selected_choice < self.choices.len() && self.choices.len() - self.selected_choice > 1 {
            self.selected_choice = self.selected_choice + 1;
        }
    }

    /// The action of the selected choice, or `None` when there are no
    /// choices and confirming only dismisses.
    pub fn select(&self) -> (r: Option<ChoiceAction>)
        requires
            self.wf(),
        ensures
            r == if self.choices@.len() == 0 {
                None
            } else {
                Some(self.choices@[self.selected_choice as int].action)
            },
    {
        if self.choices.len() == 0 {
            None
        } else {
            Some(self.choices[self.selected_choice].action)
        }
    }
}

} // verus!
