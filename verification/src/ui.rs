//! AMP-addressable UI elements: their kinds and what a command does to a button.
use vstd::prelude::*;

use crate::text::{chars_of, eq_chars};

verus! {

/// What kind of UI element this is (for discovery via `ui.list`).
#[derive(Clone, Debug, PartialEq, Eq, Structural)]
pub enum ElementKind {
    Button,
    Toggle,
    Input,
}

impl ElementKind {
    pub fn as_str(&self) -> (s: &'static str)
        ensures
            s@ == match self {
                ElementKind::Button => "button"@,
                ElementKind::Toggle => "toggle"@,
                ElementKind::Input => "input"@,
            },
    {
        match self {
            ElementKind::Button => "button",
            ElementKind::Toggle => "toggle",
            ElementKind::Input => "input",
        }
    }
}

/// Command that can be sent to a UI element via AMP.
#[derive(Clone, Debug, PartialEq)]
pub enum UiCommand {
    /// Activate the element (click a button, toggle a toggle).
    Invoke,
    /// Visual pulse highlight.
    Highlight { duration_ms: u32 },
    /// Set a value (for inputs/toggles).
    SetValue(String),
}

/// What a button does on a command, in order.
#[derive(Clone, Copy, Debug, PartialEq, Eq, Structural)]
pub enum ButtonEffect {
    /// Take the pending command off the queue: it was for this button.
    Consume,
    /// Show the highlight.
    Highlight,
    /// Run the button's click handler.
    Click,
    /// Remove the highlight after this many milliseconds.
    ClearAfter(u64),
}

/// The effects of the pending command `cmd`, addressed to `target`, on the
/// button `own_id`: nothing when it is for another element; otherwise the
/// command is consumed and an invoke highlights, clicks and clears after
/// 300 ms, a highlight shows for its duration, and setting a value clicks
/// (buttons have no value).
pub open spec fn spec_button_effects(own_id: Seq<char>, target: Seq<char>, cmd: UiCommand) -> Seq<ButtonEffect> {
    if target != own_id {
        Seq::empty()
    } else {
        match cmd {
            UiCommand::Invoke => seq![
                ButtonEffect::Consume,
                ButtonEffect::Highlight,
                ButtonEffect::Click,
                ButtonEffect::ClearAfter(300),
            ],
            UiCommand::Highlight { duration_ms } => seq![
                ButtonEffect::Consume,
                ButtonEffect::Highlight,
                ButtonEffect::ClearAfter(duration_ms as u64),
            ],
            UiCommand::SetValue(_) => seq![ButtonEffect::Consume, ButtonEffect::Click],
        }
    }
}

/// What a button does with the pending command.
pub fn button_effects(own_id: &str, target: &str, cmd: &UiCommand) -> (e: Vec<ButtonEffect>)
    ensures
        e@ == spec_button_effects(own_id@, target@, *cmd),
{
    let mut e: Vec<ButtonEffect> = Vec::new();
    if !eq_chars(&chars_of(target), &chars_of(own_id)) {
        return e;
    }
    e.push(ButtonEffect::Consume);
    match cmd {
        UiCommand::Invoke => {
            e.push(ButtonEffect::Highlight);
            e.push(ButtonEffect::Click);
            e.push(ButtonEffect::ClearAfter(300));
        },
        UiCommand::Highlight { duration_ms } => {
            e.push(ButtonEffect::Highlight);
            e.push(ButtonEffect::ClearAfter(*duration_ms as u64));
        },
        UiCommand::SetValue(_) => {
            e.push(ButtonEffect::Click);
        },
    }
    assert(e@ =~= spec_button_effects(own_id@, target@, *cmd));
    e
}

} // verus!
