//! Keyboard handling of the lesson screen: a key press and the feedback
//! state decide the action.
use vstd::prelude::*;
use crate::text::str_eq;

verus! {

/// Actions that a key press can resolve to in the lesson screen.
#[derive(Debug, Clone, Copy, PartialEq, Eq, Structural)]
pub enum KeyAction {
    /// The key is not mapped, or is blocked in the current state.
    NoAction,
    /// Submit the current answer.
    Check,
    /// Remove the last placed token.
    Undo,
    /// Go on to the next challenge (after correct feedback).
    Next,
    /// Retry the challenge (after wrong feedback).
    TryAgain,
}

/// The action for `key`: Enter checks, or moves on after feedback (next
/// when correct, try again when wrong); Backspace undoes unless feedback is
/// showing; every other key does nothing.
pub open spec fn key_action(key: Seq<char>, has_feedback: bool, feedback_is_correct: bool) -> KeyAction {
    if key == "Enter"@ {
        if has_feedback {
            if feedback_is_correct { KeyAction::Next } else { KeyAction::TryAgain }
        } else {
            KeyAction::Check
        }
    } else if key == "Backspace"@ {
        if has_feedback { KeyAction::NoAction } else { KeyAction::Undo }
    } else {
        KeyAction::NoAction
    }
}

/// Resolves a key press (`key` as the browser names it) to a lesson action.
pub fn resolve_key_action(key: &str, has_feedback: bool, feedback_is_correct: bool) -> (a: KeyAction)
    ensures
        a == key_action(key@, has_feedback, feedback_is_correct),
{
    if str_eq(key, "Enter") {
        if has_feedback {
            if feedback_is_correct {
                KeyAction::Next
            } else {
                KeyAction::TryAgain
            }
        } else {
            KeyAction::Check
        }
    } else if str_eq(key, "Backspace") {
        if has_feedback {
            KeyAction::NoAction
        } else {
            KeyAction::Undo
        }
    } else {
        KeyAction::NoAction
    }
}

} // verus!
