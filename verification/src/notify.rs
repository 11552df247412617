//! The "should I notify?" decision, kept apart from any window or database:
//! a rule of three inputs whose order of precedence is part of the rule.

use vstd::prelude::*;
use crate::text::str_eq;

verus! {

/// Inputs of the decision, all resolved by the caller.
#[derive(Debug, Clone, Copy)]
pub struct NotifyInput<'a> {
    /// The user's preference kept in the app (not the OS permission).
    pub enabled: bool,
    /// Is the main window focused now?
    pub focused: bool,
    /// The conversation open in the UI (`node` or `node#thread`), if any.
    pub active_convo: Option<&'a str>,
    /// The conversation of the message that just arrived (same key form).
    pub incoming_convo: &'a str,
    /// Is the contact muted individually?
    pub muted: bool,
}

/// Why no notification was shown.
#[derive(Debug, Clone, Copy, PartialEq, Eq)]
pub enum SkipReason {
    /// Notifications are switched off in the settings.
    Disabled,
    /// The contact is muted (unread counts still grow; only the alert goes).
    Muted,
    /// The user is already looking at exactly this conversation.
    AlreadyWatching,
}

#[derive(Debug, Clone, Copy, PartialEq, Eq)]
pub enum NotifyDecision {
    Show,
    Skip(SkipReason),
}

/// The user is looking at the conversation that received the message: the
/// window is focused and that very conversation is open.
pub open spec fn watching(input: NotifyInput<'_>) -> bool {
    input.focused && match input.active_convo {
        Some(a) => a@ == input.incoming_convo@,
        None => false,
    }
}

/// The rule. The global switch wins over the per-contact mute, which wins over
/// "already watching", so the reason given is always the strongest one. A
/// focused window alone does not silence: only a focused window showing the
/// very conversation that received the message does.
pub open spec fn decision(input: NotifyInput<'_>) -> NotifyDecision {
    if !input.enabled {
        NotifyDecision::Skip(SkipReason::Disabled)
    } else if input.muted {
        NotifyDecision::Skip(SkipReason::Muted)
    } else if watching(input) {
        NotifyDecision::Skip(SkipReason::AlreadyWatching)
    } else {
        NotifyDecision::Show
    }
}

/// Decides whether a message that just arrived raises a desktop notification.
pub fn should_notify(input: NotifyInput<'_>) -> (r: NotifyDecision)
    ensures
        r == decision(input),
{
    if !input.enabled {
        return NotifyDecision::Skip(SkipReason::Disabled);
    }
    if input.muted {
        return NotifyDecision::Skip(SkipReason::Muted);
    }
    let same = match input.active_convo {
        Some(a) => str_eq(a, input.incoming_convo),
        None => false,
    };
    if input.focused && same {
        return NotifyDecision::Skip(SkipReason::AlreadyWatching);
    }
    NotifyDecision::Show
}

/// A notification is shown exactly when notifications are on, the contact is
/// not muted and the user is not already looking at that conversation; any
/// other message is skipped.
pub proof fn lemma_shown_iff(input: NotifyInput<'_>)
    ensures
        (decision(input) == NotifyDecision::Show) <==> (input.enabled && !input.muted
            && !watching(input)),
{
}

} // verus!
