//! The rotation classifier: a pure function from the kinds of three
//! consecutive weeks to the set of rollout actions due this week.
//!
//! Three pipeline stages (announce, collect into a panel, rank into the
//! hall of fame) are offset by zero, one and two weeks.  An Extended week
//! suppresses its own downstream actions for as many cycles as it delays,
//! while a Special week only suppresses the local action of that week.

use vstd::prelude::*;
use crate::defs::Week;

verus! {

/// Which of the three rollout actions are due at the start of a week.
#[derive(Copy, Clone, Debug, PartialEq, Eq, Structural)]
pub struct Actions {
    /// Post the announcement for the current week.
    pub announce_due: bool,
    /// Post the panel of submissions from the previous week.
    pub panel_due: bool,
    /// Post the top three from the week before the previous one.
    pub hall_of_fame_due: bool,
}

/// One of the three rollout actions, used to record which post a message
/// reference belongs to.
#[derive(Copy, Clone, Debug, PartialEq, Eq, Structural)]
pub enum ActionKind {
    Announcement,
    Panel,
    HallOfFame,
}

/// The truth table of the classifier: the announcement is skipped when
/// the previous week was extended or the current week is special; the
/// panel is skipped when the previous week was extended or special; the
/// hall of fame is skipped when the week before last was extended.
pub open spec fn classify_spec(two_ago: Week, previous: Week, current: Week) -> Actions {
    Actions {
        announce_due: !(previous is Extended || current is Special),
        panel_due: !(previous is Extended || previous is Special),
        hall_of_fame_due: !(two_ago is Extended),
    }
}

/// Decide which actions are due at the start of a week, given the kinds of
/// the week before last (`two_ago`), the previous week (`previous`) and the
/// current week (`current`).
///
/// The function is deterministic and total: every combination of the
/// three kinds maps to exactly the set of actions that
/// [`classify_spec`] gives.
pub fn classify(two_ago: Week, previous: Week, current: Week) -> (r: Actions)
    ensures
        r == classify_spec(two_ago, previous, current),
{
    Actions {
        announce_due: !(matches!(previous, Week::Extended) || matches!(current, Week::Special)),
        panel_due: !(matches!(previous, Week::Extended) || matches!(previous, Week::Special)),
        hall_of_fame_due: !matches!(two_ago, Week::Extended),
    }
}

} // verus!
