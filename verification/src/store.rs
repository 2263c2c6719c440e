//! The store: the durable keyed tables of the competition and the
//! operations through which every other component reads and writes them.
//!
//! The tables are the current-week singleton, the week records, the
//! submission ledger, the prompt queue and the user profiles.  Each
//! operation is atomic and scoped by its primary key; the well-formedness
//! invariant [`Store::wf`] carries the uniqueness constraints that the
//! schema would otherwise enforce.

use vstd::prelude::*;
use vstd::string::StrSliceExecFns;
use crate::defs::{Challenge, Error, Week};
use crate::rotation::{classify, classify_spec, ActionKind, Actions};

verus! {

/// One accepted entry of the submission ledger, keyed by
/// (message, week, challenge).
pub struct Submission {
    /// Message reference of the submission.
    pub message: u64,
    /// Week the submission was accepted in.
    pub week: i64,
    /// Which challenge track it belongs to.
    pub challenge: Challenge,
    /// Author reference.
    pub author: u64,
    /// Link to the submitted image.
    pub link: String,
    /// Ingestion time of the submission.
    pub time: i64,
    /// Vote count; incremented by mechanisms outside this core.
    pub votes: i64,
}

/// The mathematical model of a [`Submission`].
pub struct SubmissionView {
    pub message: u64,
    pub week: i64,
    pub challenge: Challenge,
    pub author: u64,
    pub link: Seq<char>,
    pub time: i64,
    pub votes: i64,
}

impl View for Submission {
    type V = SubmissionView;

    open spec fn view(&self) -> SubmissionView {
        SubmissionView {
            message: self.message,
            week: self.week,
            challenge: self.challenge,
            author: self.author,
            link: self.link@,
            time: self.time,
            votes: self.votes,
        }
    }
}

impl DeepView for Submission {
    type V = SubmissionView;

    open spec fn deep_view(&self) -> SubmissionView {
        self.view()
    }
}

/// One pending prompt of the queue.
pub struct PromptRow {
    /// Insertion-ordered identity, strictly increasing.
    pub id: i64,
    /// Which challenge track the prompt is queued for.
    pub challenge: Challenge,
    /// The prompt text.
    pub prompt: String,
}

/// The mathematical model of a [`PromptRow`].
pub struct PromptView {
    pub id: i64,
    pub challenge: Challenge,
    pub prompt: Seq<char>,
}

impl View for PromptRow {
    type V = PromptView;

    open spec fn view(&self) -> PromptView {
        PromptView { id: self.id, challenge: self.challenge, prompt: self.prompt@ }
    }
}

impl DeepView for PromptRow {
    type V = PromptView;

    open spec fn deep_view(&self) -> PromptView {
        self.view()
    }
}

/// The cached lifetime record of one user: nickname and placement
/// counters.  Rows are created lazily; a missing row reads as all-zero.
pub struct UserRow {
    /// User reference.
    pub id: u64,
    /// User-set nickname, if any.
    pub nickname: Option<String>,
    pub glyphs_first: i64,
    pub glyphs_second: i64,
    pub glyphs_third: i64,
    pub ambigrams_first: i64,
    pub ambigrams_second: i64,
    pub ambigrams_third: i64,
    pub highest_ranking_glyphs: i64,
    pub highest_ranking_ambigrams: i64,
}

/// The mathematical model of a [`UserRow`].
pub struct UserRowView {
    pub id: u64,
    pub nickname: Option<Seq<char>>,
    pub glyphs_first: i64,
    pub glyphs_second: i64,
    pub glyphs_third: i64,
    pub ambigrams_first: i64,
    pub ambigrams_second: i64,
    pub ambigrams_third: i64,
    pub highest_ranking_glyphs: i64,
    pub highest_ranking_ambigrams: i64,
}

impl View for UserRow {
    type V = UserRowView;

    open spec fn view(&self) -> UserRowView {
        UserRowView {
            id: self.id,
            nickname: self.nickname.deep_view(),
            glyphs_first: self.glyphs_first,
            glyphs_second: self.glyphs_second,
            glyphs_third: self.glyphs_third,
            ambigrams_first: self.ambigrams_first,
            ambigrams_second: self.ambigrams_second,
            ambigrams_third: self.ambigrams_third,
            highest_ranking_glyphs: self.highest_ranking_glyphs,
            highest_ranking_ambigrams: self.highest_ranking_ambigrams,
        }
    }
}

impl DeepView for UserRow {
    type V = UserRowView;

    open spec fn deep_view(&self) -> UserRowView {
        self.view()
    }
}

/// The per-challenge part of a week record: the kind, the prompt, and the
/// message references of the three rollout posts, each filled in as the
/// corresponding action executes.
pub struct ChallengeWeekData {
    pub kind: Option<Week>,
    pub prompt: Option<String>,
    pub announcement_message: Option<u64>,
    pub panel_message: Option<u64>,
    pub hall_of_fame_message: Option<u64>,
}

/// The mathematical model of a [`ChallengeWeekData`].
pub struct ChallengeWeekDataView {
    pub kind: Option<Week>,
    pub prompt: Option<Seq<char>>,
    pub announcement_message: Option<u64>,
    pub panel_message: Option<u64>,
    pub hall_of_fame_message: Option<u64>,
}

impl View for ChallengeWeekData {
    type V = ChallengeWeekDataView;

    open spec fn view(&self) -> ChallengeWeekDataView {
        ChallengeWeekDataView {
            kind: self.kind,
            prompt: self.prompt.deep_view(),
            announcement_message: self.announcement_message,
            panel_message: self.panel_message,
            hall_of_fame_message: self.hall_of_fame_message,
        }
    }
}

impl DeepView for ChallengeWeekData {
    type V = ChallengeWeekDataView;

    open spec fn deep_view(&self) -> ChallengeWeekDataView {
        self.view()
    }
}

/// One week record, keyed by week number, created lazily the first time
/// any action is recorded for that week and never deleted.
pub struct WeekRow {
    pub week: i64,
    pub glyph: ChallengeWeekData,
    pub ambigram: ChallengeWeekData,
}

/// The mathematical model of a [`WeekRow`].
pub struct WeekRowView {
    pub week: i64,
    pub glyph: ChallengeWeekDataView,
    pub ambigram: ChallengeWeekDataView,
}

impl View for WeekRow {
    type V = WeekRowView;

    open spec fn view(&self) -> WeekRowView {
        WeekRowView { week: self.week, glyph: self.glyph@, ambigram: self.ambigram@ }
    }
}

impl DeepView for WeekRow {
    type V = WeekRowView;

    open spec fn deep_view(&self) -> WeekRowView {
        self.view()
    }
}

/// The ledger holds at most this many submissions, so that per-author
/// counts always fit the counter type.
pub const MAX_SUBMISSIONS: u64 = 0x7fff_ffff_ffff_ffff;

/// What initializing the current-week singleton does: the first
/// insertion of a non-negative week wins, and every attempt beyond the
/// first is rejected with a conflict, leaving the singleton as it was.
pub open spec fn init_week_transition(current: Option<i64>, week: i64) -> (Option<i64>, Result<
    (),
    Error,
>) {
    if week < 0 {
        (current, Err(Error::Validation))
    } else {
        match current {
            Some(w) => (current, Err(Error::Conflict)),
            None => (Some(week), Ok(())),
        }
    }
}

/// The ledger entry that accepting a submission appends: the given key
/// and attributes, with zero votes.
pub open spec fn fresh_sub(
    message: u64,
    week: i64,
    challenge: Challenge,
    author: u64,
    link: Seq<char>,
    time: i64,
) -> SubmissionView {
    SubmissionView { message, week, challenge, author, link, time, votes: 0 }
}

/// Whether a ledger entry has the given composite key.
pub open spec fn is_sub_key(s: SubmissionView, message: u64, week: i64, challenge: Challenge) -> bool {
    s.message == message && s.week == week && s.challenge == challenge
}

/// Whether the ledger holds an entry with the given composite key.
pub open spec fn has_sub(subs: Seq<SubmissionView>, message: u64, week: i64, challenge: Challenge) -> bool {
    exists|i: int| 0 <= i < subs.len() && is_sub_key(subs[i], message, week, challenge)
}

/// The ledger keys are pairwise distinct.
pub open spec fn subs_unique(subs: Seq<SubmissionView>) -> bool {
    forall|i: int, j: int|
        #![trigger subs[i], subs[j]]
        0 <= i < j < subs.len() ==> !(subs[i].message == subs[j].message && subs[i].week
            == subs[j].week && subs[i].challenge == subs[j].challenge)
}

/// How many ledger entries the given author has for the given challenge,
/// over all weeks.
pub open spec fn count_subs(subs: Seq<SubmissionView>, author: u64, challenge: Challenge) -> int {
    subs.filter(|s: SubmissionView| s.author == author && s.challenge == challenge).len() as int
}

/// The record a user starts with: no nickname, no placements, no
/// rankings.
pub open spec fn fresh_user(id: u64) -> UserRowView {
    UserRowView {
        id,
        nickname: None,
        glyphs_first: 0,
        glyphs_second: 0,
        glyphs_third: 0,
        ambigrams_first: 0,
        ambigrams_second: 0,
        ambigrams_third: 0,
        highest_ranking_glyphs: 0,
        highest_ranking_ambigrams: 0,
    }
}

/// A user record with its nickname replaced.
pub open spec fn with_nickname(u: UserRowView, name: Seq<char>) -> UserRowView {
    UserRowView { nickname: Some(name), ..u }
}

/// The placement counter of a record for a challenge and rank (1 to 3).
pub open spec fn placement_counter(u: UserRowView, c: Challenge, rank: u8) -> i64 {
    match c {
        Challenge::Glyph => if rank == 1 {
            u.glyphs_first
        } else if rank == 2 {
            u.glyphs_second
        } else {
            u.glyphs_third
        },
        Challenge::Ambigram => if rank == 1 {
            u.ambigrams_first
        } else if rank == 2 {
            u.ambigrams_second
        } else {
            u.ambigrams_third
        },
    }
}

/// The highest (numerically lowest) ranking of a record for a challenge,
/// with zero meaning none yet.
pub open spec fn highest_ranking(u: UserRowView, c: Challenge) -> i64 {
    match c {
        Challenge::Glyph => u.highest_ranking_glyphs,
        Challenge::Ambigram => u.highest_ranking_ambigrams,
    }
}

/// A user record after one placement credit: the counter of the given
/// challenge and rank goes up by one, and the highest ranking improves to
/// the rank if it beats the recorded one.
pub open spec fn credited(u: UserRowView, c: Challenge, rank: u8) -> UserRowView {
    let better = highest_ranking(u, c) == 0 || (rank as i64) < highest_ranking(u, c);
    match c {
        Challenge::Glyph => UserRowView {
            glyphs_first: if rank == 1 { (u.glyphs_first + 1) as i64 } else { u.glyphs_first },
            glyphs_second: if rank == 2 { (u.glyphs_second + 1) as i64 } else { u.glyphs_second },
            glyphs_third: if rank == 3 { (u.glyphs_third + 1) as i64 } else { u.glyphs_third },
            highest_ranking_glyphs: if better { rank as i64 } else { u.highest_ranking_glyphs },
            ..u
        },
        Challenge::Ambigram => UserRowView {
            ambigrams_first: if rank == 1 { (u.ambigrams_first + 1) as i64 } else { u.ambigrams_first },
            ambigrams_second: if rank == 2 { (u.ambigrams_second + 1) as i64 } else { u.ambigrams_second },
            ambigrams_third: if rank == 3 { (u.ambigrams_third + 1) as i64 } else { u.ambigrams_third },
            highest_ranking_ambigrams: if better { rank as i64 } else { u.highest_ranking_ambigrams },
            ..u
        },
    }
}

/// Whether the queue holds an entry with the given identity.
pub open spec fn has_prompt(prompts: Seq<PromptView>, id: i64) -> bool {
    exists|i: int| 0 <= i < prompts.len() && (#[trigger] prompts[i]).id == id
}

/// The queue without the entry of the given identity.
pub open spec fn remove_prompt(prompts: Seq<PromptView>, id: i64) -> Seq<PromptView> {
    prompts.filter(|p: PromptView| p.id != id)
}

/// The snapshot that listing the queue of one challenge returns: the
/// (identity, prompt) pairs of that challenge, in queue order.
pub open spec fn list_prompts(prompts: Seq<PromptView>, challenge: Challenge) -> Seq<(i64, Seq<char>)> {
    prompts.filter(|p: PromptView| p.challenge == challenge).map_values(
        |p: PromptView| (p.id, p.prompt),
    )
}

/// Appending a row to the queue appends its pair to the listing of its
/// own challenge and leaves the listing of the other challenge as it is.
pub proof fn lemma_list_prompts_push(s: Seq<PromptView>, c: Challenge, x: PromptView)
    ensures
        x.challenge == c ==> list_prompts(s.push(x), c) =~= list_prompts(s, c).push((x.id, x.prompt)),
        x.challenge != c ==> list_prompts(s.push(x), c) =~= list_prompts(s, c),
{
    reveal(Seq::filter);
    assert(s.push(x).drop_last() =~= s);
    assert(s.push(x).last() == x);
}

/// Appending a ledger entry raises the count of its own author and
/// challenge by one and leaves every other count as it is.
pub proof fn lemma_count_subs_push(s: Seq<SubmissionView>, author: u64, c: Challenge, x: SubmissionView)
    ensures
        count_subs(s.push(x), author, c) == count_subs(s, author, c) + (
        if x.author == author && x.challenge == c {
            1int
        } else {
            0int
        }),
{
    reveal(Seq::filter);
    assert(s.push(x).drop_last() =~= s);
    assert(s.push(x).last() == x);
}

/// Deleting an identity from the queue removes every trace of it: no
/// entry with that identity remains, and deleting it again changes
/// nothing.
pub proof fn lemma_remove_prompt_complete(s: Seq<PromptView>, id: i64)
    ensures
        !has_prompt(remove_prompt(s, id), id),
        remove_prompt(remove_prompt(s, id), id) =~= remove_prompt(s, id),
    decreases s.len(),
{
    reveal(Seq::filter);
    if s.len() == 0 {
    } else {
        let s0 = s.drop_last();
        lemma_remove_prompt_complete(s0, id);
        let r0 = remove_prompt(s0, id);
        if s.last().id != id {
            assert(remove_prompt(s, id) == r0.push(s.last()));
            assert(r0.push(s.last()).drop_last() =~= r0);
            assert(remove_prompt(r0.push(s.last()), id) == remove_prompt(r0, id).push(s.last()));
        } else {
            assert(remove_prompt(s, id) == r0);
        }
    }
}

/// A filter whose predicate holds of every element keeps the sequence
/// as it is.
pub proof fn lemma_filter_all<A>(s: Seq<A>, pred: spec_fn(A) -> bool)
    requires
        forall|i: int| 0 <= i < s.len() ==> pred(#[trigger] s[i]),
    ensures
        s.filter(pred) =~= s,
    decreases s.len(),
{
    reveal(Seq::filter);
    if s.len() > 0 {
        assert(forall|i: int| 0 <= i < s.drop_last().len() ==> pred(#[trigger] s.drop_last()[i]));
        lemma_filter_all(s.drop_last(), pred);
    }
}

/// The queue identities are strictly increasing, and all below the next
/// identity to be assigned.
pub open spec fn prompts_wf(prompts: Seq<PromptView>, next_id: i64) -> bool {
    &&& forall|i: int, j: int|
        0 <= i < j < prompts.len() ==> (#[trigger] prompts[i]).id < (#[trigger] prompts[j]).id
    &&& forall|i: int| 0 <= i < prompts.len() ==> 1 <= (#[trigger] prompts[i]).id < next_id
}

/// The per-challenge data of a week record for one challenge.
pub open spec fn challenge_data(w: WeekRowView, c: Challenge) -> ChallengeWeekDataView {
    match c {
        Challenge::Glyph => w.glyph,
        Challenge::Ambigram => w.ambigram,
    }
}

/// A week record with nothing recorded yet.
pub open spec fn fresh_week(week: i64) -> WeekRowView {
    let empty = ChallengeWeekDataView {
        kind: None,
        prompt: None,
        announcement_message: None,
        panel_message: None,
        hall_of_fame_message: None,
    };
    WeekRowView { week, glyph: empty, ambigram: empty }
}

/// A week record with the kind of one challenge set.
pub open spec fn with_kind(w: WeekRowView, c: Challenge, k: Week) -> WeekRowView {
    match c {
        Challenge::Glyph => WeekRowView {
            glyph: ChallengeWeekDataView { kind: Some(k), ..w.glyph },
            ..w
        },
        Challenge::Ambigram => WeekRowView {
            ambigram: ChallengeWeekDataView { kind: Some(k), ..w.ambigram },
            ..w
        },
    }
}

/// A week record with the prompt of one challenge set.
pub open spec fn with_prompt(w: WeekRowView, c: Challenge, prompt: Seq<char>) -> WeekRowView {
    match c {
        Challenge::Glyph => WeekRowView {
            glyph: ChallengeWeekDataView { prompt: Some(prompt), ..w.glyph },
            ..w
        },
        Challenge::Ambigram => WeekRowView {
            ambigram: ChallengeWeekDataView { prompt: Some(prompt), ..w.ambigram },
            ..w
        },
    }
}

/// The message reference recorded for one rollout action of one
/// challenge.
pub open spec fn action_message(d: ChallengeWeekDataView, a: ActionKind) -> Option<u64> {
    match a {
        ActionKind::Announcement => d.announcement_message,
        ActionKind::Panel => d.panel_message,
        ActionKind::HallOfFame => d.hall_of_fame_message,
    }
}

/// A week record with the message reference of one rollout action of one
/// challenge set.
pub open spec fn with_message(w: WeekRowView, c: Challenge, a: ActionKind, m: u64) -> WeekRowView {
    let d = challenge_data(w, c);
    let d2 = match a {
        ActionKind::Announcement => ChallengeWeekDataView { announcement_message: Some(m), ..d },
        ActionKind::Panel => ChallengeWeekDataView { panel_message: Some(m), ..d },
        ActionKind::HallOfFame => ChallengeWeekDataView { hall_of_fame_message: Some(m), ..d },
    };
    match c {
        Challenge::Glyph => WeekRowView { glyph: d2, ..w },
        Challenge::Ambigram => WeekRowView { ambigram: d2, ..w },
    }
}

/// The kind recorded for a week and challenge, defaulting to Regular for
/// weeks before week zero and for weeks with no recorded kind: no history
/// means no suppression.
pub open spec fn week_kind_or_default(ws: Seq<WeekRowView>, week: i64, c: Challenge) -> Week {
    if week < 0 {
        Week::Regular
    } else if exists|i: int| 0 <= i < ws.len() && (#[trigger] ws[i]).week == week {
        let i = choose|i: int| 0 <= i < ws.len() && (#[trigger] ws[i]).week == week;
        match challenge_data(ws[i], c).kind {
            Some(k) => k,
            None => Week::Regular,
        }
    } else {
        Week::Regular
    }
}

/// The week number that an optional argument resolves to: the argument
/// itself, or the current week.
pub open spec fn resolve_week(arg: Option<i64>, current: Option<i64>) -> Option<i64> {
    match arg {
        Some(w) => Some(w),
        None => current,
    }
}

/// The stats of one week, as returned by [`Store::weekinfo`].
#[derive(Debug)]
pub struct WeekInfo {
    pub week: i64,
    pub glyph_challenge_kind: Option<Week>,
    pub ambigram_challenge_kind: Option<Week>,
    pub glyph_prompt: Option<String>,
    pub ambigram_prompt: Option<String>,
}

/// The user-facing profile summary: the cached lifetime fields combined
/// with live per-challenge submission counts.
pub struct UserProfileData {
    pub nickname: Option<String>,
    /// Number of 1st, 2nd and 3rd place finishes in the glyph challenge.
    pub glyphs_first: i64,
    pub glyphs_second: i64,
    pub glyphs_third: i64,
    /// Number of 1st, 2nd and 3rd place finishes in the ambigram
    /// challenge.
    pub ambigrams_first: i64,
    pub ambigrams_second: i64,
    pub ambigrams_third: i64,
    /// Highest ranking reached in either challenge, zero when none.
    pub highest_ranking_glyphs: i64,
    pub highest_ranking_ambigrams: i64,
    /// Number of submissions, counted live over the ledger.
    pub glyphs_submissions: i64,
    pub ambigrams_submissions: i64,
}

/// The durable tables, with their uniqueness constraints.
pub struct Store {
    current: Option<i64>,
    submissions: Vec<Submission>,
    prompts: Vec<PromptRow>,
    next_prompt_id: i64,
    users: Vec<UserRow>,
    weeks: Vec<WeekRow>,
}

impl Store {
    /// The current-week singleton: `None` before initialization, and
    /// exactly one week number afterwards.
    pub closed spec fn current_week_view(&self) -> Option<i64> {
        self.current
    }

    /// The submission ledger.
    pub closed spec fn subs(&self) -> Seq<SubmissionView> {
        self.submissions.deep_view()
    }

    /// The prompt queue, in insertion order.
    pub closed spec fn prompts_view(&self) -> Seq<PromptView> {
        self.prompts.deep_view()
    }

    /// The next queue identity to be assigned.
    pub closed spec fn next_prompt_view(&self) -> i64 {
        self.next_prompt_id
    }

    /// The cached user records.
    pub closed spec fn users_view(&self) -> Seq<UserRowView> {
        self.users.deep_view()
    }

    /// The week records.
    pub closed spec fn weeks_view(&self) -> Seq<WeekRowView> {
        self.weeks.deep_view()
    }

    /// Well-formedness: the singleton, uniqueness and ordering constraints
    /// that every operation preserves.
    pub closed spec fn wf(&self) -> bool {
        &&& (self.current matches Some(w) ==> w >= 0)
        &&& subs_unique(self.subs())
        &&& self.subs().len() <= MAX_SUBMISSIONS
        &&& (forall|i: int| 0 <= i < self.subs().len() ==> (#[trigger] self.subs()[i]).week >= 0)
        &&& prompts_wf(self.prompts_view(), self.next_prompt_id)
        &&& self.next_prompt_id >= 1
        &&& (forall|i: int, j: int|
            #![trigger self.users_view()[i], self.users_view()[j]]
            0 <= i < j < self.users_view().len() ==> self.users_view()[i].id
                != self.users_view()[j].id)
        &&& (forall|i: int, j: int|
            #![trigger self.weeks_view()[i], self.weeks_view()[j]]
            0 <= i < j < self.weeks_view().len() ==> self.weeks_view()[i].week
                != self.weeks_view()[j].week)
        &&& (forall|i: int| 0 <= i < self.weeks_view().len() ==> (#[trigger] self.weeks_view()[i]).week >= 0)
    }

    /// The facts of well-formedness that callers outside this module
    /// rely on: the current week is never negative, the queue identities
    /// are strictly increasing and at least one, and the ledger keys are
    /// pairwise distinct.
    pub proof fn lemma_wf_facts(&self)
        requires
            self.wf(),
        ensures
            self.current_week_view() matches Some(w) ==> w >= 0,
            prompts_wf(self.prompts_view(), self.next_prompt_view()),
            subs_unique(self.subs()),
    {
    }

    /// A fresh store with no rows and an uninitialized current week.
    pub fn new() -> (r: Store)
        ensures
            r.wf(),
            r.current_week_view() is None,
            r.subs() =~= Seq::<SubmissionView>::empty(),
            r.prompts_view() =~= Seq::<PromptView>::empty(),
            r.next_prompt_view() == 1,
            r.users_view() =~= Seq::<UserRowView>::empty(),
            r.weeks_view() =~= Seq::<WeekRowView>::empty(),
    {
        Store {
            current: None,
            submissions: Vec::new(),
            prompts: Vec::new(),
            next_prompt_id: 1,
            users: Vec::new(),
            weeks: Vec::new(),
        }
    }

    /// Initialize the current-week singleton.  The first insertion wins;
    /// any attempt beyond the first is rejected, not silently merged.
    pub fn init_current_week(&mut self, week: i64) -> (r: Result<(), Error>)
        requires
            old(self).wf(),
        ensures
            final(self).wf(),
            final(self).subs() == old(self).subs(),
            final(self).prompts_view() == old(self).prompts_view(),
            final(self).next_prompt_view() == old(self).next_prompt_view(),
            final(self).users_view() == old(self).users_view(),
            final(self).weeks_view() == old(self).weeks_view(),
            (final(self).current_week_view(), r) == init_week_transition(
                old(self).current_week_view(),
                week,
            ),
    {
        if week < 0 {
            return Err(Error::Validation);
        }
        match self.current {
            Some(_) => Err(Error::Conflict),
            None => {
                self.current = Some(week);
                Ok(())
            },
        }
    }

    /// Advance the current week.  This stands in for the external trigger
    /// that rolls the week over; it never creates a second row, and it
    /// refuses to move backwards.
    pub fn set_current_week(&mut self, week: i64) -> (r: Result<(), Error>)
        requires
            old(self).wf(),
        ensures
            final(self).wf(),
            final(self).subs() == old(self).subs(),
            final(self).prompts_view() == old(self).prompts_view(),
            final(self).next_prompt_view() == old(self).next_prompt_view(),
            final(self).users_view() == old(self).users_view(),
            final(self).weeks_view() == old(self).weeks_view(),
            old(self).current_week_view() is None ==> r == Err::<(), Error>(Error::NotFound)
                && final(self).current_week_view() == old(self).current_week_view(),
            old(self).current_week_view() matches Some(w) && week < w ==> r == Err::<(), Error>(
                Error::Validation,
            ) && final(self).current_week_view() == old(self).current_week_view(),
            old(self).current_week_view() matches Some(w) && week >= w ==> r == Ok::<(), Error>(())
                && final(self).current_week_view() == Some(week),
    {
        match self.current {
            None => Err(Error::NotFound),
            Some(w) => {
                if week < w {
                    Err(Error::Validation)
                } else {
                    self.current = Some(week);
                    Ok(())
                }
            },
        }
    }

    /// Read the current week; fails only while the singleton is
    /// uninitialized.
    pub fn current_week(&self) -> (r: Result<i64, Error>)
        ensures
            r == (match self.current_week_view() {
                Some(w) => Ok::<i64, Error>(w),
                None => Err::<i64, Error>(Error::NotFound),
            }),
    {
        match self.current {
            Some(w) => Ok(w),
            None => Err(Error::NotFound),
        }
    }

    /// Find the ledger entry with the given key, if any.
    fn find_submission(&self, message: u64, week: i64, challenge: Challenge) -> (r: Option<usize>)
        ensures
            match r {
                Some(i) => i < self.subs().len() && is_sub_key(self.subs()[i as int], message, week, challenge),
                None => !has_sub(self.subs(), message, week, challenge),
            },
    {
        let n = self.submissions.len();
        let mut i: usize = 0;
        while i < n
            invariant
                n == self.subs().len(),
                i <= n,
                forall|j: int| 0 <= j < i ==> !is_sub_key(#[trigger] self.subs()[j], message, week, challenge),
            decreases n - i,
        {
            let s = &self.submissions[i];
            if s.message == message && s.week == week && s.challenge == challenge {
                assert(is_sub_key(self.subs()[i as int], message, week, challenge));
                return Some(i);
            }
            i = i + 1;
        }
        None
    }

    /// Add a submission for the current week.
    ///
    /// Fails with `NotFound` while the current week is uninitialized, with
    /// `Conflict` when the (message, week, challenge) key is already
    /// present, and with `Storage` when the ledger is full; otherwise the
    /// entry is appended with the given ingestion time and zero votes.
    pub fn add_submission(
        &mut self,
        message: u64,
        challenge: Challenge,
        author: u64,
        link: &str,
        time: i64,
    ) -> (r: Result<(), Error>)
        requires
            old(self).wf(),
        ensures
            final(self).wf(),
            final(self).current_week_view() == old(self).current_week_view(),
            final(self).prompts_view() == old(self).prompts_view(),
            final(self).next_prompt_view() == old(self).next_prompt_view(),
            final(self).users_view() == old(self).users_view(),
            final(self).weeks_view() == old(self).weeks_view(),
            old(self).current_week_view() is None ==> r == Err::<(), Error>(Error::NotFound)
                && final(self).subs() == old(self).subs(),
            old(self).current_week_view() matches Some(w) ==> {
                &&& has_sub(old(self).subs(), message, w, challenge) ==> r == Err::<(), Error>(
                    Error::Conflict,
                ) && final(self).subs() == old(self).subs()
                &&& !has_sub(old(self).subs(), message, w, challenge) && old(self).subs().len()
                    >= MAX_SUBMISSIONS ==> r == Err::<(), Error>(Error::Storage)
                    && final(self).subs() == old(self).subs()
                &&& !has_sub(old(self).subs(), message, w, challenge) && old(self).subs().len()
                    < MAX_SUBMISSIONS ==> r == Ok::<(), Error>(())
                    && final(self).subs() =~= old(self).subs().push(
                        fresh_sub(message, w, challenge, author, link@, time),
                    )
            },
    {
        let week = match self.current {
            Some(w) => w,
            None => {
                return Err(Error::NotFound);
            },
        };
        if self.find_submission(message, week, challenge).is_some() {
            return Err(Error::Conflict);
        }
        if self.submissions.len() as u64 >= MAX_SUBMISSIONS {
            return Err(Error::Storage);
        }
        let sub = Submission { message, week, challenge, author, link: link.to_owned(), time, votes: 0 };
        let ghost sv = sub@;
        self.submissions.push(sub);
        proof {
            assert(self.subs() =~= old(self).subs().push(sv));
        }
        Ok(())
    }

    /// Remove the submission of the current week with the given message
    /// and challenge.  Removing an absent entry is a silent no-op, because
    /// removal may race with an already-processed removal; the operation
    /// fails only while the current week is uninitialized.
    pub fn remove_submission(&mut self, message: u64, challenge: Challenge) -> (r: Result<(), Error>)
        requires
            old(self).wf(),
        ensures
            final(self).wf(),
            final(self).current_week_view() == old(self).current_week_view(),
            final(self).prompts_view() == old(self).prompts_view(),
            final(self).next_prompt_view() == old(self).next_prompt_view(),
            final(self).users_view() == old(self).users_view(),
            final(self).weeks_view() == old(self).weeks_view(),
            old(self).current_week_view() is None ==> r == Err::<(), Error>(Error::NotFound)
                && final(self).subs() == old(self).subs(),
            old(self).current_week_view() matches Some(w) ==> {
                &&& r == Ok::<(), Error>(())
                &&& !has_sub(old(self).subs(), message, w, challenge) ==> final(self).subs()
                    == old(self).subs()
                &&& has_sub(old(self).subs(), message, w, challenge) ==> exists|i: int|
                    0 <= i < old(self).subs().len() && is_sub_key(
                        #[trigger] old(self).subs()[i],
                        message,
                        w,
                        challenge,
                    ) && final(self).subs() =~= old(self).subs().remove(i)
                &&& !has_sub(final(self).subs(), message, w, challenge)
            },
    {
        let week = match self.current {
            Some(w) => w,
            None => {
                return Err(Error::NotFound);
            },
        };
        match self.find_submission(message, week, challenge) {
            None => Ok(()),
            Some(i) => {
                self.submissions.remove(i);
                proof {
                    assert(self.subs() =~= old(self).subs().remove(i as int));
                    assert forall|k: int| 0 <= k < self.subs().len() implies !is_sub_key(
                        #[trigger] self.subs()[k],
                        message,
                        week,
                        challenge,
                    ) by {
                        if k < i {
                            assert(self.subs()[k] == old(self).subs()[k]);
                        } else {
                            assert(self.subs()[k] == old(self).subs()[k + 1]);
                        }
                    }
                }
                Ok(())
            },
        }
    }

    /// Find the queue entry with the given identity, if any.
    fn find_prompt(&self, id: i64) -> (r: Option<usize>)
        ensures
            match r {
                Some(i) => i < self.prompts_view().len() && self.prompts_view()[i as int].id == id,
                None => !has_prompt(self.prompts_view(), id),
            },
    {
        let n = self.prompts.len();
        let mut i: usize = 0;
        while i < n
            invariant
                n == self.prompts_view().len(),
                i <= n,
                forall|j: int| 0 <= j < i ==> (#[trigger] self.prompts_view()[j]).id != id,
            decreases n - i,
        {
            if self.prompts[i].id == id {
                return Some(i);
            }
            i = i + 1;
        }
        None
    }

    /// Append a prompt to the queue of a challenge and return its
    /// identity.  Identities are assigned strictly increasing; the
    /// operation fails only when they are exhausted.
    pub fn add_prompt(&mut self, challenge: Challenge, prompt: &str) -> (r: Result<i64, Error>)
        requires
            old(self).wf(),
        ensures
            final(self).wf(),
            final(self).current_week_view() == old(self).current_week_view(),
            final(self).subs() == old(self).subs(),
            final(self).users_view() == old(self).users_view(),
            final(self).weeks_view() == old(self).weeks_view(),
            old(self).next_prompt_view() == i64::MAX ==> r == Err::<i64, Error>(Error::Storage)
                && final(self).prompts_view() == old(self).prompts_view()
                && final(self).next_prompt_view() == old(self).next_prompt_view(),
            old(self).next_prompt_view() < i64::MAX ==> r == Ok::<i64, Error>(
                old(self).next_prompt_view(),
            ) && final(self).prompts_view() =~= old(self).prompts_view().push(
                PromptView { id: old(self).next_prompt_view(), challenge, prompt: prompt@ },
            ) && final(self).next_prompt_view() == old(self).next_prompt_view() + 1,
    {
        if self.next_prompt_id == i64::MAX {
            return Err(Error::Storage);
        }
        let id = self.next_prompt_id;
        let row = PromptRow { id, challenge, prompt: prompt.to_owned() };
        let ghost rv = row@;
        self.prompts.push(row);
        self.next_prompt_id = id + 1;
        proof {
            assert(self.prompts_view() =~= old(self).prompts_view().push(rv));
        }
        Ok(id)
    }

    /// Delete the queue entry with the given identity.  The result says
    /// whether an entry was actually removed, so repeated cancellation is
    /// observably idempotent without raising an error.
    #[verifier::rlimit(30)]
    pub fn delete_prompt(&mut self, id: i64) -> (r: Result<bool, Error>)
        requires
            old(self).wf(),
        ensures
            final(self).wf(),
            final(self).current_week_view() == old(self).current_week_view(),
            final(self).subs() == old(self).subs(),
            final(self).users_view() == old(self).users_view(),
            final(self).weeks_view() == old(self).weeks_view(),
            final(self).next_prompt_view() == old(self).next_prompt_view(),
            r == Ok::<bool, Error>(has_prompt(old(self).prompts_view(), id)),
            final(self).prompts_view() =~= remove_prompt(old(self).prompts_view(), id),
    {
        let ghost ps = self.prompts_view();
        let ghost pred = |p: PromptView| p.id != id;
        match self.find_prompt(id) {
            None => {
                proof {
                    lemma_filter_all(ps, pred);
                }
                Ok(false)
            },
            Some(i) => {
                self.prompts.remove(i);
                proof {
                    let gi = i as int;
                    assert(self.prompts_view() =~= ps.remove(gi));
                    let front = ps.subrange(0, gi);
                    let mid = ps.subrange(gi, gi + 1);
                    let back = ps.subrange(gi + 1, ps.len() as int);
                    assert(ps =~= (front + mid) + back);
                    vstd::seq::Seq::filter_distributes_over_add(front + mid, back, pred);
                    vstd::seq::Seq::filter_distributes_over_add(front, mid, pred);
                    assert(forall|k: int| 0 <= k < front.len() ==> pred(#[trigger] front[k]));
                    lemma_filter_all(front, pred);
                    assert(forall|k: int| 0 <= k < back.len() ==> pred(#[trigger] back[k]));
                    lemma_filter_all(back, pred);
                    assert(mid.filter(pred) =~= Seq::<PromptView>::empty()) by {
                        reveal_with_fuel(Seq::filter, 2);
                        assert(mid.len() == 1);
                        assert(mid.drop_last() =~= Seq::<PromptView>::empty());
                        assert(mid.drop_last().filter(pred) =~= Seq::<PromptView>::empty());
                        assert(!pred(mid.last()));
                    }
                    assert(remove_prompt(ps, id) =~= front + back);
                    assert(self.prompts_view() =~= front + back);
                }
                Ok(true)
            },
        }
    }

    /// Look up a queue entry by identity, returning its challenge and
    /// prompt; fails with `NotFound` when no such entry exists.
    pub fn get_prompt(&self, id: i64) -> (r: Result<(Challenge, String), Error>)
        requires
            self.wf(),
        ensures
            r is Ok <==> has_prompt(self.prompts_view(), id),
            !has_prompt(self.prompts_view(), id) ==> r == Err::<(Challenge, String), Error>(
                Error::NotFound,
            ),
            forall|i: int|
                0 <= i < self.prompts_view().len() && (#[trigger] self.prompts_view()[i]).id == id
                    ==> (r matches Ok(pair) && pair.0 == self.prompts_view()[i].challenge
                    && pair.1@ == self.prompts_view()[i].prompt),
    {
        match self.find_prompt(id) {
            None => Err(Error::NotFound),
            Some(i) => {
                let row = &self.prompts[i];
                Ok((row.challenge, row.prompt.clone()))
            },
        }
    }

    /// The queue of one challenge, as (identity, prompt) pairs ascending
    /// by identity: a snapshot, not a live view.
    pub fn get_prompts(&self, challenge: Challenge) -> (r: Vec<(i64, String)>)
        requires
            self.wf(),
        ensures
            r.deep_view() =~= list_prompts(self.prompts_view(), challenge),
    {
        let ghost ps = self.prompts_view();
        let n = self.prompts.len();
        let mut out: Vec<(i64, String)> = Vec::new();
        let mut i: usize = 0;
        while i < n
            invariant
                n == ps.len(),
                i <= n,
                ps == self.prompts_view(),
                out.deep_view() =~= list_prompts(ps.subrange(0, i as int), challenge),
            decreases n - i,
        {
            let row = &self.prompts[i];
            let ghost prev = out.deep_view();
            let ghost prefix = ps.subrange(0, i as int);
            let ghost prefix1 = ps.subrange(0, i as int + 1);
            proof {
                assert(prefix1 =~= prefix.push(ps[i as int]));
                assert(ps[i as int] == row@);
                lemma_list_prompts_push(prefix, challenge, ps[i as int]);
            }
            if row.challenge == challenge {
                out.push((row.id, row.prompt.clone()));
                proof {
                    assert(out.deep_view() =~= prev.push((row.id, row.prompt@)));
                    assert(out.deep_view() =~= list_prompts(prefix1, challenge));
                }
            } else {
                proof {
                    assert(out.deep_view() =~= list_prompts(prefix1, challenge));
                }
            }
            i = i + 1;
        }
        proof {
            assert(ps.subrange(0, n as int) =~= ps);
        }
        out
    }

    /// Find the cached record of the given user, if any.
    fn find_user(&self, user: u64) -> (r: Option<usize>)
        ensures
            match r {
                Some(i) => i < self.users_view().len() && self.users_view()[i as int].id == user,
                None => forall|j: int|
                    0 <= j < self.users_view().len() ==> (#[trigger] self.users_view()[j]).id != user,
            },
    {
        let n = self.users.len();
        let mut i: usize = 0;
        while i < n
            invariant
                n == self.users_view().len(),
                i <= n,
                forall|j: int| 0 <= j < i ==> (#[trigger] self.users_view()[j]).id != user,
            decreases n - i,
        {
            if self.users[i].id == user {
                return Some(i);
            }
            i = i + 1;
        }
        None
    }

    /// Set a user's nickname, creating the cached record lazily.  A name
    /// that is empty or longer than 200 characters is rejected.
    pub fn set_nickname(&mut self, user: u64, name: &str) -> (r: Result<(), Error>)
        requires
            old(self).wf(),
        ensures
            final(self).wf(),
            final(self).current_week_view() == old(self).current_week_view(),
            final(self).subs() == old(self).subs(),
            final(self).prompts_view() == old(self).prompts_view(),
            final(self).next_prompt_view() == old(self).next_prompt_view(),
            final(self).weeks_view() == old(self).weeks_view(),
            name@.len() == 0 || name@.len() > 200 ==> r == Err::<(), Error>(
                Error::Validation,
            ) && final(self).users_view() == old(self).users_view(),
            name@.len() > 0 && name@.len() <= 200 ==> {
                &&& r == Ok::<(), Error>(())
                &&& (forall|j: int|
                    0 <= j < old(self).users_view().len() ==> (#[trigger] old(
                        self,
                    ).users_view()[j]).id != user) ==> final(self).users_view() =~= old(
                    self,
                ).users_view().push(with_nickname(fresh_user(user), name@))
                &&& forall|i: int|
                    0 <= i < old(self).users_view().len() && (#[trigger] old(
                        self,
                    ).users_view()[i]).id == user ==> final(self).users_view() =~= old(
                        self,
                    ).users_view().update(i, with_nickname(old(self).users_view()[i], name@))
            },
    {
        let name_len = name.unicode_len();
        if name_len == 0 || name_len > 200 {
            return Err(Error::Validation);
        }
        match self.find_user(user) {
            Some(i) => {
                self.users[i].nickname = Some(name.to_owned());
                proof {
                    assert(self.users_view() =~= old(self).users_view().update(
                        i as int,
                        with_nickname(old(self).users_view()[i as int], name@),
                    ));
                }
            },
            None => {
                let row = UserRow {
                    id: user,
                    nickname: Some(name.to_owned()),
                    glyphs_first: 0,
                    glyphs_second: 0,
                    glyphs_third: 0,
                    ambigrams_first: 0,
                    ambigrams_second: 0,
                    ambigrams_third: 0,
                    highest_ranking_glyphs: 0,
                    highest_ranking_ambigrams: 0,
                };
                let ghost rv = row@;
                self.users.push(row);
                proof {
                    assert(self.users_view() =~= old(self).users_view().push(rv));
                    assert(rv == with_nickname(fresh_user(user), name@));
                }
            },
        }
        Ok(())
    }

    /// Credit one placement (rank 1 to 3) for a challenge to a user,
    /// creating the cached record lazily.  The matching counter goes up
    /// by one and the highest ranking improves if the rank beats it; an
    /// out-of-range rank is rejected, and a counter at its ceiling leaves
    /// everything unchanged with a storage fault.
    pub fn credit_placement(&mut self, user: u64, challenge: Challenge, rank: u8) -> (r: Result<
        (),
        Error,
    >)
        requires
            old(self).wf(),
        ensures
            final(self).wf(),
            final(self).current_week_view() == old(self).current_week_view(),
            final(self).subs() == old(self).subs(),
            final(self).prompts_view() == old(self).prompts_view(),
            final(self).next_prompt_view() == old(self).next_prompt_view(),
            final(self).weeks_view() == old(self).weeks_view(),
            rank < 1 || rank > 3 ==> r == Err::<(), Error>(Error::Validation) && final(self).users_view() == old(self).users_view(),
            1 <= rank <= 3 ==> {
                &&& (forall|j: int|
                    0 <= j < old(self).users_view().len() ==> (#[trigger] old(
                        self,
                    ).users_view()[j]).id != user) ==> r == Ok::<(), Error>(()) && final(self).users_view() =~= old(self).users_view().push(credited(fresh_user(user), challenge, rank))
                &&& forall|i: int|
                    0 <= i < old(self).users_view().len() && (#[trigger] old(
                        self,
                    ).users_view()[i]).id == user ==> {
                        &&& placement_counter(old(self).users_view()[i], challenge, rank)
                            == i64::MAX ==> r == Err::<(), Error>(Error::Storage) && final(self).users_view() == old(self).users_view()
                        &&& placement_counter(old(self).users_view()[i], challenge, rank)
                            < i64::MAX ==> r == Ok::<(), Error>(()) && final(self).users_view()
                            =~= old(self).users_view().update(
                            i,
                            credited(old(self).users_view()[i], challenge, rank),
                        )
                    }
            },
    {
        if rank < 1 || rank > 3 {
            return Err(Error::Validation);
        }
        match self.find_user(user) {
            Some(i) => {
                let row = &self.users[i];
                let counter = match challenge {
                    Challenge::Glyph => {
                        if rank == 1 {
                            row.glyphs_first
                        } else if rank == 2 {
                            row.glyphs_second
                        } else {
                            row.glyphs_third
                        }
                    },
                    Challenge::Ambigram => {
                        if rank == 1 {
                            row.ambigrams_first
                        } else if rank == 2 {
                            row.ambigrams_second
                        } else {
                            row.ambigrams_third
                        }
                    },
                };
                if counter == i64::MAX {
                    return Err(Error::Storage);
                }
                let current_best = match challenge {
                    Challenge::Glyph => row.highest_ranking_glyphs,
                    Challenge::Ambigram => row.highest_ranking_ambigrams,
                };
                let better = current_best == 0 || (rank as i64) < current_best;
                match challenge {
                    Challenge::Glyph => {
                        if rank == 1 {
                            self.users[i].glyphs_first = counter + 1;
                        } else if rank == 2 {
                            self.users[i].glyphs_second = counter + 1;
                        } else {
                            self.users[i].glyphs_third = counter + 1;
                        }
                        if better {
                            self.users[i].highest_ranking_glyphs = rank as i64;
                        }
                    },
                    Challenge::Ambigram => {
                        if rank == 1 {
                            self.users[i].ambigrams_first = counter + 1;
                        } else if rank == 2 {
                            self.users[i].ambigrams_second = counter + 1;
                        } else {
                            self.users[i].ambigrams_third = counter + 1;
                        }
                        if better {
                            self.users[i].highest_ranking_ambigrams = rank as i64;
                        }
                    },
                }
                proof {
                    assert(self.users_view() =~= old(self).users_view().update(
                        i as int,
                        credited(old(self).users_view()[i as int], challenge, rank),
                    ));
                }
                Ok(())
            },
            None => {
                let mut row = UserRow {
                    id: user,
                    nickname: None,
                    glyphs_first: 0,
                    glyphs_second: 0,
                    glyphs_third: 0,
                    ambigrams_first: 0,
                    ambigrams_second: 0,
                    ambigrams_third: 0,
                    highest_ranking_glyphs: 0,
                    highest_ranking_ambigrams: 0,
                };
                match challenge {
                    Challenge::Glyph => {
                        if rank == 1 {
                            row.glyphs_first = 1;
                        } else if rank == 2 {
                            row.glyphs_second = 1;
                        } else {
                            row.glyphs_third = 1;
                        }
                        row.highest_ranking_glyphs = rank as i64;
                    },
                    Challenge::Ambigram => {
                        if rank == 1 {
                            row.ambigrams_first = 1;
                        } else if rank == 2 {
                            row.ambigrams_second = 1;
                        } else {
                            row.ambigrams_third = 1;
                        }
                        row.highest_ranking_ambigrams = rank as i64;
                    },
                }
                let ghost rv = row@;
                self.users.push(row);
                proof {
                    assert(rv == credited(fresh_user(user), challenge, rank));
                    assert(self.users_view() =~= old(self).users_view().push(rv));
                }
                Ok(())
            },
        }
    }

    /// Derive the profile summary for a user: the cached lifetime fields
    /// (all-zero defaults when no record exists) combined with live
    /// per-challenge submission counts over the whole ledger.  A user
    /// with no history is a valid, common case, not an error.
    pub fn get_user_profile(&self, user: u64) -> (r: UserProfileData)
        requires
            self.wf(),
        ensures
            (forall|j: int|
                0 <= j < self.users_view().len() ==> (#[trigger] self.users_view()[j]).id != user)
                ==> r.nickname is None && r.glyphs_first == 0 && r.glyphs_second == 0
                && r.glyphs_third == 0 && r.ambigrams_first == 0 && r.ambigrams_second == 0
                && r.ambigrams_third == 0 && r.highest_ranking_glyphs == 0
                && r.highest_ranking_ambigrams == 0,
            forall|i: int|
                0 <= i < self.users_view().len() && (#[trigger] self.users_view()[i]).id == user
                    ==> r.nickname.deep_view() == self.users_view()[i].nickname && r.glyphs_first
                    == self.users_view()[i].glyphs_first && r.glyphs_second
                    == self.users_view()[i].glyphs_second && r.glyphs_third
                    == self.users_view()[i].glyphs_third && r.ambigrams_first
                    == self.users_view()[i].ambigrams_first && r.ambigrams_second
                    == self.users_view()[i].ambigrams_second && r.ambigrams_third
                    == self.users_view()[i].ambigrams_third && r.highest_ranking_glyphs
                    == self.users_view()[i].highest_ranking_glyphs && r.highest_ranking_ambigrams
                    == self.users_view()[i].highest_ranking_ambigrams,
            r.glyphs_submissions == count_subs(self.subs(), user, Challenge::Glyph),
            r.ambigrams_submissions == count_subs(self.subs(), user, Challenge::Ambigram),
    {
        let mut profile = UserProfileData {
            nickname: None,
            glyphs_first: 0,
            glyphs_second: 0,
            glyphs_third: 0,
            ambigrams_first: 0,
            ambigrams_second: 0,
            ambigrams_third: 0,
            highest_ranking_glyphs: 0,
            highest_ranking_ambigrams: 0,
            glyphs_submissions: 0,
            ambigrams_submissions: 0,
        };
        if let Some(i) = self.find_user(user) {
            let row = &self.users[i];
            profile.nickname = match &row.nickname {
                Some(n) => Some(n.clone()),
                None => None,
            };
            profile.glyphs_first = row.glyphs_first;
            profile.glyphs_second = row.glyphs_second;
            profile.glyphs_third = row.glyphs_third;
            profile.ambigrams_first = row.ambigrams_first;
            profile.ambigrams_second = row.ambigrams_second;
            profile.ambigrams_third = row.ambigrams_third;
            profile.highest_ranking_glyphs = row.highest_ranking_glyphs;
            profile.highest_ranking_ambigrams = row.highest_ranking_ambigrams;
        }
        let ghost subs = self.subs();
        let n = self.submissions.len();
        let mut glyph_count: i64 = 0;
        let mut ambigram_count: i64 = 0;
        let mut i: usize = 0;
        while i < n
            invariant
                n == subs.len(),
                i <= n,
                subs == self.subs(),
                subs.len() <= MAX_SUBMISSIONS,
                0 <= glyph_count <= i,
                0 <= ambigram_count <= i,
                glyph_count == count_subs(subs.subrange(0, i as int), user, Challenge::Glyph),
                ambigram_count == count_subs(subs.subrange(0, i as int), user, Challenge::Ambigram),
            decreases n - i,
        {
            let ghost prefix = subs.subrange(0, i as int);
            let ghost prefix1 = subs.subrange(0, i as int + 1);
            proof {
                assert(prefix1 =~= prefix.push(subs[i as int]));
                lemma_count_subs_push(prefix, user, Challenge::Glyph, subs[i as int]);
                lemma_count_subs_push(prefix, user, Challenge::Ambigram, subs[i as int]);
            }
            let row = &self.submissions[i];
            if row.author == user {
                match row.challenge {
                    Challenge::Glyph => {
                        glyph_count = glyph_count + 1;
                    },
                    Challenge::Ambigram => {
                        ambigram_count = ambigram_count + 1;
                    },
                }
            }
            i = i + 1;
        }
        proof {
            assert(subs.subrange(0, n as int) =~= subs);
        }
        profile.glyphs_submissions = glyph_count;
        profile.ambigrams_submissions = ambigram_count;
        profile
    }

    /// Find the record of the given week, if any.
    fn find_week(&self, week: i64) -> (r: Option<usize>)
        ensures
            match r {
                Some(i) => i < self.weeks_view().len() && self.weeks_view()[i as int].week == week,
                None => forall|j: int|
                    0 <= j < self.weeks_view().len() ==> (#[trigger] self.weeks_view()[j]).week
                        != week,
            },
    {
        let n = self.weeks.len();
        let mut i: usize = 0;
        while i < n
            invariant
                n == self.weeks_view().len(),
                i <= n,
                forall|j: int| 0 <= j < i ==> (#[trigger] self.weeks_view()[j]).week != week,
            decreases n - i,
        {
            if self.weeks[i].week == week {
                return Some(i);
            }
            i = i + 1;
        }
        None
    }

    /// A week record with nothing recorded yet, for lazy creation.
    fn empty_week_row(week: i64) -> (r: WeekRow)
        ensures
            r@ == fresh_week(week),
    {
        WeekRow {
            week,
            glyph: ChallengeWeekData {
                kind: None,
                prompt: None,
                announcement_message: None,
                panel_message: None,
                hall_of_fame_message: None,
            },
            ambigram: ChallengeWeekData {
                kind: None,
                prompt: None,
                announcement_message: None,
                panel_message: None,
                hall_of_fame_message: None,
            },
        }
    }

    /// Record the kind of a week for a challenge, creating the week
    /// record lazily.  The kind is set once and immutable thereafter:
    /// re-classifying a past week is rejected as a conflict.
    pub fn record_week_kind(&mut self, week: i64, challenge: Challenge, kind: Week) -> (r: Result<
        (),
        Error,
    >)
        requires
            old(self).wf(),
        ensures
            final(self).wf(),
            final(self).current_week_view() == old(self).current_week_view(),
            final(self).subs() == old(self).subs(),
            final(self).prompts_view() == old(self).prompts_view(),
            final(self).next_prompt_view() == old(self).next_prompt_view(),
            final(self).users_view() == old(self).users_view(),
            week < 0 ==> r == Err::<(), Error>(Error::Validation) && final(self).weeks_view()
                == old(self).weeks_view(),
            week >= 0 ==> {
                &&& (forall|j: int|
                    0 <= j < old(self).weeks_view().len() ==> (#[trigger] old(
                        self,
                    ).weeks_view()[j]).week != week) ==> r == Ok::<(), Error>(())
                    && final(self).weeks_view() =~= old(self).weeks_view().push(
                    with_kind(fresh_week(week), challenge, kind),
                )
                &&& forall|i: int|
                    0 <= i < old(self).weeks_view().len() && (#[trigger] old(
                        self,
                    ).weeks_view()[i]).week == week ==> {
                        &&& challenge_data(old(self).weeks_view()[i], challenge).kind is Some
                            ==> r == Err::<(), Error>(Error::Conflict) && final(self).weeks_view()
                            == old(self).weeks_view()
                        &&& challenge_data(old(self).weeks_view()[i], challenge).kind is None
                            ==> r == Ok::<(), Error>(()) && final(self).weeks_view() =~= old(
                            self,
                        ).weeks_view().update(i, with_kind(old(self).weeks_view()[i], challenge, kind))
                    }
            },
    {
        if week < 0 {
            return Err(Error::Validation);
        }
        match self.find_week(week) {
            None => {
                let mut row = Self::empty_week_row(week);
                match challenge {
                    Challenge::Glyph => row.glyph.kind = Some(kind),
                    Challenge::Ambigram => row.ambigram.kind = Some(kind),
                }
                let ghost rv = row@;
                self.weeks.push(row);
                proof {
                    assert(rv == with_kind(fresh_week(week), challenge, kind));
                    assert(self.weeks_view() =~= old(self).weeks_view().push(rv));
                }
                Ok(())
            },
            Some(i) => {
                let already = match challenge {
                    Challenge::Glyph => self.weeks[i].glyph.kind.is_some(),
                    Challenge::Ambigram => self.weeks[i].ambigram.kind.is_some(),
                };
                if already {
                    return Err(Error::Conflict);
                }
                match challenge {
                    Challenge::Glyph => self.weeks[i].glyph.kind = Some(kind),
                    Challenge::Ambigram => self.weeks[i].ambigram.kind = Some(kind),
                }
                proof {
                    assert(self.weeks_view() =~= old(self).weeks_view().update(
                        i as int,
                        with_kind(old(self).weeks_view()[i as int], challenge, kind),
                    ));
                }
                Ok(())
            },
        }
    }

    /// Persist the prompt of a week for a challenge, creating the week
    /// record lazily.  Re-requesting an announcement may overwrite the
    /// prompt until the week rolls over.
    pub fn set_week_prompt(&mut self, week: i64, challenge: Challenge, prompt: &str) -> (r: Result<
        (),
        Error,
    >)
        requires
            old(self).wf(),
        ensures
            final(self).wf(),
            final(self).current_week_view() == old(self).current_week_view(),
            final(self).subs() == old(self).subs(),
            final(self).prompts_view() == old(self).prompts_view(),
            final(self).next_prompt_view() == old(self).next_prompt_view(),
            final(self).users_view() == old(self).users_view(),
            week < 0 ==> r == Err::<(), Error>(Error::Validation) && final(self).weeks_view()
                == old(self).weeks_view(),
            week >= 0 ==> {
                &&& r == Ok::<(), Error>(())
                &&& (forall|j: int|
                    0 <= j < old(self).weeks_view().len() ==> (#[trigger] old(
                        self,
                    ).weeks_view()[j]).week != week) ==> final(self).weeks_view() =~= old(
                    self,
                ).weeks_view().push(with_prompt(fresh_week(week), challenge, prompt@))
                &&& forall|i: int|
                    0 <= i < old(self).weeks_view().len() && (#[trigger] old(
                        self,
                    ).weeks_view()[i]).week == week ==> final(self).weeks_view() =~= old(
                        self,
                    ).weeks_view().update(i, with_prompt(old(self).weeks_view()[i], challenge, prompt@))
            },
    {
        if week < 0 {
            return Err(Error::Validation);
        }
        match self.find_week(week) {
            None => {
                let mut row = Self::empty_week_row(week);
                match challenge {
                    Challenge::Glyph => row.glyph.prompt = Some(prompt.to_owned()),
                    Challenge::Ambigram => row.ambigram.prompt = Some(prompt.to_owned()),
                }
                let ghost rv = row@;
                self.weeks.push(row);
                proof {
                    assert(rv == with_prompt(fresh_week(week), challenge, prompt@));
                    assert(self.weeks_view() =~= old(self).weeks_view().push(rv));
                }
                Ok(())
            },
            Some(i) => {
                match challenge {
                    Challenge::Glyph => self.weeks[i].glyph.prompt = Some(prompt.to_owned()),
                    Challenge::Ambigram => self.weeks[i].ambigram.prompt = Some(prompt.to_owned()),
                }
                proof {
                    assert(self.weeks_view() =~= old(self).weeks_view().update(
                        i as int,
                        with_prompt(old(self).weeks_view()[i as int], challenge, prompt@),
                    ));
                }
                Ok(())
            },
        }
    }

    /// Record the message reference of one executed rollout action of a
    /// week and challenge, creating the week record lazily.  Each
    /// reference is filled in once, as the action executes, and is
    /// immutable thereafter.
    pub fn record_action_message(
        &mut self,
        week: i64,
        challenge: Challenge,
        action: ActionKind,
        message: u64,
    ) -> (r: Result<(), Error>)
        requires
            old(self).wf(),
        ensures
            final(self).wf(),
            final(self).current_week_view() == old(self).current_week_view(),
            final(self).subs() == old(self).subs(),
            final(self).prompts_view() == old(self).prompts_view(),
            final(self).next_prompt_view() == old(self).next_prompt_view(),
            final(self).users_view() == old(self).users_view(),
            week < 0 ==> r == Err::<(), Error>(Error::Validation) && final(self).weeks_view()
                == old(self).weeks_view(),
            week >= 0 ==> {
                &&& (forall|j: int|
                    0 <= j < old(self).weeks_view().len() ==> (#[trigger] old(
                        self,
                    ).weeks_view()[j]).week != week) ==> r == Ok::<(), Error>(())
                    && final(self).weeks_view() =~= old(self).weeks_view().push(
                    with_message(fresh_week(week), challenge, action, message),
                )
                &&& forall|i: int|
                    0 <= i < old(self).weeks_view().len() && (#[trigger] old(
                        self,
                    ).weeks_view()[i]).week == week ==> {
                        &&& action_message(challenge_data(old(self).weeks_view()[i], challenge), action)
                            is Some ==> r == Err::<(), Error>(Error::Conflict) && final(self).weeks_view() == old(self).weeks_view()
                        &&& action_message(challenge_data(old(self).weeks_view()[i], challenge), action)
                            is None ==> r == Ok::<(), Error>(()) && final(self).weeks_view()
                            =~= old(self).weeks_view().update(
                            i,
                            with_message(old(self).weeks_view()[i], challenge, action, message),
                        )
                    }
            },
    {
        if week < 0 {
            return Err(Error::Validation);
        }
        match self.find_week(week) {
            None => {
                let mut row = Self::empty_week_row(week);
                match challenge {
                    Challenge::Glyph => {
                        match action {
                            ActionKind::Announcement => row.glyph.announcement_message = Some(message),
                            ActionKind::Panel => row.glyph.panel_message = Some(message),
                            ActionKind::HallOfFame => row.glyph.hall_of_fame_message = Some(message),
                        }
                    },
                    Challenge::Ambigram => {
                        match action {
                            ActionKind::Announcement => row.ambigram.announcement_message = Some(
                                message,
                            ),
                            ActionKind::Panel => row.ambigram.panel_message = Some(message),
                            ActionKind::HallOfFame => row.ambigram.hall_of_fame_message = Some(
                                message,
                            ),
                        }
                    },
                }
                let ghost rv = row@;
                self.weeks.push(row);
                proof {
                    assert(rv == with_message(fresh_week(week), challenge, action, message));
                    assert(self.weeks_view() =~= old(self).weeks_view().push(rv));
                }
                Ok(())
            },
            Some(i) => {
                let already = match challenge {
                    Challenge::Glyph => {
                        match action {
                            ActionKind::Announcement => self.weeks[i].glyph.announcement_message.is_some(),
                            ActionKind::Panel => self.weeks[i].glyph.panel_message.is_some(),
                            ActionKind::HallOfFame => self.weeks[i].glyph.hall_of_fame_message.is_some(),
                        }
                    },
                    Challenge::Ambigram => {
                        match action {
                            ActionKind::Announcement => self.weeks[i].ambigram.announcement_message.is_some(),
                            ActionKind::Panel => self.weeks[i].ambigram.panel_message.is_some(),
                            ActionKind::HallOfFame => self.weeks[i].ambigram.hall_of_fame_message.is_some(),
                        }
                    },
                };
                if already {
                    return Err(Error::Conflict);
                }
                match challenge {
                    Challenge::Glyph => {
                        match action {
                            ActionKind::Announcement => self.weeks[i].glyph.announcement_message = Some(
                                message,
                            ),
                            ActionKind::Panel => self.weeks[i].glyph.panel_message = Some(message),
                            ActionKind::HallOfFame => self.weeks[i].glyph.hall_of_fame_message = Some(
                                message,
                            ),
                        }
                    },
                    Challenge::Ambigram => {
                        match action {
                            ActionKind::Announcement => self.weeks[i].ambigram.announcement_message = Some(
                                message,
                            ),
                            ActionKind::Panel => self.weeks[i].ambigram.panel_message = Some(message),
                            ActionKind::HallOfFame => self.weeks[i].ambigram.hall_of_fame_message = Some(
                                message,
                            ),
                        }
                    },
                }
                proof {
                    assert(self.weeks_view() =~= old(self).weeks_view().update(
                        i as int,
                        with_message(old(self).weeks_view()[i as int], challenge, action, message),
                    ));
                }
                Ok(())
            },
        }
    }

    /// The stats of a week: the given week, or the current week when none
    /// is given.  Fails with `NotFound` when the week cannot be resolved
    /// or has no record.
    pub fn weekinfo(&self, week: Option<i64>) -> (r: Result<WeekInfo, Error>)
        requires
            self.wf(),
        ensures
            resolve_week(week, self.current_week_view()) is None ==> r == Err::<WeekInfo, Error>(
                Error::NotFound,
            ),
            resolve_week(week, self.current_week_view()) matches Some(wk) ==> {
                &&& (forall|j: int|
                    0 <= j < self.weeks_view().len() ==> (#[trigger] self.weeks_view()[j]).week
                        != wk) ==> r == Err::<WeekInfo, Error>(Error::NotFound)
                &&& forall|i: int|
                    0 <= i < self.weeks_view().len() && (#[trigger] self.weeks_view()[i]).week == wk
                        ==> (r matches Ok(info) && info.week == wk && info.glyph_challenge_kind
                        == self.weeks_view()[i].glyph.kind && info.ambigram_challenge_kind
                        == self.weeks_view()[i].ambigram.kind && info.glyph_prompt.deep_view()
                        == self.weeks_view()[i].glyph.prompt && info.ambigram_prompt.deep_view()
                        == self.weeks_view()[i].ambigram.prompt)
            },
    {
        let wk = match week {
            Some(w) => w,
            None => {
                match self.current {
                    Some(w) => w,
                    None => {
                        return Err(Error::NotFound);
                    },
                }
            },
        };
        match self.find_week(wk) {
            None => Err(Error::NotFound),
            Some(i) => {
                let row = &self.weeks[i];
                Ok(
                    WeekInfo {
                        week: row.week,
                        glyph_challenge_kind: row.glyph.kind,
                        ambigram_challenge_kind: row.ambigram.kind,
                        glyph_prompt: match &row.glyph.prompt {
                            Some(p) => Some(p.clone()),
                            None => None,
                        },
                        ambigram_prompt: match &row.ambigram.prompt {
                            Some(p) => Some(p.clone()),
                            None => None,
                        },
                    },
                )
            },
        }
    }

    /// The kind recorded for a week and challenge, defaulting to Regular
    /// for weeks before week zero and weeks with no recorded kind.
    pub fn week_kind(&self, week: i64, challenge: Challenge) -> (r: Week)
        requires
            self.wf(),
        ensures
            r == week_kind_or_default(self.weeks_view(), week, challenge),
    {
        if week < 0 {
            return Week::Regular;
        }
        match self.find_week(week) {
            None => Week::Regular,
            Some(i) => {
                proof {
                    let ws = self.weeks_view();
                    let ci = choose|j: int| 0 <= j < ws.len() && (#[trigger] ws[j]).week == week;
                    assert(ws[i as int].week == week);
                    assert(0 <= ci < ws.len() && ws[ci].week == week);
                    assert(ci == i as int);
                }
                let kind = match challenge {
                    Challenge::Glyph => self.weeks[i].glyph.kind,
                    Challenge::Ambigram => self.weeks[i].ambigram.kind,
                };
                match kind {
                    Some(k) => k,
                    None => Week::Regular,
                }
            },
        }
    }

    /// The rollout actions due at the start of the current week, from the
    /// recorded kinds of the current week and the two before it.  Fails
    /// only while the current week is uninitialized.
    pub fn actions_due(&self, challenge: Challenge) -> (r: Result<Actions, Error>)
        requires
            self.wf(),
        ensures
            self.current_week_view() is None ==> r == Err::<Actions, Error>(Error::NotFound),
            self.current_week_view() matches Some(w) ==> r == Ok::<Actions, Error>(
                classify_spec(
                    week_kind_or_default(self.weeks_view(), (w - 2) as i64, challenge),
                    week_kind_or_default(self.weeks_view(), (w - 1) as i64, challenge),
                    week_kind_or_default(self.weeks_view(), w, challenge),
                ),
            ),
    {
        let w = match self.current {
            Some(w) => w,
            None => {
                return Err(Error::NotFound);
            },
        };
        let two_ago = self.week_kind(w - 2, challenge);
        let previous = self.week_kind(w - 1, challenge);
        let current = self.week_kind(w, challenge);
        Ok(classify(two_ago, previous, current))
    }
}

} // verus!
