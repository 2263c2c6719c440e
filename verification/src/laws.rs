//! The laws of the core, stated and proved over the mathematical models
//! that the store operations promise in their contracts: the singleton
//! behaviour of the current week, the round trip and scoping of the
//! submission ledger, and the order and idempotence of the prompt queue.

use vstd::prelude::*;
use crate::defs::Challenge;
use crate::store::{
    fresh_sub, has_prompt, has_sub, init_week_transition, is_sub_key, lemma_list_prompts_push,
    lemma_remove_prompt_complete, list_prompts, prompts_wf, remove_prompt, PromptView,
    SubmissionView,
};

verus! {

/// Initializing the current-week singleton twice never yields a second
/// row: once an initialization has succeeded, every further attempt is
/// rejected as a conflict and leaves the singleton exactly as it was.
pub proof fn lemma_current_week_singleton(current: Option<i64>, w1: i64, w2: i64)
    ensures
        ({
            let (after_first, r1) = init_week_transition(current, w1);
            let (after_second, r2) = init_week_transition(after_first, w2);
            &&& r1 is Ok ==> after_second == after_first && r2 is Err
            &&& r1 is Ok && w2 >= 0 ==> r2 == Err::<(), crate::defs::Error>(
                crate::defs::Error::Conflict,
            )
        }),
{
}

/// The ledger round trip: adding a submission that is not yet present
/// and then removing its key leaves the ledger exactly as it was, with
/// no entry under that key; a further removal finds nothing to remove.
pub proof fn lemma_ledger_round_trip(
    subs: Seq<SubmissionView>,
    message: u64,
    week: i64,
    challenge: Challenge,
    author: u64,
    link: Seq<char>,
    time: i64,
)
    requires
        !has_sub(subs, message, week, challenge),
    ensures
        ({
            let added = subs.push(fresh_sub(message, week, challenge, author, link, time));
            &&& has_sub(added, message, week, challenge)
            &&& forall|i: int|
                0 <= i < added.len() && is_sub_key(#[trigger] added[i], message, week, challenge)
                    ==> added.remove(i) =~= subs
        }),
{
    let x = fresh_sub(message, week, challenge, author, link, time);
    let added = subs.push(x);
    assert(is_sub_key(added[subs.len() as int], message, week, challenge));
    assert forall|i: int|
        0 <= i < added.len() && is_sub_key(#[trigger] added[i], message, week, challenge) implies added.remove(
        i,
    ) =~= subs by {
        if i < subs.len() {
            assert(added[i] == subs[i]);
            assert(has_sub(subs, message, week, challenge));
        }
        assert(i == subs.len() as int);
        assert(added.remove(i) =~= subs);
    }
}

/// Ledger scoping: a submission recorded in another week keeps its place
/// under an add for the current week, and cannot be hit by a removal
/// scoped to the current week.
pub proof fn lemma_ledger_scoped(
    subs: Seq<SubmissionView>,
    current: i64,
    x: SubmissionView,
    k: int,
)
    requires
        0 <= k < subs.len(),
        subs[k].week != current,
        x.week == current,
    ensures
        subs.push(x)[k] == subs[k],
        forall|i: int|
            0 <= i < subs.len() && (#[trigger] subs[i]).week == current ==> subs.remove(i).contains(
                subs[k],
            ),
{
    assert forall|i: int|
        0 <= i < subs.len() && (#[trigger] subs[i]).week == current implies subs.remove(i).contains(
        subs[k],
    ) by {
        if k < i {
            assert(subs.remove(i)[k] == subs[k]);
        } else {
            assert(subs.remove(i)[k - 1] == subs[k]);
        }
    }
}

/// Queue order: enqueueing two prompts for a challenge appends their
/// pairs, in that order, to the listing of that challenge.
pub proof fn lemma_queue_fifo(
    prompts: Seq<PromptView>,
    next: i64,
    challenge: Challenge,
    a: Seq<char>,
    b: Seq<char>,
)
    requires
        prompts_wf(prompts, next),
        next + 1 < i64::MAX,
    ensures
        ({
            let first = PromptView { id: next, challenge, prompt: a };
            let second = PromptView { id: (next + 1) as i64, challenge, prompt: b };
            list_prompts(prompts.push(first).push(second), challenge) =~= list_prompts(
                prompts,
                challenge,
            ) + seq![(next, a), ((next + 1) as i64, b)]
        }),
{
    let first = PromptView { id: next, challenge, prompt: a };
    let second = PromptView { id: (next + 1) as i64, challenge, prompt: b };
    lemma_list_prompts_push(prompts, challenge, first);
    lemma_list_prompts_push(prompts.push(first), challenge, second);
}

/// Queue deletion is observably idempotent: deleting an identity that is
/// present removes it entirely, so a second deletion of the same
/// identity finds nothing and changes nothing.
pub proof fn lemma_queue_delete_idempotent(prompts: Seq<PromptView>, id: i64)
    requires
        has_prompt(prompts, id),
    ensures
        !has_prompt(remove_prompt(prompts, id), id),
        remove_prompt(remove_prompt(prompts, id), id) =~= remove_prompt(prompts, id),
{
    lemma_remove_prompt_complete(prompts, id);
}

} // verus!

