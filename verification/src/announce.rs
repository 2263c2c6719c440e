//! The announcement workflow: a prompt is requested (ad hoc or from the
//! queue), an external generator renders the image, and commitment of
//! that image is gated behind a staleness-checked confirmation.
//!
//! The generator and the file system stay outside the core: the caller
//! hands in the image's last-modified marker as a plain value, both when
//! the token is issued and when confirmation is attempted.

use vstd::prelude::*;
use crate::defs::{Challenge, Error, InteractionID};
use crate::store::{fresh_week, has_prompt, remove_prompt, with_prompt, Store};
use crate::token::{token_wf, AnnouncementToken};

verus! {

/// Where the prompt of an announcement attempt comes from: supplied ad
/// hoc, or pulled from the queue by identity.
pub enum PromptSource {
    AdHoc(String),
    Queued(i64),
}

/// A requested announcement, waiting for generation and confirmation.
/// For an ad-hoc prompt the prompt is already persisted for the target
/// week; a queued prompt is left in place until the caller commits or
/// cancels, since queue removal is distinct from announcement
/// commitment.
#[derive(Debug)]
pub struct PendingAnnouncement {
    pub challenge: Challenge,
    pub prompt: String,
    pub queue_id: Option<i64>,
}

/// The terminal outcome of a confirmation attempt.
#[derive(Copy, Clone, Debug, PartialEq, Eq, Structural)]
pub enum ConfirmOutcome {
    Confirmed,
    Stale,
}

impl Store {
    /// Request an announcement for a challenge.  An ad-hoc prompt is
    /// persisted for the current week at once; a queued prompt must
    /// exist and belong to the challenge, and stays in the queue.
    pub fn prepare_announcement(&mut self, challenge: Challenge, source: PromptSource) -> (r:
        Result<PendingAnnouncement, Error>)
        requires
            old(self).wf(),
        ensures
            final(self).wf(),
            final(self).current_week_view() == old(self).current_week_view(),
            final(self).subs() == old(self).subs(),
            final(self).prompts_view() == old(self).prompts_view(),
            final(self).next_prompt_view() == old(self).next_prompt_view(),
            final(self).users_view() == old(self).users_view(),
            source matches PromptSource::AdHoc(p) ==> {
                &&& old(self).current_week_view() is None ==> r == Err::<PendingAnnouncement, Error>(
                    Error::NotFound,
                ) && final(self).weeks_view() == old(self).weeks_view()
                &&& old(self).current_week_view() matches Some(w) ==> {
                    &&& (r matches Ok(pending) && pending.challenge == challenge && pending.prompt@
                        == p@ && pending.queue_id is None)
                    &&& (forall|j: int|
                        0 <= j < old(self).weeks_view().len() ==> (#[trigger] old(
                            self,
                        ).weeks_view()[j]).week != w) ==> final(self).weeks_view() =~= old(
                        self,
                    ).weeks_view().push(with_prompt(fresh_week(w), challenge, p@))
                    &&& forall|i: int|
                        0 <= i < old(self).weeks_view().len() && (#[trigger] old(
                            self,
                        ).weeks_view()[i]).week == w ==> final(self).weeks_view() =~= old(
                            self,
                        ).weeks_view().update(i, with_prompt(old(self).weeks_view()[i], challenge, p@))
                }
            },
            source matches PromptSource::Queued(id) ==> {
                &&& final(self).weeks_view() == old(self).weeks_view()
                &&& !has_prompt(old(self).prompts_view(), id) ==> r == Err::<
                    PendingAnnouncement,
                    Error,
                >(Error::NotFound)
                &&& forall|i: int|
                    0 <= i < old(self).prompts_view().len() && (#[trigger] old(
                        self,
                    ).prompts_view()[i]).id == id ==> {
                        &&& old(self).prompts_view()[i].challenge != challenge ==> r == Err::<
                            PendingAnnouncement,
                            Error,
                        >(Error::Validation)
                        &&& old(self).prompts_view()[i].challenge == challenge ==> (r matches Ok(
                            pending,
                        ) && pending.challenge == challenge && pending.prompt@ == old(
                            self,
                        ).prompts_view()[i].prompt && pending.queue_id == Some(id) && id >= 1)
                    }
            },
    {
        proof {
            self.lemma_wf_facts();
        }
        match source {
            PromptSource::AdHoc(p) => {
                let week = match self.current_week() {
                    Ok(w) => w,
                    Err(e) => {
                        return Err(e);
                    },
                };
                match self.set_week_prompt(week, challenge, p.as_str()) {
                    Ok(()) => {},
                    Err(e) => {
                        return Err(e);
                    },
                }
                Ok(PendingAnnouncement { challenge, prompt: p, queue_id: None })
            },
            PromptSource::Queued(id) => {
                match self.get_prompt(id) {
                    Err(e) => Err(e),
                    Ok((entry_challenge, prompt)) => {
                        if entry_challenge != challenge {
                            Err(Error::Validation)
                        } else {
                            Ok(PendingAnnouncement { challenge, prompt, queue_id: Some(id) })
                        }
                    },
                }
            },
        }
    }

    /// Cancel an announcement attempt: the originating queue entry, if
    /// any, is removed by identity.  The result says whether an entry
    /// was actually removed; generated but uncommitted files are left
    /// for the next generation to overwrite.
    pub fn cancel_announcement(&mut self, token: &AnnouncementToken) -> (r: Result<bool, Error>)
        requires
            old(self).wf(),
        ensures
            final(self).wf(),
            final(self).current_week_view() == old(self).current_week_view(),
            final(self).subs() == old(self).subs(),
            final(self).users_view() == old(self).users_view(),
            final(self).weeks_view() == old(self).weeks_view(),
            final(self).next_prompt_view() == old(self).next_prompt_view(),
            token.queue_id is None ==> r == Ok::<bool, Error>(false) && final(self).prompts_view()
                == old(self).prompts_view(),
            token.queue_id matches Some(id) ==> r == Ok::<bool, Error>(
                has_prompt(old(self).prompts_view(), id),
            ) && final(self).prompts_view() =~= remove_prompt(old(self).prompts_view(), id),
    {
        match token.queue_id {
            None => Ok(false),
            Some(id) => self.delete_prompt(id),
        }
    }
}

/// Build the confirmation token for a generated image: the challenge of
/// the pending announcement, the image's last-modified marker, and the
/// originating queue entry, if any.
pub fn make_token(pending: &PendingAnnouncement, marker: u64) -> (r: AnnouncementToken)
    requires
        pending.queue_id matches Some(id) ==> id >= 0,
    ensures
        r.action is ConfirmAnnouncement,
        r.challenge == pending.challenge,
        r.marker == marker,
        r.queue_id == pending.queue_id,
        token_wf(r),
{
    AnnouncementToken {
        action: InteractionID::ConfirmAnnouncement,
        challenge: pending.challenge,
        marker,
        queue_id: pending.queue_id,
    }
}

/// The staleness gate of the confirm transition: the token's freshness
/// marker must equal the current last-modified marker of the image at
/// confirmation time.  If the image was regenerated after the token was
/// issued, the transition fails closed with `Stale` and nothing may be
/// committed; the caller must regenerate and re-request confirmation.
pub fn confirm_announcement(token: &AnnouncementToken, current_marker: u64) -> (r: ConfirmOutcome)
    ensures
        r is Confirmed <==> token.marker == current_marker,
        r is Stale <==> token.marker != current_marker,
{
    if token.marker == current_marker {
        ConfirmOutcome::Confirmed
    } else {
        ConfirmOutcome::Stale
    }
}

} // verus!
