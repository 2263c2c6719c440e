//! Core engine for a recurring weekly community art competition.
//!
//! Each week a prompt is announced for two parallel challenge tracks and
//! submissions are collected.  This crate holds the stateful core: the
//! week-kind rotation classifier, the submission ledger, the prompt queue,
//! the announcement confirmation workflow with its staleness gate, and
//! profile aggregation.  Chat transport, image generation and process
//! bootstrap are collaborators that live outside this crate; they hand the
//! core plain values and take plain values back.

pub mod announce;
pub mod defs;
pub mod laws;
pub mod rotation;
pub mod store;
pub mod text;
pub mod token;

use vstd::prelude::*;
use crate::store::{PromptView, Store, SubmissionView, UserRowView, WeekRowView};

verus! {

/// The application context: the shared state of the bot, constructed
/// once at startup and passed by reference into every handler, in place
/// of process-wide singletons.
pub struct Data {
    pub store: Store,
}

impl Data {
    /// A fresh context around an empty store.
    pub fn new() -> (r: Data)
        ensures
            r.store.wf(),
            r.store.current_week_view() is None,
            r.store.subs() =~= Seq::<SubmissionView>::empty(),
            r.store.prompts_view() =~= Seq::<PromptView>::empty(),
            r.store.users_view() =~= Seq::<UserRowView>::empty(),
            r.store.weeks_view() =~= Seq::<WeekRowView>::empty(),
    {
        Data { store: Store::new() }
    }
}

} // verus!
