//! The mutable store holding the current image map, with change detection:
//! a swap happens only when the text's fingerprint differs and the text
//! parses; malformed or unchanged content leaves the store untouched.
//! A refresh tick is the same discipline driven by a fetched result.

use vstd::prelude::*;
use crate::fingerprint::{hash_content, spec_fingerprint};
use crate::imagemap::{json_string_map, ImageMap};

verus! {

/// The abstract state of a store: the entries of the current map and the
/// fingerprint of the text it came from.
pub struct StoreModel {
    pub entries: Seq<(Seq<char>, Seq<char>)>,
    pub fingerprint: u64,
}

/// What one swap attempt with `text` does to a model: whether it replaces,
/// and the model afterwards.
pub open spec fn swap_outcome(pre: StoreModel, text: Seq<char>) -> (bool, StoreModel) {
    if spec_fingerprint(text) == pre.fingerprint {
        (false, pre)
    } else {
        match json_string_map(text) {
            Some(entries) => (true, StoreModel { entries, fingerprint: spec_fingerprint(text) }),
            None => (false, pre),
        }
    }
}

/// Holds exactly one current `ImageMap`; readers borrow it, the poller
/// replaces it atomically through `swap_if_changed`.
pub struct ImageMapStore {
    current: ImageMap,
}

impl ImageMapStore {
    pub closed spec fn wf(self) -> bool {
        self.current.wf()
    }

    /// The store's abstract state.
    pub closed spec fn model(self) -> StoreModel {
        StoreModel { entries: self.current.entries(), fingerprint: self.current.fingerprint }
    }

    /// Starts the store on an initial map, typically the startup mapping.
    pub fn new(initial: ImageMap) -> (s: Self)
        requires
            initial.wf(),
        ensures
            s.wf(),
            s.model() == (StoreModel {
                entries: initial.entries(),
                fingerprint: initial.fingerprint,
            }),
    {
        ImageMapStore { current: initial }
    }

    /// A read snapshot of the current map. The borrow is immutable: a later
    /// swap builds a brand-new map, it never mutates this one.
    pub fn current(&self) -> (m: &ImageMap)
        ensures
            m.entries() == self.model().entries,
            m.fingerprint == self.model().fingerprint,
            self.wf() ==> m.wf(),
    {
        &self.current
    }

    /// Replaces the current map exactly when `text` fingerprints differently
    /// from the stored map and parses as a mapping; returns whether it did.
    /// On a fingerprint match no parse is attempted; on a parse failure the
    /// previous map stays authoritative.
    pub fn swap_if_changed(&mut self, text: &str) -> (replaced: bool)
        requires
            old(self).wf(),
        ensures
            final(self).wf(),
            (replaced, final(self).model()) == swap_outcome(old(self).model(), text@),
    {
        let fp = hash_content(text);
        if fp == self.current.fingerprint {
            return false;
        }
        match ImageMap::parse(text) {
            Ok(m) => {
                self.current = m;
                true
            },
            Err(_) => false,
        }
    }
}

/// Law: feeding the same text twice never replaces twice; the second attempt
/// returns false and leaves the state exactly as the first left it.
pub proof fn lemma_swap_same_text_twice(pre: StoreModel, text: Seq<char>)
    ensures
        ({
            let (r1, mid) = swap_outcome(pre, text);
            let (r2, post) = swap_outcome(mid, text);
            !r2 && post == mid
        }),
{
}

/// Law: malformed text never alters a store, whatever state it is in.
pub proof fn lemma_swap_malformed_keeps_state(pre: StoreModel, text: Seq<char>)
    requires
        json_string_map(text) is None,
    ensures
        swap_outcome(pre, text) == (false, pre),
{
}

/// Fetch failure reported by the refresh collaborator: the source was
/// unreachable or answered without usable text.
#[derive(Debug)]
pub struct FetchError;

/// What one refresh tick observed.
#[derive(Clone, Copy, Debug, PartialEq, Eq, Structural)]
pub enum PollOutcome {
    /// A changed, well-formed mapping arrived and was swapped in.
    Replaced,
    /// The fetched text fingerprints like the current map; nothing done.
    Unchanged,
    /// The fetch itself failed; the store is untouched, retry next tick.
    FetchFailed,
    /// The fetched text changed but does not parse; the previous map stays
    /// authoritative.
    ParseRejected,
}

/// One tick of the refresh loop, applied to what the fetch collaborator
/// handed back. The store changes only when a changed, well-formed text
/// arrived, and the outcome says exactly which case happened.
pub fn poll_step(store: &mut ImageMapStore, fetched: Result<String, FetchError>) -> (o:
    PollOutcome)
    requires
        old(store).wf(),
    ensures
        final(store).wf(),
        match o {
            PollOutcome::FetchFailed => fetched is Err && final(store).model() == old(
                store,
            ).model(),
            PollOutcome::Unchanged => fetched matches Ok(t) && spec_fingerprint(t@) == old(
                store,
            ).model().fingerprint && final(store).model() == old(store).model(),
            PollOutcome::ParseRejected => fetched matches Ok(t) && spec_fingerprint(t@) != old(
                store,
            ).model().fingerprint && json_string_map(t@) is None && final(store).model() == old(
                store,
            ).model(),
            PollOutcome::Replaced => fetched matches Ok(t) && swap_outcome(
                old(store).model(),
                t@,
            ) == (true, final(store).model()),
        },
{
    match fetched {
        Err(_) => PollOutcome::FetchFailed,
        Ok(text) => {
            let fp = hash_content(text.as_str());
            if fp == store.current().fingerprint {
                return PollOutcome::Unchanged;
            }
            let replaced = store.swap_if_changed(text.as_str());
            if replaced {
                PollOutcome::Replaced
            } else {
                PollOutcome::ParseRejected
            }
        },
    }
}

} // verus!
