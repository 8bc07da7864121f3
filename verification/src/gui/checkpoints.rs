//! State of the Cache Checkpoint view: which checkpoint is being renamed,
//! and the change counts computed for each checkpoint, recomputed only when
//! the cache state or the list of checkpoints changed.

use vstd::prelude::*;

use crate::logic::checkpoints::{
    diff_checkpoint, first_with_id, get_current_cache, is_diff, lemma_first_with_id_unique,
    CheckpointDiff, CheckpointState,
};
use crate::logic::duplicate_list;
use crate::logic::checkpoints::duplicate_entries;

verus! {

pub struct CheckpointUi {
    /// Whether the full-cache refresh has been requested on first entry.
    pub entered: bool,
    /// Generation the cached diffs were computed for.
    pub last_generation: u64,
    /// Checkpoint ids the cached diffs were computed for.
    pub last_ids: Vec<String>,
    /// Cached diff results per checkpoint id.
    pub cached_diffs: Vec<(String, CheckpointDiff)>,
    /// Checkpoint currently being renamed.
    pub renaming: Option<String>,
    pub rename_text: String,
}

impl CheckpointUi {
    /// A view that has not been entered yet and has computed nothing.
    pub fn new() -> (r: CheckpointUi)
        ensures
            !r.entered,
            r.last_generation == u64::MAX,
            r.last_ids@.len() == 0,
            r.cached_diffs@.len() == 0,
            r.renaming is None,
            r.rename_text@.len() == 0,
    {
        CheckpointUi {
            entered: false,
            last_generation: u64::MAX,
            last_ids: Vec::new(),
            cached_diffs: Vec::new(),
            renaming: None,
            rename_text: String::new(),
        }
    }
}

/// The ids of the stored checkpoints differ from `ids`.
pub open spec fn ids_differ(state: CheckpointState, ids: Seq<String>) -> bool {
    ids.len() != state.checkpoints@.len() || exists|i: int|
        0 <= i < ids.len() && (#[trigger] ids[i])@ != state.checkpoints@[i].id@
}

/// The cached diffs are those of every stored checkpoint against the
/// current cache state, with the ids they were computed for.
pub open spec fn cache_is_fresh(
    ids: Seq<String>,
    diffs: Seq<(String, CheckpointDiff)>,
    state: CheckpointState,
) -> bool {
    &&& ids.len() == state.checkpoints@.len()
    &&& diffs.len() == state.checkpoints@.len()
    &&& forall|i: int|
        0 <= i < diffs.len() ==> (#[trigger] diffs[i]).0@ == state.checkpoints@[i].id@ && ids[i]@
            == state.checkpoints@[i].id@ && is_diff(
            diffs[i].1,
            state.checkpoints@[i].entries@,
            state.current_cache@,
        )
}

/// `i` is the first cached diff for the id.
pub open spec fn first_cached(diffs: Seq<(String, CheckpointDiff)>, id: Seq<char>, i: int) -> bool {
    &&& 0 <= i < diffs.len()
    &&& diffs[i].0@ == id
    &&& forall|j: int| 0 <= j < i ==> (#[trigger] diffs[j]).0@ != id
}

/// Two diffs list the same records.
pub open spec fn same_diff(a: CheckpointDiff, b: CheckpointDiff) -> bool {
    a.added@ == b.added@ && a.modified@ == b.modified@ && a.removed@ == b.removed@
}

/// The diff shown for `id`: that of the first checkpoint with the id
/// against the current cache state, or an empty one when there is none.
pub open spec fn is_shown_diff(r: CheckpointDiff, state: CheckpointState, id: Seq<char>) -> bool {
    if exists|i: int| first_with_id(state.checkpoints@, id, i) {
        is_diff(
            r,
            state.checkpoints@[choose|i: int| first_with_id(state.checkpoints@, id, i)].entries@,
            state.current_cache@,
        )
    } else {
        r.added@.len() == 0 && r.modified@.len() == 0 && r.removed@.len() == 0
    }
}

/// Whenever the view takes its cached diffs to be current for `state` (same
/// generation, same checkpoint ids), they are the diffs of `state`.
pub open spec fn view_consistent(ui: CheckpointUi, state: CheckpointState) -> bool {
    ui.last_generation == state.current_generation && !ids_differ(state, ui.last_ids@)
        ==> cache_is_fresh(ui.last_ids@, ui.cached_diffs@, state)
}

/// A view that has computed nothing yet (as `CheckpointUi::new` makes it)
/// is consistent with every state.
pub proof fn lemma_empty_view_consistent(ui: CheckpointUi, state: CheckpointState)
    requires
        ui.last_ids@.len() == 0,
        ui.cached_diffs@.len() == 0,
    ensures
        view_consistent(ui, state),
{
}

proof fn lemma_fresh_find(
    diffs: Seq<(String, CheckpointDiff)>,
    ids: Seq<String>,
    state: CheckpointState,
    id: Seq<char>,
)
    requires
        cache_is_fresh(ids, diffs, state),
    ensures
        forall|i: int| first_cached(diffs, id, i) <==> first_with_id(state.checkpoints@, id, i),
{
    assert forall|i: int| first_cached(diffs, id, i) <==> first_with_id(state.checkpoints@, id, i) by {
        if first_cached(diffs, id, i) {
            assert forall|j: int| 0 <= j < i implies (#[trigger] state.checkpoints@[j]).id@ != id by {
                assert(diffs[j].0@ != id);
            }
        }
        if first_with_id(state.checkpoints@, id, i) {
            assert forall|j: int| 0 <= j < i implies (#[trigger] diffs[j]).0@ != id by {
                assert(state.checkpoints@[j].id@ != id);
            }
        }
    }
}

fn duplicate_diff(diff: &CheckpointDiff) -> (r: CheckpointDiff)
    ensures
        same_diff(r, *diff),
{
    CheckpointDiff {
        added: duplicate_list(&diff.added),
        modified: duplicate_list(&diff.modified),
        removed: duplicate_entries(&diff.removed),
    }
}

fn ids_changed(state: &CheckpointState, ids: &Vec<String>) -> (r: bool)
    ensures
        r == ids_differ(*state, ids@),
{
    if ids.len() != state.checkpoints.len() {
        return true;
    }
    let mut i: usize = 0;
    while i < ids.len()
        invariant
            ids@.len() == state.checkpoints@.len(),
            i <= ids@.len(),
            forall|j: int| 0 <= j < i ==> (#[trigger] ids@[j])@ == state.checkpoints@[j].id@,
        decreases ids@.len() - i,
    {
        if ids[i] != state.checkpoints[i].id {
            return true;
        }
        i = i + 1;
    }
    false
}

fn compute_diffs(state: &CheckpointState) -> (r: (Vec<String>, Vec<(String, CheckpointDiff)>))
    ensures
        cache_is_fresh(r.0@, r.1@, *state),
{
    let current = get_current_cache(state);
    let mut ids: Vec<String> = Vec::new();
    let mut diffs: Vec<(String, CheckpointDiff)> = Vec::new();
    let n = state.checkpoints.len();
    let mut i: usize = 0;
    while i < n
        invariant
            n == state.checkpoints@.len(),
            current@ == state.current_cache@,
            i <= n,
            ids@.len() == i,
            diffs@.len() == i,
            forall|k: int|
                0 <= k < i ==> (#[trigger] diffs@[k]).0@ == state.checkpoints@[k].id@ && ids@[k]@
                    == state.checkpoints@[k].id@ && is_diff(
                    diffs@[k].1,
                    state.checkpoints@[k].entries@,
                    state.current_cache@,
                ),
        decreases n - i,
    {
        let checkpoint = &state.checkpoints[i];
        let diff = diff_checkpoint(checkpoint, &current);
        ids.push(checkpoint.id.clone());
        diffs.push((checkpoint.id.clone(), diff));
        i = i + 1;
    }
    (ids, diffs)
}

fn find_cached(diffs: &Vec<(String, CheckpointDiff)>, id: &str) -> (r: Option<usize>)
    ensures
        r matches Some(i) ==> first_cached(diffs@, id@, i as int),
        r is None ==> !(exists|i: int| first_cached(diffs@, id@, i)),
{
    let mut i: usize = 0;
    while i < diffs.len()
        invariant
            i <= diffs@.len(),
            forall|j: int| 0 <= j < i ==> (#[trigger] diffs@[j]).0@ != id@,
        decreases diffs@.len() - i,
    {
        if crate::text::equal_str(diffs[i].0.as_str(), id) {
            return Some(i);
        }
        i = i + 1;
    }
    assert forall|k: int| !first_cached(diffs@, id@, k) by {
        if 0 <= k < diffs@.len() {
            assert(diffs@[k].0@ != id@);
        }
    }
    None
}

impl CheckpointUi {
    /// The diff of the checkpoint `id` against the current cache state
    /// (empty when there is no such checkpoint). The cached diffs are
    /// recomputed first when a refresh finished or the checkpoint list
    /// changed since they were computed.
    pub fn diff_for(&mut self, state: &CheckpointState, id: &str) -> (r: CheckpointDiff)
        ensures
            final(self).entered == old(self).entered,
            final(self).renaming == old(self).renaming,
            final(self).rename_text == old(self).rename_text,
            (state.current_generation != old(self).last_generation || ids_differ(
                *state,
                old(self).last_ids@,
            )) ==> final(self).last_generation == state.current_generation && cache_is_fresh(
                final(self).last_ids@,
                final(self).cached_diffs@,
                *state,
            ),
            !(state.current_generation != old(self).last_generation || ids_differ(
                *state,
                old(self).last_ids@,
            )) ==> final(self).last_generation == old(self).last_generation
                && final(self).last_ids == old(self).last_ids && final(self).cached_diffs
                == old(self).cached_diffs,
            (exists|i: int| first_cached(final(self).cached_diffs@, id@, i)) ==> exists|i: int|
                first_cached(final(self).cached_diffs@, id@, i) && #[trigger] same_diff(
                    r,
                    final(self).cached_diffs@[i].1,
                ),
            !(exists|i: int| first_cached(final(self).cached_diffs@, id@, i)) ==> r.added@.len()
                == 0 && r.modified@.len() == 0 && r.removed@.len() == 0,
            view_consistent(*old(self), *state) ==> view_consistent(*final(self), *state)
                && is_shown_diff(r, *state, id@),
    {
        let ghost before = *self;
        let generation = state.current_generation;
        if generation != self.last_generation || ids_changed(state, &self.last_ids) {
            let (ids, diffs) = compute_diffs(state);
            self.last_generation = generation;
            self.last_ids = ids;
            self.cached_diffs = diffs;
        }
        assert(view_consistent(before, *state) ==> cache_is_fresh(
            self.last_ids@,
            self.cached_diffs@,
            *state,
        ));
        let ghost fresh = cache_is_fresh(self.last_ids@, self.cached_diffs@, *state);
        proof {
            if fresh {
                lemma_fresh_find(self.cached_diffs@, self.last_ids@, *state, id@);
            }
        }
        match find_cached(&self.cached_diffs, id) {
            Some(i) => {
                let r = duplicate_diff(&self.cached_diffs[i].1);
                proof {
                    if fresh {
                        assert(first_with_id(state.checkpoints@, id@, i as int));
                        let k = choose|k: int| first_with_id(state.checkpoints@, id@, k);
                        lemma_first_with_id_unique(state.checkpoints@, id@, i as int, k);
                        assert(is_diff(
                            self.cached_diffs@[i as int].1,
                            state.checkpoints@[i as int].entries@,
                            state.current_cache@,
                        ));
                        assert(is_diff(r, state.checkpoints@[k].entries@, state.current_cache@));
                        assert(is_shown_diff(r, *state, id@));
                    }
                }
                r
            },
            None => {
                proof {
                    if fresh {
                        assert forall|k: int| !first_with_id(state.checkpoints@, id@, k) by {
                            if first_with_id(state.checkpoints@, id@, k) {
                                assert(first_cached(self.cached_diffs@, id@, k));
                            }
                        }
                    }
                }
                CheckpointDiff::default()
            },
        }
    }
}

} // verus!
