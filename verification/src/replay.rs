//! Log replay: the pure reduction of a sequence of actions, newest first,
//! into the set of live data-file paths. A path is live iff some add for it
//! is seen before any remove for it in the scan; metadata actions are
//! ignored.

use vstd::prelude::*;
use crate::actions::{Action, ActionView};

verus! {

/// The views of a sequence of actions.
pub open spec fn acts_view(v: Seq<Action>) -> Seq<ActionView> {
    v.map_values(|a: Action| a@)
}

/// The views of a sequence of path strings.
pub open spec fn paths_of(v: Seq<String>) -> Seq<Seq<char>> {
    v.map_values(|s: String| s@)
}

/// Whether some action among the first `k` removes `p`.
pub open spec fn removed_in(acts: Seq<ActionView>, p: Seq<char>, k: int) -> bool {
    exists|j: int|
        0 <= j < k && ((#[trigger] acts[j]) matches ActionView::Remove { path, .. } && path == p)
}

/// Whether the first `k` actions make `p` live: some add for `p` stands at a
/// position before which no remove for `p` has been seen.
pub open spec fn live_in(acts: Seq<ActionView>, p: Seq<char>, k: int) -> bool {
    exists|i: int|
        0 <= i < k && ((#[trigger] acts[i]) matches ActionView::Add { path, .. } && path == p
            && !removed_in(acts, p, i))
}

/// Whether the whole scan makes `p` live.
pub open spec fn is_live(acts: Seq<ActionView>, p: Seq<char>) -> bool {
    live_in(acts, p, acts.len() as int)
}

/// No path occurs twice.
pub open spec fn paths_distinct(v: Seq<Seq<char>>) -> bool {
    forall|i: int, j: int| 0 <= i < j < v.len() ==> v[i] != v[j]
}

/// Whether `v` holds a string whose characters are `p`.
fn contains_string(v: &Vec<String>, p: &String) -> (r: bool)
    ensures
        r == paths_of(v@).contains(p@),
{
    let mut i: usize = 0;
    while i < v.len()
        invariant
            i <= v@.len(),
            forall|j: int| 0 <= j < i ==> paths_of(v@)[j] != p@,
        decreases v@.len() - i,
    {
        if v[i].eq(p) {
            proof {
                assert(paths_of(v@)[i as int] == p@);
            }
            return true;
        }
        i = i + 1;
    }
    proof {
        if paths_of(v@).contains(p@) {
            let j = choose|j: int| 0 <= j < paths_of(v@).len() && paths_of(v@)[j] == p@;
            assert(paths_of(v@)[j] == p@);
        }
    }
    false
}

/// Replays a scan, newest action first, into the deduplicated set of live
/// paths. The result holds exactly the live paths, each once, in the order
/// the scan first made them live.
pub fn replay(actions: &Vec<Action>) -> (r: Vec<String>)
    ensures
        forall|p: Seq<char>| #[trigger] paths_of(r@).contains(p) <==> is_live(acts_view(actions@), p),
        paths_distinct(paths_of(r@)),
{
    let ghost acts = acts_view(actions@);
    let mut removed: Vec<String> = Vec::new();
    let mut live: Vec<String> = Vec::new();
    let mut k: usize = 0;
    while k < actions.len()
        invariant
            k <= actions@.len(),
            acts == acts_view(actions@),
            forall|p: Seq<char>| #[trigger] paths_of(removed@).contains(p) <==> removed_in(
                acts,
                p,
                k as int,
            ),
            forall|p: Seq<char>| #[trigger] paths_of(live@).contains(p) <==> live_in(
                acts,
                p,
                k as int,
            ),
            paths_distinct(paths_of(live@)),
        decreases actions@.len() - k,
    {
        let ghost removed0 = removed@;
        let ghost live0 = live@;
        match &actions[k] {
            Action::Add { path, .. } => {
                proof {
                    assert((acts[k as int] matches ActionView::Add { path: q, .. } && q == path@));
                }
                if !contains_string(&removed, path) && !contains_string(&live, path) {
                    live.push(path.clone());
                    proof {
                        assert(paths_of(live@) =~= paths_of(live0).push(path@));
                    }
                }
                proof {
                    assert forall|p: Seq<char>| #[trigger] paths_of(live@).contains(p)
                        <==> live_in(acts, p, k + 1) by {
                        lemma_live_step_add(acts, p, k as int, path@);
                        if paths_of(live@).contains(p) {
                            let m = choose|m: int|
                                0 <= m < paths_of(live@).len() && paths_of(live@)[m] == p;
                            if m < paths_of(live0).len() {
                                assert(paths_of(live0)[m] == p);
                                assert(paths_of(live0).contains(p));
                            } else {
                                assert(p == path@);
                                assert(!paths_of(removed0).contains(p));
                                assert(!removed_in(acts, p, k as int));
                            }
                            assert(live_in(acts, p, k + 1));
                        }
                        if live_in(acts, p, k + 1) {
                            if live_in(acts, p, k as int) {
                                assert(paths_of(live0).contains(p));
                                let m = choose|m: int|
                                    0 <= m < paths_of(live0).len() && paths_of(live0)[m] == p;
                                assert(paths_of(live@)[m] == p);
                            } else {
                                assert(p == path@ && !removed_in(acts, p, k as int));
                                assert(!paths_of(removed0).contains(p));
                                if paths_of(live0).contains(p) {
                                    assert(live_in(acts, p, k as int));
                                    assert(false);
                                }
                                assert(paths_of(live@) == paths_of(live0).push(path@));
                                assert(paths_of(live@)[paths_of(live@).len() - 1] == p);
                            }
                            assert(paths_of(live@).contains(p));
                        }
                    }
                    assert forall|p: Seq<char>| #[trigger] paths_of(removed@).contains(p)
                        <==> removed_in(acts, p, k + 1) by {
                        if removed_in(acts, p, k + 1) && !removed_in(acts, p, k as int) {
                            let j = choose|j: int|
                                0 <= j < k + 1 && ((#[trigger] acts[j]) matches
                                    ActionView::Remove { path, .. } && path == p);
                            assert(acts[k as int] is Add);
                            assert(j < k);
                            assert(removed_in(acts, p, k as int));
                        }
                        if removed_in(acts, p, k as int) {
                            let j = choose|j: int|
                                0 <= j < k && ((#[trigger] acts[j]) matches
                                    ActionView::Remove { path, .. } && path == p);
                            assert(removed_in(acts, p, k + 1));
                        }
                    }
                }
            },
            Action::Remove { path, .. } => {
                proof {
                    assert((acts[k as int] matches ActionView::Remove { path: q, .. } && q
                        == path@));
                }
                if !contains_string(&removed, path) {
                    removed.push(path.clone());
                    proof {
                        assert(paths_of(removed@) =~= paths_of(removed0).push(path@));
                    }
                }
                proof {
                    assert forall|p: Seq<char>| #[trigger] paths_of(removed@).contains(p)
                        <==> removed_in(acts, p, k + 1) by {
                        if paths_of(removed@).contains(p) {
                            let m = choose|m: int|
                                0 <= m < paths_of(removed@).len() && paths_of(removed@)[m] == p;
                            if m < paths_of(removed0).len() {
                                assert(paths_of(removed0)[m] == p);
                                assert(paths_of(removed0).contains(p));
                                assert(removed_in(acts, p, k as int));
                                let j = choose|j: int|
                                    0 <= j < k && ((#[trigger] acts[j]) matches
                                        ActionView::Remove { path, .. } && path == p);
                                assert(removed_in(acts, p, k + 1));
                            } else {
                                assert(p == path@);
                                assert(removed_in(acts, p, k + 1));
                            }
                        }
                        if removed_in(acts, p, k + 1) {
                            let j = choose|j: int|
                                0 <= j < k + 1 && ((#[trigger] acts[j]) matches
                                    ActionView::Remove { path, .. } && path == p);
                            if j < k {
                                assert(removed_in(acts, p, k as int));
                                assert(paths_of(removed0).contains(p));
                                let m = choose|m: int|
                                    0 <= m < paths_of(removed0).len() && paths_of(removed0)[m]
                                        == p;
                                assert(paths_of(removed@)[m] == p);
                            } else {
                                assert(p == path@);
                                if !paths_of(removed0).contains(p) {
                                    assert(paths_of(removed@) == paths_of(removed0).push(path@));
                                    assert(paths_of(removed@)[paths_of(removed@).len() - 1] == p);
                                } else {
                                    let m = choose|m: int|
                                        0 <= m < paths_of(removed0).len() && paths_of(
                                            removed0,
                                        )[m] == p;
                                    assert(paths_of(removed@)[m] == p);
                                }
                            }
                            assert(paths_of(removed@).contains(p));
                        }
                    }
                    assert forall|p: Seq<char>| #[trigger] paths_of(live@).contains(p)
                        <==> live_in(acts, p, k + 1) by {
                        lemma_live_step_other(acts, p, k as int);
                    }
                }
            },
            Action::Metadata(_) => {
                proof {
                    assert(acts[k as int] is Metadata);
                    assert forall|p: Seq<char>| #[trigger] paths_of(live@).contains(p)
                        <==> live_in(acts, p, k + 1) by {
                        lemma_live_step_other(acts, p, k as int);
                    }
                    assert forall|p: Seq<char>| #[trigger] paths_of(removed@).contains(p)
                        <==> removed_in(acts, p, k + 1) by {
                        if removed_in(acts, p, k + 1) && !removed_in(acts, p, k as int) {
                            let j = choose|j: int|
                                0 <= j < k + 1 && ((#[trigger] acts[j]) matches
                                    ActionView::Remove { path, .. } && path == p);
                            assert(j < k);
                            assert(removed_in(acts, p, k as int));
                        }
                        if removed_in(acts, p, k as int) {
                            let j = choose|j: int|
                                0 <= j < k && ((#[trigger] acts[j]) matches
                                    ActionView::Remove { path, .. } && path == p);
                            assert(removed_in(acts, p, k + 1));
                        }
                    }
                }
            },
        }
        k = k + 1;
    }
    proof {
        assert(acts.len() == actions@.len());
    }
    live
}

/// How liveness extends over an add action at position `k`.
proof fn lemma_live_step_add(acts: Seq<ActionView>, p: Seq<char>, k: int, added: Seq<char>)
    requires
        0 <= k < acts.len(),
        (acts[k] matches ActionView::Add { path, .. } && path == added),
    ensures
        live_in(acts, p, k + 1) <==> live_in(acts, p, k) || (p == added && !removed_in(
            acts,
            p,
            k,
        )),
{
    if live_in(acts, p, k + 1) {
        let i = choose|i: int|
            0 <= i < k + 1 && ((#[trigger] acts[i]) matches ActionView::Add { path, .. } && path
                == p && !removed_in(acts, p, i));
        if i < k {
            assert(live_in(acts, p, k));
        } else {
            assert(p == added && !removed_in(acts, p, k));
        }
    }
    if live_in(acts, p, k) {
        let i = choose|i: int|
            0 <= i < k && ((#[trigger] acts[i]) matches ActionView::Add { path, .. } && path == p
                && !removed_in(acts, p, i));
        assert(live_in(acts, p, k + 1));
    }
    if p == added && !removed_in(acts, p, k) {
        assert((acts[k] matches ActionView::Add { path, .. } && path == p));
        assert(live_in(acts, p, k + 1));
    }
}

/// Liveness is untouched by a non-add action at position `k`.
proof fn lemma_live_step_other(acts: Seq<ActionView>, p: Seq<char>, k: int)
    requires
        0 <= k < acts.len(),
        !(acts[k] is Add),
    ensures
        live_in(acts, p, k + 1) <==> live_in(acts, p, k),
{
    if live_in(acts, p, k + 1) {
        let i = choose|i: int|
            0 <= i < k + 1 && ((#[trigger] acts[i]) matches ActionView::Add { path, .. } && path
                == p && !removed_in(acts, p, i));
        assert(i < k);
        assert(live_in(acts, p, k));
    }
    if live_in(acts, p, k) {
        let i = choose|i: int|
            0 <= i < k && ((#[trigger] acts[i]) matches ActionView::Add { path, .. } && path == p
                && !removed_in(acts, p, i));
        assert(live_in(acts, p, k + 1));
    }
}

/// Replaying a fixed scan is idempotent: any two runs over the same actions
/// name the same live paths, whatever order and representation their result
/// vectors use.
pub proof fn lemma_replay_idempotent(acts: Seq<ActionView>, r1: Seq<Seq<char>>, r2: Seq<Seq<char>>)
    requires
        forall|p: Seq<char>| #[trigger] r1.contains(p) <==> is_live(acts, p),
        forall|p: Seq<char>| #[trigger] r2.contains(p) <==> is_live(acts, p),
    ensures
        forall|p: Seq<char>| #[trigger] r1.contains(p) <==> r2.contains(p),
        r1.to_set() == r2.to_set(),
{
    assert forall|p: Seq<char>| #[trigger] r1.to_set().contains(p) <==> r2.to_set().contains(
        p,
    ) by {
        assert(r1.to_set().contains(p) == r1.contains(p));
        assert(r2.to_set().contains(p) == r2.contains(p));
    }
    assert(r1.to_set() =~= r2.to_set());
}

} // verus!
