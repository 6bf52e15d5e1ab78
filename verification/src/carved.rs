//! What carvings do to a file system that nobody else touches.

use crate::carve::{lemma_advance_uses_budget, lemma_suffix_injective, suffix};
use crate::carve::{CarvePhase, CarveState, CarveStepView, ATTEMPTS};
use crate::model::{on_the_way, Disk};
use crate::path::{branch, is_proper_name, is_relative, join, leaf, lemma_branch_is_shorter, trimmed};
use vstd::prelude::*;

verus! {

/// The state and the disk after a carving in state `state` has gone on for
/// up to `steps` requests, each performed on the disk as it then is.
pub open spec fn run(state: CarveState, disk: Disk, steps: nat) -> (CarveState, Disk)
    decreases steps,
{
    if steps == 0 || state.phase is Finished || state.phase is Failed {
        (state, disk)
    } else {
        let (next, reply) = disk.respond(state.request(), Seq::empty());
        run(state.advance(reply), next, (steps - 1) as nat)
    }
}

/// How the carving of `rel_path` out of the directory `dir` ends on `disk`,
/// and the disk that it leaves.
pub open spec fn carve(disk: Disk, dir: Seq<char>, rel_path: Seq<char>) -> (CarveStepView, Disk) {
    let (state, after) = run(CarveState::initial(dir, rel_path), disk, (ATTEMPTS + 2) as nat);
    (state.pending(), after)
}

/// A carving that is run for as many requests as its budget allows has
/// ended, whatever is on the disk.
pub proof fn lemma_run_ends(state: CarveState, disk: Disk, steps: nat)
    requires
        state.wf(),
        steps >= state.budget(),
    ensures
        run(state, disk, steps).0.phase is Finished || run(state, disk, steps).0.phase is Failed,
    decreases steps,
{
    if !(state.phase is Finished || state.phase is Failed) {
        let (next, reply) = disk.respond(state.request(), Seq::empty());
        lemma_advance_uses_budget(state, reply);
        lemma_run_ends(state.advance(reply), next, (steps - 1) as nat);
    }
}

/// Every carving comes to an end on the disk: it finishes or fails.
pub proof fn lemma_carving_ends(disk: Disk, dir: Seq<char>, rel_path: Seq<char>)
    ensures
        !(carve(disk, dir, rel_path).0 is Perform),
{
    lemma_run_ends(CarveState::initial(dir, rel_path), disk, (ATTEMPTS + 2) as nat);
}

/// The path that a carving of `rel_path` out of `dir` tries after `k` names
/// were found taken.
pub open spec fn candidate(dir: Seq<char>, rel_path: Seq<char>, k: nat) -> Seq<char> {
    join(dir, trimmed(rel_path)) + suffix(k)
}

/// The directory that holds what a carving of `rel_path` out of `dir`
/// creates.
pub open spec fn holder(dir: Seq<char>, rel_path: Seq<char>) -> Seq<char> {
    CarveState::initial(dir, rel_path).ancestors()
}

/// A carving tries a different path after every collision.
pub proof fn lemma_candidates_differ(dir: Seq<char>, rel_path: Seq<char>, a: nat, b: nat)
    requires
        candidate(dir, rel_path, a) == candidate(dir, rel_path, b),
    ensures
        a == b,
{
    let front = join(dir, trimmed(rel_path));
    let x = candidate(dir, rel_path, a);
    let y = candidate(dir, rel_path, b);
    assert(x.skip(front.len() as int) =~= suffix(a));
    assert(y.skip(front.len() as int) =~= suffix(b));
    lemma_suffix_injective(a, b);
}

/// No path that a carving tries lies on the way to the directory that holds
/// the new one.
pub proof fn lemma_candidate_is_new(dir: Seq<char>, rel_path: Seq<char>, k: nat, step: Seq<char>)
    requires
        leaf(rel_path).len() > 0,
        on_the_way(step, holder(dir, rel_path)),
    ensures
        step != candidate(dir, rel_path, k),
{
    lemma_branch_is_shorter(rel_path);
    assert(step.len() <= holder(dir, rel_path).len());
    assert(holder(dir, rel_path).len() <= dir.len() + 1 + branch(rel_path).len());
    assert(candidate(dir, rel_path, k).len() >= dir.len() + 1 + trimmed(rel_path).len());
}

/// A carving that stands before its try number `c` finds the names up to
/// number `k` taken and comes to rest on the free name `k`.
proof fn lemma_collisions(state: CarveState, disk: Disk, k: nat, steps: nat)
    requires
        state.phase is Creating,
        state.wf(),
        state.collisions <= k < ATTEMPTS,
        steps > k - state.collisions,
        forall|j: nat|
            state.collisions <= j < k ==> disk.occupied(
                #[trigger] (CarveState { collisions: j, ..state }).target(),
            ),
        !disk.occupied((CarveState { collisions: k, ..state }).target()),
    ensures
        ({
            let last = CarveState { collisions: k, ..state };
            run(state, disk, steps) == (
                CarveState { phase: CarvePhase::Finished, ..last },
                Disk { dirs: disk.dirs.insert(last.target()), ..disk },
            )
        }),
    decreases k - state.collisions,
{
    let (next, reply) = disk.respond(state.request(), Seq::empty());
    let after = state.advance(reply);
    assert(run(state, disk, steps) == run(after, next, (steps - 1) as nat));
    assert(state == (CarveState { collisions: state.collisions, ..state }));
    if state.collisions == k {
        assert(after.phase is Finished);
        assert(run(after, next, (steps - 1) as nat) == (after, next));
    } else {
        assert(disk.occupied((CarveState { collisions: state.collisions, ..state }).target()));
        assert(next == disk);
        assert(after == (CarveState { collisions: state.collisions + 1, ..state }));
        assert forall|j: nat| after.collisions <= j < k implies disk.occupied(
            #[trigger] (CarveState { collisions: j, ..after }).target(),
        ) by {
            assert((CarveState { collisions: j, ..after }) == (CarveState {
                collisions: j,
                ..state
            }));
        }
        assert((CarveState { collisions: k, ..after }) == (CarveState { collisions: k, ..state }));
        lemma_collisions(after, disk, k, (steps - 1) as nat);
    }
}

/// One carving on a disk where the plain name and the first numbered names
/// are taken, `k` names in all, and the next name is free: the carving
/// creates the directory under that name, with the directories that lead to
/// it, and changes nothing else.
pub proof fn lemma_next_carving(disk: Disk, dir: Seq<char>, rel_path: Seq<char>, k: nat)
    requires
        is_relative(rel_path),
        is_proper_name(leaf(rel_path)),
        k < ATTEMPTS,
        forall|j: nat| j < k ==> disk.occupied(#[trigger] candidate(dir, rel_path, j)),
        !disk.occupied(candidate(dir, rel_path, k)),
    ensures
        ({
            let (step, after) = carve(disk, dir, rel_path);
            &&& step == CarveStepView::Finished(candidate(dir, rel_path, k))
            &&& after.links == disk.links
            &&& forall|p: Seq<char>|
                after.dirs.contains(p) <==> (disk.dirs.contains(p) || on_the_way(
                    p,
                    holder(dir, rel_path),
                ) || p == candidate(dir, rel_path, k))
        }),
{
    let s0 = CarveState::initial(dir, rel_path);
    let steps = (ATTEMPTS + 2) as nat;
    let (d1, r0) = disk.respond(s0.request(), Seq::empty());
    let s1 = s0.advance(r0);
    assert(run(s0, disk, steps) == run(s1, d1, (steps - 1) as nat));
    assert forall|j: nat| s1.collisions <= j < k implies d1.occupied(
        #[trigger] (CarveState { collisions: j, ..s1 }).target(),
    ) by {
        assert((CarveState { collisions: j, ..s1 }).target() == candidate(dir, rel_path, j));
    }
    assert((CarveState { collisions: k, ..s1 }).target() == candidate(dir, rel_path, k));
    if on_the_way(candidate(dir, rel_path, k), holder(dir, rel_path)) {
        lemma_candidate_is_new(dir, rel_path, k, candidate(dir, rel_path, k));
    }
    lemma_collisions(s1, d1, k, (steps - 1) as nat);
}

/// The disk after `n` carvings of `rel_path` out of `dir`, one after
/// another.
pub open spec fn carvings(disk: Disk, dir: Seq<char>, rel_path: Seq<char>, n: nat) -> Disk
    decreases n,
{
    if n == 0 {
        disk
    } else {
        carve(carvings(disk, dir, rel_path, (n - 1) as nat), dir, rel_path).1
    }
}

/// Carving the same path `n` times in a row, where none of its names was
/// taken before, gives `n` directories that are all there at the end: the
/// first under the plain name, the others under the names numbered from 0
/// to `n - 2`. The carving number `i` gives the name that follows `i`
/// collisions, and these names differ from each other.
pub proof fn lemma_carvings_in_a_row(disk: Disk, dir: Seq<char>, rel_path: Seq<char>, n: nat)
    requires
        is_relative(rel_path),
        is_proper_name(leaf(rel_path)),
        n <= ATTEMPTS,
        forall|j: nat| j < n ==> !disk.occupied(#[trigger] candidate(dir, rel_path, j)),
    ensures
        forall|i: nat|
            i < n ==> (#[trigger] carve(carvings(disk, dir, rel_path, i), dir, rel_path)).0
                == CarveStepView::Finished(candidate(dir, rel_path, i)),
        forall|j: nat|
            j < n ==> carvings(disk, dir, rel_path, n).dirs.contains(
                #[trigger] candidate(dir, rel_path, j),
            ),
        forall|i: nat, j: nat|
            i < n && j < n && i != j ==> candidate(dir, rel_path, i) != candidate(
                dir,
                rel_path,
                j,
            ),
{
    lemma_carvings_fill(disk, dir, rel_path, n, n);
    assert forall|i: nat| i < n implies (#[trigger] carve(
        carvings(disk, dir, rel_path, i),
        dir,
        rel_path,
    )).0 == CarveStepView::Finished(candidate(dir, rel_path, i)) by {
        lemma_carvings_fill(disk, dir, rel_path, n, i);
        lemma_next_carving(carvings(disk, dir, rel_path, i), dir, rel_path, i);
    }
    assert forall|i: nat, j: nat| i < n && j < n && i != j implies candidate(dir, rel_path, i)
        != candidate(dir, rel_path, j) by {
        if candidate(dir, rel_path, i) == candidate(dir, rel_path, j) {
            lemma_candidates_differ(dir, rel_path, i, j);
        }
    }
}

/// After `m` of `n` carvings the first `m` names are taken by directories
/// and the others are still free.
proof fn lemma_carvings_fill(disk: Disk, dir: Seq<char>, rel_path: Seq<char>, n: nat, m: nat)
    requires
        is_relative(rel_path),
        is_proper_name(leaf(rel_path)),
        m <= n <= ATTEMPTS,
        forall|j: nat| j < n ==> !disk.occupied(#[trigger] candidate(dir, rel_path, j)),
    ensures
        forall|j: nat|
            j < m ==> carvings(disk, dir, rel_path, m).dirs.contains(
                #[trigger] candidate(dir, rel_path, j),
            ),
        forall|j: nat|
            m <= j < n ==> !carvings(disk, dir, rel_path, m).occupied(
                #[trigger] candidate(dir, rel_path, j),
            ),
    decreases m,
{
    if m > 0 {
        let k = (m - 1) as nat;
        let before = carvings(disk, dir, rel_path, k);
        let after = carvings(disk, dir, rel_path, m);
        lemma_carvings_fill(disk, dir, rel_path, n, k);
        assert forall|j: nat| j < k implies before.occupied(
            #[trigger] candidate(dir, rel_path, j),
        ) by {}
        lemma_next_carving(before, dir, rel_path, k);
        assert forall|j: nat| m <= j < n implies !after.occupied(
            #[trigger] candidate(dir, rel_path, j),
        ) by {
            let p = candidate(dir, rel_path, j);
            if on_the_way(p, holder(dir, rel_path)) {
                lemma_candidate_is_new(dir, rel_path, j, p);
            }
            if p == candidate(dir, rel_path, k) {
                lemma_candidates_differ(dir, rel_path, j, k);
            }
            assert(!before.occupied(p));
        }
    }
}

} // verus!
