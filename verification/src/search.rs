//! The search engine: a depth-bounded branch-and-bound depth-first
//! traversal over the action space.
//!
//! A rotation is modelled as a `Seq<Skills>` applied from a start state by
//! the engine's transition function; the search returns a rotation that no
//! catalog-legal rotation within the depth budget beats under the score
//! order.

use vstd::prelude::*;

use ffxiv_crafting::Skills;
use ffxiv_crafting::Status;

use crate::engine::action_allowed;
use crate::engine::allowed;
use crate::engine::apply_action;
use crate::engine::engine_room;
use crate::engine::engine_state_sound;
use crate::engine::next_state;
use crate::engine::progress_of;
use crate::engine::quality_of;
use crate::engine::read_control;
use crate::engine::read_craft_points;
use crate::engine::read_craftsmanship;
use crate::engine::read_durability;
use crate::engine::read_level;
use crate::engine::read_max_craft_points;
use crate::engine::read_progress;
use crate::engine::read_quality;
use crate::engine::read_recipe_level;
use crate::engine::read_step;
use crate::engine::read_target_durability;
use crate::engine::read_target_progress;
use crate::engine::read_target_quality;
use crate::engine::step_of;
use crate::engine::target_progress_of;
use crate::engine::target_quality_of;
use crate::score::quality_value;
use crate::score::spec_score_of;
use crate::score::score_wins;
use crate::score::Score;

verus! {

/// The state reached by applying a rotation from `s0`, action by action.
pub open spec fn state_after(s0: Status, rot: Seq<Skills>) -> Status
    decreases rot.len(),
{
    if rot.len() == 0 {
        s0
    } else {
        state_after(next_state(s0, rot[0]), rot.drop_first())
    }
}

/// Whether every action of a rotation is legal in the state it is cast in,
/// starting from `s0`.
pub open spec fn rotation_legal(s0: Status, rot: Seq<Skills>) -> bool
    decreases rot.len(),
{
    rot.len() == 0 || (allowed(s0, rot[0]) && rotation_legal(
        next_state(s0, rot[0]),
        rot.drop_first(),
    ))
}

/// Whether every action of a rotation comes from the catalog.
pub open spec fn rotation_in_catalog(cat: Seq<Skills>, rot: Seq<Skills>) -> bool {
    forall|i: int| 0 <= i < rot.len() ==> cat.contains(#[trigger] rot[i])
}

/// The quality a rotation from `s0` is worth: the final state's quality
/// capped at the start state's target quality, but only once the final
/// state's progress meets the start state's target progress.
pub open spec fn rotation_quality(s0: Status, rot: Seq<Skills>) -> i32 {
    let t = state_after(s0, rot);
    if progress_of(t) >= target_progress_of(s0) {
        if quality_of(t) <= target_quality_of(s0) {
            quality_of(t)
        } else {
            target_quality_of(s0)
        }
    } else {
        0i32
    }
}

/// Whether a rotation from `s0` scores strictly better than `b` under the
/// score order, counting one step per action applied on top of the start
/// state's step count.
pub open spec fn rotation_beats(s0: Status, rot: Seq<Skills>, b: Score) -> bool {
    rotation_quality(s0, rot) > b.quality || (rotation_quality(s0, rot) == b.quality && step_of(s0)
        + rot.len() < b.steps)
}

/// The incumbent of a search: its rotation is catalog-legal within the
/// budget, and its score is exactly that rotation's score.
pub open spec fn incumbent_ok(
    root: Status,
    cat: Seq<Skills>,
    maxd: int,
    bseq: Seq<Skills>,
    b: Score,
) -> bool {
    &&& rotation_in_catalog(cat, bseq)
    &&& rotation_legal(root, bseq)
    &&& bseq.len() <= maxd
    &&& b.quality == rotation_quality(root, bseq)
    &&& b.steps == step_of(root) + bseq.len()
}

/// The reference traversal, written as a function: what one node of the
/// search does to the incumbent. `path` is the rotation leading to the
/// state `s`; the node scores `path`, keeps the strictly better of it and
/// the incumbent, prunes, and otherwise folds `spec_visit_from` over the
/// catalog. The executable search returns exactly this function of its
/// inputs, which is what makes it deterministic.
pub open spec fn spec_visit(
    root: Status,
    s: Status,
    depth: int,
    maxd: int,
    cat: Seq<Skills>,
    path: Seq<Skills>,
    bseq: Seq<Skills>,
    b: Score,
) -> (Seq<Skills>, Score)
    decreases maxd + 1 - depth, 1int, 0int,
{
    let node = Score {
        quality: rotation_quality(root, path),
        steps: (step_of(root) + path.len()) as i32,
    };
    let improved = score_wins(node, b);
    let bseq1 = if improved {
        path
    } else {
        bseq
    };
    let b1 = if improved {
        node
    } else {
        b
    };
    if (b1.quality >= target_quality_of(root) && depth >= b1.steps) || depth >= maxd {
        (bseq1, b1)
    } else {
        spec_visit_from(root, s, depth, maxd, cat, path, 0, bseq1, b1)
    }
}

/// The fold of `spec_visit` over the catalog entries from `i` on: each
/// legal action is visited in catalog order, threading the incumbent.
pub open spec fn spec_visit_from(
    root: Status,
    s: Status,
    depth: int,
    maxd: int,
    cat: Seq<Skills>,
    path: Seq<Skills>,
    i: int,
    bseq: Seq<Skills>,
    b: Score,
) -> (Seq<Skills>, Score)
    decreases maxd + 1 - depth, 0int, cat.len() - i,
{
    if i < 0 || i >= cat.len() || depth >= maxd || depth < 0 {
        (bseq, b)
    } else {
        let stepped = if allowed(s, cat[i]) {
            spec_visit(
                root,
                next_state(s, cat[i]),
                depth + 1,
                maxd,
                cat,
                path.push(cat[i]),
                bseq,
                b,
            )
        } else {
            (bseq, b)
        };
        spec_visit_from(root, s, depth, maxd, cat, path, i + 1, stepped.0, stepped.1)
    }
}

/// The whole search as a function of its inputs: the traversal started at
/// `s` with an empty path and the start state's own score as incumbent.
pub open spec fn spec_dfs_search(s: Status, maxd: int, cat: Seq<Skills>) -> (Seq<Skills>, Score) {
    spec_visit(s, s, 0, maxd, cat, Seq::<Skills>::empty(), Seq::<Skills>::empty(), spec_score_of(s))
}

/// The reference traversal with the branch-and-bound prune disabled: only
/// the depth budget remains. Used to state that pruning is sound.
pub open spec fn spec_visit_unpruned(
    root: Status,
    s: Status,
    depth: int,
    maxd: int,
    cat: Seq<Skills>,
    path: Seq<Skills>,
    bseq: Seq<Skills>,
    b: Score,
) -> (Seq<Skills>, Score)
    decreases maxd + 1 - depth, 1int, 0int,
{
    let node = Score {
        quality: rotation_quality(root, path),
        steps: (step_of(root) + path.len()) as i32,
    };
    let improved = score_wins(node, b);
    let bseq1 = if improved {
        path
    } else {
        bseq
    };
    let b1 = if improved {
        node
    } else {
        b
    };
    if depth >= maxd {
        (bseq1, b1)
    } else {
        spec_visit_unpruned_from(root, s, depth, maxd, cat, path, 0, bseq1, b1)
    }
}

/// The fold of `spec_visit_unpruned` over the catalog entries from `i` on.
pub open spec fn spec_visit_unpruned_from(
    root: Status,
    s: Status,
    depth: int,
    maxd: int,
    cat: Seq<Skills>,
    path: Seq<Skills>,
    i: int,
    bseq: Seq<Skills>,
    b: Score,
) -> (Seq<Skills>, Score)
    decreases maxd + 1 - depth, 0int, cat.len() - i,
{
    if i < 0 || i >= cat.len() || depth >= maxd || depth < 0 {
        (bseq, b)
    } else {
        let stepped = if allowed(s, cat[i]) {
            spec_visit_unpruned(
                root,
                next_state(s, cat[i]),
                depth + 1,
                maxd,
                cat,
                path.push(cat[i]),
                bseq,
                b,
            )
        } else {
            (bseq, b)
        };
        spec_visit_unpruned_from(root, s, depth, maxd, cat, path, i + 1, stepped.0, stepped.1)
    }
}

/// The whole search without the branch-and-bound prune.
pub open spec fn spec_dfs_search_unpruned(s: Status, maxd: int, cat: Seq<Skills>) -> (
    Seq<Skills>,
    Score,
) {
    spec_visit_unpruned(
        s,
        s,
        0,
        maxd,
        cat,
        Seq::<Skills>::empty(),
        Seq::<Skills>::empty(),
        spec_score_of(s),
    )
}

proof fn lemma_state_after_push(s0: Status, rot: Seq<Skills>, sk: Skills)
    ensures
        state_after(s0, rot.push(sk)) == next_state(state_after(s0, rot), sk),
        rotation_legal(s0, rot.push(sk)) == (rotation_legal(s0, rot) && allowed(
            state_after(s0, rot),
            sk,
        )),
    decreases rot.len(),
{
    if rot.len() == 0 {
        reveal_with_fuel(state_after, 2);
        reveal_with_fuel(rotation_legal, 2);
        assert(rot =~= Seq::<Skills>::empty());
        assert(rot.push(sk).drop_first() =~= Seq::<Skills>::empty());
        assert(rot.push(sk)[0] == sk);
    } else {
        assert(rot.push(sk)[0] == rot[0]);
        assert(rot.push(sk).drop_first() =~= rot.drop_first().push(sk));
        lemma_state_after_push(next_state(s0, rot[0]), rot.drop_first(), sk);
        assert(state_after(s0, rot.push(sk)) == state_after(
            next_state(s0, rot[0]),
            rot.drop_first().push(sk),
        ));
        assert(state_after(s0, rot) == state_after(next_state(s0, rot[0]), rot.drop_first()));
    }
}

proof fn lemma_legal_at(s0: Status, rot: Seq<Skills>, k: int)
    requires
        rotation_legal(s0, rot),
        0 <= k < rot.len(),
    ensures
        allowed(state_after(s0, rot.take(k)), rot[k]),
    decreases k,
{
    if k == 0 {
        assert(rot.take(0) =~= Seq::<Skills>::empty());
    } else {
        lemma_legal_at(next_state(s0, rot[0]), rot.drop_first(), k - 1);
        assert(rot.drop_first().take(k - 1) =~= rot.take(k).drop_first());
        assert(rot.take(k)[0] == rot[0]);
        assert(rot.drop_first()[k - 1] == rot[k]);
    }
}

proof fn lemma_beats_monotone(s0: Status, rot: Seq<Skills>, b1: Score, b2: Score)
    requires
        !rotation_beats(s0, rot, b1),
        !score_wins(b1, b2),
    ensures
        !rotation_beats(s0, rot, b2),
{
}

/// Copy a rotation element by element.
fn clone_rotation(v: &Vec<Skills>) -> (r: Vec<Skills>)
    ensures
        r@ == v@,
{
    let mut r: Vec<Skills> = Vec::new();
    let mut i: usize = 0;
    while i < v.len()
        invariant
            i <= v.len(),
            r@ == v@.take(i as int),
        decreases v.len() - i,
    {
        r.push(v[i]);
        proof {
            assert(v@.take(i as int).push(v@[i as int]) =~= v@.take(i + 1));
        }
        i += 1;
    }
    proof {
        assert(v@.take(v@.len() as int) =~= v@);
    }
    r
}

/// One node of the branch-and-bound traversal.
///
/// `stack_seq` mirrors the path from the root to this node; it is restored
/// on every return path. The incumbent pair (`best_seq`, `best_score`) only
/// ever improves, and on return it is not beaten by any catalog-legal
/// rotation that extends the current path within the depth budget.
#[verifier::loop_isolation(false)]
pub fn visit(
    status: &Status,
    current_depth: i32,
    maximum_depth: i32,
    base_steps: i32,
    catalog: &Vec<Skills>,
    stack_seq: &mut Vec<Skills>,
    best_seq: &mut Vec<Skills>,
    best_score: &mut Score,
    Ghost(root): Ghost<Status>,
)
    requires
        0 <= current_depth <= maximum_depth,
        engine_room(*status, maximum_depth - current_depth),
        maximum_depth < i32::MAX,
        base_steps == step_of(root),
        0 <= base_steps,
        base_steps + maximum_depth + 1 <= i32::MAX,
        0 <= target_quality_of(root),
        old(stack_seq)@.len() == current_depth,
        *status == state_after(root, old(stack_seq)@),
        rotation_legal(root, old(stack_seq)@),
        rotation_in_catalog(catalog@, old(stack_seq)@),
        target_progress_of(*status) == target_progress_of(root),
        target_quality_of(*status) == target_quality_of(root),
        incumbent_ok(
            root,
            catalog@,
            maximum_depth as int,
            old(best_seq)@,
            *old(best_score),
        ),
    ensures
        final(stack_seq)@ == old(stack_seq)@,
        incumbent_ok(
            root,
            catalog@,
            maximum_depth as int,
            final(best_seq)@,
            *final(best_score),
        ),
        !score_wins(*old(best_score), *final(best_score)),
        (final(best_seq)@, *final(best_score)) == spec_visit(
            root,
            *status,
            current_depth as int,
            maximum_depth as int,
            catalog@,
            old(stack_seq)@,
            old(best_seq)@,
            *old(best_score),
        ),
        forall|rot: Seq<Skills>|
            rotation_in_catalog(catalog@, rot) && #[trigger] rotation_legal(root, rot) && old(
                stack_seq,
            )@.is_prefix_of(rot) && rot.len() <= maximum_depth ==> !rotation_beats(
                root,
                rot,
                *final(best_score),
            ),
    decreases maximum_depth + 1 - current_depth,
{
    let ghost pi = stack_seq@;
    let q = quality_value(status);
    let node_score = Score { quality: q, steps: base_steps + current_depth };
    proof {
        assert(rotation_quality(root, pi) == q);
        assert(node_score.steps == step_of(root) + pi.len());
        assert(node_score == (Score {
            quality: rotation_quality(root, pi),
            steps: (step_of(root) + pi.len()) as i32,
        }));
    }
    if node_score.beats(*best_score) {
        *best_score = node_score;
        let copied = clone_rotation(stack_seq);
        *best_seq = copied;
    }
    assert(!rotation_beats(root, pi, *best_score));
    let ghost bseq1 = best_seq@;
    let ghost b1 = *best_score;
    let target_q = read_target_quality(status);
    let quality_is_full = best_score.quality >= target_q;
    let branch_is_deeper = current_depth >= best_score.steps;
    if quality_is_full && branch_is_deeper || current_depth >= maximum_depth {
        proof {
            assert((best_seq@, *best_score) == spec_visit(
                root,
                *status,
                current_depth as int,
                maximum_depth as int,
                catalog@,
                pi,
                old(best_seq)@,
                *old(best_score),
            ));
            assert forall|rot: Seq<Skills>|
                rotation_in_catalog(catalog@, rot) && #[trigger] rotation_legal(root, rot)
                    && pi.is_prefix_of(rot) && rot.len()
                    <= maximum_depth implies !rotation_beats(root, rot, *best_score) by {
                if rot.len() == pi.len() {
                    assert(rot =~= pi);
                } else {
                    assert(rot.len() > pi.len());
                    assert(rotation_quality(root, rot) <= target_quality_of(root));
                    assert(step_of(root) + rot.len() > current_depth);
                }
            }
        }
        return ;
    }
    let mut i: usize = 0;
    while i < catalog.len()
        invariant
            i <= catalog.len(),
            stack_seq@ == pi,
            incumbent_ok(root, catalog@, maximum_depth as int, best_seq@, *best_score),
            !score_wins(*old(best_score), *best_score),
            !rotation_beats(root, pi, *best_score),
            spec_visit_from(
                root,
                *status,
                current_depth as int,
                maximum_depth as int,
                catalog@,
                pi,
                0,
                bseq1,
                b1,
            ) == spec_visit_from(
                root,
                *status,
                current_depth as int,
                maximum_depth as int,
                catalog@,
                pi,
                i as int,
                best_seq@,
                *best_score,
            ),
            forall|rot: Seq<Skills>|
                rotation_in_catalog(catalog@, rot) && #[trigger] rotation_legal(root, rot)
                    && pi.is_prefix_of(rot) && rot.len() <= maximum_depth && pi.len()
                    < rot.len() && (exists|j: int|
                    0 <= j < i && catalog@[j] == rot[pi.len() as int]) ==> !rotation_beats(
                    root,
                    rot,
                    *best_score,
                ),
        decreases catalog.len() - i,
    {
        let sk = catalog[i];
        let ghost b0 = *best_score;
        let ghost pre_seq = best_seq@;
        if action_allowed(status, sk) {
            let new_s = apply_action(status, sk);
            stack_seq.push(sk);
            proof {
                lemma_state_after_push(root, pi, sk);
                assert(catalog@.contains(sk)) by {
                    assert(catalog@[i as int] == sk);
                }
                assert forall|k: int| 0 <= k < pi.push(sk).len() implies catalog@.contains(
                    #[trigger] pi.push(sk)[k],
                ) by {
                    if k < pi.len() {
                        assert(pi.push(sk)[k] == pi[k]);
                    } else {
                        assert(pi.push(sk)[k] == sk);
                    }
                }
            }
            visit(
                &new_s,
                current_depth + 1,
                maximum_depth,
                base_steps,
                catalog,
                stack_seq,
                best_seq,
                best_score,
                Ghost(root),
            );
            stack_seq.pop();
            proof {
                assert(stack_seq@ =~= pi);
                assert forall|rot: Seq<Skills>|
                    rotation_in_catalog(catalog@, rot) && #[trigger] rotation_legal(root, rot)
                        && pi.is_prefix_of(rot) && rot.len() <= maximum_depth && pi.len()
                        < rot.len() && (exists|j: int|
                        0 <= j < i + 1 && catalog@[j] == rot[pi.len() as int])
                        implies !rotation_beats(root, rot, *best_score) by {
                    if exists|j: int| 0 <= j < i && catalog@[j] == rot[pi.len() as int] {
                        lemma_beats_monotone(root, rot, b0, *best_score);
                    } else {
                        assert(rot[pi.len() as int] == sk);
                        assert(pi.push(sk).is_prefix_of(rot)) by {
                            assert(pi.push(sk) =~= rot.subrange(0, pi.len() as int + 1));
                        }
                        assert(!rotation_beats(root, rot, *best_score));
                    }
                }
                lemma_beats_monotone(root, pi, b0, *best_score);
                assert(spec_visit_from(
                    root,
                    *status,
                    current_depth as int,
                    maximum_depth as int,
                    catalog@,
                    pi,
                    i as int,
                    pre_seq,
                    b0,
                ) == spec_visit_from(
                    root,
                    *status,
                    current_depth as int,
                    maximum_depth as int,
                    catalog@,
                    pi,
                    i as int + 1,
                    best_seq@,
                    *best_score,
                ));
            }
        } else {
            proof {
                assert(spec_visit_from(
                    root,
                    *status,
                    current_depth as int,
                    maximum_depth as int,
                    catalog@,
                    pi,
                    i as int,
                    pre_seq,
                    b0,
                ) == spec_visit_from(
                    root,
                    *status,
                    current_depth as int,
                    maximum_depth as int,
                    catalog@,
                    pi,
                    i as int + 1,
                    best_seq@,
                    *best_score,
                ));
                assert forall|rot: Seq<Skills>|
                    rotation_in_catalog(catalog@, rot) && #[trigger] rotation_legal(root, rot)
                        && pi.is_prefix_of(rot) && rot.len() <= maximum_depth && pi.len()
                        < rot.len() && (exists|j: int|
                        0 <= j < i + 1 && catalog@[j] == rot[pi.len() as int])
                        implies !rotation_beats(root, rot, *best_score) by {
                    if exists|j: int| 0 <= j < i && catalog@[j] == rot[pi.len() as int] {
                    } else {
                        assert(rot[pi.len() as int] == sk);
                        lemma_legal_at(root, rot, pi.len() as int);
                        assert(rot.take(pi.len() as int) =~= pi);
                        assert(false);
                    }
                }
            }
        }
        i += 1;
    }
    proof {
        assert forall|rot: Seq<Skills>|
            rotation_in_catalog(catalog@, rot) && #[trigger] rotation_legal(root, rot)
                && pi.is_prefix_of(rot) && rot.len()
                <= maximum_depth implies !rotation_beats(root, rot, *best_score) by {
            if rot.len() == pi.len() {
                assert(rot =~= pi);
            } else {
                assert(catalog@.contains(rot[pi.len() as int]));
            }
        }
        assert(spec_visit_from(
            root,
            *status,
            current_depth as int,
            maximum_depth as int,
            catalog@,
            pi,
            i as int,
            best_seq@,
            *best_score,
        ) == (best_seq@, *best_score));
        assert((best_seq@, *best_score) == spec_visit(
            root,
            *status,
            current_depth as int,
            maximum_depth as int,
            catalog@,
            pi,
            old(best_seq)@,
            *old(best_score),
        ));
    }
}

/// Run a depth-first search from `status`, considering at every node the
/// actions of `catalog` in order, and return the best rotation found
/// together with its score.
///
/// The returned score is exactly the returned rotation's score, and no
/// catalog-legal rotation within the depth budget beats it: the search is
/// exhaustive over the bounded space, pruning only branches that provably
/// cannot improve on the incumbent.
pub fn dfs_search(status: &Status, maximum_depth: i32, catalog: &Vec<Skills>) -> (r: (
    Vec<Skills>,
    Score,
))
    requires
        0 <= maximum_depth < i32::MAX,
        0 <= step_of(*status),
        step_of(*status) + maximum_depth + 1 <= i32::MAX,
        engine_room(*status, maximum_depth as int),
    ensures
        rotation_in_catalog(catalog@, r.0@),
        rotation_legal(*status, r.0@),
        r.0@.len() <= maximum_depth,
        r.1.quality == rotation_quality(*status, r.0@),
        r.1.steps == step_of(*status) + r.0@.len(),
        (r.0@, r.1) == spec_dfs_search(*status, maximum_depth as int, catalog@),
        forall|rot: Seq<Skills>|
            rotation_in_catalog(catalog@, rot) && #[trigger] rotation_legal(*status, rot)
                && rot.len() <= maximum_depth ==> !rotation_beats(*status, rot, r.1),
{
    let base_steps = read_step(status);
    let mut stack_seq: Vec<Skills> = Vec::new();
    let mut best_seq: Vec<Skills> = Vec::new();
    let mut best_score = Score::from_status(status);
    proof {
        assert(state_after(*status, Seq::<Skills>::empty()) == *status);
        assert(rotation_quality(*status, Seq::<Skills>::empty()) == best_score.quality);
    }
    visit(
        status,
        0,
        maximum_depth,
        base_steps,
        catalog,
        &mut stack_seq,
        &mut best_seq,
        &mut best_score,
        Ghost(*status),
    );
    proof {
        assert forall|rot: Seq<Skills>| true implies Seq::<Skills>::empty().is_prefix_of(rot) by {
            assert(Seq::<Skills>::empty() =~= rot.subrange(0, 0));
        }
    }
    (best_seq, best_score)
}

/// Run `dfs_search` after checking its preconditions against the state.
///
/// Returns `None` exactly when the inputs are out of range: a negative
/// depth, a state whose step counter is negative or too close to `i32::MAX`
/// for the budget, or fields outside the ranges the engine is relied on
/// for (`engine_room`). The one condition no field read can test is
/// `engine_state_sound`, which holds of every state the engine itself
/// built — construct the state through `new_status`.
pub fn try_dfs_search(status: &Status, maximum_depth: i32, catalog: &Vec<Skills>) -> (r: Option<
    (Vec<Skills>, Score),
>)
    requires
        engine_state_sound(*status),
    ensures
        (r is Some) <==> (0 <= maximum_depth && 0 <= step_of(*status) && step_of(*status)
            + maximum_depth + 1 <= i32::MAX && engine_room(*status, maximum_depth as int)),
        r matches Some(p) ==> {
            &&& rotation_in_catalog(catalog@, p.0@)
            &&& rotation_legal(*status, p.0@)
            &&& p.0@.len() <= maximum_depth
            &&& p.1.quality == rotation_quality(*status, p.0@)
            &&& p.1.steps == step_of(*status) + p.0@.len()
            &&& (p.0@, p.1) == spec_dfs_search(*status, maximum_depth as int, catalog@)
            &&& forall|rot: Seq<Skills>|
                rotation_in_catalog(catalog@, rot) && #[trigger] rotation_legal(*status, rot)
                    && rot.len() <= maximum_depth ==> !rotation_beats(*status, rot, p.1)
        },
{
    if maximum_depth < 0 {
        return None;
    }
    let st = read_step(status);
    let level = read_level(status);
    let craftsmanship = read_craftsmanship(status);
    let control = read_control(status);
    let craft_points = read_craft_points(status);
    let pool = read_max_craft_points(status);
    let durability = read_durability(status);
    let recipe_durability = read_target_durability(status);
    let target_progress = read_target_progress(status);
    let target_quality = read_target_quality(status);
    let progress = read_progress(status);
    let quality = read_quality(status);
    let recipe_level = read_recipe_level(status);
    let k = maximum_depth as i64;
    let fits = 0 <= st && (st as i64) + k + 1 <= i32::MAX as i64 && 1 <= level && level <= 80 && 0
        <= craftsmanship && craftsmanship <= 10000 && 0 <= control && control <= 10000
        && -0x4000_0000 <= recipe_level && recipe_level <= 0x4000_0000 && 0 <= target_progress && 0
        <= target_quality && target_quality <= 0x100_0000 && (progress as i64) + 0x100_0000i64 * k
        <= i32::MAX as i64 && (target_progress as i64) + 0x100_0000i64 * k <= i32::MAX as i64 && (
    quality as i64) + 0x100_0000i64 * k <= i32::MAX as i64 && -0x4000_0000i64 <= (
    craft_points as i64) - 1024 * k && (craft_points as i64) + 1024 * k <= 0x4000_0000i64
        && -0x4000_0000i64 <= (pool as i64) - 1024 * k && (pool as i64) + 1024 * k
        <= 0x4000_0000i64 && -0x4000_0000i64 <= (durability as i64) - 35 * k && (durability as i64)
        + 35 * k <= 0x4000_0000i64 && -0x4000_0000i64 <= (recipe_durability as i64) - 35 * k && (
    recipe_durability as i64) + 35 * k <= 0x4000_0000i64;
    if fits {
        Some(dfs_search(status, maximum_depth, catalog))
    } else {
        None
    }
}

/// The best score of a bounded search is unique: any two scores that each
/// belong to a catalog-legal rotation within the budget and that no such
/// rotation beats are equal. In particular, a search that explores the
/// whole bounded space without pruning returns the same score as one that
/// prunes, and two searches over identical inputs return equal scores.
pub proof fn lemma_best_score_unique(
    s0: Status,
    cat: Seq<Skills>,
    maxd: int,
    rot1: Seq<Skills>,
    b1: Score,
    rot2: Seq<Skills>,
    b2: Score,
)
    requires
        incumbent_ok(s0, cat, maxd, rot1, b1),
        incumbent_ok(s0, cat, maxd, rot2, b2),
        forall|rot: Seq<Skills>|
            rotation_in_catalog(cat, rot) && #[trigger] rotation_legal(s0, rot) && rot.len() <= maxd ==> !rotation_beats(s0, rot, b1),
        forall|rot: Seq<Skills>|
            rotation_in_catalog(cat, rot) && #[trigger] rotation_legal(s0, rot) && rot.len() <= maxd ==> !rotation_beats(s0, rot, b2),
    ensures
        b1 == b2,
{
    assert(!rotation_beats(s0, rot2, b1));
    assert(!rotation_beats(s0, rot1, b2));
}

/// The well-formedness of one traversal node: its state is the one its
/// path leads to, the path is catalog-legal and as long as the node is
/// deep, and the root's fields leave room for the budget.
spec fn node_ok(
    root: Status,
    s: Status,
    depth: int,
    maxd: int,
    cat: Seq<Skills>,
    path: Seq<Skills>,
) -> bool {
    &&& s == state_after(root, path)
    &&& rotation_legal(root, path)
    &&& rotation_in_catalog(cat, path)
    &&& path.len() == depth
    &&& 0 <= depth <= maxd
    &&& 0 <= step_of(root)
    &&& step_of(root) + maxd + 1 <= i32::MAX
    &&& 0 <= target_quality_of(root)
}

/// `b` is not beaten by any catalog-legal rotation within the budget that
/// extends `path`.
spec fn dominates(root: Status, cat: Seq<Skills>, maxd: int, path: Seq<Skills>, b: Score) -> bool {
    forall|rot: Seq<Skills>|
        rotation_in_catalog(cat, rot) && #[trigger] rotation_legal(root, rot) && path.is_prefix_of(
            rot,
        ) && rot.len() <= maxd ==> !rotation_beats(root, rot, b)
}

proof fn lemma_push_prefix(path: Seq<Skills>, sk: Skills, rot: Seq<Skills>)
    requires
        path.push(sk).is_prefix_of(rot),
    ensures
        path.is_prefix_of(rot),
        rot[path.len() as int] == sk,
{
    assert forall|k: int| 0 <= k < path.len() implies path[k] == rot.subrange(
        0,
        path.len() as int,
    )[k] by {
        assert(path.push(sk)[k] == rot.subrange(0, path.len() as int + 1)[k]);
    }
    assert(path =~= rot.subrange(0, path.len() as int));
    assert(path.push(sk)[path.len() as int] == rot.subrange(0, path.len() as int + 1)[path.len() as int]);
}

proof fn lemma_unpruned_from_stays(
    root: Status,
    s: Status,
    depth: int,
    maxd: int,
    cat: Seq<Skills>,
    path: Seq<Skills>,
    i: int,
    bseq: Seq<Skills>,
    b: Score,
)
    requires
        node_ok(root, s, depth, maxd, cat, path),
        dominates(root, cat, maxd, path, b),
        0 <= i,
        depth < maxd,
    ensures
        spec_visit_unpruned_from(root, s, depth, maxd, cat, path, i, bseq, b) == (bseq, b),
    decreases maxd + 1 - depth, 0int, cat.len() - i,
{
    if i < cat.len() {
        if allowed(s, cat[i]) {
            let sk = cat[i];
            lemma_state_after_push(root, path, sk);
            assert forall|k: int| 0 <= k < path.push(sk).len() implies cat.contains(
                #[trigger] path.push(sk)[k],
            ) by {
                if k < path.len() {
                    assert(path.push(sk)[k] == path[k]);
                } else {
                    assert(path.push(sk)[k] == sk);
                }
            }
            assert forall|rot: Seq<Skills>|
                rotation_in_catalog(cat, rot) && #[trigger] rotation_legal(root, rot) && path.push(
                    sk,
                ).is_prefix_of(rot) && rot.len() <= maxd implies !rotation_beats(
                root,
                rot,
                b,
            ) by {
                lemma_push_prefix(path, sk, rot);
            }
            lemma_unpruned_stays(root, next_state(s, sk), depth + 1, maxd, cat, path.push(sk), bseq, b);
        }
        lemma_unpruned_from_stays(root, s, depth, maxd, cat, path, i + 1, bseq, b);
    }
}

proof fn lemma_unpruned_stays(
    root: Status,
    s: Status,
    depth: int,
    maxd: int,
    cat: Seq<Skills>,
    path: Seq<Skills>,
    bseq: Seq<Skills>,
    b: Score,
)
    requires
        node_ok(root, s, depth, maxd, cat, path),
        dominates(root, cat, maxd, path, b),
    ensures
        spec_visit_unpruned(root, s, depth, maxd, cat, path, bseq, b) == (bseq, b),
    decreases maxd + 1 - depth, 1int, 0int,
{
    assert(path.is_prefix_of(path)) by {
        assert(path =~= path.subrange(0, path.len() as int));
    }
    assert(rotation_legal(root, path));
    assert(!rotation_beats(root, path, b));
    if depth < maxd {
        lemma_unpruned_from_stays(root, s, depth, maxd, cat, path, 0, bseq, b);
    }
}

proof fn lemma_prune_equiv_from(
    root: Status,
    s: Status,
    depth: int,
    maxd: int,
    cat: Seq<Skills>,
    path: Seq<Skills>,
    i: int,
    bseq: Seq<Skills>,
    b: Score,
)
    requires
        node_ok(root, s, depth, maxd, cat, path),
        0 <= i,
        depth < maxd,
    ensures
        spec_visit_from(root, s, depth, maxd, cat, path, i, bseq, b) == spec_visit_unpruned_from(
            root,
            s,
            depth,
            maxd,
            cat,
            path,
            i,
            bseq,
            b,
        ),
    decreases maxd + 1 - depth, 0int, cat.len() - i,
{
    if i < cat.len() {
        if allowed(s, cat[i]) {
            let sk = cat[i];
            lemma_state_after_push(root, path, sk);
            assert forall|k: int| 0 <= k < path.push(sk).len() implies cat.contains(
                #[trigger] path.push(sk)[k],
            ) by {
                if k < path.len() {
                    assert(path.push(sk)[k] == path[k]);
                } else {
                    assert(path.push(sk)[k] == sk);
                }
            }
            lemma_prune_equiv_node(
                root,
                next_state(s, sk),
                depth + 1,
                maxd,
                cat,
                path.push(sk),
                bseq,
                b,
            );
            let stepped = spec_visit(root, next_state(s, sk), depth + 1, maxd, cat, path.push(sk), bseq, b);
            lemma_prune_equiv_from(root, s, depth, maxd, cat, path, i + 1, stepped.0, stepped.1);
        } else {
            lemma_prune_equiv_from(root, s, depth, maxd, cat, path, i + 1, bseq, b);
        }
    }
}

proof fn lemma_prune_equiv_node(
    root: Status,
    s: Status,
    depth: int,
    maxd: int,
    cat: Seq<Skills>,
    path: Seq<Skills>,
    bseq: Seq<Skills>,
    b: Score,
)
    requires
        node_ok(root, s, depth, maxd, cat, path),
    ensures
        spec_visit(root, s, depth, maxd, cat, path, bseq, b) == spec_visit_unpruned(
            root,
            s,
            depth,
            maxd,
            cat,
            path,
            bseq,
            b,
        ),
    decreases maxd + 1 - depth, 1int, 0int,
{
    let node = Score {
        quality: rotation_quality(root, path),
        steps: (step_of(root) + path.len()) as i32,
    };
    let improved = score_wins(node, b);
    let bseq1 = if improved {
        path
    } else {
        bseq
    };
    let b1 = if improved {
        node
    } else {
        b
    };
    if depth >= maxd {
    } else if b1.quality >= target_quality_of(root) && depth >= b1.steps {
        assert forall|rot: Seq<Skills>|
            rotation_in_catalog(cat, rot) && #[trigger] rotation_legal(root, rot)
                && path.is_prefix_of(rot) && rot.len() <= maxd implies !rotation_beats(
            root,
            rot,
            b1,
        ) by {
            if rot.len() == path.len() {
                assert(rot =~= path);
            } else {
                assert(rot.len() > path.len());
                assert(rotation_quality(root, rot) <= target_quality_of(root));
                assert(step_of(root) + rot.len() > depth);
            }
        }
        lemma_unpruned_from_stays(root, s, depth, maxd, cat, path, 0, bseq1, b1);
    } else {
        lemma_prune_equiv_from(root, s, depth, maxd, cat, path, 0, bseq1, b1);
    }
}

/// Pruning soundness: the branch-and-bound prune only ever skips subtrees
/// that cannot improve the incumbent, so the traversal with the prune
/// returns exactly what the traversal without it returns, rotation and
/// score both.
pub proof fn lemma_prune_sound(s: Status, maxd: int, cat: Seq<Skills>)
    requires
        0 <= maxd,
        0 <= step_of(s),
        step_of(s) + maxd + 1 <= i32::MAX,
        0 <= target_quality_of(s),
    ensures
        spec_dfs_search(s, maxd, cat) == spec_dfs_search_unpruned(s, maxd, cat),
{
    assert(state_after(s, Seq::<Skills>::empty()) == s);
    lemma_prune_equiv_node(
        s,
        s,
        0,
        maxd,
        cat,
        Seq::<Skills>::empty(),
        Seq::<Skills>::empty(),
        spec_score_of(s),
    );
}

/// Determinism: the search's result is a function of the start state, the
/// depth budget and the catalog alone, so any two results over identical
/// inputs are identical, rotation and score both.
pub proof fn lemma_search_deterministic(
    s: Status,
    maxd: int,
    cat: Seq<Skills>,
    r1: (Seq<Skills>, Score),
    r2: (Seq<Skills>, Score),
)
    requires
        r1 == spec_dfs_search(s, maxd, cat),
        r2 == spec_dfs_search(s, maxd, cat),
    ensures
        r1 == r2,
{
}

/// The progress gate: a rotation whose final state does not meet the start
/// state's target progress is worth quality zero, however much raw quality
/// it accumulated.
pub proof fn lemma_progress_gate(s0: Status, rot: Seq<Skills>)
    requires
        progress_of(state_after(s0, rot)) < target_progress_of(s0),
    ensures
        rotation_quality(s0, rot) == 0,
{
}

} // verus!
