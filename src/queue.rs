//! Pruning queues: records kept in ascending order of deadline, with at most
//! one record per identity.
use vstd::prelude::*;
use crate::delay::PruningDelay;
use crate::record::{CandidateState, PruningRecord};

verus! {

broadcast use {
    Seq::lemma_filter_push,
    Seq::lemma_filter_pred,
    Seq::lemma_filter_contains_rev,
};

/// Every record of `q` stands in relation `rel` to every later record.
pub open spec fn pairwise<R>(q: Seq<R>, rel: spec_fn(R, R) -> bool) -> bool {
    forall|i: int, j: int| 0 <= i < j < q.len() ==> rel(#[trigger] q[i], #[trigger] q[j])
}

/// The first record's deadline comes no later than the second's.
pub open spec fn deadline_order<R: PruningRecord>() -> spec_fn(R, R) -> bool {
    |a: R, b: R| a.deadline_of().spec_le(b.deadline_of())
}

/// The two records stand for different artifacts.
pub open spec fn distinct_identity<R: PruningRecord>() -> spec_fn(R, R) -> bool {
    |a: R, b: R| !a.same_identity(b)
}

/// The queue is in ascending order of deadline.
pub open spec fn sorted<R: PruningRecord>(q: Seq<R>) -> bool {
    pairwise(q, deadline_order())
}

/// No two records of the queue share an identity.
pub open spec fn unique_identities<R: PruningRecord>(q: Seq<R>) -> bool {
    pairwise(q, distinct_identity())
}

/// A queue that the store keeps: sorted, one record per identity.
pub open spec fn well_formed<R: PruningRecord>(q: Seq<R>) -> bool {
    sorted(q) && unique_identities(q)
}

/// The record is due by `t`.
pub open spec fn due_by<R: PruningRecord>(t: PruningDelay) -> spec_fn(R) -> bool {
    |x: R| x.deadline_of().spec_le(t)
}

/// The record is not yet due by `t`.
pub open spec fn not_due_by<R: PruningRecord>(t: PruningDelay) -> spec_fn(R) -> bool {
    |x: R| !x.deadline_of().spec_le(t)
}

/// The negation of a predicate on records.
pub open spec fn negate<R: PruningRecord>(p: spec_fn(R) -> bool) -> spec_fn(R) -> bool {
    |x: R| !p(x)
}

/// The record stands for another artifact than `r`.
pub open spec fn other_than<R: PruningRecord>(r: R) -> spec_fn(R) -> bool {
    |x: R| !x.same_identity(r)
}

/// Moves a record to `state` with deadline `d`.
pub open spec fn mover<R: PruningRecord>(state: CandidateState, d: PruningDelay) -> spec_fn(R) -> R {
    |x: R| x.moved(state, d)
}

/// `block`, whose records all have deadline `d`, placed into the sorted
/// `rest`: after every record due by `d` and before every later one.
pub open spec fn placed<R: PruningRecord>(rest: Seq<R>, block: Seq<R>, d: PruningDelay) -> Seq<R> {
    rest.filter(due_by(d)) + block + rest.filter(not_due_by(d))
}

/// The queue after every record that satisfies `p` moved to `state` with
/// deadline `d`, placed in order of deadline.
pub open spec fn transitioned<R: PruningRecord>(
    q: Seq<R>,
    p: spec_fn(R) -> bool,
    state: CandidateState,
    d: PruningDelay,
) -> Seq<R> {
    placed(q.filter(negate(p)), q.filter(p).map_values(mover(state, d)), d)
}

/// The queue with `r` in place of any record of the same identity.
pub open spec fn upserted<R: PruningRecord>(q: Seq<R>, r: R) -> Seq<R> {
    placed(q.filter(other_than(r)), seq![r], r.deadline_of())
}

/// The records that pruning at time `now` removes.
pub open spec fn due_at<R: PruningRecord>(q: Seq<R>, now: u64) -> Seq<R> {
    q.filter(due_by(PruningDelay::In(now)))
}

/// The records that pruning at time `now` keeps.
pub open spec fn kept_at<R: PruningRecord>(q: Seq<R>, now: u64) -> Seq<R> {
    q.filter(not_due_by(PruningDelay::In(now)))
}

/// The records of `q` that satisfy `p`, in order, given the value of `p` on
/// each record as a flag.
fn filter_flagged<R: PruningRecord>(
    q: &Vec<R>,
    flags: &Vec<bool>,
    want: bool,
    Ghost(p): Ghost<spec_fn(R) -> bool>,
) -> (r: Vec<R>)
    requires
        flags.len() == q.len(),
        forall|i: int| 0 <= i < q.len() ==> flags[i] == (p(q[i]) == want),
    ensures
        r@ == q@.filter(p),
{
    let mut out: Vec<R> = Vec::new();
    let mut i: usize = 0;
    while i < q.len()
        invariant
            i <= q.len(),
            flags.len() == q.len(),
            forall|k: int| 0 <= k < q.len() ==> flags[k] == (p(q[k]) == want),
            out@ == q@.take(i as int).filter(p),
        decreases q.len() - i,
    {
        assert(q@.take(i + 1) =~= q@.take(i as int).push(q@[i as int]));
        if flags[i] == want {
            out.push(q[i]);
        }
        i = i + 1;
    }
    assert(q@.take(q.len() as int) =~= q@);
    out
}

/// Splits `q` into the records due by `d` and the others, each in order.
pub fn split_due<R: PruningRecord>(q: &Vec<R>, d: &PruningDelay) -> (r: (Vec<R>, Vec<R>))
    ensures
        r.0@ == q@.filter(due_by(*d)),
        r.1@ == q@.filter(not_due_by(*d)),
{
    let mut flags: Vec<bool> = Vec::new();
    let mut i: usize = 0;
    while i < q.len()
        invariant
            i <= q.len(),
            flags.len() == i,
            forall|k: int| 0 <= k < i ==> flags[k] == q[k].deadline_of().spec_le(*d),
        decreases q.len() - i,
    {
        flags.push(q[i].deadline().le(d));
        i = i + 1;
    }
    let due = filter_flagged(q, &flags, true, Ghost(due_by(*d)));
    let later = filter_flagged(q, &flags, false, Ghost(not_due_by(*d)));
    (due, later)
}

/// Places `block`, whose records all have deadline `d`, into `rest`.
fn place<R: PruningRecord>(rest: &Vec<R>, block: Vec<R>, d: &PruningDelay) -> (r: Vec<R>)
    ensures
        r@ == placed(rest@, block@, *d),
{
    let (mut out, mut later) = split_due(rest, d);
    let mut block = block;
    out.append(&mut block);
    out.append(&mut later);
    out
}

/// Moves every record whose flag is set to `state` with deadline `d`, and
/// keeps the queue in order of deadline.
pub fn transition<R: PruningRecord>(
    q: &Vec<R>,
    flags: &Vec<bool>,
    Ghost(p): Ghost<spec_fn(R) -> bool>,
    state: CandidateState,
    d: PruningDelay,
) -> (r: Vec<R>)
    requires
        flags.len() == q.len(),
        forall|i: int| 0 <= i < q.len() ==> flags[i] == p(q[i]),
    ensures
        r@ == transitioned(q@, p, state, d),
{
    let rest = filter_flagged(q, flags, false, Ghost(negate(p)));
    let chosen = filter_flagged(q, flags, true, Ghost(p));
    let mut block: Vec<R> = Vec::new();
    let mut i: usize = 0;
    while i < chosen.len()
        invariant
            i <= chosen.len(),
            block@ == chosen@.take(i as int).map_values(mover::<R>(state, d)),
        decreases chosen.len() - i,
    {
        block.push(chosen[i].move_to(state, d));
        i = i + 1;
        assert(block@ =~= chosen@.take(i as int).map_values(mover::<R>(state, d)));
    }
    assert(chosen@.take(chosen.len() as int) =~= chosen@);
    place(&rest, block, &d)
}

/// The queue with `r` in place of any record of the same identity.
pub fn upsert<R: PruningRecord>(q: &Vec<R>, r: R) -> (out: Vec<R>)
    ensures
        out@ == upserted(q@, r),
{
    let mut flags: Vec<bool> = Vec::new();
    let mut i: usize = 0;
    while i < q.len()
        invariant
            i <= q.len(),
            flags.len() == i,
            forall|k: int| 0 <= k < i ==> flags[k] == !q[k].same_identity(r),
        decreases q.len() - i,
    {
        flags.push(!q[i].identity_eq(&r));
        i = i + 1;
    }
    let rest = filter_flagged(q, &flags, true, Ghost(other_than(r)));
    let mut block: Vec<R> = Vec::new();
    block.push(r);
    assert(block@ =~= seq![r]);
    place(&rest, block, &r.deadline())
}

/// Filtering keeps a pairwise relation.
proof fn lemma_filter_pairwise<R>(q: Seq<R>, p: spec_fn(R) -> bool, rel: spec_fn(R, R) -> bool)
    requires
        pairwise(q, rel),
    ensures
        pairwise(q.filter(p), rel),
    decreases q.len(),
{
    reveal(Seq::filter);
    if q.len() > 0 {
        let init = q.drop_last();
        let f = init.filter(p);
        lemma_filter_pairwise(init, p, rel);
        if p(q.last()) {
            assert forall|i: int| 0 <= i < f.len() implies rel(f[i], q.last()) by {
                assert(f.contains(f[i]));
                let k = choose|k: int| 0 <= k < init.len() && init[k] == f[i];
                assert(q[k] == f[i]);
            }
            assert forall|i: int, j: int| 0 <= i < j < f.push(q.last()).len() implies rel(
                #[trigger] f.push(q.last())[i],
                #[trigger] f.push(q.last())[j],
            ) by {
                if j == f.len() {
                    assert(rel(f[i], q.last()));
                }
            }
        }
    }
}

/// Every record of `s.filter(p)` is a record of `s` that satisfies `p`.
proof fn lemma_filter_member<R>(s: Seq<R>, p: spec_fn(R) -> bool, i: int)
    requires
        0 <= i < s.filter(p).len(),
    ensures
        s.contains(s.filter(p)[i]),
        p(s.filter(p)[i]),
{
    assert(s.filter(p).contains(s.filter(p)[i]));
}

/// Filtering by a predicate that all records satisfy changes nothing.
proof fn lemma_filter_all<R>(s: Seq<R>, p: spec_fn(R) -> bool)
    requires
        forall|i: int| 0 <= i < s.len() ==> p(#[trigger] s[i]),
    ensures
        s.filter(p) == s,
    decreases s.len(),
{
    reveal(Seq::filter);
    if s.len() > 0 {
        lemma_filter_all(s.drop_last(), p);
        assert(s.drop_last().push(s.last()) =~= s);
    }
}

/// Filtering by a predicate that no record satisfies leaves nothing.
proof fn lemma_filter_none<R>(s: Seq<R>, p: spec_fn(R) -> bool)
    requires
        forall|i: int| 0 <= i < s.len() ==> !p(#[trigger] s[i]),
    ensures
        s.filter(p) == Seq::<R>::empty(),
    decreases s.len(),
{
    reveal(Seq::filter);
    if s.len() > 0 {
        lemma_filter_none(s.drop_last(), p);
    }
    assert(s.filter(p) =~= Seq::<R>::empty());
}

/// A block of records with deadline `d`, placed into a sorted queue, leaves
/// it sorted.
proof fn lemma_placed_sorted<R: PruningRecord>(rest: Seq<R>, block: Seq<R>, d: PruningDelay)
    requires
        sorted(rest),
        forall|i: int| 0 <= i < block.len() ==> (#[trigger] block[i]).deadline_of() == d,
    ensures
        sorted(placed(rest, block, d)),
{
    let a = rest.filter(due_by(d));
    let c = rest.filter(not_due_by(d));
    lemma_filter_pairwise(rest, due_by(d), deadline_order());
    lemma_filter_pairwise(rest, not_due_by(d), deadline_order());
    let out = placed(rest, block, d);
    assert forall|i: int, j: int| 0 <= i < j < out.len() implies (#[trigger] out[i]).deadline_of().spec_le(
        (#[trigger] out[j]).deadline_of(),
    ) by {
        if i < a.len() {
            assert(due_by::<R>(d)(a[i]));
        } else if i < a.len() + block.len() {
            assert(out[i] == block[i - a.len()]);
        }
        if j >= a.len() + block.len() {
            assert(out[j] == c[j - a.len() - block.len()]);
            assert(not_due_by::<R>(d)(c[j - a.len() - block.len()]));
        } else if j >= a.len() {
            assert(out[j] == block[j - a.len()]);
        }
    }
}

/// A block of records, placed into a queue, keeps identities unique when
/// each side has unique identities and no record of the block shares an
/// identity with a record of the queue.
proof fn lemma_placed_unique<R: PruningRecord>(rest: Seq<R>, block: Seq<R>, d: PruningDelay)
    requires
        unique_identities(rest),
        unique_identities(block),
        forall|i: int, j: int|
            0 <= i < rest.len() && 0 <= j < block.len() ==> !(#[trigger] rest[i]).same_identity(
                #[trigger] block[j],
            ),
    ensures
        unique_identities(placed(rest, block, d)),
{
    let a = rest.filter(due_by(d));
    let c = rest.filter(not_due_by(d));
    lemma_filter_pairwise(rest, due_by(d), distinct_identity());
    lemma_filter_pairwise(rest, not_due_by(d), distinct_identity());
    let out = placed(rest, block, d);
    assert forall|i: int, j: int| 0 <= i < j < out.len() implies !(#[trigger] out[i]).same_identity(
        #[trigger] out[j],
    ) by {
        R::lemma_record_laws(out[i], out[j], out[j], CandidateState::Stored, d);
        if i < a.len() && j >= a.len() + block.len() {
            let cj = j - a.len() - block.len();
            lemma_filter_member(rest, due_by(d), i);
            lemma_filter_member(rest, not_due_by(d), cj);
            let x = choose|x: int| 0 <= x < rest.len() && rest[x] == a[i];
            let y = choose|y: int| 0 <= y < rest.len() && rest[y] == c[cj];
            assert(x != y);
            if y < x {
                assert(!rest[y].same_identity(rest[x]));
            }
        } else if i < a.len() && j < a.len() {
            assert(out[i] == a[i] && out[j] == a[j]);
        } else if i < a.len() && j < a.len() + block.len() {
            lemma_filter_member(rest, due_by(d), i);
            let x = choose|x: int| 0 <= x < rest.len() && rest[x] == a[i];
            assert(!rest[x].same_identity(block[j - a.len()]));
        } else if i < a.len() + block.len() && j >= a.len() + block.len() {
            let cj = j - a.len() - block.len();
            lemma_filter_member(rest, not_due_by(d), cj);
            let y = choose|y: int| 0 <= y < rest.len() && rest[y] == c[cj];
            assert(!rest[y].same_identity(block[i - a.len()]));
        } else if i < a.len() + block.len() {
            assert(out[i] == block[i - a.len()] && out[j] == block[j - a.len()]);
        } else {
            assert(out[i] == c[i - a.len() - block.len()] && out[j] == c[j - a.len() - block.len()]);
        }
    }
}

/// Moving the records that satisfy a predicate keeps a queue sorted and its
/// identities unique.
pub proof fn lemma_transitioned_well_formed<R: PruningRecord>(
    q: Seq<R>,
    p: spec_fn(R) -> bool,
    state: CandidateState,
    d: PruningDelay,
)
    requires
        well_formed(q),
    ensures
        well_formed(transitioned(q, p, state, d)),
{
    let rest = q.filter(negate(p));
    let chosen = q.filter(p);
    let block = chosen.map_values(mover(state, d));
    lemma_filter_pairwise(q, negate(p), deadline_order());
    lemma_filter_pairwise(q, negate(p), distinct_identity());
    lemma_filter_pairwise(q, p, distinct_identity());
    assert forall|i: int| 0 <= i < block.len() implies (#[trigger] block[i]).deadline_of() == d by {
        R::lemma_record_laws(chosen[i], chosen[i], chosen[i], state, d);
    }
    assert forall|i: int, j: int| 0 <= i < j < block.len() implies !(#[trigger] block[i]).same_identity(
        #[trigger] block[j],
    ) by {
        let ci = chosen[i];
        let cj = chosen[j];
        assert(block[i] == ci.moved(state, d) && block[j] == cj.moved(state, d));
        assert(distinct_identity::<R>()(ci, cj));
        R::lemma_record_laws(ci, cj.moved(state, d), cj, state, d);
        R::lemma_record_laws(cj, ci, ci, state, d);
    }
    assert forall|i: int, j: int|
        0 <= i < rest.len() && 0 <= j < block.len() implies !(#[trigger] rest[i]).same_identity(
        #[trigger] block[j],
    ) by {
        lemma_filter_member(q, negate(p), i);
        lemma_filter_member(q, p, j);
        let x = choose|x: int| 0 <= x < q.len() && q[x] == rest[i];
        let y = choose|y: int| 0 <= y < q.len() && q[y] == chosen[j];
        assert(x != y);
        assert(block[j] == chosen[j].moved(state, d));
        R::lemma_record_laws(chosen[j], rest[i], rest[i], state, d);
        R::lemma_record_laws(rest[i], chosen[j].moved(state, d), chosen[j], state, d);
        R::lemma_record_laws(rest[i], chosen[j], chosen[j], state, d);
        if y < x {
            assert(distinct_identity::<R>()(q[y], q[x]));
        } else {
            assert(distinct_identity::<R>()(q[x], q[y]));
        }
    }
    lemma_placed_sorted(rest, block, d);
    lemma_placed_unique(rest, block, d);
}

/// Putting a record in keeps a queue sorted and its identities unique.
pub proof fn lemma_upserted_well_formed<R: PruningRecord>(q: Seq<R>, r: R)
    requires
        well_formed(q),
    ensures
        well_formed(upserted(q, r)),
{
    let rest = q.filter(other_than(r));
    lemma_filter_pairwise(q, other_than(r), deadline_order());
    lemma_filter_pairwise(q, other_than(r), distinct_identity());
    assert forall|i: int, j: int|
        0 <= i < rest.len() && 0 <= j < seq![r].len() implies !(#[trigger] rest[i]).same_identity(
        #[trigger] seq![r][j],
    ) by {
        lemma_filter_member(q, other_than(r), i);
    }
    lemma_placed_sorted(rest, seq![r], r.deadline_of());
    lemma_placed_unique(rest, seq![r], r.deadline_of());
}

/// What pruning keeps of a queue is sorted, with unique identities.
pub proof fn lemma_kept_well_formed<R: PruningRecord>(q: Seq<R>, now: u64)
    requires
        well_formed(q),
    ensures
        well_formed(kept_at(q, now)),
{
    lemma_filter_pairwise(q, not_due_by(PruningDelay::In(now)), deadline_order());
    lemma_filter_pairwise(q, not_due_by(PruningDelay::In(now)), distinct_identity());
}

/// The records of `placed(rest, block, d)` fall into three parts: those of
/// `rest` due by `d`, the block, and the rest of `rest`.
proof fn lemma_parts<R: PruningRecord>(q: Seq<R>, p: spec_fn(R) -> bool, d: PruningDelay)
    ensures
        forall|i: int|
            0 <= i < q.filter(negate(p)).filter(due_by(d)).len() ==> !p(
                #[trigger] q.filter(negate(p)).filter(due_by(d))[i],
            ) && due_by::<R>(d)(q.filter(negate(p)).filter(due_by(d))[i]),
        forall|i: int|
            0 <= i < q.filter(negate(p)).filter(not_due_by(d)).len() ==> !p(
                #[trigger] q.filter(negate(p)).filter(not_due_by(d))[i],
            ) && !due_by::<R>(d)(q.filter(negate(p)).filter(not_due_by(d))[i]),
{
    let rest = q.filter(negate(p));
    let a = rest.filter(due_by(d));
    let c = rest.filter(not_due_by(d));
    assert forall|i: int| 0 <= i < a.len() implies !p(#[trigger] a[i]) && due_by::<R>(d)(a[i]) by {
        lemma_filter_member(rest, due_by(d), i);
        let x = choose|x: int| 0 <= x < rest.len() && rest[x] == a[i];
        lemma_filter_member(q, negate(p), x);
    }
    assert forall|i: int| 0 <= i < c.len() implies !p(#[trigger] c[i]) && !due_by::<R>(d)(c[i]) by {
        lemma_filter_member(rest, not_due_by(d), i);
        let x = choose|x: int| 0 <= x < rest.len() && rest[x] == c[i];
        lemma_filter_member(q, negate(p), x);
    }
}

/// The moved block is chosen, due by `d`, and moving it again changes
/// nothing.
proof fn lemma_block<R: PruningRecord>(q: Seq<R>, p: spec_fn(R) -> bool, state: CandidateState, d: PruningDelay, i: int)
    requires
        forall|k: int| 0 <= k < q.len() && p(#[trigger] q[k]) ==> p(q[k].moved(state, d)),
        0 <= i < q.filter(p).len(),
    ensures
        p(q.filter(p)[i].moved(state, d)),
        q.filter(p)[i].moved(state, d).deadline_of() == d,
        q.filter(p)[i].moved(state, d).moved(state, d) == q.filter(p)[i].moved(state, d),
{
    let x = q.filter(p)[i];
    lemma_filter_member(q, p, i);
    let k = choose|k: int| 0 <= k < q.len() && q[k] == x;
    assert(p(q[k]) ==> p(q[k].moved(state, d)));
    R::lemma_record_laws(x, x, x, state, d);
}

/// Moving the same records to the same state and deadline a second time
/// changes nothing, provided that a chosen record is still chosen once moved.
pub proof fn lemma_transition_idempotent<R: PruningRecord>(
    q: Seq<R>,
    p: spec_fn(R) -> bool,
    state: CandidateState,
    d: PruningDelay,
)
    requires
        forall|k: int| 0 <= k < q.len() && p(#[trigger] q[k]) ==> p(q[k].moved(state, d)),
    ensures
        transitioned(transitioned(q, p, state, d), p, state, d) == transitioned(q, p, state, d),
{
    let rest = q.filter(negate(p));
    let block = q.filter(p).map_values(mover(state, d));
    let a = rest.filter(due_by(d));
    let c = rest.filter(not_due_by(d));
    let e = Seq::<R>::empty();
    lemma_parts(q, p, d);
    assert forall|i: int| 0 <= i < block.len() implies p(#[trigger] block[i]) && due_by::<R>(d)(block[i])
        && !negate(p)(block[i]) && block[i].moved(state, d) == block[i] by {
        lemma_block(q, p, state, d, i);
        assert(block[i] == q.filter(p)[i].moved(state, d));
    }
    lemma_filter_all(a, negate(p));
    lemma_filter_all(c, negate(p));
    lemma_filter_none(block, negate(p));
    lemma_filter_none(a, p);
    lemma_filter_none(c, p);
    lemma_filter_all(block, p);
    lemma_filter_all(a, due_by(d));
    lemma_filter_none(c, due_by(d));
    lemma_filter_none(a, not_due_by(d));
    lemma_filter_all(c, not_due_by(d));
    Seq::filter_distributes_over_add(a, block, negate(p));
    Seq::filter_distributes_over_add(a + block, c, negate(p));
    Seq::filter_distributes_over_add(a, block, p);
    Seq::filter_distributes_over_add(a + block, c, p);
    Seq::filter_distributes_over_add(a, c, due_by(d));
    Seq::filter_distributes_over_add(a, c, not_due_by(d));
    assert(a + e =~= a);
    assert(e + block =~= block);
    assert(block + e =~= block);
    assert(e + c =~= c);
    let once = a + block + c;
    assert(transitioned(q, p, state, d) == once);
    assert(once.filter(negate(p)) == a + c);
    assert(once.filter(p) == block);
    assert(block.map_values(mover(state, d)) =~= block);
    assert((a + c).filter(due_by(d)) == a);
    assert((a + c).filter(not_due_by(d)) == c);
}

/// Every record after a transition is either a record of the queue that was
/// not chosen, left as it was, or a chosen record of the queue moved to
/// `state` with deadline `d`.
pub proof fn lemma_transition_targets<R: PruningRecord>(
    q: Seq<R>,
    p: spec_fn(R) -> bool,
    state: CandidateState,
    d: PruningDelay,
    i: int,
)
    requires
        0 <= i < transitioned(q, p, state, d).len(),
    ensures
        ({
            let t = transitioned(q, p, state, d)[i];
            (q.contains(t) && !p(t)) || exists|k: int| 0 <= k < q.len() && p(q[k]) && t == (#[trigger] q[k]).moved(state, d)
        }),
{
    let rest = q.filter(negate(p));
    let chosen = q.filter(p);
    let block = chosen.map_values(mover(state, d));
    let a = rest.filter(due_by(d));
    let c = rest.filter(not_due_by(d));
    let t = transitioned(q, p, state, d);
    if i < a.len() {
        lemma_parts(q, p, d);
        lemma_filter_member(rest, due_by(d), i);
        let x = choose|x: int| 0 <= x < rest.len() && rest[x] == a[i];
        lemma_filter_member(q, negate(p), x);
        assert(t[i] == a[i]);
    } else if i < a.len() + block.len() {
        let j = i - a.len();
        lemma_filter_member(q, p, j);
        let k = choose|k: int| 0 <= k < q.len() && q[k] == chosen[j];
        assert(t[i] == q[k].moved(state, d));
    } else {
        let j = i - a.len() - block.len();
        lemma_parts(q, p, d);
        lemma_filter_member(rest, not_due_by(d), j);
        let x = choose|x: int| 0 <= x < rest.len() && rest[x] == c[j];
        lemma_filter_member(q, negate(p), x);
        assert(t[i] == c[j]);
    }
}

/// Placing a block keeps every record of the queue and of the block.
proof fn lemma_placed_contains<R: PruningRecord>(rest: Seq<R>, block: Seq<R>, d: PruningDelay, x: R)
    ensures
        rest.contains(x) || block.contains(x) ==> placed(rest, block, d).contains(x),
{
    let a = rest.filter(due_by(d));
    let c = rest.filter(not_due_by(d));
    let out = placed(rest, block, d);
    if rest.contains(x) {
        let i = choose|i: int| 0 <= i < rest.len() && rest[i] == x;
        if due_by::<R>(d)(x) {
            Seq::lemma_filter_contains(rest, due_by(d), i);
            let j = choose|j: int| 0 <= j < a.len() && a[j] == x;
            assert(out[j] == x);
        } else {
            Seq::lemma_filter_contains(rest, not_due_by(d), i);
            let j = choose|j: int| 0 <= j < c.len() && c[j] == x;
            assert(out[a.len() + block.len() + j] == x);
        }
    } else if block.contains(x) {
        let j = choose|j: int| 0 <= j < block.len() && block[j] == x;
        assert(out[a.len() + j] == x);
    }
}

/// Putting a record in keeps it and every record of another identity.
pub proof fn lemma_upserted_contains<R: PruningRecord>(q: Seq<R>, r: R, x: R)
    ensures
        upserted(q, r).contains(r),
        q.contains(x) && !x.same_identity(r) ==> upserted(q, r).contains(x),
{
    assert(seq![r][0] == r);
    lemma_placed_contains(q.filter(other_than(r)), seq![r], r.deadline_of(), r);
    if q.contains(x) && !x.same_identity(r) {
        let i = choose|i: int| 0 <= i < q.len() && q[i] == x;
        Seq::lemma_filter_contains(q, other_than(r), i);
        lemma_placed_contains(q.filter(other_than(r)), seq![r], r.deadline_of(), x);
    }
}

/// A transition keeps a record of every identity that the queue had.
pub proof fn lemma_transitioned_contains<R: PruningRecord>(
    q: Seq<R>,
    p: spec_fn(R) -> bool,
    state: CandidateState,
    d: PruningDelay,
    x: R,
)
    requires
        q.contains(x),
    ensures
        exists|y: R| #[trigger] transitioned(q, p, state, d).contains(y) && y.same_identity(x),
{
    let rest = q.filter(negate(p));
    let chosen = q.filter(p);
    let block = chosen.map_values(mover(state, d));
    let i = choose|i: int| 0 <= i < q.len() && q[i] == x;
    R::lemma_record_laws(x, x, x, state, d);
    if p(x) {
        Seq::lemma_filter_contains(q, p, i);
        let j = choose|j: int| 0 <= j < chosen.len() && chosen[j] == x;
        assert(block[j] == x.moved(state, d));
        lemma_placed_contains(rest, block, d, x.moved(state, d));
        assert(transitioned(q, p, state, d).contains(x.moved(state, d)));
    } else {
        Seq::lemma_filter_contains(q, negate(p), i);
        lemma_placed_contains(rest, block, d, x);
        assert(transitioned(q, p, state, d).contains(x));
    }
}

} // verus!
