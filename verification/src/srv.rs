//! SRV records and the order in which their targets are tried.

use itertools::Itertools;
use rand::RngExt;
use vstd::prelude::*;

verus! {

/// One SRV record of a service.
#[derive(Debug, PartialEq, Eq)]
pub struct SrvRecord {
    /// Records with a lower priority are tried first.
    pub priority: u16,
    /// How likely the record is picked among those of the same priority.
    pub weight: u16,
    /// The port of the service.
    pub port: u16,
    /// The host of the service, in ascii form.
    pub target: String,
}

impl Clone for SrvRecord {
    fn clone(&self) -> (r: Self)
        ensures
            r == *self,
    {
        SrvRecord {
            priority: self.priority,
            weight: self.weight,
            port: self.port,
            target: self.target.clone(),
        }
    }
}

/// The records of one priority, in their order.
pub open spec fn of_priority(s: Seq<SrvRecord>, priority: u16) -> Seq<SrvRecord> {
    s.filter(|r: SrvRecord| r.priority == priority)
}

/// The records with a positive weight, in their order.
pub open spec fn weighted(s: Seq<SrvRecord>) -> Seq<SrvRecord> {
    s.filter(|r: SrvRecord| r.weight != 0)
}

/// The records without weight, in their order.
pub open spec fn unweighted(s: Seq<SrvRecord>) -> Seq<SrvRecord> {
    s.filter(|r: SrvRecord| r.weight == 0)
}

/// The sum of all weights.
pub open spec fn total_weight(s: Seq<SrvRecord>) -> int
    decreases s.len(),
{
    if s.len() == 0 {
        0
    } else {
        total_weight(s.drop_last()) + s.last().weight
    }
}

/// The weights of no priority add up to more than a `u32` holds.
pub open spec fn weights_fit(s: Seq<SrvRecord>) -> bool {
    forall|p: u16| #[trigger] total_weight(of_priority(s, p)) <= u32::MAX
}

/// Priorities never go down.
pub open spec fn priorities_ascend(s: Seq<SrvRecord>) -> bool {
    forall|i: int, j: int| 0 <= i <= j < s.len() ==> s[i].priority <= s[j].priority
}

/// Within a priority, no record with a positive weight stands behind one without.
pub open spec fn weightless_last(s: Seq<SrvRecord>) -> bool {
    forall|i: int, j: int|
        0 <= i < j < s.len() && s[i].priority == s[j].priority && s[j].weight != 0
            ==> s[i].weight != 0
}

/// `out` is an order in which the targets of `records` may be tried: every record is
/// used once, lower priorities come first, within a priority the records without
/// weight come last, and those keep their order.
pub open spec fn is_srv_order(records: Seq<SrvRecord>, out: Seq<SrvRecord>) -> bool {
    &&& out.to_multiset() == records.to_multiset()
    &&& priorities_ascend(out)
    &&& weightless_last(out)
    &&& forall|p: u16| #[trigger]
        unweighted(of_priority(out, p)) == unweighted(of_priority(records, p))
}

/// The record that the number `draw` picks: the weights are laid out one behind the
/// other, and the first record whose weights reach up to `draw` is taken.
pub open spec fn pick_index(s: Seq<SrvRecord>, draw: int) -> int
    decreases s.len(),
{
    if s.len() <= 1 || draw <= s[0].weight {
        0
    } else {
        1 + pick_index(s.drop_first(), draw - s[0].weight)
    }
}

/// The records that are left when a record was picked by each of the draws.
pub open spec fn left_after(s: Seq<SrvRecord>, draws: Seq<Draw>) -> Seq<SrvRecord>
    decreases draws.len(),
{
    if draws.len() == 0 {
        s
    } else {
        let left = left_after(s, draws.drop_last());
        left.remove(pick_index(left, draws.last().value as int))
    }
}

/// The records that the draws pick, the one that is picked first in front.
pub open spec fn drawn_by(s: Seq<SrvRecord>, draws: Seq<Draw>) -> Seq<SrvRecord>
    decreases draws.len(),
{
    if draws.len() == 0 {
        Seq::empty()
    } else {
        let left = left_after(s, draws.drop_last());
        drawn_by(s, draws.drop_last()).push(left[pick_index(left, draws.last().value as int)])
    }
}

/// Each number is drawn from 0 up to the sum of the weights that are left.
pub open spec fn draws_fit(s: Seq<SrvRecord>, draws: Seq<Draw>) -> bool {
    forall|k: int|
        0 <= k < draws.len() ==> (#[trigger] draws[k]).value <= draws[k].max && draws[k].max
            == total_weight(left_after(s, draws.take(k)))
}

/// The order that draws give to a group of equal priority: the records with a positive
/// weight as they are picked, then those without in theirs.
pub open spec fn group_by_draws(group: Seq<SrvRecord>, draws: Seq<Draw>) -> Seq<SrvRecord> {
    drawn_by(weighted(group), draws) + unweighted(group)
}

/// There is one draw for each record of a group that has a positive weight.
pub open spec fn group_draws_fit(group: Seq<SrvRecord>, draws: Seq<Draw>) -> bool {
    draws.len() == weighted(group).len() && draws_fit(weighted(group), draws)
}

/// The order that draws, one list for each group, give to groups one behind the other.
pub open spec fn groups_by_draws(
    groups: Seq<Vec<SrvRecord>>,
    draws: Seq<Vec<Draw>>,
) -> Seq<SrvRecord>
    decreases groups.len(),
{
    if groups.len() == 0 {
        Seq::empty()
    } else {
        groups_by_draws(groups.drop_last(), draws.drop_last()) + group_by_draws(
            groups.last()@,
            draws.last()@,
        )
    }
}

/// There is one list of draws for each group.
pub open spec fn groups_draws_fit(groups: Seq<Vec<SrvRecord>>, draws: Seq<Vec<Draw>>) -> bool {
    &&& draws.len() == groups.len()
    &&& forall|k: int|
        0 <= k < groups.len() ==> group_draws_fit((#[trigger] groups[k])@, draws[k]@)
}

/// The groups one behind the other.
pub open spec fn joined(groups: Seq<Vec<SrvRecord>>) -> Seq<SrvRecord>
    decreases groups.len(),
{
    if groups.len() == 0 {
        Seq::empty()
    } else {
        joined(groups.drop_last()) + groups.last()@
    }
}

/// `groups` cuts `s` wherever the priority changes.
pub open spec fn is_cut_by_priority(s: Seq<SrvRecord>, groups: Seq<Vec<SrvRecord>>) -> bool {
    &&& joined(groups) == s
    &&& forall|k: int| 0 <= k < groups.len() ==> (#[trigger] groups[k])@.len() > 0
    &&& forall|k: int, i: int|
        0 <= k < groups.len() && 0 <= i < groups[k]@.len() ==> (#[trigger] groups[k]@[i]).priority
            == groups[k]@[0].priority
    &&& forall|k: int|
        0 < k < groups.len() ==> (#[trigger] groups[k])@[0].priority != groups[k - 1]@[0].priority
}

/// `r` is `s` by ascending priority; the records of each priority keep their order.
pub open spec fn is_sorted_by_priority(s: Seq<SrvRecord>, r: Seq<SrvRecord>) -> bool {
    &&& priorities_ascend(r)
    &&& r.to_multiset() == s.to_multiset()
    &&& forall|p: u16| #[trigger] of_priority(r, p) == of_priority(s, p)
}

/// `groups` holds the records of `s` by ascending priority, a group for each priority.
pub open spec fn is_grouped(s: Seq<SrvRecord>, groups: Seq<Vec<SrvRecord>>) -> bool {
    is_sorted_by_priority(s, joined(groups)) && is_cut_by_priority(joined(groups), groups)
}

/// Calls `itertools::Itertools::sorted_by_key`: the records by ascending priority. The
/// sort is stable, so that the records of each priority keep their order, and it
/// neither loses nor adds a record.
#[verifier::external_body]
fn sorted_by_priority(records: Vec<SrvRecord>) -> (r: Vec<SrvRecord>)
    ensures
        is_sorted_by_priority(records@, r@),
{
    records.into_iter().sorted_by_key(|record| record.priority).collect()
}

/// Calls `itertools::Itertools::chunk_by`: the records cut into runs of equal
/// priority. A run is never empty and ends only where the priority changes.
#[verifier::external_body]
fn chunked_by_priority(records: Vec<SrvRecord>) -> (r: Vec<Vec<SrvRecord>>)
    ensures
        is_cut_by_priority(records@, r@),
{
    let chunks = records.into_iter().chunk_by(|record| record.priority);
    chunks.into_iter().map(|(_, chunk)| chunk.collect()).collect()
}

/// A random number, with the range that it was drawn from.
#[derive(Debug, Clone, Copy, PartialEq, Eq, Structural)]
pub struct Draw {
    /// The largest number that could have been drawn; the smallest is 0.
    pub max: u32,
    /// The number.
    pub value: u32,
}

/// Calls `rand::RngExt::random_range` on the generator of the thread, with the range
/// from 0 to `max`, both ends included. The number is random: all that is said of it is
/// that it lies in the range, which is kept with it.
#[verifier::external_body]
fn draw_up_to(max: u32) -> (r: Draw)
    ensures
        r.max == max,
        r.value <= max,
{
    Draw { max, value: rand::rng().random_range(0..=max) }
}

/// `out` is an order of a group of equal priority: the records with a positive weight
/// in some order, then those without in theirs.
pub open spec fn is_group_order(group: Seq<SrvRecord>, out: Seq<SrvRecord>) -> bool {
    let n = weighted(group).len() as int;
    &&& out.len() == group.len()
    &&& n <= out.len()
    &&& out.take(n).to_multiset() == weighted(group).to_multiset()
    &&& out.skip(n) == unweighted(group)
}

proof fn lemma_total_nonnegative(s: Seq<SrvRecord>)
    ensures
        total_weight(s) >= 0,
    decreases s.len(),
{
    if s.len() > 0 {
        lemma_total_nonnegative(s.drop_last());
    }
}

proof fn lemma_total_add(a: Seq<SrvRecord>, b: Seq<SrvRecord>)
    ensures
        total_weight(a + b) == total_weight(a) + total_weight(b),
    decreases b.len(),
{
    if b.len() == 0 {
        assert(a + b == a);
    } else {
        assert((a + b).drop_last() == a + b.drop_last());
        lemma_total_add(a, b.drop_last());
    }
}

proof fn lemma_total_take(s: Seq<SrvRecord>, n: int)
    requires
        0 <= n <= s.len(),
    ensures
        0 <= total_weight(s.take(n)) <= total_weight(s),
{
    assert(s == s.take(n) + s.skip(n));
    lemma_total_add(s.take(n), s.skip(n));
    lemma_total_nonnegative(s.take(n));
    lemma_total_nonnegative(s.skip(n));
}

proof fn lemma_total_one(s: Seq<SrvRecord>)
    requires
        s.len() == 1,
    ensures
        total_weight(s) == s[0].weight,
{
    assert(total_weight(s.drop_last()) == 0);
}

proof fn lemma_total_front(s: Seq<SrvRecord>)
    requires
        s.len() > 0,
    ensures
        total_weight(s) == s[0].weight + total_weight(s.drop_first()),
{
    assert(s == s.take(1) + s.drop_first());
    lemma_total_add(s.take(1), s.drop_first());
    lemma_total_one(s.take(1));
}

proof fn lemma_total_remove(s: Seq<SrvRecord>, i: int)
    requires
        0 <= i < s.len(),
    ensures
        total_weight(s.remove(i)) == total_weight(s) - s[i].weight,
{
    assert(s.remove(i) == s.take(i) + s.skip(i + 1));
    assert(s == s.take(i) + s.skip(i));
    assert(s.skip(i).drop_first() == s.skip(i + 1));
    lemma_total_add(s.take(i), s.skip(i + 1));
    lemma_total_add(s.take(i), s.skip(i));
    lemma_total_front(s.skip(i));
}

/// What `filter` gives for one more element.
proof fn lemma_filter_step(s: Seq<SrvRecord>, pred: spec_fn(SrvRecord) -> bool, n: int)
    requires
        0 <= n < s.len(),
    ensures
        s.take(n + 1).filter(pred) == if pred(s[n]) {
            s.take(n).filter(pred).push(s[n])
        } else {
            s.take(n).filter(pred)
        },
{
    reveal(Seq::filter);
    assert(s.take(n + 1).drop_last() == s.take(n));
}

proof fn lemma_filter_all(s: Seq<SrvRecord>, pred: spec_fn(SrvRecord) -> bool)
    requires
        forall|i: int| 0 <= i < s.len() ==> pred(#[trigger] s[i]),
    ensures
        s.filter(pred) == s,
    decreases s.len(),
{
    reveal(Seq::filter);
    if s.len() > 0 {
        assert(forall|i: int| 0 <= i < s.len() - 1 ==> s.drop_last()[i] == s[i]);
        lemma_filter_all(s.drop_last(), pred);
        assert(s == s.drop_last().push(s.last()));
    }
}

proof fn lemma_filter_none(s: Seq<SrvRecord>, pred: spec_fn(SrvRecord) -> bool)
    requires
        forall|i: int| 0 <= i < s.len() ==> !pred(#[trigger] s[i]),
    ensures
        s.filter(pred) == Seq::<SrvRecord>::empty(),
    decreases s.len(),
{
    reveal(Seq::filter);
    if s.len() > 0 {
        assert(forall|i: int| 0 <= i < s.len() - 1 ==> s.drop_last()[i] == s[i]);
        lemma_filter_none(s.drop_last(), pred);
    }
}

/// Keeping only some records never makes the weights larger.
proof fn lemma_total_filter(s: Seq<SrvRecord>, pred: spec_fn(SrvRecord) -> bool)
    ensures
        total_weight(s.filter(pred)) <= total_weight(s),
    decreases s.len(),
{
    reveal(Seq::filter);
    if s.len() > 0 {
        lemma_total_filter(s.drop_last(), pred);
        if pred(s.last()) {
            assert(s.filter(pred).drop_last() == s.drop_last().filter(pred));
        }
    }
}

/// The records with and those without weight are all records.
proof fn lemma_weights_partition(s: Seq<SrvRecord>)
    ensures
        weighted(s).to_multiset().add(unweighted(s).to_multiset()) == s.to_multiset(),
        weighted(s).len() + unweighted(s).len() == s.len(),
    decreases s.len(),
{
    broadcast use vstd::seq_lib::group_to_multiset_ensures;

    reveal(Seq::filter);
    if s.len() > 0 {
        let rest = s.drop_last();
        lemma_weights_partition(rest);
        assert(s == rest.push(s.last()));
        if s.last().weight != 0 {
            assert(weighted(s) == weighted(rest).push(s.last()));
            assert(unweighted(s) == unweighted(rest));
        } else {
            assert(unweighted(s) == unweighted(rest).push(s.last()));
            assert(weighted(s) == weighted(rest));
        }
        assert(weighted(s).to_multiset().add(unweighted(s).to_multiset()) =~= s.to_multiset());
    } else {
        assert(weighted(s) == s);
        assert(unweighted(s) == s);
        assert(weighted(s).to_multiset().add(unweighted(s).to_multiset()) =~= s.to_multiset());
    }
}

/// Sequences with the same multiset hold the same elements.
proof fn lemma_same_elements(a: Seq<SrvRecord>, b: Seq<SrvRecord>, i: int)
    requires
        a.to_multiset() == b.to_multiset(),
        0 <= i < a.len(),
    ensures
        exists|j: int| 0 <= j < b.len() && b[j] == a[i],
{
    broadcast use vstd::seq_lib::group_to_multiset_ensures;

    assert(a.contains(a[i]));
    assert(a.to_multiset().count(a[i]) > 0);
    assert(b.contains(a[i]));
}

/// Every record is used, whatever its weight, and there are as many as before.
pub proof fn law_every_record_is_used(records: Seq<SrvRecord>, out: Seq<SrvRecord>, i: int)
    requires
        is_srv_order(records, out),
        0 <= i < records.len(),
    ensures
        out.len() == records.len(),
        exists|j: int| 0 <= j < out.len() && out[j] == records[i],
{
    broadcast use vstd::seq_lib::group_to_multiset_ensures;

    lemma_same_elements(records, out, i);
    assert(out.to_multiset().len() == records.to_multiset().len());
}

/// A draw picks the record on whose stretch of weights it falls: behind the weights of
/// all records before it, and within its own. The draw 0 falls to the first record.
pub proof fn law_pick_by_weight(s: Seq<SrvRecord>, draw: int)
    requires
        s.len() > 0,
        0 <= draw <= total_weight(s),
    ensures
        0 <= pick_index(s, draw) < s.len(),
        draw <= total_weight(s.take(pick_index(s, draw) + 1)),
        pick_index(s, draw) > 0 ==> total_weight(s.take(pick_index(s, draw))) < draw,
    decreases s.len(),
{
    if s.len() == 1 {
        assert(s.take(1) == s);
    } else if draw <= s[0].weight {
        lemma_total_one(s.take(1));
    } else {
        let rest = s.drop_first();
        let left = draw - s[0].weight;
        lemma_total_front(s);
        law_pick_by_weight(rest, left);
        let i = pick_index(rest, left);
        assert(s.take(i + 2).drop_first() == rest.take(i + 1));
        lemma_total_front(s.take(i + 2));
        assert(s.take(i + 1).drop_first() == rest.take(i));
        lemma_total_front(s.take(i + 1));
        if i == 0 {
            assert(rest.take(0) == Seq::<SrvRecord>::empty());
        }
    }
}

/// The sum of all weights.
fn sum_weights(s: &Vec<SrvRecord>) -> (r: u32)
    requires
        total_weight(s@) <= u32::MAX,
    ensures
        r == total_weight(s@),
{
    let mut sum: u32 = 0;
    let mut i: usize = 0;
    while i < s.len()
        invariant
            i <= s.len(),
            total_weight(s@) <= u32::MAX,
            sum == total_weight(s@.take(i as int)),
        decreases s.len() - i,
    {
        proof {
            assert(s@.take(i + 1).drop_last() == s@.take(i as int));
            lemma_total_take(s@, i + 1);
        }
        sum = sum + s[i].weight as u32;
        i += 1;
    }
    assert(s@.take(s.len() as int) == s@);
    sum
}

/// Takes the record that `draw` picks out of `rest`. The number is drawn from 0 up to the
/// sum of the weights.
pub fn take_weighted(rest: &mut Vec<SrvRecord>, draw: Draw) -> (r: SrvRecord)
    requires
        old(rest)@.len() > 0,
        draw.max == total_weight(old(rest)@),
        draw.value <= draw.max,
    ensures
        r == old(rest)@[pick_index(old(rest)@, draw.value as int)],
        final(rest)@ == old(rest)@.remove(pick_index(old(rest)@, draw.value as int)),
        0 <= pick_index(old(rest)@, draw.value as int) < old(rest)@.len(),
{
    let ghost all = rest@;
    let mut left: u32 = draw.value;
    let mut i: usize = 0;
    assert(all.skip(0) == all);
    proof {
        law_pick_by_weight(all, draw.value as int);
    }
    while left > rest[i].weight as u32
        invariant
            rest@ == all,
            i < rest.len(),
            left <= total_weight(all.skip(i as int)),
            pick_index(all, draw.value as int) == i + pick_index(all.skip(i as int), left as int),
        decreases all.len() - i,
    {
        proof {
            let here = all.skip(i as int);
            lemma_total_front(here);
            assert(here.drop_first() == all.skip(i + 1));
            if here.len() == 1 {
                assert(here.drop_first() == Seq::<SrvRecord>::empty());
            }
        }
        left = left - rest[i].weight as u32;
        i += 1;
    }
    assert(pick_index(all.skip(i as int), left as int) == 0);
    rest.remove(i)
}

/// The records with a positive weight, and those without.
fn split_by_weight(group: &Vec<SrvRecord>) -> (r: (Vec<SrvRecord>, Vec<SrvRecord>))
    ensures
        r.0@ == weighted(group@),
        r.1@ == unweighted(group@),
{
    let ghost has_weight = |r: SrvRecord| r.weight != 0;
    let ghost has_none = |r: SrvRecord| r.weight == 0;
    let mut some: Vec<SrvRecord> = Vec::new();
    let mut none: Vec<SrvRecord> = Vec::new();
    let mut i: usize = 0;
    assert(group@.take(0) == Seq::<SrvRecord>::empty());
    while i < group.len()
        invariant
            i <= group.len(),
            has_weight == (|r: SrvRecord| r.weight != 0),
            has_none == (|r: SrvRecord| r.weight == 0),
            some@ == group@.take(i as int).filter(has_weight),
            none@ == group@.take(i as int).filter(has_none),
        decreases group.len() - i,
    {
        proof {
            lemma_filter_step(group@, has_weight, i as int);
            lemma_filter_step(group@, has_none, i as int);
        }
        if group[i].weight == 0 {
            none.push(group[i].clone());
        } else {
            some.push(group[i].clone());
        }
        i += 1;
    }
    assert(group@.take(group.len() as int) == group@);
    (some, none)
}

/// Draws a number for each record of a group that has a positive weight.
fn draw_for_group(group: &Vec<SrvRecord>) -> (r: Vec<Draw>)
    requires
        total_weight(group@) <= u32::MAX,
    ensures
        group_draws_fit(group@, r@),
{
    let (mut rest, _) = split_by_weight(group);
    let ghost s = rest@;
    proof {
        lemma_total_filter(group@, |r: SrvRecord| r.weight != 0);
    }
    let mut draws: Vec<Draw> = Vec::new();
    while rest.len() > 0
        invariant
            s == weighted(group@),
            total_weight(rest@) <= u32::MAX,
            rest@ == left_after(s, draws@),
            draws_fit(s, draws@),
            draws@.len() + rest@.len() == s.len(),
        decreases rest.len(),
    {
        let ghost before = draws@;
        let ghost before_rest = rest@;
        let sum = sum_weights(&rest);
        let draw = draw_up_to(sum);
        take_weighted(&mut rest, draw);
        draws.push(draw);
        proof {
            lemma_total_remove(before_rest, pick_index(before_rest, draw.value as int));
            assert(draws@.drop_last() == before);
            assert forall|k: int| 0 <= k < draws@.len() implies (#[trigger] draws@[k]).value
                <= draws@[k].max && draws@[k].max == total_weight(
                left_after(s, draws@.take(k)),
            ) by {
                assert(draws@.take(k) == before.take(k));
                if k == before.len() {
                    assert(before.take(k) == before);
                } else {
                    assert(draws@[k] == before[k]);
                }
            }
        }
    }
    draws
}

/// Draws the numbers for all groups.
fn draw_for_groups(groups: &Vec<Vec<SrvRecord>>) -> (r: Vec<Vec<Draw>>)
    requires
        forall|k: int|
            0 <= k < groups@.len() ==> total_weight((#[trigger] groups@[k])@) <= u32::MAX,
    ensures
        groups_draws_fit(groups@, r@),
{
    let mut draws: Vec<Vec<Draw>> = Vec::new();
    while draws.len() < groups.len()
        invariant
            draws.len() <= groups.len(),
            forall|k: int|
                0 <= k < groups@.len() ==> total_weight((#[trigger] groups@[k])@) <= u32::MAX,
            forall|k: int|
                0 <= k < draws@.len() ==> group_draws_fit(
                    (#[trigger] groups@[k])@,
                    draws@[k]@,
                ),
        decreases groups.len() - draws.len(),
    {
        let k: usize = draws.len();
        assert(total_weight(groups@[k as int]@) <= u32::MAX);
        draws.push(draw_for_group(&groups[k]));
    }
    draws
}

/// Picks one record after the other by the numbers that were drawn.
pub fn order_by_draws(s: Vec<SrvRecord>, draws: &Vec<Draw>) -> (r: Vec<SrvRecord>)
    requires
        draws@.len() == s@.len(),
        draws_fit(s@, draws@),
    ensures
        r@ == drawn_by(s@, draws@),
{
    let ghost all = s@;
    let mut rest = s;
    let mut out: Vec<SrvRecord> = Vec::new();
    let mut k: usize = 0;
    assert(draws@.take(0) == Seq::<Draw>::empty());
    while k < draws.len()
        invariant
            k <= draws.len(),
            draws@.len() == all.len(),
            draws_fit(all, draws@),
            rest@ == left_after(all, draws@.take(k as int)),
            out@ == drawn_by(all, draws@.take(k as int)),
            rest@.len() + k == all.len(),
        decreases draws.len() - k,
    {
        assert(draws@[k as int].value <= draws@[k as int].max);
        let picked = take_weighted(&mut rest, draws[k]);
        out.push(picked);
        assert(draws@.take(k + 1).drop_last() == draws@.take(k as int));
        k += 1;
    }
    assert(draws@.take(draws.len() as int) == draws@);
    out
}

/// The order of a group of equal priority by the numbers that were drawn: records with a
/// positive weight as they are picked, then those without weight.
pub fn order_group(group: &Vec<SrvRecord>, draws: &Vec<Draw>) -> (r: Vec<SrvRecord>)
    requires
        group_draws_fit(group@, draws@),
    ensures
        r@ == group_by_draws(group@, draws@),
{
    let (some, mut none) = split_by_weight(group);
    let mut out = order_by_draws(some, draws);
    out.append(&mut none);
    out
}

/// The order of groups by the numbers that were drawn, one list for each group.
pub fn order_groups(groups: &Vec<Vec<SrvRecord>>, draws: &Vec<Vec<Draw>>) -> (r: Vec<SrvRecord>)
    requires
        groups_draws_fit(groups@, draws@),
    ensures
        r@ == groups_by_draws(groups@, draws@),
{
    let mut out: Vec<SrvRecord> = Vec::new();
    let mut k: usize = 0;
    assert(groups@.take(0) == Seq::<Vec<SrvRecord>>::empty());
    while k < groups.len()
        invariant
            k <= groups.len(),
            groups_draws_fit(groups@, draws@),
            out@ == groups_by_draws(groups@.take(k as int), draws@.take(k as int)),
        decreases groups.len() - k,
    {
        assert(group_draws_fit(groups@[k as int]@, draws@[k as int]@));
        let mut ordered = order_group(&groups[k], &draws[k]);
        out.append(&mut ordered);
        proof {
            assert(groups@.take(k + 1).drop_last() == groups@.take(k as int));
            assert(draws@.take(k + 1).drop_last() == draws@.take(k as int));
        }
        k += 1;
    }
    assert(groups@.take(groups.len() as int) == groups@);
    assert(draws@.take(draws.len() as int) == draws@);
    out
}

/// The records that were picked and those that are left are all records.
proof fn lemma_drawn(s: Seq<SrvRecord>, draws: Seq<Draw>)
    requires
        draws.len() <= s.len(),
        draws_fit(s, draws),
    ensures
        drawn_by(s, draws).len() == draws.len(),
        left_after(s, draws).len() == s.len() - draws.len(),
        drawn_by(s, draws).to_multiset().add(left_after(s, draws).to_multiset())
            == s.to_multiset(),
    decreases draws.len(),
{
    broadcast use vstd::seq_lib::group_to_multiset_ensures;

    if draws.len() == 0 {
        assert(drawn_by(s, draws).to_multiset()
            =~= vstd::multiset::Multiset::<SrvRecord>::empty());
        assert(drawn_by(s, draws).to_multiset().add(left_after(s, draws).to_multiset())
            =~= s.to_multiset());
    } else {
        let front = draws.drop_last();
        let last = draws.len() - 1;
        assert(draws.take(last) == front);
        assert(draws[last].value <= draws[last].max);
        assert forall|k: int| 0 <= k < front.len() implies (#[trigger] front[k]).value
            <= front[k].max && front[k].max == total_weight(left_after(s, front.take(k))) by {
            assert(front[k] == draws[k]);
            assert(front.take(k) == draws.take(k));
        }
        lemma_drawn(s, front);
        let left = left_after(s, front);
        let i = pick_index(left, draws[last].value as int);
        law_pick_by_weight(left, draws[last].value as int);
        assert(left.contains(left[i]));
        assert(drawn_by(s, draws).to_multiset().add(left_after(s, draws).to_multiset())
            =~= drawn_by(s, front).to_multiset().add(left.to_multiset()));
    }
}

/// Draws bring a group in order.
proof fn lemma_group_by_draws(group: Seq<SrvRecord>, draws: Seq<Draw>)
    requires
        group_draws_fit(group, draws),
    ensures
        is_group_order(group, group_by_draws(group, draws)),
{
    broadcast use vstd::seq_lib::group_to_multiset_ensures;

    let s = weighted(group);
    let drawn = drawn_by(s, draws);
    let ordered = group_by_draws(group, draws);
    lemma_drawn(s, draws);
    lemma_weights_partition(group);
    assert(left_after(s, draws) =~= Seq::<SrvRecord>::empty());
    assert(left_after(s, draws).to_multiset()
        =~= vstd::multiset::Multiset::<SrvRecord>::empty());
    assert(drawn.to_multiset() =~= s.to_multiset());
    assert(ordered.take(drawn.len() as int) =~= drawn);
    assert(ordered.skip(drawn.len() as int) =~= unweighted(group));
}

/// An ordered group holds the records of the group.
proof fn lemma_group_order_keeps(group: Seq<SrvRecord>, ordered: Seq<SrvRecord>)
    requires
        is_group_order(group, ordered),
    ensures
        ordered.to_multiset() == group.to_multiset(),
{
    let n = weighted(group).len() as int;
    lemma_weights_partition(group);
    assert(ordered == ordered.take(n) + ordered.skip(n));
    vstd::seq_lib::lemma_multiset_commutative(ordered.take(n), ordered.skip(n));
    assert(ordered.to_multiset() =~= group.to_multiset());
}

/// In an ordered group, a positive weight stands exactly at the first places.
proof fn lemma_group_order_weights(group: Seq<SrvRecord>, ordered: Seq<SrvRecord>)
    requires
        is_group_order(group, ordered),
    ensures
        forall|i: int|
            0 <= i < ordered.len() ==> ((#[trigger] ordered[i]).weight != 0 <==> i < weighted(
                group,
            ).len()),
{
    let n = weighted(group).len() as int;
    assert forall|i: int| 0 <= i < ordered.len() implies ((#[trigger] ordered[i]).weight != 0 <==> i
        < n) by {
        if i < n {
            assert(ordered.take(n)[i] == ordered[i]);
            lemma_same_elements(ordered.take(n), weighted(group), i);
            let j = choose|j: int|
                0 <= j < weighted(group).len() && weighted(group)[j] == ordered[i];
            group.lemma_filter_pred(|r: SrvRecord| r.weight != 0, j);
        } else {
            assert(ordered.skip(n)[i - n] == ordered[i]);
            group.lemma_filter_pred(|r: SrvRecord| r.weight == 0, i - n);
        }
    }
}

/// Ordering a group keeps the order of the records without weight.
proof fn lemma_group_order_unweighted(group: Seq<SrvRecord>, ordered: Seq<SrvRecord>)
    requires
        is_group_order(group, ordered),
    ensures
        unweighted(ordered) == unweighted(group),
{
    let n = weighted(group).len() as int;
    let has_none = |r: SrvRecord| r.weight == 0;
    lemma_group_order_weights(group, ordered);
    assert(ordered == ordered.take(n) + ordered.skip(n));
    Seq::filter_distributes_over_add(ordered.take(n), ordered.skip(n), has_none);
    lemma_filter_none(ordered.take(n), has_none);
    lemma_filter_all(ordered.skip(n), has_none);
    assert(unweighted(ordered) == unweighted(group));
}

/// Of two parts whose priorities differ, the records of a priority come from one.
proof fn lemma_of_priority_parts(a: Seq<SrvRecord>, b: Seq<SrvRecord>, priority: u16, p: u16)
    requires
        forall|i: int| 0 <= i < a.len() ==> (#[trigger] a[i]).priority < priority,
        forall|i: int| 0 <= i < b.len() ==> (#[trigger] b[i]).priority == priority,
    ensures
        of_priority(a + b, p) == if p == priority {
            b
        } else {
            of_priority(a, p)
        },
{
    let same = |r: SrvRecord| r.priority == p;
    Seq::filter_distributes_over_add(a, b, same);
    if p == priority {
        lemma_filter_all(b, same);
        lemma_filter_none(a, same);
        assert(a.filter(same) + b.filter(same) == b);
    } else {
        lemma_filter_none(b, same);
        assert(a.filter(same) + b.filter(same) == a.filter(same));
    }
}

/// An ordered group may follow what is in order already, if its priority is higher.
proof fn lemma_append_group(
    done: Seq<SrvRecord>,
    out: Seq<SrvRecord>,
    group: Seq<SrvRecord>,
    ordered: Seq<SrvRecord>,
    priority: u16,
)
    requires
        is_srv_order(done, out),
        is_group_order(group, ordered),
        forall|i: int| 0 <= i < group.len() ==> (#[trigger] group[i]).priority == priority,
        forall|i: int| 0 <= i < done.len() ==> (#[trigger] done[i]).priority < priority,
    ensures
        is_srv_order(done + group, out + ordered),
{
    let all = out + ordered;
    lemma_group_order_keeps(group, ordered);
    assert forall|i: int| 0 <= i < out.len() implies (#[trigger] out[i]).priority < priority by {
        lemma_same_elements(out, done, i);
    }
    assert forall|i: int| 0 <= i < ordered.len() implies (#[trigger] ordered[i]).priority
        == priority by {
        lemma_same_elements(ordered, group, i);
    }
    assert(all.to_multiset() == (done + group).to_multiset()) by {
        vstd::seq_lib::lemma_multiset_commutative(out, ordered);
        vstd::seq_lib::lemma_multiset_commutative(done, group);
    }
    assert(priorities_ascend(all)) by {
        assert forall|i: int, j: int| 0 <= i <= j < all.len() implies all[i].priority
            <= all[j].priority by {
            if j < out.len() {
                assert(all[i] == out[i] && all[j] == out[j]);
            } else {
                assert(all[j] == ordered[j - out.len()]);
                if i < out.len() {
                    assert(all[i] == out[i]);
                } else {
                    assert(all[i] == ordered[i - out.len()]);
                }
            }
        }
    }
    assert(weightless_last(all)) by {
        lemma_group_order_weights(group, ordered);
        assert forall|i: int, j: int|
            0 <= i < j < all.len() && all[i].priority == all[j].priority && all[j].weight
                != 0 implies all[i].weight != 0 by {
            if j < out.len() {
                assert(all[i] == out[i] && all[j] == out[j]);
            } else {
                assert(all[j] == ordered[j - out.len()]);
                if i < out.len() {
                    assert(all[i] == out[i]);
                } else {
                    assert(all[i] == ordered[i - out.len()]);
                }
            }
        }
    }
    assert forall|p: u16| #[trigger]
        unweighted(of_priority(all, p)) == unweighted(of_priority(done + group, p)) by {
        lemma_of_priority_parts(out, ordered, priority, p);
        lemma_of_priority_parts(done, group, priority, p);
        lemma_group_order_unweighted(group, ordered);
        assert(unweighted(of_priority(out, p)) == unweighted(of_priority(done, p)));
    }
}

/// The first groups hold the first records.
proof fn lemma_joined_prefix(groups: Seq<Vec<SrvRecord>>, k: int)
    requires
        0 <= k <= groups.len(),
    ensures
        joined(groups.take(k)).len() <= joined(groups).len(),
        joined(groups.take(k)) == joined(groups).take(joined(groups.take(k)).len() as int),
    decreases groups.len() - k,
{
    if k == groups.len() {
        assert(groups.take(k) == groups);
    } else {
        lemma_joined_prefix(groups, k + 1);
        assert(groups.take(k + 1).drop_last() == groups.take(k));
        let shorter = joined(groups.take(k));
        let longer = joined(groups.take(k + 1));
        assert(shorter == longer.take(shorter.len() as int));
    }
}

/// Among groups cut from sorted records, each has a higher priority than all before it.
proof fn lemma_group_is_next(s: Seq<SrvRecord>, groups: Seq<Vec<SrvRecord>>, k: int)
    requires
        priorities_ascend(s),
        is_cut_by_priority(s, groups),
        0 <= k < groups.len(),
    ensures
        forall|i: int|
            0 <= i < joined(groups.take(k)).len() ==> (#[trigger] joined(
                groups.take(k),
            )[i]).priority < groups[k]@[0].priority,
        joined(groups.take(k + 1)) == joined(groups.take(k)) + groups[k]@,
{
    let done = joined(groups.take(k));
    let group = groups[k]@;
    let p = group[0].priority;
    assert(groups.take(k + 1).drop_last() == groups.take(k));
    assert(joined(groups.take(k + 1)) == done + group);
    lemma_joined_prefix(groups, k + 1);
    let prefix = done + group;
    assert(forall|i: int| 0 <= i < prefix.len() ==> prefix[i] == s[i]);
    if k > 0 {
        let last = groups[k - 1]@;
        assert(groups.take(k).drop_last() == groups.take(k - 1));
        assert(done == joined(groups.take(k - 1)) + last);
        assert(done.last() == last[last.len() - 1]);
        assert(groups[k - 1]@[last.len() - 1].priority == last[0].priority);
        assert(s[done.len() - 1] == done.last());
        assert(s[done.len() as int] == group[0]);
        assert forall|i: int| 0 <= i < done.len() implies (#[trigger] done[i]).priority < p by {
            assert(prefix[i] == s[i]);
            assert(s[i].priority <= s[done.len() - 1].priority);
            assert(s[done.len() - 1].priority <= s[done.len() as int].priority);
        }
    } else {
        assert(groups.take(0) == Seq::<Vec<SrvRecord>>::empty());
    }
}

/// Among groups cut from sorted records, all that follows a group has a higher priority.
proof fn lemma_group_is_last(s: Seq<SrvRecord>, groups: Seq<Vec<SrvRecord>>, k: int)
    requires
        priorities_ascend(s),
        is_cut_by_priority(s, groups),
        0 <= k < groups.len(),
    ensures
        joined(groups.take(k + 1)).len() <= s.len(),
        joined(groups.take(k + 1)) == s.take(joined(groups.take(k + 1)).len() as int),
        forall|i: int|
            joined(groups.take(k + 1)).len() <= i < s.len() ==> (#[trigger] s[i]).priority
                > groups[k]@[0].priority,
{
    let n = joined(groups.take(k + 1)).len() as int;
    lemma_joined_prefix(groups, k + 1);
    if k + 1 == groups.len() {
        assert(groups.take(k + 1) == groups);
    } else {
        let next = groups[k + 1]@;
        lemma_joined_prefix(groups, k + 2);
        lemma_group_is_next(s, groups, k);
        lemma_group_is_next(s, groups, k + 1);
        let done = joined(groups.take(k + 1));
        assert(done[n - groups[k]@.len()] == groups[k]@[0]);
        assert((done + next)[n] == next[0]);
        assert(s[n] == next[0]);
        assert forall|i: int| n <= i < s.len() implies (#[trigger] s[i]).priority
            > groups[k]@[0].priority by {
            assert(s[n].priority <= s[i].priority);
        }
    }
}

/// The records of a priority stand between those of lower and of higher ones.
proof fn lemma_of_priority_between(
    s: Seq<SrvRecord>,
    lower: Seq<SrvRecord>,
    group: Seq<SrvRecord>,
    p: u16,
)
    requires
        lower.len() + group.len() <= s.len(),
        lower + group == s.take((lower.len() + group.len()) as int),
        forall|i: int| 0 <= i < lower.len() ==> (#[trigger] lower[i]).priority < p,
        forall|i: int| 0 <= i < group.len() ==> (#[trigger] group[i]).priority == p,
        forall|i: int|
            lower.len() + group.len() <= i < s.len() ==> (#[trigger] s[i]).priority > p,
    ensures
        of_priority(s, p) == group,
{
    let n = (lower.len() + group.len()) as int;
    let after = s.skip(n);
    let same = |r: SrvRecord| r.priority == p;
    lemma_of_priority_parts(lower, group, p, p);
    assert forall|i: int| 0 <= i < after.len() implies !same(#[trigger] after[i]) by {
        assert(after[i] == s[n + i]);
    }
    lemma_filter_none(after, same);
    assert(s == s.take(n) + after);
    Seq::filter_distributes_over_add(s.take(n), after, same);
    assert(group + after.filter(same) =~= group);
}

/// Among groups cut from sorted records, each holds all records of its priority.
proof fn lemma_group_is_whole(s: Seq<SrvRecord>, groups: Seq<Vec<SrvRecord>>, k: int)
    requires
        priorities_ascend(s),
        is_cut_by_priority(s, groups),
        0 <= k < groups.len(),
    ensures
        groups[k]@ == of_priority(s, groups[k]@[0].priority),
{
    let group = groups[k]@;
    let p = group[0].priority;
    lemma_group_is_next(s, groups, k);
    lemma_group_is_last(s, groups, k);
    assert forall|i: int| 0 <= i < group.len() implies (#[trigger] group[i]).priority == p by {
        assert(groups[k]@[i].priority == groups[k]@[0].priority);
    }
    lemma_of_priority_between(s, joined(groups.take(k)), group, p);
}

proof fn lemma_groups_by_draws(
    s: Seq<SrvRecord>,
    groups: Seq<Vec<SrvRecord>>,
    draws: Seq<Vec<Draw>>,
    k: int,
)
    requires
        priorities_ascend(s),
        is_cut_by_priority(s, groups),
        groups_draws_fit(groups, draws),
        0 <= k <= groups.len(),
    ensures
        is_srv_order(
            joined(groups.take(k)),
            groups_by_draws(groups.take(k), draws.take(k)),
        ),
    decreases k,
{
    if k > 0 {
        let group = groups[k - 1]@;
        let p = group[0].priority;
        lemma_groups_by_draws(s, groups, draws, k - 1);
        lemma_group_is_next(s, groups, k - 1);
        assert(groups.take(k).drop_last() == groups.take(k - 1));
        assert(draws.take(k).drop_last() == draws.take(k - 1));
        assert forall|i: int| 0 <= i < group.len() implies (#[trigger] group[i]).priority == p by {
            assert(groups[k - 1]@[i].priority == groups[k - 1]@[0].priority);
        }
        assert(group_draws_fit(groups[k - 1]@, draws[k - 1]@));
        lemma_group_by_draws(group, draws[k - 1]@);
        lemma_append_group(
            joined(groups.take(k - 1)),
            groups_by_draws(groups.take(k - 1), draws.take(k - 1)),
            group,
            group_by_draws(group, draws[k - 1]@),
            p,
        );
    }
}

/// Whatever is drawn, every record is used once, lower priorities come first, and within
/// a priority the records without weight come last.
pub proof fn law_draws_give_an_order(
    records: Seq<SrvRecord>,
    groups: Seq<Vec<SrvRecord>>,
    draws: Seq<Vec<Draw>>,
)
    requires
        is_grouped(records, groups),
        groups_draws_fit(groups, draws),
    ensures
        is_srv_order(records, groups_by_draws(groups, draws)),
{
    let s = joined(groups);
    let out = groups_by_draws(groups, draws);
    lemma_groups_by_draws(s, groups, draws, groups.len() as int);
    assert(groups.take(groups.len() as int) == groups);
    assert(draws.take(draws.len() as int) == draws);
    assert forall|p: u16| #[trigger]
        unweighted(of_priority(out, p)) == unweighted(of_priority(records, p)) by {
        assert(of_priority(s, p) == of_priority(records, p));
        assert(unweighted(of_priority(out, p)) == unweighted(of_priority(s, p)));
    }
}

/// A group holds all records of its priority, wherever they stood.
pub proof fn law_group_holds_its_priority(
    records: Seq<SrvRecord>,
    groups: Seq<Vec<SrvRecord>>,
    k: int,
)
    requires
        is_grouped(records, groups),
        0 <= k < groups.len(),
    ensures
        groups[k]@.len() > 0,
        groups[k]@ == of_priority(records, groups[k]@[0].priority),
{
    let s = joined(groups);
    let p = groups[k]@[0].priority;
    lemma_group_is_whole(s, groups, k);
    assert(of_priority(s, p) == of_priority(records, p));
}

/// The record that is picked first in a group stands in front of the group, in front of
/// all that are picked later.
pub proof fn law_first_pick_comes_first(group: Seq<SrvRecord>, draws: Seq<Draw>)
    requires
        group_draws_fit(group, draws),
        draws.len() > 0,
    ensures
        group_by_draws(group, draws)[0] == weighted(group)[pick_index(
            weighted(group),
            draws[0].value as int,
        )],
{
    lemma_first_drawn(weighted(group), draws);
}

proof fn lemma_first_drawn(s: Seq<SrvRecord>, draws: Seq<Draw>)
    requires
        draws.len() > 0,
    ensures
        drawn_by(s, draws).len() == draws.len(),
        drawn_by(s, draws)[0] == s[pick_index(s, draws[0].value as int)],
    decreases draws.len(),
{
    let front = draws.drop_last();
    if front.len() > 0 {
        lemma_first_drawn(s, front);
    } else {
        assert(drawn_by(s, front) == Seq::<SrvRecord>::empty());
        assert(left_after(s, front) == s);
    }
}

/// The records by ascending priority, in groups of equal priority.
pub fn group_by_priority(srvs: &[SrvRecord]) -> (r: Vec<Vec<SrvRecord>>)
    ensures
        is_grouped(srvs@, r@),
{
    let mut records: Vec<SrvRecord> = Vec::new();
    let mut i: usize = 0;
    while i < srvs.len()
        invariant
            i <= srvs.len(),
            records@ == srvs@.take(i as int),
        decreases srvs.len() - i,
    {
        records.push(srvs[i].clone());
        i += 1;
    }
    assert(records@ == srvs@);
    chunked_by_priority(sorted_by_priority(records))
}

/// The order in which the targets of SRV records are tried, by RFC 2782: lower
/// priorities first; within a priority, records are picked at random by weight; records
/// without weight come after all with a positive weight, but are still used.
pub fn order_srv_by_priority_weight(srvs: &[SrvRecord]) -> (r: Vec<SrvRecord>)
    requires
        weights_fit(srvs@),
    ensures
        is_srv_order(srvs@, r@),
{
    let groups = group_by_priority(srvs);
    proof {
        assert forall|k: int| 0 <= k < groups@.len() implies total_weight(
            (#[trigger] groups@[k])@,
        ) <= u32::MAX by {
            law_group_holds_its_priority(srvs@, groups@, k);
            assert(total_weight(of_priority(srvs@, groups@[k]@[0].priority)) <= u32::MAX);
        }
    }
    let draws = draw_for_groups(&groups);
    proof {
        law_draws_give_an_order(srvs@, groups@, draws@);
    }
    order_groups(&groups, &draws)
}

/// Whether the weights of each priority add up to a `u32`.
pub fn srv_weights_fit(srvs: &[SrvRecord]) -> (r: bool)
    ensures
        r == weights_fit(srvs@),
{
    let mut i: usize = 0;
    while i < srvs.len()
        invariant
            i <= srvs.len(),
            forall|m: int|
                0 <= m < i ==> total_weight(
                    of_priority(srvs@, (#[trigger] srvs@[m]).priority),
                ) <= u32::MAX,
        decreases srvs.len() - i,
    {
        let priority = srvs[i].priority;
        let ghost same = |r: SrvRecord| r.priority == priority;
        let mut sum: u64 = 0;
        let mut j: usize = 0;
        assert(srvs@.take(0) == Seq::<SrvRecord>::empty());
        while j < srvs.len()
            invariant
                j <= srvs.len(),
                same == (|r: SrvRecord| r.priority == priority),
                sum == total_weight(srvs@.take(j as int).filter(same)),
                sum <= u32::MAX,
            decreases srvs.len() - j,
        {
            proof {
                lemma_filter_step(srvs@, same, j as int);
            }
            if srvs[j].priority == priority {
                proof {
                    let kept = srvs@.take(j as int).filter(same);
                    assert(kept.push(srvs@[j as int]).drop_last() == kept);
                }
                sum = sum + srvs[j].weight as u64;
                if sum > u32::MAX as u64 {
                    proof {
                        let n = j + 1;
                        assert(srvs@ == srvs@.take(n) + srvs@.skip(n));
                        Seq::filter_distributes_over_add(srvs@.take(n), srvs@.skip(n), same);
                        lemma_total_add(srvs@.take(n).filter(same), srvs@.skip(n).filter(same));
                        lemma_total_nonnegative(srvs@.skip(n).filter(same));
                        assert(total_weight(of_priority(srvs@, priority)) > u32::MAX);
                    }
                    return false;
                }
            }
            j += 1;
        }
        assert(srvs@.take(srvs.len() as int) == srvs@);
        i += 1;
    }
    proof {
        assert forall|p: u16| #[trigger] total_weight(of_priority(srvs@, p)) <= u32::MAX by {
            if exists|m: int| 0 <= m < srvs@.len() && (#[trigger] srvs@[m]).priority == p {
                let m = choose|m: int| 0 <= m < srvs@.len() && (#[trigger] srvs@[m]).priority == p;
                assert(total_weight(of_priority(srvs@, srvs@[m].priority)) <= u32::MAX);
            } else {
                lemma_filter_none(srvs@, |r: SrvRecord| r.priority == p);
                assert(total_weight(Seq::<SrvRecord>::empty()) == 0);
            }
        }
    }
    true
}

/// Each record adds its weight.
pub proof fn law_weights_add_up(s: Seq<SrvRecord>, r: SrvRecord)
    ensures
        total_weight(Seq::empty()) == 0,
        total_weight(s.push(r)) == total_weight(s) + r.weight,
{
    assert(s.push(r).drop_last() == s);
}

/// A record is among those of its priority, and among those with a weight if and only if
/// its weight is not 0. All keep their order.
pub proof fn law_records_are_told_apart(s: Seq<SrvRecord>, r: SrvRecord, p: u16)
    ensures
        of_priority(Seq::empty(), p) == Seq::<SrvRecord>::empty(),
        weighted(Seq::empty()) == Seq::<SrvRecord>::empty(),
        unweighted(Seq::empty()) == Seq::<SrvRecord>::empty(),
        r.priority == p ==> of_priority(s.push(r), p) == of_priority(s, p).push(r),
        r.priority != p ==> of_priority(s.push(r), p) == of_priority(s, p),
        r.weight > 0 ==> weighted(s.push(r)) == weighted(s).push(r),
        r.weight == 0 ==> weighted(s.push(r)) == weighted(s),
        r.weight == 0 ==> unweighted(s.push(r)) == unweighted(s).push(r),
        r.weight > 0 ==> unweighted(s.push(r)) == unweighted(s),
{
    reveal(Seq::filter);
    assert(s.push(r).drop_last() == s);
}

/// A draw picks a record if and only if it is larger than the weights in front of the record
/// together, and no larger than these and its own weight. The first record is picked by 0
/// too.
pub proof fn law_draw_falls_on_a_weight(
    front: Seq<SrvRecord>,
    r: SrvRecord,
    behind: Seq<SrvRecord>,
    draw: int,
)
    requires
        0 <= draw <= total_weight(front + seq![r] + behind),
    ensures
        pick_index(front + seq![r] + behind, draw) == front.len() <==> ((front.len() == 0
            || total_weight(front) < draw) && draw <= total_weight(front) + r.weight),
{
    let s = front + seq![r] + behind;
    let n = front.len() as int;
    let i = pick_index(s, draw);
    law_pick_by_weight(s, draw);
    assert(s.take(n) =~= front);
    assert(s.take(n + 1) =~= front.push(r));
    law_weights_add_up(front, r);
    assert(total_weight(front) >= 0) by {
        lemma_total_nonnegative(front);
    }
    if n == 0 {
        assert(total_weight(front) == 0);
    }
    if i < n {
        lemma_total_take(s.take(n), i + 1);
        assert(s.take(n).take(i + 1) =~= s.take(i + 1));
    }
    if i > n {
        lemma_total_take(s.take(i), n + 1);
        assert(s.take(i).take(n + 1) =~= s.take(n + 1));
    }
}

proof fn lemma_left_after_first(s: Seq<SrvRecord>, draw: Draw, rest: Seq<Draw>)
    ensures
        left_after(s, seq![draw] + rest) == left_after(
            s.remove(pick_index(s, draw.value as int)),
            rest,
        ),
        drawn_by(s, seq![draw] + rest) == seq![s[pick_index(s, draw.value as int)]] + drawn_by(
            s.remove(pick_index(s, draw.value as int)),
            rest,
        ),
    decreases rest.len(),
{
    let all = seq![draw] + rest;
    let i = pick_index(s, draw.value as int);
    if rest.len() == 0 {
        assert(all.drop_last() =~= Seq::<Draw>::empty());
        assert(all.last() == draw);
        assert(left_after(s, all.drop_last()) == s);
        assert(drawn_by(s, all.drop_last()) == Seq::<SrvRecord>::empty());
        assert(drawn_by(s.remove(i), rest) == Seq::<SrvRecord>::empty());
        assert(drawn_by(s, all) =~= seq![s[i]] + drawn_by(s.remove(i), rest));
    } else {
        lemma_left_after_first(s, draw, rest.drop_last());
        assert(all.drop_last() =~= seq![draw] + rest.drop_last());
        assert(all.last() == rest.last());
        assert(drawn_by(s, all) =~= seq![s[i]] + drawn_by(s.remove(i), rest));
    }
}

/// The first draw, from 0 up to the sum of all weights, picks the record that comes first;
/// the others pick from what it leaves, by the same rule.
pub proof fn law_picks_follow_each_other(s: Seq<SrvRecord>, draw: Draw, rest: Seq<Draw>)
    ensures
        drawn_by(s, Seq::empty()) == Seq::<SrvRecord>::empty(),
        drawn_by(s, seq![draw] + rest) == seq![s[pick_index(s, draw.value as int)]] + drawn_by(
            s.remove(pick_index(s, draw.value as int)),
            rest,
        ),
        draws_fit(s, Seq::empty()),
        draws_fit(s, seq![draw] + rest) <==> (draw.max == total_weight(s) && draw.value <= draw.max
            && draws_fit(s.remove(pick_index(s, draw.value as int)), rest)),
{
    let all = seq![draw] + rest;
    let left = s.remove(pick_index(s, draw.value as int));
    lemma_left_after_first(s, draw, rest);
    assert(all.take(0) =~= Seq::<Draw>::empty());
    assert(all[0] == draw);
    assert forall|k: int| 0 <= k < rest.len() implies left_after(s, all.take(k + 1)) == left_after(
        left,
        #[trigger] rest.take(k),
    ) && all[k + 1] == rest[k] by {
        assert(all.take(k + 1) =~= seq![draw] + rest.take(k));
        lemma_left_after_first(s, draw, rest.take(k));
    }
    if draws_fit(s, all) {
        assert(all[0].max == total_weight(left_after(s, all.take(0))));
        assert forall|k: int| 0 <= k < rest.len() implies (#[trigger] rest[k]).value <= rest[k].max
            && rest[k].max == total_weight(left_after(left, rest.take(k))) by {
            assert(left_after(s, all.take(k + 1)) == left_after(left, rest.take(k)));
            assert(all[k + 1].max == total_weight(left_after(s, all.take(k + 1))));
        }
    }
    if draw.max == total_weight(s) && draw.value <= draw.max && draws_fit(left, rest) {
        assert forall|k: int| 0 <= k < all.len() implies (#[trigger] all[k]).value <= all[k].max
            && all[k].max == total_weight(left_after(s, all.take(k))) by {
            if k > 0 {
                assert(rest[k - 1].max == total_weight(left_after(left, rest.take(k - 1))));
                assert(all.take(k) == all.take(k - 1 + 1));
            }
        }
    }
}

/// The records of a group that have a weight come first, as they are drawn, and those
/// without follow in their order. There is a draw for each of the former, whatever it is.
pub proof fn law_weightless_records_follow(group: Seq<SrvRecord>, draws: Seq<Draw>, i: int)
    requires
        group_draws_fit(group, draws),
        0 <= i < group.len(),
    ensures
        draws.len() == weighted(group).len(),
        group_by_draws(group, draws).len() == group.len(),
        group_by_draws(group, draws) == drawn_by(weighted(group), draws) + unweighted(group),
        group_by_draws(group, draws)[i].weight > 0 <==> i < draws.len(),
        forall|other: Seq<Draw>|
            other.len() == draws.len() && #[trigger] draws_fit(weighted(group), other)
                ==> group_draws_fit(group, other),
{
    lemma_group_by_draws(group, draws);
    lemma_group_order_weights(group, group_by_draws(group, draws));
}

/// Groups are ordered one by one and follow each other.
pub proof fn law_groups_follow_each_other(
    groups: Seq<Vec<SrvRecord>>,
    draws: Seq<Vec<Draw>>,
    group: Vec<SrvRecord>,
    more: Vec<Draw>,
)
    ensures
        groups_by_draws(Seq::empty(), draws) == Seq::<SrvRecord>::empty(),
        groups_by_draws(groups.push(group), draws.push(more)) == groups_by_draws(groups, draws)
            + group_by_draws(group@, more@),
        joined(Seq::empty()) == Seq::<SrvRecord>::empty(),
        joined(groups.push(group)) == joined(groups) + group@,
        groups_draws_fit(groups.push(group), draws.push(more)) <==> (groups_draws_fit(groups, draws)
            && group_draws_fit(group@, more@)),
{
    let gs = groups.push(group);
    let ds = draws.push(more);
    assert(gs.drop_last() == groups);
    assert(ds.drop_last() == draws);
    if groups_draws_fit(gs, ds) {
        assert(group_draws_fit(gs[groups.len() as int]@, ds[groups.len() as int]@));
        assert forall|k: int| 0 <= k < groups.len() implies group_draws_fit(
            (#[trigger] groups[k])@,
            draws[k]@,
        ) by {
            assert(group_draws_fit(gs[k]@, ds[k]@));
        }
    }
}

/// Groups go by ascending priority, all records of a group have the same, and the groups
/// together hold all records.
pub proof fn law_groups_ascend(
    records: Seq<SrvRecord>,
    groups: Seq<Vec<SrvRecord>>,
    j: int,
    k: int,
    i: int,
)
    requires
        is_grouped(records, groups),
        0 <= j < k < groups.len(),
        0 <= i < groups[k]@.len(),
    ensures
        groups[j]@[0].priority < groups[k]@[i].priority,
        groups[k]@[i].priority == groups[k]@[0].priority,
        joined(groups).to_multiset() == records.to_multiset(),
{
    let s = joined(groups);
    lemma_group_is_next(s, groups, j);
    lemma_group_is_next(s, groups, k);
    let done = joined(groups.take(k));
    let upto = joined(groups.take(j + 1));
    let at = joined(groups.take(j)).len() as int;
    lemma_joined_prefix(groups.take(k), j + 1);
    assert(groups.take(k).take(j + 1) =~= groups.take(j + 1));
    assert(upto[at] == groups[j]@[0]);
    assert(done[at] == upto[at]);
    assert(groups[k]@[i].priority == groups[k]@[0].priority);
}

/// In an order of records, lower priorities come first, and within a priority nothing with a
/// weight follows what has none. The records of a priority without weight keep their order.
pub proof fn law_order_of_records(
    records: Seq<SrvRecord>,
    out: Seq<SrvRecord>,
    i: int,
    j: int,
    p: u16,
)
    requires
        is_srv_order(records, out),
        0 <= i < j < out.len(),
    ensures
        out[i].priority <= out[j].priority,
        out[i].priority == out[j].priority && out[i].weight == 0 ==> out[j].weight == 0,
        unweighted(of_priority(out, p)) == unweighted(of_priority(records, p)),
        out.to_multiset() == records.to_multiset(),
{
}

/// Weights fit if all of them together do, and they do not if those of one priority do not.
pub proof fn law_weights_that_fit(s: Seq<SrvRecord>, p: u16)
    ensures
        total_weight(s) <= 0xffff_ffff ==> weights_fit(s),
        total_weight(of_priority(s, p)) > 0xffff_ffff ==> !weights_fit(s),
{
    assert forall|p: u16| total_weight(#[trigger] of_priority(s, p)) <= total_weight(s) by {
        lemma_total_filter(s, |r: SrvRecord| r.priority == p);
    }
}

} // verus!
