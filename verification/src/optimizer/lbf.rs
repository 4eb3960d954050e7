//! The left-bottom-fill heuristic that builds an initial placement.
//!
//! Every copy of every item is placed in turn, the largest items first. Where no collision-free
//! place is found the strip is widened, up to a limit. The search for a place and the layout itself
//! are the caller's: [`Construction`] says which item comes next and what to do with the best sample.
use crate::scalar::{
    at_least, can_total, exact_arithmetic, law_total_is_exact, lemma_can_total_prefix, number, ordered_by,
    product, total, weighted_total, Scalar,
};
use crate::text::{decimal, push_decimal};
use itertools::Itertools;
use jagua_rs::probs::spp::entities::{SPInstance, SPProblem};
use rand::rngs::Xoshiro256PlusPlus;
use std::cmp::Reverse;
use vstd::prelude::*;
use vstd::std_specs::ops::MulSpec;

verus! {

/// A strip packing instance of the `jagua-rs` crate.
#[verifier::external_type_specification]
#[verifier::external_body]
pub struct ExSPInstance(SPInstance);

/// A strip packing problem of the `jagua-rs` crate.
#[verifier::external_type_specification]
#[verifier::external_body]
pub struct ExSPProblem(SPProblem);

/// How many copies of each item an instance asks for, by item id.
pub uninterp spec fn item_quantities(instance: SPInstance) -> Seq<usize>;

/// Reads the quantities in the field `items` of a `SPInstance`. Trusted: the list holds the quantity of every item.
#[verifier::external_body]
fn instance_quantities(instance: &SPInstance) -> (quantities: Vec<usize>)
    ensures
        quantities@ == item_quantities(*instance),
{
    instance.items.iter().map(|(_, quantity)| *quantity).collect()
}

/// How many copies of each item a problem has yet to place, by item id.
pub uninterp spec fn demand(prob: SPProblem) -> Seq<usize>;

/// Reads the field `item_demand_qtys` of a `SPProblem`. Trusted: the copy holds what the field holds.
#[verifier::external_body]
fn item_demand_qtys(prob: &SPProblem) -> (quantities: Vec<usize>)
    ensures
        quantities@ == demand(*prob),
{
    prob.item_demand_qtys.clone()
}

/// The initial-placement heuristic could not construct a solution.
/// This is not a proof that the instance is infeasible.
#[derive(Clone, Copy, Debug, PartialEq, Eq, Structural)]
pub struct ConstructionError {
    pub item_id: usize,
}

impl ConstructionError {
    /// The error in words.
    pub fn message(&self) -> (text: String)
        ensures
            text@ == "could not construct an initial placement for item "@ + decimal(
                self.item_id as nat,
            ),
    {
        let mut text = "could not construct an initial placement for item ".to_string();
        push_decimal(&mut text, self.item_id);
        text
    }
}

/// The measure by which items are ordered: hull area times diameter.
pub fn item_size<S: Scalar>(convex_hull_area: S, diameter: S) -> (size: S)
    requires
        convex_hull_area.mul_req(diameter),
    ensures
        product(convex_hull_area, diameter, size),
{
    convex_hull_area * diameter
}

/// The rank of a size, given as the bits of an IEEE 754 single. The bits are a sign and a magnitude
/// that grows with the number, so the rank is the signed magnitude: both zeros have rank 0,
/// and what is not a number ranks above everything, infinity included.
pub open spec fn rank_of(bits: u32) -> int {
    let magnitude = bits % 0x8000_0000;
    if magnitude > 0x7f80_0000 {
        0x8000_0000
    } else if bits < 0x8000_0000 {
        magnitude as int
    } else {
        -magnitude
    }
}

/// The rank of a size, given as the bits of an IEEE 754 single.
pub fn size_rank(bits: u32) -> (rank: i64)
    ensures
        rank == rank_of(bits),
{
    let magnitude: u32 = bits % 0x8000_0000;
    if magnitude > 0x7f80_0000 {
        0x8000_0000
    } else if bits < 0x8000_0000 {
        magnitude as i64
    } else {
        -(magnitude as i64)
    }
}

/// `order` lists the indices of `ranks`, those of higher rank first and those of equal rank
/// by index.
pub open spec fn descending(ranks: Seq<i64>, order: Seq<usize>) -> bool {
    &&& order.len() == ranks.len()
    &&& forall|i: int| 0 <= i < order.len() ==> 0 <= #[trigger] order[i] < ranks.len()
    &&& forall|id: usize| id < ranks.len() ==> #[trigger] order.contains(id)
    &&& forall|i: int, j: int|
        #![trigger order[i], order[j]]
        0 <= i < j < order.len() ==> ranks[order[i] as int] > ranks[order[j] as int] || (
        ranks[order[i] as int] == ranks[order[j] as int] && order[i] < order[j])
}

/// Calls `Itertools::sorted_by_cached_key` on the indices of `ranks`, with the reversed rank
/// as the key. Trusted: the indices come back sorted by key, all of them, and the sort is stable.
#[verifier::external_body]
fn sorted_by_rank(ranks: &Vec<i64>) -> (order: Vec<usize>)
    ensures
        descending(ranks@, order@),
{
    (0..ranks.len()).sorted_by_cached_key(|id| Reverse(ranks[*id])).collect()
}

/// Ranks order sizes as numbers do. Not below zero, a number grows with its bits; below zero, it falls with them; both
/// zeros are the same; and what is not a number is above all that are, infinity included, and the same as anything else
/// that is not one.
pub proof fn law_rank_grows_with_the_size(a: u32, b: u32)
    ensures
        a < b <= 0x7f80_0000 ==> rank_of(a) < rank_of(b),
        0x8000_0000 <= a < b <= 0xff80_0000 ==> rank_of(a) > rank_of(b),
        0x8000_0000 < a <= 0xff80_0000 && b <= 0x7f80_0000 ==> rank_of(a) < rank_of(b),
        rank_of(0x8000_0000) == rank_of(0),
        a <= 0x7f80_0000 && (0x7f80_0000 < b < 0x8000_0000 || 0xff80_0000 < b) ==> rank_of(a)
            < rank_of(b),
        0x8000_0000 <= a <= 0xff80_0000 && (0x7f80_0000 < b < 0x8000_0000 || 0xff80_0000 < b)
            ==> rank_of(a) < rank_of(b),
        (0x7f80_0000 < a < 0x8000_0000 || 0xff80_0000 < a) && (0x7f80_0000 < b < 0x8000_0000
            || 0xff80_0000 < b) ==> rank_of(a) == rank_of(b),
{
}

/// The ranks of sizes.
pub open spec fn ranks_of(sizes: Seq<u32>) -> Seq<i64> {
    sizes.map_values(|bits: u32| rank_of(bits) as i64)
}

/// Each index of `order`, as many times as `quantities` says.
pub open spec fn repeated(order: Seq<usize>, quantities: Seq<usize>) -> Seq<usize>
    decreases order.len(),
{
    if order.len() == 0 {
        Seq::empty()
    } else {
        repeated(order.drop_last(), quantities) + Seq::new(
            quantities[order.last() as int] as nat,
            |i: int| order.last(),
        )
    }
}

/// `queue` holds every item as many times as it is demanded, the copies of larger items first
/// and items of equal size by id.
pub open spec fn placing_queue(sizes: Seq<u32>, quantities: Seq<usize>, queue: Seq<usize>) -> bool {
    exists|order: Seq<usize>| #[trigger]
        descending(ranks_of(sizes), order) && queue == repeated(order, quantities)
}

/// The ids of the items to place, one for each copy, in the order of placing.
pub fn placing_order(sizes: &Vec<u32>, quantities: &Vec<usize>) -> (queue: Vec<usize>)
    requires
        sizes.len() <= quantities.len(),
    ensures
        placing_queue(sizes@, quantities@, queue@),
{
    let mut ranks: Vec<i64> = Vec::new();
    let mut i: usize = 0;
    while i < sizes.len()
        invariant
            i <= sizes.len(),
            ranks@ == ranks_of(sizes@.take(i as int)),
        decreases sizes.len() - i,
    {
        ranks.push(size_rank(sizes[i]));
        i += 1;
        assert(ranks@ =~= ranks_of(sizes@.take(i as int)));
    }
    assert(sizes@.take(i as int) == sizes@);
    let order = sorted_by_rank(&ranks);

    let mut queue: Vec<usize> = Vec::new();
    let mut k: usize = 0;
    while k < order.len()
        invariant
            k <= order.len(),
            sizes.len() <= quantities.len(),
            descending(ranks_of(sizes@), order@),
            queue@ == repeated(order@.take(k as int), quantities@),
        decreases order.len() - k,
    {
        let id = order[k];
        let ghost before = queue@;
        let quantity = quantities[id];
        let mut copies: usize = 0;
        while copies < quantity
            invariant
                copies <= quantity,
                queue@ == before + Seq::new(copies as nat, |i: int| id),
            decreases quantity - copies,
        {
            queue.push(id);
            copies += 1;
            assert(queue@ =~= before + Seq::new(copies as nat, |i: int| id));
        }
        proof {
            assert(order@.take(k + 1).drop_last() == order@.take(k as int));
            assert(queue@ =~= repeated(order@.take(k + 1), quantities@));
        }
        k += 1;
    }
    proof {
        assert(order@.take(k as int) == order@);
        assert(descending(ranks_of(sizes@), order@));
    }
    queue
}

/// How often `id` occurs in a queue.
pub open spec fn copies_of(queue: Seq<usize>, id: usize) -> nat
    decreases queue.len(),
{
    if queue.len() == 0 {
        0
    } else {
        copies_of(queue.drop_last(), id) + if queue.last() == id {
            1nat
        } else {
            0nat
        }
    }
}

proof fn lemma_copies_of_joined(a: Seq<usize>, b: Seq<usize>, id: usize)
    ensures
        copies_of(a + b, id) == copies_of(a, id) + copies_of(b, id),
    decreases b.len(),
{
    if b.len() == 0 {
        assert(a + b == a);
    } else {
        assert((a + b).drop_last() == a + b.drop_last());
        lemma_copies_of_joined(a, b.drop_last(), id);
    }
}

proof fn lemma_copies_of_same(n: nat, x: usize, id: usize)
    ensures
        copies_of(Seq::new(n, |i: int| x), id) == if x == id {
            n
        } else {
            0
        },
    decreases n,
{
    if n > 0 {
        let shorter = (n - 1) as nat;
        assert(Seq::new(n, |i: int| x).drop_last() == Seq::new(shorter, |i: int| x));
        lemma_copies_of_same(shorter, x, id);
    }
}

proof fn lemma_copies_are_counted(queue: Seq<usize>, id: usize)
    ensures
        copies_of(queue, id) == queue.to_multiset().count(id),
    decreases queue.len(),
{
    broadcast use vstd::seq_lib::group_to_multiset_ensures;

    if queue.len() > 0 {
        let rest = queue.drop_last();
        assert(rest.push(queue.last()) == queue);
        lemma_copies_are_counted(rest, id);
    }
}

/// If the elements of `order` differ, each is repeated as often as its quantity says.
proof fn lemma_copies_of_repeated(order: Seq<usize>, quantities: Seq<usize>, id: usize)
    requires
        forall|i: int, j: int| 0 <= i < j < order.len() ==> order[i] != order[j],
    ensures
        copies_of(repeated(order, quantities), id) == if order.contains(id) {
            quantities[id as int] as nat
        } else {
            0
        },
    decreases order.len(),
{
    if order.len() > 0 {
        let before = order.drop_last();
        let block = Seq::new(quantities[order.last() as int] as nat, |i: int| order.last());
        lemma_copies_of_repeated(before, quantities, id);
        lemma_copies_of_joined(repeated(before, quantities), block, id);
        lemma_copies_of_same(quantities[order.last() as int] as nat, order.last(), id);
        if order.last() == id {
            assert(order[order.len() - 1] == id);
            if before.contains(id) {
                let i = choose|i: int| 0 <= i < before.len() && before[i] == id;
                assert(order[i] == order[order.len() - 1]);
            }
        } else if order.contains(id) {
            let i = choose|i: int| 0 <= i < order.len() && order[i] == id;
            assert(before[i] == id);
        } else if before.contains(id) {
            let i = choose|i: int| 0 <= i < before.len() && before[i] == id;
            assert(order[i] == id);
        }
    }
}

/// Each element of `repeated` stands in `order`, and earlier elements stand no later there.
proof fn lemma_repeated_follows_order(
    order: Seq<usize>,
    quantities: Seq<usize>,
    i: int,
    j: int,
) -> (at: (int, int))
    requires
        0 <= i <= j < repeated(order, quantities).len(),
    ensures
        0 <= at.0 <= at.1 < order.len(),
        repeated(order, quantities)[i] == order[at.0],
        repeated(order, quantities)[j] == order[at.1],
    decreases order.len(),
{
    let before = repeated(order.drop_last(), quantities);
    if j < before.len() {
        lemma_repeated_follows_order(order.drop_last(), quantities, i, j)
    } else if i < before.len() {
        let at = lemma_repeated_follows_order(order.drop_last(), quantities, i, i);
        (at.0, order.len() - 1)
    } else {
        (order.len() - 1, order.len() - 1)
    }
}

/// The queue is complete: it names items only, and each item as often as it is demanded.
pub proof fn law_every_copy_is_queued(sizes: Seq<u32>, quantities: Seq<usize>, queue: Seq<usize>)
    requires
        placing_queue(sizes, quantities, queue),
    ensures
        forall|i: int| 0 <= i < queue.len() ==> #[trigger] queue[i] < sizes.len(),
        forall|id: usize| id < sizes.len() ==> #[trigger] copies_of(queue, id) == quantities[id as int],
        forall|id: usize|
            id < sizes.len() ==> #[trigger] queue.to_multiset().count(id) == quantities[id as int],
{
    let order = choose|order: Seq<usize>| #[trigger]
        descending(ranks_of(sizes), order) && queue == repeated(order, quantities);
    assert forall|i: int| 0 <= i < queue.len() implies #[trigger] queue[i] < sizes.len() by {
        let at = lemma_repeated_follows_order(order, quantities, i, i);
    }
    assert forall|id: usize| id < sizes.len() implies #[trigger] copies_of(queue, id)
        == quantities[id as int] by {
        assert(order.contains(id));
        lemma_copies_of_repeated(order, quantities, id);
    }
    assert forall|id: usize| id < sizes.len() implies #[trigger] queue.to_multiset().count(id)
        == quantities[id as int] by {
        assert(copies_of(queue, id) == quantities[id as int]);
        lemma_copies_are_counted(queue, id);
    }
}

/// Larger items are placed first, and of items of equal size those with the lower id.
pub proof fn law_larger_items_first(
    sizes: Seq<u32>,
    quantities: Seq<usize>,
    queue: Seq<usize>,
    i: int,
    j: int,
)
    requires
        placing_queue(sizes, quantities, queue),
        0 <= i <= j < queue.len(),
    ensures
        rank_of(sizes[queue[i] as int]) >= rank_of(sizes[queue[j] as int]),
        rank_of(sizes[queue[i] as int]) == rank_of(sizes[queue[j] as int]) ==> queue[i]
            <= queue[j],
{
    let order = choose|order: Seq<usize>| #[trigger]
        descending(ranks_of(sizes), order) && queue == repeated(order, quantities);
    let at = lemma_repeated_follows_order(order, quantities, i, j);
}

/// Larger items are placed first, by the sizes themselves: the bits of sizes that are not below zero never rise along
/// the queue, and where they stay the same the ids do not fall. What is not a number comes before what is.
pub proof fn law_sizes_fall_along_the_queue(
    sizes: Seq<u32>,
    quantities: Seq<usize>,
    queue: Seq<usize>,
    i: int,
    j: int,
)
    requires
        placing_queue(sizes, quantities, queue),
        0 <= i <= j < queue.len(),
    ensures
        sizes[queue[i] as int] <= 0x7f80_0000 && sizes[queue[j] as int] <= 0x7f80_0000
            ==> sizes[queue[i] as int] >= sizes[queue[j] as int],
        sizes[queue[i] as int] == sizes[queue[j] as int] ==> queue[i] <= queue[j],
        0x7f80_0000 < sizes[queue[j] as int] < 0x8000_0000 ==> 0x7f80_0000
            < sizes[queue[i] as int] < 0x8000_0000 || 0xff80_0000 < sizes[queue[i] as int],
{
    law_larger_items_first(sizes, quantities, queue, i, j);
    law_rank_grows_with_the_size(sizes[queue[i] as int], sizes[queue[j] as int]);
}

proof fn lemma_one_order(ranks: Seq<i64>, a: Seq<usize>, b: Seq<usize>, i: int)
    requires
        descending(ranks, a),
        descending(ranks, b),
        0 <= i < ranks.len(),
    ensures
        a[i] == b[i],
    decreases i,
{
    assert forall|j: int| 0 <= j < i implies a[j] == b[j] by {
        lemma_one_order(ranks, a, b, j);
    }
    if a[i] != b[i] {
        assert(a.contains(b[i]) && b.contains(a[i]));
        let j = choose|j: int| 0 <= j < a.len() && a[j] == b[i];
        let k = choose|k: int| 0 <= k < b.len() && b[k] == a[i];
        assert(j > i && k > i);
    }
}

/// The sizes and the demanded quantities determine the queue.
pub proof fn law_one_placing_queue(
    sizes: Seq<u32>,
    quantities: Seq<usize>,
    a: Seq<usize>,
    b: Seq<usize>,
)
    requires
        placing_queue(sizes, quantities, a),
        placing_queue(sizes, quantities, b),
    ensures
        a == b,
{
    let ranks = ranks_of(sizes);
    let x = choose|order: Seq<usize>| #[trigger]
        descending(ranks, order) && a == repeated(order, quantities);
    let y = choose|order: Seq<usize>| #[trigger]
        descending(ranks, order) && b == repeated(order, quantities);
    assert forall|i: int| 0 <= i < x.len() implies x[i] == y[i] by {
        lemma_one_order(ranks, x, y, i);
    }
    assert(x =~= y);
}

/// What is needed to build an initial placement. `C` configures the search for places.
pub struct LBFBuilder<C> {
    pub instance: SPInstance,
    pub prob: SPProblem,
    pub rng: Xoshiro256PlusPlus,
    pub sample_config: C,
}

/// How the best sample of a search was evaluated.
#[derive(Clone, Copy, Debug, PartialEq, Eq, Structural)]
pub enum SampleEval {
    /// Without any collision.
    Clear,
    /// With collisions, or not at all.
    Obstructed,
}

/// A place for an item. `D` is the type of transformations.
#[derive(Debug)]
pub struct Placement<D> {
    pub item_id: usize,
    pub d_transf: D,
}

/// What to do after a search for a place.
#[derive(Debug)]
pub enum PlaceStep<D, S> {
    /// Place the item; it is the next one's turn.
    Place(Placement<D>),
    /// Widen the strip to this width and search again for the same item.
    Widen(S),
    /// Give up.
    Fail(ConstructionError),
}

/// A construction in progress: the ids of the items to place, one for each copy, and how many of
/// them have been placed.
pub struct Construction {
    queue: Vec<usize>,
    placed: usize,
}

/// The place that a search has found: its best sample, if that is free of collisions.
pub open spec fn found_placement<D>(
    item_id: usize,
    best_sample: Option<(D, SampleEval)>,
) -> Option<Placement<D>> {
    match best_sample {
        Some((d_transf, SampleEval::Clear)) => Some(Placement { item_id, d_transf }),
        _ => None,
    }
}

/// The place that a search has found: its best sample, if that is free of collisions.
pub fn find_placement<D>(item_id: usize, best_sample: Option<(D, SampleEval)>) -> (found: Option<
    Placement<D>,
>)
    ensures
        found == found_placement(item_id, best_sample),
        found is Some <==> best_sample is Some && (best_sample->0).1 is Clear,
        found is Some ==> found->0.item_id == item_id && found->0.d_transf == (best_sample->0).0,
{
    match best_sample {
        Some((d_transf, SampleEval::Clear)) => Some(Placement { item_id, d_transf }),
        _ => None,
    }
}

/// `limit` is the width at which a construction gives up: twice the diameters of all items,
/// each times its quantity.
pub open spec fn is_width_limit<S: Scalar>(
    two: S,
    zero: S,
    diameters: Seq<S>,
    quantities: Seq<S>,
    limit: S,
) -> bool {
    exists|all: S| #[trigger]
        weighted_total(zero, diameters, quantities, all) && product(two, all, limit)
}

/// The width at which a construction gives up.
pub fn width_limit<S: Scalar>(
    two: S,
    zero: S,
    diameters: &Vec<S>,
    quantities: &Vec<S>,
) -> (limit: S)
    requires
        diameters.len() == quantities.len(),
        can_total(zero, diameters@, quantities@),
        forall|all: S| #[trigger]
            weighted_total(zero, diameters@, quantities@, all) ==> two.mul_req(all),
    ensures
        is_width_limit(two, zero, diameters@, quantities@, limit),
{
    let all = total(zero, diameters, quantities);
    two * all
}

/// `step` follows from the best sample for an item. Without a place for it the strip is to grow by the
/// factor `growth`, unless that reaches the limit.
pub open spec fn follows<D, S: Scalar>(
    item_id: usize,
    best_sample: Option<(D, SampleEval)>,
    strip_width: S,
    growth: S,
    width_limit: S,
    step: PlaceStep<D, S>,
) -> bool {
    match found_placement(item_id, best_sample) {
        Some(placement) => step == PlaceStep::<D, S>::Place(placement),
        None => exists|next_width: S, reached: bool|
            {
                &&& #[trigger] product(strip_width, growth, next_width)
                &&& #[trigger] at_least(next_width, width_limit, reached)
                &&& step == if reached {
                    PlaceStep::<D, S>::Fail(ConstructionError { item_id })
                } else {
                    PlaceStep::<D, S>::Widen(next_width)
                }
            },
    }
}

impl<C> LBFBuilder<C> {
    /// A builder for a problem of the instance. Fixed obstacles have to be on the layout of
    /// `prob` already, so that the items are packed around them from the start.
    pub fn new(
        instance: SPInstance,
        prob: SPProblem,
        rng: Xoshiro256PlusPlus,
        sample_config: C,
    ) -> (builder: Self)
        ensures
            builder == (LBFBuilder { instance, prob, rng, sample_config }),
    {
        LBFBuilder { instance, prob, rng, sample_config }
    }

    /// How many copies of each item the instance asks for, by item id.
    pub fn item_quantities(&self) -> (quantities: Vec<usize>)
        ensures
            quantities@ == item_quantities(self.instance),
    {
        instance_quantities(&self.instance)
    }

    /// How many copies of each item have yet to be placed, by item id.
    pub fn demand(&self) -> (quantities: Vec<usize>)
        ensures
            quantities@ == demand(self.prob),
    {
        item_demand_qtys(&self.prob)
    }

    /// Starts to build a complete initial placement. `sizes` holds the size of each item of the instance, as
    /// the bits of an IEEE 754 single.
    pub fn construct(&self, sizes: &Vec<u32>) -> (construction: Construction)
        requires
            sizes.len() == item_quantities(self.instance).len(),
            sizes.len() <= demand(self.prob).len(),
        ensures
            construction.wf(),
            construction.placed() == 0,
            placing_queue(sizes@, demand(self.prob), construction.queue()),
    {
        let quantities = self.demand();
        let queue = placing_order(sizes, &quantities);
        Construction { queue, placed: 0 }
    }

    /// Starts to build a complete initial placement, unless there is not exactly one size for each item of the
    /// instance, or the problem lacks a demand for one of them.
    pub fn try_construct(&self, sizes: &Vec<u32>) -> (construction: Option<Construction>)
        ensures
            construction is Some <==> sizes.len() == item_quantities(self.instance).len()
                && sizes.len() <= demand(self.prob).len(),
            construction matches Some(construction) ==> {
                &&& construction.wf()
                &&& construction.placed() == 0
                &&& placing_queue(sizes@, demand(self.prob), construction.queue())
            },
    {
        if sizes.len() == self.item_quantities().len() && sizes.len() <= self.demand().len() {
            Some(self.construct(sizes))
        } else {
            None
        }
    }
}

impl Construction {
    /// The ids of the items to place, one for each copy.
    pub closed spec fn queue(self) -> Seq<usize> {
        self.queue@
    }

    /// How many of them have been placed.
    pub closed spec fn placed(self) -> nat {
        self.placed as nat
    }

    pub open spec fn wf(self) -> bool {
        self.placed() <= self.queue().len()
    }

    /// The item to search a place for, or nothing when all have been placed.
    pub fn pending(&self) -> (item_id: Option<usize>)
        requires
            self.wf(),
        ensures
            item_id == if self.placed() < self.queue().len() {
                Some(self.queue()[self.placed() as int])
            } else {
                None
            },
    {
        if self.placed < self.queue.len() {
            Some(self.queue[self.placed])
        } else {
            None
        }
    }

    /// Decides what to do with the best sample for the pending item, in a strip of the given width.
    pub fn place_item<D, S: Scalar>(
        &mut self,
        best_sample: Option<(D, SampleEval)>,
        strip_width: S,
        growth: S,
        width_limit: S,
    ) -> (step: PlaceStep<D, S>)
        requires
            old(self).wf(),
            old(self).placed() < old(self).queue().len(),
            found_placement(old(self).queue()[old(self).placed() as int], best_sample) is None
                ==> strip_width.mul_req(growth),
        ensures
            final(self).wf(),
            final(self).queue() == old(self).queue(),
            follows(
                old(self).queue()[old(self).placed() as int],
                best_sample,
                strip_width,
                growth,
                width_limit,
                step,
            ),
            final(self).placed() == old(self).placed() + if step is Place {
                1int
            } else {
                0int
            },
    {
        let item_id = self.queue[self.placed];
        match find_placement(item_id, best_sample) {
            Some(placement) => {
                assert(self.placed < self.queue.len());
                self.placed = self.placed + 1;
                PlaceStep::Place(placement)
            },
            None => {
                let next_width = strip_width * growth;
                // The limit ends the heuristic; it does not mean that the instance is infeasible.
                let reached = next_width >= width_limit;
                assert(product(strip_width, growth, next_width) && at_least(
                    next_width,
                    width_limit,
                    reached,
                ));
                if reached {
                    PlaceStep::Fail(ConstructionError { item_id })
                } else {
                    PlaceStep::Widen(next_width)
                }
            },
        }
    }
}

/// A construction that has nothing pending has placed every item as often as it is demanded.
pub proof fn law_complete_placement(
    construction: Construction,
    sizes: Seq<u32>,
    quantities: Seq<usize>,
    id: usize,
)
    requires
        placing_queue(sizes, quantities, construction.queue()),
        construction.placed() == construction.queue().len(),
        id < sizes.len(),
    ensures
        copies_of(construction.queue().take(construction.placed() as int), id)
            == quantities[id as int],
        construction.queue().take(construction.placed() as int).to_multiset().count(id)
            == quantities[id as int],
{
    law_every_copy_is_queued(sizes, quantities, construction.queue());
    lemma_copies_are_counted(construction.queue(), id);
    assert(construction.queue().take(construction.placed() as int) == construction.queue());
}

/// The strip is widened again and again: `widths` are its widths before, between and after, each from the one before
/// it, for whatever item and with whatever best sample.
pub open spec fn widens<D, S: Scalar>(
    widths: Seq<S>,
    samples: Seq<(usize, Option<(D, SampleEval)>)>,
    growth: S,
    width_limit: S,
) -> bool {
    &&& widths.len() == samples.len() + 1
    &&& forall|i: int|
        #![trigger samples[i]]
        0 <= i < samples.len() ==> widths[i].mul_req(growth) && follows(
            samples[i].0,
            samples[i].1,
            widths[i],
            growth,
            width_limit,
            PlaceStep::<D, S>::Widen(widths[i + 1]),
        )
}

/// `width`, and any greater width below the limit, grows by `gain` or more when it is multiplied.
pub open spec fn gains<S: Scalar>(
    value: spec_fn(S) -> real,
    width: S,
    growth: S,
    width_limit: S,
    gain: real,
) -> bool {
    forall|a: S, r: S| #[trigger]
        product(a, growth, r) && a.mul_req(growth) && number(a) && number(r) && (a == width
            || value(width) <= value(a) < value(width_limit)) ==> value(a) + gain <= value(r)
}

/// The widenings of a construction end: with every one of them the strip grows by some gain, and it stays below the
/// limit, so there are fewer of them than gains fit below the limit. The widths and the limit have to be numbers.
pub proof fn law_widenings_end<D, S: Scalar>(
    value: spec_fn(S) -> real,
    widths: Seq<S>,
    samples: Seq<(usize, Option<(D, SampleEval)>)>,
    growth: S,
    width_limit: S,
    gain: real,
    n: int,
)
    requires
        ordered_by(value),
        forall|i: int| 0 <= i < widths.len() ==> number(#[trigger] widths[i]),
        number(width_limit),
        0real < gain,
        widens(widths, samples, growth, width_limit),
        gains(value, widths[0], growth, width_limit, gain),
        0 < n <= samples.len(),
    ensures
        value(widths[n - 1]) < value(widths[n]) < value(width_limit),
        value(widths[0]) + (n as real) * gain <= value(widths[n]),
        value(widths[0]) + (n as real) * gain < value(width_limit),
    decreases n,
{
    if n > 1 {
        law_widenings_end(value, widths, samples, growth, width_limit, gain, n - 1);
    }
    let i = n - 1;
    assert((n as real) * gain == (i as real) * gain + gain) by (nonlinear_arith)
        requires
            n == i + 1,
    ;
    assert(0real <= (i as real) * gain) by (nonlinear_arith)
        requires
            0 <= i,
            0real < gain,
    ;
    assert(follows(
        samples[i].0,
        samples[i].1,
        widths[i],
        growth,
        width_limit,
        PlaceStep::<D, S>::Widen(widths[n]),
    ));
    assert(number(widths[i]) && number(widths[n]));
    assert(product(widths[i], growth, widths[n]));
    assert(at_least(widths[n], width_limit, false));
    if i == 0 {
        assert((i as real) * gain == 0real) by (nonlinear_arith)
            requires
                i == 0,
        ;
    }
}

/// With exact numbers, a factor above one gains: each widening adds at least what the first one adds.
pub proof fn law_factor_above_one_gains<S: Scalar>(
    value: spec_fn(S) -> real,
    width: S,
    growth: S,
    width_limit: S,
)
    requires
        exact_arithmetic(value),
        0real < value(width),
        1real < value(growth),
    ensures
        0real < value(width) * (value(growth) - 1real),
        gains(value, width, growth, width_limit, value(width) * (value(growth) - 1real)),
{
    let w = value(width);
    let g = value(growth);
    assert(0real < w * (g - 1real)) by (nonlinear_arith)
        requires
            0real < w,
            1real < g,
    ;
    assert forall|a: S, r: S| #[trigger]
        product(a, growth, r) && a.mul_req(growth) && number(a) && number(r) && (a == width
            || value(width) <= value(a) < value(width_limit)) implies value(a) + w * (g - 1real)
        <= value(r) by {
        let v = value(a);
        assert(v + w * (g - 1real) <= v * g) by (nonlinear_arith)
            requires
                0real < w <= v,
                1real < g,
        ;
    }
}

/// A sample is a place if and only if it is clear, and the place is the sample's, for the item that was searched for.
pub proof fn law_only_clear_samples_are_places<D>(item_id: usize, d_transf: D)
    ensures
        found_placement(item_id, Some((d_transf, SampleEval::Clear))) == Some(
            Placement { item_id, d_transf },
        ),
        found_placement(item_id, Some((d_transf, SampleEval::Obstructed))) is None,
        found_placement::<D>(item_id, None) is None,
{
}

/// What follows from a search. With a clear sample the item is placed there, however wide the strip is. Without one the
/// strip grows by the factor, and the item is given up if and only if that reaches the limit.
pub proof fn law_place_widen_or_give_up<D, S: Scalar>(
    item_id: usize,
    best_sample: Option<(D, SampleEval)>,
    strip_width: S,
    growth: S,
    width_limit: S,
    step: PlaceStep<D, S>,
)
    requires
        follows(item_id, best_sample, strip_width, growth, width_limit, step),
    ensures
        best_sample is Some && (best_sample->0).1 is Clear ==> step == PlaceStep::<D, S>::Place(
            Placement { item_id, d_transf: (best_sample->0).0 },
        ),
        best_sample is None || (best_sample->0).1 is Obstructed ==> {
            ||| step is Widen && product(strip_width, growth, step->Widen_0) && at_least(
                step->Widen_0,
                width_limit,
                false,
            )
            ||| step == PlaceStep::<D, S>::Fail(ConstructionError { item_id }) && exists|
                next_width: S,
            | #[trigger]
                product(strip_width, growth, next_width) && at_least(next_width, width_limit, true)
        },
{
}

/// With exact numbers, an item without a place is given up if and only if the width times the factor reaches the limit,
/// and otherwise that is the new width.
pub proof fn law_gives_up_at_the_limit<D, S: Scalar>(
    value: spec_fn(S) -> real,
    item_id: usize,
    best_sample: Option<(D, SampleEval)>,
    strip_width: S,
    growth: S,
    width_limit: S,
    step: PlaceStep<D, S>,
)
    requires
        exact_arithmetic(value),
        strip_width.mul_req(growth),
        best_sample is None || (best_sample->0).1 is Obstructed,
        follows(item_id, best_sample, strip_width, growth, width_limit, step),
    ensures
        step is Fail <==> value(strip_width) * value(growth) >= value(width_limit),
        step is Widen <==> value(strip_width) * value(growth) < value(width_limit),
        step is Widen ==> value(step->Widen_0) == value(strip_width) * value(growth),
{
    law_place_widen_or_give_up(item_id, best_sample, strip_width, growth, width_limit, step);
}

/// The limit is the given factor times the total of the diameters, each times its quantity; and one more item adds
/// its own to that total.
pub proof fn law_limit_counts_every_diameter<S: Scalar>(
    value: spec_fn(S) -> real,
    two: S,
    zero: S,
    diameters: Seq<S>,
    quantities: Seq<S>,
    diameter: S,
    quantity: S,
    limit: S,
    greater: S,
)
    requires
        exact_arithmetic(value),
        diameters.len() == quantities.len(),
        can_total(zero, diameters.push(diameter), quantities.push(quantity)),
        forall|all: S| #[trigger]
            weighted_total(zero, diameters, quantities, all) ==> two.mul_req(all),
        forall|all: S| #[trigger]
            weighted_total(zero, diameters.push(diameter), quantities.push(quantity), all)
                ==> two.mul_req(all),
        is_width_limit(two, zero, diameters, quantities, limit),
        is_width_limit(
            two,
            zero,
            diameters.push(diameter),
            quantities.push(quantity),
            greater,
        ),
    ensures
        value(greater) == value(limit) + value(two) * (value(diameter) * value(quantity)),
{
    let (ds, qs) = (diameters.push(diameter), quantities.push(quantity));
    let a = choose|all: S| #[trigger]
        weighted_total(zero, diameters, quantities, all) && product(two, all, limit);
    let b = choose|all: S| #[trigger]
        weighted_total(zero, ds, qs, all) && product(two, all, greater);
    law_total_is_exact(value, zero, ds, qs, b);
    assert(ds.drop_last() == diameters && qs.drop_last() == quantities);
    lemma_can_total_prefix(zero, ds, qs);
    law_total_is_exact(value, zero, diameters, quantities, a);
    let products = Seq::new(ds.len(), |i: int| value(ds[i]) * value(qs[i]));
    assert(products.drop_last() =~= Seq::new(
        diameters.len(),
        |i: int| value(diameters[i]) * value(quantities[i]),
    ));
    let t = value(two);
    let x = value(a);
    let y = value(diameter) * value(quantity);
    assert(value(b) == x + y);
    assert(t * (x + y) == t * x + t * y) by (nonlinear_arith);
}

/// The limit is the factor times a total of the diameters and quantities, also where results are rounded.
pub proof fn law_limit_is_the_factor_times_the_total<S: Scalar>(
    two: S,
    zero: S,
    diameters: Seq<S>,
    quantities: Seq<S>,
    limit: S,
)
    requires
        is_width_limit(two, zero, diameters, quantities, limit),
    ensures
        exists|all: S| #[trigger]
            weighted_total(zero, diameters, quantities, all) && product(two, all, limit),
{
}

/// Of nothing, the limit is the factor times zero.
pub proof fn law_limit_of_nothing<S: Scalar>(two: S, zero: S, limit: S)
    requires
        is_width_limit(two, zero, Seq::empty(), Seq::empty(), limit),
    ensures
        product(two, zero, limit),
{
}

} // verus!
