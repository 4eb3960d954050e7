//! Accumulates the collision loss of a candidate placement while hazards are being discovered.
use crate::equality::{exact_equality, found, same};
use crate::layout::{
    hazard_kind, hazard_kinds, keys_compare_exactly, kind_of, kinds_on_layout, HazardKind,
};
use crate::scalar::{above, at_most, difference, equal, product, quotient, sum, Scalar};
use jagua_rs::collision_detection::hazards::HazardEntity;
use jagua_rs::entities::{Layout, PItemKey};
use jagua_rs::geometry::primitives::SPolygon;
use std::sync::Arc;
use vstd::prelude::*;
use vstd::std_specs::ops::{AddSpec, DivSpec, MulSpec, SubSpec};

verus! {

/// What a hazard has to be quantified against, and the items whose weight applies.
/// `P` is the type of shapes.
#[derive(Debug)]
pub enum LossSource<K, P> {
    /// The shape of the placed item `other`, weighted for the pair of items.
    Item { current: K, other: K },
    /// The container, with the container weight of `current`.
    Container { current: K },
    /// The shape of a hole, with the hole weight of `current`.
    Hole { current: K, shape: P },
}

/// The outcome of quantifying a collision, before the weight is applied.
#[derive(Debug)]
pub enum RawLoss<S> {
    /// The loss was computed in full.
    Exact(S),
    /// The computation was told the greatest loss of interest; `None` means that it was exceeded.
    Bounded(Option<S>),
}

/// Computes the collision loss of one item, hazard by hazard, and tells when it exceeds a bound.
pub struct CollisionLossEvaluator<S, K, P> {
    current_pk: K,
    zero: S,
    infinity: S,
    loss: S,
    loss_bound: S,
    placed_keys: Vec<K>,
    hole_shapes: Vec<(usize, P)>,
}

/// The contents of a [`CollisionLossEvaluator`].
#[verifier::ext_equal]
pub struct EvaluatorView<S, K, P> {
    /// The item being evaluated.
    pub current: K,
    /// The loss of an item without collisions.
    pub zero: S,
    /// The bound of an evaluation without a bound.
    pub infinity: S,
    /// The loss accumulated so far.
    pub loss: S,
    /// The loss above which the evaluation is of no interest.
    pub bound: S,
    /// The keys of the items that are placed in the layout.
    pub placed: Seq<K>,
    /// The holes of the layout: index and shape.
    pub holes: Seq<(usize, P)>,
}

/// The keys of the placed items among the hazards of a layout, in the order of the hazards.
pub open spec fn keys_among<K, P>(hazards: Seq<(HazardKind<K>, P)>) -> Seq<K>
    decreases hazards.len(),
{
    if hazards.len() == 0 {
        Seq::empty()
    } else {
        let before = keys_among(hazards.drop_last());
        match hazards.last().0 {
            HazardKind::PlacedItem { pk, .. } => before.push(pk),
            _ => before,
        }
    }
}

/// The holes among the hazards of a layout, in the order of the hazards.
pub open spec fn holes_among<K, P>(hazards: Seq<(HazardKind<K>, P)>) -> Seq<(usize, P)>
    decreases hazards.len(),
{
    if hazards.len() == 0 {
        Seq::empty()
    } else {
        let before = holes_among(hazards.drop_last());
        match hazards.last().0 {
            HazardKind::Hole { idx } => before.push((idx, hazards.last().1)),
            _ => before,
        }
    }
}

/// A hole with index `idx` is in the list.
pub open spec fn has_hole<P>(holes: Seq<(usize, P)>, idx: usize) -> bool {
    exists|i: int| 0 <= i < holes.len() && #[trigger] holes[i].0 == idx
}

/// `shape` belongs to the first hole in the list that has index `idx`.
pub open spec fn first_hole<P>(holes: Seq<(usize, P)>, idx: usize, shape: P) -> bool {
    exists|i: int|
        {
            &&& 0 <= i < holes.len()
            &&& #[trigger] holes[i] == (idx, shape)
            &&& forall|j: int| 0 <= j < i ==> #[trigger] holes[j].0 != idx
        }
}

/// `r` is `raw * weight`, or nothing where that is not at most `max`.
pub open spec fn bounded_product<S: Scalar>(raw: S, weight: S, max: S, r: Option<S>) -> bool {
    exists|loss: S, kept: bool|
        {
            &&& #[trigger] product(raw, weight, loss)
            &&& #[trigger] at_most(loss, max, kept)
            &&& r == if kept {
                Some(loss)
            } else {
                None
            }
        }
}

/// `r` is the weighted loss that a hazard adds, or nothing where it exceeds `max`. The loss
/// against the container, which is quantified in full, is never cut off, and a loss that was quantified
/// under a bound is not held to it again.
pub open spec fn weighted_loss<S: Scalar, K>(
    hazard: HazardKind<K>,
    raw: RawLoss<S>,
    weight: S,
    max: S,
    r: Option<S>,
) -> bool {
    match raw {
        RawLoss::Bounded(None) => r is None,
        RawLoss::Bounded(Some(value)) => r is Some && product(value, weight, r->0),
        RawLoss::Exact(value) => if hazard is Exterior {
            r is Some && product(value, weight, r->0)
        } else {
            bounded_product(value, weight, max, r)
        },
    }
}

/// The weight can be applied to the loss, where there is one.
pub open spec fn can_weigh<S: Scalar>(raw: RawLoss<S>, weight: S) -> bool {
    match raw {
        RawLoss::Exact(value) => value.mul_req(weight),
        RawLoss::Bounded(Some(value)) => value.mul_req(weight),
        RawLoss::Bounded(None) => true,
    }
}

impl<S, K, P> EvaluatorView<S, K, P> {
    /// The evaluation of an item before any hazard is known, in a layout with these hazards.
    pub open spec fn unbounded(
        current: K,
        zero: S,
        infinity: S,
        hazards: Seq<(HazardKind<K>, P)>,
    ) -> Self {
        EvaluatorView {
            current,
            zero,
            infinity,
            loss: zero,
            bound: infinity,
            placed: keys_among(hazards),
            holes: holes_among(hazards),
        }
    }

    /// A new evaluation under a bound.
    pub open spec fn reloaded(self, bound: S) -> Self {
        EvaluatorView { loss: self.zero, bound, ..self }
    }

    /// The hazard is one of those that a loss is defined for; a placed item or a hole has to be one of the layout's.
    pub open spec fn supports(self, hazard: HazardKind<K>) -> bool {
        match hazard {
            HazardKind::PlacedItem { pk, .. } => self.placed.contains(pk),
            HazardKind::Exterior => true,
            HazardKind::Hole { idx } => has_hole(self.holes, idx),
            HazardKind::InferiorQualityZone { .. } => false,
        }
    }
}

impl<S: Scalar, K, P> EvaluatorView<S, K, P> {
    /// `r` is the loss that may still be added without exceeding the bound. Without a bound it
    /// is without a bound too, whatever the accumulated loss is.
    pub open spec fn remaining(self, r: S) -> bool {
        exists|unbounded: bool|
            {
                &&& #[trigger] equal(self.bound, self.infinity, unbounded)
                &&& if unbounded {
                    r == self.infinity
                } else {
                    difference(self.bound, self.loss, r)
                }
            }
    }

    /// The accumulated loss can be subtracted from the bound, where there is a bound.
    pub open spec fn can_remain(self) -> bool {
        equal(self.bound, self.infinity, false) ==> self.bound.sub_req(self.loss)
    }

    /// A hazard takes the evaluation from `self` to `next`; `stop` tells that the bound is exceeded.
    /// A hazard whose own loss exceeds what remains stops the evaluation and adds nothing.
    pub open spec fn adds(
        self,
        hazard: HazardKind<K>,
        raw: RawLoss<S>,
        weight: S,
        next: Self,
        stop: bool,
    ) -> bool {
        exists|rest: S, extra: Option<S>|
            {
                &&& #[trigger] self.remaining(rest)
                &&& #[trigger] weighted_loss(hazard, raw, weight, rest, extra)
                &&& match extra {
                    None => next == self && stop,
                    Some(loss) => {
                        &&& sum(self.loss, loss, next.loss)
                        &&& next == EvaluatorView { loss: next.loss, ..self }
                        &&& above(next.loss, next.bound, stop)
                    },
                }
            }
    }

    /// `r` is the greatest loss of interest before the weight is applied.
    pub open spec fn raw_bound(self, weight: S, r: S) -> bool {
        exists|rest: S| #[trigger] self.remaining(rest) && quotient(rest, weight, r)
    }

    /// The greatest loss of interest can be computed.
    pub open spec fn can_bound(self, weight: S) -> bool {
        &&& self.can_remain()
        &&& forall|rest: S| #[trigger] self.remaining(rest) ==> rest.div_req(weight)
    }

    /// The loss of a hazard is defined and can be added. Against the container it has to be quantified in full.
    pub open spec fn can_add(self, hazard: HazardKind<K>, raw: RawLoss<S>, weight: S) -> bool {
        &&& self.supports(hazard)
        &&& hazard is Exterior ==> raw is Exact
        &&& self.can_remain()
        &&& can_weigh(raw, weight)
        &&& forall|rest: S, loss: S|
            self.remaining(rest) && #[trigger] weighted_loss(hazard, raw, weight, rest, Some(loss))
                ==> self.loss.add_req(loss)
    }
}

impl<S, K, P> View for CollisionLossEvaluator<S, K, P> {
    type V = EvaluatorView<S, K, P>;

    closed spec fn view(&self) -> EvaluatorView<S, K, P> {
        EvaluatorView {
            current: self.current_pk,
            zero: self.zero,
            infinity: self.infinity,
            loss: self.loss,
            bound: self.loss_bound,
            placed: self.placed_keys@,
            holes: self.hole_shapes@,
        }
    }
}

impl<S: Scalar> CollisionLossEvaluator<S, PItemKey, Arc<SPolygon>> {
    /// An evaluator for the item `current_pk` of a layout, without a bound.
    pub fn new(layout: &Layout, current_pk: PItemKey, zero: S, infinity: S) -> (evaluator: Self)
        ensures
            evaluator@ == EvaluatorView::unbounded(
                current_pk,
                zero,
                infinity,
                hazard_kinds(*layout),
            ),
            evaluator@.current == current_pk,
            evaluator@.loss == zero,
            evaluator@.zero == zero,
            evaluator@.bound == infinity,
            evaluator@.infinity == infinity,
    {
        let hazards = kinds_on_layout(layout);
        CollisionLossEvaluator::from_hazards(hazards, current_pk, zero, infinity)
    }
}

impl<S: Scalar, K: Copy, P> CollisionLossEvaluator<S, K, P> {
    /// An evaluator for the item `current_pk`, without a bound. Nothing moves while a layout is evaluated, so the
    /// placed items and the holes are picked out of the hazards once.
    pub fn from_hazards(
        hazards: Vec<(HazardKind<K>, P)>,
        current_pk: K,
        zero: S,
        infinity: S,
    ) -> (evaluator: Self)
        ensures
            evaluator@ == EvaluatorView::unbounded(current_pk, zero, infinity, hazards@),
            evaluator@.current == current_pk,
            evaluator@.loss == zero,
            evaluator@.zero == zero,
            evaluator@.bound == infinity,
            evaluator@.infinity == infinity,
    {
        let mut placed_keys: Vec<K> = Vec::new();
        let mut hole_shapes: Vec<(usize, P)> = Vec::new();
        for hazard in iter: hazards
            invariant
                iter.seq() == hazards@,
                placed_keys@ == keys_among(hazards@.take(iter.index() as int)),
                hole_shapes@ == holes_among(hazards@.take(iter.index() as int)),
        {
            let (kind, shape) = hazard;
            proof {
                let i = iter.index() as int;
                assert(hazards@.take(i + 1).drop_last() == hazards@.take(i));
            }
            match kind {
                HazardKind::PlacedItem { pk, .. } => {
                    placed_keys.push(pk);
                },
                HazardKind::Hole { idx } => {
                    hole_shapes.push((idx, shape));
                },
                _ => {},
            }
        }
        proof {
            assert(hazards@.take(hazards@.len() as int) == hazards@);
        }
        CollisionLossEvaluator {
            current_pk,
            zero,
            infinity,
            loss: zero,
            loss_bound: infinity,
            placed_keys,
            hole_shapes,
        }
    }

    /// Starts a new evaluation under a bound.
    pub fn reload(&mut self, loss_bound: S)
        ensures
            final(self)@ == old(self)@.reloaded(loss_bound),
            final(self)@.bound == loss_bound,
            final(self)@.loss == old(self)@.zero,
    {
        self.loss = self.zero;
        self.loss_bound = loss_bound;
    }

    /// The loss accumulated so far.
    pub fn loss(&self) -> (loss: S)
        ensures
            loss == self@.loss,
    {
        self.loss
    }

    /// What the hazard has to be quantified against.
    pub fn source(&self, hazard: HazardKind<K>) -> (source: LossSource<K, &P>)
        requires
            self@.supports(hazard),
        ensures
            match hazard {
                HazardKind::PlacedItem { id, pk } => source == LossSource::<K, &P>::Item {
                    current: self@.current,
                    other: pk,
                },
                HazardKind::Exterior => source == LossSource::<K, &P>::Container {
                    current: self@.current,
                },
                HazardKind::Hole { idx } => source is Hole && source->Hole_current
                    == self@.current && first_hole(self@.holes, idx, *source->shape),
                HazardKind::InferiorQualityZone { .. } => true,
            },
    {
        match hazard {
            HazardKind::PlacedItem { id: _, pk } => LossSource::Item {
                current: self.current_pk,
                other: pk,
            },
            HazardKind::Hole { idx } => {
                let mut i: usize = 0;
                while self.hole_shapes[i].0 != idx
                    invariant
                        has_hole(self.hole_shapes@, idx),
                        i < self.hole_shapes.len(),
                        forall|j: int| 0 <= j < i ==> #[trigger] self.hole_shapes@[j].0 != idx,
                    decreases self.hole_shapes.len() - i,
                {
                    i += 1;
                }
                let shape = &self.hole_shapes[i].1;
                assert(self.hole_shapes@[i as int] == (idx, *shape));
                LossSource::Hole { current: self.current_pk, shape }
            },
            _ => LossSource::Container { current: self.current_pk },
        }
    }

    /// The loss that may still be added without exceeding the bound.
    fn remaining(&self) -> (rest: S)
        requires
            self@.can_remain(),
        ensures
            self@.remaining(rest),
    {
        // An unbounded evaluation stays unbounded even if the accumulated loss overflows.
        let unbounded = self.loss_bound == self.infinity;
        assert(equal(self@.bound, self@.infinity, unbounded));
        if unbounded {
            self.infinity
        } else {
            self.loss_bound - self.loss
        }
    }

    /// The greatest loss of interest before the weight is applied, for a quantification that
    /// stops early.
    pub fn raw_bound(&self, weight: S) -> (bound: S)
        requires
            self@.can_bound(weight),
        ensures
            self@.raw_bound(weight, bound),
    {
        let rest = self.remaining();
        rest / weight
    }

    /// The weighted loss that a hazard adds, or nothing where it exceeds `max_loss`.
    pub fn calc_weighted_loss_bounded(
        &self,
        hazard: HazardKind<K>,
        raw: RawLoss<S>,
        weight: S,
        max_loss: S,
    ) -> (loss: Option<S>)
        requires
            self@.supports(hazard),
            hazard is Exterior ==> raw is Exact,
            can_weigh(raw, weight),
        ensures
            weighted_loss(hazard, raw, weight, max_loss, loss),
    {
        match raw {
            RawLoss::Bounded(None) => None,
            RawLoss::Bounded(Some(value)) => Some(value * weight),
            RawLoss::Exact(value) => {
                let loss = value * weight;
                match hazard {
                    HazardKind::Exterior => Some(loss),
                    _ => {
                        let kept = loss <= max_loss;
                        assert(product(value, weight, loss) && at_most(loss, max_loss, kept));
                        if kept {
                            Some(loss)
                        } else {
                            None
                        }
                    },
                }
            },
        }
    }

    /// Adds the loss of a hazard and tells whether the bound is exceeded.
    pub fn add(&mut self, hazard: HazardKind<K>, raw: RawLoss<S>, weight: S) -> (stop: bool)
        requires
            old(self)@.can_add(hazard, raw, weight),
        ensures
            old(self)@.adds(hazard, raw, weight, final(self)@, stop),
    {
        let rest = self.remaining();
        let extra = self.calc_weighted_loss_bounded(hazard, raw, weight, rest);
        assert(old(self)@.remaining(rest) && weighted_loss(hazard, raw, weight, rest, extra));
        match extra {
            None => true,
            Some(loss) => {
                self.loss = self.loss + loss;
                self.loss > self.loss_bound
            },
        }
    }
}

impl<S: Scalar, K: Copy + PartialEq, P> CollisionLossEvaluator<S, K, P> {
    /// Whether a loss is defined for the hazard; a placed item or a hole has to be one of the layout's.
    pub fn supports(&self, hazard: HazardKind<K>) -> (supported: bool)
        ensures
            match hazard {
                HazardKind::PlacedItem { pk, .. } => found(self@.placed, pk, supported),
                _ => supported == self@.supports(hazard),
            },
            exact_equality::<K>() ==> supported == self@.supports(hazard),
    {
        match hazard {
            HazardKind::PlacedItem { pk, .. } => {
                let mut i: usize = 0;
                let mut known = false;
                while i < self.placed_keys.len() && !known
                    invariant
                        i <= self.placed_keys.len(),
                        known ==> exists|j: int|
                            0 <= j < self.placed_keys.len() && same(
                                #[trigger] self.placed_keys@[j],
                                pk,
                                true,
                            ),
                        !known ==> forall|j: int|
                            0 <= j < i ==> same(#[trigger] self.placed_keys@[j], pk, false),
                    decreases self.placed_keys.len() - i,
                {
                    known = self.placed_keys[i] == pk;
                    assert(same(self.placed_keys@[i as int], pk, known));
                    i += 1;
                }
                known
            },
            HazardKind::Exterior => true,
            HazardKind::Hole { idx } => {
                let mut i: usize = 0;
                while i < self.hole_shapes.len() && self.hole_shapes[i].0 != idx
                    invariant
                        i <= self.hole_shapes.len(),
                        forall|j: int| 0 <= j < i ==> #[trigger] self.hole_shapes@[j].0 != idx,
                    decreases self.hole_shapes.len() - i,
                {
                    i += 1;
                }
                let known = i < self.hole_shapes.len();
                assert(known ==> self@.holes[i as int].0 == idx);
                known
            },
            HazardKind::InferiorQualityZone { .. } => false,
        }
    }
}

impl<S: Scalar> CollisionLossEvaluator<S, PItemKey, Arc<SPolygon>> {
    /// Whether a loss is defined for a hazard that the layout's engine has reported.
    pub fn supports_entity(&self, entity: &HazardEntity) -> (supported: bool)
        ensures
            supported == self@.supports(kind_of(*entity)),
    {
        proof {
            keys_compare_exactly();
        }
        self.supports(hazard_kind(entity))
    }
}

} // verus!
