//! What an evaluation comes to over all the hazards that are added.
use crate::eval::collision_loss::{
    bounded_product, first_hole, has_hole, holes_among, keys_among, weighted_loss, EvaluatorView, RawLoss,
};
use crate::layout::HazardKind;
use crate::scalar::{
    above, always_computed, at_most, difference, equal, exact_arithmetic, exact_division, number, product,
    quotient, single_valued, sum, Scalar,
};
use vstd::prelude::*;
use vstd::std_specs::ops::AddSpec;

verus! {

/// A collision as it is added to an evaluation.
pub struct Collision<S, K> {
    pub hazard: HazardKind<K>,
    pub raw: RawLoss<S>,
    pub weight: S,
}

/// The collisions are added in turn: `states` are those of the evaluation before, between and after them, and
/// `stops` tells after which the bound was exceeded. It may end before all collisions are added.
pub open spec fn evaluates<S: Scalar, K, P>(
    states: Seq<EvaluatorView<S, K, P>>,
    collisions: Seq<Collision<S, K>>,
    stops: Seq<bool>,
) -> bool {
    &&& states.len() == stops.len() + 1
    &&& stops.len() <= collisions.len()
    &&& forall|i: int|
        #![trigger stops[i]]
        0 <= i < stops.len() ==> states[i].adds(
            collisions[i].hazard,
            collisions[i].raw,
            collisions[i].weight,
            states[i + 1],
            stops[i],
        )
}

/// Some collision exceeds the bound.
pub open spec fn stopped(stops: Seq<bool>) -> bool {
    exists|i: int| 0 <= i < stops.len() && #[trigger] stops[i]
}

proof fn lemma_hole_is_picked<K, P>(hazards: Seq<(HazardKind<K>, P)>, i: int, idx: usize)
    requires
        0 <= i < hazards.len(),
        hazards[i].0 == (HazardKind::<K>::Hole { idx }),
    ensures
        has_hole(holes_among(hazards), idx),
    decreases hazards.len(),
{
    let before = holes_among(hazards.drop_last());
    let holes = holes_among(hazards);
    if i == hazards.len() - 1 {
        assert(holes[holes.len() - 1].0 == idx);
    } else {
        assert(hazards.drop_last()[i] == hazards[i]);
        lemma_hole_is_picked(hazards.drop_last(), i, idx);
        let j = choose|j: int| 0 <= j < before.len() && #[trigger] before[j].0 == idx;
        assert(holes[j].0 == idx);
    }
}

proof fn lemma_key_is_picked<K, P>(hazards: Seq<(HazardKind<K>, P)>, i: int)
    requires
        0 <= i < hazards.len(),
        hazards[i].0 is PlacedItem,
    ensures
        keys_among(hazards).contains(hazards[i].0->pk),
    decreases hazards.len(),
{
    let before = keys_among(hazards.drop_last());
    let keys = keys_among(hazards);
    let pk = hazards[i].0->pk;
    if i == hazards.len() - 1 {
        assert(keys[keys.len() - 1] == pk);
    } else {
        assert(hazards.drop_last()[i] == hazards[i]);
        lemma_key_is_picked(hazards.drop_last(), i);
        let j = choose|j: int| 0 <= j < before.len() && before[j] == pk;
        assert(keys[j] == pk);
    }
}

proof fn lemma_picked_hole_is_there<K, P>(hazards: Seq<(HazardKind<K>, P)>, idx: usize) -> (i: int)
    requires
        has_hole(holes_among(hazards), idx),
    ensures
        0 <= i < hazards.len(),
        hazards[i].0 == (HazardKind::<K>::Hole { idx }),
    decreases hazards.len(),
{
    let holes = holes_among(hazards);
    let before = holes_among(hazards.drop_last());
    if hazards.last().0 == (HazardKind::<K>::Hole { idx }) {
        hazards.len() - 1
    } else {
        let j = choose|j: int| 0 <= j < holes.len() && #[trigger] holes[j].0 == idx;
        assert(before[j].0 == idx);
        lemma_picked_hole_is_there(hazards.drop_last(), idx)
    }
}

proof fn lemma_picked_key_is_there<K, P>(hazards: Seq<(HazardKind<K>, P)>, pk: K) -> (i: int)
    requires
        keys_among(hazards).contains(pk),
    ensures
        0 <= i < hazards.len(),
        hazards[i].0 is PlacedItem,
        hazards[i].0->pk == pk,
    decreases hazards.len(),
{
    let keys = keys_among(hazards);
    let before = keys_among(hazards.drop_last());
    if hazards.last().0 is PlacedItem && hazards.last().0->pk == pk {
        hazards.len() - 1
    } else {
        let j = choose|j: int| 0 <= j < keys.len() && keys[j] == pk;
        assert(before[j] == pk);
        lemma_picked_key_is_there(hazards.drop_last(), pk)
    }
}

/// `hazard` is the outside of the container, or one of the placed items and holes on the layout.
pub open spec fn registered<K, P>(hazards: Seq<(HazardKind<K>, P)>, hazard: HazardKind<K>) -> bool {
    match hazard {
        HazardKind::Exterior => true,
        HazardKind::PlacedItem { pk, .. } => exists|i: int|
            0 <= i < hazards.len() && (#[trigger] hazards[i]).0 is PlacedItem && hazards[i].0->pk
                == pk,
        HazardKind::Hole { .. } => exists|i: int|
            0 <= i < hazards.len() && (#[trigger] hazards[i]).0 == hazard,
        HazardKind::InferiorQualityZone { .. } => false,
    }
}

/// An evaluator that was built on a layout defines a loss for the outside of the container and for the placed items
/// and holes on the layout, and for nothing else.
pub proof fn law_registered_hazards_are_supported<S: Scalar, K, P>(
    current: K,
    zero: S,
    infinity: S,
    hazards: Seq<(HazardKind<K>, P)>,
    hazard: HazardKind<K>,
)
    ensures
        EvaluatorView::unbounded(current, zero, infinity, hazards).supports(hazard) <==> registered(
            hazards,
            hazard,
        ),
        EvaluatorView::unbounded(current, zero, infinity, hazards).supports(hazard) <==> match hazard {
            HazardKind::Exterior => true,
            HazardKind::PlacedItem { pk, .. } => exists|i: int|
                0 <= i < hazards.len() && (#[trigger] hazards[i]).0 is PlacedItem
                    && hazards[i].0->pk == pk,
            HazardKind::Hole { .. } => exists|i: int|
                0 <= i < hazards.len() && (#[trigger] hazards[i]).0 == hazard,
            HazardKind::InferiorQualityZone { .. } => false,
        },
{
    let evaluator = EvaluatorView::unbounded(current, zero, infinity, hazards);
    match hazard {
        HazardKind::PlacedItem { pk, .. } => {
            if evaluator.supports(hazard) {
                let i = lemma_picked_key_is_there(hazards, pk);
            }
            if exists|i: int|
                0 <= i < hazards.len() && (#[trigger] hazards[i]).0 is PlacedItem
                    && hazards[i].0->pk == pk {
                let i = choose|i: int|
                    0 <= i < hazards.len() && (#[trigger] hazards[i]).0 is PlacedItem
                        && hazards[i].0->pk == pk;
                lemma_key_is_picked(hazards, i);
            }
        },
        HazardKind::Hole { idx } => {
            if evaluator.supports(hazard) {
                let i = lemma_picked_hole_is_there(hazards, idx);
            }
            if exists|i: int| 0 <= i < hazards.len() && (#[trigger] hazards[i]).0 == hazard {
                let i = choose|i: int|
                    0 <= i < hazards.len() && (#[trigger] hazards[i]).0 == hazard;
                lemma_hole_is_picked(hazards, i, idx);
            }
        },
        _ => {},
    }
}

/// The hazard that a hole was picked from. A hole before it among the hazards was picked before it.
proof fn origin_of_hole<K, P>(hazards: Seq<(HazardKind<K>, P)>, k: int) -> (i: int)
    requires
        0 <= k < holes_among(hazards).len(),
    ensures
        0 <= i < hazards.len(),
        hazards[i].0 == (HazardKind::<K>::Hole { idx: holes_among(hazards)[k].0 }),
        hazards[i].1 == holes_among(hazards)[k].1,
        forall|j: int|
            0 <= j < i && (#[trigger] hazards[j]).0 is Hole ==> exists|m: int|
                0 <= m < k && #[trigger] holes_among(hazards)[m].0 == hazards[j].0->Hole_idx,
    decreases hazards.len(),
{
    let rest = hazards.drop_last();
    let before = holes_among(rest);
    let holes = holes_among(hazards);
    if k < before.len() {
        let i = origin_of_hole(rest, k);
        assert forall|j: int| 0 <= j < i && (#[trigger] hazards[j]).0 is Hole implies exists|m: int|
            0 <= m < k && #[trigger] holes[m].0 == hazards[j].0->Hole_idx by {
            assert(rest[j] == hazards[j]);
            let m = choose|m: int|
                0 <= m < k && #[trigger] before[m].0 == rest[j].0->Hole_idx;
            assert(holes[m].0 == hazards[j].0->Hole_idx);
        }
        i
    } else {
        let i = hazards.len() - 1;
        assert forall|j: int| 0 <= j < i && (#[trigger] hazards[j]).0 is Hole implies exists|m: int|
            0 <= m < k && #[trigger] holes[m].0 == hazards[j].0->Hole_idx by {
            assert(rest[j] == hazards[j]);
            lemma_hole_is_picked(rest, j, hazards[j].0->Hole_idx);
            let m = choose|m: int|
                0 <= m < before.len() && #[trigger] before[m].0 == hazards[j].0->Hole_idx;
            assert(holes[m].0 == hazards[j].0->Hole_idx);
        }
        i
    }
}

/// A hole is quantified against its own shape: that of the first hazard on the layout that is the hole with this index.
/// Whatever the evaluator has been through since it was built changes nothing of that.
pub proof fn law_hole_has_its_own_shape<S: Scalar, K, P>(
    current: K,
    zero: S,
    infinity: S,
    hazards: Seq<(HazardKind<K>, P)>,
    history: Seq<EvaluatorView<S, K, P>>,
    idx: usize,
    shape: P,
)
    requires
        history.len() > 0,
        history[0] == EvaluatorView::unbounded(current, zero, infinity, hazards),
        forall|i: int|
            #![trigger history[i]]
            0 < i < history.len() ==> goes_on(history[i - 1], history[i]),
        first_hole(history.last().holes, idx, shape),
    ensures
        exists|i: int|
            {
                &&& 0 <= i < hazards.len()
                &&& #[trigger] hazards[i] == (HazardKind::<K>::Hole { idx }, shape)
                &&& forall|j: int|
                    0 <= j < i ==> (#[trigger] hazards[j]).0 != (HazardKind::<K>::Hole { idx })
            },
{
    law_history_keeps_the_layout(history);
    let holes = holes_among(hazards);
    let k = choose|k: int|
        {
            &&& 0 <= k < holes.len()
            &&& #[trigger] holes[k] == (idx, shape)
            &&& forall|j: int| 0 <= j < k ==> #[trigger] holes[j].0 != idx
        };
    let i = origin_of_hole(hazards, k);
    assert forall|j: int| 0 <= j < i implies (#[trigger] hazards[j]).0 != (HazardKind::<
        K,
    >::Hole { idx }) by {
        if hazards[j].0 == (HazardKind::<K>::Hole { idx }) {
            let m = choose|m: int| 0 <= m < k && #[trigger] holes[m].0 == hazards[j].0->Hole_idx;
            assert(holes[m].0 == idx);
        }
    }
    assert(hazards[i] == (HazardKind::<K>::Hole { idx }, shape));
}

/// Whatever an evaluator has been through, it evaluates the same item, with the same zero and infinity, and knows the
/// same placed items and holes.
pub proof fn law_history_keeps_the_layout<S: Scalar, K, P>(history: Seq<EvaluatorView<S, K, P>>)
    requires
        history.len() > 0,
        forall|i: int|
            #![trigger history[i]]
            0 < i < history.len() ==> goes_on(history[i - 1], history[i]),
    ensures
        history.last().current == history[0].current,
        history.last().zero == history[0].zero,
        history.last().infinity == history[0].infinity,
        history.last().placed == history[0].placed,
        history.last().holes == history[0].holes,
    decreases history.len(),
{
    if history.len() > 1 {
        let before = history.drop_last();
        assert forall|i: int|
            #![trigger before[i]]
            0 < i < before.len() implies goes_on(before[i - 1], before[i]) by {
            assert(before[i] == history[i] && before[i - 1] == history[i - 1]);
        }
        law_history_keeps_the_layout(before);
        assert(goes_on(before.last(), history[history.len() - 1]));
    }
}

/// The loss before the weight is applied, where it was not cut off.
pub open spec fn raw_value<S>(raw: RawLoss<S>) -> Option<S> {
    match raw {
        RawLoss::Exact(value) => Some(value),
        RawLoss::Bounded(value) => value,
    }
}

/// What remained of the bound, and the loss that was added, if any.
proof fn parts_of_step<S: Scalar, K, P>(
    state: EvaluatorView<S, K, P>,
    hazard: HazardKind<K>,
    raw: RawLoss<S>,
    weight: S,
    next: EvaluatorView<S, K, P>,
    stop: bool,
) -> (parts: (S, Option<S>))
    requires
        state.adds(hazard, raw, weight, next, stop),
    ensures
        state.remaining(parts.0),
        weighted_loss(hazard, raw, weight, parts.0, parts.1),
        match parts.1 {
            None => next == state && stop,
            Some(loss) => {
                &&& sum(state.loss, loss, next.loss)
                &&& next == EvaluatorView { loss: next.loss, ..state }
                &&& above(next.loss, next.bound, stop)
            },
        },
{
    choose|rest: S, extra: Option<S>|
        {
            &&& #[trigger] state.remaining(rest)
            &&& #[trigger] weighted_loss(hazard, raw, weight, rest, extra)
            &&& match extra {
                None => next == state && stop,
                Some(loss) => {
                    &&& sum(state.loss, loss, next.loss)
                    &&& next == EvaluatorView { loss: next.loss, ..state }
                    &&& above(next.loss, next.bound, stop)
                },
            }
        }
}

/// The weighted loss, whether or not it was kept.
proof fn weighed<S: Scalar, K>(
    hazard: HazardKind<K>,
    raw: RawLoss<S>,
    weight: S,
    max: S,
    loss: Option<S>,
) -> (x: S)
    requires
        weighted_loss(hazard, raw, weight, max, loss),
        raw_value(raw) is Some,
    ensures
        product(raw_value(raw)->0, weight, x),
        loss is Some ==> loss == Some(x),
        if raw is Exact && hazard !is Exterior {
            at_most(x, max, loss is Some)
        } else {
            loss is Some
        },
{
    if raw is Exact && hazard !is Exterior {
        let value = raw_value(raw)->0;
        assert(bounded_product(value, weight, max, loss));
        let (x, kept) = choose|x: S, kept: bool|
            {
                &&& #[trigger] product(value, weight, x)
                &&& #[trigger] at_most(x, max, kept)
                &&& loss == if kept {
                    Some(x)
                } else {
                    None
                }
            };
        x
    } else {
        loss->0
    }
}

/// Where the loss was not cut off, its weighted value is a number.
pub open spec fn weighs_numbers<S: Scalar>(raw: RawLoss<S>, weight: S) -> bool {
    raw_value(raw) matches Some(value) ==> forall|loss: S| #[trigger]
        product(value, weight, loss) ==> number(loss)
}

/// What is at most something that is at most a third is at most the third.
pub open spec fn transitive_order<S: Scalar>() -> bool {
    forall|x: S, y: S, z: S| #[trigger]
        at_most(x, y, true) && #[trigger] at_most(y, z, true) ==> !at_most(x, z, false)
}

/// A greater bound keeps the loss that a lesser one has kept: a bound decides whether there is a loss, never what it
/// is. Under a bound that the loss is at most, as every number is at most infinity, there is one. A quantification that
/// stops early may give up under the lesser bound only.
pub proof fn law_bound_never_changes_loss<S: Scalar, K>(
    hazard: HazardKind<K>,
    raw: RawLoss<S>,
    greater_raw: RawLoss<S>,
    weight: S,
    bound: S,
    greater: S,
    loss: Option<S>,
    greater_loss: Option<S>,
)
    requires
        single_valued::<S>(),
        transitive_order::<S>(),
        at_most(bound, greater, true),
        greater_raw == raw || raw == RawLoss::<S>::Bounded(None) && greater_raw is Bounded,
        weighs_numbers(raw, weight),
        weighted_loss(hazard, raw, weight, bound, loss),
        weighted_loss(hazard, greater_raw, weight, greater, greater_loss),
    ensures
        loss is Some ==> greater_loss == loss,
        raw_value(greater_raw) is Some && (forall|x: S| #[trigger]
            product(raw_value(greater_raw)->0, weight, x) ==> !at_most(x, greater, false))
            ==> greater_loss is Some,
{
    if raw_value(greater_raw) is Some {
        let y = weighed(hazard, greater_raw, weight, greater, greater_loss);
        assert(product(raw_value(greater_raw)->0, weight, y));
    }
    if loss is Some {
        let x = weighed(hazard, raw, weight, bound, loss);
        let y = weighed(hazard, greater_raw, weight, greater, greater_loss);
        assert(number(x));
        assert(x == y);
    }
}

/// Nothing stops an evaluation without a bound, also where the loss has overflowed, and every loss is added: if
/// nothing is above infinity, and every weighted loss is at most infinity, as every number is.
pub proof fn law_unbounded_never_stops<S: Scalar, K, P>(
    states: Seq<EvaluatorView<S, K, P>>,
    collisions: Seq<Collision<S, K>>,
    stops: Seq<bool>,
    i: int,
)
    requires
        evaluates(states, collisions, stops),
        states[0].bound == states[0].infinity,
        !equal(states[0].infinity, states[0].infinity, false),
        forall|x: S| !#[trigger] above(x, states[0].infinity, true),
        forall|j: int|
            0 <= j < stops.len() ==> raw_value((#[trigger] collisions[j]).raw) is Some && forall|loss: S| #[trigger]
                product(raw_value(collisions[j].raw)->0, collisions[j].weight, loss) ==> !at_most(
                    loss,
                    states[0].infinity,
                    false,
                ),
        0 <= i < stops.len(),
    ensures
        !stops[i],
        states[i + 1] == (EvaluatorView { loss: states[i + 1].loss, ..states[0] }),
        exists|loss: S| #[trigger]
            product(raw_value(collisions[i].raw)->0, collisions[i].weight, loss) && sum(
                states[i].loss,
                loss,
                states[i + 1].loss,
            ),
    decreases i,
{
    if i > 0 {
        law_unbounded_never_stops(states, collisions, stops, i - 1);
    }
    let state = states[i];
    let next = states[i + 1];
    let c = collisions[i];
    assert(state.adds(c.hazard, c.raw, c.weight, next, stops[i]));
    assert(state == EvaluatorView { loss: state.loss, ..states[0] });
    let (rest, extra) = parts_of_step(state, c.hazard, c.raw, c.weight, next, stops[i]);
    assert(rest == states[0].infinity);
    let x = weighed(c.hazard, c.raw, c.weight, rest, extra);
    assert(product(raw_value(collisions[i].raw)->0, collisions[i].weight, x));
}

/// `raw` is what a quantification of `loss` gives: the loss itself, or, for one that stops early, the loss unless it
/// is above the greatest one of interest.
pub open spec fn quantifies<S: Scalar, K, P>(
    value: spec_fn(S) -> real,
    state: EvaluatorView<S, K, P>,
    loss: S,
    weight: S,
    raw: RawLoss<S>,
) -> bool {
    ||| raw == RawLoss::Exact(loss)
    ||| {
        &&& 0real < value(weight)
        &&& state.can_bound(weight)
        &&& exists|greatest: S, within: bool|
            {
                &&& #[trigger] state.raw_bound(weight, greatest)
                &&& #[trigger] at_most(loss, greatest, within)
                &&& raw == RawLoss::Bounded(
                    if within {
                        Some(loss)
                    } else {
                        None
                    },
                )
            }
    }
}

/// With exact numbers a hazard stops an evaluation if and only if its weighted loss takes the total above the bound,
/// and otherwise that loss is added. It makes no difference whether the quantification stops early.
pub proof fn law_stops_exactly_above_bound<S: Scalar, K, P>(
    value: spec_fn(S) -> real,
    state: EvaluatorView<S, K, P>,
    hazard: HazardKind<K>,
    loss: S,
    raw: RawLoss<S>,
    weight: S,
    next: EvaluatorView<S, K, P>,
    stop: bool,
)
    requires
        exact_arithmetic(value),
        exact_division(value),
        0real <= value(state.loss),
        0real <= value(loss) * value(weight),
        quantifies(value, state, loss, weight, raw),
        state.can_add(hazard, raw, weight),
        state.adds(hazard, raw, weight, next, stop),
    ensures
        stop == (value(state.loss) + value(loss) * value(weight) > value(state.bound)),
        !stop ==> next == (EvaluatorView { loss: next.loss, ..state }) && value(next.loss) == value(
            state.loss,
        ) + value(loss) * value(weight),
{
    let (rest, extra) = parts_of_step(state, hazard, raw, weight, next, stop);
    // What remains is the rest of the bound; or the bound, where that equals infinity.
    assert(value(rest) == value(state.bound) - value(state.loss) || value(rest) == value(
        state.bound,
    ));
    if let Some(x) = extra {
        assert(weighted_loss(hazard, raw, weight, rest, Some(x)));
        assert(state.loss.add_req(x));
        assert(value(x) == value(loss) * value(weight));
    } else if let RawLoss::Bounded(None) = raw {
        let (greatest, within) = choose|greatest: S, within: bool|
            {
                &&& #[trigger] state.raw_bound(weight, greatest)
                &&& #[trigger] at_most(loss, greatest, within)
                &&& raw == RawLoss::Bounded(
                    if within {
                        Some(loss)
                    } else {
                        None
                    },
                )
            };
        let most = choose|most: S| #[trigger]
            state.remaining(most) && quotient(most, weight, greatest);
        assert(value(most) == value(rest));
        assert(value(loss) * value(weight) > value(most));
    } else {
        let x = choose|x: S| #[trigger] product(loss, weight, x) && at_most(x, rest, false);
        assert(value(x) > value(rest));
    }
}

/// The weighted losses, added up. Each is a loss with its weight.
pub open spec fn total_loss<S>(value: spec_fn(S) -> real, losses: Seq<(S, S)>) -> real {
    losses.fold_left(0real, |total: real, loss: (S, S)| total + value(loss.0) * value(loss.1))
}

/// An evaluation of exact numbers from the start, up to the first stop or to the end: `losses` are those of all the
/// collisions, with their weights, none of which is negative.
pub open spec fn exact_run<S: Scalar, K, P>(
    value: spec_fn(S) -> real,
    losses: Seq<(S, S)>,
    states: Seq<EvaluatorView<S, K, P>>,
    collisions: Seq<Collision<S, K>>,
    stops: Seq<bool>,
) -> bool {
    &&& exact_arithmetic(value)
    &&& exact_division(value)
    &&& evaluates(states, collisions, stops)
    &&& stops.len() == collisions.len() || stops.len() > 0 && stops.last()
    &&& value(states[0].loss) == 0real
    &&& 0real <= value(states[0].bound)
    &&& losses.len() == collisions.len()
    &&& forall|i: int|
        0 <= i < losses.len() ==> collisions[i].weight == (#[trigger] losses[i]).1 && 0real <= value(
            losses[i].0,
        ) * value(losses[i].1)
    &&& forall|i: int|
        0 <= i < stops.len() ==> states[i].can_add(
            (#[trigger] collisions[i]).hazard,
            collisions[i].raw,
            collisions[i].weight,
        ) && quantifies(
            value,
            states[i],
            losses[i].0,
            collisions[i].weight,
            collisions[i].raw,
        )
}

proof fn lemma_total_of_prefix<S>(value: spec_fn(S) -> real, losses: Seq<(S, S)>, k: int)
    requires
        0 <= k < losses.len(),
    ensures
        total_loss(value, losses.take(k + 1)) == total_loss(value, losses.take(k)) + value(
            losses[k].0,
        ) * value(losses[k].1),
{
    assert(losses.take(k + 1).drop_last() == losses.take(k));
}

proof fn lemma_total_grows<S>(value: spec_fn(S) -> real, losses: Seq<(S, S)>, k: int)
    requires
        0 <= k <= losses.len(),
        forall|i: int|
            0 <= i < losses.len() ==> 0real <= value((#[trigger] losses[i]).0) * value(losses[i].1),
    ensures
        total_loss(value, losses.take(k)) <= total_loss(value, losses),
    decreases losses.len() - k,
{
    if k < losses.len() {
        lemma_total_of_prefix(value, losses, k);
        assert(0real <= value(losses[k].0) * value(losses[k].1));
        lemma_total_grows(value, losses, k + 1);
    } else {
        assert(losses.take(k) == losses);
    }
}

proof fn lemma_run_adds_up<S: Scalar, K, P>(
    value: spec_fn(S) -> real,
    losses: Seq<(S, S)>,
    states: Seq<EvaluatorView<S, K, P>>,
    collisions: Seq<Collision<S, K>>,
    stops: Seq<bool>,
    k: int,
)
    requires
        exact_run(value, losses, states, collisions, stops),
        0 <= k <= stops.len(),
        forall|i: int| 0 <= i < k ==> !#[trigger] stops[i],
    ensures
        states[k] == (EvaluatorView { loss: states[k].loss, ..states[0] }),
        value(states[k].loss) == total_loss(value, losses.take(k)),
        0real <= value(states[k].loss) <= value(states[k].bound),
    decreases k,
{
    if k == 0 {
        assert(losses.take(0).len() == 0);
    } else {
        let i = k - 1;
        lemma_run_adds_up(value, losses, states, collisions, stops, i);
        lemma_total_of_prefix(value, losses, i);
        let c = collisions[i];
        assert(!stops[i]);
        assert(collisions[i].weight == losses[i].1);
        law_stops_exactly_above_bound(
            value,
            states[i],
            c.hazard,
            losses[i].0,
            c.raw,
            c.weight,
            states[k],
            stops[i],
        );
    }
}

/// With exact numbers, some collision stops an evaluation if and only if the weighted losses of all the collisions add
/// up to more than the bound. If none does, the loss is what they add up to.
pub proof fn law_run_stops_above_bound<S: Scalar, K, P>(
    value: spec_fn(S) -> real,
    losses: Seq<(S, S)>,
    states: Seq<EvaluatorView<S, K, P>>,
    collisions: Seq<Collision<S, K>>,
    stops: Seq<bool>,
)
    requires
        exact_run(value, losses, states, collisions, stops),
    ensures
        stopped(stops) <==> total_loss(value, losses) > value(states[0].bound),
        !stopped(stops) ==> value(states.last().loss) == total_loss(value, losses),
{
    if stopped(stops) {
        let any = choose|i: int| 0 <= i < stops.len() && #[trigger] stops[i];
        let i = lemma_first_stop(stops, any);
        lemma_run_adds_up(value, losses, states, collisions, stops, i);
        let c = collisions[i];
        assert(collisions[i].weight == losses[i].1);
        law_stops_exactly_above_bound(
            value,
            states[i],
            c.hazard,
            losses[i].0,
            c.raw,
            c.weight,
            states[i + 1],
            stops[i],
        );
        lemma_total_of_prefix(value, losses, i);
        lemma_total_grows(value, losses, i + 1);
    } else {
        if stops.len() > 0 {
            assert(!stops[stops.len() - 1]);
        }
        lemma_run_adds_up(value, losses, states, collisions, stops, stops.len() as int);
        assert(losses.take(stops.len() as int) == losses);
    }
}

proof fn lemma_first_stop(stops: Seq<bool>, any: int) -> (first: int)
    requires
        0 <= any < stops.len(),
        stops[any],
    ensures
        0 <= first <= any,
        stops[first],
        forall|i: int| 0 <= i < first ==> !#[trigger] stops[i],
    decreases any,
{
    if exists|i: int| 0 <= i < any && #[trigger] stops[i] {
        let i = choose|i: int| 0 <= i < any && #[trigger] stops[i];
        lemma_first_stop(stops, i)
    } else {
        any
    }
}

/// With exact numbers, the order in which the collisions are added changes neither whether the bound is exceeded nor,
/// if it is not, the loss.
pub proof fn law_order_does_not_matter<S: Scalar, K, P>(
    value: spec_fn(S) -> real,
    losses: Seq<(S, S)>,
    states: Seq<EvaluatorView<S, K, P>>,
    collisions: Seq<Collision<S, K>>,
    stops: Seq<bool>,
    other_losses: Seq<(S, S)>,
    other_states: Seq<EvaluatorView<S, K, P>>,
    other_collisions: Seq<Collision<S, K>>,
    other_stops: Seq<bool>,
)
    requires
        exact_run(value, losses, states, collisions, stops),
        exact_run(value, other_losses, other_states, other_collisions, other_stops),
        states[0].bound == other_states[0].bound,
        losses.to_multiset() == other_losses.to_multiset(),
    ensures
        stopped(stops) == stopped(other_stops),
        !stopped(stops) ==> value(states.last().loss) == value(other_states.last().loss),
{
    law_run_stops_above_bound(value, losses, states, collisions, stops);
    law_run_stops_above_bound(value, other_losses, other_states, other_collisions, other_stops);
    let add = |total: real, loss: (S, S)| total + value(loss.0) * value(loss.1);
    vstd::seq_lib::lemma_fold_left_permutation(losses, other_losses, add, 0real);
}

/// A step of an evaluator: a new evaluation, or the loss of a hazard.
pub open spec fn goes_on<S: Scalar, K, P>(
    state: EvaluatorView<S, K, P>,
    next: EvaluatorView<S, K, P>,
) -> bool {
    ||| exists|bound: S| next == #[trigger] state.reloaded(bound)
    ||| exists|hazard: HazardKind<K>, raw: RawLoss<S>, weight: S, stop: bool| #[trigger]
        state.adds(hazard, raw, weight, next, stop)
}

/// Nothing of earlier evaluations survives a new one: whatever an evaluator has been through, it is then the same as
/// one that is new.
pub proof fn law_reload_forgets<S: Scalar, K, P>(history: Seq<EvaluatorView<S, K, P>>, bound: S)
    requires
        history.len() > 0,
        forall|i: int|
            #![trigger history[i]]
            0 < i < history.len() ==> goes_on(history[i - 1], history[i]),
    ensures
        history.last().reloaded(bound) == history[0].reloaded(bound),
        history.last().reloaded(bound).loss == history[0].zero,
    decreases history.len(),
{
    if history.len() > 1 {
        let before = history.drop_last();
        assert forall|i: int|
            #![trigger before[i]]
            0 < i < before.len() implies goes_on(before[i - 1], before[i]) by {
            assert(before[i] == history[i] && before[i - 1] == history[i - 1]);
        }
        law_reload_forgets(before, bound);
        let last = history[history.len() - 1];
        assert(goes_on(before.last(), last));
    }
}

/// Everything that is computed when a collision is added is a number.
pub open spec fn adds_numbers<S: Scalar, K, P>(
    state: EvaluatorView<S, K, P>,
    c: Collision<S, K>,
    next: EvaluatorView<S, K, P>,
) -> bool {
    &&& forall|rest: S| #[trigger] state.remaining(rest) ==> number(rest)
    &&& weighs_numbers(c.raw, c.weight)
    &&& number(next.loss)
}

proof fn lemma_one_step<S: Scalar, K, P>(
    state: EvaluatorView<S, K, P>,
    c: Collision<S, K>,
    a: EvaluatorView<S, K, P>,
    a_stop: bool,
    b: EvaluatorView<S, K, P>,
    b_stop: bool,
)
    requires
        single_valued::<S>(),
        adds_numbers(state, c, a),
        state.adds(c.hazard, c.raw, c.weight, a, a_stop),
        state.adds(c.hazard, c.raw, c.weight, b, b_stop),
    ensures
        a == b,
        a_stop == b_stop,
{
    let (rest, x) = parts_of_step(state, c.hazard, c.raw, c.weight, a, a_stop);
    let (other, y) = parts_of_step(state, c.hazard, c.raw, c.weight, b, b_stop);
    assert(number(rest));
    assert(rest == other);
    if raw_value(c.raw) is Some {
        let v = weighed(c.hazard, c.raw, c.weight, rest, x);
        let w = weighed(c.hazard, c.raw, c.weight, other, y);
        assert(number(v));
        assert(v == w);
    }
    assert(x == y);
}

/// Where every operation has one outcome, an evaluation can be repeated: the same collisions give the same stops and
/// the same losses, as long as these are numbers.
pub proof fn law_same_collisions_same_loss<S: Scalar, K, P>(
    states: Seq<EvaluatorView<S, K, P>>,
    stops: Seq<bool>,
    other_states: Seq<EvaluatorView<S, K, P>>,
    other_stops: Seq<bool>,
    collisions: Seq<Collision<S, K>>,
    k: int,
)
    requires
        single_valued::<S>(),
        evaluates(states, collisions, stops),
        evaluates(other_states, collisions, other_stops),
        forall|i: int|
            0 <= i < stops.len() ==> adds_numbers(states[i], #[trigger] collisions[i], states[i + 1]),
        states[0] == other_states[0],
        0 <= k <= stops.len(),
        k <= other_stops.len(),
    ensures
        stops.take(k) == other_stops.take(k),
        states.take(k + 1) == other_states.take(k + 1),
    decreases k,
{
    if k > 0 {
        let i = k - 1;
        law_same_collisions_same_loss(states, stops, other_states, other_stops, collisions, i);
        assert(states[i] == states.take(k)[i] && other_states[i] == other_states.take(k)[i]);
        lemma_one_step(
            states[i],
            collisions[i],
            states[k],
            stops[i],
            other_states[k],
            other_stops[i],
        );
        assert forall|j: int| 0 <= j < k implies stops[j] == other_stops[j] && states[j]
            == other_states[j] by {
            if j < i {
                assert(stops.take(i)[j] == other_stops.take(i)[j]);
            }
            assert(states.take(k)[j] == other_states.take(k)[j]);
        }
        assert(stops.take(k) =~= other_stops.take(k));
        assert(states.take(k + 1) =~= other_states.take(k + 1));
    } else {
        assert(stops.take(0) =~= other_stops.take(0));
        assert(states.take(1) =~= other_states.take(1));
    }
}

/// Two evaluators that were built alike, whatever each has been through, agree after a new evaluation under the same
/// bound: the same collisions give the same stops and the same losses on both.
pub proof fn law_reloaded_evaluators_agree<S: Scalar, K, P>(
    history: Seq<EvaluatorView<S, K, P>>,
    other_history: Seq<EvaluatorView<S, K, P>>,
    bound: S,
    states: Seq<EvaluatorView<S, K, P>>,
    stops: Seq<bool>,
    other_states: Seq<EvaluatorView<S, K, P>>,
    other_stops: Seq<bool>,
    collisions: Seq<Collision<S, K>>,
    k: int,
)
    requires
        single_valued::<S>(),
        history.len() > 0,
        other_history.len() > 0,
        history[0] == other_history[0],
        forall|i: int|
            #![trigger history[i]]
            0 < i < history.len() ==> goes_on(history[i - 1], history[i]),
        forall|i: int|
            #![trigger other_history[i]]
            0 < i < other_history.len() ==> goes_on(other_history[i - 1], other_history[i]),
        states[0] == history.last().reloaded(bound),
        other_states[0] == other_history.last().reloaded(bound),
        evaluates(states, collisions, stops),
        evaluates(other_states, collisions, other_stops),
        forall|i: int|
            0 <= i < stops.len() ==> adds_numbers(states[i], #[trigger] collisions[i], states[i + 1]),
        0 <= k <= stops.len(),
        k <= other_stops.len(),
    ensures
        states[0].loss == states[0].zero,
        stops.take(k) == other_stops.take(k),
        states.take(k + 1) == other_states.take(k + 1),
{
    law_reload_forgets(history, bound);
    law_reload_forgets(other_history, bound);
    law_same_collisions_same_loss(states, stops, other_states, other_stops, collisions, k);
}

/// What a new evaluation is: nothing lost yet, under the bound that was asked for, of the same item on the same layout.
pub proof fn law_reload_starts_again<S, K, P>(state: EvaluatorView<S, K, P>, bound: S)
    ensures
        state.reloaded(bound).loss == state.zero,
        state.reloaded(bound).bound == bound,
        state.reloaded(bound).current == state.current,
        state.reloaded(bound).zero == state.zero,
        state.reloaded(bound).infinity == state.infinity,
        state.reloaded(bound).placed == state.placed,
        state.reloaded(bound).holes == state.holes,
{
}

/// What remains of a bound is the bound less the loss, and infinity where the bound equals infinity. The greatest loss
/// of interest is that, divided by the weight.
pub proof fn law_what_remains<S: Scalar, K, P>(
    state: EvaluatorView<S, K, P>,
    weight: S,
    greatest: S,
)
    requires
        state.raw_bound(weight, greatest),
    ensures
        exists|rest: S| #[trigger]
            quotient(rest, weight, greatest) && ({
                ||| equal(state.bound, state.infinity, true) && rest == state.infinity
                ||| equal(state.bound, state.infinity, false) && difference(
                    state.bound,
                    state.loss,
                    rest,
                )
            }),
{
    let rest = choose|rest: S| #[trigger]
        state.remaining(rest) && quotient(rest, weight, greatest);
    assert(quotient(rest, weight, greatest));
}

/// A collision that was not cut off while it was quantified, and one with the outside of the container, adds its loss
/// times its weight, whatever the bound, and stops the evaluation if the sum is above the bound.
pub proof fn law_uncut_loss_is_added<S: Scalar, K, P>(
    state: EvaluatorView<S, K, P>,
    hazard: HazardKind<K>,
    raw: RawLoss<S>,
    weight: S,
    next: EvaluatorView<S, K, P>,
    stop: bool,
    loss: S,
)
    requires
        state.adds(hazard, raw, weight, next, stop),
        raw == RawLoss::Bounded(Some(loss)) || hazard is Exterior && raw == RawLoss::Exact(loss),
    ensures
        exists|x: S| #[trigger]
            product(loss, weight, x) && sum(state.loss, x, next.loss) && above(
                next.loss,
                state.bound,
                stop,
            ),
        next == (EvaluatorView { loss: next.loss, ..state }),
{
    let (rest, extra) = parts_of_step(state, hazard, raw, weight, next, stop);
    assert(product(loss, weight, extra->0));
}

/// A collision with an item or a hole that was quantified in full stops the evaluation, and adds nothing, if its loss
/// times its weight is not at most what remains. Otherwise that is added, and stops the evaluation if the sum is above
/// the bound.
pub proof fn law_full_loss_is_held_to_the_rest<S: Scalar, K, P>(
    state: EvaluatorView<S, K, P>,
    hazard: HazardKind<K>,
    loss: S,
    weight: S,
    next: EvaluatorView<S, K, P>,
    stop: bool,
) -> (parts: (S, S))
    requires
        state.adds(hazard, RawLoss::Exact(loss), weight, next, stop),
        hazard !is Exterior,
    ensures
        equal(state.bound, state.infinity, true) && parts.0 == state.infinity || equal(
            state.bound,
            state.infinity,
            false,
        ) && difference(state.bound, state.loss, parts.0),
        product(loss, weight, parts.1),
        at_most(parts.1, parts.0, true) && sum(state.loss, parts.1, next.loss) && above(
            next.loss,
            state.bound,
            stop,
        ) && next == (EvaluatorView { loss: next.loss, ..state }) || at_most(
            parts.1,
            parts.0,
            false,
        ) && stop && next == state,
{
    let (rest, extra) = parts_of_step(
        state,
        hazard,
        RawLoss::Exact(loss),
        weight,
        next,
        stop,
    );
    let x = weighed(hazard, RawLoss::Exact(loss), weight, rest, extra);
    (rest, x)
}

/// A collision that was cut off while it was quantified stops the evaluation and adds nothing.
pub proof fn law_cut_loss_stops<S: Scalar, K, P>(
    state: EvaluatorView<S, K, P>,
    hazard: HazardKind<K>,
    weight: S,
    next: EvaluatorView<S, K, P>,
    stop: bool,
)
    requires
        state.adds(hazard, RawLoss::Bounded(None), weight, next, stop),
    ensures
        stop,
        next == state,
{
}

/// The weighted loss of a hazard is its loss times its weight. It is given up only where a collision with an item or a
/// hole was quantified in full and the product is not at most the bound, or where it was cut off before.
pub proof fn law_weighted_loss_is_the_product<S: Scalar, K>(
    hazard: HazardKind<K>,
    raw: RawLoss<S>,
    weight: S,
    max: S,
    loss: Option<S>,
)
    requires
        weighted_loss(hazard, raw, weight, max, loss),
    ensures
        loss matches Some(x) ==> match raw {
            RawLoss::Exact(v) => product(v, weight, x) && (hazard is Exterior || at_most(
                x,
                max,
                true,
            )),
            RawLoss::Bounded(v) => v is Some && product(v->0, weight, x),
        },
        loss is None ==> match raw {
            RawLoss::Exact(v) => hazard !is Exterior && exists|x: S| #[trigger]
                product(v, weight, x) && at_most(x, max, false),
            RawLoss::Bounded(v) => v is None,
        },
{
    if raw_value(raw) is Some {
        let x = weighed(hazard, raw, weight, max, loss);
    }
}

/// Where every operation can be computed, the loss of every hazard that is supported can be added, if it was quantified
/// in full in the case of the container.
pub proof fn law_supported_hazards_can_be_added<S: Scalar, K, P>(
    state: EvaluatorView<S, K, P>,
    hazard: HazardKind<K>,
    raw: RawLoss<S>,
    weight: S,
)
    requires
        always_computed::<S>(),
        state.supports(hazard),
        hazard is Exterior ==> raw is Exact,
    ensures
        state.can_add(hazard, raw, weight),
        state.can_bound(weight),
{
}

} // verus!
