//! What the necessary width of a strip promises.
use crate::optimizer::strip_width::{
    can_fill, can_measure, can_widen, container_width, fits, is_area_width, is_minimum_strip_width, item_width,
    measured, narrowed, narrowest, pose_width, start_width, widened, Constants, Pose, StripItem, StripShape,
};
use crate::scalar::{
    always_computed, at_most, can_total, difference, exact_arithmetic, exact_division, greater_of,
    law_total_is_exact, law_totals_are_computed, lemma_can_total_prefix, lesser_of, monotone_arithmetic, number,
    numbers_in_total, ordered_by, product, quotient, single_valued, sum, weighted_total, Scalar,
};
use vstd::prelude::*;
use vstd::std_specs::ops::{AddSpec, MulSpec, SubSpec};

verus! {

/// What is computed of the poses of an item are numbers.
pub open spec fn numbers_in_poses<S: Scalar>(poses: Seq<Pose<S>>, height: S, tolerance: S) -> bool {
    &&& forall|tallest: S| #[trigger] sum(height, tolerance, tallest) ==> number(tallest)
    &&& forall|i: int, cut: S|
        0 <= i < poses.len() && #[trigger] difference(poses[i].width, tolerance, cut) ==> number(cut)
}

/// What is computed of an item are numbers.
pub open spec fn numbers_in_item<S: Scalar>(
    item: StripItem<S>,
    height: S,
    constants: Constants<S>,
) -> bool {
    item.poses matches Some(poses) ==> forall|tolerance: S| #[trigger]
        product(item.diameter, constants.rel_tol, tolerance) ==> number(tolerance)
            && numbers_in_poses(poses@, height, tolerance)
}

/// Everything that the necessary width is computed of is a number, and so is what is computed on the way. A pose may be
/// anything as long as what is computed of it is a number.
pub open spec fn numbers_throughout<S: Scalar>(
    shape: StripShape<S>,
    area_width: S,
    items: Seq<StripItem<S>>,
    constants: Constants<S>,
) -> bool {
    &&& number(area_width)
    &&& number(constants.zero)
    &&& number(constants.infinity)
    &&& forall|share: S| #[trigger]
        difference(constants.one, constants.rel_tol, share) ==> number(share)
    &&& forall|start: S| #[trigger] start_width(area_width, constants, start) ==> number(start)
    &&& forall|i: int|
        0 <= i < items.len() ==> numbers_in_item(
            #[trigger] items[i],
            shape.container_height,
            constants,
        )
    &&& forall|inset: S| #[trigger]
        difference(shape.strip_width, shape.container_width, inset) ==> number(inset)
    &&& forall|r: S| #[trigger]
        is_minimum_strip_width(shape, area_width, items, constants, r) ==> number(r)
}

/// The width found before the last pose was considered.
proof fn before_last_pose<S: Scalar>(
    poses: Seq<Pose<S>>,
    height: S,
    tolerance: S,
    zero: S,
    infinity: S,
    r: S,
) -> (before: S)
    requires
        poses.len() > 0,
        narrowest(poses, height, tolerance, zero, infinity, r),
    ensures
        narrowest(poses.drop_last(), height, tolerance, zero, infinity, before),
        narrowed(before, poses.last(), height, tolerance, zero, r),
{
    choose|before: S|
        {
            &&& narrowest(poses.drop_last(), height, tolerance, zero, infinity, before)
            &&& #[trigger] narrowed(before, poses.last(), height, tolerance, zero, r)
        }
}

/// The width found before the last item was considered.
proof fn before_last_item<S: Scalar>(
    start: S,
    items: Seq<StripItem<S>>,
    height: S,
    constants: Constants<S>,
    r: S,
) -> (before: S)
    requires
        items.len() > 0,
        container_width(start, items, height, constants, r),
    ensures
        container_width(start, items.drop_last(), height, constants, before),
        widened(before, items.last(), height, constants, r),
{
    choose|before: S|
        {
            &&& container_width(start, items.drop_last(), height, constants, before)
            &&& #[trigger] widened(before, items.last(), height, constants, r)
        }
}

/// The tolerance and the width of an item that was considered.
proof fn width_of_item<S: Scalar>(
    before: S,
    item: StripItem<S>,
    height: S,
    constants: Constants<S>,
    r: S,
) -> (found: (S, S))
    requires
        item.poses is Some,
        widened(before, item, height, constants, r),
    ensures
        item_width(item, height, constants, found.0, found.1),
        greater_of(before, found.1, r),
{
    choose|t: S, w: S| #[trigger]
        item_width(item, height, constants, t, w) && greater_of(before, w, r)
}

/// The start, the width of the container and the inset that a necessary width is made of.
proof fn parts_of_width<S: Scalar>(
    shape: StripShape<S>,
    area_width: S,
    items: Seq<StripItem<S>>,
    constants: Constants<S>,
    r: S,
) -> (parts: (S, S, S))
    requires
        is_minimum_strip_width(shape, area_width, items, constants, r),
    ensures
        measured(shape, area_width, items, constants, parts.0, parts.1, parts.2, r),
{
    choose|start: S, width: S, inset: S| #[trigger]
        measured(shape, area_width, items, constants, start, width, inset, r)
}

/// The share of the area that a start is made of.
proof fn share_of_start<S: Scalar>(area_width: S, constants: Constants<S>, start: S) -> (share: S)
    requires
        start_width(area_width, constants, start),
    ensures
        difference(constants.one, constants.rel_tol, share),
        product(area_width, share, start),
{
    choose|share: S| #[trigger]
        difference(constants.one, constants.rel_tol, share) && product(area_width, share, start)
}

/// The area that a width is made of.
proof fn area_of_width<S: Scalar>(
    zero: S,
    areas: Seq<S>,
    quantities: Seq<S>,
    height: S,
    width: S,
) -> (area: S)
    requires
        is_area_width(zero, areas, quantities, height, width),
    ensures
        weighted_total(zero, areas, quantities, area),
        quotient(area, height, width),
{
    choose|area: S| #[trigger]
        weighted_total(zero, areas, quantities, area) && quotient(area, height, width)
}

proof fn lemma_lesser<S: Scalar>(value: spec_fn(S) -> real, a: S, b: S, r: S)
    requires
        ordered_by(value),
        number(a),
        number(b),
        lesser_of(a, b, r),
    ensures
        r == a || r == b,
        value(r) <= value(a),
        value(r) <= value(b),
{
}

proof fn lemma_greater<S: Scalar>(value: spec_fn(S) -> real, a: S, b: S, r: S)
    requires
        ordered_by(value),
        number(a),
        number(b),
        greater_of(a, b, r),
    ensures
        r == a || r == b,
        value(a) <= value(r),
        value(b) <= value(r),
{
}

proof fn lemma_one_lesser<S: Scalar>(a: S, b: S, r: S, s: S)
    requires
        single_valued::<S>(),
        lesser_of(a, b, r),
        lesser_of(a, b, s),
    ensures
        r == s,
{
}

proof fn lemma_one_greater<S: Scalar>(a: S, b: S, r: S, s: S)
    requires
        single_valued::<S>(),
        greater_of(a, b, r),
        greater_of(a, b, s),
    ensures
        r == s,
{
}

/// A pose fits or it does not.
proof fn lemma_fits_or_not<S: Scalar>(poses: Seq<Pose<S>>, height: S, tolerance: S, i: int)
    requires
        single_valued::<S>(),
        numbers_in_poses(poses, height, tolerance),
    ensures
        !(fits(poses[i], height, tolerance, true) && fits(poses[i], height, tolerance, false)),
{
}

/// A pose has one width, and it is a number.
proof fn lemma_one_pose_width<S: Scalar>(
    poses: Seq<Pose<S>>,
    height: S,
    tolerance: S,
    zero: S,
    i: int,
    r: S,
    s: S,
)
    requires
        single_valued::<S>(),
        numbers_in_poses(poses, height, tolerance),
        number(zero),
        0 <= i < poses.len(),
        pose_width(poses[i], tolerance, zero, r),
        pose_width(poses[i], tolerance, zero, s),
    ensures
        r == s,
        number(r),
{
    let cut = choose|cut: S| #[trigger]
        difference(poses[i].width, tolerance, cut) && greater_of(cut, zero, r);
    let other = choose|cut: S| #[trigger]
        difference(poses[i].width, tolerance, cut) && greater_of(cut, zero, s);
    assert(number(cut));
    assert(cut == other);
    lemma_one_greater(cut, zero, r, s);
}

proof fn lemma_numbers_in_rest<S: Scalar>(poses: Seq<Pose<S>>, height: S, tolerance: S)
    requires
        poses.len() > 0,
        numbers_in_poses(poses, height, tolerance),
    ensures
        numbers_in_poses(poses.drop_last(), height, tolerance),
{
    assert forall|i: int, cut: S|
        0 <= i < poses.drop_last().len() && #[trigger] difference(
            poses.drop_last()[i].width,
            tolerance,
            cut,
        ) implies number(cut) by {
        assert(difference(poses[i].width, tolerance, cut));
    }
}

/// There is one width of the narrowest pose.
proof fn lemma_one_narrowest<S: Scalar>(
    poses: Seq<Pose<S>>,
    height: S,
    tolerance: S,
    zero: S,
    infinity: S,
    r: S,
    s: S,
)
    requires
        single_valued::<S>(),
        number(zero),
        numbers_in_poses(poses, height, tolerance),
        narrowest(poses, height, tolerance, zero, infinity, r),
        narrowest(poses, height, tolerance, zero, infinity, s),
    ensures
        r == s,
    decreases poses.len(),
{
    if poses.len() > 0 {
        let a = before_last_pose(poses, height, tolerance, zero, infinity, r);
        let b = before_last_pose(poses, height, tolerance, zero, infinity, s);
        lemma_numbers_in_rest(poses, height, tolerance);
        lemma_one_narrowest(poses.drop_last(), height, tolerance, zero, infinity, a, b);
        let i = poses.len() - 1;
        let last = poses[i];
        lemma_fits_or_not(poses, height, tolerance, i);
        if fits(last, height, tolerance, true) {
            let x = choose|w: S| #[trigger]
                pose_width(last, tolerance, zero, w) && lesser_of(a, w, r);
            let y = choose|w: S| #[trigger]
                pose_width(last, tolerance, zero, w) && lesser_of(b, w, s);
            lemma_one_pose_width(poses, height, tolerance, zero, i, x, y);
            lemma_one_lesser(a, x, r, s);
        }
    }
}

/// There is one width that the container needs.
proof fn lemma_one_container_width<S: Scalar>(
    start: S,
    items: Seq<StripItem<S>>,
    height: S,
    constants: Constants<S>,
    r: S,
    s: S,
)
    requires
        single_valued::<S>(),
        number(constants.zero),
        forall|i: int|
            0 <= i < items.len() ==> numbers_in_item(#[trigger] items[i], height, constants),
        container_width(start, items, height, constants, r),
        container_width(start, items, height, constants, s),
    ensures
        r == s,
    decreases items.len(),
{
    if items.len() > 0 {
        let rest = items.drop_last();
        let last = items[items.len() - 1];
        let a = before_last_item(start, items, height, constants, r);
        let b = before_last_item(start, items, height, constants, s);
        assert forall|i: int| 0 <= i < rest.len() implies numbers_in_item(
            #[trigger] rest[i],
            height,
            constants,
        ) by {
            assert(rest[i] == items[i]);
        }
        lemma_one_container_width(start, rest, height, constants, a, b);
        if last.poses is Some {
            let (t, x) = width_of_item(a, last, height, constants, r);
            let (u, y) = width_of_item(b, last, height, constants, s);
            assert(numbers_in_item(last, height, constants));
            assert(t == u);
            lemma_one_narrowest(
                last.poses->0@,
                height,
                t,
                constants.zero,
                constants.infinity,
                x,
                y,
            );
            lemma_one_greater(a, x, r, s);
        }
    }
}

/// Where every operation has one outcome, there is one necessary width.
pub proof fn law_one_necessary_width<S: Scalar>(
    shape: StripShape<S>,
    area_width: S,
    items: Seq<StripItem<S>>,
    constants: Constants<S>,
    r: S,
    s: S,
)
    requires
        single_valued::<S>(),
        numbers_throughout(shape, area_width, items, constants),
        is_minimum_strip_width(shape, area_width, items, constants, r),
        is_minimum_strip_width(shape, area_width, items, constants, s),
    ensures
        r == s,
{
    let (a, x, i) = parts_of_width(shape, area_width, items, constants, r);
    let (b, y, j) = parts_of_width(shape, area_width, items, constants, s);
    let p = share_of_start(area_width, constants, a);
    let q = share_of_start(area_width, constants, b);
    assert(p == q);
    assert(a == b);
    lemma_one_container_width(a, items, shape.container_height, constants, x, y);
    assert(i == j);
}

/// The necessary width depends on the items, on the height of the container and on its inset, and on nothing else of
/// the strip: not on how wide the strip is. Where every operation has one outcome, the results are then the same.
pub proof fn law_width_of_strip_is_irrelevant<S: Scalar>(
    shape: StripShape<S>,
    other: StripShape<S>,
    area_width: S,
    items: Seq<StripItem<S>>,
    constants: Constants<S>,
    r: S,
    s: S,
)
    requires
        shape.container_height == other.container_height,
        forall|inset: S|
            #![trigger difference(shape.strip_width, shape.container_width, inset)]
            #![trigger difference(other.strip_width, other.container_width, inset)]
            difference(shape.strip_width, shape.container_width, inset) <==> difference(
                other.strip_width,
                other.container_width,
                inset,
            ),
    ensures
        is_minimum_strip_width(shape, area_width, items, constants, r) <==> is_minimum_strip_width(
            other,
            area_width,
            items,
            constants,
            r,
        ),
        single_valued::<S>() && numbers_throughout(other, area_width, items, constants)
            && is_minimum_strip_width(shape, area_width, items, constants, r)
            && is_minimum_strip_width(other, area_width, items, constants, s) ==> r == s,
{
    if is_minimum_strip_width(shape, area_width, items, constants, r) {
        let (a, x, i) = parts_of_width(shape, area_width, items, constants, r);
        assert(measured(other, area_width, items, constants, a, x, i, r));
    }
    if is_minimum_strip_width(other, area_width, items, constants, r) {
        let (a, x, i) = parts_of_width(other, area_width, items, constants, r);
        assert(measured(shape, area_width, items, constants, a, x, i, r));
    }
    if single_valued::<S>() && numbers_throughout(other, area_width, items, constants)
        && is_minimum_strip_width(shape, area_width, items, constants, r)
        && is_minimum_strip_width(other, area_width, items, constants, s) {
        law_one_necessary_width(other, area_width, items, constants, r, s);
    }
}

/// The narrowest pose is no wider than infinity, nor than any pose that fits.
proof fn lemma_narrowest_is_least<S: Scalar>(
    value: spec_fn(S) -> real,
    poses: Seq<Pose<S>>,
    height: S,
    tolerance: S,
    zero: S,
    infinity: S,
    r: S,
)
    requires
        ordered_by(value),
        single_valued::<S>(),
        number(zero),
        number(infinity),
        numbers_in_poses(poses, height, tolerance),
        narrowest(poses, height, tolerance, zero, infinity, r),
    ensures
        number(r),
        value(r) <= value(infinity),
        forall|i: int, w: S|
            0 <= i < poses.len() && fits(poses[i], height, tolerance, true) && #[trigger] pose_width(
                poses[i],
                tolerance,
                zero,
                w,
            ) ==> value(r) <= value(w),
    decreases poses.len(),
{
    if poses.len() > 0 {
        let rest = poses.drop_last();
        let k = poses.len() - 1;
        let last = poses[k];
        let before = before_last_pose(poses, height, tolerance, zero, infinity, r);
        lemma_numbers_in_rest(poses, height, tolerance);
        lemma_narrowest_is_least(value, rest, height, tolerance, zero, infinity, before);
        lemma_fits_or_not(poses, height, tolerance, k);
        if fits(last, height, tolerance, true) {
            let x = choose|w: S| #[trigger]
                pose_width(last, tolerance, zero, w) && lesser_of(before, w, r);
            lemma_one_pose_width(poses, height, tolerance, zero, k, x, x);
            lemma_lesser(value, before, x, r);
        }
        assert forall|i: int, w: S|
            0 <= i < poses.len() && fits(poses[i], height, tolerance, true) && #[trigger] pose_width(
                poses[i],
                tolerance,
                zero,
                w,
            ) implies value(r) <= value(w) by {
            if i < rest.len() {
                assert(poses[i] == rest[i]);
                assert(pose_width(rest[i], tolerance, zero, w));
            } else {
                let x = choose|x: S| #[trigger]
                    pose_width(last, tolerance, zero, x) && lesser_of(before, x, r);
                lemma_one_pose_width(poses, height, tolerance, zero, k, x, w);
            }
        }
    }
}

/// The narrowest pose is infinitely wide, or it is one that fits.
proof fn lemma_narrowest_is_one<S: Scalar>(
    poses: Seq<Pose<S>>,
    height: S,
    tolerance: S,
    zero: S,
    infinity: S,
    r: S,
)
    requires
        narrowest(poses, height, tolerance, zero, infinity, r),
    ensures
        r == infinity || exists|i: int|
            0 <= i < poses.len() && fits(#[trigger] poses[i], height, tolerance, true) && pose_width(
                poses[i],
                tolerance,
                zero,
                r,
            ),
    decreases poses.len(),
{
    if poses.len() > 0 {
        let rest = poses.drop_last();
        let before = before_last_pose(poses, height, tolerance, zero, infinity, r);
        lemma_narrowest_is_one(rest, height, tolerance, zero, infinity, before);
        if r == before {
            if r != infinity {
                let i = choose|i: int|
                    0 <= i < rest.len() && fits(#[trigger] rest[i], height, tolerance, true)
                        && pose_width(rest[i], tolerance, zero, r);
                assert(poses[i] == rest[i]);
            }
        } else {
            assert(poses[poses.len() - 1] == poses.last());
        }
    }
}

/// The poses of one item are among those of another.
pub open spec fn has_poses_of<S>(poses: Seq<Pose<S>>, others: Seq<Pose<S>>) -> bool {
    forall|i: int| 0 <= i < others.len() ==> poses.contains(#[trigger] others[i])
}

/// An item that may be turned in more ways than another one, and is otherwise the same.
pub open spec fn freer<S>(item: StripItem<S>, other: StripItem<S>) -> bool {
    item.poses matches Some(poses) ==> {
        &&& item.diameter == other.diameter
        &&& other.poses is Some
        &&& has_poses_of(poses@, other.poses->0@)
    }
}

proof fn lemma_more_poses_are_narrower<S: Scalar>(
    value: spec_fn(S) -> real,
    poses: Seq<Pose<S>>,
    others: Seq<Pose<S>>,
    height: S,
    tolerance: S,
    zero: S,
    infinity: S,
    r: S,
    s: S,
)
    requires
        ordered_by(value),
        single_valued::<S>(),
        number(zero),
        number(infinity),
        numbers_in_poses(poses, height, tolerance),
        has_poses_of(poses, others),
        narrowest(poses, height, tolerance, zero, infinity, r),
        narrowest(others, height, tolerance, zero, infinity, s),
    ensures
        value(r) <= value(s),
{
    lemma_narrowest_is_least(value, poses, height, tolerance, zero, infinity, r);
    lemma_narrowest_is_one(others, height, tolerance, zero, infinity, s);
    if s != infinity {
        let i = choose|i: int|
            0 <= i < others.len() && fits(#[trigger] others[i], height, tolerance, true)
                && pose_width(others[i], tolerance, zero, s);
        let j = choose|j: int| 0 <= j < poses.len() && poses[j] == others[i];
        assert(pose_width(poses[j], tolerance, zero, s));
    }
}

/// The container is as wide as the start and as every item needs, and no wider than one of these.
proof fn lemma_container_holds_all<S: Scalar>(
    value: spec_fn(S) -> real,
    start: S,
    items: Seq<StripItem<S>>,
    height: S,
    constants: Constants<S>,
    r: S,
)
    requires
        ordered_by(value),
        single_valued::<S>(),
        number(start),
        number(constants.zero),
        number(constants.infinity),
        forall|i: int|
            0 <= i < items.len() ==> numbers_in_item(#[trigger] items[i], height, constants),
        container_width(start, items, height, constants, r),
    ensures
        number(r),
        value(start) <= value(r),
        forall|i: int|
            0 <= i < items.len() && (#[trigger] items[i]).poses is Some ==> exists|t: S, w: S| #[trigger]
                item_width(items[i], height, constants, t, w) && value(w) <= value(r),
        r == start || exists|i: int, t: S|
            0 <= i < items.len() && #[trigger] item_width(items[i], height, constants, t, r),
    decreases items.len(),
{
    if items.len() > 0 {
        let rest = items.drop_last();
        let k = items.len() - 1;
        let last = items[k];
        let before = before_last_item(start, items, height, constants, r);
        assert forall|i: int| 0 <= i < rest.len() implies numbers_in_item(
            #[trigger] rest[i],
            height,
            constants,
        ) by {
            assert(rest[i] == items[i]);
        }
        lemma_container_holds_all(value, start, rest, height, constants, before);
        if last.poses is Some {
            let (t, w) = width_of_item(before, last, height, constants, r);
            assert(numbers_in_item(last, height, constants));
            lemma_narrowest_is_least(
                value,
                last.poses->0@,
                height,
                t,
                constants.zero,
                constants.infinity,
                w,
            );
            lemma_greater(value, before, w, r);
            assert(item_width(items[k], height, constants, t, w));
        }
        assert forall|i: int|
            0 <= i < items.len() && (#[trigger] items[i]).poses is Some implies exists|t: S, w: S| #[trigger]
            item_width(items[i], height, constants, t, w) && value(w) <= value(r) by {
            if i < rest.len() {
                assert(rest[i] == items[i]);
                let (t, w) = choose|t: S, w: S| #[trigger]
                    item_width(rest[i], height, constants, t, w) && value(w) <= value(before);
                assert(item_width(items[i], height, constants, t, w));
            }
        }
        if r == before && r != start {
            let (i, t) = choose|i: int, t: S|
                0 <= i < rest.len() && #[trigger] item_width(rest[i], height, constants, t, r);
            assert(item_width(items[i], height, constants, t, r));
        }
    }
}

proof fn lemma_container_shrinks<S: Scalar>(
    value: spec_fn(S) -> real,
    start: S,
    items: Seq<StripItem<S>>,
    r: S,
    other_start: S,
    others: Seq<StripItem<S>>,
    s: S,
    height: S,
    constants: Constants<S>,
)
    requires
        ordered_by(value),
        single_valued::<S>(),
        number(start),
        number(other_start),
        number(constants.zero),
        number(constants.infinity),
        items.len() == others.len(),
        forall|i: int| 0 <= i < items.len() ==> freer(#[trigger] items[i], others[i]),
        forall|i: int|
            0 <= i < items.len() ==> numbers_in_item(#[trigger] items[i], height, constants),
        forall|i: int|
            0 <= i < others.len() ==> numbers_in_item(#[trigger] others[i], height, constants),
        value(start) <= value(other_start),
        container_width(start, items, height, constants, r),
        container_width(other_start, others, height, constants, s),
    ensures
        number(r),
        number(s),
        value(r) <= value(s),
{
    lemma_container_holds_all(value, other_start, others, height, constants, s);
    lemma_container_holds_all(value, start, items, height, constants, r);
    if r != start {
        let (i, t) = choose|i: int, t: S|
            0 <= i < items.len() && #[trigger] item_width(items[i], height, constants, t, r);
        assert(freer(items[i], others[i]));
        assert(others[i].poses is Some);
        let (u, w) = choose|u: S, w: S| #[trigger]
            item_width(others[i], height, constants, u, w) && value(w) <= value(s);
        assert(numbers_in_item(items[i], height, constants));
        assert(t == u);
        lemma_more_poses_are_narrower(
            value,
            items[i].poses->0@,
            others[i].poses->0@,
            height,
            t,
            constants.zero,
            constants.infinity,
            r,
            w,
        );
    }
}

proof fn lemma_necessary_width_grows<S: Scalar>(
    value: spec_fn(S) -> real,
    shape: StripShape<S>,
    area_width: S,
    items: Seq<StripItem<S>>,
    r: S,
    other_area_width: S,
    others: Seq<StripItem<S>>,
    s: S,
    constants: Constants<S>,
)
    requires
        monotone_arithmetic(value),
        single_valued::<S>(),
        items.len() == others.len(),
        forall|i: int| 0 <= i < items.len() ==> freer(#[trigger] items[i], others[i]),
        area_width == other_area_width || value(area_width) <= value(other_area_width) && forall|
            share: S,
        | #[trigger]
            difference(constants.one, constants.rel_tol, share) ==> 0real <= value(share),
        can_measure(shape, area_width, items, constants),
        can_measure(shape, other_area_width, others, constants),
        numbers_throughout(shape, area_width, items, constants),
        numbers_throughout(shape, other_area_width, others, constants),
        is_minimum_strip_width(shape, area_width, items, constants, r),
        is_minimum_strip_width(shape, other_area_width, others, constants, s),
    ensures
        value(r) <= value(s),
{
    let height = shape.container_height;
    let (a, x, i) = parts_of_width(shape, area_width, items, constants, r);
    let (b, y, j) = parts_of_width(shape, other_area_width, others, constants, s);
    let p = share_of_start(area_width, constants, a);
    let q = share_of_start(other_area_width, constants, b);
    assert(p == q);
    assert(value(a) <= value(b));
    lemma_container_shrinks(value, a, items, x, b, others, y, height, constants);
    assert(i == j);
    assert(x.add_req(i) && y.add_req(j));
}

/// More freedom to turn the items never raises the necessary width: neither more rotations in a list, nor an item that
/// may now be turned at will. This holds also where results are rounded, as long as they are numbers.
pub proof fn law_more_rotations_need_no_more_width<S: Scalar>(
    value: spec_fn(S) -> real,
    shape: StripShape<S>,
    area_width: S,
    items: Seq<StripItem<S>>,
    others: Seq<StripItem<S>>,
    constants: Constants<S>,
    r: S,
    s: S,
)
    requires
        monotone_arithmetic(value),
        single_valued::<S>(),
        items.len() == others.len(),
        forall|i: int| 0 <= i < items.len() ==> freer(#[trigger] items[i], others[i]),
        can_measure(shape, area_width, items, constants),
        can_measure(shape, area_width, others, constants),
        numbers_throughout(shape, area_width, items, constants),
        numbers_throughout(shape, area_width, others, constants),
        is_minimum_strip_width(shape, area_width, items, constants, r),
        is_minimum_strip_width(shape, area_width, others, constants, s),
    ensures
        value(r) <= value(s),
{
    lemma_necessary_width_grows(
        value,
        shape,
        area_width,
        items,
        r,
        area_width,
        others,
        s,
        constants,
    );
}

proof fn lemma_total_grows<S: Scalar>(
    value: spec_fn(S) -> real,
    zero: S,
    areas: Seq<S>,
    few: Seq<S>,
    many: Seq<S>,
    n: int,
    r: S,
    s: S,
)
    requires
        monotone_arithmetic(value),
        areas.len() == few.len(),
        areas.len() == many.len(),
        0 <= n <= areas.len(),
        forall|i: int| 0 <= i < areas.len() ==> 0real <= value(#[trigger] areas[i]),
        forall|i: int| 0 <= i < few.len() ==> value(#[trigger] few[i]) <= value(many[i]),
        can_total(zero, areas, few),
        can_total(zero, areas, many),
        numbers_in_total(zero, areas, few),
        numbers_in_total(zero, areas, many),
        weighted_total(zero, areas.take(n), few.take(n), r),
        weighted_total(zero, areas.take(n), many.take(n), s),
    ensures
        number(r),
        number(s),
        value(r) <= value(s),
    decreases n,
{
    if n > 0 {
        let k = n - 1;
        let upto = areas.take(n);
        let (a, x) = choose|before: S, term: S|
            {
                &&& weighted_total(zero, upto.drop_last(), few.take(n).drop_last(), before)
                &&& #[trigger] product(upto.last(), few.take(n).last(), term)
                &&& #[trigger] sum(before, term, r)
            };
        let (b, y) = choose|before: S, term: S|
            {
                &&& weighted_total(zero, upto.drop_last(), many.take(n).drop_last(), before)
                &&& #[trigger] product(upto.last(), many.take(n).last(), term)
                &&& #[trigger] sum(before, term, s)
            };
        assert(upto.drop_last() == areas.take(k));
        assert(few.take(n).drop_last() == few.take(k));
        assert(many.take(n).drop_last() == many.take(k));
        lemma_total_grows(value, zero, areas, few, many, k, a, b);
        assert(product(areas[k], few[k], x) && product(areas[k], many[k], y));
        assert(areas[k].mul_req(few[k]) && areas[k].mul_req(many[k]));
        assert(0real <= value(areas[k]) && value(few[k]) <= value(many[k]));
        assert(value(x) <= value(y));
    }
}

/// More demand never lowers the necessary width. This holds also where results are rounded, as long as they are
/// numbers.
pub proof fn law_more_demand_needs_no_less_width<S: Scalar>(
    value: spec_fn(S) -> real,
    shape: StripShape<S>,
    areas: Seq<S>,
    few: Seq<S>,
    many: Seq<S>,
    area_width: S,
    greater_area_width: S,
    items: Seq<StripItem<S>>,
    constants: Constants<S>,
    r: S,
    s: S,
)
    requires
        monotone_arithmetic(value),
        single_valued::<S>(),
        number(shape.container_height),
        0real < value(shape.container_height),
        forall|share: S| #[trigger]
            difference(constants.one, constants.rel_tol, share) ==> 0real <= value(share),
        forall|i: int| 0 <= i < areas.len() ==> 0real <= value(#[trigger] areas[i]),
        forall|area: S| #[trigger]
            weighted_total(constants.zero, areas, few, area) ==> 0real <= value(area),
        few.len() == many.len(),
        forall|i: int| 0 <= i < few.len() ==> value(#[trigger] few[i]) <= value(many[i]),
        can_fill(constants.zero, areas, few, shape.container_height),
        can_fill(constants.zero, areas, many, shape.container_height),
        numbers_in_total(constants.zero, areas, few),
        numbers_in_total(constants.zero, areas, many),
        is_area_width(constants.zero, areas, few, shape.container_height, area_width),
        is_area_width(constants.zero, areas, many, shape.container_height, greater_area_width),
        can_measure(shape, area_width, items, constants),
        can_measure(shape, greater_area_width, items, constants),
        numbers_throughout(shape, area_width, items, constants),
        numbers_throughout(shape, greater_area_width, items, constants),
        is_minimum_strip_width(shape, area_width, items, constants, r),
        is_minimum_strip_width(shape, greater_area_width, items, constants, s),
    ensures
        value(r) <= value(s),
{
    let height = shape.container_height;
    let a = area_of_width(constants.zero, areas, few, height, area_width);
    let b = area_of_width(constants.zero, areas, many, height, greater_area_width);
    let n = areas.len() as int;
    assert(areas.take(n) == areas && few.take(n) == few && many.take(n) == many);
    lemma_total_grows(value, constants.zero, areas, few, many, n, a, b);
    assert forall|i: int| 0 <= i < items.len() implies freer(#[trigger] items[i], items[i]) by {
        if let Some(poses) = items[i].poses {
            assert forall|j: int| 0 <= j < poses@.len() implies poses@.contains(
                #[trigger] poses@[j],
            ) by {}
        }
    }
    lemma_necessary_width_grows(
        value,
        shape,
        area_width,
        items,
        r,
        greater_area_width,
        items,
        s,
        constants,
    );
}

/// The area of all items.
pub open spec fn whole_area<S>(value: spec_fn(S) -> real, areas: Seq<S>, quantities: Seq<S>) -> real
    decreases areas.len(),
{
    if areas.len() == 0 {
        0real
    } else {
        whole_area(value, areas.drop_last(), quantities.drop_last()) + value(areas.last()) * value(
            quantities.last(),
        )
    }
}

proof fn lemma_total_is_whole_area<S: Scalar>(
    value: spec_fn(S) -> real,
    zero: S,
    areas: Seq<S>,
    quantities: Seq<S>,
    r: S,
)
    requires
        exact_arithmetic(value),
        value(zero) == 0real,
        areas.len() == quantities.len(),
        can_total(zero, areas, quantities),
        weighted_total(zero, areas, quantities, r),
    ensures
        value(r) == whole_area(value, areas, quantities),
    decreases areas.len(),
{
    if areas.len() > 0 {
        let (a, x) = choose|before: S, term: S|
            {
                &&& weighted_total(zero, areas.drop_last(), quantities.drop_last(), before)
                &&& #[trigger] product(areas.last(), quantities.last(), term)
                &&& #[trigger] sum(before, term, r)
            };
        lemma_can_total_prefix(zero, areas, quantities);
        lemma_total_is_whole_area(value, zero, areas.drop_last(), quantities.drop_last(), a);
    }
}

/// An item can be placed in a container of the given size: one of its poses is no taller and no wider. One that may be
/// turned at will is taken to have such a pose.
pub open spec fn has_room<S>(
    value: spec_fn(S) -> real,
    item: StripItem<S>,
    width: real,
    height: S,
) -> bool {
    item.poses matches Some(poses) ==> exists|i: int|
        0 <= i < poses@.len() && value((#[trigger] poses@[i]).height) <= value(height) && value(
            poses@[i].width,
        ) <= width
}

proof fn lemma_narrowest_has_room<S: Scalar>(
    value: spec_fn(S) -> real,
    poses: Seq<Pose<S>>,
    height: S,
    tolerance: S,
    zero: S,
    infinity: S,
    r: S,
    width: real,
    i: int,
)
    requires
        exact_arithmetic(value),
        value(zero) == 0real,
        0real <= value(tolerance),
        height.add_req(tolerance),
        forall|j: int| 0 <= j < poses.len() ==> (#[trigger] poses[j]).width.sub_req(tolerance),
        narrowest(poses, height, tolerance, zero, infinity, r),
        0real <= width,
        0 <= i < poses.len(),
        value(poses[i].height) <= value(height),
        value(poses[i].width) <= width,
    ensures
        value(r) <= width,
    decreases poses.len(),
{
    let rest = poses.drop_last();
    let last = poses[poses.len() - 1];
    let before = before_last_pose(poses, height, tolerance, zero, infinity, r);
    assert(last.width.sub_req(tolerance));
    if fits(last, height, tolerance, true) {
        assert(!fits(last, height, tolerance, false));
        let w = choose|w: S| #[trigger]
            pose_width(last, tolerance, zero, w) && lesser_of(before, w, r);
        let cut = choose|cut: S| #[trigger]
            difference(last.width, tolerance, cut) && greater_of(cut, zero, w);
        lemma_greater(value, cut, zero, w);
        lemma_lesser(value, before, w, r);
    }
    if i < rest.len() {
        assert(rest[i] == poses[i]);
        assert forall|j: int| 0 <= j < rest.len() implies (#[trigger] rest[j]).width.sub_req(
            tolerance,
        ) by {
            assert(rest[j] == poses[j]);
        }
        lemma_narrowest_has_room(
            value,
            rest,
            height,
            tolerance,
            zero,
            infinity,
            before,
            width,
            i,
        );
    } else {
        assert forall|tallest: S| #[trigger]
            sum(height, tolerance, tallest) implies !at_most(last.height, tallest, false) by {
        }
        assert(!fits(last, height, tolerance, false));
    }
}

proof fn lemma_container_has_room<S: Scalar>(
    value: spec_fn(S) -> real,
    start: S,
    items: Seq<StripItem<S>>,
    height: S,
    constants: Constants<S>,
    r: S,
    width: real,
)
    requires
        exact_arithmetic(value),
        value(constants.zero) == 0real,
        0real <= value(constants.rel_tol),
        0real <= width,
        value(start) <= width,
        forall|i: int|
            0 <= i < items.len() ==> 0real <= value((#[trigger] items[i]).diameter) && can_widen(
                items[i],
                height,
                constants,
            ) && has_room(value, items[i], width, height),
        container_width(start, items, height, constants, r),
    ensures
        value(r) <= width,
    decreases items.len(),
{
    if items.len() > 0 {
        let rest = items.drop_last();
        let last = items[items.len() - 1];
        let before = before_last_item(start, items, height, constants, r);
        assert forall|i: int| 0 <= i < rest.len() implies 0real <= value(
            (#[trigger] rest[i]).diameter,
        ) && can_widen(rest[i], height, constants) && has_room(value, rest[i], width, height) by {
            assert(rest[i] == items[i]);
        }
        lemma_container_has_room(value, start, rest, height, constants, before, width);
        if let Some(poses) = last.poses {
            let (t, w) = width_of_item(before, last, height, constants, r);
            let d = value(last.diameter);
            let tol = value(constants.rel_tol);
            assert(0real <= d * tol) by (nonlinear_arith)
                requires
                    0real <= d,
                    0real <= tol,
            ;
            let k = choose|k: int|
                0 <= k < poses@.len() && value((#[trigger] poses@[k]).height) <= value(height)
                    && value(poses@[k].width) <= width;
            lemma_narrowest_has_room(
                value,
                poses@,
                height,
                t,
                constants.zero,
                constants.infinity,
                w,
                width,
                k,
            );
            lemma_greater(value, before, w, r);
        }
    }
}

/// With exact numbers the width is necessary: where a container, with its inset, has the area of all demanded items,
/// and room for each in one of the ways it may be turned, the strip is at least as wide as the result. So a width at
/// which the items can be placed is never excluded.
pub proof fn law_minimum_width_is_necessary<S: Scalar>(
    value: spec_fn(S) -> real,
    shape: StripShape<S>,
    areas: Seq<S>,
    quantities: Seq<S>,
    area_width: S,
    items: Seq<StripItem<S>>,
    constants: Constants<S>,
    min_width: S,
    width: real,
)
    requires
        exact_arithmetic(value),
        exact_division(value),
        value(constants.zero) == 0real,
        value(constants.one) == 1real,
        0real <= value(constants.rel_tol),
        0real < value(shape.container_height),
        forall|i: int|
            0 <= i < items.len() ==> 0real <= value((#[trigger] items[i]).diameter),
        can_fill(constants.zero, areas, quantities, shape.container_height),
        is_area_width(constants.zero, areas, quantities, shape.container_height, area_width),
        can_measure(shape, area_width, items, constants),
        is_minimum_strip_width(shape, area_width, items, constants, min_width),
        0real <= whole_area(value, areas, quantities) <= width * value(shape.container_height),
        forall|i: int|
            0 <= i < items.len() ==> has_room(
                value,
                #[trigger] items[i],
                width,
                shape.container_height,
            ),
    ensures
        value(min_width) <= width + (value(shape.strip_width) - value(shape.container_width)),
{
    let height = shape.container_height;
    let (start, needed, inset) = parts_of_width(shape, area_width, items, constants, min_width);
    let area = area_of_width(constants.zero, areas, quantities, height, area_width);
    lemma_total_is_whole_area(value, constants.zero, areas, quantities, area);
    let h = value(height);
    let w = value(area_width);
    assert(w <= width && 0real <= width) by (nonlinear_arith)
        requires
            0real < h,
            w * h <= width * h,
            0real <= width * h,
    ;
    assert(value(constants.zero) * h <= value(area)) by (nonlinear_arith)
        requires
            value(constants.zero) == 0real,
            0real <= value(area),
    ;
    assert(0real <= w);
    let share = share_of_start(area_width, constants, start);
    let x = value(share);
    assert(w * x <= w) by (nonlinear_arith)
        requires
            0real <= w,
            x <= 1real,
    ;
    assert forall|i: int| 0 <= i < items.len() implies 0real <= value(
        (#[trigger] items[i]).diameter,
    ) && can_widen(items[i], height, constants) && has_room(value, items[i], width, height) by {
    }
    lemma_container_has_room(value, start, items, height, constants, needed, width);
    assert(needed.add_req(inset));
}

/// A narrowest width is a number.
proof fn lemma_narrowest_is_number<S: Scalar>(
    poses: Seq<Pose<S>>,
    height: S,
    tolerance: S,
    zero: S,
    infinity: S,
    r: S,
)
    requires
        number(zero),
        number(infinity),
        numbers_in_poses(poses, height, tolerance),
        narrowest(poses, height, tolerance, zero, infinity, r),
    ensures
        number(r),
{
    lemma_narrowest_is_one(poses, height, tolerance, zero, infinity, r);
    if r != infinity {
        let j = choose|j: int|
            0 <= j < poses.len() && fits(#[trigger] poses[j], height, tolerance, true)
                && pose_width(poses[j], tolerance, zero, r);
        let cut = choose|cut: S| #[trigger]
            difference(poses[j].width, tolerance, cut) && greater_of(cut, zero, r);
        assert(number(cut));
    }
}

/// The container has room for what the start and every item ask for.
proof fn lemma_container_covers<S: Scalar>(
    value: spec_fn(S) -> real,
    start: S,
    items: Seq<StripItem<S>>,
    height: S,
    constants: Constants<S>,
    r: S,
)
    requires
        ordered_by(value),
        number(start),
        number(constants.zero),
        number(constants.infinity),
        forall|i: int|
            0 <= i < items.len() ==> numbers_in_item(#[trigger] items[i], height, constants),
        container_width(start, items, height, constants, r),
    ensures
        number(r),
        value(start) <= value(r),
        forall|i: int|
            0 <= i < items.len() && (#[trigger] items[i]).poses is Some ==> exists|t: S, w: S| #[trigger]
                item_width(items[i], height, constants, t, w) && number(w) && value(w) <= value(r),
    decreases items.len(),
{
    if items.len() > 0 {
        let rest = items.drop_last();
        let k = items.len() - 1;
        let last = items[k];
        let before = before_last_item(start, items, height, constants, r);
        assert forall|i: int| 0 <= i < rest.len() implies numbers_in_item(
            #[trigger] rest[i],
            height,
            constants,
        ) by {
            assert(rest[i] == items[i]);
        }
        lemma_container_covers(value, start, rest, height, constants, before);
        if last.poses is Some {
            let (t, w) = width_of_item(before, last, height, constants, r);
            assert(numbers_in_item(last, height, constants));
            lemma_narrowest_is_number(
                last.poses->0@,
                height,
                t,
                constants.zero,
                constants.infinity,
                w,
            );
            lemma_greater(value, before, w, r);
            assert(item_width(items[k], height, constants, t, w));
        }
        assert forall|i: int|
            0 <= i < items.len() && (#[trigger] items[i]).poses is Some implies exists|t: S, w: S| #[trigger]
            item_width(items[i], height, constants, t, w) && number(w) && value(w) <= value(r) by {
            if i < rest.len() {
                assert(rest[i] == items[i]);
                let (t, w) = choose|t: S, w: S| #[trigger]
                    item_width(rest[i], height, constants, t, w) && number(w) && value(w) <= value(
                        before,
                    );
                assert(item_width(items[i], height, constants, t, w));
            }
        }
    }
}

/// The result is the width of the container and the inset, and the container is as wide as the area asks for, less the
/// slack, and as some pose of every item that may not be turned at will: one that is no taller than the container up to
/// the tolerance, and whose own width, less the tolerance, the container has. Only where an item has no such pose is the
/// container infinitely wide. This holds also where results are rounded, as long as they are numbers.
///
/// Given are, of one item, the tolerance and, unless the container is infinitely wide, the pose, the greatest height and
/// the width that is asked for; of the whole, the share of the area, the start, the width of the container and the inset.
pub proof fn law_container_is_wide_enough<S: Scalar>(
    value: spec_fn(S) -> real,
    shape: StripShape<S>,
    area_width: S,
    items: Seq<StripItem<S>>,
    constants: Constants<S>,
    r: S,
    i: int,
) -> (found: ((S, S, S, S), (S, int, S, S)))
    requires
        ordered_by(value),
        numbers_throughout(shape, area_width, items, constants),
        is_minimum_strip_width(shape, area_width, items, constants, r),
    ensures
        measured(
            shape,
            area_width,
            items,
            constants,
            (found.0).1,
            (found.0).2,
            (found.0).3,
            r,
        ),
        difference(constants.one, constants.rel_tol, (found.0).0),
        product(area_width, (found.0).0, (found.0).1),
        difference(shape.strip_width, shape.container_width, (found.0).3),
        sum((found.0).2, (found.0).3, r),
        value((found.0).1) <= value((found.0).2),
        0 <= i < items.len() && items[i].poses is Some ==> {
            &&& product(items[i].diameter, constants.rel_tol, (found.1).0)
            &&& {
                ||| value(constants.infinity) <= value((found.0).2)
                ||| {
                    &&& 0 <= (found.1).1 < items[i].poses->0@.len()
                    &&& sum(shape.container_height, (found.1).0, (found.1).2)
                    &&& at_most(items[i].poses->0@[(found.1).1].height, (found.1).2, true)
                    &&& difference(items[i].poses->0@[(found.1).1].width, (found.1).0, (found.1).3)
                    &&& value((found.1).3) <= value((found.0).2)
                    &&& value(constants.zero) <= value((found.0).2)
                }
            }
        },
{
    let height = shape.container_height;
    let (start, width, inset) = parts_of_width(shape, area_width, items, constants, r);
    let share = share_of_start(area_width, constants, start);
    lemma_container_covers(value, start, items, height, constants, width);
    let whole = (share, start, width, inset);
    if 0 <= i < items.len() && items[i].poses is Some {
        let poses = items[i].poses->0@;
        let (t, w) = choose|t: S, w: S| #[trigger]
            item_width(items[i], height, constants, t, w) && number(w) && value(w) <= value(width);
        assert(numbers_in_item(items[i], height, constants));
        lemma_narrowest_is_one(poses, height, t, constants.zero, constants.infinity, w);
        if w == constants.infinity {
            (whole, (t, 0, start, start))
        } else {
            let j = choose|j: int|
                0 <= j < poses.len() && fits(#[trigger] poses[j], height, t, true) && pose_width(
                    poses[j],
                    t,
                    constants.zero,
                    w,
                );
            let tallest = choose|tallest: S| #[trigger]
                sum(height, t, tallest) && at_most(poses[j].height, tallest, true);
            let cut = choose|cut: S| #[trigger]
                difference(poses[j].width, t, cut) && greater_of(cut, constants.zero, w);
            assert(number(cut));
            lemma_greater(value, cut, constants.zero, w);
            (whole, (t, j, tallest, cut))
        }
    } else {
        (whole, (start, 0, start, start))
    }
}

/// The container is no wider than something asks for: the area, less the slack, or some item that may not be turned at
/// will, every pose of which is too tall up to the tolerance or, less the tolerance, as wide as that. This holds also
/// where results are rounded, as long as they are numbers and every operation has one outcome.
///
/// Given are the share of the area, the start, the width of the container and the inset, and the item.
pub proof fn law_container_is_no_wider_than_asked<S: Scalar>(
    value: spec_fn(S) -> real,
    shape: StripShape<S>,
    area_width: S,
    items: Seq<StripItem<S>>,
    constants: Constants<S>,
    r: S,
) -> (found: (S, S, S, S, int))
    requires
        ordered_by(value),
        single_valued::<S>(),
        numbers_throughout(shape, area_width, items, constants),
        is_minimum_strip_width(shape, area_width, items, constants, r),
    ensures
        difference(constants.one, constants.rel_tol, found.0),
        product(area_width, found.0, found.1),
        difference(shape.strip_width, shape.container_width, found.3),
        sum(found.2, found.3, r),
        found.2 == found.1 || {
            &&& 0 <= found.4 < items.len()
            &&& items[found.4].poses is Some
            &&& value(found.2) <= value(constants.infinity)
            &&& forall|tolerance: S, j: int, tallest: S, cut: S|
                0 <= j < items[found.4].poses->0@.len() && #[trigger] product(
                    items[found.4].diameter,
                    constants.rel_tol,
                    tolerance,
                ) && #[trigger] sum(shape.container_height, tolerance, tallest) && at_most(
                    items[found.4].poses->0@[j].height,
                    tallest,
                    true,
                ) && #[trigger] difference(items[found.4].poses->0@[j].width, tolerance, cut)
                    ==> value(found.2) <= value(cut) || value(found.2) <= value(constants.zero)
        },
{
    let height = shape.container_height;
    let (start, width, inset) = parts_of_width(shape, area_width, items, constants, r);
    let share = share_of_start(area_width, constants, start);
    lemma_container_holds_all(value, start, items, height, constants, width);
    if width == start {
        (share, start, width, inset, 0)
    } else {
        let (i, t) = choose|i: int, t: S|
            0 <= i < items.len() && #[trigger] item_width(items[i], height, constants, t, width);
        let poses = items[i].poses->0@;
        assert(numbers_in_item(items[i], height, constants));
        lemma_narrowest_is_least(
            value,
            poses,
            height,
            t,
            constants.zero,
            constants.infinity,
            width,
        );
        assert forall|tolerance: S, j: int, tallest: S, cut: S|
            0 <= j < poses.len() && #[trigger] product(
                items[i].diameter,
                constants.rel_tol,
                tolerance,
            ) && #[trigger] sum(height, tolerance, tallest) && at_most(
                poses[j].height,
                tallest,
                true,
            ) && #[trigger] difference(poses[j].width, tolerance, cut) implies value(width)
            <= value(cut) || value(width) <= value(constants.zero) by {
            assert(tolerance == t);
            assert(fits(poses[j], height, t, true));
            lemma_pose_keeps_below(
                value,
                poses,
                height,
                t,
                constants.zero,
                constants.infinity,
                width,
                j,
                cut,
            );
        }
        (share, start, width, inset, i)
    }
}

/// The narrowest width is at most that of a pose that fits, less the tolerance, or zero.
proof fn lemma_pose_keeps_below<S: Scalar>(
    value: spec_fn(S) -> real,
    poses: Seq<Pose<S>>,
    height: S,
    tolerance: S,
    zero: S,
    infinity: S,
    r: S,
    j: int,
    cut: S,
)
    requires
        ordered_by(value),
        single_valued::<S>(),
        number(zero),
        number(infinity),
        numbers_in_poses(poses, height, tolerance),
        narrowest(poses, height, tolerance, zero, infinity, r),
        0 <= j < poses.len(),
        fits(poses[j], height, tolerance, true),
        difference(poses[j].width, tolerance, cut),
    ensures
        value(r) <= value(cut) || value(r) <= value(zero),
    decreases poses.len(),
{
    let k = poses.len() - 1;
    let before = before_last_pose(poses, height, tolerance, zero, infinity, r);
    lemma_numbers_in_rest(poses, height, tolerance);
    lemma_narrowest_is_least(
        value,
        poses.drop_last(),
        height,
        tolerance,
        zero,
        infinity,
        before,
    );
    lemma_fits_or_not(poses, height, tolerance, k);
    assert(number(cut));
    if fits(poses[k], height, tolerance, true) {
        let x = choose|w: S| #[trigger]
            pose_width(poses[k], tolerance, zero, w) && lesser_of(before, w, r);
        let c = choose|c: S| #[trigger]
            difference(poses[k].width, tolerance, c) && greater_of(c, zero, x);
        assert(number(c));
        lemma_greater(value, c, zero, x);
        lemma_lesser(value, before, x, r);
    }
    if j < k {
        assert(poses.drop_last()[j] == poses[j]);
        lemma_pose_keeps_below(
            value,
            poses.drop_last(),
            height,
            tolerance,
            zero,
            infinity,
            before,
            j,
            cut,
        );
    }
}

/// With exact numbers the strip is never called wide enough for an item that is wider: where every pose of an item that
/// is no taller than the container, up to the tolerance, is at least `w` wide, the result is at least that, less the
/// tolerance, and the inset. And it is at least the width that the area takes up, less the slack, and the inset.
pub proof fn law_no_strip_is_narrower_than_its_items<S: Scalar>(
    value: spec_fn(S) -> real,
    shape: StripShape<S>,
    area_width: S,
    items: Seq<StripItem<S>>,
    constants: Constants<S>,
    min_width: S,
    i: int,
    w: real,
)
    requires
        exact_arithmetic(value),
        can_measure(shape, area_width, items, constants),
        is_minimum_strip_width(shape, area_width, items, constants, min_width),
        0 <= i < items.len(),
        items[i].poses is Some,
        forall|j: int|
            0 <= j < items[i].poses->0@.len() && value((#[trigger] items[i].poses->0@[j]).height)
                <= value(shape.container_height) + value(items[i].diameter) * value(
                constants.rel_tol,
            ) ==> w <= value(items[i].poses->0@[j].width),
        w <= value(constants.infinity) + value(items[i].diameter) * value(constants.rel_tol),
    ensures
        value(min_width) >= w - value(items[i].diameter) * value(constants.rel_tol) + (value(
            shape.strip_width,
        ) - value(shape.container_width)),
        value(min_width) >= value(area_width) * (value(constants.one) - value(constants.rel_tol))
            + (value(shape.strip_width) - value(shape.container_width)),
{
    let ((share, start, width, inset), (t, j, tallest, cut)) = law_container_is_wide_enough(
        value,
        shape,
        area_width,
        items,
        constants,
        min_width,
        i,
    );
    assert(can_widen(items[i], shape.container_height, constants));
    let poses = items[i].poses->0@;
    assert(value(t) == value(items[i].diameter) * value(constants.rel_tol));
    assert(width.add_req(inset));
    if value(constants.infinity) > value(width) {
        assert(poses[j].width.sub_req(t));
    }
}

/// The width that the items fill is the total of their areas, each times its quantity, divided by the height. With exact
/// numbers that is the greatest width at which a strip of this height has no more area than the items.
pub proof fn law_items_fill_the_width<S: Scalar>(
    value: spec_fn(S) -> real,
    zero: S,
    areas: Seq<S>,
    quantities: Seq<S>,
    height: S,
    width: S,
    x: S,
)
    requires
        is_area_width(zero, areas, quantities, height, width),
    ensures
        exists|area: S| #[trigger]
            weighted_total(zero, areas, quantities, area) && quotient(area, height, width),
        ({
            let whole = Seq::new(
                areas.len(),
                |i: int| value(areas[i]) * value(quantities[i]),
            ).fold_left(value(zero), |total: real, y: real| total + y);
            exact_arithmetic(value) && exact_division(value) && can_fill(
                zero,
                areas,
                quantities,
                height,
            ) && 0real < value(height) && 0real <= whole ==> {
                &&& value(width) * value(height) <= whole
                &&& value(x) * value(height) <= whole ==> value(x) <= value(width)
            }
        }),
{
    let area = area_of_width(zero, areas, quantities, height, width);
    if exact_arithmetic(value) && can_fill(zero, areas, quantities, height) {
        law_total_is_exact(value, zero, areas, quantities, area);
    }
}

/// Where every operation can be computed, every necessary width can.
pub proof fn law_widths_are_computed<S: Scalar>(
    shape: StripShape<S>,
    areas: Seq<S>,
    quantities: Seq<S>,
    area_width: S,
    items: Seq<StripItem<S>>,
    constants: Constants<S>,
)
    requires
        always_computed::<S>(),
    ensures
        areas.len() == quantities.len() ==> can_fill(
            constants.zero,
            areas,
            quantities,
            shape.container_height,
        ),
        can_measure(shape, area_width, items, constants),
{
    law_totals_are_computed(constants.zero, areas, quantities);
    assert forall|i: int| 0 <= i < items.len() implies can_widen(
        #[trigger] items[i],
        shape.container_height,
        constants,
    ) by {
    }
}

} // verus!
