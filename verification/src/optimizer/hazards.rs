//! Fixed obstacles on the layout of a warm start.
use crate::equality::{equates, found, same};
use crate::layout::{entities_of, entities_on_layout};
use jagua_rs::collision_detection::hazards::HazardEntity;
use jagua_rs::entities::Layout;
use vstd::prelude::*;

verus! {

/// The entities on a layout that holds `present` once the `picked` ones of `extra` are registered.
pub open spec fn on_layout<E>(present: Seq<E>, extra: Seq<E>, picked: Seq<usize>) -> Seq<E> {
    present + picked.map_values(|i: usize| extra[i as int])
}

/// `picked` are the indices of those entities of `extra` that have to be registered on a layout
/// that holds `present`: each that is not found there, nor among those registered before it.
pub open spec fn to_register<E: PartialEq>(
    present: Seq<E>,
    extra: Seq<E>,
    picked: Seq<usize>,
) -> bool
    decreases extra.len(),
{
    if extra.len() == 0 {
        picked.len() == 0
    } else {
        let rest = extra.drop_last();
        ||| {
            &&& to_register(present, rest, picked)
            &&& found(on_layout(present, rest, picked), extra.last(), true)
        }
        ||| {
            &&& picked.len() > 0
            &&& picked.last() == extra.len() - 1
            &&& to_register(present, rest, picked.drop_last())
            &&& found(on_layout(present, rest, picked.drop_last()), extra.last(), false)
        }
    }
}

/// The indices of those entities of `extra` that have to be registered on a layout that holds
/// `present`. A warm start made without the hazards still gets them; one made with them carries them already,
/// and nothing is registered twice.
pub fn missing_hazards<E: PartialEq>(present: &Vec<E>, extra: &Vec<E>) -> (picked: Vec<usize>)
    ensures
        to_register(present@, extra@, picked@),
{
    let mut picked: Vec<usize> = Vec::new();
    let mut i: usize = 0;
    while i < extra.len()
        invariant
            i <= extra.len(),
            to_register(present@, extra@.take(i as int), picked@),
            forall|k: int| 0 <= k < picked.len() ==> #[trigger] picked@[k] < i,
        decreases extra.len() - i,
    {
        let ghost layout = on_layout(present@, extra@.take(i as int), picked@);
        let mut known = false;
        let mut j: usize = 0;
        while j < present.len() && !known
            invariant
                j <= present.len(),
                i < extra.len(),
                known ==> exists|k: int|
                    0 <= k < present.len() && same(#[trigger] present@[k], extra@[i as int], true),
                !known ==> forall|k: int|
                    0 <= k < j ==> same(#[trigger] present@[k], extra@[i as int], false),
            decreases present.len() - j,
        {
            known = present[j] == extra[i];
            assert(same(present@[j as int], extra@[i as int], known));
            j += 1;
        }
        let mut k: usize = 0;
        let ghost in_present = known;
        while k < picked.len() && !known
            invariant
                k <= picked.len(),
                i < extra.len(),
                in_present ==> known,
                forall|m: int| 0 <= m < picked.len() ==> #[trigger] picked@[m] < i,
                known && !in_present ==> exists|m: int|
                    0 <= m < picked.len() && same(
                        extra@[#[trigger] picked@[m] as int],
                        extra@[i as int],
                        true,
                    ),
                !known ==> forall|m: int|
                    0 <= m < k ==> same(
                        extra@[#[trigger] picked@[m] as int],
                        extra@[i as int],
                        false,
                    ),
            decreases picked.len() - k,
        {
            known = extra[picked[k]] == extra[i];
            assert(same(extra@[picked@[k as int] as int], extra@[i as int], known));
            k += 1;
        }
        proof {
            let upto = extra@.take(i + 1);
            let rest = extra@.take(i as int);
            assert(upto.drop_last() == rest);
            assert(upto.last() == extra@[i as int]);
            assert forall|m: int| 0 <= m < picked.len() implies layout[present.len() + m]
                == extra@[#[trigger] picked@[m] as int] by {
                assert(picked@[m] < i);
            }
            if known {
                if in_present {
                    let m = choose|m: int|
                        0 <= m < present.len() && same(
                            #[trigger] present@[m],
                            extra@[i as int],
                            true,
                        );
                    assert(layout[m] == present@[m]);
                } else {
                    let m = choose|m: int|
                        0 <= m < picked.len() && same(
                            extra@[#[trigger] picked@[m] as int],
                            extra@[i as int],
                            true,
                        );
                    assert(layout[present.len() + m] == extra@[picked@[m] as int]);
                }
                assert(found(layout, upto.last(), true));
            } else {
                assert forall|m: int| 0 <= m < layout.len() implies same(
                    #[trigger] layout[m],
                    upto.last(),
                    false,
                ) by {
                    if m < present.len() {
                        assert(layout[m] == present@[m]);
                    } else {
                        assert(layout[m] == extra@[picked@[m - present.len()] as int]);
                    }
                }
                assert(found(layout, upto.last(), false));
            }
        }
        if !known {
            let ghost before = picked@;
            picked.push(i);
            assert(picked@.drop_last() == before);
        }
        i += 1;
    }
    assert(extra@.take(i as int) == extra@);
    picked
}

/// The indices of those entities of `extra` that have to be registered on a layout.
pub fn missing_on_layout(layout: &Layout, extra: &Vec<HazardEntity>) -> (picked: Vec<usize>)
    ensures
        to_register(entities_of(*layout), extra@, picked@),
{
    let present = entities_on_layout(layout);
    missing_hazards(&present, extra)
}

/// The entity of `extra` with index `i` is found on the layout when its turn comes: on it are `present` and the first
/// `n` of the picked entities, all of which come before it.
pub open spec fn known_in_turn<E: PartialEq>(
    present: Seq<E>,
    extra: Seq<E>,
    picked: Seq<usize>,
    i: int,
    n: int,
) -> bool {
    &&& 0 <= n <= picked.len()
    &&& forall|k: int| 0 <= k < n ==> #[trigger] picked[k] < i
    &&& found(on_layout(present, extra, picked.take(n)), extra[i], true)
}

/// The entity of `extra` with index `i` is picked, or found on the layout when its turn comes.
pub open spec fn settled<E: PartialEq>(
    present: Seq<E>,
    extra: Seq<E>,
    picked: Seq<usize>,
    i: int,
) -> bool {
    ||| exists|k: int| 0 <= k < picked.len() && #[trigger] picked[k] == i
    ||| exists|n: int| #[trigger] known_in_turn(present, extra, picked, i, n)
}

proof fn lemma_same_layout<E>(present: Seq<E>, extra: Seq<E>, picked: Seq<usize>)
    requires
        extra.len() > 0,
        forall|k: int| 0 <= k < picked.len() ==> #[trigger] picked[k] < extra.len() - 1,
    ensures
        on_layout(present, extra.drop_last(), picked) == on_layout(present, extra, picked),
{
    let a = on_layout(present, extra.drop_last(), picked);
    let b = on_layout(present, extra, picked);
    assert forall|m: int| 0 <= m < a.len() implies a[m] == b[m] by {
        if m >= present.len() {
            assert(picked[m - present.len()] < extra.len() - 1);
        }
    }
    assert(a =~= b);
}

/// No hazard is registered twice, and none is left out: each is picked, unless it is found among those that were there
/// and those picked before it, and one that is picked is not found among these.
pub proof fn law_registered_once<E: PartialEq>(present: Seq<E>, extra: Seq<E>, picked: Seq<usize>)
    requires
        to_register(present, extra, picked),
    ensures
        forall|k: int| 0 <= k < picked.len() ==> #[trigger] picked[k] < extra.len(),
        forall|k: int, m: int|
            0 <= k < m < picked.len() ==> #[trigger] picked[k] < #[trigger] picked[m],
        forall|k: int|
            0 <= k < picked.len() ==> found(
                on_layout(present, extra, picked.take(k)),
                extra[#[trigger] picked[k] as int],
                false,
            ),
        forall|i: int| 0 <= i < extra.len() ==> #[trigger] settled(present, extra, picked, i),
    decreases extra.len(),
{
    if extra.len() > 0 {
        let rest = extra.drop_last();
        let last = extra.len() - 1;
        let known = to_register(present, rest, picked) && found(
            on_layout(present, rest, picked),
            extra.last(),
            true,
        );
        let before = if known {
            picked
        } else {
            picked.drop_last()
        };
        law_registered_once(present, rest, before);
        assert forall|k: int| 0 <= k < before.len() implies #[trigger] picked[k] < last && picked[k]
            == before[k] by {
            assert(before[k] < rest.len());
        }
        lemma_same_layout(present, extra, before);
        assert forall|k: int| 0 <= k < picked.len() implies found(
            on_layout(present, extra, picked.take(k)),
            extra[#[trigger] picked[k] as int],
            false,
        ) by {
            assert(picked.take(k) =~= before.take(k));
            lemma_same_layout(present, extra, before.take(k));
            if k < before.len() {
                assert(extra[before[k] as int] == rest[before[k] as int]);
            } else {
                assert(before.take(k) =~= before);
            }
        }
        assert forall|i: int| 0 <= i < extra.len() implies #[trigger] settled(
            present,
            extra,
            picked,
            i,
        ) by {
            if i < last {
                assert(settled(present, rest, before, i));
                assert(rest[i] == extra[i]);
                if exists|k: int| 0 <= k < before.len() && #[trigger] before[k] == i {
                    let k = choose|k: int| 0 <= k < before.len() && #[trigger] before[k] == i;
                    assert(picked[k] == i);
                } else {
                    let n = choose|n: int| #[trigger] known_in_turn(present, rest, before, i, n);
                    assert(picked.take(n) =~= before.take(n));
                    lemma_same_layout(present, extra, before.take(n));
                    assert(known_in_turn(present, extra, picked, i, n));
                }
            } else if known {
                assert(picked.take(picked.len() as int) =~= picked);
                assert(known_in_turn(present, extra, picked, i, picked.len() as int));
            } else {
                assert(picked[picked.len() - 1] == i);
            }
        }
    }
}

/// An entity that is picked equals none that was present.
pub proof fn law_picked_is_new<E: PartialEq>(
    present: Seq<E>,
    extra: Seq<E>,
    picked: Seq<usize>,
    k: int,
    m: int,
)
    requires
        to_register(present, extra, picked),
        0 <= k < picked.len(),
        0 <= m < present.len(),
    ensures
        call_ensures(<E as PartialEq>::eq, (&present[m], &extra[picked[k] as int]), false),
{
    law_registered_once(present, extra, picked);
    let part = on_layout(present, extra, picked.take(k));
    assert(part[m] == present[m]);
    assert(same(part[m], extra[picked[k] as int], false));
}

/// An entity that is picked equals none that was picked before it, and is picked once.
pub proof fn law_picked_once<E: PartialEq>(
    present: Seq<E>,
    extra: Seq<E>,
    picked: Seq<usize>,
    k: int,
    l: int,
)
    requires
        to_register(present, extra, picked),
        0 <= k < l < picked.len(),
    ensures
        picked[k] < picked[l] < extra.len(),
        call_ensures(
            <E as PartialEq>::eq,
            (&extra[picked[k] as int], &extra[picked[l] as int]),
            false,
        ),
{
    law_registered_once(present, extra, picked);
    let part = on_layout(present, extra, picked.take(l));
    assert(part[present.len() + k] == extra[picked[k] as int]);
    assert(same(part[present.len() + k], extra[picked[l] as int], false));
}

/// An entity that is not picked equals one that was present, or one before it that was picked.
pub proof fn law_left_out_is_known<E: PartialEq>(
    present: Seq<E>,
    extra: Seq<E>,
    picked: Seq<usize>,
    i: int,
)
    requires
        to_register(present, extra, picked),
        0 <= i < extra.len(),
        !(exists|k: int| 0 <= k < picked.len() && #[trigger] picked[k] == i),
    ensures
        (exists|m: int|
            0 <= m < present.len() && call_ensures(
                <E as PartialEq>::eq,
                (&#[trigger] present[m], &extra[i]),
                true,
            )) || (exists|k: int|
            0 <= k < picked.len() && #[trigger] picked[k] < i && call_ensures(
                <E as PartialEq>::eq,
                (&extra[picked[k] as int], &extra[i]),
                true,
            )),
{
    law_registered_once(present, extra, picked);
    assert(settled(present, extra, picked, i));
    let n = choose|n: int| #[trigger] known_in_turn(present, extra, picked, i, n);
    let part = on_layout(present, extra, picked.take(n));
    let m = choose|m: int| 0 <= m < part.len() && same(#[trigger] part[m], extra[i], true);
    if m < present.len() {
        assert(part[m] == present[m]);
        assert(same(present[m], extra[i], true));
    } else {
        let k = m - present.len();
        assert(picked.take(n)[k] == picked[k]);
        assert(part[m] == extra[picked[k] as int]);
        assert(picked[k] < i);
    }
}

/// No two entities of a list are alike.
pub open spec fn all_unlike<E>(list: Seq<E>, alike: spec_fn(E, E) -> bool) -> bool {
    forall|m: int, n: int|
        #![trigger list[m], list[n]]
        0 <= m < n < list.len() ==> !alike(list[m], list[n])
}

/// Exactly one entity of a list is like `entity`.
pub open spec fn once<E>(list: Seq<E>, alike: spec_fn(E, E) -> bool, entity: E) -> bool {
    exists|m: int|
        {
            &&& 0 <= m < list.len()
            &&& alike(#[trigger] list[m], entity)
            &&& forall|n: int|
                0 <= n < list.len() && alike(#[trigger] list[n], entity) ==> n == m
        }
}

/// Where `==` is an equivalence, and no two entities that were present are alike: once the picked entities are
/// registered, exactly one entity on the layout is like each extra one, and still no two are alike.
pub proof fn law_each_on_layout_once<E: PartialEq>(
    alike: spec_fn(E, E) -> bool,
    present: Seq<E>,
    extra: Seq<E>,
    picked: Seq<usize>,
)
    requires
        equates(alike),
        all_unlike(present, alike),
        to_register(present, extra, picked),
    ensures
        all_unlike(on_layout(present, extra, picked), alike),
        forall|i: int|
            0 <= i < extra.len() ==> once(
                on_layout(present, extra, picked),
                alike,
                #[trigger] extra[i],
            ),
{
    law_registered_once(present, extra, picked);
    let layout = on_layout(present, extra, picked);
    assert forall|m: int, n: int|
        #![trigger layout[m], layout[n]]
        0 <= m < n < layout.len() implies !alike(layout[m], layout[n]) by {
        if n < present.len() {
            assert(layout[m] == present[m] && layout[n] == present[n]);
        } else {
            let k = n - present.len();
            let part = on_layout(present, extra, picked.take(k));
            assert(layout[n] == extra[picked[k] as int]);
            assert(part[m] == layout[m]);
            assert(same(part[m], extra[picked[k] as int], false));
        }
    }
    assert forall|i: int| 0 <= i < extra.len() implies once(
        layout,
        alike,
        #[trigger] extra[i],
    ) by {
        assert(settled(present, extra, picked, i));
        let m = if exists|k: int| 0 <= k < picked.len() && #[trigger] picked[k] == i {
            let k = choose|k: int| 0 <= k < picked.len() && #[trigger] picked[k] == i;
            present.len() + k
        } else {
            let n = choose|n: int| #[trigger] known_in_turn(present, extra, picked, i, n);
            let part = on_layout(present, extra, picked.take(n));
            let m = choose|m: int|
                0 <= m < part.len() && same(#[trigger] part[m], extra[i], true);
            assert(layout[m] == part[m]);
            m
        };
        assert(alike(layout[m], extra[i]));
        assert forall|n: int|
            0 <= n < layout.len() && alike(#[trigger] layout[n], extra[i]) implies n == m by {
            assert(alike(extra[i], layout[m]));
            assert(alike(extra[i], layout[n]));
            assert(alike(layout[n], layout[m]));
            assert(alike(layout[m], layout[n]));
        }
    }
}

} // verus!
