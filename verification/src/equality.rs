//! What `==` gives, on a type that the caller chooses.
use vstd::prelude::*;

verus! {

/// `o` is an outcome of `a == b`.
pub open spec fn same<E: PartialEq>(a: E, b: E, o: bool) -> bool {
    call_ensures(<E as PartialEq>::eq, (&a, &b), o)
}

/// `o` is an outcome of looking for an element of `list` that equals `entity`.
pub open spec fn found<E: PartialEq>(list: Seq<E>, entity: E, o: bool) -> bool {
    if o {
        exists|i: int| 0 <= i < list.len() && same(#[trigger] list[i], entity, true)
    } else {
        forall|i: int| 0 <= i < list.len() ==> same(#[trigger] list[i], entity, false)
    }
}

/// `==` means that the values are the same.
pub open spec fn exact_equality<E: PartialEq>() -> bool {
    forall|a: E, b: E, o: bool| #[trigger] same(a, b, o) ==> o == (a == b)
}

/// `==` goes by `alike`, which is an equivalence. Values that are alike need not be the same.
pub open spec fn equates<E: PartialEq>(alike: spec_fn(E, E) -> bool) -> bool {
    &&& forall|a: E, b: E, o: bool| #[trigger] same(a, b, o) ==> o == alike(a, b)
    &&& forall|a: E| #[trigger] alike(a, a)
    &&& forall|a: E, b: E| #[trigger] alike(a, b) ==> alike(b, a)
    &&& forall|a: E, b: E, c: E| #[trigger] alike(a, b) && #[trigger] alike(b, c) ==> alike(a, c)
}

/// Exact equality is an equivalence.
pub proof fn exact_equality_equates<E: PartialEq>()
    requires
        exact_equality::<E>(),
    ensures
        equates(|a: E, b: E| a == b),
{
}

} // verus!
