//! The order on elements, as the comparison operators of `PartialOrd` see it.
//!
//! The heaps compare elements with `<`, `>` and `>=`. What these return is
//! known only for a type whose operators follow its `partial_cmp_spec`, and a
//! heap is kept in order only where that order is total. The contracts of
//! the heaps therefore say three things: what holds of every element type
//! (no element is lost or made up), what the result is where the operators
//! are as specified ([`specified_order`]), and that the values held stay a
//! heap where the order is total ([`total_order`]).

use core::cmp::Ordering;
use vstd::prelude::*;
use vstd::std_specs::cmp::PartialOrdSpec;

verus! {

/// The comparison operators of `T` return what `partial_cmp_spec` gives.
pub open spec fn specified_order<T: PartialOrd>() -> bool {
    T::obeys_partial_cmp_spec()
}

/// `a < b`.
pub open spec fn less<T: PartialOrd>(a: T, b: T) -> bool {
    a.partial_cmp_spec(&b) == Some(Ordering::Less)
}

/// `a > b`.
pub open spec fn greater<T: PartialOrd>(a: T, b: T) -> bool {
    a.partial_cmp_spec(&b) == Some(Ordering::Greater)
}

/// `a >= b`.
pub open spec fn at_least<T: PartialOrd>(a: T, b: T) -> bool {
    a.partial_cmp_spec(&b) == Some(Ordering::Greater) || a.partial_cmp_spec(&b) == Some(
        Ordering::Equal,
    )
}

/// `T` is totally ordered: any two values compare, `>` mirrors `<`, and
/// "not below" is transitive.
pub open spec fn total_order<T: PartialOrd>() -> bool {
    &&& specified_order::<T>()
    &&& forall|a: T, b: T| #[trigger] less(a, b) || at_least(a, b)
    &&& forall|a: T, b: T| #[trigger] greater(a, b) <==> less(b, a)
    &&& forall|a: T, b: T, c: T|
        !#[trigger] less(b, a) && !#[trigger] less(c, b) ==> !less(c, a)
}

/// In a total order `<` is transitive.
pub proof fn lemma_less_transitive<T: PartialOrd>(a: T, b: T, c: T)
    requires
        total_order::<T>(),
        less(a, b),
        less(b, c),
    ensures
        less(a, c),
{
    assert(greater(b, a) <==> less(a, b));
    if !less(a, c) {
        assert(!less(b, a) && !less(a, c) ==> !less(b, c));
    }
}

/// A type whose `Ord` follows the laws that vstd states for comparisons is
/// totally ordered.
pub proof fn lemma_lawful_ord_is_total<T: Ord>()
    requires
        vstd::laws_cmp::obeys_cmp::<T>(),
    ensures
        total_order::<T>(),
{
    reveal(vstd::laws_cmp::obeys_partial_cmp_spec_properties);
    reveal(vstd::laws_cmp::obeys_cmp_partial_ord);
    reveal(vstd::laws_cmp::obeys_cmp_ord);
    reveal(vstd::laws_eq::obeys_eq_spec_properties);
}

} // verus!
