//! Vocabulary shared by the contracts: the views of the items of a
//! sequence, and results taken in sequence.

use crate::error::SchemaError;
use vstd::prelude::*;

verus! {

/// The views of the items of a sequence, one for one.
pub open spec fn views<T: View>(items: Seq<T>) -> Seq<T::V> {
    Seq::new(items.len(), |i: int| items[i]@)
}

/// One more item gives one more view.
pub proof fn lemma_views_push<T: View>(items: Seq<T>, item: T)
    ensures
        views(items.push(item)) == views(items).push(item@),
{
}

/// The views of two sequences joined are the views of each, joined.
pub proof fn lemma_views_add<T: View>(first: Seq<T>, second: Seq<T>)
    ensures
        views(first + second) == views(first) + views(second),
{
}

/// Two results in sequence: the first error met, or the items of both.
pub open spec fn chain<A>(
    first: Result<Seq<A>, SchemaError>,
    rest: Result<Seq<A>, SchemaError>,
) -> Result<Seq<A>, SchemaError> {
    match first {
        Err(e) => Err(e),
        Ok(items) => match rest {
            Err(e) => Err(e),
            Ok(more) => Ok(items + more),
        },
    }
}

/// Results in sequence may be grouped either way.
pub proof fn lemma_chain_associative<A>(
    first: Result<Seq<A>, SchemaError>,
    second: Result<Seq<A>, SchemaError>,
    third: Result<Seq<A>, SchemaError>,
)
    ensures
        chain(first, chain(second, third)) == chain(chain(first, second), third),
{
    if let Ok(a) = first {
        if let Ok(b) = second {
            if let Ok(c) = third {
                assert(a + (b + c) =~= (a + b) + c);
            }
        }
    }
}

} // verus!
