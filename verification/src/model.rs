//! Helpers that the modules share: models of sequences, settings with
//! defaults, and turning a vector round.

use vstd::prelude::*;

verus! {

/// `setting` where it is given, `default` otherwise.
pub open spec fn or_default<T>(setting: Option<T>, default: T) -> T {
    match setting {
        Some(value) => value,
        None => default,
    }
}

/// The models of the elements of a sequence, in order.
pub open spec fn views<T: View>(s: Seq<T>) -> Seq<T::V> {
    s.map_values(|t: T| t@)
}

/// The models of all but the last element.
pub proof fn lemma_views_drop_last<T: View>(s: Seq<T>)
    requires
        s.len() > 0,
    ensures
        views(s.drop_last()) == views(s).drop_last(),
        views(s).last() == s.last()@,
{
    assert(views(s.drop_last()) =~= views(s).drop_last());
}

/// The models of the elements in the opposite order.
pub proof fn lemma_views_reverse<T: View>(s: Seq<T>)
    ensures
        views(s.reverse()) == views(s).reverse(),
{
    assert(views(s.reverse()) =~= views(s).reverse());
}

/// The elements of `v` in the opposite order.
pub fn reversed<T>(v: Vec<T>) -> (r: Vec<T>)
    ensures
        r@ == v@.reverse(),
{
    let ghost all = v@;
    let mut v = v;
    let mut r: Vec<T> = Vec::new();
    while v.len() > 0
        invariant
            v@ == all.take(all.len() - r@.len()),
            r@.len() <= all.len(),
            r@ == all.skip(all.len() - r@.len()).reverse(),
        decreases v@.len(),
    {
        let ghost n = r@.len() as int;
        match v.pop() {
            Some(t) => {
                r.push(t);
                proof {
                    assert(v@ =~= all.take(all.len() - (n + 1)));
                    assert(r@ =~= all.skip(all.len() - (n + 1)).reverse());
                }
            },
            None => {},
        }
    }
    proof {
        assert(all.skip(0) =~= all);
    }
    r
}

} // verus!
