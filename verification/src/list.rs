//! Lists.

use vstd::prelude::*;

verus! {

/// Turns a list round, so that it can be taken apart from its front.
pub fn reversed<T>(list: Vec<T>) -> (r: Vec<T>)
    ensures
        r@ == list@.reverse(),
{
    let mut rest = list;
    let mut out: Vec<T> = Vec::new();
    while rest.len() > 0
        invariant
            list@ =~= rest@ + out@.reverse(),
        decreases rest@.len(),
    {
        let ghost had = out@;
        if let Some(item) = rest.pop() {
            out.push(item);
            proof {
                assert(out@.reverse() =~= seq![item] + had.reverse());
            }
        }
    }
    proof {
        assert(out@ =~= out@.reverse().reverse());
        assert(list@ =~= out@.reverse());
    }
    out
}

} // verus!
