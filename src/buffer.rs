//! Element counts between element types of different sizes.

use vstd::prelude::*;
use vstd::layout::size_of;

verus! {

/// How many elements of `U` it takes to hold `count` elements of `T`: the
/// byte size of the `T`s divided by that of a `U`, rounded up.
pub fn er<T, U>(count: usize) -> (r: usize)
    requires
        size_of::<U>() > 0,
        count * size_of::<T>() + size_of::<U>() <= usize::MAX,
    ensures
        r * size_of::<U>() >= count * size_of::<T>(),
        r == 0 || (r - 1) * size_of::<U>() < count * size_of::<T>(),
{
    let t = core::mem::size_of::<T>();
    let u = core::mem::size_of::<U>();
    let bytes = count * t;
    let r = (bytes + u - 1) / u;
    proof {
        let b = bytes as int;
        let ui = u as int;
        assert(r * ui >= b) by (nonlinear_arith)
            requires
                r == (b + ui - 1) / ui,
                ui > 0,
                b >= 0,
        ;
        assert(r == 0 || (r - 1) * ui < b) by (nonlinear_arith)
            requires
                r == (b + ui - 1) / ui,
                ui > 0,
                b >= 0,
        ;
    }
    r
}

} // verus!
