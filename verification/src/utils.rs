use vstd::prelude::*;

verus! {

/// A vector of `length` zero bytes.
pub fn zero(length: usize) -> (result: Vec<u8>)
    ensures
        result@ == Seq::new(length as nat, |i: int| 0u8),
{
    let mut result: Vec<u8> = Vec::new();
    let mut i: usize = 0;
    while i < length
        invariant
            i <= length,
            result@ == Seq::new(i as nat, |j: int| 0u8),
        decreases length - i,
    {
        result.push(0u8);
        i += 1;
        assert(result@ =~= Seq::new(i as nat, |j: int| 0u8));
    }
    result
}

} // verus!
