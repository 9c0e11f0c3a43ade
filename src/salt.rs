//! Fresh salts drawn from the digest alphabet.
use crate::encode::{b64, b64_char};
use vstd::prelude::*;

verus! {

/// A salt with one alphabet character per draw: draw `d` picks the character
/// at index `d % 64`. With uniform draws every character is equally likely.
pub fn make_salt(draws: &Vec<u8>) -> (r: Vec<u8>)
    ensures
        r@ == Seq::new(draws@.len(), |i: int| b64_char((draws@[i] % 64) as nat)),
{
    let mut out: Vec<u8> = Vec::new();
    let mut i: usize = 0;
    while i < draws.len()
        invariant
            i <= draws@.len(),
            out@ == Seq::new(i as nat, |k: int| b64_char((draws@[k] % 64) as nat)),
        decreases draws@.len() - i,
    {
        out.push(b64((draws[i] % 64) as u32));
        i += 1;
        proof {
            assert(out@ =~= Seq::new(i as nat, |k: int| b64_char((draws@[k] % 64) as nat)));
        }
    }
    out
}

} // verus!
