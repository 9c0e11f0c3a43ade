//! The iterated rounds shared by the three schemes.
use crate::hash::{append_bytes, digest_len, digest_of, hash_of, Algorithm};
use vstd::prelude::*;

verus! {

/// What round `i` hashes: `p` stands for the key material and `s` for the
/// salt material of the scheme.
pub open spec fn round_input(md: Seq<u8>, p: Seq<u8>, s: Seq<u8>, i: nat) -> Seq<u8> {
    (if i % 2 == 1 {
        p
    } else {
        md
    }) + (if i % 3 != 0 {
        s
    } else {
        Seq::empty()
    }) + (if i % 7 != 0 {
        p
    } else {
        Seq::empty()
    }) + (if i % 2 == 1 {
        md
    } else {
        p
    })
}

/// The digest after `n` rounds, starting from `md0`.
pub open spec fn iterate(alg: Algorithm, md0: Seq<u8>, p: Seq<u8>, s: Seq<u8>, n: nat) -> Seq<u8>
    decreases n,
{
    if n == 0 {
        md0
    } else {
        let n1 = (n - 1) as nat;
        hash_of(alg, round_input(iterate(alg, md0, p, s, n1), p, s, n1))
    }
}

/// Runs `rounds` rounds, each in a fresh digest, starting from `md`.
pub fn run_rounds(alg: Algorithm, md: Vec<u8>, p: &[u8], s: &[u8], rounds: u64) -> (r: Vec<u8>)
    requires
        md@.len() == digest_len(alg),
    ensures
        r@ == iterate(alg, md@, p@, s@, rounds as nat),
        r@.len() == digest_len(alg),
{
    let mut cur = md;
    let mut i: u64 = 0;
    while i < rounds
        invariant
            i <= rounds,
            cur@ == iterate(alg, md@, p@, s@, i as nat),
            cur@.len() == digest_len(alg),
        decreases rounds - i,
    {
        let mut input: Vec<u8> = Vec::new();
        if i % 2 == 1 {
            append_bytes(&mut input, p);
        } else {
            append_bytes(&mut input, cur.as_slice());
        }
        if i % 3 != 0 {
            append_bytes(&mut input, s);
        }
        if i % 7 != 0 {
            append_bytes(&mut input, p);
        }
        if i % 2 == 1 {
            append_bytes(&mut input, cur.as_slice());
        } else {
            append_bytes(&mut input, p);
        }
        proof {
            assert(input@ =~= round_input(cur@, p@, s@, i as nat));
        }
        cur = digest_of(alg, input.as_slice());
        i += 1;
    }
    cur
}

} // verus!
