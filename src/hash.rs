//! The three message digests, named by what they return, and the byte
//! helpers that assemble their inputs.
use digest::Digest;
use vstd::prelude::*;

verus! {

/// The MD5 digest of `data`.
pub uninterp spec fn md5_of(data: Seq<u8>) -> Seq<u8>;

/// The SHA-256 digest of `data`.
pub uninterp spec fn sha256_of(data: Seq<u8>) -> Seq<u8>;

/// The SHA-512 digest of `data`.
pub uninterp spec fn sha512_of(data: Seq<u8>) -> Seq<u8>;

/// Relies on `md5::Md5` through `digest::Digest::digest`: the MD5 digest of
/// the input, 16 bytes long.
#[verifier::external_body]
fn md5_digest(data: &[u8]) -> (r: Vec<u8>)
    ensures
        r@ == md5_of(data@),
        r@.len() == 16,
{
    md5::Md5::digest(data).to_vec()
}

/// Relies on `sha2::Sha256` through `digest::Digest::digest`: the SHA-256
/// digest of the input, 32 bytes long.
#[verifier::external_body]
fn sha256_digest(data: &[u8]) -> (r: Vec<u8>)
    ensures
        r@ == sha256_of(data@),
        r@.len() == 32,
{
    sha2::Sha256::digest(data).to_vec()
}

/// Relies on `sha2::Sha512` through `digest::Digest::digest`: the SHA-512
/// digest of the input, 64 bytes long.
#[verifier::external_body]
fn sha512_digest(data: &[u8]) -> (r: Vec<u8>)
    ensures
        r@ == sha512_of(data@),
        r@.len() == 64,
{
    sha2::Sha512::digest(data).to_vec()
}

/// The digest algorithms that the schemes are built on.
#[derive(Clone, Copy, Debug, PartialEq, Eq, Structural)]
pub enum Algorithm {
    Md5,
    Sha256,
    Sha512,
}

/// The digest of `data` under `alg`.
pub open spec fn hash_of(alg: Algorithm, data: Seq<u8>) -> Seq<u8> {
    match alg {
        Algorithm::Md5 => md5_of(data),
        Algorithm::Sha256 => sha256_of(data),
        Algorithm::Sha512 => sha512_of(data),
    }
}

/// The number of bytes in a digest of `alg`.
pub open spec fn digest_len(alg: Algorithm) -> nat {
    match alg {
        Algorithm::Md5 => 16,
        Algorithm::Sha256 => 32,
        Algorithm::Sha512 => 64,
    }
}

/// Hashes `data` with `alg`.
pub fn digest_of(alg: Algorithm, data: &[u8]) -> (r: Vec<u8>)
    ensures
        r@ == hash_of(alg, data@),
        r@.len() == digest_len(alg),
{
    match alg {
        Algorithm::Md5 => md5_digest(data),
        Algorithm::Sha256 => sha256_digest(data),
        Algorithm::Sha512 => sha512_digest(data),
    }
}

/// `d` repeated to cover exactly `n` bytes: whole copies, then a prefix.
pub open spec fn stretch(d: Seq<u8>, n: nat) -> Seq<u8> {
    Seq::new(n, |j: int| d[j % (d.len() as int)])
}

/// `s` written `n` times in a row.
pub open spec fn repeat(s: Seq<u8>, n: nat) -> Seq<u8>
    decreases n,
{
    if n == 0 {
        Seq::empty()
    } else {
        repeat(s, (n - 1) as nat) + s
    }
}

/// Appends `s` to `out`.
pub fn append_bytes(out: &mut Vec<u8>, s: &[u8])
    ensures
        final(out)@ == old(out)@ + s@,
{
    let mut j: usize = 0;
    while j < s.len()
        invariant
            j <= s.len(),
            out@ == old(out)@ + s@.subrange(0, j as int),
        decreases s.len() - j,
    {
        out.push(s[j]);
        j += 1;
        proof {
            assert(out@ =~= old(out)@ + s@.subrange(0, j as int));
        }
    }
    proof {
        assert(s@.subrange(0, j as int) =~= s@);
    }
}

/// Appends `d` stretched to `n` bytes to `out`.
pub fn append_stretch(out: &mut Vec<u8>, d: &[u8], n: usize)
    requires
        d@.len() > 0,
    ensures
        final(out)@ == old(out)@ + stretch(d@, n as nat),
{
    let dlen = d.len();
    let mut j: usize = 0;
    while j < n
        invariant
            j <= n,
            dlen == d@.len(),
            dlen > 0,
            out@ == old(out)@ + stretch(d@, j as nat),
        decreases n - j,
    {
        out.push(d[j % dlen]);
        j += 1;
        proof {
            assert(out@ =~= old(out)@ + stretch(d@, j as nat));
        }
    }
}

/// Appends `s` to `out` `n` times.
pub fn append_repeat(out: &mut Vec<u8>, s: &[u8], n: usize)
    ensures
        final(out)@ == old(out)@ + repeat(s@, n as nat),
{
    let mut j: usize = 0;
    while j < n
        invariant
            j <= n,
            out@ == old(out)@ + repeat(s@, j as nat),
        decreases n - j,
    {
        let ghost before = out@;
        append_bytes(out, s);
        j += 1;
        proof {
            assert(repeat(s@, j as nat) == repeat(s@, (j - 1) as nat) + s@);
            assert(out@ =~= old(out)@ + repeat(s@, j as nat));
        }
    }
}

} // verus!
