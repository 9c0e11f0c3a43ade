//! The printable digest alphabet and the digest-to-text encoder.
use vstd::prelude::*;

verus! {

/// The character of the alphabet `./0-9A-Za-z` at index `d` (`d < 64`).
pub open spec fn b64_char(d: nat) -> u8 {
    if d < 2 {
        (46 + d) as u8
    } else if d < 12 {
        (48 + (d - 2)) as u8
    } else if d < 38 {
        (65 + (d - 12)) as u8
    } else {
        (97 + (d - 38)) as u8
    }
}

/// `n` base-64 digits of `u`, least significant digit first.
pub open spec fn to64_spec(u: nat, n: int) -> Seq<u8>
    decreases n,
{
    if n <= 0 {
        Seq::empty()
    } else {
        seq![b64_char(u % 64)] + to64_spec(u / 64, n - 1)
    }
}

/// A byte that may stand in a salt: neither `$`, `:` nor a newline.
pub open spec fn safe_byte(c: u8) -> bool {
    c != 36u8 && c != 58u8 && c != 10u8
}

/// Three digest bytes packed most significant first.
pub open spec fn pack3(md: Seq<u8>, a: int, b: int, c: int) -> nat {
    (md[a] as nat) * 65536 + (md[b] as nat) * 256 + (md[c] as nat)
}

/// The text of the first `g` groups of `perm` (three digest indices per
/// group), four characters per group.
pub open spec fn encode_groups(md: Seq<u8>, perm: Seq<usize>, g: nat) -> Seq<u8>
    decreases g,
{
    if g == 0 {
        Seq::empty()
    } else {
        let k = 3 * (g - 1);
        encode_groups(md, perm, (g - 1) as nat) + to64_spec(
            pack3(md, perm[k] as int, perm[k + 1] as int, perm[k + 2] as int),
            4,
        )
    }
}

/// Whether `c` is the alphabet character at some index.
pub open spec fn in_alphabet(c: u8) -> bool {
    exists|d: nat| d < 64 && b64_char(d) == c
}

/// The alphabet character at index `d`.
pub fn b64(d: u32) -> (r: u8)
    requires
        d < 64,
    ensures
        r == b64_char(d as nat),
{
    if d < 2 {
        46 + d as u8
    } else if d < 12 {
        48 + (d - 2) as u8
    } else if d < 38 {
        65 + (d - 12) as u8
    } else {
        97 + (d - 38) as u8
    }
}

/// Whether `c` may stand in a salt.
pub fn is_safe(c: &u8) -> (r: bool)
    ensures
        r == safe_byte(*c),
{
    *c != 36u8 && *c != 58u8 && *c != 10u8
}

/// Encodes `u` as `n` alphabet characters, least significant digit first.
pub fn to64(u: u32, n: i32) -> (r: Vec<u8>)
    ensures
        r@ == to64_spec(u as nat, n as int),
{
    let mut s: Vec<u8> = Vec::new();
    let mut v = u;
    let mut k = n;
    while k > 0
        invariant
            s@ + to64_spec(v as nat, k as int) == to64_spec(u as nat, n as int),
        decreases k,
    {
        let c = b64(v % 64);
        proof {
            assert(s@.push(c) + to64_spec((v / 64) as nat, k - 1) =~= s@ + to64_spec(
                v as nat,
                k as int,
            ));
        }
        s.push(c);
        k -= 1;
        v /= 64;
    }
    proof {
        assert(s@ =~= s@ + to64_spec(v as nat, k as int));
    }
    s
}

/// Every character of `to64_spec(u, n)` is an alphabet character: safe for a
/// salt field and ASCII.
pub proof fn lemma_to64_alphabet(u: nat, n: int)
    ensures
        forall|i: int|
            0 <= i < to64_spec(u, n).len() ==> safe_byte(#[trigger] to64_spec(u, n)[i])
                && to64_spec(u, n)[i] < 128,
        to64_spec(u, n).len() == if n <= 0 { 0 } else { n },
    decreases n,
{
    if n > 0 {
        lemma_to64_alphabet(u / 64, n - 1);
        let d = u % 64;
        assert(safe_byte(b64_char(d)) && b64_char(d) < 128);
        let t = to64_spec(u / 64, n - 1);
        assert forall|i: int| 0 <= i < to64_spec(u, n).len() implies safe_byte(
            #[trigger] to64_spec(u, n)[i],
        ) && to64_spec(u, n)[i] < 128 by {
            if i > 0 {
                assert(to64_spec(u, n)[i] == t[i - 1]);
            }
        }
    }
}

/// Every character of `encode_groups(md, perm, g)` is safe and ASCII.
pub proof fn lemma_groups_alphabet(md: Seq<u8>, perm: Seq<usize>, g: nat)
    ensures
        forall|i: int|
            0 <= i < encode_groups(md, perm, g).len() ==> safe_byte(
                #[trigger] encode_groups(md, perm, g)[i],
            ) && encode_groups(md, perm, g)[i] < 128,
        encode_groups(md, perm, g).len() == 4 * g,
    decreases g,
{
    if g > 0 {
        let k = 3 * (g - 1);
        let u = pack3(md, perm[k] as int, perm[k + 1] as int, perm[k + 2] as int);
        lemma_groups_alphabet(md, perm, (g - 1) as nat);
        lemma_to64_alphabet(u, 4);
        let a = encode_groups(md, perm, (g - 1) as nat);
        let b = to64_spec(u, 4);
        assert forall|i: int| 0 <= i < encode_groups(md, perm, g).len() implies safe_byte(
            #[trigger] encode_groups(md, perm, g)[i],
        ) && encode_groups(md, perm, g)[i] < 128 by {
            if i >= a.len() {
                assert(encode_groups(md, perm, g)[i] == b[i - a.len()]);
            } else {
                assert(encode_groups(md, perm, g)[i] == a[i]);
            }
        }
    }
}

/// Encodes the digest `md` group by group, in the order that `perm` gives
/// (three digest indices per group, most significant first).
pub fn encode_perm(md: &Vec<u8>, perm: &Vec<usize>) -> (r: Vec<u8>)
    requires
        forall|i: int| 0 <= i < perm.len() ==> #[trigger] perm[i] < md.len(),
    ensures
        r@ == encode_groups(md@, perm@, (perm.len() / 3) as nat),
{
    let groups = perm.len() / 3;
    let mut out: Vec<u8> = Vec::new();
    let mut g: usize = 0;
    while g < groups
        invariant
            groups == perm.len() / 3,
            g <= groups,
            forall|i: int| 0 <= i < perm.len() ==> #[trigger] perm[i] < md.len(),
            out@ == encode_groups(md@, perm@, g as nat),
        decreases groups - g,
    {
        let k = 3 * g;
        let u = ((md[perm[k]] as u32) * 65536) + ((md[perm[k + 1]] as u32) * 256) + (
        md[perm[k + 2]] as u32);
        let t = to64(u, 4);
        let mut j: usize = 0;
        let ghost before = out@;
        while j < t.len()
            invariant
                j <= t.len(),
                out@ == before + t@.subrange(0, j as int),
            decreases t.len() - j,
        {
            out.push(t[j]);
            j += 1;
            proof {
                assert(out@ =~= before + t@.subrange(0, j as int));
            }
        }
        proof {
            assert(t@.subrange(0, j as int) =~= t@);
        }
        g += 1;
    }
    out
}

} // verus!
