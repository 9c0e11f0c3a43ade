//! Pieces of a setting string: `$`-delimited fields, salts and prefixes.
use crate::encode::{is_safe, safe_byte};
use crate::error::CryptError;
use vstd::prelude::*;
use vstd::utf8::*;

verus! {

/// The number of bytes of `s` before its first `$` (all of `s` if none).
pub open spec fn field_len(s: Seq<u8>) -> nat
    decreases s.len(),
{
    if s.len() == 0 || s[0] == 36u8 {
        0
    } else {
        1 + field_len(s.drop_first())
    }
}

/// The bytes of `s` before its first `$`.
pub open spec fn first_field(s: Seq<u8>) -> Seq<u8> {
    s.take(field_len(s) as int)
}

/// `s` cut to at most `max` bytes.
pub open spec fn truncate(s: Seq<u8>, max: nat) -> Seq<u8> {
    if s.len() > max {
        s.take(max as int)
    } else {
        s
    }
}

/// Every byte of `s` may stand in a salt.
pub open spec fn all_safe(s: Seq<u8>) -> bool {
    forall|i: int| 0 <= i < s.len() ==> safe_byte(#[trigger] s[i])
}

/// `s` begins with `p`.
pub open spec fn has_prefix(s: Seq<u8>, p: Seq<u8>) -> bool {
    s.len() >= p.len() && s.take(p.len() as int) == p
}

/// The salt found at the start of `rest`, cut to `max` bytes, or why there is
/// none.
pub open spec fn salt_of(rest: Seq<u8>, max: nat) -> Result<Seq<u8>, CryptError> {
    let salt = truncate(first_field(rest), max);
    if salt.len() == 0 {
        Err(CryptError::MissingSalt)
    } else if !all_safe(salt) {
        Err(CryptError::UnsafeSaltCharacter)
    } else {
        Ok(salt)
    }
}

/// The string that `bytes` encode, or `EncodingFailure`.
pub open spec fn as_text(bytes: Seq<u8>) -> Result<Seq<u8>, CryptError> {
    if valid_utf8(bytes) {
        Ok(bytes)
    } else {
        Err(CryptError::EncodingFailure)
    }
}

/// `r` is the string form of the outcome `s`.
pub open spec fn text_matches(r: Result<String, CryptError>, s: Result<Seq<u8>, CryptError>) -> bool {
    match s {
        Ok(b) => r is Ok && r->Ok_0@ == decode_utf8(b),
        Err(e) => r == Err::<String, CryptError>(e),
    }
}

proof fn lemma_field_len(s: Seq<u8>, j: int)
    requires
        0 <= j <= s.len(),
        forall|k: int| 0 <= k < j ==> s[k] != 36u8,
        j == s.len() || s[j] == 36u8,
    ensures
        field_len(s) == j,
    decreases j,
{
    if j > 0 {
        let t = s.drop_first();
        assert forall|k: int| 0 <= k < j - 1 implies t[k] != 36u8 by {
            assert(t[k] == s[k + 1]);
        }
        if j < s.len() {
            assert(t[j - 1] == s[j]);
        }
        lemma_field_len(t, j - 1);
    }
}

/// The end of the `$`-delimited field of `s` that starts at `start`.
pub fn field_end(s: &[u8], start: usize) -> (e: usize)
    requires
        start <= s@.len(),
    ensures
        start <= e <= s@.len(),
        e - start == field_len(s@.subrange(start as int, s@.len() as int)),
{
    let mut j: usize = start;
    while j < s.len() && s[j] != 36u8
        invariant
            start <= j <= s@.len(),
            forall|k: int| start <= k < j ==> s@[k] != 36u8,
        decreases s@.len() - j,
    {
        j += 1;
    }
    proof {
        let t = s@.subrange(start as int, s@.len() as int);
        assert forall|k: int| 0 <= k < j - start implies t[k] != 36u8 by {
            assert(t[k] == s@[start + k]);
        }
        if j < s@.len() {
            assert(t[j - start] == s@[j as int]);
        }
        lemma_field_len(t, j - start);
    }
    j
}

/// Whether every byte of `s` may stand in a salt.
pub fn all_safe_bytes(s: &[u8]) -> (r: bool)
    ensures
        r == all_safe(s@),
{
    let mut j: usize = 0;
    while j < s.len()
        invariant
            j <= s@.len(),
            forall|k: int| 0 <= k < j ==> safe_byte(#[trigger] s@[k]),
        decreases s@.len() - j,
    {
        if !is_safe(&s[j]) {
            return false;
        }
        j += 1;
    }
    true
}

/// Whether `s` begins with `p`.
pub fn starts_with(s: &[u8], p: &[u8]) -> (r: bool)
    ensures
        r == has_prefix(s@, p@),
{
    if s.len() < p.len() {
        return false;
    }
    let mut j: usize = 0;
    while j < p.len()
        invariant
            j <= p@.len() <= s@.len(),
            forall|k: int| 0 <= k < j ==> s@[k] == p@[k],
        decreases p@.len() - j,
    {
        if s[j] != p[j] {
            proof {
                assert(s@.take(p@.len() as int)[j as int] != p@[j as int]);
            }
            return false;
        }
        j += 1;
    }
    proof {
        assert(s@.take(p@.len() as int) =~= p@);
    }
    true
}

/// The salt field of `s` that starts at `start`, cut to `max` bytes and
/// checked.
pub fn read_salt(s: &[u8], start: usize, max: usize) -> (r: Result<Vec<u8>, CryptError>)
    requires
        start <= s@.len(),
    ensures
        r matches Ok(v) ==> salt_of(s@.subrange(start as int, s@.len() as int), max as nat) == Ok::<
            Seq<u8>,
            CryptError,
        >(v@),
        r matches Err(e) ==> salt_of(s@.subrange(start as int, s@.len() as int), max as nat)
            == Err::<Seq<u8>, CryptError>(e),
{
    let ghost rest = s@.subrange(start as int, s@.len() as int);
    let e = field_end(s, start);
    let end = if e - start > max {
        start + max
    } else {
        e
    };
    let salt = &s[start..end];
    proof {
        assert(salt@ =~= truncate(first_field(rest), max as nat));
    }
    if salt.len() == 0 {
        return Err(CryptError::MissingSalt);
    }
    if !all_safe_bytes(salt) {
        return Err(CryptError::UnsafeSaltCharacter);
    }
    let mut v: Vec<u8> = Vec::new();
    crate::hash::append_bytes(&mut v, salt);
    Ok(v)
}

/// Relies on `String::from_utf8`: a string exactly when the bytes are valid
/// UTF-8, holding the characters that they encode.
#[verifier::external_body]
fn utf8_string(bytes: Vec<u8>) -> (r: Option<String>)
    ensures
        r is Some <==> valid_utf8(bytes@),
        r matches Some(s) ==> s@ == decode_utf8(bytes@),
{
    String::from_utf8(bytes).ok()
}

/// The string form of a hash assembled as bytes.
pub fn into_text(bytes: Vec<u8>) -> (r: Result<String, CryptError>)
    ensures
        text_matches(r, as_text(bytes@)),
{
    match utf8_string(bytes) {
        Some(s) => Ok(s),
        None => Err(CryptError::EncodingFailure),
    }
}

/// A field of bytes other than `$`, followed by `$`, is read back whole.
pub proof fn lemma_first_field_joined(a: Seq<u8>, b: Seq<u8>)
    requires
        forall|i: int| 0 <= i < a.len() ==> #[trigger] a[i] != 36u8,
    ensures
        field_len(a + seq![36u8] + b) == a.len(),
        first_field(a + seq![36u8] + b) == a,
{
    let s = a + seq![36u8] + b;
    assert forall|k: int| 0 <= k < a.len() implies s[k] != 36u8 by {
        assert(s[k] == a[k]);
    }
    assert(s[a.len() as int] == 36u8);
    lemma_field_len(s, a.len() as int);
    assert(s.take(a.len() as int) =~= a);
}

/// A checked salt, followed by `$`, is read back unchanged.
pub proof fn lemma_salt_of_joined(salt: Seq<u8>, max: nat, b: Seq<u8>)
    requires
        0 < salt.len() <= max,
        all_safe(salt),
    ensures
        salt_of(salt + seq![36u8] + b, max) == Ok::<Seq<u8>, CryptError>(salt),
{
    assert forall|i: int| 0 <= i < salt.len() implies #[trigger] salt[i] != 36u8 by {
        assert(safe_byte(salt[i]));
    }
    lemma_first_field_joined(salt, b);
}

} // verus!
