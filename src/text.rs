//! Character-level helpers for account records: whitespace trimming,
//! splitting on `:`, decimal numbers.
use vstd::prelude::*;
use vstd::string::*;

verus! {

/// A Unicode `White_Space` character, as `char::is_whitespace` defines it.
pub open spec fn is_ws(c: char) -> bool {
    let u = c as u32;
    (9 <= u <= 13) || u == 32 || u == 0x85 || u == 0xa0 || u == 0x1680 || (0x2000 <= u
        <= 0x200a) || u == 0x2028 || u == 0x2029 || u == 0x202f || u == 0x205f || u == 0x3000
}

/// `s` without its leading whitespace.
pub open spec fn trim_start(s: Seq<char>) -> Seq<char>
    decreases s.len(),
{
    if s.len() > 0 && is_ws(s[0]) {
        trim_start(s.drop_first())
    } else {
        s
    }
}

/// `s` without its trailing whitespace.
pub open spec fn trim_end(s: Seq<char>) -> Seq<char>
    decreases s.len(),
{
    if s.len() > 0 && is_ws(s.last()) {
        trim_end(s.drop_last())
    } else {
        s
    }
}

/// The `:`-separated fields of `s`; an empty `s` is one empty field.
pub open spec fn split_colon(s: Seq<char>) -> Seq<Seq<char>>
    decreases s.len(),
{
    if s.len() == 0 {
        seq![Seq::empty()]
    } else {
        let f = split_colon(s.drop_last());
        if s.last() == ':' {
            f.push(Seq::empty())
        } else {
            f.update(f.len() - 1, f.last().push(s.last()))
        }
    }
}

/// A decimal digit character.
pub open spec fn is_digit_char(c: char) -> bool {
    '0' <= c <= '9'
}

/// The number that the decimal digit characters `s` write.
pub open spec fn chars_value(s: Seq<char>) -> nat
    decreases s.len(),
{
    if s.len() == 0 {
        0
    } else {
        chars_value(s.drop_last()) * 10 + ((s.last() as u32) - 48) as nat
    }
}

/// The value of `s` if it is a non-empty run of decimal digits.
pub open spec fn digits_of(s: Seq<char>) -> Option<nat> {
    if s.len() > 0 && forall|i: int| 0 <= i < s.len() ==> is_digit_char(#[trigger] s[i]) {
        Some(chars_value(s))
    } else {
        None
    }
}

/// What `usize::from_str` reads from `s`: digits, optionally after `+`.
pub open spec fn usize_of(s: Seq<char>) -> Option<usize> {
    let body = if s.len() > 0 && s[0] == '+' {
        s.drop_first()
    } else {
        s
    };
    match digits_of(body) {
        Some(v) => if v <= usize::MAX {
            Some(v as usize)
        } else {
            None
        },
        None => None,
    }
}

/// What `i64::from_str` reads from `s`: digits, optionally after `+` or `-`.
pub open spec fn i64_of(s: Seq<char>) -> Option<i64> {
    if s.len() > 0 && s[0] == '-' {
        match digits_of(s.drop_first()) {
            Some(v) => if v <= 0x8000_0000_0000_0000 {
                Some((0 - v) as i64)
            } else {
                None
            },
            None => None,
        }
    } else {
        let body = if s.len() > 0 && s[0] == '+' {
            s.drop_first()
        } else {
            s
        };
        match digits_of(body) {
            Some(v) => if v <= i64::MAX {
                Some(v as i64)
            } else {
                None
            },
            None => None,
        }
    }
}

/// The character of the decimal digit `d`.
pub open spec fn digit_char(d: nat) -> char {
    ((48 + d) as u8) as char
}

/// The decimal characters of `n`, without leading zeros.
pub open spec fn dec_chars(n: nat) -> Seq<char>
    decreases n,
{
    if n < 10 {
        seq![digit_char(n)]
    } else {
        dec_chars(n / 10) + seq![digit_char(n % 10)]
    }
}

/// The decimal characters of `n`, with `-` before a negative number.
pub open spec fn signed_chars(n: int) -> Seq<char> {
    if n < 0 {
        seq!['-'] + dec_chars((0 - n) as nat)
    } else {
        dec_chars(n as nat)
    }
}

/// The characters of `s`.
pub fn chars_of(s: &str) -> (r: Vec<char>)
    ensures
        r@ == s@,
{
    let n = s.unicode_len();
    let mut out: Vec<char> = Vec::new();
    let mut i: usize = 0;
    while i < n
        invariant
            n == s@.len(),
            i <= n,
            out@ == s@.take(i as int),
        decreases n - i,
    {
        out.push(s.get_char(i));
        i += 1;
        proof {
            assert(out@ =~= s@.take(i as int));
        }
    }
    proof {
        assert(s@.take(n as int) =~= s@);
    }
    out
}

/// Relies on `String::from_iter` over `&char`: the string of exactly those
/// characters, in order.
#[verifier::external_body]
pub(crate) fn string_of(cs: &Vec<char>) -> (r: String)
    ensures
        r@ == cs@,
{
    String::from_iter(cs.iter())
}

/// Appends the decimal characters of `n` to `out`.
pub fn push_dec_chars(out: &mut Vec<char>, n: u64)
    ensures
        final(out)@ == old(out)@ + dec_chars(n as nat),
    decreases n,
{
    if n >= 10 {
        push_dec_chars(out, n / 10);
    }
    let d = (48 + n % 10) as u8;
    out.push(d as char);
    proof {
        assert(final(out)@ =~= old(out)@ + dec_chars(n as nat));
    }
}

/// Appends the decimal characters of `n`, signed, to `out`.
pub fn push_signed_chars(out: &mut Vec<char>, n: i64)
    ensures
        final(out)@ == old(out)@ + signed_chars(n as int),
{
    if n < 0 {
        out.push('-');
        let m: u64 = if n == i64::MIN {
            0x8000_0000_0000_0000u64
        } else {
            (-n) as u64
        };
        push_dec_chars(out, m);
        proof {
            assert(final(out)@ =~= old(out)@ + signed_chars(n as int));
        }
    } else {
        push_dec_chars(out, n as u64);
    }
}

/// The characters of `cs` without leading or trailing whitespace.
pub fn trim(cs: &Vec<char>) -> (r: Vec<char>)
    ensures
        r@ == trim_end(trim_start(cs@)),
{
    let n = cs.len();
    let mut a: usize = 0;
    proof {
        assert(cs@.skip(0) =~= cs@);
    }
    while a < n && is_ws_char(cs[a])
        invariant
            a <= n == cs@.len(),
            trim_start(cs@.skip(a as int)) == trim_start(cs@),
        decreases n - a,
    {
        proof {
            assert(cs@.skip(a as int).drop_first() =~= cs@.skip(a + 1));
        }
        a += 1;
    }
    let ghost t = cs@.skip(a as int);
    let mut b: usize = n;
    proof {
        assert(t.take(t.len() as int) =~= t);
    }
    while b > a && is_ws_char(cs[b - 1])
        invariant
            a <= b <= n == cs@.len(),
            t == cs@.skip(a as int),
            trim_end(t.take(b - a)) == trim_end(t),
        decreases b,
    {
        proof {
            assert(t.take(b - a).drop_last() =~= t.take(b - a - 1));
        }
        b -= 1;
    }
    let mut out: Vec<char> = Vec::new();
    let mut i: usize = a;
    while i < b
        invariant
            a <= i <= b <= n == cs@.len(),
            out@ == cs@.subrange(a as int, i as int),
        decreases b - i,
    {
        out.push(cs[i]);
        i += 1;
        proof {
            assert(out@ =~= cs@.subrange(a as int, i as int));
        }
    }
    proof {
        assert(out@ =~= t.take(b - a));
    }
    out
}

/// Whether `c` is whitespace.
pub fn is_ws_char(c: char) -> (r: bool)
    ensures
        r == is_ws(c),
{
    let u = c as u32;
    (9 <= u && u <= 13) || u == 32 || u == 0x85 || u == 0xa0 || u == 0x1680 || (0x2000 <= u && u
        <= 0x200a) || u == 0x2028 || u == 0x2029 || u == 0x202f || u == 0x205f || u == 0x3000
}

/// The views of a sequence of character vectors.
pub open spec fn views(v: Seq<Vec<char>>) -> Seq<Seq<char>> {
    v.map_values(|f: Vec<char>| f@)
}

/// The `:`-separated fields of `cs`.
pub fn split_fields(cs: &Vec<char>) -> (r: Vec<Vec<char>>)
    ensures
        views(r@) == split_colon(cs@),
{
    let mut fields: Vec<Vec<char>> = Vec::new();
    let mut cur: Vec<char> = Vec::new();
    let mut i: usize = 0;
    proof {
        assert(cs@.take(0) =~= Seq::<char>::empty());
        assert(views(fields@).push(cur@) =~= split_colon(cs@.take(0)));
    }
    while i < cs.len()
        invariant
            i <= cs@.len(),
            views(fields@).push(cur@) == split_colon(cs@.take(i as int)),
        decreases cs@.len() - i,
    {
        let c = cs[i];
        proof {
            assert(cs@.take(i + 1).drop_last() =~= cs@.take(i as int));
            assert(cs@.take(i + 1).last() == c);
        }
        if c == ':' {
            let done = cur;
            fields.push(done);
            cur = Vec::new();
            proof {
                assert(views(fields@).push(cur@) =~= split_colon(cs@.take(i as int)).push(
                    Seq::empty(),
                ));
            }
        } else {
            let ghost f = split_colon(cs@.take(i as int));
            cur.push(c);
            proof {
                assert(views(fields@).push(cur@) =~= f.update(f.len() - 1, f.last().push(c)));
            }
        }
        i += 1;
    }
    proof {
        assert(cs@.take(cs@.len() as int) =~= cs@);
    }
    fields.push(cur);
    proof {
        assert(views(fields@) =~= split_colon(cs@));
    }
    fields
}

/// Reads a non-empty run of decimal digits `s[a..]` that fits in 64 bits.
fn parse_digits(s: &Vec<char>, a: usize) -> (r: Option<u64>)
    requires
        a <= s@.len(),
    ensures
        r matches Some(v) ==> digits_of(s@.skip(a as int)) == Some(v as nat),
        r is None ==> (digits_of(s@.skip(a as int)) matches Some(v) ==> v > u64::MAX),
{
    let ghost t = s@.skip(a as int);
    if a == s.len() {
        return None;
    }
    let mut j: usize = a;
    while j < s.len()
        invariant
            a <= j <= s@.len(),
            t == s@.skip(a as int),
            forall|k: int| 0 <= k < j - a ==> is_digit_char(#[trigger] t[k]),
        decreases s@.len() - j,
    {
        if s[j] < '0' || s[j] > '9' {
            proof {
                assert(!is_digit_char(t[j - a]));
            }
            return None;
        }
        j += 1;
    }
    let mut v: u64 = 0;
    let mut j: usize = a;
    while j < s.len()
        invariant
            a <= j <= s@.len(),
            t == s@.skip(a as int),
            t.len() > 0,
            forall|k: int| 0 <= k < t.len() ==> is_digit_char(#[trigger] t[k]),
            v as nat == chars_value(t.take(j - a)),
        decreases s@.len() - j,
    {
        proof {
            assert(t[j - a] == s@[j as int]);
            assert(is_digit_char(t[j - a]));
        }
        let d = (s[j] as u32 - 48) as u64;
        proof {
            assert(t.take(j - a + 1).drop_last() =~= t.take(j - a));
        }
        if v > (u64::MAX - d) / 10 {
            proof {
                assert(chars_value(t.take(j - a + 1)) == v * 10 + d);
                lemma_chars_prefix(t, j - a + 1, t.len() as int);
                assert(t.take(t.len() as int) =~= t);
            }
            return None;
        }
        v = v * 10 + d;
        j += 1;
    }
    proof {
        assert(t.take(t.len() as int) =~= t);
    }
    Some(v)
}

proof fn lemma_chars_prefix(s: Seq<char>, k: int, n: int)
    requires
        0 <= k <= n <= s.len(),
    ensures
        chars_value(s.take(k)) <= chars_value(s.take(n)),
    decreases n - k,
{
    if k < n {
        assert(s.take(n).drop_last() =~= s.take(n - 1));
        lemma_chars_prefix(s, k, n - 1);
    }
}

/// Reads `s` as `usize::from_str` does.
pub fn parse_usize(s: &Vec<char>) -> (r: Option<usize>)
    ensures
        r == usize_of(s@),
{
    let a: usize = if s.len() > 0 && s[0] == '+' {
        1
    } else {
        0
    };
    proof {
        assert(s@.skip(0) =~= s@);
        assert(s@.skip(1) =~= s@.drop_first());
    }
    match parse_digits(s, a) {
        Some(v) => if v <= usize::MAX as u64 {
            Some(v as usize)
        } else {
            None
        },
        None => None,
    }
}

/// Reads `s` as `i64::from_str` does.
pub fn parse_i64(s: &Vec<char>) -> (r: Option<i64>)
    ensures
        r == i64_of(s@),
{
    proof {
        assert(s@.skip(0) =~= s@);
        assert(s@.skip(1) =~= s@.drop_first());
    }
    if s.len() > 0 && s[0] == '-' {
        match parse_digits(s, 1) {
            Some(v) => if v < 0x8000_0000_0000_0000u64 {
                Some(0 - (v as i64))
            } else if v == 0x8000_0000_0000_0000u64 {
                Some(i64::MIN)
            } else {
                None
            },
            None => None,
        }
    } else {
        let a: usize = if s.len() > 0 && s[0] == '+' {
            1
        } else {
            0
        };
        match parse_digits(s, a) {
            Some(v) => if v <= i64::MAX as u64 {
                Some(v as i64)
            } else {
                None
            },
            None => None,
        }
    }
}

} // verus!
