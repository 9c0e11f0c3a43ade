//! The line format of an account record: nine `:`-separated fields.
use crate::store::{opt_view, Shadow};
use crate::text::{
    chars_of, dec_chars, i64_of, parse_i64, parse_usize, push_dec_chars, push_signed_chars,
    signed_chars, split_colon, split_fields, string_of, trim, trim_end, trim_start, usize_of,
    views,
};
use vstd::prelude::*;

verus! {

/// A record under construction; fields left unset stay empty.
pub struct ShadowBuilder {
    pub username: Option<String>,
    pub hashed_password: Option<String>,
    pub last_updated: Option<i64>,
    pub min_age: Option<usize>,
    pub max_age: Option<usize>,
    pub warning_period: Option<usize>,
    pub inactivity_period: Option<usize>,
    pub account_exp_date: Option<i64>,
    pub reserved: Option<String>,
}

/// Why a line is not a record.
#[derive(Clone, Copy, Debug, PartialEq, Eq, Structural)]
pub enum RecordError {
    /// Fewer than nine fields.
    BadFormat,
    /// The name field is empty.
    MissingUsername,
}

/// A text field: its characters when it is given and not empty.
pub open spec fn text_field(v: Option<&str>) -> Option<Seq<char>> {
    match v {
        Some(s) => if s@.len() > 0 {
            Some(s@)
        } else {
            None
        },
        None => None,
    }
}

/// A count field: its value when it is given and reads as a `usize`.
pub open spec fn count_field(v: Option<&str>) -> Option<usize> {
    match v {
        Some(s) => usize_of(s@),
        None => None,
    }
}

/// A day field: its value when it is given and reads as an `i64`.
pub open spec fn day_field(v: Option<&str>) -> Option<i64> {
    match v {
        Some(s) => i64_of(s@),
        None => None,
    }
}

/// `a` and `b` agree on every field except possibly the one numbered `k`
/// (in the order of the record's line).
pub open spec fn same_except(a: ShadowBuilder, b: ShadowBuilder, k: int) -> bool {
    &&& k != 0 ==> a.username == b.username
    &&& k != 1 ==> a.hashed_password == b.hashed_password
    &&& k != 2 ==> a.last_updated == b.last_updated
    &&& k != 3 ==> a.min_age == b.min_age
    &&& k != 4 ==> a.max_age == b.max_age
    &&& k != 5 ==> a.warning_period == b.warning_period
    &&& k != 6 ==> a.inactivity_period == b.inactivity_period
    &&& k != 7 ==> a.account_exp_date == b.account_exp_date
    &&& k != 8 ==> a.reserved == b.reserved
}

fn str_to_owned(input: Option<&str>) -> (r: Option<String>)
    ensures
        opt_view(r) == text_field(input),
{
    match input {
        Some(s) => if s.is_empty() {
            None
        } else {
            Some(s.to_owned())
        },
        None => None,
    }
}

fn parse_int(input: Option<&str>) -> (r: Option<usize>)
    ensures
        r == count_field(input),
{
    match input {
        Some(s) => parse_usize(&chars_of(s)),
        None => None,
    }
}

fn parse_date(input: Option<&str>) -> (r: Option<i64>)
    ensures
        r == day_field(input),
{
    match input {
        Some(s) => parse_i64(&chars_of(s)),
        None => None,
    }
}

impl ShadowBuilder {
    /// A builder with every field empty.
    pub fn new() -> (r: Self)
        ensures
            r.username is None && r.hashed_password is None && r.last_updated is None
                && r.min_age is None && r.max_age is None && r.warning_period is None
                && r.inactivity_period is None && r.account_exp_date is None && r.reserved is None,
    {
        ShadowBuilder {
            username: None,
            hashed_password: None,
            last_updated: None,
            min_age: None,
            max_age: None,
            warning_period: None,
            inactivity_period: None,
            account_exp_date: None,
            reserved: None,
        }
    }

    /// Sets the account name from a text field.
    pub fn username(self, username: Option<&str>) -> (r: Self)
        ensures
            opt_view(r.username) == text_field(username),
            same_except(self, r, 0),
    {
        let mut b = self;
        b.username = str_to_owned(username);
        b
    }

    /// Sets the hashed password from a text field.
    pub fn hashed_password(self, hashed_password: Option<&str>) -> (r: Self)
        ensures
            opt_view(r.hashed_password) == text_field(hashed_password),
            same_except(self, r, 1),
    {
        let mut b = self;
        b.hashed_password = str_to_owned(hashed_password);
        b
    }

    /// Sets the day of the last change from a day field.
    pub fn last_updated(self, last_updated: Option<&str>) -> (r: Self)
        ensures
            r.last_updated == day_field(last_updated),
            same_except(self, r, 2),
    {
        let mut b = self;
        b.last_updated = parse_date(last_updated);
        b
    }

    /// Sets the minimum age from a count field.
    pub fn min_age(self, min_age: Option<&str>) -> (r: Self)
        ensures
            r.min_age == count_field(min_age),
            same_except(self, r, 3),
    {
        let mut b = self;
        b.min_age = parse_int(min_age);
        b
    }

    /// Sets the maximum age from a count field.
    pub fn max_age(self, max_age: Option<&str>) -> (r: Self)
        ensures
            r.max_age == count_field(max_age),
            same_except(self, r, 4),
    {
        let mut b = self;
        b.max_age = parse_int(max_age);
        b
    }

    /// Sets the warning period from a count field.
    pub fn warning_period(self, warning_period: Option<&str>) -> (r: Self)
        ensures
            r.warning_period == count_field(warning_period),
            same_except(self, r, 5),
    {
        let mut b = self;
        b.warning_period = parse_int(warning_period);
        b
    }

    /// Sets the inactivity period from a count field.
    pub fn inactivity_period(self, inactivity_period: Option<&str>) -> (r: Self)
        ensures
            r.inactivity_period == count_field(inactivity_period),
            same_except(self, r, 6),
    {
        let mut b = self;
        b.inactivity_period = parse_int(inactivity_period);
        b
    }

    /// Sets the expiry day from a day field.
    pub fn account_exp_date(self, account_exp_date: Option<&str>) -> (r: Self)
        ensures
            r.account_exp_date == day_field(account_exp_date),
            same_except(self, r, 7),
    {
        let mut b = self;
        b.account_exp_date = parse_date(account_exp_date);
        b
    }

    /// Sets the reserved field from a text field.
    pub fn reserved(self, reserved: Option<&str>) -> (r: Self)
        ensures
            opt_view(r.reserved) == text_field(reserved),
            same_except(self, r, 8),
    {
        let mut b = self;
        b.reserved = str_to_owned(reserved);
        b
    }

    /// The record, if it has a name.
    pub fn build(self) -> (r: Option<Shadow>)
        ensures
            self.username is None ==> r is None,
            self.username matches Some(u) ==> r matches Some(s) && s.username == u
                && s.hashed_password == self.hashed_password && s.last_updated == self.last_updated
                && s.min_age == self.min_age && s.max_age == self.max_age && s.warning_period
                == self.warning_period && s.inactivity_period == self.inactivity_period
                && s.account_exp_date == self.account_exp_date && s.reserved == self.reserved,
    {
        match self.username {
            Some(username) => Some(
                Shadow {
                    username,
                    hashed_password: self.hashed_password,
                    last_updated: self.last_updated,
                    min_age: self.min_age,
                    max_age: self.max_age,
                    warning_period: self.warning_period,
                    inactivity_period: self.inactivity_period,
                    account_exp_date: self.account_exp_date,
                    reserved: self.reserved,
                },
            ),
            None => None,
        }
    }
}

/// The fields of a line: split on `:` after trimming whitespace.
pub open spec fn record_fields(line: Seq<char>) -> Seq<Seq<char>> {
    split_colon(trim_end(trim_start(line)))
}

/// `s` when it is not empty.
pub open spec fn nonempty(s: Seq<char>) -> Option<Seq<char>> {
    if s.len() > 0 {
        Some(s)
    } else {
        None
    }
}

/// `r` is what reading `line` as a record gives: the first nine fields are
/// name, hash, last change, minimum and maximum age, warning and inactivity
/// periods, expiry day and the reserved field; later fields are ignored.
pub open spec fn record_parsed(line: Seq<char>, r: Result<Shadow, RecordError>) -> bool {
    let f = record_fields(line);
    if f.len() < 9 {
        r == Err::<Shadow, RecordError>(RecordError::BadFormat)
    } else if f[0].len() == 0 {
        r == Err::<Shadow, RecordError>(RecordError::MissingUsername)
    } else {
        r matches Ok(s) && s.username@ == f[0] && opt_view(s.hashed_password) == nonempty(f[1])
            && s.last_updated == i64_of(f[2]) && s.min_age == usize_of(f[3]) && s.max_age
            == usize_of(f[4]) && s.warning_period == usize_of(f[5]) && s.inactivity_period
            == usize_of(f[6]) && s.account_exp_date == i64_of(f[7]) && opt_view(s.reserved)
            == nonempty(f[8])
    }
}

/// The text of an optional string field.
pub open spec fn opt_text(o: Option<String>) -> Seq<char> {
    match o {
        Some(s) => s@,
        None => Seq::empty(),
    }
}

/// The text of an optional count field.
pub open spec fn opt_count(o: Option<usize>) -> Seq<char> {
    match o {
        Some(n) => dec_chars(n as nat),
        None => Seq::empty(),
    }
}

/// The text of an optional day field.
pub open spec fn opt_day(o: Option<i64>) -> Seq<char> {
    match o {
        Some(n) => signed_chars(n as int),
        None => Seq::empty(),
    }
}

/// The line of a record: its nine fields joined by `:`.
pub open spec fn line_of(r: Shadow) -> Seq<char> {
    let c = seq![':'];
    r.username@ + c + opt_text(r.hashed_password) + c + opt_day(r.last_updated) + c + opt_count(
        r.min_age,
    ) + c + opt_count(r.max_age) + c + opt_count(r.warning_period) + c + opt_count(
        r.inactivity_period,
    ) + c + opt_day(r.account_exp_date) + c + opt_text(r.reserved)
}

/// Reads one line of the database as a record.
pub fn parse_record(line: &str) -> (r: Result<Shadow, RecordError>)
    ensures
        record_parsed(line@, r),
{
    let cs = trim(&chars_of(line));
    let f = split_fields(&cs);
    proof {
        assert forall|k: int| 0 <= k < f@.len() implies #[trigger] f@[k]@ == record_fields(
            line@,
        )[k] by {
            assert(views(f@)[k] == f@[k]@);
        }
    }
    if f.len() < 9 {
        return Err(RecordError::BadFormat);
    }
    let s0 = string_of(&f[0]);
    let s1 = string_of(&f[1]);
    let s2 = string_of(&f[2]);
    let s3 = string_of(&f[3]);
    let s4 = string_of(&f[4]);
    let s5 = string_of(&f[5]);
    let s6 = string_of(&f[6]);
    let s7 = string_of(&f[7]);
    let s8 = string_of(&f[8]);
    let b = ShadowBuilder::new().username(Some(s0.as_str())).hashed_password(
        Some(s1.as_str()),
    ).last_updated(Some(s2.as_str())).min_age(Some(s3.as_str())).max_age(
        Some(s4.as_str()),
    ).warning_period(Some(s5.as_str())).inactivity_period(Some(s6.as_str())).account_exp_date(
        Some(s7.as_str()),
    ).reserved(Some(s8.as_str()));
    match b.build() {
        Some(r) => Ok(r),
        None => Err(RecordError::MissingUsername),
    }
}

fn append_chars(out: &mut Vec<char>, s: &Vec<char>)
    ensures
        final(out)@ == old(out)@ + s@,
{
    let mut j: usize = 0;
    while j < s.len()
        invariant
            j <= s@.len(),
            out@ == old(out)@ + s@.take(j as int),
        decreases s@.len() - j,
    {
        out.push(s[j]);
        j += 1;
        proof {
            assert(out@ =~= old(out)@ + s@.take(j as int));
        }
    }
    proof {
        assert(s@.take(j as int) =~= s@);
    }
}

fn append_opt_text(out: &mut Vec<char>, o: &Option<String>)
    ensures
        final(out)@ == old(out)@ + opt_text(*o),
{
    match o {
        Some(s) => append_chars(out, &chars_of(s.as_str())),
        None => {
            assert(old(out)@ + opt_text(*o) =~= old(out)@);
        },
    }
}

fn append_opt_count(out: &mut Vec<char>, o: Option<usize>)
    ensures
        final(out)@ == old(out)@ + opt_count(o),
{
    match o {
        Some(n) => push_dec_chars(out, n as u64),
        None => {
            assert(old(out)@ + opt_count(o) =~= old(out)@);
        },
    }
}

fn append_opt_day(out: &mut Vec<char>, o: Option<i64>)
    ensures
        final(out)@ == old(out)@ + opt_day(o),
{
    match o {
        Some(n) => push_signed_chars(out, n),
        None => {
            assert(old(out)@ + opt_day(o) =~= old(out)@);
        },
    }
}

impl Shadow {
    /// The record as one line of the database.
    pub fn to_line(&self) -> (r: String)
        ensures
            r@ == line_of(*self),
    {
        let mut out: Vec<char> = Vec::new();
        append_chars(&mut out, &chars_of(self.username.as_str()));
        out.push(':');
        append_opt_text(&mut out, &self.hashed_password);
        out.push(':');
        append_opt_day(&mut out, self.last_updated);
        out.push(':');
        append_opt_count(&mut out, self.min_age);
        out.push(':');
        append_opt_count(&mut out, self.max_age);
        out.push(':');
        append_opt_count(&mut out, self.warning_period);
        out.push(':');
        append_opt_count(&mut out, self.inactivity_period);
        out.push(':');
        append_opt_day(&mut out, self.account_exp_date);
        out.push(':');
        append_opt_text(&mut out, &self.reserved);
        proof {
            assert(out@ =~= line_of(*self));
        }
        string_of(&out)
    }
}

impl From<Shadow> for ShadowBuilder {
    fn from(value: Shadow) -> (r: Self) {
        ShadowBuilder {
            username: Some(value.username),
            hashed_password: value.hashed_password,
            last_updated: value.last_updated,
            min_age: value.min_age,
            max_age: value.max_age,
            warning_period: value.warning_period,
            inactivity_period: value.inactivity_period,
            account_exp_date: value.account_exp_date,
            reserved: value.reserved,
        }
    }
}

impl vstd::std_specs::convert::FromSpecImpl<Shadow> for ShadowBuilder {
    open spec fn obeys_from_spec() -> bool {
        true
    }

    open spec fn from_spec(value: Shadow) -> ShadowBuilder {
        ShadowBuilder {
            username: Some(value.username),
            hashed_password: value.hashed_password,
            last_updated: value.last_updated,
            min_age: value.min_age,
            max_age: value.max_age,
            warning_period: value.warning_period,
            inactivity_period: value.inactivity_period,
            account_exp_date: value.account_exp_date,
            reserved: value.reserved,
        }
    }
}

impl std::str::FromStr for Shadow {
    type Err = RecordError;

    fn from_str(s: &str) -> Result<Shadow, RecordError> {
        parse_record(s)
    }
}

} // verus!
