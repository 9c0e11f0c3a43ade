//! Account records of a shadow password database, and the operations on
//! them: checking, changing, locking, unlocking and deleting a password.
use crate::crypt::{crypt, crypt_spec};
use crate::error::CryptError;
use vstd::prelude::*;
use vstd::string::*;
use vstd::utf8::*;

verus! {

/// One account record. Dates are days since 1970-01-01.
#[derive(Debug, Clone)]
pub struct Shadow {
    /// The account name.
    pub username: String,
    /// The hashed password; a leading `!` marks a locked account.
    pub hashed_password: Option<String>,
    /// The day of the last password change.
    pub last_updated: Option<i64>,
    /// Minimum number of days between password changes.
    pub min_age: Option<usize>,
    /// Maximum number of days between password changes.
    pub max_age: Option<usize>,
    /// Days of warning before the password expires.
    pub warning_period: Option<usize>,
    /// Days after expiry until the account is disabled.
    pub inactivity_period: Option<usize>,
    /// The day on which the account expires.
    pub account_exp_date: Option<i64>,
    /// Reserved for future use.
    pub reserved: Option<String>,
}

/// Why an account operation failed.
#[derive(Clone, Copy, Debug, PartialEq, Eq, Structural)]
pub enum StoreError {
    /// No record has the given name.
    NoSuchUser,
    /// The password does not match, or the account is locked.
    PasswordMismatch,
    /// The stored hash could not be recomputed.
    Crypt(CryptError),
}

/// The characters of an optional string.
pub open spec fn opt_view(o: Option<String>) -> Option<Seq<char>> {
    match o {
        Some(s) => Some(s@),
        None => None,
    }
}

/// `i` is the first record named `u`.
pub open spec fn first_match(rs: Seq<Shadow>, u: Seq<char>, i: int) -> bool {
    0 <= i < rs.len() && rs[i].username@ == u && forall|j: int| 0 <= j < i ==> #[trigger] rs[j].username@ != u
}

/// Some record is named `u`.
pub open spec fn has_user(rs: Seq<Shadow>, u: Seq<char>) -> bool {
    exists|i: int| 0 <= i < rs.len() && #[trigger] rs[i].username@ == u
}

/// A hash marked as locked.
pub open spec fn is_locked(h: Seq<char>) -> bool {
    h.len() > 0 && h[0] == '!'
}

/// `h` without its leading `!` marks.
pub open spec fn strip_locks(h: Seq<char>) -> Seq<char>
    decreases h.len(),
{
    if is_locked(h) {
        strip_locks(h.drop_first())
    } else {
        h
    }
}

/// The hashed-password field after locking.
pub open spec fn locked(h: Option<Seq<char>>) -> Option<Seq<char>> {
    match h {
        None => Some(seq!['!']),
        Some(s) => if is_locked(s) {
            Some(s)
        } else {
            Some(seq!['!'] + s)
        },
    }
}

/// The hashed-password field after unlocking.
pub open spec fn unlocked(h: Option<Seq<char>>) -> Option<Seq<char>> {
    match h {
        Some(s) => Some(strip_locks(s)),
        None => None,
    }
}

/// `new` is `old` with the password field set to `pw` on the day `today`.
pub open spec fn password_set(old: Shadow, new: Shadow, pw: Option<Seq<char>>, today: i64) -> bool {
    &&& new.username@ == old.username@
    &&& opt_view(new.hashed_password) == pw
    &&& new.last_updated == Some(today)
    &&& new.min_age == old.min_age
    &&& new.max_age == old.max_age
    &&& new.warning_period == old.warning_period
    &&& new.inactivity_period == old.inactivity_period
    &&& new.account_exp_date == old.account_exp_date
    &&& opt_view(new.reserved) == opt_view(old.reserved)
}

/// `new` is `old` with the password field of record `i` changed to `pw` on
/// the day `today`, and nothing else changed.
pub open spec fn record_changed(
    old: Seq<Shadow>,
    new: Seq<Shadow>,
    i: int,
    pw: Option<Seq<char>>,
    today: i64,
) -> bool {
    &&& new.len() == old.len()
    &&& forall|j: int| 0 <= j < old.len() && j != i ==> #[trigger] new[j] == old[j]
    &&& password_set(old[i], new[i], pw, today)
}

/// The index of the first record named `username`.
pub fn find_user(records: &Vec<Shadow>, username: &str) -> (r: Option<usize>)
    ensures
        r matches Some(i) ==> first_match(records@, username@, i as int),
        r is None <==> !has_user(records@, username@),
{
    let name = username.to_owned();
    let mut i: usize = 0;
    while i < records.len()
        invariant
            i <= records@.len(),
            name@ == username@,
            forall|j: int| 0 <= j < i ==> #[trigger] records@[j].username@ != username@,
        decreases records@.len() - i,
    {
        if records[i].username == name {
            return Some(i);
        }
        i += 1;
    }
    None
}

/// Whether a record is named `username`.
pub fn is_valid_user(records: &Vec<Shadow>, username: &str) -> (r: bool)
    ensures
        r == has_user(records@, username@),
{
    find_user(records, username).is_some()
}

/// Whether the record named `username` holds a password.
pub fn user_has_password(records: &Vec<Shadow>, username: &str) -> (r: Result<bool, StoreError>)
    ensures
        !has_user(records@, username@) ==> r == Err::<bool, StoreError>(StoreError::NoSuchUser),
        has_user(records@, username@) ==> exists|i: int|
            first_match(records@, username@, i) && r == Ok::<bool, StoreError>(
                records@[i].hashed_password is Some,
            ),
{
    match find_user(records, username) {
        None => Err(StoreError::NoSuchUser),
        Some(i) => Ok(records[i].hashed_password.is_some()),
    }
}

/// The outcome of checking `password` against the stored field `h`.
pub open spec fn check_spec(h: Option<Seq<char>>, password: Seq<u8>) -> Result<(), StoreError> {
    match h {
        None => Ok(()),
        Some(s) => if is_locked(s) {
            Err(StoreError::PasswordMismatch)
        } else {
            match crypt_spec(password, encode_utf8(s)) {
                Err(e) => Err(StoreError::Crypt(e)),
                Ok(b) => if decode_utf8(b) == s {
                    Ok(())
                } else {
                    Err(StoreError::PasswordMismatch)
                },
            }
        },
    }
}

/// Checks `password` against the record named `username`: an empty field
/// admits any password, a locked one none.
pub fn verify_password(records: &Vec<Shadow>, username: &str, password: &str) -> (r: Result<
    (),
    StoreError,
>)
    ensures
        !has_user(records@, username@) ==> r == Err::<(), StoreError>(StoreError::NoSuchUser),
        has_user(records@, username@) ==> exists|i: int|
            first_match(records@, username@, i) && r == check_spec(
                opt_view(records@[i].hashed_password),
                encode_utf8(password@),
            ),
{
    let i = match find_user(records, username) {
        None => return Err(StoreError::NoSuchUser),
        Some(i) => i,
    };
    match &records[i].hashed_password {
        None => Ok(()),
        Some(h) => {
            let hs = h.as_str();
            if hs.unicode_len() > 0 && hs.get_char(0) == '!' {
                return Err(StoreError::PasswordMismatch);
            }
            match crypt(password.as_bytes(), hs.as_bytes()) {
                Err(e) => Err(StoreError::Crypt(e)),
                Ok(c) => if c == *h {
                    Ok(())
                } else {
                    Err(StoreError::PasswordMismatch)
                },
            }
        },
    }
}

impl Shadow {
    /// Sets the password field and records `today` as the day of the change.
    pub fn update_password(&mut self, new_hashed_password: Option<String>, today: i64)
        ensures
            password_set(*old(self), *final(self), opt_view(new_hashed_password), today),
            final(self).username == old(self).username,
            final(self).reserved == old(self).reserved,
    {
        self.hashed_password = new_hashed_password;
        self.last_updated = Some(today);
    }
}

/// Sets the password field of record `i` and stamps it with `today`.
fn set_password(records: &mut Vec<Shadow>, i: usize, pw: Option<String>, today: i64)
    requires
        i < old(records)@.len(),
    ensures
        record_changed(old(records)@, final(records)@, i as int, opt_view(pw), today),
{
    records[i].update_password(pw, today);
}

/// Outcome of an operation on the record named `u`: with no such record, an
/// error and the records unchanged; otherwise the first such record's
/// password field set to `f` of its old value on the day `today`.
pub open spec fn updated_by(
    old: Seq<Shadow>,
    new: Seq<Shadow>,
    u: Seq<char>,
    r: Result<(), StoreError>,
    today: i64,
    f: spec_fn(Option<Seq<char>>) -> Option<Seq<char>>,
) -> bool {
    &&& !has_user(old, u) ==> r == Err::<(), StoreError>(StoreError::NoSuchUser) && new == old
    &&& has_user(old, u) ==> r == Ok::<(), StoreError>(()) && exists|i: int|
        first_match(old, u, i) && record_changed(
            old,
            new,
            i,
            f(opt_view(old[i].hashed_password)),
            today,
        )
}

/// Stores `hashed_password` for the record named `username`, changed on the
/// day `today`.
pub fn update_password(
    records: &mut Vec<Shadow>,
    username: &str,
    hashed_password: &str,
    today: i64,
) -> (r: Result<(), StoreError>)
    ensures
        updated_by(
            old(records)@,
            final(records)@,
            username@,
            r,
            today,
            |h: Option<Seq<char>>| Some(hashed_password@),
        ),
{
    match find_user(records, username) {
        None => Err(StoreError::NoSuchUser),
        Some(i) => {
            set_password(records, i, Some(hashed_password.to_owned()), today);
            Ok(())
        },
    }
}

/// Locks the record named `username` by marking its hash with a leading `!`
/// (an empty field becomes `!`); a locked record is left as it is.
pub fn lock_account(records: &mut Vec<Shadow>, username: &str, today: i64) -> (r: Result<
    (),
    StoreError,
>)
    ensures
        !has_user(old(records)@, username@) ==> r == Err::<(), StoreError>(StoreError::NoSuchUser)
            && final(records)@ == old(records)@,
        has_user(old(records)@, username@) ==> r == Ok::<(), StoreError>(()) && exists|i: int|
            first_match(old(records)@, username@, i) && ({
                let h = opt_view(old(records)@[i].hashed_password);
                if h matches Some(s) && is_locked(s) {
                    final(records)@ == old(records)@
                } else {
                    record_changed(old(records)@, final(records)@, i, locked(h), today)
                }
            }),
{
    let i = match find_user(records, username) {
        None => return Err(StoreError::NoSuchUser),
        Some(i) => i,
    };
    let new_pw = match &records[i].hashed_password {
        None => Some(String::from_str("!")),
        Some(h) => {
            let hs = h.as_str();
            if hs.unicode_len() > 0 && hs.get_char(0) == '!' {
                None
            } else {
                let mut m = String::from_str("!");
                m.append(hs);
                Some(m)
            }
        },
    };
    proof {
        reveal_strlit("!");
    }
    match new_pw {
        Some(p) => {
            proof {
                assert(p@ =~= locked(opt_view(records@[i as int].hashed_password))->Some_0);
            }
            set_password(records, i, Some(p), today)
        },
        None => {},
    }
    Ok(())
}

/// Removes the leading `!` marks of `h`.
fn strip_lock_marks(h: &str) -> (r: String)
    ensures
        r@ == strip_locks(h@),
{
    let n = h.unicode_len();
    let mut k: usize = 0;
    proof {
        assert(h@.skip(0) =~= h@);
    }
    while k < n && h.get_char(k) == '!'
        invariant
            k <= n,
            n == h@.len(),
            strip_locks(h@.skip(k as int)) == strip_locks(h@),
        decreases n - k,
    {
        proof {
            assert(h@.skip(k as int).drop_first() =~= h@.skip(k + 1));
        }
        k += 1;
    }
    proof {
        assert(!is_locked(h@.skip(k as int)));
    }
    h.substring_char(k, n).to_owned()
}

/// Unlocks the record named `username` by removing the leading `!` marks of
/// its hash.
pub fn unlock_account(records: &mut Vec<Shadow>, username: &str, today: i64) -> (r: Result<
    (),
    StoreError,
>)
    ensures
        !has_user(old(records)@, username@) ==> r == Err::<(), StoreError>(StoreError::NoSuchUser)
            && final(records)@ == old(records)@,
        has_user(old(records)@, username@) ==> r == Ok::<(), StoreError>(()) && exists|i: int|
            first_match(old(records)@, username@, i) && ({
                let h = opt_view(old(records)@[i].hashed_password);
                if h matches Some(s) && is_locked(s) {
                    record_changed(old(records)@, final(records)@, i, unlocked(h), today)
                } else {
                    final(records)@ == old(records)@
                }
            }),
{
    let i = match find_user(records, username) {
        None => return Err(StoreError::NoSuchUser),
        Some(i) => i,
    };
    let new_pw = match &records[i].hashed_password {
        None => None,
        Some(h) => {
            let hs = h.as_str();
            if hs.unicode_len() > 0 && hs.get_char(0) == '!' {
                Some(strip_lock_marks(hs))
            } else {
                None
            }
        },
    };
    match new_pw {
        Some(p) => set_password(records, i, Some(p), today),
        None => {},
    }
    Ok(())
}

/// Empties the password field of the record named `username`.
pub fn delete_password(records: &mut Vec<Shadow>, username: &str, today: i64) -> (r: Result<
    (),
    StoreError,
>)
    ensures
        updated_by(old(records)@, final(records)@, username@, r, today, |h| None),
{
    match find_user(records, username) {
        None => Err(StoreError::NoSuchUser),
        Some(i) => {
            set_password(records, i, None, today);
            Ok(())
        },
    }
}

} // verus!
