//! The administrator account of the management endpoint: the rules for a user
//! name and a password, the stored hash (PBKDF2-HMAC-SHA256 over a random salt,
//! both in Base64), and the lockout that follows repeated failures: after five
//! failures in a row the account locks, for 300 seconds in the first round and
//! twice as long in each later round, up to a day.

use vstd::prelude::*;
use crate::clock::random_bytes;
use crate::paths::{join_path, join_spec};
use crate::text::{chars_of, str_eq, string_from_chars, trim_chars, trim_spec};

verus! {

/// PBKDF2 iterations.
pub const PBKDF2_ITERATIONS: u32 = 100_000;
/// The length of a password hash, in bytes.
pub const HASH_LENGTH: usize = 32;
/// The length of a salt, in bytes.
pub const SALT_LENGTH: usize = 16;
/// Failures in a row that lock the account.
pub const MAX_FAILED_ATTEMPTS: u32 = 5;
/// The lockout of the first round, in seconds.
pub const BASE_LOCKOUT_SECS: u64 = 300;
/// The longest lockout, in seconds (a day).
pub const MAX_LOCKOUT_SECS: u64 = 86400;

/// The stored administrator account.
#[derive(Clone, Debug)]
pub struct AdminCredentials {
    pub username: String,
    /// The password hash, in Base64.
    pub password_hash: String,
    /// The salt, in Base64.
    pub salt: String,
    pub iterations: u32,
}

/// Failures and lockouts so far.
#[derive(Clone, Copy, Debug)]
pub struct LockoutState {
    /// Failures in a row since the last lockout (or success).
    pub failed_attempts: u32,
    /// The time of the last failure, in seconds since the epoch.
    pub last_failure: u64,
    /// When the current lockout ends, if there is one.
    pub locked_until: Option<u64>,
    /// The number of lockouts so far.
    pub lockout_round: u32,
}

impl Default for LockoutState {
    fn default() -> (r: Self)
        ensures
            r.failed_attempts == 0,
            r.last_failure == 0,
            r.locked_until is None,
            r.lockout_round == 0,
    {
        LockoutState { failed_attempts: 0, last_failure: 0, locked_until: None, lockout_round: 0 }
    }
}

// ───────────────────────── lockout ─────────────────────────

/// The lockout of round `round`: 300 seconds doubled `round` times, at most a day.
pub open spec fn lockout_secs(round: nat) -> nat {
    let s: nat = (BASE_LOCKOUT_SECS * vstd::arithmetic::power2::pow2(round)) as nat;
    if s < MAX_LOCKOUT_SECS {
        s
    } else {
        MAX_LOCKOUT_SECS as nat
    }
}

/// The lockout of round `round`, in seconds.
pub fn calculate_lockout_duration(round: u32) -> (secs: u64)
    ensures
        secs == lockout_secs(round as nat),
        secs <= MAX_LOCKOUT_SECS,
{
    let mut secs: u64 = BASE_LOCKOUT_SECS;
    let mut k: u32 = 0;
    proof {
        vstd::arithmetic::power2::lemma2_to64();
    }
    while k < round && secs < MAX_LOCKOUT_SECS
        invariant
            k <= round,
            secs == BASE_LOCKOUT_SECS * vstd::arithmetic::power2::pow2(k as nat),
            secs < 2 * MAX_LOCKOUT_SECS,
        decreases round - k,
    {
        proof {
            vstd::arithmetic::power2::lemma_pow2_unfold((k + 1) as nat);
        }
        secs = secs * 2;
        k += 1;
    }
    if secs < MAX_LOCKOUT_SECS {
        assert(k == round);
        secs
    } else {
        proof {
            if k < round {
                vstd::arithmetic::power2::lemma_pow2_strictly_increases(k as nat, round as nat);
            }
            assert(BASE_LOCKOUT_SECS * vstd::arithmetic::power2::pow2(k as nat) <= BASE_LOCKOUT_SECS
                * vstd::arithmetic::power2::pow2(round as nat)) by (nonlinear_arith)
                requires
                    vstd::arithmetic::power2::pow2(k as nat) <= vstd::arithmetic::power2::pow2(round as nat),
            ;
        }
        MAX_LOCKOUT_SECS
    }
}

/// No lockout lasts longer than a day, and from the tenth round on (round 9,
/// counting from 0) every lockout lasts a day.
pub proof fn law_lockout_capped(round: nat)
    ensures
        lockout_secs(round) <= MAX_LOCKOUT_SECS,
        round >= 9 ==> lockout_secs(round) == MAX_LOCKOUT_SECS,
{
    vstd::arithmetic::power2::lemma2_to64();
    if round > 9 {
        vstd::arithmetic::power2::lemma_pow2_strictly_increases(9, round);
    }
    if round >= 9 {
        assert(BASE_LOCKOUT_SECS * vstd::arithmetic::power2::pow2(9) <= BASE_LOCKOUT_SECS
            * vstd::arithmetic::power2::pow2(round)) by (nonlinear_arith)
            requires
                vstd::arithmetic::power2::pow2(9) <= vstd::arithmetic::power2::pow2(round),
        ;
    }
}

/// Each round locks twice as long as the one before, up to a day.
pub proof fn law_lockout_doubles(round: nat)
    ensures
        lockout_secs(0) == BASE_LOCKOUT_SECS,
        lockout_secs(round + 1) == if 2 * lockout_secs(round) < MAX_LOCKOUT_SECS {
            2 * lockout_secs(round)
        } else {
            MAX_LOCKOUT_SECS as nat
        },
{
    vstd::arithmetic::power2::lemma2_to64();
    vstd::arithmetic::power2::lemma_pow2_unfold(round + 1);
}

/// How long the account stays locked at `now`, if it is locked.
pub open spec fn remaining_spec(state: LockoutState, now: u64) -> Option<u64> {
    match state.locked_until {
        Some(until) => if until > now {
            Some((until - now) as u64)
        } else {
            None
        },
        None => None,
    }
}

/// How long the account stays locked at `now`, if it is locked.
pub fn lockout_remaining(state: &LockoutState, now: u64) -> (r: Option<u64>)
    ensures
        r == remaining_spec(*state, now),
{
    match state.locked_until {
        Some(until) => if until > now {
            Some(until - now)
        } else {
            None
        },
        None => None,
    }
}

/// Whether one more failure at `now` can be recorded: the count of failures does
/// not overflow, and when it locks, the round and the end of the lockout fit.
pub open spec fn failure_fits(state: LockoutState, now: u64) -> bool {
    &&& state.failed_attempts < u32::MAX
    &&& state.failed_attempts + 1 >= MAX_FAILED_ATTEMPTS ==> state.lockout_round < u32::MAX && now
        + lockout_secs(state.lockout_round as nat) <= u64::MAX
}

/// The state after a failure at `now`: one more failure at `now`; when that makes
/// five, the account locks for the lockout of the current round, the round goes
/// up and the count starts over.
pub open spec fn after_failure(state: LockoutState, now: u64) -> LockoutState {
    let failed = (state.failed_attempts + 1) as u32;
    if failed >= MAX_FAILED_ATTEMPTS {
        LockoutState {
            failed_attempts: 0,
            last_failure: now,
            locked_until: Some((now + lockout_secs(state.lockout_round as nat)) as u64),
            lockout_round: (state.lockout_round + 1) as u32,
        }
    } else {
        LockoutState { failed_attempts: failed, last_failure: now, ..state }
    }
}

/// Records a failure at `now`.
pub fn record_failure_at(state: LockoutState, now: u64) -> (r: LockoutState)
    requires
        failure_fits(state, now),
    ensures
        r == after_failure(state, now),
{
    let mut s = state;
    s.failed_attempts = s.failed_attempts + 1;
    s.last_failure = now;
    if s.failed_attempts >= MAX_FAILED_ATTEMPTS {
        let secs = calculate_lockout_duration(s.lockout_round);
        s.locked_until = Some(now + secs);
        s.lockout_round = s.lockout_round + 1;
        s.failed_attempts = 0;
    }
    s
}

/// Whether one more failure at `now` can be recorded (see `failure_fits`).
pub fn failure_recordable(state: &LockoutState, now: u64) -> (b: bool)
    ensures
        b == failure_fits(*state, now),
{
    if state.failed_attempts == u32::MAX {
        return false;
    }
    if state.failed_attempts + 1 >= MAX_FAILED_ATTEMPTS {
        if state.lockout_round == u32::MAX {
            return false;
        }
        let secs = calculate_lockout_duration(state.lockout_round);
        return now.checked_add(secs).is_some();
    }
    true
}

/// `n` failures at `now`, one after the other.
pub open spec fn failures(state: LockoutState, now: u64, n: nat) -> LockoutState
    decreases n,
{
    if n == 0 {
        state
    } else {
        after_failure(failures(state, now, (n - 1) as nat), now)
    }
}

/// Five failures in a row from a clear record lock the account for 300 seconds,
/// and four do not lock it.
pub proof fn law_five_failures_lock(now: u64)
    requires
        now + BASE_LOCKOUT_SECS <= u64::MAX,
    ensures
        ({
            let clear = LockoutState { failed_attempts: 0, last_failure: 0, locked_until: None, lockout_round: 0 };
            &&& remaining_spec(failures(clear, now, 4), now) is None
            &&& remaining_spec(failures(clear, now, 5), now) == Some(BASE_LOCKOUT_SECS)
            &&& failures(clear, now, 5).lockout_round == 1
        }),
{
    vstd::arithmetic::power2::lemma2_to64();
    reveal_with_fuel(failures, 6);
    let clear = LockoutState { failed_attempts: 0, last_failure: 0, locked_until: None, lockout_round: 0 };
    assert(failures(clear, now, 1).failed_attempts == 1);
    assert(failures(clear, now, 2).failed_attempts == 2);
    assert(failures(clear, now, 3).failed_attempts == 3);
    assert(failures(clear, now, 4).failed_attempts == 4);
    assert(failures(clear, now, 4).locked_until is None);
    assert(lockout_secs(0) == 300);
}

// ───────────────────────── names and passwords ─────────────────────────

/// What `char::is_alphanumeric` gives.
pub uninterp spec fn alphanumeric(c: char) -> bool;

/// `char::is_alphanumeric`: whether the character is alphabetic or numeric in
/// Unicode.
#[verifier::external_body]
fn is_alphanumeric(c: char) -> (b: bool)
    ensures
        b == alphanumeric(c),
{
    c.is_alphanumeric()
}

/// Why a user name is refused.
#[derive(Clone, Copy, Debug, PartialEq, Eq, Structural)]
pub enum UsernameError {
    /// A character other than a letter, a digit, `_` or `-`.
    BadCharacter,
    /// Fewer than three bytes.
    TooShort,
}

/// Whether a character may stand in a user name.
pub open spec fn name_char(c: char) -> bool {
    alphanumeric(c) || c == '_' || c == '-'
}

/// The user name an answer gives: the trimmed answer, `admin` for an empty one;
/// refused when it holds another character than letters, digits, `_` and `-`, or
/// has fewer than three bytes.
pub open spec fn username_spec(answer: Seq<char>) -> Result<Seq<char>, UsernameError> {
    let t = trim_spec(answer);
    if t.len() == 0 {
        Ok("admin"@)
    } else if !(forall|i: int| 0 <= i < t.len() ==> name_char(#[trigger] t[i])) {
        Err(UsernameError::BadCharacter)
    } else if vstd::utf8::encode_utf8(t).len() < 3 {
        Err(UsernameError::TooShort)
    } else {
        Ok(t)
    }
}

/// The view of a result holding a string.
pub open spec fn result_text<E>(r: Result<String, E>) -> Result<Seq<char>, E> {
    match r {
        Ok(s) => Ok(s@),
        Err(e) => Err(e),
    }
}

/// The user name an answer gives.
pub fn check_username(answer: &str) -> (r: Result<String, UsernameError>)
    ensures
        result_text(r) == username_spec(answer@),
{
    let v = chars_of(answer);
    let t = trim_chars(v.as_slice());
    if t.len() == 0 {
        return Ok("admin".to_owned());
    }
    let n = t.len();
    let mut i: usize = 0;
    while i < n
        invariant
            n == t@.len(),
            n > 0,
            t@ == trim_spec(answer@),
            i <= n,
            forall|j: int| 0 <= j < i ==> name_char(#[trigger] t@[j]),
        decreases n - i,
    {
        let c = t[i];
        if !(is_alphanumeric(c) || c == '_' || c == '-') {
            assert(!name_char(t@[i as int]));
            return Err(UsernameError::BadCharacter);
        }
        i += 1;
    }
    let s = string_from_chars(t.as_slice());
    let bytes = s.as_str().as_bytes().len();
    if bytes < 3 {
        Err(UsernameError::TooShort)
    } else {
        Ok(s)
    }
}

/// Whether a password is long enough: six bytes or more.
pub fn password_long_enough(password: &str) -> (b: bool)
    ensures
        b == (vstd::utf8::encode_utf8(password@).len() >= 6),
{
    password.as_bytes().len() >= 6
}

/// Whether the two entries of a password agree.
pub fn passwords_match(first: &str, second: &str) -> (b: bool)
    ensures
        b == (first@ == second@),
{
    str_eq(first, second)
}

// ───────────────────────── hashes ─────────────────────────

/// What PBKDF2-HMAC-SHA256 with `iterations` iterations derives, in `len` bytes,
/// from a password (its UTF-8 bytes) and a salt.
pub uninterp spec fn pbkdf2_of(password: Seq<char>, salt: Seq<u8>, iterations: u32, len: nat) -> Seq<u8>;

/// `ring::pbkdf2::derive` with PBKDF2-HMAC-SHA256 and `iterations` iterations into
/// `len` bytes. The crate panics on zero iterations (through `NonZeroU32`), on an
/// output longer than `u32::MAX` digests, and on inputs of 2^61 bytes or more, so
/// those are left out (the input lengths are bounded well below that).
#[verifier::external_body]
fn derive_hash(password: &str, salt: &[u8], iterations: u32, len: usize) -> (h: Vec<u8>)
    requires
        iterations > 0,
        len <= 0xffff_ffff * 32,
        password@.len() < 0x0100_0000_0000_0000,
        salt@.len() < 0x0100_0000_0000_0000,
    ensures
        h@ == pbkdf2_of(password@, salt@, iterations, len as nat),
        h@.len() == len,
{
    let mut hash = vec![0u8; len];
    ring::pbkdf2::derive(
        ring::pbkdf2::PBKDF2_HMAC_SHA256,
        std::num::NonZeroU32::new(iterations).unwrap(),
        salt,
        password.as_bytes(),
        &mut hash,
    );
    hash
}

/// `ring::pbkdf2::verify` with PBKDF2-HMAC-SHA256 and `iterations` iterations: it
/// accepts only a stored hash that is not empty and equals what the password and
/// the salt derive in as many bytes, and it accepts such a hash when the inputs
/// are not too long for the crate (which refuses inputs of 2^61 bytes or more,
/// and a stored hash of more than `u32::MAX` blocks; within the bounds here,
/// nothing is left unsaid). Zero iterations, on which `NonZeroU32` panics, are
/// left out.
#[verifier::external_body]
fn verify_hash(password: &str, salt: &[u8], iterations: u32, stored: &[u8]) -> (b: bool)
    requires
        iterations > 0,
    ensures
        b ==> stored@.len() > 0 && pbkdf2_of(password@, salt@, iterations, stored@.len()) == stored@,
        password@.len() < 0x0100_0000_0000_0000 && salt@.len() < 0x0100_0000_0000_0000
            && 0 < stored@.len() <= 0xffff_ffff * 32 && pbkdf2_of(password@, salt@, iterations, stored@.len())
            == stored@ ==> b,
{
    ring::pbkdf2::verify(
        ring::pbkdf2::PBKDF2_HMAC_SHA256,
        std::num::NonZeroU32::new(iterations).unwrap(),
        salt,
        password.as_bytes(),
        stored,
    ).is_ok()
}

/// What the standard Base64 engine (with padding) writes for some bytes.
pub uninterp spec fn base64_of(data: Seq<u8>) -> Seq<char>;

/// `base64::engine::general_purpose::STANDARD.encode`.
#[verifier::external_body]
pub(crate) fn encode_base64(data: &[u8]) -> (s: String)
    ensures
        s@ == base64_of(data@),
{
    base64::Engine::encode(&base64::engine::general_purpose::STANDARD, data)
}

/// What the standard Base64 engine reads from a text (nothing when it refuses it).
pub uninterp spec fn base64_decoded(text: Seq<char>) -> Option<Seq<u8>>;

/// `base64::engine::general_purpose::STANDARD.decode`, with its error as `None`.
/// The engine reads back what it writes: the text written for some bytes reads
/// as those bytes.
#[verifier::external_body]
pub(crate) fn decode_base64(text: &str) -> (r: Option<Vec<u8>>)
    ensures
        match r {
            Some(v) => base64_decoded(text@) == Some(v@),
            None => base64_decoded(text@) is None,
        },
        forall|d: Seq<u8>| #[trigger] base64_of(d) == text@ ==> r is Some && r->0@ == d,
{
    base64::Engine::decode(&base64::engine::general_purpose::STANDARD, text).ok()
}

/// Stored credentials for a user name, a password and a salt: the hash and the
/// salt in Base64.
pub fn make_credentials(username: String, password: &str, salt: &[u8]) -> (c: AdminCredentials)
    requires
        password@.len() < 0x0100_0000_0000_0000,
        salt@.len() < 0x0100_0000_0000_0000,
    ensures
        c.username == username,
        c.password_hash@ == base64_of(pbkdf2_of(password@, salt@, PBKDF2_ITERATIONS, 32)),
        c.salt@ == base64_of(salt@),
        c.iterations == PBKDF2_ITERATIONS,
{
    let hash = derive_hash(password, salt, PBKDF2_ITERATIONS, HASH_LENGTH);
    AdminCredentials {
        username,
        password_hash: encode_base64(hash.as_slice()),
        salt: encode_base64(salt),
        iterations: PBKDF2_ITERATIONS,
    }
}

/// Whether a password matches stored credentials: both the salt and the hash read
/// as Base64, and the hash is not empty and equals what the password and the salt
/// derive in as many bytes.
pub open spec fn password_matches(c: AdminCredentials, password: Seq<char>) -> bool {
    match (base64_decoded(c.salt@), base64_decoded(c.password_hash@)) {
        (Some(salt), Some(hash)) => hash.len() > 0 && pbkdf2_of(password, salt, PBKDF2_ITERATIONS, hash.len()) == hash,
        _ => false,
    }
}

/// Whether a password matches stored credentials (a match is always found when
/// the password and the salt are shorter than 2^56 and the hash holds at most
/// `u32::MAX` blocks).
pub fn check_password(c: &AdminCredentials, password: &str) -> (b: bool)
    ensures
        b ==> password_matches(*c, password@),
        password_matches(*c, password@) && password@.len() < 0x0100_0000_0000_0000 && base64_decoded(
            c.salt@,
        )->0.len() < 0x0100_0000_0000_0000 && base64_decoded(c.password_hash@)->0.len() <= 0xffff_ffff
            * 32 ==> b,
{
    let salt = match decode_base64(c.salt.as_str()) {
        Some(s) => s,
        None => return false,
    };
    let hash = match decode_base64(c.password_hash.as_str()) {
        Some(h) => h,
        None => return false,
    };
    verify_hash(password, salt.as_slice(), PBKDF2_ITERATIONS, hash.as_slice())
}

/// Credentials made from a password accept that password.
pub proof fn law_credentials_accept_their_password(
    c: AdminCredentials,
    password: Seq<char>,
    salt: Seq<u8>,
)
    requires
        c.password_hash@ == base64_of(pbkdf2_of(password, salt, PBKDF2_ITERATIONS, 32)),
        c.salt@ == base64_of(salt),
        base64_decoded(base64_of(salt)) == Some(salt),
        base64_decoded(base64_of(pbkdf2_of(password, salt, PBKDF2_ITERATIONS, 32))) == Some(pbkdf2_of(password, salt, PBKDF2_ITERATIONS, 32)),
        pbkdf2_of(password, salt, PBKDF2_ITERATIONS, 32).len() == 32,
    ensures
        password_matches(c, password),
{
}

// ───────────────────────── files ─────────────────────────

/// The file of the stored account, in the data directory.
pub fn credentials_path(data_dir: &str) -> (p: String)
    ensures
        p@ == join_spec(data_dir@, ".htadmin.json"@),
{
    join_path(data_dir, ".htadmin.json")
}

/// The file of the lockout state, in the data directory.
pub fn lock_path(data_dir: &str) -> (p: String)
    ensures
        p@ == join_spec(data_dir@, ".htadmin.lock.json"@),
{
    join_path(data_dir, ".htadmin.lock.json")
}

/// A new random salt of `SALT_LENGTH` bytes.
pub fn generate_salt() -> (s: Vec<u8>)
    ensures
        s@.len() == SALT_LENGTH,
{
    random_bytes(SALT_LENGTH)
}

/// What a password check answers.
#[derive(Clone, Copy, Debug, PartialEq, Eq, Structural)]
pub enum Verdict {
    /// The account is locked for this many more seconds.
    Locked(u64),
    /// No account is stored.
    NoAccount,
    /// The stored salt or hash does not read as Base64.
    Damaged,
    /// The password does not match.
    Rejected,
    /// The password matches.
    Accepted,
}

/// Whether the stored salt and hash both read as Base64.
pub open spec fn credentials_readable(c: AdminCredentials) -> bool {
    base64_decoded(c.salt@) is Some && base64_decoded(c.password_hash@) is Some
}

/// Checks a password at `now`, given the lockout state on record (if any) and the
/// stored account (if any): a lockout still running answers first, then a missing
/// account, then stored data that does not read; otherwise the password is
/// accepted exactly when it matches (a match is always found when the password
/// and the salt are shorter than 2^56).
pub fn password_verdict(lockout: Option<LockoutState>, creds: Option<&AdminCredentials>, password: &str, now: u64) -> (v: Verdict)
    ensures
        match lockout {
            Some(s) if remaining_spec(s, now) is Some => v == Verdict::Locked(remaining_spec(s, now)->0),
            _ => match creds {
                None => v == Verdict::NoAccount,
                Some(c) => if !credentials_readable(*c) {
                    v == Verdict::Damaged
                } else {
                    &&& (v == Verdict::Accepted || v == Verdict::Rejected)
                    &&& (v == Verdict::Accepted ==> password_matches(*c, password@))
                    &&& (password_matches(*c, password@) && password@.len() < 0x0100_0000_0000_0000
                        && base64_decoded(c.salt@)->0.len() < 0x0100_0000_0000_0000 && base64_decoded(
                        c.password_hash@,
                    )->0.len() <= 0xffff_ffff * 32 ==> v == Verdict::Accepted)
                },
            },
        },
{
    match lockout {
        Some(s) => match lockout_remaining(&s, now) {
            Some(r) => return Verdict::Locked(r),
            None => {},
        },
        None => {},
    }
    let c = match creds {
        Some(c) => c,
        None => return Verdict::NoAccount,
    };
    let salt = match decode_base64(c.salt.as_str()) {
        Some(s) => s,
        None => return Verdict::Damaged,
    };
    let hash = match decode_base64(c.password_hash.as_str()) {
        Some(h) => h,
        None => return Verdict::Damaged,
    };
    if verify_hash(password, salt.as_slice(), PBKDF2_ITERATIONS, hash.as_slice()) {
        Verdict::Accepted
    } else {
        Verdict::Rejected
    }
}

/// What the URL-safe Base64 engine without padding writes for some bytes.
pub uninterp spec fn base64url_of(data: Seq<u8>) -> Seq<char>;

/// `base64::engine::general_purpose::URL_SAFE_NO_PAD.encode`.
#[verifier::external_body]
pub(crate) fn encode_base64_url(data: &[u8]) -> (s: String)
    ensures
        s@ == base64url_of(data@),
{
    base64::Engine::encode(&base64::engine::general_purpose::URL_SAFE_NO_PAD, data)
}

} // verus!
