//! Character-level text utilities shared by the parsers of this crate.
//!
//! Strings are viewed as sequences of characters (`Seq<char>`); each function
//! here is specified over that view.

use vstd::prelude::*;

verus! {

// ───────────────────────── conversions ─────────────────────────

/// `String::push` appends one character.
#[verifier::external_body]
pub(crate) fn push_char(s: &mut String, c: char)
    ensures
        final(s)@ == old(s)@.push(c),
{
    s.push(c);
}

/// The characters of `s`, in order.
pub fn chars_of(s: &str) -> (v: Vec<char>)
    ensures
        v@ == s@,
{
    let mut v: Vec<char> = Vec::new();
    for c in it: s.chars()
        invariant
            v@ == it.seq().take(it.index() as int),
            it.seq() == s@,
    {
        v.push(c);
    }
    v
}

/// Appends the characters of `v` to `out`.
pub fn push_chars(out: &mut String, v: &[char])
    ensures
        final(out)@ == old(out)@ + v@,
{
    let n = v.len();
    let mut i: usize = 0;
    while i < n
        invariant
            n == v@.len(),
            i <= n,
            out@ == old(out)@ + v@.take(i as int),
        decreases n - i,
    {
        push_char(out, v[i]);
        i += 1;
        assert(v@.take(i as int) =~= v@.take(i - 1).push(v@[i - 1]));
    }
    assert(v@.take(n as int) =~= v@);
}

/// The characters of `v` from position `lo` up to `hi`.
pub fn sub_chars(v: &[char], lo: usize, hi: usize) -> (r: Vec<char>)
    requires
        lo <= hi <= v@.len(),
    ensures
        r@ == v@.subrange(lo as int, hi as int),
{
    let mut r: Vec<char> = Vec::new();
    let mut i: usize = lo;
    while i < hi
        invariant
            lo <= i <= hi <= v@.len(),
            r@ == v@.subrange(lo as int, i as int),
        decreases hi - i,
    {
        r.push(v[i]);
        i += 1;
        assert(r@ =~= v@.subrange(lo as int, i as int));
    }
    r
}

/// A string holding the characters of `v`.
pub fn string_from_chars(v: &[char]) -> (s: String)
    ensures
        s@ == v@,
{
    let mut s = String::new();
    push_chars(&mut s, v);
    s
}

/// Appends the characters of `t` to `out`.
pub fn push_str(out: &mut String, t: &str)
    ensures
        final(out)@ == old(out)@ + t@,
{
    let v = chars_of(t);
    push_chars(out, v.as_slice());
}

// ───────────────────────── lower case ─────────────────────────

/// What `str::to_lowercase` gives for a string (Unicode lower-case mapping).
pub uninterp spec fn lowercase_of(s: Seq<char>) -> Seq<char>;

/// `str::to_lowercase`: the result is the lower-case mapping of the argument.
#[verifier::external_body]
pub(crate) fn to_lowercase(s: &str) -> (r: String)
    ensures
        r@ == lowercase_of(s@),
{
    s.to_lowercase()
}

// ───────────────────────── prefixes and suffixes ─────────────────────────

pub open spec fn starts_with(s: Seq<char>, p: Seq<char>) -> bool {
    p.len() <= s.len() && s.take(p.len() as int) == p
}

pub open spec fn ends_with(s: Seq<char>, p: Seq<char>) -> bool {
    p.len() <= s.len() && s.skip(s.len() - p.len()) == p
}

/// Whether `p` occurs in `s` at position `i`.
pub open spec fn occurs_at(s: Seq<char>, p: Seq<char>, i: int) -> bool {
    0 <= i && i + p.len() <= s.len() && s.subrange(i, i + p.len()) == p
}

/// Whether `p` occurs anywhere in `s`.
pub open spec fn contains_seq(s: Seq<char>, p: Seq<char>) -> bool {
    exists|i: int| occurs_at(s, p, i)
}

/// Whether `p` occurs in `s` at position `i` (checked character by character).
pub fn matches_at(s: &[char], p: &[char], i: usize) -> (b: bool)
    ensures
        b == occurs_at(s@, p@, i as int),
{
    if i > s.len() || s.len() - i < p.len() {
        return false;
    }
    let n = p.len();
    let mut j: usize = 0;
    while j < n
        invariant
            n == p@.len(),
            i + n <= s@.len(),
            i + n <= s.len(),
            j <= n,
            forall|k: int| 0 <= k < j ==> s@[i + k] == p@[k],
        decreases n - j,
    {
        if s[i + j] != p[j] {
            assert(s@.subrange(i as int, i + n)[j as int] != p@[j as int]);
            return false;
        }
        j += 1;
    }
    assert(s@.subrange(i as int, i + n) =~= p@);
    true
}

pub fn seq_starts_with(s: &[char], p: &[char]) -> (b: bool)
    ensures
        b == starts_with(s@, p@),
{
    let b = matches_at(s, p, 0);
    proof {
        if p@.len() <= s@.len() {
            assert(s@.subrange(0, p@.len() as int) =~= s@.take(p@.len() as int));
        }
    }
    b
}

pub fn seq_ends_with(s: &[char], p: &[char]) -> (b: bool)
    ensures
        b == ends_with(s@, p@),
{
    if p.len() > s.len() {
        return false;
    }
    let b = matches_at(s, p, s.len() - p.len());
    proof {
        assert(s@.subrange(s@.len() - p@.len(), s@.len() as int) =~= s@.skip(
            s@.len() - p@.len(),
        ));
    }
    b
}

/// Whether `p` occurs anywhere in `s`.
pub fn seq_contains(s: &[char], p: &[char]) -> (b: bool)
    ensures
        b == contains_seq(s@, p@),
{
    if p.len() > s.len() {
        proof {
            assert forall|i: int| !occurs_at(s@, p@, i) by {}
        }
        return false;
    }
    let last = s.len() - p.len();
    let mut i: usize = 0;
    loop
        invariant
            last == s@.len() - p@.len(),
            i <= last,
            forall|k: int| 0 <= k < i ==> !occurs_at(s@, p@, k),
        ensures
            forall|k: int| 0 <= k <= last ==> !occurs_at(s@, p@, k),
        decreases last - i,
    {
        if matches_at(s, p, i) {
            return true;
        }
        if i == last {
            break;
        }
        i += 1;
    }
    proof {
        assert forall|k: int| !occurs_at(s@, p@, k) by {
            if 0 <= k <= last {
            }
        }
    }
    false
}

pub fn str_starts_with(s: &str, p: &str) -> (b: bool)
    ensures
        b == starts_with(s@, p@),
{
    let sv = chars_of(s);
    let pv = chars_of(p);
    seq_starts_with(sv.as_slice(), pv.as_slice())
}

pub fn str_ends_with(s: &str, p: &str) -> (b: bool)
    ensures
        b == ends_with(s@, p@),
{
    let sv = chars_of(s);
    let pv = chars_of(p);
    seq_ends_with(sv.as_slice(), pv.as_slice())
}

pub fn str_contains(s: &str, p: &str) -> (b: bool)
    ensures
        b == contains_seq(s@, p@),
{
    let sv = chars_of(s);
    let pv = chars_of(p);
    seq_contains(sv.as_slice(), pv.as_slice())
}

/// Two strings hold the same characters.
pub fn str_eq(a: &str, b: &str) -> (r: bool)
    ensures
        r == (a@ == b@),
{
    let x: String = a.to_owned();
    let y: String = b.to_owned();
    x == y
}

// ───────────────────────── splitting ─────────────────────────

/// The pieces of `s` between occurrences of `c` (what `str::split(c)` yields):
/// one more piece than there are occurrences, empty pieces included.
pub open spec fn split_spec(s: Seq<char>, c: char) -> Seq<Seq<char>>
    decreases s.len(),
{
    if s.len() == 0 {
        seq![Seq::<char>::empty()]
    } else {
        let rest = split_spec(s.drop_last(), c);
        if s.last() == c {
            rest.push(Seq::<char>::empty())
        } else {
            rest.update(rest.len() - 1, rest.last().push(s.last()))
        }
    }
}

/// A split always yields at least one piece.
pub proof fn lemma_split_nonempty(s: Seq<char>, c: char)
    ensures
        split_spec(s, c).len() >= 1,
    decreases s.len(),
{
    if s.len() > 0 {
        lemma_split_nonempty(s.drop_last(), c);
    }
}

/// A sequence without the separator is split into itself alone.
pub proof fn lemma_split_without_sep(s: Seq<char>, c: char)
    requires
        !s.contains(c),
    ensures
        split_spec(s, c) == seq![s],
    decreases s.len(),
{
    if s.len() > 0 {
        let t = s.drop_last();
        assert(!t.contains(c)) by {
            if t.contains(c) {
                let k = choose|k: int| 0 <= k < t.len() && t[k] == c;
                assert(s[k] == c);
            }
        }
        lemma_split_without_sep(t, c);
        assert(s.last() != c) by {
            assert(s[s.len() - 1] == s.last());
        }
        assert(t.push(s.last()) =~= s);
        let r = split_spec(t, c);
        assert(r.update(r.len() - 1, r.last().push(s.last())) =~= seq![s]);
    } else {
        assert(s =~= Seq::<char>::empty());
    }
}

/// The first piece of `a`, the separator, then anything, is `a` when `a` holds no separator.
pub proof fn lemma_split_first_piece(a: Seq<char>, c: char, b: Seq<char>)
    requires
        !a.contains(c),
    ensures
        split_spec(a.push(c) + b, c).len() >= 2,
        split_spec(a.push(c) + b, c)[0] == a,
    decreases b.len(),
{
    if b.len() == 0 {
        lemma_split_without_sep(a, c);
        assert(a.push(c) + b =~= a.push(c));
        assert((a.push(c)).drop_last() =~= a);
    } else {
        let b2 = b.drop_last();
        lemma_split_first_piece(a, c, b2);
        assert((a.push(c) + b).drop_last() =~= a.push(c) + b2);
        assert((a.push(c) + b).last() == b.last());
    }
}


/// `str::split(c)`, collected.
pub fn split_chars(s: &[char], c: char) -> (r: Vec<Vec<char>>)
    ensures
        r@.len() == split_spec(s@, c).len(),
        forall|i: int| 0 <= i < r@.len() ==> #[trigger] r@[i]@ == split_spec(s@, c)[i],
{
    let n = s.len();
    let mut parts: Vec<Vec<char>> = Vec::new();
    let mut cur: Vec<char> = Vec::new();
    let mut i: usize = 0;
    assert(s@.take(0) =~= Seq::<char>::empty());
    while i < n
        invariant
            n == s@.len(),
            i <= n,
            parts@.len() + 1 == split_spec(s@.take(i as int), c).len(),
            forall|k: int| 0 <= k < parts@.len() ==> #[trigger] parts@[k]@ == split_spec(s@.take(i as int), c)[k],
            cur@ == split_spec(s@.take(i as int), c).last(),
        decreases n - i,
    {
        let ghost prev = split_spec(s@.take(i as int), c);
        proof {
            lemma_split_nonempty(s@.take(i as int), c);
            assert(s@.take(i + 1).drop_last() =~= s@.take(i as int));
            assert(s@.take(i + 1).last() == s@[i as int]);
        }
        if s[i] == c {
            let done = cur;
            parts.push(done);
            cur = Vec::new();
            proof {
                let next = split_spec(s@.take(i + 1), c);
                assert(next == prev.push(Seq::<char>::empty()));
                assert forall|k: int| 0 <= k < parts@.len() implies #[trigger] parts@[k]@ == next[k] by {
                    if k < parts@.len() - 1 {
                    }
                }
            }
        } else {
            cur.push(s[i]);
            proof {
                let next = split_spec(s@.take(i + 1), c);
                assert(next == prev.update(prev.len() - 1, prev.last().push(s@[i as int])));
                assert forall|k: int| 0 <= k < parts@.len() implies #[trigger] parts@[k]@ == next[k] by {
                }
            }
        }
        i += 1;
    }
    assert(s@.take(n as int) =~= s@);
    let ghost all = split_spec(s@, c);
    let last = cur;
    parts.push(last);
    proof {
        assert forall|k: int| 0 <= k < parts@.len() implies #[trigger] parts@[k]@ == all[k] by {
            if k < parts@.len() - 1 {
            }
        }
    }
    parts
}

// ───────────────────────── white space ─────────────────────────

/// The characters that Unicode marks `White_Space` (what `char::is_whitespace` accepts).
pub open spec fn is_ws(c: char) -> bool {
    let u = c as u32;
    (0x9 <= u <= 0xd) || u == 0x20 || u == 0x85 || u == 0xa0 || u == 0x1680 || (0x2000 <= u
        <= 0x200a) || u == 0x2028 || u == 0x2029 || u == 0x202f || u == 0x205f || u == 0x3000
}

pub fn is_whitespace(c: char) -> (b: bool)
    ensures
        b == is_ws(c),
{
    let u = c as u32;
    (0x9 <= u && u <= 0xd) || u == 0x20 || u == 0x85 || u == 0xa0 || u == 0x1680 || (0x2000 <= u
        && u <= 0x200a) || u == 0x2028 || u == 0x2029 || u == 0x202f || u == 0x205f || u == 0x3000
}

/// `s` without its leading white space.
pub open spec fn trim_start_spec(s: Seq<char>) -> Seq<char>
    decreases s.len(),
{
    if s.len() > 0 && is_ws(s[0]) {
        trim_start_spec(s.drop_first())
    } else {
        s
    }
}

/// `s` without its trailing white space.
pub open spec fn trim_end_spec(s: Seq<char>) -> Seq<char>
    decreases s.len(),
{
    if s.len() > 0 && is_ws(s.last()) {
        trim_end_spec(s.drop_last())
    } else {
        s
    }
}

/// `s` without leading and trailing white space (what `str::trim` gives).
pub open spec fn trim_spec(s: Seq<char>) -> Seq<char> {
    trim_end_spec(trim_start_spec(s))
}

/// `str::trim` on a character sequence.
pub fn trim_chars(s: &[char]) -> (r: Vec<char>)
    ensures
        r@ == trim_spec(s@),
{
    let n = s.len();
    let mut lo: usize = 0;
    assert(s@.skip(0) =~= s@);
    while lo < n && is_whitespace(s[lo])
        invariant
            n == s@.len(),
            lo <= n,
            trim_start_spec(s@) == trim_start_spec(s@.skip(lo as int)),
        decreases n - lo,
    {
        assert(s@.skip(lo as int).drop_first() =~= s@.skip(lo + 1));
        lo += 1;
    }
    let ghost mid = s@.skip(lo as int);
    assert(trim_start_spec(mid) == mid);
    let mut hi: usize = n;
    while hi > lo && is_whitespace(s[hi - 1])
        invariant
            n == s@.len(),
            lo <= hi <= n,
            mid == s@.skip(lo as int),
            trim_end_spec(mid) == trim_end_spec(s@.subrange(lo as int, hi as int)),
        decreases hi - lo,
    {
        assert(s@.subrange(lo as int, hi as int).drop_last() =~= s@.subrange(
            lo as int,
            hi - 1,
        ));
        hi -= 1;
    }
    assert(trim_end_spec(s@.subrange(lo as int, hi as int)) == s@.subrange(lo as int, hi as int));
    let mut r: Vec<char> = Vec::new();
    let mut i: usize = lo;
    while i < hi
        invariant
            lo <= i <= hi <= n,
            n == s@.len(),
            r@ == s@.subrange(lo as int, i as int),
        decreases hi - i,
    {
        r.push(s[i]);
        i += 1;
        assert(r@ =~= s@.subrange(lo as int, i as int));
    }
    r
}

/// `str::trim`.
pub fn trim(s: &str) -> (r: String)
    ensures
        r@ == trim_spec(s@),
{
    let v = chars_of(s);
    let t = trim_chars(v.as_slice());
    string_from_chars(t.as_slice())
}

// ───────────────────────── decimal numbers ─────────────────────────

pub open spec fn is_digit(c: char) -> bool {
    '0' <= c && c <= '9'
}

pub open spec fn digit_value(c: char) -> nat {
    (c as nat - '0' as nat) as nat
}

pub open spec fn all_digits(s: Seq<char>) -> bool {
    forall|i: int| 0 <= i < s.len() ==> is_digit(#[trigger] s[i])
}

/// The number that a string of decimal digits denotes.
pub open spec fn digits_value(s: Seq<char>) -> nat
    decreases s.len(),
{
    if s.len() == 0 {
        0
    } else {
        10 * digits_value(s.drop_last()) + digit_value(s.last())
    }
}

/// What `u64::from_str` gives: an optional `+` followed by one or more decimal
/// digits, whose value fits in 64 bits.
pub open spec fn parse_u64_spec(s: Seq<char>) -> Option<u64> {
    let body = unsigned_body(s);
    if body.len() > 0 && all_digits(body) && digits_value(body) <= u64::MAX {
        Some(digits_value(body) as u64)
    } else {
        None
    }
}

/// `s` without one leading `+`.
pub open spec fn unsigned_body(s: Seq<char>) -> Seq<char> {
    if s.len() > 0 && s[0] == '+' {
        s.drop_first()
    } else {
        s
    }
}

/// A string whose body is not all digits, or denotes too large a number, is refused.
proof fn lemma_parse_u64_none(s: Seq<char>)
    requires
        !all_digits(unsigned_body(s)) || digits_value(unsigned_body(s)) > u64::MAX,
    ensures
        parse_u64_spec(s) is None,
{
}

/// A longer string of digits denotes a number at least as large.
pub proof fn lemma_digits_value_prefix(s: Seq<char>, k: int)
    requires
        0 <= k <= s.len(),
        all_digits(s),
    ensures
        digits_value(s.take(k)) <= digits_value(s),
    decreases s.len(),
{
    if k < s.len() {
        assert(s.drop_last().take(k) =~= s.take(k));
        lemma_digits_value_prefix(s.drop_last(), k);
    } else {
        assert(s.take(k) =~= s);
    }
}

/// `u64::from_str` on a character sequence.
pub fn parse_u64_chars(s: &[char]) -> (r: Option<u64>)
    ensures
        r == parse_u64_spec(s@),
{
    let n = s.len();
    let start: usize = if n > 0 && s[0] == '+' {
        1
    } else {
        0
    };
    let ghost body = unsigned_body(s@);
    assert(body =~= s@.skip(start as int));
    if start == n {
        assert(body.len() == 0);
        assert(parse_u64_spec(s@) is None);
        return None;
    }
    let mut value: u64 = 0;
    let mut i: usize = start;
    assert(s@.subrange(start as int, start as int) =~= Seq::<char>::empty());
    while i < n
        invariant
            start <= i <= n,
            n == s@.len(),
            body == s@.skip(start as int),
            body == unsigned_body(s@),
            all_digits(s@.subrange(start as int, i as int)),
            value == digits_value(s@.subrange(start as int, i as int)),
        decreases n - i,
    {
        let c = s[i];
        let ghost pre = s@.subrange(start as int, i as int);
        let ghost next = s@.subrange(start as int, i + 1);
        assert(next.drop_last() =~= pre);
        assert(body[i - start] == c);
        if !('0' <= c && c <= '9') {
            assert(!is_digit(body[i - start]));
            assert(!all_digits(body));
            proof {
                lemma_parse_u64_none(s@);
            }
            return None;
        }
        assert(next.last() == c);
        assert(all_digits(next)) by {
            assert forall|k: int| 0 <= k < next.len() implies is_digit(#[trigger] next[k]) by {
                if k < next.len() - 1 {
                    assert(next[k] == pre[k]);
                }
            }
        }
        let d = (c as u32 - '0' as u32) as u64;
        assert(d == digit_value(c));
        if value > 1844674407370955161 || (value == 1844674407370955161 && d > 5) {
            proof {
                assert(digits_value(next) > u64::MAX);
                if all_digits(body) {
                    assert(body.take(i + 1 - start) =~= next);
                    lemma_digits_value_prefix(body, i + 1 - start);
                    assert(digits_value(body) > u64::MAX);
                }
                lemma_parse_u64_none(s@);
            }
            return None;
        }
        value = value * 10 + d;
        i += 1;
    }
    assert(s@.subrange(start as int, n as int) =~= body);
    Some(value)
}

/// `u64::from_str`.
pub fn parse_u64(s: &str) -> (r: Option<u64>)
    ensures
        r == parse_u64_spec(s@),
{
    let v = chars_of(s);
    parse_u64_chars(v.as_slice())
}

/// The character of a digit value below 16 (lower-case letters above 9).
pub open spec fn digit_char(d: nat) -> char {
    if d < 10 {
        (('0' as nat) + d) as char
    } else {
        (('a' as nat) + d - 10) as char
    }
}

pub fn digit_char_exec(d: u32) -> (c: char)
    requires
        d < 16,
    ensures
        c == digit_char(d as nat),
{
    if d < 10 {
        ((48 + d) as u8) as char
    } else {
        ((97 + d - 10) as u8) as char
    }
}

/// The digits of `n` in base `b`, most significant first, without leading zeros
/// (`0` is written as one digit).
pub open spec fn radix_spec(n: nat, b: nat) -> Seq<char>
    recommends
        2 <= b <= 16,
    decreases n,
{
    if n < b || b < 2 {
        seq![digit_char(n % b)]
    } else {
        proof {
            assert(n / b < n) by (nonlinear_arith)
                requires
                    b >= 2,
                    n >= b,
            ;
        }
        radix_spec(n / b, b).push(digit_char(n % b))
    }
}

/// The decimal form of `n` (what `{}` formatting gives for an unsigned integer).
pub open spec fn decimal_spec(n: nat) -> Seq<char> {
    radix_spec(n, 10)
}

/// The lower-case hexadecimal form of `n` (what `{:x}` formatting gives).
pub open spec fn hex_spec(n: nat) -> Seq<char> {
    radix_spec(n, 16)
}

/// Appends the digits of `n` in base `b`.
fn push_radix(out: &mut String, n: u128, b: u128)
    requires
        2 <= b <= 16,
    ensures
        final(out)@ == old(out)@ + radix_spec(n as nat, b as nat),
    decreases n,
{
    if n >= b {
        assert(n / b < n) by (nonlinear_arith)
            requires
                b >= 2,
                n >= b,
        ;
        push_radix(out, n / b, b);
    }
    let d = (n % b) as u32;
    let c = digit_char_exec(d);
    push_char(out, c);
    proof {
        if n >= b {
            assert(radix_spec(n as nat, b as nat) == radix_spec((n / b) as nat, b as nat).push(
                digit_char((n % b) as nat),
            ));
        }
    }
}

/// Appends the decimal form of `n`.
pub fn push_decimal(out: &mut String, n: u64)
    ensures
        final(out)@ == old(out)@ + decimal_spec(n as nat),
{
    push_radix(out, n as u128, 10);
}

/// Appends the lower-case hexadecimal form of `n`.
pub fn push_hex(out: &mut String, n: u128)
    ensures
        final(out)@ == old(out)@ + hex_spec(n as nat),
{
    push_radix(out, n, 16);
}

// ───────────────────────── replacement ─────────────────────────

/// What `str::replace(pat, with)` gives for a non-empty pattern: each occurrence of
/// `p`, taken from the left without overlap, is replaced by `w`.
pub open spec fn replace_spec(s: Seq<char>, p: Seq<char>, w: Seq<char>) -> Seq<char>
    decreases s.len(),
{
    if s.len() == 0 {
        s
    } else if p.len() > 0 && starts_with(s, p) {
        w + replace_spec(s.skip(p.len() as int), p, w)
    } else {
        seq![s[0]] + replace_spec(s.skip(1), p, w)
    }
}

/// `str::replace` with a non-empty pattern.
pub fn replace_all(s: &[char], p: &[char], w: &[char]) -> (r: Vec<char>)
    requires
        p@.len() > 0,
    ensures
        r@ == replace_spec(s@, p@, w@),
{
    let n = s.len();
    let mut out: Vec<char> = Vec::new();
    let mut i: usize = 0;
    assert(s@.skip(0) =~= s@);
    while i < n
        invariant
            n == s@.len(),
            i <= n,
            p@.len() > 0,
            replace_spec(s@, p@, w@) == out@ + replace_spec(s@.skip(i as int), p@, w@),
        decreases n - i,
    {
        let ghost rest = s@.skip(i as int);
        if matches_at(s, p, i) {
            assert(rest.take(p@.len() as int) =~= s@.subrange(i as int, i + p@.len()));
            assert(rest.skip(p@.len() as int) =~= s@.skip(i + p@.len()));
            let m = w.len();
            let mut j: usize = 0;
            let ghost before = out@;
            while j < m
                invariant
                    m == w@.len(),
                    j <= m,
                    out@ == before + w@.take(j as int),
                decreases m - j,
            {
                out.push(w[j]);
                j += 1;
                assert(out@ =~= before + w@.take(j as int));
            }
            assert(w@.take(m as int) =~= w@);
            assert(out@ + replace_spec(s@.skip(i + p@.len()), p@, w@) =~= before + (w@
                + replace_spec(rest.skip(p@.len() as int), p@, w@)));
            i = i + p.len();
        } else {
            proof {
                if p@.len() <= rest.len() {
                    assert(rest.take(p@.len() as int) =~= s@.subrange(i as int, i + p@.len()));
                }
            }
            assert(rest.skip(1) =~= s@.skip(i + 1));
            let ghost before = out@;
            out.push(s[i]);
            assert(out@ + replace_spec(s@.skip(i + 1), p@, w@) =~= before + (seq![rest[0]]
                + replace_spec(rest.skip(1), p@, w@)));
            i += 1;
        }
    }
    assert(s@.skip(n as int) =~= Seq::<char>::empty());
    assert(out@ + replace_spec(Seq::<char>::empty(), p@, w@) =~= out@);
    out
}

// ───────────────────────── trimming one character ─────────────────────────

/// `s` without its trailing `c` characters (what `str::trim_end_matches(c)` gives).
pub open spec fn trim_end_char_spec(s: Seq<char>, c: char) -> Seq<char>
    decreases s.len(),
{
    if s.len() > 0 && s.last() == c {
        trim_end_char_spec(s.drop_last(), c)
    } else {
        s
    }
}

/// `s` without its leading `c` characters (what `str::trim_start_matches(c)` gives).
pub open spec fn trim_start_char_spec(s: Seq<char>, c: char) -> Seq<char>
    decreases s.len(),
{
    if s.len() > 0 && s[0] == c {
        trim_start_char_spec(s.drop_first(), c)
    } else {
        s
    }
}

/// `str::trim_end_matches` with one character.
pub fn trim_end_char(s: &[char], c: char) -> (r: Vec<char>)
    ensures
        r@ == trim_end_char_spec(s@, c),
{
    let mut n = s.len();
    assert(s@.take(n as int) =~= s@);
    while n > 0 && s[n - 1] == c
        invariant
            n <= s@.len(),
            trim_end_char_spec(s@, c) == trim_end_char_spec(s@.take(n as int), c),
        decreases n,
    {
        assert(s@.take(n as int).drop_last() =~= s@.take(n - 1));
        n -= 1;
    }
    assert(trim_end_char_spec(s@.take(n as int), c) == s@.take(n as int));
    sub_chars(s, 0, n)
}

/// `str::trim_start_matches` with one character.
pub fn trim_start_char(s: &[char], c: char) -> (r: Vec<char>)
    ensures
        r@ == trim_start_char_spec(s@, c),
{
    let n = s.len();
    let mut lo: usize = 0;
    assert(s@.skip(0) =~= s@);
    while lo < n && s[lo] == c
        invariant
            n == s@.len(),
            lo <= n,
            trim_start_char_spec(s@, c) == trim_start_char_spec(s@.skip(lo as int), c),
        decreases n - lo,
    {
        assert(s@.skip(lo as int).drop_first() =~= s@.skip(lo + 1));
        lo += 1;
    }
    assert(trim_start_char_spec(s@.skip(lo as int), c) == s@.skip(lo as int));
    let r = sub_chars(s, lo, n);
    assert(r@ =~= s@.skip(lo as int));
    r
}

/// The decimal form of a signed number (a `-` before the digits of a negative one).
pub open spec fn signed_decimal_spec(n: int) -> Seq<char> {
    if n < 0 {
        seq!['-'] + decimal_spec((-n) as nat)
    } else {
        decimal_spec(n as nat)
    }
}

/// Appends the decimal form of a signed number.
pub fn push_signed_decimal(out: &mut String, n: i64)
    ensures
        final(out)@ == old(out)@ + signed_decimal_spec(n as int),
{
    if n < 0 {
        push_char(out, '-');
        let m: u128 = (0i128 - (n as i128)) as u128;
        push_radix(out, m, 10);
        assert(final(out)@ =~= old(out)@ + signed_decimal_spec(n as int));
    } else {
        push_radix(out, n as u128, 10);
    }
}

/// No piece of a split holds the separator.
pub proof fn lemma_split_pieces_clean(s: Seq<char>, c: char)
    ensures
        forall|i: int| 0 <= i < split_spec(s, c).len() ==> !(#[trigger] split_spec(s, c)[i]).contains(c),
    decreases s.len(),
{
    if s.len() > 0 {
        let rest = split_spec(s.drop_last(), c);
        lemma_split_pieces_clean(s.drop_last(), c);
        lemma_split_nonempty(s.drop_last(), c);
        if s.last() != c {
            let last = rest.last().push(s.last());
            assert(!last.contains(c)) by {
                if last.contains(c) {
                    let k = choose|k: int| 0 <= k < last.len() && last[k] == c;
                    assert(rest[rest.len() - 1][k] == c);
                }
            }
        }
    }
}

/// Splitting around one separator splits each side: the pieces of `x`, then
/// those of `y`.
pub proof fn lemma_split_concat(x: Seq<char>, c: char, y: Seq<char>)
    ensures
        split_spec(x.push(c) + y, c) == split_spec(x, c) + split_spec(y, c),
    decreases y.len(),
{
    let s = x.push(c) + y;
    if y.len() == 0 {
        assert(s =~= x.push(c));
        assert(s.drop_last() =~= x);
        assert(split_spec(y, c) =~= seq![Seq::<char>::empty()]);
        assert(split_spec(s, c) =~= split_spec(x, c) + split_spec(y, c));
    } else {
        let y1 = y.drop_last();
        assert(s.drop_last() =~= x.push(c) + y1);
        lemma_split_concat(x, c, y1);
        lemma_split_nonempty(y1, c);
        lemma_split_nonempty(x, c);
        assert(s.last() == y.last());
        let r = split_spec(x, c) + split_spec(y1, c);
        if y.last() == c {
            assert(split_spec(s, c) =~= split_spec(x, c) + split_spec(y, c));
        } else {
            let t = split_spec(y1, c);
            assert(r.last() == t.last());
            assert(r.update(r.len() - 1, r.last().push(y.last())) =~= split_spec(x, c) + t.update(t.len() - 1, t.last().push(y.last())));
            assert(split_spec(s, c) =~= split_spec(x, c) + split_spec(y, c));
        }
    }
}

/// Joining parts that do not hold the separator, and splitting the result again,
/// gives the parts back.
pub proof fn lemma_split_join(parts: Seq<Seq<char>>, c: char)
    requires
        parts.len() >= 1,
        forall|i: int| 0 <= i < parts.len() ==> !(#[trigger] parts[i]).contains(c),
    ensures
        split_spec(join_with(parts, c), c) == parts,
    decreases parts.len(),
{
    if parts.len() == 1 {
        lemma_split_without_sep(parts[0], c);
        assert(seq![parts[0]] =~= parts);
    } else {
        let d = parts.drop_last();
        assert forall|i: int| 0 <= i < d.len() implies !(#[trigger] d[i]).contains(c) by {
            assert(d[i] == parts[i]);
        }
        lemma_split_join(d, c);
        assert(join_with(d, c) + seq![c] + parts.last() =~= join_with(d, c).push(c) + parts.last());
        lemma_split_concat(join_with(d, c), c, parts.last());
        lemma_split_without_sep(parts.last(), c);
        assert(d + seq![parts.last()] =~= parts);
    }
}

// ───────────────────────── joining ─────────────────────────

/// The parts joined with `sep` between each two (what `join` gives).
pub open spec fn join_with(parts: Seq<Seq<char>>, sep: char) -> Seq<char>
    decreases parts.len(),
{
    if parts.len() == 0 {
        Seq::empty()
    } else if parts.len() == 1 {
        parts[0]
    } else {
        join_with(parts.drop_last(), sep) + seq![sep] + parts.last()
    }
}

/// Joining one more part adds the separator (when there were parts) and the part.
pub proof fn lemma_join_push(parts: Seq<Seq<char>>, p: Seq<char>, sep: char)
    ensures
        join_with(parts.push(p), sep) == if parts.len() == 0 {
            p
        } else {
            join_with(parts, sep) + seq![sep] + p
        },
{
    assert(parts.push(p).drop_last() =~= parts);
    if parts.len() == 0 {
        assert(parts.push(p)[0] == p);
    }
}

/// The position of the last `c` in `s`, or -1.
pub open spec fn last_index_of(s: Seq<char>, c: char) -> int
    decreases s.len(),
{
    if s.len() == 0 {
        -1
    } else if s.last() == c {
        s.len() - 1
    } else {
        last_index_of(s.drop_last(), c)
    }
}

pub proof fn lemma_last_index_bounds(s: Seq<char>, c: char)
    ensures
        -1 <= last_index_of(s, c) < s.len(),
        last_index_of(s, c) >= 0 ==> s[last_index_of(s, c)] == c,
        forall|i: int| last_index_of(s, c) < i < s.len() ==> s[i] != c,
    decreases s.len(),
{
    if s.len() > 0 && s.last() != c {
        lemma_last_index_bounds(s.drop_last(), c);
        assert forall|i: int| last_index_of(s, c) < i < s.len() implies s[i] != c by {
            if i < s.len() - 1 {
                assert(s[i] == s.drop_last()[i]);
            }
        }
    }
}

} // verus!
