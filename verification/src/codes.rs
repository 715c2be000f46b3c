//! Numbers, hashes and tokens written as text, and the clock they are made from.

use rand::RngCore;
use sha2::{Digest, Sha256};
use vstd::prelude::*;
use crate::text::{chars_of, join3, opt_text};

verus! {

/// The lower-case hexadecimal digit of a number below sixteen.
pub open spec fn hex_digit(n: int) -> char {
    if n < 10 {
        (0x30 + n) as char
    } else {
        (0x57 + n) as char
    }
}

/// The lower-case hexadecimal digit of a number below sixteen.
pub fn hex_digit_of(n: u8) -> (r: char)
    requires
        n < 16,
    ensures
        r == hex_digit(n as int),
{
    if n < 10 {
        (0x30 + n) as char
    } else {
        (0x57 + n) as char
    }
}

/// Bytes written as two hexadecimal digits each.
pub open spec fn hex_text(b: Seq<u8>) -> Seq<char> {
    Seq::new(
        2 * b.len(),
        |i: int|
            hex_digit(
                if i % 2 == 0 {
                    b[i / 2] as int / 16
                } else {
                    b[i / 2] as int % 16
                },
            ),
    )
}

/// Writes bytes as two hexadecimal digits each.
pub fn hex_of(b: &[u8]) -> (r: String)
    ensures
        r@ == hex_text(b@),
{
    let mut out: String = String::new();
    let mut i: usize = 0;
    while i < b.len()
        invariant
            i <= b.len(),
            out@ == hex_text(b@.take(i as int)),
        decreases b.len() - i,
    {
        let ghost before = out@;
        out.push(hex_digit_of(b[i] / 16));
        out.push(hex_digit_of(b[i] % 16));
        assert(out@ =~= hex_text(b@.take(i + 1)));
        i = i + 1;
    }
    assert(b@.take(i as int) == b@);
    out
}

/// Different digits stand for different numbers.
proof fn lemma_hex_digit_injective(a: int, b: int)
    requires
        0 <= a < 16,
        0 <= b < 16,
        hex_digit(a) == hex_digit(b),
    ensures
        a == b,
{
}

/// Different bytes have different hexadecimal texts.
pub proof fn law_hex_is_injective(a: Seq<u8>, b: Seq<u8>)
    requires
        hex_text(a) == hex_text(b),
    ensures
        a == b,
{
    assert(hex_text(a).len() == hex_text(b).len());
    assert(hex_text(a).len() == 2 * a.len());
    assert(hex_text(b).len() == 2 * b.len());
    assert forall|k: int| 0 <= k < a.len() implies a[k] == b[k] by {
        assert(hex_text(a)[2 * k] == hex_digit(a[k] as int / 16));
        assert(hex_text(b)[2 * k] == hex_digit(b[k] as int / 16));
        assert(hex_text(a)[2 * k + 1] == hex_digit(a[k] as int % 16));
        assert(hex_text(b)[2 * k + 1] == hex_digit(b[k] as int % 16));
        lemma_hex_digit_injective(a[k] as int / 16, b[k] as int / 16);
        lemma_hex_digit_injective(a[k] as int % 16, b[k] as int % 16);
    }
    assert(a =~= b);
}

/// A number in the given base, without leading zeros.
pub open spec fn numeral(n: nat, base: nat) -> Seq<char>
    decreases n,
{
    if base < 2 || n < base {
        seq![hex_digit(n as int)]
    } else {
        proof {
            assert(n / base < n) by (nonlinear_arith)
                requires
                    n >= base,
                    base >= 2,
            ;
        }
        numeral(n / base, base).push(hex_digit((n % base) as int))
    }
}

/// A number in decimal.
pub open spec fn decimal(n: nat) -> Seq<char> {
    numeral(n, 10)
}

/// Writes a number in the given base.
pub fn numeral_of(n: u128, base: u128) -> (r: String)
    requires
        2 <= base <= 16,
    ensures
        r@ == numeral(n as nat, base as nat),
    decreases n,
{
    if n < base {
        let mut out: String = String::new();
        out.push(hex_digit_of(n as u8));
        assert(out@ =~= numeral(n as nat, base as nat));
        out
    } else {
        assert(n / base < n) by (nonlinear_arith)
            requires
                n >= base,
                base >= 2,
        ;
        assert(0 <= n % base < base) by (nonlinear_arith)
            requires
                base >= 2,
        ;
        let mut out: String = numeral_of(n / base, base);
        out.push(hex_digit_of((n % base) as u8));
        out
    }
}

/// Writes a number in decimal.
pub fn decimal_of(n: usize) -> (r: String)
    ensures
        r@ == decimal(n as nat),
{
    numeral_of(n as u128, 10)
}

/// What the digits of a text amount to, most significant first.
pub open spec fn digits_value(s: Seq<char>) -> nat
    decreases s.len(),
{
    if s.len() == 0 {
        0
    } else {
        digits_value(s.drop_last()) * 10 + (s.last() as nat - 0x30) as nat
    }
}

/// The decimal digits.
pub open spec fn digit(c: char) -> bool {
    '0' <= c <= '9'
}

/// A text without the plus sign at its beginning.
pub open spec fn without_plus(s: Seq<char>) -> Seq<char> {
    if s.len() > 0 && s[0] == '+' {
        s.skip(1)
    } else {
        s
    }
}

/// The number that a text spells in decimal, if it is one of at most `max`: digits, with or
/// without a plus sign before them.
pub open spec fn parsed_number(s: Seq<char>, max: nat) -> Option<nat> {
    let d = without_plus(s);
    if d.len() > 0 && (forall|i: int| 0 <= i < d.len() ==> digit(d[i]))
        && digits_value(d) <= max {
        Some(digits_value(d))
    } else {
        None
    }
}

/// More digits make no smaller number.
proof fn lemma_digits_grow(s: Seq<char>, k: int)
    requires
        0 <= k <= s.len(),
        forall|i: int| 0 <= i < s.len() ==> digit(s[i]),
    ensures
        digits_value(s.take(k)) <= digits_value(s),
    decreases s.len() - k,
{
    if k == s.len() {
        assert(s.take(k) == s);
    } else {
        lemma_digits_grow(s, k + 1);
        assert(s.take(k + 1).drop_last() == s.take(k));
        assert(s.take(k + 1).last() == s[k]);
        assert(digit(s[k]));
    }
}

/// Reads a number in decimal.
pub fn parse_number(s: &str, max: u64) -> (r: Option<u64>)
    ensures
        match r {
            Some(n) => parsed_number(s@, max as nat) == Some(n as nat),
            None => parsed_number(s@, max as nat) is None,
        },
{
    let v = chars_of(s);
    let start: usize = if v.len() > 0 && v[0] == '+' {
        1
    } else {
        0
    };
    let ghost d = without_plus(s@);
    if v.len() == start {
        return None;
    }
    let mut n: u128 = 0;
    let mut i: usize = start;
    while i < v.len()
        invariant
            start <= i <= v.len(),
            start <= 1,
            v@ == s@,
            d.len() == v@.len() - start,
            forall|k: int| 0 <= k < d.len() ==> d[k] == v@[k + start],
            forall|k: int| 0 <= k < i - start ==> digit(d[k]),
            n == digits_value(d.take(i - start)),
            n <= max,
            d == without_plus(s@),
        decreases v.len() - i,
    {
        let c: char = v[i];
        assert(d[i - start] == c);
        if !('0' <= c && c <= '9') {
            assert(!digit(d[i - start]));
            return None;
        }
        assert(d.take(i - start + 1).drop_last() == d.take(i - start));
        n = n * 10 + (c as u32 - 0x30) as u128;
        assert(digit(d[i - start]));
        i = i + 1;
        if n > max as u128 {
            proof {
                if forall|k: int| 0 <= k < d.len() ==> digit(d[k]) {
                    lemma_digits_grow(d, i - start);
                }
            }
            return None;
        }
    }
    assert(d.take(i - start) == d);
    Some(n as u64)
}

/// The SHA-256 hash of these bytes.
pub uninterp spec fn sha256(b: Seq<u8>) -> Seq<u8>;

/// `Sha256` of the `sha2` crate, fed with these bytes: a hash that depends on them alone, of 32
/// bytes.
#[verifier::external_body]
fn sha256_of(b: &[u8]) -> (r: Vec<u8>)
    ensures
        r@ == sha256(b@),
        r@.len() == 32,
{
    let mut h = Sha256::new();
    h.update(b);
    h.finalize().to_vec()
}

/// The SHA-256 hash of these bytes, in hexadecimal.
pub fn sha256_hex(b: &[u8]) -> (r: String)
    ensures
        r@ == hex_text(sha256(b@)),
        r@.len() == 64,
{
    hex_of(sha256_of(b).as_slice())
}

/// `fill_bytes` of the `rand` crate's thread-local generator: 32 bytes, any at all.
#[verifier::external_body]
fn random_bytes() -> (r: [u8; 32])
{
    let mut buf = [0u8; 32];
    rand::thread_rng().fill_bytes(&mut buf);
    buf
}

/// A new session token: 32 random bytes, in hexadecimal.
pub fn new_token() -> (r: String)
    ensures
        exists|b: Seq<u8>| b.len() == 32 && r@ == #[trigger] hex_text(b),
        r@.len() == 64,
{
    let buf = random_bytes();
    let r = hex_of(&buf);
    assert(buf@.len() == 32);
    r
}

/// A moment of the standard library's clock.
#[verifier::external_type_specification]
#[verifier::external_body]
pub struct ExSystemTime(std::time::SystemTime);

/// The standard library's error for a clock that stands before the reference time.
#[verifier::external_type_specification]
#[verifier::external_body]
pub struct ExSystemTimeError(std::time::SystemTimeError);

/// `SystemTime::now` of the standard library: the current time, whatever that is.
pub assume_specification[ std::time::SystemTime::now ]() -> (r: std::time::SystemTime)
;

/// How many nanoseconds a span of time has.
pub uninterp spec fn nanos_in(d: std::time::Duration) -> u128;

/// `Duration::as_nanos` of the standard library: the nanoseconds of a span of time, all of them.
pub assume_specification[ std::time::Duration::as_nanos ](d: &std::time::Duration) -> (r: u128)
    ensures
        r == nanos_in(*d),
;

/// `Duration::as_secs` of the standard library: the whole seconds of a span of time, what is left
/// over dropped.
pub assume_specification[ std::time::Duration::as_secs ](d: &std::time::Duration) -> (r: u64)
    ensures
        r == nanos_in(*d) / 1_000_000_000,
;

/// The span of time from 1970 to a moment; none if the moment lies before that.
pub uninterp spec fn since_1970(t: std::time::SystemTime) -> Option<std::time::Duration>;

/// `SystemTime::duration_since` of the standard library, from 1970 on: the span of time to the
/// moment, which alone determines it; an error if the moment lies before that.
#[verifier::external_body]
fn since_epoch(t: std::time::SystemTime) -> (r: Result<
    std::time::Duration,
    std::time::SystemTimeError,
>)
    ensures
        match r {
            Ok(d) => since_1970(t) == Some(d),
            Err(_) => since_1970(t) is None,
        },
{
    t.duration_since(std::time::UNIX_EPOCH)
}

/// The text of a moment, given in nanoseconds since 1970: ids are made from it.
pub fn uid_at(nanos: u128) -> (r: String)
    ensures
        r@ == numeral(nanos as nat, 16),
{
    numeral_of(nanos, 16)
}

/// The id that is made from a moment: its nanoseconds since 1970, in hexadecimal.
pub open spec fn moment_id(t: std::time::SystemTime) -> Option<Seq<char>> {
    match since_1970(t) {
        Some(d) => Some(numeral(nanos_in(d) as nat, 16)),
        None => None,
    }
}

/// The id that is made from a moment. None if the moment lies before 1970.
pub fn uid_when(t: std::time::SystemTime) -> (r: Option<String>)
    ensures
        opt_text(r) == moment_id(t),
{
    match since_epoch(t) {
        Ok(d) => Some(uid_at(d.as_nanos())),
        Err(_) => None,
    }
}

/// A new id, made from the current time, whatever that is. None if the clock stands before 1970,
/// and only then.
pub fn uid() -> (r: Option<String>)
    ensures
        exists|t: std::time::SystemTime| opt_text(r) == #[trigger] moment_id(t),
{
    uid_when(std::time::SystemTime::now())
}

/// The Unix time of a moment: its whole seconds since 1970.
pub open spec fn moment_secs(t: std::time::SystemTime) -> Option<int> {
    match since_1970(t) {
        Some(d) => Some(nanos_in(d) as int / 1_000_000_000),
        None => None,
    }
}

/// A number of seconds, if there is one.
pub open spec fn opt_secs(o: Option<u64>) -> Option<int> {
    match o {
        Some(n) => Some(n as int),
        None => None,
    }
}

/// The Unix time of a moment in seconds. None if the moment lies before 1970.
pub fn secs_when(t: std::time::SystemTime) -> (r: Option<u64>)
    ensures
        opt_secs(r) == moment_secs(t),
{
    match since_epoch(t) {
        Ok(d) => Some(d.as_secs()),
        Err(_) => None,
    }
}

/// The current Unix time in seconds, whatever that is. None if the clock stands before 1970, and
/// only then.
pub fn now_secs() -> (r: Option<u64>)
    ensures
        exists|t: std::time::SystemTime| opt_secs(r) == #[trigger] moment_secs(t),
{
    secs_when(std::time::SystemTime::now())
}

/// The id of the `i`-th entry of a list that was made at the given moment.
pub open spec fn numbered_id(prefix: Seq<char>, stamp: Seq<char>, i: nat) -> Seq<char> {
    prefix + stamp + "_"@ + decimal(i)
}

/// The id of the `i`-th entry of a list that was made at the given moment.
pub fn numbered(prefix: &str, stamp: &str, i: usize) -> (r: String)
    ensures
        r@ == numbered_id(prefix@, stamp@, i as nat),
{
    let mut out: String = join3(prefix, stamp, "_");
    out.append(decimal_of(i).as_str());
    out
}

/// Different numbers are written differently.
pub proof fn law_numeral_is_injective(a: nat, b: nat, base: nat)
    requires
        2 <= base <= 16,
        numeral(a, base) == numeral(b, base),
    ensures
        a == b,
    decreases a,
{
    lemma_numeral_last(a, base);
    lemma_numeral_last(b, base);
    assert(0 <= a % base < base && 0 <= b % base < base) by (nonlinear_arith)
        requires
            base >= 2,
    ;
    lemma_hex_digit_injective((a % base) as int, (b % base) as int);
    assert(a < base ==> a % base == a && a / base == 0) by (nonlinear_arith)
        requires
            base >= 2,
    ;
    assert(b < base ==> b % base == b && b / base == 0) by (nonlinear_arith)
        requires
            base >= 2,
    ;
    if a >= base && b >= base {
        assert(numeral(a, base).drop_last() =~= numeral(a / base, base));
        assert(numeral(b, base).drop_last() =~= numeral(b / base, base));
        assert(a / base < a) by (nonlinear_arith)
            requires
                a >= base,
                base >= 2,
        ;
        law_numeral_is_injective(a / base, b / base, base);
        assert(a == base * (a / base) + a % base && b == base * (b / base) + b % base)
            by (nonlinear_arith)
            requires
                base >= 2,
        ;
    }
}

/// A numeral has a last digit, and more than one digit from the base on.
proof fn lemma_numeral_last(n: nat, base: nat)
    requires
        2 <= base <= 16,
    ensures
        numeral(n, base).len() >= 1,
        numeral(n, base).len() > 1 <==> n >= base,
        numeral(n, base).last() == hex_digit((n % base) as int),
    decreases n,
{
    if n >= base {
        assert(n / base < n) by (nonlinear_arith)
            requires
                n >= base,
                base >= 2,
        ;
        lemma_numeral_last(n / base, base);
    } else {
        assert(n % base == n) by (nonlinear_arith)
            requires
                n < base,
        ;
    }
}

/// The hexadecimal digits, in lower case.
pub proof fn law_the_hexadecimal_digits()
    ensures
        hex_digit(0) == '0',
        hex_digit(1) == '1',
        hex_digit(2) == '2',
        hex_digit(3) == '3',
        hex_digit(4) == '4',
        hex_digit(5) == '5',
        hex_digit(6) == '6',
        hex_digit(7) == '7',
        hex_digit(8) == '8',
        hex_digit(9) == '9',
        hex_digit(10) == 'a',
        hex_digit(11) == 'b',
        hex_digit(12) == 'c',
        hex_digit(13) == 'd',
        hex_digit(14) == 'e',
        hex_digit(15) == 'f',
{
}

/// Each byte is written as two digits, the higher first, in the order of the bytes.
pub proof fn law_bytes_are_written_one_by_one(a: Seq<u8>, x: u8, b: Seq<u8>)
    ensures
        hex_text(a + b) == hex_text(a) + hex_text(b),
        hex_text(seq![x]) == seq![hex_digit(x as int / 16), hex_digit(x as int % 16)],
{
    assert(hex_text(seq![x]) =~= seq![hex_digit(x as int / 16), hex_digit(x as int % 16)]);
    let (s, t) = (hex_text(a + b), hex_text(a) + hex_text(b));
    assert forall|i: int| 0 <= i < s.len() implies s[i] == #[trigger] t[i] by {
        let n = 2 * a.len();
        if i >= n {
            assert((i - n) / 2 == i / 2 - a.len());
            assert((i - n) % 2 == i % 2);
            assert((a + b)[i / 2] == b[(i - n) / 2]);
        }
    }
    assert(s =~= t);
}

/// A digit behind a number makes it ten times as large and adds the digit.
pub proof fn law_decimals_go_by_ten(n: nat, d: nat)
    requires
        n > 0,
        d < 10,
    ensures
        decimal(10 * n + d) == decimal(n) + seq![hex_digit(d as int)],
        decimal(d) == seq![hex_digit(d as int)],
{
    assert((10 * n + d) / 10 == n && (10 * n + d) % 10 == d);
    assert(decimal(n).push(hex_digit(d as int)) =~= decimal(n) + seq![hex_digit(d as int)]);
}

/// A number that was written in decimal is read back, with a plus sign before it too, unless it is
/// more than is allowed.
pub proof fn law_decimals_are_read_back(n: nat, max: nat)
    ensures
        n <= max ==> parsed_number(decimal(n), max) == Some(n),
        n <= max ==> parsed_number(seq!['+'] + decimal(n), max) == Some(n),
        n > max ==> parsed_number(decimal(n), max) is None,
{
    lemma_decimal_value(n);
    let d = decimal(n);
    assert(digit(d[0]));
    assert((seq!['+'] + d).skip(1) =~= d);
    assert((seq!['+'] + d)[0] == '+');
}

/// The digits of a number amount to it.
proof fn lemma_decimal_value(n: nat)
    ensures
        decimal(n).len() > 0,
        forall|i: int| 0 <= i < decimal(n).len() ==> digit(#[trigger] decimal(n)[i]),
        digits_value(decimal(n)) == n,
    decreases n,
{
    let s = decimal(n);
    if n < 10 {
        assert(s =~= seq![hex_digit(n as int)]);
        assert(s.drop_last() =~= Seq::empty());
        reveal_with_fuel(digits_value, 2);
    } else {
        lemma_decimal_value(n / 10);
        assert(s.drop_last() =~= decimal(n / 10));
        assert forall|i: int| 0 <= i < s.len() implies digit(#[trigger] s[i]) by {
            if i < s.len() - 1 {
                assert(s[i] == decimal(n / 10)[i]);
            }
        }
    }
}

/// What has no digit, or anything but digits behind a plus sign, is no number.
pub proof fn law_what_is_no_number(s: Seq<char>, max: nat, i: int)
    ensures
        parsed_number(Seq::empty(), max) is None,
        0 < i < s.len() && !('0' <= s[i] <= '9') ==> parsed_number(s, max) is None,
        s.len() > 0 && s[0] != '+' && !('0' <= s[0] <= '9') ==> parsed_number(s, max) is None,
        s.len() == 1 && s[0] == '+' ==> parsed_number(s, max) is None,
{
    let d = without_plus(s);
    if 0 < i < s.len() && !('0' <= s[i] <= '9') {
        if s[0] == '+' {
            assert(d[i - 1] == s[i]);
            assert(!digit(d[i - 1]));
        } else {
            assert(!digit(d[i]));
        }
    }
    if s.len() > 0 && s[0] != '+' && !('0' <= s[0] <= '9') {
        assert(!digit(d[0]));
    }
}

/// The time of a moment is its whole seconds, and its id all its nanoseconds.
pub proof fn law_moments(t: std::time::SystemTime, secs: int, rest: int)
    requires
        since_1970(t) matches Some(d) && nanos_in(d) == secs * 1_000_000_000 + rest,
        0 <= rest < 1_000_000_000,
    ensures
        moment_secs(t) == Some(secs),
        moment_id(t) == Some(numeral((secs * 1_000_000_000 + rest) as nat, 16)),
{
}

} // verus!
