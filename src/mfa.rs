//! Time-based one-time passwords (RFC 6238 over RFC 4226 HOTP, HMAC-SHA1, six digits).
use hmac::{Hmac, Mac};
use sha1::Sha1;
use std::time::{SystemTime, UNIX_EPOCH};
use vstd::prelude::*;

verus! {

/// Length of a time window, in seconds.
pub const TIME_STEP_SECS: u64 = 30;

/// Number of distinct codes: codes are reduced modulo this value.
pub const CODE_MODULUS: u32 = 1000000;

/// Clock skew, in seconds, added to the local clock before the window is computed.
pub const DEFAULT_TIME_BIAS_SECS: i64 = 3;

/// Failure of the one-time-password generator.
#[derive(Debug, Clone, Copy, PartialEq, Eq, Structural)]
pub enum TotpError {
    /// The shared secret is not unpadded RFC 4648 base32.
    InvalidSecret,
}

/// The key bytes that unpadded RFC 4648 base32 decoding gives for a text, or `None`.
pub uninterp spec fn base32_decoded(s: Seq<char>) -> Option<Seq<u8>>;

/// The 20-byte HMAC-SHA1 tag of a message under a key.
pub uninterp spec fn hmac_sha1_of(key: Seq<u8>, msg: Seq<u8>) -> Seq<u8>;

/// Relies on `base32::decode` with `Alphabet::Rfc4648 { padding: false }`:
/// the decoded key, or `None` when the text is not in that alphabet.
#[verifier::external_body]
fn decode_base32(secret: &str) -> (r: Option<Vec<u8>>)
    ensures
        match r {
            Some(k) => base32_decoded(secret@) == Some(k@),
            None => base32_decoded(secret@) is None,
        },
{
    base32::decode(base32::Alphabet::Rfc4648 { padding: false }, secret)
}

/// Relies on `hmac::Hmac<sha1::Sha1>`: keyed by `new_from_slice` (which accepts
/// keys of every length), fed the message, finalized into its 20-byte tag.
#[verifier::external_body]
fn hmac_sha1(key: &[u8], msg: &[u8]) -> (r: Vec<u8>)
    ensures
        r@ == hmac_sha1_of(key@, msg@),
        r@.len() == 20,
{
    let mut mac = <Hmac<Sha1> as Mac>::new_from_slice(key).expect("HMAC takes keys of any length");
    mac.update(msg);
    mac.finalize().into_bytes().to_vec()
}

/// Relies on `std::time::SystemTime::now`: whole seconds since the Unix epoch
/// (zero for a clock set before it). Nothing is known of the value.
#[verifier::external_body]
fn unix_time_now() -> (r: u64) {
    match SystemTime::now().duration_since(UNIX_EPOCH) {
        Ok(d) => d.as_secs(),
        Err(_) => 0,
    }
}

/// The big-endian 8-byte encoding of `c`.
pub open spec fn be_bytes(c: u64) -> Seq<u8> {
    seq![
        ((c as int / 0x100000000000000) % 0x100) as u8,
        ((c as int / 0x1000000000000) % 0x100) as u8,
        ((c as int / 0x10000000000) % 0x100) as u8,
        ((c as int / 0x100000000) % 0x100) as u8,
        ((c as int / 0x1000000) % 0x100) as u8,
        ((c as int / 0x10000) % 0x100) as u8,
        ((c as int / 0x100) % 0x100) as u8,
        (c as int % 0x100) as u8,
    ]
}

/// RFC 4226 dynamic truncation of a 20-byte tag: four bytes at the offset named
/// by the low four bits of the last byte, sign bit cleared, reduced to six digits.
pub open spec fn truncated_code(d: Seq<u8>) -> int
    recommends
        d.len() == 20,
{
    let o = d[19] as int % 16;
    ((d[o] as int % 128) * 0x1000000 + d[o + 1] as int * 0x10000 + d[o + 2] as int * 0x100
        + d[o + 3] as int) % (CODE_MODULUS as int)
}

/// The time window of a Unix second shifted by a bias, as the counter that is
/// hashed: `floor((t + bias) / 30)` in 64-bit two's complement.
pub open spec fn totp_counter(unix_secs: u64, bias: i64) -> u64 {
    let step = (unix_secs as int + bias as int) / (TIME_STEP_SECS as int);
    if step >= 0 {
        step as u64
    } else {
        (step + 0x10000000000000000) as u64
    }
}

/// The ASCII digit of a value below ten.
pub open spec fn digit_char(d: int) -> char {
    (d + 48) as char
}

/// The six-character zero-padded decimal text of `n` (for `n` below one million).
pub open spec fn code_text(n: int) -> Seq<char> {
    seq![
        digit_char((n / 100000) % 10),
        digit_char((n / 10000) % 10),
        digit_char((n / 1000) % 10),
        digit_char((n / 100) % 10),
        digit_char((n / 10) % 10),
        digit_char(n % 10),
    ]
}

/// True of an ASCII decimal digit.
pub open spec fn is_ascii_digit(c: char) -> bool {
    '0' <= c && c <= '9'
}

/// The HOTP value of a key at a counter.
pub open spec fn hotp_value(key: Seq<u8>, counter: u64) -> int {
    truncated_code(hmac_sha1_of(key, be_bytes(counter)))
}

/// What the generator gives for a secret at a Unix second and bias.
pub open spec fn totp_result(secret: Seq<char>, unix_secs: u64, bias: i64) -> Result<Seq<char>, TotpError> {
    match base32_decoded(secret) {
        Some(key) => Ok(code_text(hotp_value(key, totp_counter(unix_secs, bias)))),
        None => Err(TotpError::InvalidSecret),
    }
}

/// The big-endian 8-byte encoding of a counter.
pub fn counter_bytes(c: u64) -> (r: Vec<u8>)
    ensures
        r@ == be_bytes(c),
{
    let mut r: Vec<u8> = Vec::new();
    r.push(((c / 0x100000000000000) % 0x100) as u8);
    r.push(((c / 0x1000000000000) % 0x100) as u8);
    r.push(((c / 0x10000000000) % 0x100) as u8);
    r.push(((c / 0x100000000) % 0x100) as u8);
    r.push(((c / 0x1000000) % 0x100) as u8);
    r.push(((c / 0x10000) % 0x100) as u8);
    r.push(((c / 0x100) % 0x100) as u8);
    r.push((c % 0x100) as u8);
    assert(r@ =~= be_bytes(c));
    r
}

/// RFC 4226 dynamic truncation of a 20-byte HMAC-SHA1 tag.
pub fn truncate_digest(d: &[u8]) -> (r: u32)
    requires
        d@.len() == 20,
    ensures
        r as int == truncated_code(d@),
        r < CODE_MODULUS,
{
    let o = (d[19] % 16) as usize;
    let v: u32 = ((d[o] % 128) as u32) * 0x1000000 + (d[o + 1] as u32) * 0x10000 + (d[o + 2] as u32)
        * 0x100 + (d[o + 3] as u32);
    v % CODE_MODULUS
}

/// The ASCII digit of a value below ten, as a one-character text.
fn digit_str(d: u32) -> (r: &'static str)
    requires
        d < 10,
    ensures
        r@ == seq![digit_char(d as int)],
{
    match d {
        0 => {
            proof { reveal_strlit("0"); }
            "0"
        },
        1 => {
            proof { reveal_strlit("1"); }
            "1"
        },
        2 => {
            proof { reveal_strlit("2"); }
            "2"
        },
        3 => {
            proof { reveal_strlit("3"); }
            "3"
        },
        4 => {
            proof { reveal_strlit("4"); }
            "4"
        },
        5 => {
            proof { reveal_strlit("5"); }
            "5"
        },
        6 => {
            proof { reveal_strlit("6"); }
            "6"
        },
        7 => {
            proof { reveal_strlit("7"); }
            "7"
        },
        8 => {
            proof { reveal_strlit("8"); }
            "8"
        },
        _ => {
            proof { reveal_strlit("9"); }
            "9"
        },
    }
}

/// The six-digit zero-padded decimal text of a code.
pub fn format_code(n: u32) -> (r: String)
    requires
        n < CODE_MODULUS,
    ensures
        r@ == code_text(n as int),
{
    let mut r = String::new();
    r.append(digit_str((n / 100000) % 10));
    r.append(digit_str((n / 10000) % 10));
    r.append(digit_str((n / 1000) % 10));
    r.append(digit_str((n / 100) % 10));
    r.append(digit_str((n / 10) % 10));
    r.append(digit_str(n % 10));
    assert(r@ =~= code_text(n as int));
    r
}

/// The counter hashed for a Unix second and bias.
pub fn time_counter(unix_secs: u64, bias: i64) -> (r: u64)
    ensures
        r == totp_counter(unix_secs, bias),
{
    let t: i128 = unix_secs as i128 + bias as i128;
    if t >= 0 {
        let u = t as u128;
        (u / (TIME_STEP_SECS as u128)) as u64
    } else {
        let neg = (-t) as u128;
        let q = (neg + 29) / (TIME_STEP_SECS as u128);
        proof {
            let ti = t as int;
            assert(-(((-ti) + 29) / 30) == ti / 30) by (nonlinear_arith)
                requires
                    ti < 0,
            ;
        }
        (0x10000000000000000u128 - q) as u64
    }
}

/// HOTP value (RFC 4226, six digits) of a base32 secret at a counter.
pub fn get_hotp_token(secret: &str, intervals_no: u64) -> (r: Result<u32, TotpError>)
    ensures
        match base32_decoded(secret@) {
            Some(key) => r == Ok::<u32, TotpError>(hotp_value(key, intervals_no) as u32)
                && hotp_value(key, intervals_no) < CODE_MODULUS,
            None => r == Err::<u32, TotpError>(TotpError::InvalidSecret),
        },
{
    match decode_base32(secret) {
        Some(key) => {
            let msg = counter_bytes(intervals_no);
            let tag = hmac_sha1(key.as_slice(), msg.as_slice());
            Ok(truncate_digest(tag.as_slice()))
        },
        None => Err(TotpError::InvalidSecret),
    }
}

/// The six-digit code of a base32 secret for the Unix second `unix_secs` shifted by `bias`.
pub fn totp_code_at(secret: &str, unix_secs: u64, bias: i64) -> (r: Result<String, TotpError>)
    ensures
        match r {
            Ok(s) => totp_result(secret@, unix_secs, bias) == Ok::<Seq<char>, TotpError>(s@),
            Err(e) => totp_result(secret@, unix_secs, bias) == Err::<Seq<char>, TotpError>(e),
        },
        r matches Ok(s) ==> s@.len() == 6 && forall|i: int| 0 <= i < 6 ==> is_ascii_digit(#[trigger] s@[i]),
{
    let counter = time_counter(unix_secs, bias);
    match get_hotp_token(secret, counter) {
        Ok(v) => {
            let s = format_code(v);
            proof { lemma_code_text_digits(v as int); }
            Ok(s)
        },
        Err(e) => Err(e),
    }
}

/// The HOTP value of a base32 secret for the current time window, with the
/// clock shifted by `bias` seconds.
pub fn get_totp_token(secret: &str, bias: i64) -> (r: Result<u32, TotpError>)
    ensures
        match base32_decoded(secret@) {
            Some(key) => r matches Ok(v) && v < CODE_MODULUS && exists|t: u64|
                v as int == hotp_value(key, #[trigger] totp_counter(t, bias)),
            None => r == Err::<u32, TotpError>(TotpError::InvalidSecret),
        },
{
    let now = unix_time_now();
    get_hotp_token(secret, time_counter(now, bias))
}

/// The current six-digit code of a base32 secret, with the default clock bias.
pub fn get_google_code(secret: &str) -> (r: Result<String, TotpError>)
    ensures
        r is Err <==> base32_decoded(secret@) is None,
        r matches Err(e) ==> e == TotpError::InvalidSecret,
        r matches Ok(s) ==> exists|t: u64|
            totp_result(secret@, t, DEFAULT_TIME_BIAS_SECS) == Ok::<Seq<char>, TotpError>(s@),
        r matches Ok(s) ==> s@.len() == 6 && forall|i: int| 0 <= i < 6 ==> is_ascii_digit(#[trigger] s@[i]),
{
    match get_totp_token(secret, DEFAULT_TIME_BIAS_SECS) {
        Ok(v) => {
            let s = format_code(v);
            proof {
                lemma_code_text_digits(v as int);
                let t = choose|t: u64| v as int == hotp_value(base32_decoded(secret@)->0, #[trigger] totp_counter(t, DEFAULT_TIME_BIAS_SECS));
                assert(totp_result(secret@, t, DEFAULT_TIME_BIAS_SECS) == Ok::<Seq<char>, TotpError>(s@));
            }
            Ok(s)
        },
        Err(e) => Err(e),
    }
}

/// Every code text is six ASCII digits.
pub proof fn lemma_code_text_digits(n: int)
    requires
        0 <= n,
    ensures
        code_text(n).len() == 6,
        forall|i: int| 0 <= i < 6 ==> is_ascii_digit(#[trigger] code_text(n)[i]),
{
    assert forall|i: int| 0 <= i < 6 implies is_ascii_digit(#[trigger] code_text(n)[i]) by {
        let t = code_text(n);
        assert(0 <= (n / 100000) % 10 < 10);
        assert(0 <= (n / 10000) % 10 < 10);
        assert(0 <= (n / 1000) % 10 < 10);
        assert(0 <= (n / 100) % 10 < 10);
        assert(0 <= (n / 10) % 10 < 10);
        assert(0 <= n % 10 < 10);
    }
}

/// The code is a function of the secret, the second and the bias alone: two
/// calls with the same arguments give the same result.
pub proof fn lemma_totp_deterministic(s1: Seq<char>, s2: Seq<char>, t1: u64, t2: u64, bias: i64)
    requires
        s1 == s2,
        t1 == t2,
    ensures
        totp_result(s1, t1, bias) == totp_result(s2, t2, bias),
{
}

/// Every successful result is six ASCII digits, for every secret, second and bias.
pub proof fn lemma_totp_six_digits(secret: Seq<char>, unix_secs: u64, bias: i64)
    ensures
        totp_result(secret, unix_secs, bias) matches Ok(s) ==> s.len() == 6 && forall|i: int|
            0 <= i < 6 ==> is_ascii_digit(#[trigger] s[i]),
{
    if let Some(key) = base32_decoded(secret) {
        let v = hotp_value(key, totp_counter(unix_secs, bias));
        assert(v >= 0);
        lemma_code_text_digits(v);
    }
}

} // verus!
