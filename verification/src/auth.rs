//! Local authentication: a small string hash and the decisions of the
//! password check endpoints. Reading and writing the stored hash is the
//! caller's business; the functions here compute from plain values.

use vstd::prelude::*;
use vstd::string::StrSliceExecFns;
use vstd::string::StringExecFns;

verus! {

/// One step of the rolling hash: `h * 31 + code`, reduced modulo 2^32
/// (the two's-complement wrap of `(h << 5) - h + code` on a 32-bit value).
pub open spec fn hash_step(h: u32, c: char) -> u32 {
    ((h as int * 31 + c as int) % 0x1_0000_0000) as u32
}

/// The rolling hash of a character sequence, starting from 0.
pub open spec fn hash_chars(s: Seq<char>) -> u32
    decreases s.len(),
{
    if s.len() == 0 {
        0u32
    } else {
        hash_step(hash_chars(s.drop_last()), s.last())
    }
}

/// The lowercase hex digit for a value below 16.
pub open spec fn hex_char(d: int) -> char {
    if d == 0 { '0' }
    else if d == 1 { '1' }
    else if d == 2 { '2' }
    else if d == 3 { '3' }
    else if d == 4 { '4' }
    else if d == 5 { '5' }
    else if d == 6 { '6' }
    else if d == 7 { '7' }
    else if d == 8 { '8' }
    else if d == 9 { '9' }
    else if d == 10 { 'a' }
    else if d == 11 { 'b' }
    else if d == 12 { 'c' }
    else if d == 13 { 'd' }
    else if d == 14 { 'e' }
    else { 'f' }
}

/// Lowercase hex rendering of a value, without leading zeroes (`0` renders
/// as "0").
pub open spec fn hex_digits(n: int) -> Seq<char>
    decreases n,
{
    if n < 16 {
        seq![hex_char(n)]
    } else {
        hex_digits(n / 16).push(hex_char(n % 16))
    }
}

/// The stored form of a password: the rolling hash rendered in lowercase hex.
pub open spec fn spec_simple_hash(s: Seq<char>) -> Seq<char> {
    hex_digits(hash_chars(s) as int)
}

fn hex_digit_str(d: u32) -> (r: &'static str)
    requires
        d < 16,
    ensures
        r@ == seq![hex_char(d as int)],
{
    let r: &'static str = match d {
        0 => "0",
        1 => "1",
        2 => "2",
        3 => "3",
        4 => "4",
        5 => "5",
        6 => "6",
        7 => "7",
        8 => "8",
        9 => "9",
        10 => "a",
        11 => "b",
        12 => "c",
        13 => "d",
        14 => "e",
        _ => "f",
    };
    proof {
        reveal_strlit("0");
        reveal_strlit("1");
        reveal_strlit("2");
        reveal_strlit("3");
        reveal_strlit("4");
        reveal_strlit("5");
        reveal_strlit("6");
        reveal_strlit("7");
        reveal_strlit("8");
        reveal_strlit("9");
        reveal_strlit("a");
        reveal_strlit("b");
        reveal_strlit("c");
        reveal_strlit("d");
        reveal_strlit("e");
        reveal_strlit("f");
        assert(r@ =~= seq![hex_char(d as int)]);
    }
    r
}

fn hex_string(n: u32) -> (r: String)
    ensures
        r@ == hex_digits(n as int),
    decreases n,
{
    if n < 16 {
        let r = hex_digit_str(n).to_owned();
        r
    } else {
        let mut r = hex_string(n / 16);
        r.append(hex_digit_str(n % 16));
        proof {
            assert(r@ =~= hex_digits(n as int));
        }
        r
    }
}

/// The hash used for the locally stored password, matching the classic
/// 31-based rolling string hash rendered as two's-complement hex.
pub fn simple_hash(s: &str) -> (r: String)
    ensures
        r@ == spec_simple_hash(s@),
{
    let len = s.unicode_len();
    let mut h: u32 = 0;
    let mut i: usize = 0;
    while i < len
        invariant
            len == s@.len(),
            i <= len,
            h == hash_chars(s@.take(i as int)),
        decreases len - i,
    {
        let c = s.get_char(i);
        let code: u64 = c as u64;
        let step: u64 = (h as u64) * 31 + code;
        let h2: u32 = (step % 0x1_0000_0000) as u32;
        proof {
            assert(s@.take(i + 1).drop_last() =~= s@.take(i as int));
            assert(s@.take(i + 1).last() == s@[i as int]);
            assert(h2 == hash_step(h, s@[i as int]));
        }
        h = h2;
        i = i + 1;
    }
    proof {
        assert(s@.take(len as int) =~= s@);
    }
    hex_string(h)
}

/// Whether a local password is set, given the stored hash if any.
pub struct AuthCheckResult {
    #[allow(non_snake_case)]
    pub hasPassword: bool,
}

/// Outcome of a password operation: whether it ran, and whether the password
/// matched.
pub struct AuthResult {
    pub success: bool,
    pub valid: bool,
}

/// Decides the password-presence check from the stored hash value.
pub fn auth_check_result(stored_hash: Option<String>) -> (r: AuthCheckResult)
    ensures
        r.hasPassword == (stored_hash is Some),
{
    AuthCheckResult { hasPassword: stored_hash.is_some() }
}

/// Decides a password verification: valid exactly when the stored hash is the
/// hash of the offered password.
pub fn auth_verify_result(stored_hash: &String, password: &str) -> (r: AuthResult)
    ensures
        r.success,
        r.valid == (stored_hash@ == spec_simple_hash(password@)),
{
    let input_hash = simple_hash(password);
    let valid = stored_hash.eq(&input_hash);
    AuthResult { success: true, valid }
}

} // verus!
