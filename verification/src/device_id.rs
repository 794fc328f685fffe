//! Device identifiers and their canonical fixed-length hex encoding.
//!
//! A device record's key is exchanged externally as a 24-character hex
//! string.  Identity resolution turns such a string into the internal
//! identifier, rejecting every other string before any store access.

use vstd::prelude::*;
use crate::errors::ApiError;

verus! {

/// Length of the canonical external encoding, in hex digits.
pub const ID_HEX_LEN: usize = 24;

/// `16^n`, the number of values a string of `n` hex digits can denote.
pub open spec fn pow16(n: nat) -> int
    decreases n,
{
    if n == 0 {
        1
    } else {
        16 * pow16((n - 1) as nat)
    }
}

/// The numeric value of one hex digit, or `-1` for any other character.
/// Both lower- and upper-case digits are accepted.
pub open spec fn hex_digit_value(c: char) -> int {
    let v = c as int;
    if 48 <= v <= 57 {
        v - 48
    } else if 97 <= v <= 102 {
        v - 97 + 10
    } else if 65 <= v <= 70 {
        v - 65 + 10
    } else {
        -1
    }
}

pub open spec fn is_hex_digit(c: char) -> bool {
    hex_digit_value(c) >= 0
}

/// The numeric value of a hex string, high digit first.
pub open spec fn hex_value(s: Seq<char>) -> int
    decreases s.len(),
{
    if s.len() == 0 {
        0
    } else {
        hex_value(s.drop_last()) * 16 + hex_digit_value(s.last())
    }
}

/// The strings the store accepts as identifiers: exactly
/// [`ID_HEX_LEN`] hex digits.
pub open spec fn valid_id_string(s: Seq<char>) -> bool {
    s.len() == ID_HEX_LEN && forall|i: int| 0 <= i < s.len() ==> is_hex_digit(#[trigger] s[i])
}

/// The lower-case hex character for a digit value; `'0'` off-range.
pub open spec fn hex_char(d: int) -> char {
    if d == 0 { '0' }
    else if d == 1 { '1' }
    else if d == 2 { '2' }
    else if d == 3 { '3' }
    else if d == 4 { '4' }
    else if d == 5 { '5' }
    else if d == 6 { '6' }
    else if d == 7 { '7' }
    else if d == 8 { '8' }
    else if d == 9 { '9' }
    else if d == 10 { 'a' }
    else if d == 11 { 'b' }
    else if d == 12 { 'c' }
    else if d == 13 { 'd' }
    else if d == 14 { 'e' }
    else if d == 15 { 'f' }
    else { '0' }
}

pub proof fn lemma_hex_char_value(d: int)
    requires
        0 <= d < 16,
    ensures
        hex_digit_value(hex_char(d)) == d,
        is_hex_digit(hex_char(d)),
{
}

/// The internal identifier of a device record.  Its value always fits
/// the 24-digit hex encoding, i.e. lies below `16^24`.
#[derive(Clone, Copy, Debug, PartialEq, Eq, Structural)]
pub struct DeviceId {
    pub value: u128,
}

impl DeviceId {
    /// An identifier is well formed when its value has a 24-digit hex form.
    pub open spec fn wf(self) -> bool {
        self.value < pow16(ID_HEX_LEN as nat)
    }

    /// The canonical external encoding of this identifier, digit by digit.
    pub open spec fn hex_seq(self) -> Seq<char> {
        Seq::new(ID_HEX_LEN as nat, |i: int| hex_char((self.value as int / pow16((ID_HEX_LEN - 1 - i) as nat)) % 16))
    }
}

/// The numeric value of one hex digit character, or `None`.
pub fn hex_digit_of(c: char) -> (r: Option<u8>)
    ensures
        r is Some <==> is_hex_digit(c),
        is_hex_digit(c) ==> r == Some(hex_digit_value(c) as u8) && hex_digit_value(c) < 16,
{
    let v: u32 = c as u32;
    if 48 <= v && v <= 57 {
        Some((v - 48) as u8)
    } else if 97 <= v && v <= 102 {
        Some((v - 97 + 10) as u8)
    } else if 65 <= v && v <= 70 {
        Some((v - 65 + 10) as u8)
    } else {
        None
    }
}

pub proof fn lemma_pow16_bounds()
    ensures
        pow16(ID_HEX_LEN as nat) == 0x1000000000000000000000000,
        pow16((ID_HEX_LEN - 1) as nat) == 0x100000000000000000000000,
{
    reveal_with_fuel(pow16, 25);
    assert(pow16(23) == 0x100000000000000000000000);
    assert(pow16(24) == 0x1000000000000000000000000);
}

/// Each digit of a valid hex string is nonnegative, so the value is too,
/// and it is bounded by `16^len`.
pub proof fn lemma_hex_value_bound(s: Seq<char>)
    requires
        forall|i: int| 0 <= i < s.len() ==> is_hex_digit(#[trigger] s[i]),
    ensures
        0 <= hex_value(s) < pow16(s.len()),
    decreases s.len(),
{
    if s.len() > 0 {
        lemma_hex_value_bound(s.drop_last());
    }
}

/// Resolve an externally supplied identifier string: exactly the valid
/// 24-digit hex strings are accepted, and the result is their numeric
/// value.  Every other string fails with [`ApiError::InvalidIdentifier`].
pub fn parse_device_id(s: &str) -> (r: Result<DeviceId, ApiError>)
    ensures
        valid_id_string(s@) ==> r == Ok::<DeviceId, ApiError>(DeviceId { value: hex_value(s@) as u128 }),
        !valid_id_string(s@) ==> r == Err::<DeviceId, ApiError>(ApiError::InvalidIdentifier),
        r is Ok ==> r->Ok_0.wf(),
{
    let n: usize = s.unicode_len();
    if n != ID_HEX_LEN {
        return Err(ApiError::InvalidIdentifier);
    }
    let mut v: u128 = 0;
    let mut i: usize = 0;
    while i < ID_HEX_LEN
        invariant
            0 <= i <= ID_HEX_LEN,
            s@.len() == ID_HEX_LEN,
            forall|j: int| 0 <= j < i ==> is_hex_digit(#[trigger] s@[j]),
            v == hex_value(s@.subrange(0, i as int)),
            v < pow16(i as nat),
        decreases ID_HEX_LEN - i,
    {
        let c = s.get_char(i);
        match hex_digit_of(c) {
            None => {
                assert(!valid_id_string(s@));
                return Err(ApiError::InvalidIdentifier);
            },
            Some(d) => {
                proof {
                    lemma_pow16_bounds();
                    assert(pow16(i as nat + 1) <= pow16(ID_HEX_LEN as nat)) by {
                        lemma_pow16_monotonic(i as nat + 1, ID_HEX_LEN as nat);
                    }
                    assert(s@.subrange(0, i + 1).drop_last() =~= s@.subrange(0, i as int));
                    assert(s@.subrange(0, i + 1).last() == s@[i as int]);
                }
                v = v * 16 + d as u128;
                i = i + 1;
            },
        }
    }
    proof {
        assert(s@.subrange(0, ID_HEX_LEN as int) =~= s@);
    }
    Ok(DeviceId { value: v })
}

pub proof fn lemma_pow16_monotonic(m: nat, n: nat)
    requires
        m <= n,
    ensures
        pow16(m) <= pow16(n),
        pow16(m) >= 1,
    decreases n,
{
    if n > 0 {
        if m == n {
            lemma_pow16_monotonic((n - 1) as nat, (n - 1) as nat);
        } else {
            lemma_pow16_monotonic(m, (n - 1) as nat);
        }
    }
}

/// One lower-case hex digit character as a string slice.
pub(crate) fn hex_char_str(d: u8) -> (r: &'static str)
    requires
        d < 16,
    ensures
        r@ =~= seq![hex_char(d as int)],
{
    proof {
        reveal_strlit("0");
        reveal_strlit("1");
        reveal_strlit("2");
        reveal_strlit("3");
        reveal_strlit("4");
        reveal_strlit("5");
        reveal_strlit("6");
        reveal_strlit("7");
        reveal_strlit("8");
        reveal_strlit("9");
        reveal_strlit("a");
        reveal_strlit("b");
        reveal_strlit("c");
        reveal_strlit("d");
        reveal_strlit("e");
        reveal_strlit("f");
    }
    match d {
        0 => "0",
        1 => "1",
        2 => "2",
        3 => "3",
        4 => "4",
        5 => "5",
        6 => "6",
        7 => "7",
        8 => "8",
        9 => "9",
        10 => "a",
        11 => "b",
        12 => "c",
        13 => "d",
        14 => "e",
        _ => "f",
    }
}

impl DeviceId {
    /// The canonical external form: exactly 24 lower-case hex digits,
    /// high digit first, and a valid identifier string whose value is
    /// this identifier's own.
    pub fn to_hex(&self) -> (r: String)
        requires
            self.wf(),
        ensures
            r@ == self.hex_seq(),
            valid_id_string(r@),
            hex_value(r@) == self.value,
    {
        let mut out = String::new();
        let v: u128 = self.value;
        let mut div: u128 = 0x100000000000000000000000;
        proof {
            lemma_pow16_bounds();
        }
        let mut i: usize = 0;
        while i < ID_HEX_LEN
            invariant
                0 <= i <= ID_HEX_LEN,
                v == self.value,
                self.wf(),
                i < ID_HEX_LEN ==> div == pow16((ID_HEX_LEN - 1 - i) as nat),
                out@ =~= self.hex_seq().subrange(0, i as int),
            decreases ID_HEX_LEN - i,
        {
            proof {
                lemma_pow16_monotonic(0, (ID_HEX_LEN - 1 - i) as nat);
            }
            let d: u128 = (v / div) % 16;
            out.append(hex_char_str(d as u8));
            proof {
                assert(out@ =~= self.hex_seq().subrange(0, i + 1));
            }
            if i < ID_HEX_LEN - 1 {
                proof {
                    let lower = pow16((ID_HEX_LEN - 2 - i) as nat);
                    lemma_pow16_monotonic(0, (ID_HEX_LEN - 2 - i) as nat);
                    vstd::arithmetic::div_mod::lemma_div_by_multiple(lower, 16);
                    assert(pow16((ID_HEX_LEN - 1 - i) as nat) == 16 * lower);
                    assert((lower * 16) / 16 == lower);
                }
                div = div / 16;
            } else {
                div = 1;
            }
            i = i + 1;
        }
        proof {
            assert(out@ =~= self.hex_seq());
            lemma_hex_seq_valid(*self);
        }
        out
    }
}

/// The canonical hex form of a well-formed identifier is a valid
/// identifier string, and parsing it back yields the same value.
pub proof fn lemma_hex_seq_valid(id: DeviceId)
    requires
        id.wf(),
    ensures
        valid_id_string(id.hex_seq()),
        hex_value(id.hex_seq()) == id.value,
{
    assert forall|i: int| 0 <= i < id.hex_seq().len() implies is_hex_digit(#[trigger] id.hex_seq()[i]) by {
        lemma_hex_char_value((id.value as int / pow16((ID_HEX_LEN - 1 - i) as nat)) % 16);
    }
    lemma_hex_digits_value(id.value as int, ID_HEX_LEN as nat);
    lemma_pow16_bounds();
    assert(id.hex_seq() =~= digit_seq(id.value as int, ID_HEX_LEN as nat));
    vstd::arithmetic::div_mod::lemma_small_mod(id.value as nat, pow16(ID_HEX_LEN as nat) as nat);
}

/// The last `n` hex digits of the value `v`, high digit first.
pub open spec fn digit_seq(v: int, n: nat) -> Seq<char> {
    Seq::new(n, |i: int| hex_char((v / pow16((n - 1 - i) as nat)) % 16))
}

/// Reading the `n` low hex digits of a nonnegative value back as a hex
/// string yields the value modulo `16^n`.
pub proof fn lemma_hex_digits_value(v: int, n: nat)
    requires
        0 <= v,
    ensures
        hex_value(digit_seq(v, n)) == v % pow16(n),
    decreases n,
{
    lemma_pow16_monotonic(0, n);
    if n == 0 {
        assert(digit_seq(v, 0) =~= Seq::<char>::empty());
        assert(v % 1 == 0) by {
            vstd::arithmetic::div_mod::lemma_mod_multiples_basic(v, 1);
            assert(v * 1 == v);
        }
    } else {
        let prev = (n - 1) as nat;
        lemma_hex_digits_value(v / 16, prev);
        lemma_pow16_monotonic(0, prev);
        assert forall|i: int| 0 <= i < prev implies digit_seq(v, n).drop_last()[i] == digit_seq(
            v / 16,
            prev,
        )[i] by {
            lemma_pow16_monotonic(0, (prev - 1 - i) as nat);
            vstd::arithmetic::div_mod::lemma_div_denominator(v, 16, pow16((prev - 1 - i) as nat));
            assert(16 * pow16((prev - 1 - i) as nat) == pow16((n - 1 - i) as nat));
        }
        assert(digit_seq(v, n).drop_last() =~= digit_seq(v / 16, prev));
        assert(digit_seq(v, n).last() == hex_char((v / pow16(0)) % 16));
        lemma_hex_char_value(v % 16);
        assert(hex_digit_value(digit_seq(v, n).last()) == v % 16) by {
            lemma_hex_char_value(v % 16);
        }
        assert(hex_value(digit_seq(v, n)) == ((v / 16) % pow16(prev)) * 16 + v % 16);
        assert(v % (16 * pow16(prev)) == 16 * ((v / 16) % pow16(prev)) + v % 16) by {
            vstd::arithmetic::div_mod::lemma_breakdown(v, 16, pow16(prev));
        }
        assert(16 * pow16(prev) == pow16(n));
    }
}

} // verus!
