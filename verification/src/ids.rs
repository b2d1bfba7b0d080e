//! Record identifiers: 128-bit UUID values with canonical hyphenated
//! rendering, parsing, and version-7 construction.

use vstd::prelude::*;
use vstd::arithmetic::div_mod::{lemma_div_denominator, lemma_fundamental_div_mod};

use crate::strutil::push_char;

verus! {

/// A 128-bit record identifier (a UUID value).
#[derive(Debug, Clone, Copy, PartialEq, Eq, Structural, Hash)]
pub struct Uid {
    pub value: u128,
}

/// `16^k`.
pub open spec fn pow16(k: int) -> int
    decreases k,
{
    if k <= 0 {
        1
    } else {
        16 * pow16(k - 1)
    }
}

/// The lower-case hexadecimal digit for a nibble.
pub open spec fn hex_digit(n: int) -> char {
    if n == 0 { '0' } else if n == 1 { '1' } else if n == 2 { '2' } else if n == 3 { '3' }
    else if n == 4 { '4' } else if n == 5 { '5' } else if n == 6 { '6' } else if n == 7 { '7' }
    else if n == 8 { '8' } else if n == 9 { '9' } else if n == 10 { 'a' } else if n == 11 { 'b' }
    else if n == 12 { 'c' } else if n == 13 { 'd' } else if n == 14 { 'e' } else { 'f' }
}

/// The numeric value of a hexadecimal digit of either case, or -1
/// when `c` is no such digit.
pub open spec fn hex_value(c: char) -> int {
    if c == '0' { 0 } else if c == '1' { 1 } else if c == '2' { 2 } else if c == '3' { 3 }
    else if c == '4' { 4 } else if c == '5' { 5 } else if c == '6' { 6 } else if c == '7' { 7 }
    else if c == '8' { 8 } else if c == '9' { 9 } else if c == 'a' { 10 } else if c == 'b' { 11 }
    else if c == 'c' { 12 } else if c == 'd' { 13 } else if c == 'e' { 14 } else if c == 'f' { 15 }
    else if c == 'A' { 10 } else if c == 'B' { 11 } else if c == 'C' { 12 } else if c == 'D' { 13 }
    else if c == 'E' { 14 } else if c == 'F' { 15 }
    else { -1 }
}

/// The `j`-th of the 32 hexadecimal digits of `v`, most significant
/// first.
pub open spec fn nibble(v: u128, j: int) -> int {
    (v as int / pow16(31 - j)) % 16
}

/// The 32 hexadecimal digits of `v`, most significant first.
pub open spec fn hex32(v: u128) -> Seq<char> {
    Seq::new(32, |j: int| hex_digit(nibble(v, j)))
}

/// Canonical hyphenated rendering: 8-4-4-4-12 hexadecimal digits.
pub open spec fn uuid_chars(v: u128) -> Seq<char> {
    let h = hex32(v);
    h.subrange(0, 8) + seq!['-'] + h.subrange(8, 12) + seq!['-'] + h.subrange(12, 16)
        + seq!['-'] + h.subrange(16, 20) + seq!['-'] + h.subrange(20, 32)
}

/// Positions of the hyphens in the canonical rendering.
pub open spec fn uuid_hyphen_position(i: int) -> bool {
    i == 8 || i == 13 || i == 18 || i == 23
}

/// Maps a position in the 36-character rendering to the index of the
/// hexadecimal digit that stands there (hyphen positions excluded).
pub open spec fn uuid_digit_index(i: int) -> int {
    if i < 8 { i } else if i < 13 { i - 1 } else if i < 18 { i - 2 } else if i < 23 { i - 3 }
    else { i - 4 }
}

/// How many of the first `i` positions of the rendering hold digits.
pub open spec fn digits_before(i: int) -> int {
    if i <= 8 { i } else if i <= 13 { i - 1 } else if i <= 18 { i - 2 } else if i <= 23 { i - 3 }
    else { i - 4 }
}

/// Whether `s` is the canonical hyphenated rendering of some value:
/// 36 characters, hyphens at the fixed positions, lower-case
/// hexadecimal digits elsewhere.
pub open spec fn is_canonical_uuid(s: Seq<char>) -> bool {
    &&& s.len() == 36
    &&& forall|i: int| 0 <= i < 36 && uuid_hyphen_position(i) ==> s[i] == '-'
    &&& forall|i: int| 0 <= i < 36 && !uuid_hyphen_position(i) ==> #[trigger] hex_value(s[i]) >= 0
}

/// The value a canonical rendering denotes: its 32 digits read as a
/// base-16 number, most significant first.
pub open spec fn uuid_value_of(s: Seq<char>) -> int
    recommends
        is_canonical_uuid(s),
{
    uuid_fold(s, 0, 0)
}

/// Folds the hexadecimal digits of `s` from position `i` on into
/// `acc`, skipping hyphen positions.
pub open spec fn uuid_fold(s: Seq<char>, i: int, acc: int) -> int
    decreases 36 - i,
{
    if i < 0 || i >= 36 {
        acc
    } else if uuid_hyphen_position(i) {
        uuid_fold(s, i + 1, acc)
    } else {
        uuid_fold(s, i + 1, acc * 16 + hex_value(s[i]))
    }
}

/// Whether `s` is the simple rendering: 32 hexadecimal digits and no
/// hyphens.
pub open spec fn is_simple_uuid(s: Seq<char>) -> bool {
    &&& s.len() == 32
    &&& forall|i: int| 0 <= i < 32 ==> #[trigger] hex_value(s[i]) >= 0
}

/// Folds the 32 digits of a simple rendering into `acc`.
pub open spec fn simple_fold(s: Seq<char>, i: int, acc: int) -> int
    decreases 32 - i,
{
    if i < 0 || i >= 32 {
        acc
    } else {
        simple_fold(s, i + 1, acc * 16 + hex_value(s[i]))
    }
}

pub open spec fn simple_value_of(s: Seq<char>) -> int
    recommends
        is_simple_uuid(s),
{
    simple_fold(s, 0, 0)
}

/// Whether `s` starts with the URN namespace prefix `urn:uuid:`,
/// letter case ignored.
pub open spec fn is_urn_uuid_prefix(s: Seq<char>) -> bool {
    &&& s.len() >= 9
    &&& (s[0] == 'u' || s[0] == 'U')
    &&& (s[1] == 'r' || s[1] == 'R')
    &&& (s[2] == 'n' || s[2] == 'N')
    &&& s[3] == ':'
    &&& (s[4] == 'u' || s[4] == 'U')
    &&& (s[5] == 'u' || s[5] == 'U')
    &&& (s[6] == 'i' || s[6] == 'I')
    &&& (s[7] == 'd' || s[7] == 'D')
    &&& s[8] == ':'
}

/// The value an identifier's textual form denotes, accepting the
/// simple, hyphenated, braced and URN renderings with hexadecimal
/// digits of either case.
pub open spec fn uuid_text_value(s: Seq<char>) -> Option<int> {
    if is_canonical_uuid(s) {
        Some(uuid_value_of(s))
    } else if is_simple_uuid(s) {
        Some(simple_value_of(s))
    } else if s.len() == 38 && s[0] == '{' && s[37] == '}' && is_canonical_uuid(
        s.subrange(1, 37),
    ) {
        Some(uuid_value_of(s.subrange(1, 37)))
    } else if s.len() == 45 && is_urn_uuid_prefix(s) && is_canonical_uuid(s.subrange(9, 45)) {
        Some(uuid_value_of(s.subrange(9, 45)))
    } else {
        None
    }
}

/// A hexadecimal digit always folds back to its value.
proof fn lemma_hex_digit_value(n: int)
    requires
        0 <= n < 16,
    ensures
        hex_value(hex_digit(n)) == n,
{
}

/// `pow16` is positive.
proof fn lemma_pow16_pos(k: int)
    ensures
        pow16(k) >= 1,
    decreases k,
{
    if k > 0 {
        lemma_pow16_pos(k - 1);
    }
}

/// `16^32` is the number of 128-bit values.
proof fn lemma_pow16_32()
    ensures
        pow16(32) == 0x1_0000_0000_0000_0000_0000_0000_0000_0000,
{
    assert(pow16(32) == 0x1_0000_0000_0000_0000_0000_0000_0000_0000) by {
        reveal_with_fuel(pow16, 33);
    }
}

/// Character at each position of the canonical rendering.
proof fn lemma_uuid_chars_index(v: u128, i: int)
    requires
        0 <= i < 36,
    ensures
        uuid_chars(v).len() == 36,
        uuid_hyphen_position(i) ==> uuid_chars(v)[i] == '-',
        !uuid_hyphen_position(i) ==> uuid_chars(v)[i] == hex_digit(nibble(v, uuid_digit_index(i))),
{
}

/// Folding the rendering of `v` from position `i` with the value of
/// the digits already seen yields `v` itself.
proof fn lemma_uuid_fold_chars(v: u128, i: int)
    requires
        0 <= i <= 36,
    ensures
        uuid_fold(uuid_chars(v), i, v as int / pow16(32 - digits_before(i))) == v as int,
    decreases 36 - i,
{
    let s = uuid_chars(v);
    let d = digits_before(i);
    let acc = v as int / pow16(32 - d);
    if i == 36 {
        assert(pow16(0) == 1);
    } else if uuid_hyphen_position(i) {
        lemma_uuid_fold_chars(v, i + 1);
    } else {
        let j = uuid_digit_index(i);
        lemma_uuid_chars_index(v, i);
        lemma_hex_digit_value(nibble(v, j));
        assert(j == d);
        let y = v as int / pow16(31 - j);
        lemma_pow16_pos(31 - j);
        lemma_div_denominator(v as int, pow16(31 - j), 16);
        assert(pow16(32 - j) == 16 * pow16(31 - j));
        assert(acc == y / 16);
        lemma_fundamental_div_mod(y, 16);
        assert(acc * 16 + nibble(v, j) == y);
        assert(digits_before(i + 1) == d + 1);
        lemma_uuid_fold_chars(v, i + 1);
    }
}

/// The canonical rendering is canonical and denotes its own value:
/// rendering is injective and parsing inverts it.
pub proof fn lemma_uuid_round_trip(v: u128)
    ensures
        is_canonical_uuid(uuid_chars(v)),
        uuid_value_of(uuid_chars(v)) == v as int,
{
    let s = uuid_chars(v);
    assert forall|i: int| 0 <= i < 36 && !uuid_hyphen_position(i) implies #[trigger] hex_value(
        s[i],
    ) >= 0 by {
        lemma_uuid_chars_index(v, i);
        lemma_hex_digit_value(nibble(v, uuid_digit_index(i)));
    }
    assert forall|i: int| 0 <= i < 36 && uuid_hyphen_position(i) implies s[i] == '-' by {
        lemma_uuid_chars_index(v, i);
    }
    lemma_pow16_32();
    lemma_uuid_fold_chars(v, 0);
    assert(v as int / pow16(32) == 0) by {
        lemma_pow16_32();
    }
}

/// Two values with the same rendering are the same value.
pub proof fn lemma_uuid_chars_injective(a: u128, b: u128)
    requires
        uuid_chars(a) == uuid_chars(b),
    ensures
        a == b,
{
    lemma_uuid_round_trip(a);
    lemma_uuid_round_trip(b);
}

/// The lower-case hexadecimal digit character for a nibble.
fn hex_char_of(n: u8) -> (c: char)
    requires
        n < 16,
    ensures
        c == hex_digit(n as int),
{
    match n {
        0 => '0',
        1 => '1',
        2 => '2',
        3 => '3',
        4 => '4',
        5 => '5',
        6 => '6',
        7 => '7',
        8 => '8',
        9 => '9',
        10 => 'a',
        11 => 'b',
        12 => 'c',
        13 => 'd',
        14 => 'e',
        _ => 'f',
    }
}

/// The numeric value of a hexadecimal digit character of either case.
fn hex_value_of(c: char) -> (r: Option<u8>)
    ensures
        match r {
            Some(n) => n < 16 && hex_value(c) == n as int,
            None => hex_value(c) < 0,
        },
{
    match c {
        '0' => Some(0),
        '1' => Some(1),
        '2' => Some(2),
        '3' => Some(3),
        '4' => Some(4),
        '5' => Some(5),
        '6' => Some(6),
        '7' => Some(7),
        '8' => Some(8),
        '9' => Some(9),
        'a' => Some(10),
        'b' => Some(11),
        'c' => Some(12),
        'd' => Some(13),
        'e' => Some(14),
        'f' => Some(15),
        'A' => Some(10),
        'B' => Some(11),
        'C' => Some(12),
        'D' => Some(13),
        'E' => Some(14),
        'F' => Some(15),
        _ => None,
    }
}

impl Uid {
    /// Canonical hyphenated rendering of the identifier.
    pub fn render(&self) -> (r: String)
        ensures
            r@ == uuid_chars(self.value),
    {
        let v = self.value;
        // Digits least significant first.
        let mut digits: Vec<u8> = Vec::new();
        let mut cur: u128 = v;
        for k in 0..32usize
            invariant
                digits.len() == k,
                cur as int == v as int / pow16(k as int),
                forall|m: int| 0 <= m < k ==> digits[m] as int == nibble(v, 31 - m),
        {
            proof {
                lemma_pow16_pos(k as int);
                lemma_div_denominator(v as int, pow16(k as int), 16);
                assert(pow16(k as int + 1) == 16 * pow16(k as int));
            }
            digits.push((cur % 16) as u8);
            cur = cur / 16;
        }
        let mut r = String::new();
        for i in 0..36usize
            invariant
                digits.len() == 32,
                forall|m: int| 0 <= m < 32 ==> digits[m] as int == nibble(v, 31 - m),
                r@ =~= uuid_chars(v).subrange(0, i as int),
        {
            proof {
                lemma_uuid_chars_index(v, i as int);
            }
            if i == 8 || i == 13 || i == 18 || i == 23 {
                push_char(&mut r, '-');
            } else {
                let j = if i < 8 { i } else if i < 13 { i - 1 } else if i < 18 { i - 2 }
                    else if i < 23 { i - 3 } else { i - 4 };
                let d = digits[31 - j];
                proof {
                    assert(0 <= nibble(v, j as int) < 16);
                }
                push_char(&mut r, hex_char_of(d));
            }
            proof {
                assert(r@ =~= uuid_chars(v).subrange(0, i as int + 1));
            }
        }
        proof {
            assert(r@ =~= uuid_chars(v));
        }
        r
    }

    /// Parses the textual renderings of an identifier: simple,
    /// hyphenated, braced and URN forms, with hexadecimal digits of
    /// either case — exactly the forms [`uuid_text_value`] gives a
    /// value to.
    pub fn parse(s: &str) -> (r: Option<Uid>)
        ensures
            match r {
                Some(u) => uuid_text_value(s@) == Some(u.value as int),
                None => uuid_text_value(s@) is None,
            },
    {
        let n = s.unicode_len();
        if n == 36 {
            proof {
                assert(s@.subrange(0, 36) =~= s@);
            }
            match parse_hyphenated_at(s, 0) {
                Some(v) => Some(Uid { value: v }),
                None => None,
            }
        } else if n == 32 {
            match parse_simple32(s) {
                Some(v) => Some(Uid { value: v }),
                None => None,
            }
        } else if n == 38 {
            if s.get_char(0) != '{' || s.get_char(37) != '}' {
                return None;
            }
            match parse_hyphenated_at(s, 1) {
                Some(v) => Some(Uid { value: v }),
                None => None,
            }
        } else if n == 45 {
            let c0 = s.get_char(0);
            let c1 = s.get_char(1);
            let c2 = s.get_char(2);
            let c4 = s.get_char(4);
            let c5 = s.get_char(5);
            let c6 = s.get_char(6);
            let c7 = s.get_char(7);
            if !((c0 == 'u' || c0 == 'U') && (c1 == 'r' || c1 == 'R') && (c2 == 'n' || c2 == 'N')
                && s.get_char(3) == ':' && (c4 == 'u' || c4 == 'U') && (c5 == 'u' || c5 == 'U')
                && (c6 == 'i' || c6 == 'I') && (c7 == 'd' || c7 == 'D') && s.get_char(8) == ':') {
                return None;
            }
            match parse_hyphenated_at(s, 9) {
                Some(v) => Some(Uid { value: v }),
                None => None,
            }
        } else {
            None
        }
    }
}

/// Parses 36 characters of the hyphenated rendering starting at `off`.
fn parse_hyphenated_at(s: &str, off: usize) -> (r: Option<u128>)
    requires
        off + 36 <= s@.len(),
        off <= usize::MAX - 36,
    ensures
        ({
            let sub = s@.subrange(off as int, off as int + 36);
            match r {
                Some(v) => is_canonical_uuid(sub) && v as int == uuid_value_of(sub),
                None => !is_canonical_uuid(sub),
            }
        }),
{
    let ghost sub = s@.subrange(off as int, off as int + 36);
    let mut acc: u128 = 0;
    let mut i: usize = 0;
    proof {
        lemma_pow16_32();
    }
    while i < 36
        invariant
            off + 36 <= s@.len(),
            off <= usize::MAX - 36,
            sub == s@.subrange(off as int, off as int + 36),
            0 <= i <= 36,
            (acc as int) < pow16(digits_before(i as int)),
            uuid_fold(sub, 0, 0) == uuid_fold(sub, i as int, acc as int),
            pow16(32) == 0x1_0000_0000_0000_0000_0000_0000_0000_0000,
            forall|m: int| 0 <= m < i && uuid_hyphen_position(m) ==> sub[m] == '-',
            forall|m: int| 0 <= m < i && !uuid_hyphen_position(m) ==> #[trigger] hex_value(sub[m])
                >= 0,
        decreases 36 - i,
    {
        let c = s.get_char(off + i);
        proof {
            assert(sub[i as int] == s@[off + i]);
        }
        if i == 8 || i == 13 || i == 18 || i == 23 {
            if c != '-' {
                return None;
            }
        } else {
            match hex_value_of(c) {
                Some(hv) => {
                    proof {
                        lemma_pow16_pos(digits_before(i as int));
                        assert(digits_before(i as int) <= 31);
                        assert(pow16(digits_before(i as int) + 1) == 16 * pow16(
                            digits_before(i as int),
                        ));
                        lemma_pow16_monotone(digits_before(i as int) + 1, 32);
                    }
                    acc = acc * 16 + (hv as u128);
                },
                None => {
                    return None;
                },
            }
        }
        i = i + 1;
    }
    Some(acc)
}

/// Parses the 32 digits of the simple rendering.
fn parse_simple32(s: &str) -> (r: Option<u128>)
    requires
        s@.len() == 32,
    ensures
        match r {
            Some(v) => is_simple_uuid(s@) && v as int == simple_value_of(s@),
            None => !is_simple_uuid(s@),
        },
{
    let mut acc: u128 = 0;
    let mut i: usize = 0;
    proof {
        lemma_pow16_32();
    }
    while i < 32
        invariant
            s@.len() == 32,
            0 <= i <= 32,
            (acc as int) < pow16(i as int),
            simple_fold(s@, 0, 0) == simple_fold(s@, i as int, acc as int),
            pow16(32) == 0x1_0000_0000_0000_0000_0000_0000_0000_0000,
            forall|m: int| 0 <= m < i ==> #[trigger] hex_value(s@[m]) >= 0,
        decreases 32 - i,
    {
        let c = s.get_char(i);
        match hex_value_of(c) {
            Some(hv) => {
                proof {
                    lemma_pow16_pos(i as int);
                    assert(pow16(i as int + 1) == 16 * pow16(i as int));
                    lemma_pow16_monotone(i as int + 1, 32);
                }
                acc = acc * 16 + (hv as u128);
            },
            None => {
                return None;
            },
        }
        i = i + 1;
    }
    Some(acc)
}

/// `pow16` is monotone./// `pow16` is monotone.
proof fn lemma_pow16_monotone(a: int, b: int)
    requires
        a <= b,
    ensures
        pow16(a) <= pow16(b),
    decreases b - a,
{
    if a < b {
        lemma_pow16_monotone(a, b - 1);
        lemma_pow16_pos(b - 1);
    }
}

} // verus!
