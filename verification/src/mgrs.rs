use crate::letters::{
    col_index, col_letter, digit_char, digit_val, row_index, row_letter, spec_col_index,
    spec_col_letter, spec_digit_char, spec_digit_val, spec_row_index, spec_row_letter,
};
use crate::utm::Utm;
use vstd::arithmetic::div_mod::lemma_fundamental_div_mod;
use vstd::prelude::*;
use vstd::string::StrSliceExecFns;

verus! {

/// Micrometers in one meter.
pub const METER_UM: u64 = 1_000_000;

/// Micrometers in one 100 km grid tile.
pub const TILE_UM: u64 = 100_000_000_000;

/// Meters in one 100 km grid tile.
pub const TILE_M: u64 = 100_000;

/// Northing period of the row letters, in meters: the 20 row letters
/// repeat every 2,000 km.
pub const ROW_PERIOD_M: u64 = 2_000_000;

/// Largest digit precision: 11 digits resolve a tile down to micrometers.
pub const MAX_PREC: usize = 11;

/// Why an MGRS string failed to decode.
#[derive(Debug, Clone, Copy, PartialEq, Eq)]
pub enum FromStringError {
    /// Fewer than the five leading characters: two zone digits, the band
    /// letter and the two grid-square letters.
    NotEnoughInput,
    /// One of the two leading zone characters is not a decimal digit.
    InvalidZoneDigit(char),
    /// Easting digits empty, longer than 11 per half, unevenly split, or
    /// not decimal.
    EastingParseError,
    /// Northing digits not decimal.
    NorthingParseError,
    /// A band letter that has no minimum-northing entry.
    InvalidZoneLetter(char),
    /// A grid-square letter not reachable in the column or row alphabet.
    InvalidGridLetter(char),
}

/// An MGRS grid reference: a UTM position together with the digit
/// precision its text form carries (`2 * prec` digits).
#[derive(Debug, Clone, Copy, PartialEq, Eq)]
pub struct Mgrs {
    /// The underlying UTM position.
    pub utm: Utm,
    /// Digits kept per axis, `0..=11`.
    pub prec: usize,
}

impl Mgrs {
    /// Wrap a UTM position at the customary 1-meter precision.
    pub fn new(utm: Utm) -> (r: Mgrs)
        ensures
            r.utm == utm,
            r.prec == 5,
    {
        Mgrs { utm, prec: 5 }
    }
}

/// Ten to the `e`.
pub open spec fn spec_pow10(e: nat) -> nat
    decreases e,
{
    if e == 0 {
        1
    } else {
        10 * spec_pow10((e - 1) as nat)
    }
}

/// Powers of ten do not shrink as the exponent grows.
pub proof fn lemma_pow10_increases(a: nat, b: nat)
    requires
        a <= b,
    ensures
        spec_pow10(a) <= spec_pow10(b),
    decreases b,
{
    if a < b {
        lemma_pow10_increases(a, (b - 1) as nat);
        assert(spec_pow10(b) == 10 * spec_pow10((b - 1) as nat));
    }
}

/// Powers of ten multiply by adding exponents.
pub proof fn lemma_pow10_adds(a: nat, b: nat)
    ensures
        spec_pow10(a) * spec_pow10(b) == spec_pow10(a + b),
    decreases a,
{
    if a == 0 {
        assert(spec_pow10(0) == 1);
    } else {
        lemma_pow10_adds((a - 1) as nat, b);
        assert(spec_pow10(a) * spec_pow10(b) == (10 * spec_pow10((a - 1) as nat)) * spec_pow10(b));
        assert((10 * spec_pow10((a - 1) as nat)) * spec_pow10(b) == 10 * (spec_pow10(
            (a - 1) as nat,
        ) * spec_pow10(b))) by (nonlinear_arith);
    }
}

/// Ten to the `e`, for exponents up to 12.
pub fn pow10(e: usize) -> (r: u64)
    requires
        e <= 12,
    ensures
        r == spec_pow10(e as nat),
        r >= 1,
{
    proof {
        reveal_with_fuel(spec_pow10, 14);
    }
    if e == 0 {
        1
    } else if e == 1 {
        10
    } else if e == 2 {
        100
    } else if e == 3 {
        1_000
    } else if e == 4 {
        10_000
    } else if e == 5 {
        100_000
    } else if e == 6 {
        1_000_000
    } else if e == 7 {
        10_000_000
    } else if e == 8 {
        100_000_000
    } else if e == 9 {
        1_000_000_000
    } else if e == 10 {
        10_000_000_000
    } else if e == 11 {
        100_000_000_000
    } else {
        1_000_000_000_000
    }
}

/// The low `p` decimal digits of `n`, most significant first.
pub open spec fn spec_digits_of(n: int, p: nat) -> Seq<char>
    decreases p,
{
    if p == 0 {
        Seq::empty()
    } else {
        spec_digits_of(n / 10, (p - 1) as nat).push(spec_digit_char(n % 10))
    }
}

/// Every character of `s` is a decimal digit.
pub open spec fn spec_all_digits(s: Seq<char>) -> bool {
    forall|i: int| 0 <= i < s.len() ==> spec_digit_val(#[trigger] s[i]) >= 0
}

/// The number written by a digit string, reading left to right.
pub open spec fn spec_digits_val(s: Seq<char>) -> int
    decreases s.len(),
{
    if s.len() == 0 {
        0
    } else {
        spec_digits_val(s.drop_last()) * 10 + spec_digit_val(s.last())
    }
}

/// A digit string of length `p` always comes out of `spec_digits_of`.
pub proof fn lemma_digits_of_len(n: int, p: nat)
    ensures
        spec_digits_of(n, p).len() == p,
    decreases p,
{
    if p > 0 {
        lemma_digits_of_len(n / 10, (p - 1) as nat);
    }
}

/// `spec_digits_of` writes only decimal digits when `n` is non-negative.
pub proof fn lemma_digits_of_all_digits(n: int, p: nat)
    requires
        n >= 0,
    ensures
        spec_all_digits(spec_digits_of(n, p)),
    decreases p,
{
    if p > 0 {
        lemma_digits_of_all_digits(n / 10, (p - 1) as nat);
        crate::letters::lemma_digit_char_val(n % 10);
        let s = spec_digits_of(n, p);
        let t = spec_digits_of(n / 10, (p - 1) as nat);
        assert forall|i: int| 0 <= i < s.len() implies spec_digit_val(#[trigger] s[i]) >= 0 by {
            lemma_digits_of_len(n / 10, (p - 1) as nat);
            if i < s.len() - 1 {
                assert(s[i] == t[i]);
            } else {
                assert(s[i] == spec_digit_char(n % 10));
            }
        }
    }
}

/// Reading back the digit string of `n < 10^p` returns `n` itself.
pub proof fn lemma_digits_roundtrip(n: int, p: nat)
    requires
        0 <= n < spec_pow10(p),
    ensures
        spec_digits_val(spec_digits_of(n, p)) == n,
    decreases p,
{
    if p == 0 {
        assert(spec_pow10(0) == 1);
    } else {
        let t = spec_digits_of(n / 10, (p - 1) as nat);
        let s = spec_digits_of(n, p);
        assert(n / 10 < spec_pow10((p - 1) as nat)) by (nonlinear_arith)
            requires
                0 <= n,
                n < spec_pow10(p),
                spec_pow10(p) == 10 * spec_pow10((p - 1) as nat),
        ;
        lemma_digits_roundtrip(n / 10, (p - 1) as nat);
        crate::letters::lemma_digit_char_val(n % 10);
        assert(s.drop_last() == t);
        assert(s.last() == spec_digit_char(n % 10));
        lemma_fundamental_div_mod(n, 10);
    }
}

/// A digit string of length `p` reads back as a value below `10^p`.
pub proof fn lemma_digits_val_bound(s: Seq<char>)
    requires
        spec_all_digits(s),
    ensures
        0 <= spec_digits_val(s) < spec_pow10(s.len()),
    decreases s.len(),
{
    if s.len() == 0 {
        assert(spec_pow10(0) == 1);
    } else {
        let t = s.drop_last();
        assert(spec_all_digits(t)) by {
            assert forall|i: int| 0 <= i < t.len() implies spec_digit_val(#[trigger] t[i]) >= 0 by {
                assert(t[i] == s[i]);
            }
        }
        lemma_digits_val_bound(t);
        assert(spec_digit_val(s.last()) >= 0);
        assert(spec_digit_val(s.last()) <= 9);
        assert(spec_pow10(s.len()) == 10 * spec_pow10(t.len()));
        assert(spec_digits_val(t) * 10 + spec_digit_val(s.last()) < spec_pow10(s.len()))
            by (nonlinear_arith)
            requires
                0 <= spec_digits_val(t) < spec_pow10(t.len()),
                spec_digit_val(s.last()) <= 9,
                spec_pow10(s.len()) == 10 * spec_pow10(t.len()),
        ;
    }
}

/// Relies on `String::push`: appends exactly the one character.
#[verifier::external_body]
fn push_char(s: &mut String, c: char)
    ensures
        final(s)@ == old(s)@.push(c),
{
    s.push(c);
}

/// Append the `p`-digit decimal form of `n` (its low `p` digits, zero
/// padded) to `s`.
fn push_digits(s: &mut String, n: u64, p: usize)
    ensures
        final(s)@ == old(s)@ + spec_digits_of(n as int, p as nat),
    decreases p,
{
    if p > 0 {
        push_digits(s, n / 10, p - 1);
        let c: char = digit_char(n % 10);
        push_char(s, c);
        proof {
            assert((old(s)@ + spec_digits_of(n as int / 10, (p - 1) as nat)).push(
                spec_digit_char(n as int % 10),
            ) =~= old(s)@ + spec_digits_of(n as int / 10, (p - 1) as nat).push(
                spec_digit_char(n as int % 10),
            ));
        }
    } else {
        proof {
            assert(old(s)@ + spec_digits_of(n as int, 0) =~= old(s)@);
        }
    }
}


/// Which of the six 100 km letter-origin sets a zone uses.
pub open spec fn spec_set_for_zone(zone: int) -> int {
    if zone % 6 == 0 {
        6
    } else {
        zone % 6
    }
}

/// Column-alphabet position of a set's origin letter (`A`, `J` or `S`).
pub open spec fn spec_col_origin(set: int) -> int {
    if set == 1 || set == 4 {
        0
    } else if set == 2 || set == 5 {
        8
    } else {
        16
    }
}

/// Row-alphabet position of a set's origin letter (`A` or `F`).
pub open spec fn spec_row_origin(set: int) -> int {
    if set % 2 == 1 {
        0
    } else {
        5
    }
}

/// Easting, in meters, that a column letter contributes: 100 km for the
/// origin letter and 100 km more for each step past it, wrapping once.
pub open spec fn spec_easting_100k(c: char, set: int) -> int {
    100_000 * (1 + (spec_col_index(c) - spec_col_origin(set)) % 24)
}

/// Northing, in meters, that a row letter contributes before the rollover:
/// 100 km for each step past the origin letter, wrapping once.
pub open spec fn spec_northing_100k(c: char, set: int) -> int {
    100_000 * ((spec_row_index(c) - spec_row_origin(set)) % 20)
}

/// Lowest northing, in meters, that a latitude band reaches; -1 for a
/// character that is no band letter.
pub open spec fn spec_min_northing(band: char) -> int {
    if band == 'C' {
        1_100_000
    } else if band == 'D' {
        2_000_000
    } else if band == 'E' {
        2_800_000
    } else if band == 'F' {
        3_700_000
    } else if band == 'G' {
        4_600_000
    } else if band == 'H' {
        5_500_000
    } else if band == 'J' {
        6_400_000
    } else if band == 'K' {
        7_300_000
    } else if band == 'L' {
        8_200_000
    } else if band == 'M' {
        9_100_000
    } else if band == 'N' {
        0
    } else if band == 'P' {
        800_000
    } else if band == 'Q' {
        1_700_000
    } else if band == 'R' {
        2_600_000
    } else if band == 'S' {
        3_500_000
    } else if band == 'T' {
        4_400_000
    } else if band == 'U' {
        5_300_000
    } else if band == 'V' {
        6_200_000
    } else if band == 'W' {
        7_000_000
    } else if band == 'X' {
        7_900_000
    } else {
        -1
    }
}

/// The character is one of the twenty band letters.
pub open spec fn spec_is_band(c: char) -> bool {
    spec_min_northing(c) >= 0
}

/// Bands `N` and above lie in the northern hemisphere.
pub open spec fn spec_is_north_band(c: char) -> bool {
    c as int >= 'N' as int
}

/// The 100 km-offset northing lifted by whole row periods until it clears
/// the band's minimum northing.
pub open spec fn spec_roll_north(n: int, minn: int) -> int
    decreases (minn - n + 1_999_999) / 2_000_000,
{
    if n >= minn {
        n
    } else {
        spec_roll_north(n + 2_000_000, minn)
    }
}

/// The letter-origin set of a zone number: `1..=6`, cycling every six
/// zones with zone multiples of six mapped to set 6.
pub fn get_100k_set_for_zone(i: i32) -> (r: i32)
    requires
        0 <= i,
    ensures
        r == spec_set_for_zone(i as int),
        1 <= r <= 6,
{
    let set_param: i32 = (((i as u32) % 6) as i32);
    if set_param == 0 {
        6
    } else {
        set_param
    }
}

/// Easting contribution, in meters, of the first 100 km grid-square
/// letter, counted from the set's origin column letter; a character
/// outside the column alphabet is rejected rather than wrapped forever.
pub fn get_easting_from_char(c: char, set: i32) -> (r: Result<u64, FromStringError>)
    requires
        1 <= set <= 6,
    ensures
        spec_col_index(c) >= 0 ==> (r matches Ok(v) && v == spec_easting_100k(c, set as int)),
        spec_col_index(c) < 0 ==> r == Err::<u64, FromStringError>(
            FromStringError::InvalidGridLetter(c),
        ),
{
    let idx: i32 = col_index(c);
    if idx < 0 {
        return Err(FromStringError::InvalidGridLetter(c));
    }
    let o: i32 = if set == 1 || set == 4 {
        0
    } else if set == 2 || set == 5 {
        8
    } else {
        16
    };
    let d: i32 = idx - o;
    let steps: i32 = if d < 0 {
        d + 24
    } else {
        d
    };
    Ok(100_000 * ((steps as u64) + 1))
}

/// Northing contribution, in meters, of the second 100 km grid-square
/// letter, counted from the set's origin row letter; a character outside
/// the row alphabet is rejected rather than wrapped forever.
pub fn get_northing_from_char(c: char, set: i32) -> (r: Result<u64, FromStringError>)
    requires
        1 <= set <= 6,
    ensures
        spec_row_index(c) >= 0 ==> (r matches Ok(v) && v == spec_northing_100k(c, set as int)),
        spec_row_index(c) < 0 ==> r == Err::<u64, FromStringError>(
            FromStringError::InvalidGridLetter(c),
        ),
{
    let idx: i32 = row_index(c);
    if idx < 0 {
        return Err(FromStringError::InvalidGridLetter(c));
    }
    let o: i32 = if set % 2 == 1 {
        0
    } else {
        5
    };
    let d: i32 = idx - o;
    let steps: i32 = if d < 0 {
        d + 20
    } else {
        d
    };
    Ok(100_000 * (steps as u64))
}

/// Lowest northing, in meters, that a latitude band reaches; a character
/// that is no band letter is rejected.
pub fn get_min_northing(band: char) -> (r: Result<u64, FromStringError>)
    ensures
        spec_is_band(band) ==> (r matches Ok(v) && v == spec_min_northing(band) && v
            <= 9_100_000),
        !spec_is_band(band) ==> r == Err::<u64, FromStringError>(
            FromStringError::InvalidZoneLetter(band),
        ),
{
    if band == 'C' {
        Ok(1_100_000)
    } else if band == 'D' {
        Ok(2_000_000)
    } else if band == 'E' {
        Ok(2_800_000)
    } else if band == 'F' {
        Ok(3_700_000)
    } else if band == 'G' {
        Ok(4_600_000)
    } else if band == 'H' {
        Ok(5_500_000)
    } else if band == 'J' {
        Ok(6_400_000)
    } else if band == 'K' {
        Ok(7_300_000)
    } else if band == 'L' {
        Ok(8_200_000)
    } else if band == 'M' {
        Ok(9_100_000)
    } else if band == 'N' {
        Ok(0)
    } else if band == 'P' {
        Ok(800_000)
    } else if band == 'Q' {
        Ok(1_700_000)
    } else if band == 'R' {
        Ok(2_600_000)
    } else if band == 'S' {
        Ok(3_500_000)
    } else if band == 'T' {
        Ok(4_400_000)
    } else if band == 'U' {
        Ok(5_300_000)
    } else if band == 'V' {
        Ok(6_200_000)
    } else if band == 'W' {
        Ok(7_000_000)
    } else if band == 'X' {
        Ok(7_900_000)
    } else {
        Err(FromStringError::InvalidZoneLetter(band))
    }
}


/// Characters the decoder strips before parsing.
pub open spec fn spec_is_space(c: char) -> bool {
    c == ' ' || c == '\t' || c == '\n' || c == '\r'
}

/// The string with every space, tab and line break removed.
pub open spec fn spec_strip(s: Seq<char>) -> Seq<char>
    decreases s.len(),
{
    if s.len() == 0 {
        Seq::empty()
    } else if spec_is_space(s.last()) {
        spec_strip(s.drop_last())
    } else {
        spec_strip(s.drop_last()).push(s.last())
    }
}

/// Stripping leaves a string without whitespace unchanged.
pub proof fn lemma_strip_untouched(s: Seq<char>)
    requires
        forall|i: int| 0 <= i < s.len() ==> !spec_is_space(#[trigger] s[i]),
    ensures
        spec_strip(s) == s,
    decreases s.len(),
{
    if s.len() == 0 {
        assert(spec_strip(s) =~= s);
    } else {
        let t = s.drop_last();
        assert(forall|i: int| 0 <= i < t.len() ==> !spec_is_space(#[trigger] t[i])) by {
            assert(forall|i: int| 0 <= i < t.len() ==> #[trigger] t[i] == s[i]);
        }
        lemma_strip_untouched(t);
        assert(!spec_is_space(s.last()));
        assert(spec_strip(s) =~= s);
    }
}

/// Copy of the input with every space, tab and line break removed.
fn strip_spaces(s: &str) -> (r: String)
    ensures
        r@ == spec_strip(s@),
{
    let n: usize = s.unicode_len();
    let mut out: String = String::new();
    let mut i: usize = 0;
    while i < n
        invariant
            n == s@.len(),
            i <= n,
            out@ == spec_strip(s@.subrange(0, i as int)),
        decreases n - i,
    {
        let c: char = s.get_char(i);
        proof {
            let t = s@.subrange(0, i as int + 1);
            assert(t.drop_last() =~= s@.subrange(0, i as int));
            assert(t.last() == s@[i as int]);
        }
        if !(c == ' ' || c == '\t' || c == '\n' || c == '\r') {
            push_char(&mut out, c);
        }
        i = i + 1;
    }
    proof {
        assert(s@.subrange(0, n as int) =~= s@);
    }
    out
}

/// First character of a string together with the rest of it; `None` for
/// the empty string.
pub fn split_first_char<'a>(s: &'a str) -> (r: Option<(char, &'a str)>)
    ensures
        s@.len() == 0 ==> r is None,
        s@.len() > 0 ==> (r matches Some(p) && p.0 == s@[0] && p.1@ == s@.subrange(
            1,
            s@.len() as int,
        )),
{
    let n: usize = s.unicode_len();
    if n == 0 {
        None
    } else {
        let c: char = s.get_char(0);
        let rest: &str = s.substring_char(1, n);
        Some((c, rest))
    }
}

/// Value of a string of decimal digits; `None` when the string is empty
/// or holds any other character.
fn parse_digits(s: &str) -> (r: Option<u64>)
    requires
        s@.len() <= 11,
    ensures
        r == if s@.len() > 0 && spec_all_digits(s@) {
            Some(spec_digits_val(s@) as u64)
        } else {
            None::<u64>
        },
{
    let n: usize = s.unicode_len();
    if n == 0 {
        return None;
    }
    let mut acc: u64 = 0;
    let mut i: usize = 0;
    while i < n
        invariant
            n == s@.len(),
            n <= 11,
            i <= n,
            spec_all_digits(s@.subrange(0, i as int)),
            acc == spec_digits_val(s@.subrange(0, i as int)),
            acc < spec_pow10(i as nat),
        decreases n - i,
    {
        let c: char = s.get_char(i);
        let d: i32 = digit_val(c);
        if d < 0 {
            proof {
                assert(spec_digit_val(s@[i as int]) < 0);
                assert(!spec_all_digits(s@));
            }
            return None;
        }
        proof {
            let t = s@.subrange(0, i as int + 1);
            assert(t.drop_last() =~= s@.subrange(0, i as int));
            assert(t.last() == s@[i as int]);
            assert(spec_all_digits(t)) by {
                assert(forall|j: int|
                    0 <= j < t.len() ==> #[trigger] t[j] == s@.subrange(0, i as int + 1)[j]);
                assert(forall|j: int|
                    0 <= j < i as int ==> #[trigger] t[j] == s@.subrange(0, i as int)[j]);
            }
            reveal_with_fuel(spec_pow10, 13);
            lemma_pow10_increases(i as nat, 10);
            assert(spec_pow10((i + 1) as nat) == 10 * spec_pow10(i as nat));
        }
        acc = acc * 10 + (d as u64);
        i = i + 1;
    }
    proof {
        assert(s@.subrange(0, n as int) =~= s@);
    }
    Some(acc)
}


/// What decoding an already-stripped character string yields: either the
/// UTM position it denotes or the first error the grammar finds.
/// The two zone digits and the three letters come first; the remaining
/// digits split into two equal halves of at most eleven digits, scaled so
/// that a shorter half stands for a coarser offset; the row letter's
/// northing is lifted by whole 2,000 km periods until it clears the band's
/// minimum northing; the hemisphere follows from the band letter alone.
pub open spec fn spec_from_string(s: Seq<char>) -> Result<Utm, FromStringError> {
    if s.len() < 2 {
        Err(FromStringError::NotEnoughInput)
    } else if spec_digit_val(s[0]) < 0 {
        Err(FromStringError::InvalidZoneDigit(s[0]))
    } else if spec_digit_val(s[1]) < 0 {
        Err(FromStringError::InvalidZoneDigit(s[1]))
    } else if s.len() < 5 {
        Err(FromStringError::NotEnoughInput)
    } else {
        let zone = 10 * spec_digit_val(s[0]) + spec_digit_val(s[1]);
        let band = s[2];
        let ce = s[3];
        let cn = s[4];
        let set = spec_set_for_zone(zone);
        if spec_col_index(ce) < 0 {
            Err(FromStringError::InvalidGridLetter(ce))
        } else if spec_row_index(cn) < 0 {
            Err(FromStringError::InvalidGridLetter(cn))
        } else if !spec_is_band(band) {
            Err(FromStringError::InvalidZoneLetter(band))
        } else {
            let rest = s.subrange(5, s.len() as int);
            let half = rest.len() as int / 2;
            if rest.len() % 2 == 1 {
                Err(FromStringError::EastingParseError)
            } else if half > 11 {
                Err(FromStringError::EastingParseError)
            } else {
                let eh = rest.subrange(0, half);
                let nh = rest.subrange(half, rest.len() as int);
                if half == 0 || !spec_all_digits(eh) {
                    Err(FromStringError::EastingParseError)
                } else if !spec_all_digits(nh) {
                    Err(FromStringError::NorthingParseError)
                } else {
                    let g = spec_pow10((11 - half) as nat);
                    let e100k = spec_easting_100k(ce, set);
                    let n100k = spec_roll_north(
                        spec_northing_100k(cn, set),
                        spec_min_northing(band),
                    );
                    Ok(
                        Utm {
                            easting: (e100k * METER_UM + spec_digits_val(eh) * g) as u64,
                            northing: (n100k * METER_UM + spec_digits_val(nh) * g) as u64,
                            north: spec_is_north_band(band),
                            zone: zone as i32,
                            band: band,
                            ups: false,
                        },
                    )
                }
            }
        }
    }
}

/// Decode an MGRS string into the UTM position it names.
///
/// Spaces, tabs and line breaks may stand anywhere in the input and are
/// stripped first; the rest must read as zone digits, band letter, two
/// grid-square letters and an even run of offset digits.
pub fn from_string(inp: &str) -> (r: Result<Utm, FromStringError>)
    ensures
        r == spec_from_string(spec_strip(inp@)),
{
    let cleaned: String = strip_spaces(inp);
    let s: &str = cleaned.as_str();
    let ghost cs = s@;
    let (c1, xs) = match split_first_char(s) {
        Some(p) => p,
        None => {
            return Err(FromStringError::NotEnoughInput);
        },
    };
    let (c2, xs) = match split_first_char(xs) {
        Some(p) => p,
        None => {
            return Err(FromStringError::NotEnoughInput);
        },
    };
    proof {
        assert(c2 == cs[1]);
        assert(xs@ =~= cs.subrange(2, cs.len() as int));
    }
    let d1: i32 = digit_val(c1);
    if d1 < 0 {
        return Err(FromStringError::InvalidZoneDigit(c1));
    }
    let d2: i32 = digit_val(c2);
    if d2 < 0 {
        return Err(FromStringError::InvalidZoneDigit(c2));
    }
    let zone: i32 = d1 * 10 + d2;
    let (band, xs) = match split_first_char(xs) {
        Some(p) => p,
        None => {
            return Err(FromStringError::NotEnoughInput);
        },
    };
    proof {
        assert(band == cs[2]);
        assert(xs@ =~= cs.subrange(3, cs.len() as int));
    }
    let (hun_k_e, xs) = match split_first_char(xs) {
        Some(p) => p,
        None => {
            return Err(FromStringError::NotEnoughInput);
        },
    };
    proof {
        assert(hun_k_e == cs[3]);
        assert(xs@ =~= cs.subrange(4, cs.len() as int));
    }
    let (hun_k_n, xs) = match split_first_char(xs) {
        Some(p) => p,
        None => {
            return Err(FromStringError::NotEnoughInput);
        },
    };
    proof {
        assert(hun_k_n == cs[4]);
        assert(xs@ =~= cs.subrange(5, cs.len() as int));
    }
    let set: i32 = get_100k_set_for_zone(zone);
    let east_100k: u64 = match get_easting_from_char(hun_k_e, set) {
        Ok(v) => v,
        Err(e) => {
            return Err(e);
        },
    };
    let mut north_100k: u64 = match get_northing_from_char(hun_k_n, set) {
        Ok(v) => v,
        Err(e) => {
            return Err(e);
        },
    };
    let minn: u64 = match get_min_northing(band) {
        Ok(v) => v,
        Err(e) => {
            return Err(e);
        },
    };
    let ghost n0 = north_100k;
    while north_100k < minn
        invariant
            minn <= 9_100_000,
            north_100k <= 11_100_000,
            spec_roll_north(north_100k as int, minn as int) == spec_roll_north(
                n0 as int,
                minn as int,
            ),
        decreases (minn as int - north_100k as int + 1_999_999) / 2_000_000,
    {
        north_100k = north_100k + 2_000_000;
    }
    let rem: usize = xs.unicode_len();
    if rem % 2 == 1 {
        return Err(FromStringError::EastingParseError);
    }
    let half: usize = rem / 2;
    if half > 11 {
        return Err(FromStringError::EastingParseError);
    }
    let xs1: &str = xs.substring_char(0, half);
    let xs2: &str = xs.substring_char(half, rem);
    proof {
        assert(xs1@ =~= cs.subrange(5, cs.len() as int).subrange(0, half as int));
        assert(xs2@ =~= cs.subrange(5, cs.len() as int).subrange(
            half as int,
            cs.subrange(5, cs.len() as int).len() as int,
        ));
    }
    let easting_val: u64 = match parse_digits(xs1) {
        Some(v) => v,
        None => {
            return Err(FromStringError::EastingParseError);
        },
    };
    let northing_val: u64 = match parse_digits(xs2) {
        Some(v) => v,
        None => {
            return Err(FromStringError::NorthingParseError);
        },
    };
    let g: u64 = pow10(11 - half);
    proof {
        lemma_digits_val_bound(xs1@);
        lemma_digits_val_bound(xs2@);
        lemma_pow10_adds(half as nat, (11 - half) as nat);
        reveal_with_fuel(spec_pow10, 13);
        assert(easting_val as int * g as int <= spec_pow10(11) - g as int) by (nonlinear_arith)
            requires
                0 <= easting_val,
                (easting_val as int) < spec_pow10(half as nat),
                g as int == spec_pow10((11 - half) as nat),
                spec_pow10(half as nat) * spec_pow10((11 - half) as nat) == spec_pow10(11),
                g >= 1,
        ;
        assert(northing_val as int * g as int <= spec_pow10(11) - g as int) by (nonlinear_arith)
            requires
                0 <= northing_val,
                (northing_val as int) < spec_pow10(half as nat),
                g as int == spec_pow10((11 - half) as nat),
                spec_pow10(half as nat) * spec_pow10((11 - half) as nat) == spec_pow10(11),
                g >= 1,
        ;
    }
    let easting_um: u64 = east_100k * METER_UM + easting_val * g;
    let northing_um: u64 = north_100k * METER_UM + northing_val * g;
    let north: bool = (band as u32) >= 78;
    Ok(
        Utm {
            easting: easting_um,
            northing: northing_um,
            north,
            zone,
            band,
            ups: false,
        },
    )
}


/// The two-digit zone field.
pub open spec fn spec_zone_digits(zone: int) -> Seq<char> {
    seq![spec_digit_char(zone / 10), spec_digit_char(zone % 10)]
}

/// The text of a grid reference: zone digits, the band letter, the column
/// and row letters of the 100 km tile, then `prec` digits of easting and
/// `prec` digits of northing, each the leading digits of the micrometer
/// offset within the tile.
pub open spec fn spec_mgrs_chars(utm: Utm, prec: nat) -> Seq<char> {
    let zone = utm.zone as int;
    let xh = utm.easting as int / TILE_UM as int;
    let yh = utm.northing as int / TILE_UM as int;
    let shift = if (zone - 1) % 2 == 1 {
        5int
    } else {
        0int
    };
    let g = spec_pow10((11 - prec) as nat);
    spec_zone_digits(zone) + seq![
        utm.band,
        spec_col_letter(8 * ((zone - 1) % 3) + (xh - 1)),
        spec_row_letter((yh + shift) % 20),
    ] + spec_digits_of((utm.easting as int % TILE_UM as int) / g as int, prec)
        + spec_digits_of((utm.northing as int % TILE_UM as int) / g as int, prec)
}

impl Mgrs {
    /// Render the grid reference as text.
    ///
    /// The zone must be a real (non-polar) UTM zone and the easting must
    /// lie in one of the eight 100 km columns a zone can touch.  The band
    /// letter is written as stored: re-deriving it from the inverse
    /// projection would agree whenever both came from the same latitude.
    /// The row letter follows from the northing alone; no clamping to the
    /// band's nominal row range is applied, since such a correction never
    /// changes the text.
    pub fn to_string(&self) -> (s: String)
        requires
            !self.utm.ups,
            1 <= self.utm.zone <= 60,
            TILE_UM <= self.utm.easting < 9 * TILE_UM,
            self.prec <= MAX_PREC,
        ensures
            s@ == spec_mgrs_chars(self.utm, self.prec as nat),
    {
        let mut s: String = String::new();
        let zu: u64 = self.utm.zone as u64;
        let c1: char = digit_char(zu / 10);
        push_char(&mut s, c1);
        let c2: char = digit_char(zu % 10);
        push_char(&mut s, c2);
        push_char(&mut s, self.utm.band);
        let xh: u64 = self.utm.easting / TILE_UM;
        let yh: u64 = self.utm.northing / TILE_UM;
        let z1: u64 = zu - 1;
        let ccol: char = col_letter(8 * (z1 % 3) + (xh - 1));
        push_char(&mut s, ccol);
        let shift: u64 = if z1 % 2 == 1 {
            5
        } else {
            0
        };
        let crow: char = row_letter((yh + shift) % 20);
        push_char(&mut s, crow);
        let g: u64 = pow10(11 - self.prec);
        push_digits(&mut s, (self.utm.easting % TILE_UM) / g, self.prec);
        push_digits(&mut s, (self.utm.northing % TILE_UM) / g, self.prec);
        proof {
            assert(s@ =~= spec_mgrs_chars(self.utm, self.prec as nat));
        }
        s
    }
}

} // verus!


verus! {

/// The rollover lands exactly on the one lift of the base offset by whole
/// row periods that falls inside a 2,000 km window above the minimum.
proof fn lemma_roll_exact(base: int, minn: int, j: int)
    requires
        0 <= base,
        0 <= j,
        minn <= base + 2_000_000 * j,
        base + 2_000_000 * j < minn + 2_000_000,
    ensures
        spec_roll_north(base, minn) == base + 2_000_000 * j,
    decreases j,
{
    if j == 0 {
        assert(base >= minn);
    } else {
        assert(base + 2_000_000 * (j - 1) < minn);
        lemma_roll_exact(base + 2_000_000, minn, j - 1);
    }
}

/// The column alphabet starts each zone at its set's origin letter, and
/// the row shift of even-numbered zones equals the set's row origin.
proof fn lemma_origins_agree(z: int)
    requires
        1 <= z <= 60,
    ensures
        spec_col_origin(spec_set_for_zone(z)) == 8 * ((z - 1) % 3),
        spec_row_origin(spec_set_for_zone(z)) == (if (z - 1) % 2 == 1 {
            5int
        } else {
            0int
        }),
{
}

/// Character-level shape of the encoded text: the five header characters,
/// the two digit runs behind them, and the absence of any whitespace.
proof fn lemma_mgrs_chars_shape(utm: Utm, prec: nat)
    requires
        1 <= utm.zone <= 60,
        spec_is_band(utm.band),
        1 <= prec <= 11,
        TILE_UM <= utm.easting < 9 * TILE_UM,
    ensures
        ({
            let z = utm.zone as int;
            let xh = utm.easting as int / TILE_UM as int;
            let yh = utm.northing as int / TILE_UM as int;
            let g = spec_pow10((11 - prec) as nat) as int;
            let shift = if (z - 1) % 2 == 1 {
                5int
            } else {
                0int
            };
            let s = spec_mgrs_chars(utm, prec);
            let rest = s.subrange(5, s.len() as int);
            &&& s.len() == 5 + 2 * prec
            &&& s[0] == spec_digit_char(z / 10)
            &&& s[1] == spec_digit_char(z % 10)
            &&& s[2] == utm.band
            &&& s[3] == spec_col_letter(8 * ((z - 1) % 3) + (xh - 1))
            &&& s[4] == spec_row_letter((yh + shift) % 20)
            &&& rest.subrange(0, prec as int) == spec_digits_of(
                (utm.easting as int % TILE_UM as int) / g,
                prec,
            )
            &&& rest.subrange(prec as int, rest.len() as int) == spec_digits_of(
                (utm.northing as int % TILE_UM as int) / g,
                prec,
            )
            &&& spec_strip(s) == s
        }),
{
    let z = utm.zone as int;
    let e = utm.easting as int;
    let n = utm.northing as int;
    let tile = TILE_UM as int;
    let xh = e / tile;
    let yh = n / tile;
    let g = spec_pow10((11 - prec) as nat) as int;
    let es = (e % tile) / g;
    let ns = (n % tile) / g;
    let shift = if (z - 1) % 2 == 1 {
        5int
    } else {
        0int
    };
    let ci = 8 * ((z - 1) % 3) + (xh - 1);
    let ri = (yh + shift) % 20;
    let de = spec_digits_of(es, prec);
    let dn = spec_digits_of(ns, prec);
    let s = spec_mgrs_chars(utm, prec);
    lemma_digits_of_len(es, prec);
    lemma_digits_of_len(ns, prec);
    assert(1 <= xh <= 8);
    assert(0 <= ci < 24);
    assert(0 <= ri < 20);
    let rest = s.subrange(5, s.len() as int);
    assert(rest =~= de + dn);
    assert(rest.subrange(0, prec as int) =~= de);
    assert(rest.subrange(prec as int, rest.len() as int) =~= dn);
    assert(0 <= es) by {
        lemma_pow10_increases(0, (11 - prec) as nat);
        vstd::arithmetic::div_mod::lemma_div_is_ordered(0, e % tile, g);
    }
    assert(0 <= ns) by {
        lemma_pow10_increases(0, (11 - prec) as nat);
        vstd::arithmetic::div_mod::lemma_div_is_ordered(0, n % tile, g);
    }
    lemma_digits_of_all_digits(es, prec);
    lemma_digits_of_all_digits(ns, prec);
    crate::letters::lemma_digit_char_val(z / 10);
    crate::letters::lemma_digit_char_val(z % 10);
    assert forall|i: int| 0 <= i < s.len() implies !spec_is_space(#[trigger] s[i]) by {
        if i == 2 {
            assert(spec_is_band(s[2]));
        } else if i == 3 {
            assert(s[i] == spec_col_letter(ci));
        } else if i == 4 {
            assert(s[i] == spec_row_letter(ri));
        } else if i >= 5 + prec {
            assert(s[i] == dn[i - (5 + prec)]);
            assert(spec_digit_val(s[i]) >= 0);
        } else if i >= 5 {
            assert(s[i] == de[i - 5]);
            assert(spec_digit_val(s[i]) >= 0);
        }
    }
    lemma_strip_untouched(s);
}

/// Keeping the leading `prec` digits of a micrometer offset within a tile
/// truncates it to the grain `10^(11-prec)`, and those digits read back as
/// the truncated multiple.
proof fn lemma_tile_digits(v: int, prec: nat)
    requires
        0 <= v < TILE_UM,
        1 <= prec <= 11,
    ensures
        ({
            let g = spec_pow10((11 - prec) as nat) as int;
            let q = v / g;
            &&& 0 <= q < spec_pow10(prec)
            &&& spec_digits_val(spec_digits_of(q, prec)) == q
            &&& spec_all_digits(spec_digits_of(q, prec))
            &&& spec_digits_of(q, prec).len() == prec
            &&& q * g == v - v % g
            &&& 0 <= v % g < g
        }),
{
    let g = spec_pow10((11 - prec) as nat) as int;
    let p10 = spec_pow10(prec) as int;
    let q = v / g;
    assert(g >= 1 && p10 >= 1) by {
        lemma_pow10_increases(0, (11 - prec) as nat);
        lemma_pow10_increases(0, prec);
    }
    assert(TILE_UM as int == p10 * g) by {
        lemma_pow10_adds(prec, (11 - prec) as nat);
        reveal_with_fuel(spec_pow10, 13);
    }
    assert(0 <= q) by {
        vstd::arithmetic::div_mod::lemma_div_is_ordered(0, v, g);
    }
    assert(q < p10) by {
        if q >= p10 {
            vstd::arithmetic::div_mod::lemma_fundamental_div_mod(v, g);
            vstd::arithmetic::mul::lemma_mul_inequality(p10, q, g);
            assert(q * g == g * q) by (nonlinear_arith);
        }
    }
    lemma_digits_roundtrip(q, prec);
    lemma_digits_of_all_digits(q, prec);
    lemma_digits_of_len(q, prec);
    assert(q * g == v - v % g) by {
        vstd::arithmetic::div_mod::lemma_fundamental_div_mod(v, g);
        assert(q * g == g * q) by (nonlinear_arith);
    }
}

/// A northing inside its band's 2,000 km window is recovered exactly by
/// the rollover from its row letter's 100 km offset.
proof fn lemma_northing_window(utm: Utm)
    requires
        spec_is_band(utm.band),
        spec_min_northing(utm.band) * METER_UM <= utm.northing,
        utm.northing < (spec_min_northing(utm.band) + ROW_PERIOD_M) * METER_UM,
    ensures
        ({
            let yh = utm.northing as int / TILE_UM as int;
            spec_roll_north(100_000 * (yh % 20), spec_min_northing(utm.band)) == 100_000 * yh
        }),
{
    let n = utm.northing as int;
    let tile = TILE_UM as int;
    let yh = n / tile;
    let base = 100_000 * (yh % 20);
    let minn = spec_min_northing(utm.band);
    let t = 100_000 * yh;
    assert(minn % 100_000 == 0 && 0 <= minn <= 9_100_000);
    assert(t == base + 2_000_000 * (yh / 20)) by {
        vstd::arithmetic::div_mod::lemma_fundamental_div_mod(yh, 20);
    }
    assert(yh * tile <= n && n < (yh + 1) * tile) by {
        vstd::arithmetic::div_mod::lemma_fundamental_div_mod(n, tile);
    }
    assert(minn <= t && t < minn + 2_000_000) by {
        assert(t * 1_000_000 == yh * 100_000_000_000);
        assert(minn * 1_000_000 <= n);
        assert(n < (minn + 2_000_000) * 1_000_000);
        assert(minn * 1_000_000 < (yh + 1) * 100_000_000_000);
    }
    assert(0 <= yh / 20) by {
        vstd::arithmetic::div_mod::lemma_div_is_ordered(0, yh, 20);
    }
    assert(0 <= base);
    lemma_roll_exact(base, minn, yh / 20);
}

/// Encoding a valid UTM position and decoding the text recovers it:
/// zone, band and hemisphere come back exactly, easting and northing come
/// back truncated to the precision's grain of `10^(11-prec)` micrometers
/// (`10^(5-prec)` meters).  The position must be consistent: the band's
/// hemisphere, an easting in one of the eight tile columns, and a
/// northing inside the band's 2,000 km row window.
#[verifier::rlimit(100)]
pub proof fn lemma_mgrs_round_trip(utm: Utm, prec: nat)
    requires
        !utm.ups,
        1 <= utm.zone <= 60,
        spec_is_band(utm.band),
        utm.north == spec_is_north_band(utm.band),
        1 <= prec <= 11,
        TILE_UM <= utm.easting < 9 * TILE_UM,
        spec_min_northing(utm.band) * METER_UM <= utm.northing,
        utm.northing < (spec_min_northing(utm.band) + ROW_PERIOD_M) * METER_UM,
    ensures
        ({
            let s = spec_mgrs_chars(utm, prec);
            let g = spec_pow10((11 - prec) as nat);
            &&& spec_strip(s) == s
            &&& spec_from_string(s) matches Ok(u) && {
                &&& u.zone == utm.zone
                &&& u.band == utm.band
                &&& u.north == utm.north
                &&& !u.ups
                &&& u.easting <= utm.easting < u.easting + g
                &&& u.northing <= utm.northing < u.northing + g
            }
        }),
{
    let z = utm.zone as int;
    let e = utm.easting as int;
    let n = utm.northing as int;
    let tile = TILE_UM as int;
    let xh = e / tile;
    let yh = n / tile;
    let er = e % tile;
    let nr = n % tile;
    let g = spec_pow10((11 - prec) as nat) as int;
    let es = er / g;
    let ns = nr / g;
    let shift = if (z - 1) % 2 == 1 {
        5int
    } else {
        0int
    };
    let ci = 8 * ((z - 1) % 3) + (xh - 1);
    let ri = (yh + shift) % 20;
    let ccol = spec_col_letter(ci);
    let crow = spec_row_letter(ri);
    let s = spec_mgrs_chars(utm, prec);

    lemma_mgrs_chars_shape(utm, prec);
    lemma_tile_digits(er, prec);
    lemma_tile_digits(nr, prec);
    assert(1 <= xh <= 8);
    assert(0 <= ci < 24);
    assert(0 <= ri < 20);

    // The decoder reads the zone digits back as the zone.
    crate::letters::lemma_digit_char_val(z / 10);
    crate::letters::lemma_digit_char_val(z % 10);
    assert(10 * (z / 10) + z % 10 == z) by {
        vstd::arithmetic::div_mod::lemma_fundamental_div_mod(z, 10);
    }
    let set = spec_set_for_zone(z);
    lemma_origins_agree(z);
    crate::letters::lemma_col_letter_index(ci);
    crate::letters::lemma_row_letter_index(ri);

    // Easting: the column letter carries the tile, the digits the offset.
    assert((spec_col_index(ccol) - spec_col_origin(set)) % 24 == xh - 1);
    assert(spec_easting_100k(ccol, set) == 100_000 * xh);
    let dec_e = 100_000 * xh * (METER_UM as int) + es * g;
    assert(e == xh * tile + er) by {
        vstd::arithmetic::div_mod::lemma_fundamental_div_mod(e, tile);
    }
    assert(dec_e <= e < dec_e + g);

    // Northing: the row letter carries the tile modulo the period, and
    // the rollover restores the whole tiles.
    assert(((yh + shift) % 20 - shift) % 20 == yh % 20) by (nonlinear_arith)
        requires
            0 <= shift < 20,
            0 <= yh,
    ;
    assert((spec_row_index(crow) - spec_row_origin(set)) % 20 == yh % 20);
    assert(spec_northing_100k(crow, set) == 100_000 * (yh % 20));
    lemma_northing_window(utm);
    let dec_n = 100_000 * yh * (METER_UM as int) + ns * g;
    assert(n == yh * tile + nr) by {
        vstd::arithmetic::div_mod::lemma_fundamental_div_mod(n, tile);
    }
    assert(dec_n <= n < dec_n + g);

    // Put the decoded record together.
    let r = spec_from_string(s);
    assert(r is Ok);
    let u = r->Ok_0;
    assert(u.easting as int == dec_e && u.northing as int == dec_n) by {
        assert(0 <= dec_e < 0x1_0000_0000_0000_0000);
        assert(0 <= dec_n < 0x1_0000_0000_0000_0000);
    }
}

} // verus!

