use vstd::prelude::*;

verus! {

// The MGRS alphabets leave out 'I' and 'O'.  Column letters run 'A'..='Z'
// (24 letters), row letters 'A'..='V' (20 letters); both are addressed here
// by their position in the reduced alphabet.
/// Value of a decimal digit character, -1 for any other character.
pub open spec fn spec_digit_val(c: char) -> int {
    if 48 <= c as int <= 57 {
        c as int - 48
    } else {
        -1
    }
}

/// Decimal digit character of a value in `0..=9`.
pub open spec fn spec_digit_char(d: int) -> char {
    (48 + d) as char
}

/// Position of a 100 km grid-square column letter in `A..=Z` without
/// `I`/`O`, -1 for any other character.
pub open spec fn spec_col_index(c: char) -> int {
    if 65 <= c as int <= 72 {
        c as int - 65
    } else if 74 <= c as int <= 78 {
        c as int - 66
    } else if 80 <= c as int <= 90 {
        c as int - 67
    } else {
        -1
    }
}

/// Column letter at a position in `0..=23`.
pub open spec fn spec_col_letter(i: int) -> char {
    if 0 <= i <= 7 {
        (65 + i) as char
    } else if 8 <= i <= 12 {
        (66 + i) as char
    } else {
        (67 + i) as char
    }
}

/// Position of a 100 km grid-square row letter in `A..=V` without `I`/`O`,
/// -1 for any other character.
pub open spec fn spec_row_index(c: char) -> int {
    if 65 <= c as int <= 72 {
        c as int - 65
    } else if 74 <= c as int <= 78 {
        c as int - 66
    } else if 80 <= c as int <= 86 {
        c as int - 67
    } else {
        -1
    }
}

/// Row letter at a position in `0..=19`.
pub open spec fn spec_row_letter(i: int) -> char {
    if 0 <= i <= 7 {
        (65 + i) as char
    } else if 8 <= i <= 12 {
        (66 + i) as char
    } else {
        (67 + i) as char
    }
}

/// Every position yields a letter that resolves back to that position.
pub proof fn lemma_col_letter_index(i: int)
    requires
        0 <= i < 24,
    ensures
        spec_col_index(spec_col_letter(i)) == i,
{
}

/// Every position yields a letter that resolves back to that position.
pub proof fn lemma_row_letter_index(i: int)
    requires
        0 <= i < 20,
    ensures
        spec_row_index(spec_row_letter(i)) == i,
{
}

/// Every digit value yields a character that reads back as that value.
pub proof fn lemma_digit_char_val(d: int)
    requires
        0 <= d < 10,
    ensures
        spec_digit_val(spec_digit_char(d)) == d,
{
}

/// Value of a decimal digit character, -1 for any other character.
pub fn digit_val(c: char) -> (r: i32)
    ensures
        r == spec_digit_val(c),
{
    let u: u32 = c as u32;
    if 48 <= u && u <= 57 {
        (u - 48) as i32
    } else {
        -1
    }
}

/// Decimal digit character of a value in `0..=9`.
pub fn digit_char(d: u64) -> (c: char)
    requires
        d < 10,
    ensures
        c == spec_digit_char(d as int),
{
    ((48 + d) as u8) as char
}

/// Position of a column letter, -1 for any other character.
pub fn col_index(c: char) -> (r: i32)
    ensures
        r == spec_col_index(c),
{
    let u: u32 = c as u32;
    if 65 <= u && u <= 72 {
        (u - 65) as i32
    } else if 74 <= u && u <= 78 {
        (u - 66) as i32
    } else if 80 <= u && u <= 90 {
        (u - 67) as i32
    } else {
        -1
    }
}

/// Column letter at a position in `0..=23`.
pub fn col_letter(i: u64) -> (c: char)
    requires
        i < 24,
    ensures
        c == spec_col_letter(i as int),
{
    if i <= 7 {
        ((65 + i) as u8) as char
    } else if i <= 12 {
        ((66 + i) as u8) as char
    } else {
        ((67 + i) as u8) as char
    }
}

/// Position of a row letter, -1 for any other character.
pub fn row_index(c: char) -> (r: i32)
    ensures
        r == spec_row_index(c),
{
    let u: u32 = c as u32;
    if 65 <= u && u <= 72 {
        (u - 65) as i32
    } else if 74 <= u && u <= 78 {
        (u - 66) as i32
    } else if 80 <= u && u <= 86 {
        (u - 67) as i32
    } else {
        -1
    }
}

/// Row letter at a position in `0..=19`.
pub fn row_letter(i: u64) -> (c: char)
    requires
        i < 20,
    ensures
        c == spec_row_letter(i as int),
{
    if i <= 7 {
        ((65 + i) as u8) as char
    } else if i <= 12 {
        ((66 + i) as u8) as char
    } else {
        ((67 + i) as u8) as char
    }
}

} // verus!
