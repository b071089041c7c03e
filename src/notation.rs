//! The text form of a cell: its column as a letter `a`-`g`, then its row as a
//! digit `1`-`9`.
use vstd::prelude::*;
use vstd::string::{StrSliceExecFns, StringExecFns};

use crate::board::{in_bounds, TileCoord};

verus! {

/// ASCII codes of the characters a prompt reads.
pub const KEY_QUIT: u8 = 113;

pub const KEY_BACK: u8 = 104;

pub const LETTER_A: u8 = 97;

pub const LETTER_G: u8 = 103;

pub const DIGIT_1: u8 = 49;

pub const DIGIT_9: u8 = 57;

pub open spec fn column_letters() -> Seq<char> {
    "abcdefg"@
}

pub open spec fn row_digits() -> Seq<char> {
    "123456789"@
}

/// The name of a cell, such as `a1` for (0, 0) and `g9` for (6, 8).
pub open spec fn position_name(c: TileCoord) -> Seq<char> {
    seq![column_letters()[c.0 as int], row_digits()[c.1 as int]]
}

/// What a line typed at a prompt asks for.
#[derive(Debug, Copy, Clone, PartialEq, Eq)]
pub enum Prompt<T> {
    Valid(T),
    Invalid,
    Abort,
}

/// The reading of the first bytes typed at a prompt: `q` or `h` go back, a
/// letter `a`-`g` followed by a digit `1`-`9` names a cell.
pub open spec fn prompt_of(b: Seq<u8>) -> Prompt<TileCoord> {
    if b.len() == 0 {
        Prompt::Invalid
    } else if b[0] == KEY_QUIT || b[0] == KEY_BACK {
        Prompt::Abort
    } else if !(LETTER_A <= b[0] <= LETTER_G) {
        Prompt::Invalid
    } else if b.len() < 2 || !(DIGIT_1 <= b[1] <= DIGIT_9) {
        Prompt::Invalid
    } else {
        Prompt::Valid(((b[0] - LETTER_A) as isize, (b[1] - DIGIT_1) as isize))
    }
}

pub fn coord_to_position(c: TileCoord) -> (r: String)
    requires
        in_bounds(c),
    ensures
        r@ == position_name(c),
{
    let columns = "abcdefg";
    let rows = "123456789";
    proof {
        reveal_strlit("abcdefg");
        reveal_strlit("123456789");
    }
    let x = c.0 as usize;
    let y = c.1 as usize;
    let r = String::from_str(columns.substring_char(x, x + 1)).concat(rows.substring_char(y, y + 1));
    assert(r@ =~= position_name(c));
    r
}

/// Reads a cell, or a request to go back, from the bytes typed at a prompt.
pub fn parse_position(input: &[u8]) -> (r: Prompt<TileCoord>)
    ensures
        r == prompt_of(input@),
        r matches Prompt::Valid(c) ==> in_bounds(c),
{
    if input.len() == 0 {
        return Prompt::Invalid;
    }
    let x = input[0];
    if x == KEY_QUIT || x == KEY_BACK {
        return Prompt::Abort;
    }
    if x < LETTER_A || x > LETTER_G {
        return Prompt::Invalid;
    }
    if input.len() < 2 || input[1] < DIGIT_1 || input[1] > DIGIT_9 {
        return Prompt::Invalid;
    }
    Prompt::Valid(((x - LETTER_A) as isize, (input[1] - DIGIT_1) as isize))
}

} // verus!
