//! The cursor locator: between an editor's position (line and character,
//! both from zero) and a byte offset in the text. A line ends with a line
//! feed, and a character counts one byte.

use vstd::prelude::*;
use vstd::string::StringSliceAdditionalSpecFns;
use crate::text::{find_byte, first_index_from};

verus! {

/// The byte that ends a line.
pub const LINE_FEED: u8 = 0x0a;

/// A position as an editor gives it: line and character, both from zero.
#[derive(Clone, Copy, Debug, PartialEq, Eq, Structural)]
pub struct Position {
    pub line: u32,
    pub character: u32,
}

/// The offset at which line `line` begins: 0 for the first line, else one
/// behind the line feed that ends the line before. None where the text has
/// no such line.
pub open spec fn line_start(bytes: Seq<u8>, line: nat) -> Option<int>
    decreases line,
{
    if line == 0 {
        Some(0)
    } else {
        match line_start(bytes, (line - 1) as nat) {
            None => None,
            Some(before) => {
                let feed = first_index_from(bytes, LINE_FEED, before);
                if feed < bytes.len() {
                    Some(feed + 1)
                } else {
                    None
                }
            },
        }
    }
}

/// The offset of a position: the line's start plus the character. None
/// where the text has no such line or the sum does not fit 32 bits.
pub open spec fn offset_of(bytes: Seq<u8>, line: nat, character: nat) -> Option<int> {
    match line_start(bytes, line) {
        Some(start) => if start + character <= u32::MAX {
            Some(start + character)
        } else {
            None
        },
        None => None,
    }
}

/// How many line feeds stand before `offset`: the number of the line that
/// holds it.
pub open spec fn line_of(bytes: Seq<u8>, offset: int) -> nat
    decreases offset,
{
    if offset <= 0 || offset > bytes.len() {
        0
    } else if bytes[offset - 1] == LINE_FEED {
        line_of(bytes, offset - 1) + 1
    } else {
        line_of(bytes, offset - 1)
    }
}

/// Where the line that holds `offset` begins.
pub open spec fn line_begin(bytes: Seq<u8>, offset: int) -> int
    decreases offset,
{
    if offset <= 0 || offset > bytes.len() {
        0
    } else if bytes[offset - 1] == LINE_FEED {
        offset
    } else {
        line_begin(bytes, offset - 1)
    }
}

/// A text has no line behind one that it lacks.
pub proof fn lemma_no_later_line(bytes: Seq<u8>, missing: nat, line: nat)
    requires
        line_start(bytes, missing) is None,
        missing <= line,
    ensures
        line_start(bytes, line) is None,
    decreases line,
{
    if missing < line {
        lemma_no_later_line(bytes, missing, (line - 1) as nat);
    }
}

/// The line that holds an offset begins where [`line_begin`] says, and no
/// line feed stands between that and the offset.
pub proof fn lemma_line_of_offset(bytes: Seq<u8>, offset: int)
    requires
        0 <= offset <= bytes.len(),
    ensures
        line_start(bytes, line_of(bytes, offset)) == Some(line_begin(bytes, offset)),
        0 <= line_begin(bytes, offset) <= offset,
        forall|k: int| line_begin(bytes, offset) <= k < offset ==> bytes[k] != LINE_FEED,
    decreases offset,
{
    if offset > 0 {
        lemma_line_of_offset(bytes, offset - 1);
        if bytes[offset - 1] == LINE_FEED {
            let before = line_begin(bytes, offset - 1);
            lemma_first_feed(bytes, before, offset - 1);
        }
    }
}

proof fn lemma_first_feed(bytes: Seq<u8>, from: int, feed: int)
    requires
        0 <= from <= feed < bytes.len(),
        bytes[feed] == LINE_FEED,
        forall|k: int| from <= k < feed ==> bytes[k] != LINE_FEED,
    ensures
        first_index_from(bytes, LINE_FEED, from) == feed,
    decreases feed - from,
{
    if from < feed {
        lemma_first_feed(bytes, from + 1, feed);
    }
}

/// Position and offset agree: the position computed for an offset leads
/// back to that offset.
pub proof fn lemma_position_round_trip(bytes: Seq<u8>, offset: int)
    requires
        0 <= offset <= bytes.len(),
        offset <= u32::MAX,
    ensures
        offset_of(
            bytes,
            line_of(bytes, offset),
            (offset - line_begin(bytes, offset)) as nat,
        ) == Some(offset),
{
    lemma_line_of_offset(bytes, offset);
}

/// The byte offset of an editor position in `text`. None where the text has
/// no line of that number, or the offset does not fit 32 bits.
pub fn locate(text: &str, line: u32, character: u32) -> (r: Option<u32>)
    ensures
        match offset_of(text.spec_bytes(), line as nat, character as nat) {
            Some(offset) => r is Some && r.unwrap() as int == offset,
            None => r is None,
        },
{
    let bytes = text.as_bytes();
    let mut start: usize = 0;
    let mut current: u32 = 0;
    while current < line
        invariant
            current <= line,
            start <= bytes.len(),
            bytes@ == text.spec_bytes(),
            line_start(bytes@, current as nat) == Some(start as int),
        decreases line - current,
    {
        let feed = find_byte(bytes, LINE_FEED, start);
        if feed >= bytes.len() {
            proof {
                assert(line_start(bytes@, (current + 1) as nat) is None);
                lemma_no_later_line(bytes@, (current + 1) as nat, line as nat);
            }
            return None;
        }
        start = feed + 1;
        current += 1;
    }
    if start > 0xffff_ffff {
        return None;
    }
    let sum: u64 = start as u64 + character as u64;
    if sum > 0xffff_ffff {
        None
    } else {
        Some(sum as u32)
    }
}

/// The editor position of a byte offset in `text`. None where the offset
/// lies behind the text's end.
pub fn position_of(text: &str, offset: u32) -> (r: Option<Position>)
    ensures
        r is Some <==> offset as int <= text.spec_bytes().len(),
        r is Some ==> r.unwrap().line == line_of(text.spec_bytes(), offset as int),
        r is Some ==> r.unwrap().character == offset - line_begin(
            text.spec_bytes(),
            offset as int,
        ),
        r is Some ==> offset_of(
            text.spec_bytes(),
            r.unwrap().line as nat,
            r.unwrap().character as nat,
        ) == Some(offset as int),
{
    let bytes = text.as_bytes();
    if offset as usize > bytes.len() {
        return None;
    }
    let mut line: u32 = 0;
    let mut begin: u32 = 0;
    let mut at: u32 = 0;
    while at < offset
        invariant
            at <= offset <= bytes.len(),
            line <= at,
            begin <= at,
            line == line_of(bytes@, at as int),
            begin == line_begin(bytes@, at as int),
        decreases offset - at,
    {
        if bytes[at as usize] == LINE_FEED {
            line += 1;
            begin = at + 1;
        }
        at += 1;
    }
    proof {
        lemma_position_round_trip(bytes@, offset as int);
    }
    Some(Position { line, character: offset - begin })
}

} // verus!
