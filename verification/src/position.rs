//! Position index: maps byte offsets of a source buffer to 1-based line
//! and column numbers, and resolves offset pairs into renderable positions.

use vstd::prelude::*;

verus! {

/// The newline byte, `'\n'`.
pub const NEWLINE: u8 = 10;

/// A source location. While `finished` is false the value carries only the
/// byte offsets (or the end-of-input flag `last`) and must be resolved
/// against a buffer before its `line` and `col` are meaningful.
#[derive(Clone, Copy, PartialEq, Eq, Structural, Debug)]
pub struct Position {
    pub line: usize,
    pub col: usize,
    pub start: usize,
    pub end: usize,
    pub last: bool,
    pub finished: bool,
}

/// 1-based line number in effect at byte `i`: one more than the number of
/// newline bytes strictly before `i`, so a newline is attributed to the
/// line it terminates.
pub open spec fn line_at(buf: Seq<u8>, i: int) -> int
    decreases i,
{
    if i <= 0 {
        1
    } else {
        line_at(buf, i - 1) + if buf[i - 1] == NEWLINE {
            1int
        } else {
            0int
        }
    }
}

/// 1-based column of byte `i`: resets to 1 immediately after a newline and
/// increments for every other byte, so the byte following a newline is
/// column 1.
pub open spec fn col_at(buf: Seq<u8>, i: int) -> int
    decreases i,
{
    if i <= 0 {
        1
    } else if buf[i - 1] == NEWLINE {
        1
    } else {
        col_at(buf, i - 1) + 1
    }
}

/// The index whose line/column the resolution of offset `start` reads:
/// `start` clamped to the last indexed byte.
pub open spec fn resolve_index(buf: Seq<u8>, start: int) -> int {
    if start < buf.len() - 1 {
        start
    } else {
        buf.len() - 1
    }
}

/// What `get_pos` promises: `p` carries the line/column of the clamped
/// offset together with the unchanged offsets, and is fully resolved.
pub open spec fn is_resolution_of(p: Position, buf: Seq<u8>, start: int, end: int) -> bool {
    &&& p.line == line_at(buf, resolve_index(buf, start))
    &&& p.col == col_at(buf, resolve_index(buf, start))
    &&& p.start == start
    &&& p.end == end
    &&& !p.last
    &&& p.finished
}

pub proof fn lemma_line_col_bounds(buf: Seq<u8>, i: int)
    requires
        0 <= i,
    ensures
        1 <= line_at(buf, i) <= i + 1,
        1 <= col_at(buf, i) <= i + 1,
    decreases i,
{
    if i > 0 {
        lemma_line_col_bounds(buf, i - 1);
    }
}

/// Builds the two parallel lookup tables for a buffer: the line number and
/// the column number of every byte offset.
pub fn scan_file(buf: &[u8]) -> (r: (Vec<usize>, Vec<usize>))
    requires
        buf@.len() < usize::MAX,
    ensures
        r.0.len() == buf@.len(),
        r.1.len() == buf@.len(),
        forall|i: int| 0 <= i < buf@.len() ==> r.0[i] == line_at(buf@, i),
        forall|i: int| 0 <= i < buf@.len() ==> r.1[i] == col_at(buf@, i),
{
    let mut lines: Vec<usize> = Vec::new();
    let mut cols: Vec<usize> = Vec::new();
    let mut line: usize = 1;
    let mut col: usize = 1;
    let mut i: usize = 0;
    while i < buf.len()
        invariant
            i <= buf@.len(),
            buf@.len() < usize::MAX,
            lines.len() == i,
            cols.len() == i,
            line == line_at(buf@, i as int),
            col == col_at(buf@, i as int),
            forall|j: int| 0 <= j < i ==> lines[j] == line_at(buf@, j),
            forall|j: int| 0 <= j < i ==> cols[j] == col_at(buf@, j),
        decreases buf@.len() - i,
    {
        proof {
            lemma_line_col_bounds(buf@, i as int);
        }
        lines.push(line);
        cols.push(col);
        if buf[i] == NEWLINE {
            line = line + 1;
            col = 1;
        } else {
            col = col + 1;
        }
        i = i + 1;
    }
    (lines, cols)
}

/// The position just past the last byte of the buffer: the line of the last
/// indexed byte, its column incremented by one, offsets one past the length,
/// flagged as end-of-input.
pub fn last(buf: &[u8]) -> (p: Position)
    requires
        buf@.len() > 0,
        buf@.len() < usize::MAX,
    ensures
        p.line == line_at(buf@, buf@.len() - 1),
        p.col == col_at(buf@, buf@.len() - 1) + 1,
        p.start == buf@.len() + 1,
        p.end == buf@.len() + 1,
        p.last,
        p.finished,
{
    let (line_scan, col_scan) = scan_file(buf);
    proof {
        lemma_line_col_bounds(buf@, buf@.len() - 1);
    }
    Position {
        line: line_scan[line_scan.len() - 1],
        col: col_scan[col_scan.len() - 1] + 1,
        start: buf.len() + 1,
        end: buf.len() + 1,
        last: true,
        finished: true,
    }
}

/// Resolves an offset pair against a buffer: line and column are read at
/// `start` clamped to the last indexed byte; the offsets are kept as given.
pub fn get_pos(buf: &[u8], start: usize, end: usize) -> (p: Position)
    requires
        buf@.len() > 0,
        buf@.len() < usize::MAX,
    ensures
        is_resolution_of(p, buf@, start as int, end as int),
{
    let (line_scan, col_scan) = scan_file(buf);
    let scan_index = if start < line_scan.len() - 1 {
        start
    } else {
        line_scan.len() - 1
    };
    Position {
        line: line_scan[scan_index],
        col: col_scan[scan_index],
        start: start,
        end: end,
        last: false,
        finished: true,
    }
}

/// Mathematical image of a `Position`, with unbounded integer fields.
pub struct PosModel {
    pub line: int,
    pub col: int,
    pub start: int,
    pub end: int,
    pub last: bool,
    pub finished: bool,
}

impl View for Position {
    type V = PosModel;

    open spec fn view(&self) -> PosModel {
        PosModel {
            line: self.line as int,
            col: self.col as int,
            start: self.start as int,
            end: self.end as int,
            last: self.last,
            finished: self.finished,
        }
    }
}

/// The position a value resolved at offset `start` carries.
pub open spec fn resolved_pos_model(buf: Seq<u8>, start: int, end: int) -> PosModel {
    PosModel {
        line: line_at(buf, resolve_index(buf, start)),
        col: col_at(buf, resolve_index(buf, start)),
        start: start,
        end: end,
        last: false,
        finished: true,
    }
}

/// Resolution is idempotent: a position resolved from a buffer keeps its
/// offsets, so resolving those offsets against the same buffer yields the
/// same position, line and column included.
pub proof fn lemma_resolve_idempotent(p: Position, q: Position, buf: Seq<u8>, start: int, end: int)
    requires
        is_resolution_of(p, buf, start, end),
        is_resolution_of(q, buf, p.start as int, p.end as int),
    ensures
        q == p,
{
}

} // verus!
