//! Diagnostic model: a small closed set of error kinds sharing one
//! rendering contract — plain `kind: message` when no position is known or
//! no source buffer is supplied, else a kind/message/position header
//! followed by the offending source line and a caret underline spanning the
//! error's byte range.

use std::ops::RangeInclusive;
use vstd::prelude::*;
use vstd::string::StringExecFns;
use crate::position::{
    Position, PosModel, line_at, col_at, scan_file, last, get_pos, resolved_pos_model,
    lemma_line_col_bounds,
};
use crate::token::{chars_of, SPACE};
use crate::utils::push_byte;

verus! {

/// The caret byte, `'^'`, used for the underline.
pub const CARET: u8 = 94;

/// The character for one decimal digit.
pub open spec fn digit_char(d: nat) -> char {
    ((48 + d) as u8) as char
}

/// The decimal digits of `n`, most significant first.
pub open spec fn dec_digits(n: nat) -> Seq<char>
    decreases n,
{
    if n < 10 {
        seq![digit_char(n)]
    } else {
        dec_digits(n / 10).push(digit_char(n % 10))
    }
}

/// `n` copies of one character.
pub open spec fn char_run(c: char, n: int) -> Seq<char> {
    Seq::new(if n < 0 {
        0
    } else {
        n as nat
    }, |k: int| c)
}

/// The line-number table of a buffer, as `scan_file` builds it.
pub open spec fn line_table(buf: Seq<u8>) -> Seq<usize> {
    Seq::new(buf.len(), |i: int| line_at(buf, i) as usize)
}

/// First index at or after `j` whose table entry is `line`, or 0 when there
/// is none.
pub open spec fn first_match(scan: Seq<usize>, line: int, j: int) -> int
    decreases scan.len() - j,
    when j >= 0
{
    if j >= scan.len() {
        0
    } else if scan[j] == line {
        j
    } else {
        first_match(scan, line, j + 1)
    }
}

/// Last index below `j` whose table entry is `line`, or 0 when there is
/// none.
pub open spec fn last_match(scan: Seq<usize>, line: int, j: int) -> int
    decreases j,
{
    if j <= 0 {
        0
    } else if scan[j - 1] == line {
        j - 1
    } else {
        last_match(scan, line, j - 1)
    }
}

/// `first_match` finds the least matching index at or after `j`, or 0.
pub proof fn lemma_first_match(scan: Seq<usize>, line: int, j: int)
    requires
        0 <= j <= scan.len(),
    ensures
        (exists|k: int| j <= k < scan.len() && scan[k] == line) ==> {
            let f = first_match(scan, line, j);
            &&& j <= f < scan.len()
            &&& scan[f] == line
            &&& forall|k: int| j <= k < f ==> scan[k] != line
        },
        !(exists|k: int| j <= k < scan.len() && scan[k] == line) ==> first_match(scan, line, j)
            == 0,
    decreases scan.len() - j,
{
    if j < scan.len() && scan[j] != line {
        lemma_first_match(scan, line, j + 1);
    }
}

/// `last_match` finds the greatest matching index below `j`, or 0.
pub proof fn lemma_last_match(scan: Seq<usize>, line: int, j: int)
    requires
        0 <= j <= scan.len(),
    ensures
        (exists|k: int| 0 <= k < j && scan[k] == line) ==> {
            let l = last_match(scan, line, j);
            &&& 0 <= l < j
            &&& scan[l] == line
            &&& forall|k: int| l < k < j ==> scan[k] != line
        },
        !(exists|k: int| 0 <= k < j && scan[k] == line) ==> last_match(scan, line, j) == 0,
    decreases j,
{
    if j > 0 && scan[j - 1] != line {
        lemma_last_match(scan, line, j - 1);
    }
}

/// The position as the rendering prints it.
pub open spec fn render_pos(p: PosModel) -> Seq<char> {
    "[Ln "@ + dec_digits(p.line as nat) + ", Cl "@ + dec_digits(p.col as nat) + "]"@
}

/// The plain rendering, used when no position or no buffer is at hand.
pub open spec fn render_plain(kind: Seq<char>, msg: Seq<char>) -> Seq<char> {
    kind + ": "@ + msg
}

/// The position after resolving against a buffer: already-resolved
/// positions are kept, the end-of-input flag resolves to the point just
/// past the content, and plain offsets are looked up in the tables.
pub open spec fn spec_resolved(p: PosModel, buf: Seq<u8>) -> PosModel {
    if p.finished {
        p
    } else if p.last {
        PosModel {
            line: line_at(buf, buf.len() - 1),
            col: col_at(buf, buf.len() - 1) + 1,
            start: buf.len() + 1 as int,
            end: buf.len() + 1 as int,
            last: true,
            finished: true,
        }
    } else {
        resolved_pos_model(buf, p.start, p.end)
    }
}

/// The snippet rendering: header with kind, message and position, then the
/// full source line the position lies on, then a caret underline. Both the
/// leading-space count and the caret count are floored at one so that even
/// a zero-width span shows a marker.
pub open spec fn render_snippet(
    kind: Seq<char>,
    msg: Seq<char>,
    p: PosModel,
    buf: Seq<u8>,
) -> Seq<char> {
    let scan = line_table(buf);
    let lo = first_match(scan, p.line, 0);
    let hi = last_match(scan, p.line, scan.len() as int);
    kind + ": "@ + msg + " at "@ + render_pos(p) + "\n`"@ + chars_of(buf.subrange(lo, hi + 1))
        + "`\n"@ + char_run(SPACE as char, if p.col > 1 {
        p.col
    } else {
        1
    }) + char_run(CARET as char, if p.end - p.start > 1 {
        p.end - p.start
    } else {
        1
    })
}

/// What rendering an error yields: the plain form without a position or a
/// buffer, else the snippet form at the resolved position.
pub open spec fn spec_render(
    kind: Seq<char>,
    msg: Seq<char>,
    has_pos: bool,
    p: PosModel,
    buf: Option<Seq<u8>>,
) -> Seq<char> {
    if !has_pos || buf is None {
        render_plain(kind, msg)
    } else {
        render_snippet(kind, msg, spec_resolved(p, buf->0), buf->0)
    }
}

/// The decimal rendering of a number.
fn to_decimal(n: usize) -> (r: String)
    ensures
        r@ == dec_digits(n as nat),
    decreases n,
{
    if n < 10 {
        let mut s = String::new();
        push_byte(&mut s, 48 + (n as u8));
        proof {
            assert(s@ =~= dec_digits(n as nat));
        }
        s
    } else {
        let mut s = to_decimal(n / 10);
        push_byte(&mut s, 48 + ((n % 10) as u8));
        s
    }
}

/// A string of `n` copies of one byte's character.
fn repeat_byte(b: u8, n: usize) -> (r: String)
    ensures
        r@ == char_run(b as char, n as int),
{
    let mut s = String::new();
    let mut k: usize = 0;
    while k < n
        invariant
            k <= n,
            s@ == char_run(b as char, k as int),
        decreases n - k,
    {
        push_byte(&mut s, b);
        k = k + 1;
        proof {
            assert(s@ =~= char_run(b as char, k as int));
        }
    }
    s
}

/// The bytes of `buf[lo ..= hi]` as a string of characters.
fn chars_between(buf: &[u8], lo: usize, hi: usize) -> (r: String)
    requires
        lo <= hi < buf@.len(),
    ensures
        r@ == chars_of(buf@.subrange(lo as int, hi as int + 1)),
{
    let mut s = String::new();
    let mut k: usize = lo;
    proof {
        assert(s@ =~= chars_of(buf@.subrange(lo as int, lo as int)));
    }
    while k <= hi
        invariant
            lo <= k <= hi + 1,
            hi < buf@.len(),
            s@ == chars_of(buf@.subrange(lo as int, k as int)),
        decreases hi + 1 - k,
    {
        push_byte(&mut s, buf[k]);
        proof {
            assert(buf@.subrange(lo as int, k + 1) =~= buf@.subrange(lo as int, k as int).push(
                buf@[k as int],
            ));
            assert(chars_of(buf@.subrange(lo as int, k + 1)) =~= chars_of(
                buf@.subrange(lo as int, k as int),
            ).push(buf@[k as int] as char));
        }
        k = k + 1;
    }
    s
}

/// First and last index of the given line number in a line table, both 0
/// when the line does not occur.
fn line_bounds(scan: &Vec<usize>, line: usize) -> (r: (usize, usize))
    ensures
        r.0 as int == first_match(scan@, line as int, 0),
        r.1 as int == last_match(scan@, line as int, scan@.len() as int),
{
    let mut lo: usize = 0;
    let mut hi: usize = 0;
    let mut found = false;
    let mut j: usize = 0;
    while j < scan.len()
        invariant
            j <= scan@.len(),
            found <==> exists|k: int| 0 <= k < j && scan@[k] == line,
            found ==> 0 <= lo < j && scan@[lo as int] == line && forall|k: int|
                0 <= k < lo ==> scan@[k] != line,
            found ==> 0 <= hi < j && scan@[hi as int] == line && forall|k: int|
                hi < k < j ==> scan@[k] != line,
            !found ==> lo == 0 && hi == 0,
        decreases scan@.len() - j,
    {
        if scan[j] == line {
            if !found {
                lo = j;
                found = true;
            }
            hi = j;
        }
        j = j + 1;
    }
    proof {
        lemma_first_match(scan@, line as int, 0);
        lemma_last_match(scan@, line as int, scan@.len() as int);
        if found {
            let f = first_match(scan@, line as int, 0);
            let l = last_match(scan@, line as int, scan@.len() as int);
            assert(scan@[lo as int] == line);
            assert(f == lo as int);
            assert(l == hi as int);
        }
    }
    (lo, hi)
}

/// The uniform rendering shared by all error kinds; see `spec_render`.
fn render_error(kind: &str, msg: &str, has_pos: bool, pos: Position, buf: Option<&[u8]>) -> (r:
    String)
    requires
        has_pos && buf is Some ==> buf->0@.len() > 0 && buf->0@.len() < usize::MAX
            && pos.end >= pos.start,
    ensures
        r@ == spec_render(kind@, msg@, has_pos, pos@, match buf {
            Some(b) => Some(b@),
            None => None,
        }),
{
    if !has_pos {
        let mut s = String::from_str(kind);
        s.append(": ");
        s.append(msg);
        return s;
    }
    match buf {
        None => {
            let mut s = String::from_str(kind);
            s.append(": ");
            s.append(msg);
            s
        },
        Some(buf) => {
            let ghost p0 = pos@;
            let mut pos = pos;
            if !pos.finished {
                if pos.last {
                    pos = last(buf);
                } else {
                    pos = get_pos(buf, pos.start, pos.end);
                }
            }
            proof {
                assert(pos@ == spec_resolved(p0, buf@));
            }
            let scans = scan_file(buf);
            let line_scan = scans.0;
            proof {
                assert forall|k: int| 0 <= k < buf@.len() implies line_scan@[k] == line_table(
                    buf@,
                )[k] by {
                    lemma_line_col_bounds(buf@, k);
                }
                assert(line_scan@ =~= line_table(buf@));
            }
            let bounds = line_bounds(&line_scan, pos.line);
            let lo = bounds.0;
            let hi = bounds.1;
            proof {
                lemma_first_match(line_scan@, pos.line as int, 0);
                lemma_last_match(line_scan@, pos.line as int, line_scan@.len() as int);
                if exists|k: int| 0 <= k < line_scan@.len() && line_scan@[k] == pos.line {
                    let f = first_match(line_scan@, pos.line as int, 0);
                    let l = last_match(line_scan@, pos.line as int, line_scan@.len() as int);
                    assert(line_scan@[f] == pos.line);
                    assert(f <= l);
                }
            }
            let line = chars_between(buf, lo, hi);
            let mut s = String::from_str(kind);
            s.append(": ");
            s.append(msg);
            s.append(" at ");
            let ln = to_decimal(pos.line);
            let cl = to_decimal(pos.col);
            let mut rendered_pos = String::from_str("[Ln ");
            rendered_pos.append(ln.as_str());
            rendered_pos.append(", Cl ");
            rendered_pos.append(cl.as_str());
            rendered_pos.append("]");
            proof {
                assert(rendered_pos@ =~= render_pos(pos@));
            }
            s.append(rendered_pos.as_str());
            s.append("\n`");
            s.append(line.as_str());
            s.append("`\n");
            let spaces = repeat_byte(SPACE, if pos.col > 1 {
                pos.col
            } else {
                1
            });
            s.append(spaces.as_str());
            let markers = repeat_byte(CARET, if pos.end - pos.start > 1 {
                pos.end - pos.start
            } else {
                1
            });
            s.append(markers.as_str());
            proof {
                assert(s@ =~= render_snippet(kind@, msg@, pos@, buf@));
            }
            s
        },
    }
}

/// The uniform surface of every diagnostic: its kind name, its message, and
/// an optional position, with one shared rendering.
pub trait Error {
    /// The kind name the rendering prints.
    spec fn spec_type(&self) -> Seq<char>;

    /// The message the rendering prints.
    spec fn spec_error(&self) -> Seq<char>;

    /// The carried position; meaningful only when `spec_has_pos()`.
    spec fn spec_pos(&self) -> Position;

    /// Whether the diagnostic carries a position at all.
    spec fn spec_has_pos(&self) -> bool;

    fn get_type(&self) -> (r: &str)
        ensures
            r@ == self.spec_type(),
    ;

    fn get_error(&self) -> (r: &str)
        ensures
            r@ == self.spec_error(),
    ;

    fn get_pos(&self) -> (r: Position)
        ensures
            r == self.spec_pos(),
    ;

    fn has_pos(&self) -> (r: bool)
        ensures
            r == self.spec_has_pos(),
    ;

    /// The inclusive index range of the position's full source line in the
    /// line-number table: the maximal run of indices sharing its line
    /// number, or `0 ..= 0` when the line does not occur.
    fn get_line(&self, pos: Position, line_scan: Vec<usize>) -> (r: RangeInclusive<usize>)
        ensures
            r@.start as int == first_match(line_scan@, pos.line as int, 0),
            r@.end as int == last_match(line_scan@, pos.line as int, line_scan@.len() as int),
    {
        let bounds = line_bounds(&line_scan, pos.line);
        RangeInclusive::new(bounds.0, bounds.1)
    }

    /// Renders the diagnostic: `kind: message` when no position is known or
    /// no buffer is supplied, else the four-line snippet form, resolving
    /// the position against the buffer first if it still carries only
    /// offsets.
    fn as_str(&self, buf: Option<&[u8]>) -> (r: String)
        requires
            self.spec_has_pos() && buf is Some ==> buf->0@.len() > 0 && buf->0@.len() < usize::MAX
                && self.spec_pos().end >= self.spec_pos().start,
        ensures
            r@ == spec_render(
                self.spec_type(),
                self.spec_error(),
                self.spec_has_pos(),
                self.spec_pos()@,
                match buf {
                    Some(b) => Some(b@),
                    None => None,
                },
            ),
    {
        let has = self.has_pos();
        render_error(self.get_type(), self.get_error(), has, self.get_pos(), buf)
    }
}

/// A process-level precondition failure; never carries a position.
#[derive(Debug)]
pub struct FatalError {
    pub error: String,
}

impl Error for FatalError {
    open spec fn spec_type(&self) -> Seq<char> {
        "Fatal Error"@
    }

    open spec fn spec_error(&self) -> Seq<char> {
        self.error@
    }

    open spec fn spec_pos(&self) -> Position {
        Position { line: 0, col: 0, start: 0, end: 0, last: false, finished: true }
    }

    open spec fn spec_has_pos(&self) -> bool {
        false
    }

    fn get_type(&self) -> (r: &str) {
        "Fatal Error"
    }

    fn get_error(&self) -> (r: &str) {
        self.error.as_str()
    }

    fn get_pos(&self) -> (r: Position) {
        Position { line: 0, col: 0, start: 0, end: 0, last: false, finished: true }
    }

    fn has_pos(&self) -> (r: bool) {
        false
    }
}

/// An input/output failure; never carries a position.
#[derive(Debug)]
pub struct ReadError {
    pub error: String,
}

impl Error for ReadError {
    open spec fn spec_type(&self) -> Seq<char> {
        "Read Error"@
    }

    open spec fn spec_error(&self) -> Seq<char> {
        self.error@
    }

    open spec fn spec_pos(&self) -> Position {
        Position { line: 0, col: 0, start: 0, end: 0, last: false, finished: true }
    }

    open spec fn spec_has_pos(&self) -> bool {
        false
    }

    fn get_type(&self) -> (r: &str) {
        "Read Error"
    }

    fn get_error(&self) -> (r: &str) {
        self.error.as_str()
    }

    fn get_pos(&self) -> (r: Position) {
        Position { line: 0, col: 0, start: 0, end: 0, last: false, finished: true }
    }

    fn has_pos(&self) -> (r: bool) {
        false
    }
}

/// A lexical or grammatical violation, always positioned. The position may
/// still be unresolved: it is resolved against the buffer at rendering time.
#[derive(Debug)]
pub struct SyntaxError {
    pub error: String,
    pub pos: Position,
}

impl Error for SyntaxError {
    open spec fn spec_type(&self) -> Seq<char> {
        "Syntax Error"@
    }

    open spec fn spec_error(&self) -> Seq<char> {
        self.error@
    }

    open spec fn spec_pos(&self) -> Position {
        self.pos
    }

    open spec fn spec_has_pos(&self) -> bool {
        true
    }

    fn get_type(&self) -> (r: &str) {
        "Syntax Error"
    }

    fn get_error(&self) -> (r: &str) {
        self.error.as_str()
    }

    fn get_pos(&self) -> (r: Position) {
        self.pos
    }

    fn has_pos(&self) -> (r: bool) {
        true
    }
}

impl SyntaxError {
    /// Builds a syntax error in one of two modes. Without a buffer the
    /// position stays unresolved: it keeps only the offsets, or just the
    /// end-of-input flag when `last` is set. With a buffer at hand the line
    /// and column are resolved eagerly at the start offset.
    pub fn create(
        data: String,
        start: Option<usize>,
        end: Option<usize>,
        last: bool,
        buf: Option<&[u8]>,
    ) -> (e: SyntaxError)
        requires
            !last ==> start is Some && end is Some,
            buf is Some ==> start is Some && end is Some,
            buf is Some ==> start->0 < buf->0@.len() && buf->0@.len() < usize::MAX,
        ensures
            e.error == data,
            buf is None ==> e.pos == (Position {
                line: 0,
                col: 0,
                start: if last {
                    0
                } else {
                    start->0
                },
                end: if last {
                    0
                } else {
                    end->0
                },
                last: last,
                finished: false,
            }),
            buf is Some ==> {
                &&& e.pos.line == line_at(buf->0@, start->0 as int)
                &&& e.pos.col == col_at(buf->0@, start->0 as int)
                &&& e.pos.start == start->0
                &&& e.pos.end == end->0
                &&& e.pos.last == last
                &&& e.pos.finished
            },
    {
        match buf {
            None => SyntaxError {
                error: data,
                pos: Position {
                    line: 0,
                    col: 0,
                    start: if last {
                        0
                    } else {
                        start.unwrap()
                    },
                    end: if last {
                        0
                    } else {
                        end.unwrap()
                    },
                    last: last,
                    finished: false,
                },
            },
            Some(buf) => {
                let scans = scan_file(buf);
                SyntaxError {
                    error: data,
                    pos: Position {
                        line: scans.0[start.unwrap()],
                        col: scans.1[start.unwrap()],
                        start: start.unwrap(),
                        end: end.unwrap(),
                        last: last,
                        finished: true,
                    },
                }
            },
        }
    }
}

} // verus!
