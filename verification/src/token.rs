//! Tokenizer: scans the byte buffer once, left to right, skipping
//! whitespace, recognizing parentheses, the lambda-introducer keyword (two
//! spellings), and maximal runs of other non-whitespace non-parenthesis
//! bytes as identifiers.

use vstd::prelude::*;
use vstd::string::StringExecFns;
use crate::error::SyntaxError;
use crate::position::{Position, PosModel, get_pos, resolved_pos_model, NEWLINE};
use crate::utils::push_byte;

verus! {

/// The space byte, `' '`.
pub const SPACE: u8 = 32;

/// The tab byte, `'\t'`.
pub const TAB: u8 = 9;

/// The opening parenthesis byte, `'('`.
pub const LPAREN: u8 = 40;

/// The closing parenthesis byte, `')'`.
pub const RPAREN: u8 = 41;

/// The backslash byte, `'\\'`, the one-character lambda introducer.
pub const BACKSLASH: u8 = 92;

/// The kind of a token.
#[derive(Debug, Clone, Copy, PartialEq, Eq, Structural)]
pub enum TokenType {
    Identifier,
    Keyword,
    Parenthesis,
}

/// A positioned lexeme. Immutable once produced: tokens are created once by
/// the tokenizer and only read by the parser.
#[derive(Debug)]
pub struct Token {
    pub class: TokenType,
    pub data: String,
    pub pos: Position,
}

impl Clone for Token {
    fn clone(&self) -> (r: Self)
        ensures
            r == *self,
    {
        Token { class: self.class, data: self.data.clone(), pos: self.pos }
    }
}

/// Mathematical image of a `Token`: its kind, its text as a character
/// sequence, and its position.
pub struct TokenModel {
    pub class: TokenType,
    pub text: Seq<char>,
    pub pos: PosModel,
}

impl View for Token {
    type V = TokenModel;

    open spec fn view(&self) -> TokenModel {
        TokenModel { class: self.class, text: self.data@, pos: self.pos@ }
    }
}

/// Whitespace bytes are skipped between tokens.
pub open spec fn is_space(b: u8) -> bool {
    b == SPACE || b == TAB || b == NEWLINE
}

/// Parenthesis bytes each form a one-byte token.
pub open spec fn is_paren(b: u8) -> bool {
    b == LPAREN || b == RPAREN
}

/// Every byte that is neither whitespace nor a parenthesis may continue an
/// identifier run (a backslash may continue one, though it never starts one).
pub open spec fn is_id_byte(b: u8) -> bool {
    !is_space(b) && !is_paren(b)
}

/// Bytes reinterpreted one-for-one as characters.
pub open spec fn chars_of(bytes: Seq<u8>) -> Seq<char> {
    bytes.map_values(|b: u8| b as char)
}

/// First index at or after `i` that is out of bounds or ends an identifier
/// run.
pub open spec fn id_end(buf: Seq<u8>, i: int) -> int
    decreases buf.len() - i,
    when i >= 0
{
    if i >= buf.len() || !is_id_byte(buf[i]) {
        i
    } else {
        id_end(buf, i + 1)
    }
}

/// `id_end` stays within `[i, len]`, everything before it from `i` on is
/// identifier material, and it stops exactly at the first non-identifier
/// byte.
pub proof fn lemma_id_end(buf: Seq<u8>, i: int)
    requires
        0 <= i <= buf.len(),
    ensures
        i <= id_end(buf, i) <= buf.len(),
        forall|j: int| i <= j < id_end(buf, i) ==> is_id_byte(buf[j]),
        id_end(buf, i) == buf.len() || !is_id_byte(buf[id_end(buf, i)]),
    decreases buf.len() - i,
{
    if i < buf.len() && is_id_byte(buf[i]) {
        lemma_id_end(buf, i + 1);
    }
}

/// The one-byte parenthesis token at offset `i`.
pub open spec fn paren_token(buf: Seq<u8>, i: int) -> TokenModel {
    TokenModel {
        class: TokenType::Parenthesis,
        text: seq![buf[i] as char],
        pos: resolved_pos_model(buf, i, i + 1),
    }
}

/// The one-byte backslash keyword token at offset `i`.
pub open spec fn backslash_token(buf: Seq<u8>, i: int) -> TokenModel {
    TokenModel {
        class: TokenType::Keyword,
        text: seq![BACKSLASH as char],
        pos: resolved_pos_model(buf, i, i + 1),
    }
}

/// The text of the identifier run starting at offset `i`.
pub open spec fn ident_text(buf: Seq<u8>, i: int) -> Seq<char> {
    chars_of(buf.subrange(i, id_end(buf, i)))
}

/// The identifier-or-keyword token whose run starts at offset `i`. Its kind
/// is decided by exact text match against the reserved word `fn`; its stored
/// end offset is the index of the run's last byte.
pub open spec fn ident_token(buf: Seq<u8>, i: int) -> TokenModel {
    TokenModel {
        class: if ident_text(buf, i) == "fn"@ {
            TokenType::Keyword
        } else {
            TokenType::Identifier
        },
        text: ident_text(buf, i),
        pos: resolved_pos_model(buf, i, id_end(buf, i) - 1),
    }
}

/// The token stream of the buffer from offset `i` on.
pub open spec fn spec_tokenize(buf: Seq<u8>, i: int) -> Seq<TokenModel>
    decreases buf.len() - i,
    when i >= 0
    via spec_tokenize_decreases
{
    if i >= buf.len() {
        Seq::empty()
    } else if is_space(buf[i]) {
        spec_tokenize(buf, i + 1)
    } else if is_paren(buf[i]) {
        seq![paren_token(buf, i)] + spec_tokenize(buf, i + 1)
    } else if buf[i] == BACKSLASH {
        seq![backslash_token(buf, i)] + spec_tokenize(buf, i + 1)
    } else {
        seq![ident_token(buf, i)] + spec_tokenize(buf, id_end(buf, i))
    }
}

#[via_fn]
proof fn spec_tokenize_decreases(buf: Seq<u8>, i: int) {
    if 0 <= i < buf.len() {
        lemma_id_end(buf, i);
    }
}

/// The views of a token vector.
pub open spec fn models(ts: Seq<Token>) -> Seq<TokenModel> {
    ts.map_values(|t: Token| t@)
}

/// One past the last byte of the token's source span.
pub open spec fn span_end(t: TokenModel) -> int {
    t.pos.start + t.text.len()
}

/// The token's text is exactly the bytes of its span, which lies inside the
/// buffer and is never empty.
pub open spec fn token_covers(buf: Seq<u8>, t: TokenModel) -> bool {
    &&& 0 <= t.pos.start
    &&& span_end(t) <= buf.len()
    &&& t.text.len() > 0
    &&& t.text == chars_of(buf.subrange(t.pos.start, span_end(t)))
}

/// Whether byte `j` lies inside some token's span.
pub open spec fn covered(ts: Seq<TokenModel>, j: int) -> bool {
    exists|k: int| 0 <= k < ts.len() && (#[trigger] ts[k]).pos.start <= j < span_end(ts[k])
}

#[verifier::rlimit(100)]
proof fn lemma_spans_from(buf: Seq<u8>, i: int)
    requires
        0 <= i <= buf.len(),
    ensures
        ({
            let ts = spec_tokenize(buf, i);
            &&& forall|k: int|
                0 <= k < ts.len() ==> token_covers(buf, #[trigger] ts[k]) && i <= ts[k].pos.start
            &&& forall|k: int| 0 <= k < ts.len() - 1 ==> span_end(#[trigger] ts[k]) <= ts[k
                + 1].pos.start
        }),
    decreases buf.len() - i,
{
    let ts = spec_tokenize(buf, i);
    if i == buf.len() {
    } else if is_space(buf[i]) {
        lemma_spans_from(buf, i + 1);
    } else {
        let e = if is_paren(buf[i]) || buf[i] == BACKSLASH {
            i + 1
        } else {
            id_end(buf, i)
        };
        let t = if is_paren(buf[i]) {
            paren_token(buf, i)
        } else if buf[i] == BACKSLASH {
            backslash_token(buf, i)
        } else {
            ident_token(buf, i)
        };
        if !is_paren(buf[i]) && buf[i] != BACKSLASH {
            lemma_id_end(buf, i);
        }
        lemma_spans_from(buf, e);
        let rest = spec_tokenize(buf, e);
        assert(ts == seq![t] + rest);
        assert(t.pos.start == i && span_end(t) == e && token_covers(buf, t)) by {
            if is_paren(buf[i]) || buf[i] == BACKSLASH {
                assert(t.text =~= seq![buf[i] as char]);
                assert(t.text =~= chars_of(buf.subrange(i, i + 1)));
            }
        }
        assert forall|k: int| 0 <= k < ts.len() implies token_covers(buf, #[trigger] ts[k]) && i
            <= ts[k].pos.start by {
            if k > 0 {
                assert(ts[k] == rest[k - 1]);
            }
        }
        assert forall|k: int| 0 <= k < ts.len() - 1 implies span_end(#[trigger] ts[k]) <= ts[k
            + 1].pos.start by {
            if k > 0 {
                assert(ts[k] == rest[k - 1]);
                assert(ts[k + 1] == rest[k]);
            } else {
                assert(ts[1] == rest[0]);
            }
        }
    }
}

proof fn lemma_covered_shift(head: TokenModel, rest: Seq<TokenModel>, j: int)
    ensures
        covered(seq![head] + rest, j) <==> ((head.pos.start <= j < span_end(head)) || covered(
            rest,
            j,
        )),
{
    let ts = seq![head] + rest;
    if covered(ts, j) {
        let k = choose|k: int|
            0 <= k < ts.len() && (#[trigger] ts[k]).pos.start <= j < span_end(ts[k]);
        if k > 0 {
            assert(ts[k] == rest[k - 1]);
            assert(covered(rest, j));
        }
    }
    if covered(rest, j) {
        let k = choose|k: int|
            0 <= k < rest.len() && (#[trigger] rest[k]).pos.start <= j < span_end(rest[k]);
        assert(ts[k + 1] == rest[k]);
        assert(covered(ts, j));
    }
    if head.pos.start <= j < span_end(head) {
        assert(ts[0] == head);
        assert(covered(ts, j));
    }
}

#[verifier::rlimit(100)]
proof fn lemma_coverage_at(buf: Seq<u8>, i: int, j: int)
    requires
        0 <= i <= j < buf.len(),
    ensures
        is_space(buf[j]) <==> !covered(spec_tokenize(buf, i), j),
    decreases j - i,
{
    let ts = spec_tokenize(buf, i);
    if is_space(buf[i]) {
        if j == i {
            lemma_spans_from(buf, i + 1);
            assert(!covered(ts, j)) by {
                assert(forall|k: int| 0 <= k < ts.len() ==> i + 1 <= (#[trigger] ts[k]).pos.start);
            }
        } else {
            lemma_coverage_at(buf, i + 1, j);
        }
    } else {
        let e = if is_paren(buf[i]) || buf[i] == BACKSLASH {
            i + 1
        } else {
            id_end(buf, i)
        };
        let t = if is_paren(buf[i]) {
            paren_token(buf, i)
        } else if buf[i] == BACKSLASH {
            backslash_token(buf, i)
        } else {
            ident_token(buf, i)
        };
        if !is_paren(buf[i]) && buf[i] != BACKSLASH {
            lemma_id_end(buf, i);
        }
        let rest = spec_tokenize(buf, e);
        assert(ts == seq![t] + rest);
        assert(t.pos.start == i && span_end(t) == e) by {
            if is_paren(buf[i]) || buf[i] == BACKSLASH {
                assert(t.text =~= seq![buf[i] as char]);
            }
        }
        lemma_covered_shift(t, rest, j);
        if j < e {
            assert(covered(ts, j));
            assert(!is_space(buf[j]));
        } else {
            lemma_coverage_at(buf, e, j);
        }
    }
}

/// Tokens are produced in strict source order: their spans do not overlap,
/// each token's text is exactly the bytes of its span, and a byte lies
/// outside every span exactly when it is whitespace — so re-concatenating
/// the spans in order reproduces the buffer minus the skipped whitespace.
#[verifier::rlimit(100)]
pub proof fn lemma_tokens_cover(buf: Seq<u8>)
    ensures
        ({
            let ts = spec_tokenize(buf, 0);
            &&& forall|k: int| 0 <= k < ts.len() ==> token_covers(buf, #[trigger] ts[k])
            &&& forall|k: int| 0 <= k < ts.len() - 1 ==> span_end(#[trigger] ts[k]) <= ts[k
                + 1].pos.start
            &&& forall|j: int| 0 <= j < buf.len() ==> (is_space(#[trigger] buf[j]) <==> !covered(
                ts,
                j,
            ))
        }),
{
    lemma_spans_from(buf, 0);
    assert forall|j: int| 0 <= j < buf.len() implies (is_space(#[trigger] buf[j]) <==> !covered(
        spec_tokenize(buf, 0),
        j,
    )) by {
        lemma_coverage_at(buf, 0, j);
    }
}

/// Scans the buffer into its token stream. The grammar has no illegal
/// character class, so the scan never fails; the `Result` keeps room for
/// future lexical restrictions.
pub fn tokenize(buf: &[u8]) -> (r: Result<Vec<Token>, SyntaxError>)
    requires
        buf@.len() < usize::MAX,
    ensures
        r is Ok,
        models(r->Ok_0@) == spec_tokenize(buf@, 0),
        r->Ok_0@.len() <= buf@.len(),
{
    let mut tokens: Vec<Token> = Vec::new();
    let mut i: usize = 0;
    while i < buf.len()
        invariant
            buf@.len() < usize::MAX,
            i <= buf@.len(),
            tokens@.len() <= i,
            spec_tokenize(buf@, 0) == models(tokens@) + spec_tokenize(buf@, i as int),
        decreases buf@.len() - i,
    {
        let b = buf[i];
        let ghost pre = tokens@;
        if b == SPACE || b == TAB || b == NEWLINE {
            // whitespace: no token
        } else if b == LPAREN || b == RPAREN {
            let mut data = String::new();
            push_byte(&mut data, b);
            let t = Token { class: TokenType::Parenthesis, data: data, pos: get_pos(buf, i, i + 1) };
            proof {
                assert(t@.text =~= paren_token(buf@, i as int).text);
                assert(t@ == paren_token(buf@, i as int));
            }
            tokens.push(t);
            proof {
                assert(models(tokens@) =~= models(pre) + seq![paren_token(buf@, i as int)]);
                assert(models(tokens@) + spec_tokenize(buf@, i + 1) =~= models(pre)
                    + spec_tokenize(buf@, i as int));
            }
        } else if b == BACKSLASH {
            let mut data = String::new();
            push_byte(&mut data, b);
            let t = Token { class: TokenType::Keyword, data: data, pos: get_pos(buf, i, i + 1) };
            proof {
                assert(t@.text =~= backslash_token(buf@, i as int).text);
                assert(t@ == backslash_token(buf@, i as int));
            }
            tokens.push(t);
            proof {
                assert(models(tokens@) =~= models(pre) + seq![backslash_token(buf@, i as int)]);
                assert(models(tokens@) + spec_tokenize(buf@, i + 1) =~= models(pre)
                    + spec_tokenize(buf@, i as int));
            }
        } else {
            let ghost i0 = i as int;
            let t = create_id(buf, &mut i);
            tokens.push(t);
            proof {
                lemma_id_end(buf@, i0);
                assert(models(tokens@) =~= models(pre) + seq![ident_token(buf@, i0)]);
                assert(models(tokens@) + spec_tokenize(buf@, id_end(buf@, i0)) =~= models(pre)
                    + spec_tokenize(buf@, i0));
            }
        }
        i = i + 1;
    }
    proof {
        assert(models(tokens@) + spec_tokenize(buf@, i as int) =~= models(tokens@));
    }
    Ok(tokens)
}

/// Scans the maximal identifier run starting at the cursor. The collected
/// run becomes a keyword token when it exactly matches the reserved word
/// `fn`, else an identifier token. The cursor is left on the run's last
/// byte (the caller advances it past the run).
fn create_id(buf: &[u8], i: &mut usize) -> (t: Token)
    requires
        buf@.len() < usize::MAX,
        *old(i) < buf@.len(),
        is_id_byte(buf@[*old(i) as int]),
    ensures
        *final(i) == id_end(buf@, *old(i) as int) - 1,
        t@ == ident_token(buf@, *old(i) as int),
{
    let start = *i;
    let mut id = String::new();
    proof {
        lemma_id_end(buf@, start as int);
        assert(buf@.subrange(start as int, start as int) =~= Seq::<u8>::empty());
        assert(id@ =~= chars_of(buf@.subrange(start as int, start as int)));
    }
    while *i < buf.len() && !(buf[*i] == SPACE || buf[*i] == TAB || buf[*i] == NEWLINE || buf[*i]
        == LPAREN || buf[*i] == RPAREN)
        invariant
            buf@.len() < usize::MAX,
            start <= *i <= buf@.len(),
            id_end(buf@, start as int) == id_end(buf@, *i as int),
            forall|j: int| start <= j < *i ==> is_id_byte(buf@[j]),
            id@ == chars_of(buf@.subrange(start as int, *i as int)),
        decreases buf@.len() - *i,
    {
        let ghost i0 = *i as int;
        push_byte(&mut id, buf[*i]);
        proof {
            assert(buf@.subrange(start as int, i0 + 1) =~= buf@.subrange(start as int, i0).push(
                buf@[i0],
            ));
            assert(chars_of(buf@.subrange(start as int, i0 + 1)) =~= chars_of(
                buf@.subrange(start as int, i0),
            ).push(buf@[i0] as char));
        }
        *i = *i + 1;
    }
    proof {
        assert(id_end(buf@, *i as int) == *i as int);
        assert(id_end(buf@, start as int) > start as int);
    }
    *i = *i - 1;
    let kw_fn = String::from_str("fn");
    let pos = get_pos(buf, start, *i);
    proof {
        assert(pos@ == resolved_pos_model(buf@, start as int, id_end(buf@, start as int) - 1));
    }
    if id == kw_fn {
        Token { class: TokenType::Keyword, data: id, pos: pos }
    } else {
        Token { class: TokenType::Identifier, data: id, pos: pos }
    }
}

} // verus!
