//! Recursive-descent, predictive parser over the token sequence. It builds
//! a tree of four node kinds using one token of lookahead and the current
//! parenthesis-nesting depth threaded through recursion. Juxtaposition is
//! application and folds to the left; an abstraction body extends maximally
//! to the right.

use vstd::prelude::*;
use vstd::string::StringExecFns;
use crate::error::SyntaxError;
use crate::position::{Position, PosModel};
use crate::token::{Token, TokenType, TokenModel, models};

verus! {

/// The kind of a parse-tree node. `End` is the sentinel meaning "no
/// expression here": produced at end of input at nesting level zero, or
/// upon consuming a closing parenthesis, and used purely as a parse-time
/// control signal — it never appears inside a returned tree.
#[derive(Debug, Clone, Copy, PartialEq, Eq, Structural)]
pub enum NodeType {
    Abstraction,
    Application,
    End,
    Variable,
}

/// A parse-tree node. `data` holds the identifier text for variables and
/// the bound name for abstractions; `token` is the token that introduced
/// the node; `nodes` are the children, owned top-down.
#[derive(Debug)]
pub struct Node {
    pub class: NodeType,
    pub data: String,
    pub token: Token,
    pub nodes: Vec<Node>,
}

/// Mathematical image of a parse tree.
pub enum AstModel {
    End { tok: TokenModel },
    Variable { name: Seq<char>, tok: TokenModel },
    Abstraction { name: Seq<char>, body: Box<AstModel>, tok: TokenModel },
    Application { func: Box<AstModel>, arg: Box<AstModel>, tok: TokenModel },
}

/// The token that introduced a modelled node.
pub open spec fn ast_token(m: AstModel) -> TokenModel {
    match m {
        AstModel::End { tok } => tok,
        AstModel::Variable { tok, .. } => tok,
        AstModel::Abstraction { tok, .. } => tok,
        AstModel::Application { tok, .. } => tok,
    }
}

/// The text payload of a modelled node: the variable's name or the
/// abstraction's bound name, empty for the other kinds.
pub open spec fn ast_name(m: AstModel) -> Seq<char> {
    match m {
        AstModel::Variable { name, .. } => name,
        AstModel::Abstraction { name, .. } => name,
        _ => Seq::empty(),
    }
}

/// Whether the executable node `n` is shaped exactly as the model `m` says:
/// same kind, payload, introducing token, and children, recursively.
pub open spec fn node_models(n: Node, m: AstModel) -> bool
    decreases m,
{
    &&& n.data@ == ast_name(m)
    &&& n.token@ == ast_token(m)
    &&& match m {
        AstModel::End { .. } => n.class == NodeType::End && n.nodes@.len() == 0,
        AstModel::Variable { .. } => n.class == NodeType::Variable && n.nodes@.len() == 0,
        AstModel::Abstraction { body, .. } => n.class == NodeType::Abstraction && n.nodes@.len()
            == 1 && node_models(n.nodes@[0], *body),
        AstModel::Application { func, arg, .. } => n.class == NodeType::Application
            && n.nodes@.len() == 2 && node_models(n.nodes@[0], *func) && node_models(
            n.nodes@[1],
            *arg,
        ),
    }
}

/// What one parsing step yields: a tree together with the cursor and the
/// nesting depth after it, or a positioned failure.
pub enum ParseOut {
    Tree { ast: AstModel, next: int, depth: int },
    Fail { msg: Seq<char>, pos: PosModel },
}

/// The synthetic token carried by the end-of-input sentinel node.
pub open spec fn eof_token() -> TokenModel {
    TokenModel { class: TokenType::Keyword, text: Seq::empty(), pos: eof_pos() }
}

/// The unresolved position that deferred end-of-input errors carry.
pub open spec fn eof_pos() -> PosModel {
    PosModel { line: 0, col: 0, start: 0, end: 0, last: true, finished: false }
}

/// Cursor after a successful sub-parse, clamped into `[i + 1, ts.len()]`.
/// Every realized sub-parse that yields an atom consumes at least one token
/// and never runs past the end, so the clamp never bites; it keeps the
/// recursion measure visibly decreasing.
pub open spec fn advanced(ts: Seq<TokenModel>, i: int, next: int) -> int {
    if next <= i {
        i + 1
    } else if next > ts.len() {
        ts.len() as int
    } else {
        next
    }
}

/// One expression at cursor `i`: an atom, then — outside argument
/// position — a left fold of further atoms into application nodes. The end
/// sentinel is exempt from the fold: it is a control signal, not a tree,
/// and is handed back directly so that it can never be wrapped as the
/// child of an application node.
pub open spec fn spec_parse_expr(ts: Seq<TokenModel>, i: int, is_arg: bool, level: int) -> ParseOut
    decreases ts.len() - i, (if is_arg { 1int } else { 3int }),
    when 0 <= i <= ts.len()
{
    if i >= ts.len() {
        if level != 0 {
            ParseOut::Fail { msg: "expected ending parenthesis"@, pos: eof_pos() }
        } else {
            ParseOut::Tree { ast: AstModel::End { tok: eof_token() }, next: i, depth: level }
        }
    } else {
        let atom = match ts[i].class {
            TokenType::Identifier => ParseOut::Tree {
                ast: AstModel::Variable { name: ts[i].text, tok: ts[i] },
                next: i + 1,
                depth: level,
            },
            TokenType::Parenthesis => spec_parse_par(ts, i, level),
            TokenType::Keyword => spec_parse_sym(ts, i, level),
        };
        if !is_arg {
            match atom {
                ParseOut::Tree { ast, next, depth } => {
                    if ast is End {
                        ParseOut::Tree { ast, next, depth }
                    } else {
                        spec_parse_args(ts, advanced(ts, i, next), ast, depth)
                    }
                },
                ParseOut::Fail { msg, pos } => ParseOut::Fail { msg, pos },
            }
        } else {
            atom
        }
    }
}

/// The argument fold: parse atoms in argument position and fold each onto
/// the accumulated tree as an application node, stopping at the end
/// sentinel, which is discarded.
pub open spec fn spec_parse_args(ts: Seq<TokenModel>, i: int, acc: AstModel, level: int) -> ParseOut
    decreases ts.len() - i, 2int,
    when 0 <= i <= ts.len()
{
    if i >= ts.len() {
        // an atom in argument position at end of input: the end sentinel
        // stops the fold, unless a parenthesis is still open
        if level != 0 {
            ParseOut::Fail { msg: "expected ending parenthesis"@, pos: eof_pos() }
        } else {
            ParseOut::Tree { ast: acc, next: i, depth: level }
        }
    } else {
        match spec_parse_expr(ts, i, true, level) {
            ParseOut::Tree { ast, next, depth } => {
                if ast is End {
                    ParseOut::Tree { ast: acc, next, depth }
                } else {
                    spec_parse_args(
                        ts,
                        advanced(ts, i, next),
                        AstModel::Application {
                            func: Box::new(acc),
                            arg: Box::new(ast),
                            tok: ast_token(ast),
                        },
                        depth,
                    )
                }
            },
            ParseOut::Fail { msg, pos } => ParseOut::Fail { msg, pos },
        }
    }
}

/// A parenthesis token: `(` opens a nested full expression, which must not
/// be empty; `)` closes one level, failing when none is open, and yields
/// the end sentinel to signal closure to the enclosing call.
pub open spec fn spec_parse_par(ts: Seq<TokenModel>, i: int, level: int) -> ParseOut
    decreases ts.len() - i, 0int,
    when 0 <= i < ts.len()
{
    if ts[i].text == "("@ {
        match spec_parse_expr(ts, i + 1, false, level + 1) {
            ParseOut::Tree { ast, next, depth } => {
                if ast is End {
                    ParseOut::Fail {
                        msg: "no expression inside parentheses"@,
                        pos: ast_token(ast).pos,
                    }
                } else {
                    ParseOut::Tree { ast, next, depth }
                }
            },
            ParseOut::Fail { msg, pos } => ParseOut::Fail { msg, pos },
        }
    } else {
        if level == 0 {
            ParseOut::Fail { msg: "ending parentheses before starting them"@, pos: ts[i].pos }
        } else {
            ParseOut::Tree {
                ast: AstModel::End { tok: ts[i] },
                next: i + 1,
                depth: level - 1,
            }
        }
    }
}

/// The bound name after a lambda introducer: exactly one identifier token,
/// with distinct failures for end-of-input and for a wrong token kind.
pub open spec fn spec_parse_def(ts: Seq<TokenModel>, i: int, level: int) -> ParseOut {
    if i >= ts.len() {
        if level != 0 {
            ParseOut::Fail { msg: "no ending to parentheses"@, pos: eof_pos() }
        } else {
            ParseOut::Fail { msg: "expected name in definition"@, pos: eof_pos() }
        }
    } else if ts[i].class is Identifier {
        ParseOut::Tree {
            ast: AstModel::Variable { name: ts[i].text, tok: ts[i] },
            next: i + 1,
            depth: level,
        }
    } else {
        ParseOut::Fail { msg: "expexted name in definition"@, pos: ts[i].pos }
    }
}

/// A keyword token: one of the two lambda-introducer spellings, then the
/// bound name, then the body, which extends maximally to the right and must
/// not be empty.
pub open spec fn spec_parse_sym(ts: Seq<TokenModel>, i: int, level: int) -> ParseOut
    decreases ts.len() - i, 0int,
    when 0 <= i < ts.len()
{
    if ts[i].text == "\\"@ || ts[i].text == "fn"@ {
        match spec_parse_def(ts, i + 1, level) {
            ParseOut::Tree { ast: var, .. } => match spec_parse_expr(ts, i + 2, false, level) {
                ParseOut::Tree { ast: body, next, depth } => {
                    if body is End {
                        ParseOut::Fail {
                            msg: "expected body to abstraction"@,
                            pos: ast_token(body).pos,
                        }
                    } else {
                        ParseOut::Tree {
                            ast: AstModel::Abstraction {
                                name: ast_name(var),
                                body: Box::new(body),
                                tok: ts[i],
                            },
                            next,
                            depth,
                        }
                    }
                },
                ParseOut::Fail { msg, pos } => ParseOut::Fail { msg, pos },
            },
            ParseOut::Fail { msg, pos } => ParseOut::Fail { msg, pos },
        }
    } else {
        ParseOut::Fail { msg: "invalid symbol"@, pos: ts[i].pos }
    }
}

/// The tree of a successful parsing step; meaningful only under `o is Tree`.
pub open spec fn out_ast(o: ParseOut) -> AstModel {
    match o {
        ParseOut::Tree { ast, .. } => ast,
        ParseOut::Fail { .. } => AstModel::End { tok: eof_token() },
    }
}

/// Whether the executable outcome — result, cursor, nesting depth — is the
/// one the specification parser prescribes.
pub open spec fn parse_out_matches(
    r: Result<Node, SyntaxError>,
    next_i: int,
    next_level: int,
    out: ParseOut,
) -> bool {
    match out {
        ParseOut::Tree { ast, next, depth } => {
            &&& r matches Ok(n) && node_models(n, ast)
            &&& next_i == next
            &&& next_level == depth
        },
        ParseOut::Fail { msg, pos } => {
            &&& r matches Err(e) && e.error@ == msg && e.pos@ == pos
        },
    }
}

/// The cursor after a successful parsing step; meaningful only under
/// `o is Tree`.
pub open spec fn out_next(o: ParseOut) -> int {
    match o {
        ParseOut::Tree { next, .. } => next,
        ParseOut::Fail { .. } => 0,
    }
}

/// The nesting depth after a successful parsing step; meaningful only under
/// `o is Tree`.
pub open spec fn out_depth(o: ParseOut) -> int {
    match o {
        ParseOut::Tree { depth, .. } => depth,
        ParseOut::Fail { .. } => 0,
    }
}

/// Whether a modelled tree contains no end-sentinel node anywhere.
pub open spec fn end_free(m: AstModel) -> bool
    decreases m,
{
    match m {
        AstModel::End { .. } => false,
        AstModel::Variable { .. } => true,
        AstModel::Abstraction { body, .. } => end_free(*body),
        AstModel::Application { func, arg, .. } => end_free(*func) && end_free(*arg),
    }
}

/// The end sentinel is a parse-time control signal only: whenever a parse
/// yields a tree, that tree is either the bare sentinel itself (empty
/// input, or a closed group handed up to the enclosing call) or contains
/// no end node anywhere — root, child, or deeper. Since `parse_expr`'s
/// contract ties the executable tree to the model node for node, the same
/// holds of every `Node` the parser returns.
pub proof fn lemma_sentinel_never_in_tree(ts: Seq<TokenModel>, i: int, is_arg: bool, level: int)
    requires
        0 <= i <= ts.len(),
    ensures
        ({
            let o = spec_parse_expr(ts, i, is_arg, level);
            o is Tree ==> out_ast(o) is End || end_free(out_ast(o))
        }),
    decreases ts.len() - i, (if is_arg { 1int } else { 3int }),
{
    if i < ts.len() {
        match ts[i].class {
            TokenType::Identifier => {
            },
            TokenType::Parenthesis => {
                lemma_par_end_free(ts, i, level);
            },
            TokenType::Keyword => {
                lemma_sym_end_free(ts, i, level);
            },
        }
        if !is_arg {
            let atom = spec_parse_expr(ts, i, true, level);
            if atom is Tree && !(out_ast(atom) is End) {
                lemma_args_end_free(ts, advanced(ts, i, out_next(atom)), out_ast(atom), out_depth(atom));
            }
        }
    }
}

proof fn lemma_args_end_free(ts: Seq<TokenModel>, i: int, acc: AstModel, level: int)
    requires
        0 <= i <= ts.len(),
        end_free(acc),
    ensures
        ({
            let o = spec_parse_args(ts, i, acc, level);
            o is Tree ==> end_free(out_ast(o))
        }),
    decreases ts.len() - i, 2int,
{
    if i < ts.len() {
        lemma_sentinel_never_in_tree(ts, i, true, level);
        let atom = spec_parse_expr(ts, i, true, level);
        if atom is Tree && !(out_ast(atom) is End) {
            let app = AstModel::Application {
                func: Box::new(acc),
                arg: Box::new(out_ast(atom)),
                tok: ast_token(out_ast(atom)),
            };
            lemma_args_end_free(ts, advanced(ts, i, out_next(atom)), app, out_depth(atom));
        }
    }
}

proof fn lemma_par_end_free(ts: Seq<TokenModel>, i: int, level: int)
    requires
        0 <= i < ts.len(),
    ensures
        ({
            let o = spec_parse_par(ts, i, level);
            o is Tree ==> out_ast(o) is End || end_free(out_ast(o))
        }),
    decreases ts.len() - i, 0int,
{
    if ts[i].text == "("@ {
        lemma_sentinel_never_in_tree(ts, i + 1, false, level + 1);
    }
}

proof fn lemma_sym_end_free(ts: Seq<TokenModel>, i: int, level: int)
    requires
        0 <= i < ts.len(),
    ensures
        ({
            let o = spec_parse_sym(ts, i, level);
            o is Tree ==> end_free(out_ast(o))
        }),
    decreases ts.len() - i, 0int,
{
    if ts[i].text == "\\"@ || ts[i].text == "fn"@ {
        if spec_parse_def(ts, i + 1, level) is Tree {
            lemma_sentinel_never_in_tree(ts, i + 2, false, level);
        }
    }
}


/// A certificate that one atom stands at a cursor: a single identifier, a
/// parenthesized non-empty expression, or a lambda introducer with its
/// bound name and non-empty body. Groups and lambda bodies carry the
/// cursor/depth pair between their leading atom and the argument fold that
/// follows it.
pub enum AtomCert {
    Leaf,
    Grp { inner: Box<AtomCert>, m1: int, l1: int, rest: Box<FoldCert> },
    Lam { body: Box<AtomCert>, mb: int, lb: int, rest: Box<FoldCert> },
}

/// A certificate for the argument fold from a cursor on: it stops at end
/// of input with no parenthesis open, stops by consuming a closing
/// parenthesis, or folds one more atom and goes on.
pub enum FoldCert {
    AtEnd,
    AtClose,
    Step { atom: Box<AtomCert>, m: int, l2: int, rest: Box<FoldCert> },
}

/// Whether the atom certificate fits `ts` at cursor `i`, depth `level`,
/// with the atom ending at cursor `m`, depth `l2`.
pub open spec fn atom_cert_ok(
    ts: Seq<TokenModel>,
    i: int,
    level: int,
    c: AtomCert,
    m: int,
    l2: int,
) -> bool
    decreases c,
{
    match c {
        AtomCert::Leaf => 0 <= i < ts.len() && ts[i].class is Identifier && m == i + 1 && l2
            == level,
        AtomCert::Grp { inner, m1, l1, rest } => {
            &&& 0 <= i < ts.len()
            &&& ts[i].class is Parenthesis
            &&& ts[i].text == "("@
            &&& atom_cert_ok(ts, i + 1, level + 1, *inner, m1, l1)
            &&& fold_cert_ok(ts, m1, l1, *rest, m, l2)
        },
        AtomCert::Lam { body, mb, lb, rest } => {
            &&& 0 <= i && i + 1 < ts.len()
            &&& ts[i].class is Keyword
            &&& (ts[i].text == "\\"@ || ts[i].text == "fn"@)
            &&& ts[i + 1].class is Identifier
            &&& atom_cert_ok(ts, i + 2, level, *body, mb, lb)
            &&& fold_cert_ok(ts, mb, lb, *rest, m, l2)
        },
    }
}

/// Whether the fold certificate fits `ts` at cursor `i`, depth `level`,
/// with the fold ending at cursor `j`, depth `d`.
pub open spec fn fold_cert_ok(
    ts: Seq<TokenModel>,
    i: int,
    level: int,
    c: FoldCert,
    j: int,
    d: int,
) -> bool
    decreases c,
{
    match c {
        FoldCert::AtEnd => i == ts.len() && level == 0 && j == i && d == 0,
        FoldCert::AtClose => 0 <= i < ts.len() && level > 0 && ts[i].class is Parenthesis
            && ts[i].text == ")"@ && j == i + 1 && d == level - 1,
        FoldCert::Step { atom, m, l2, rest } => atom_cert_ok(ts, i, level, *atom, m, l2)
            && fold_cert_ok(ts, m, l2, *rest, j, d),
    }
}

/// The number of nodes of an atom certificate.
pub open spec fn atom_cert_size(c: AtomCert) -> nat
    decreases c,
{
    match c {
        AtomCert::Leaf => 1,
        AtomCert::Grp { inner, rest, .. } => 1 + atom_cert_size(*inner) + fold_cert_size(*rest),
        AtomCert::Lam { body, rest, .. } => 1 + atom_cert_size(*body) + fold_cert_size(*rest),
    }
}

/// The number of nodes of a fold certificate.
pub open spec fn fold_cert_size(c: FoldCert) -> nat
    decreases c,
{
    match c {
        FoldCert::AtEnd => 1,
        FoldCert::AtClose => 1,
        FoldCert::Step { atom, rest, .. } => 1 + atom_cert_size(*atom) + fold_cert_size(*rest),
    }
}

proof fn lemma_atom_cert(ts: Seq<TokenModel>, i: int, level: int, c: AtomCert, m: int, l2: int)
    requires
        atom_cert_ok(ts, i, level, c, m, l2),
        level >= 0,
    ensures
        0 <= i < m <= ts.len(),
        l2 >= 0,
        ({
            let o = spec_parse_expr(ts, i, true, level);
            &&& o is Tree
            &&& out_next(o) == m
            &&& out_depth(o) == l2
            &&& !(out_ast(o) is End)
        }),
    decreases atom_cert_size(c),
{
    match c {
        AtomCert::Leaf => {
            assert(spec_parse_expr(ts, i, true, level) == (ParseOut::Tree {
                ast: AstModel::Variable { name: ts[i].text, tok: ts[i] },
                next: i + 1,
                depth: level,
            }));
        },
        AtomCert::Grp { inner, m1, l1, rest } => {
            lemma_atom_cert(ts, i + 1, level + 1, *inner, m1, l1);
            let a = out_ast(spec_parse_expr(ts, i + 1, true, level + 1));
            assert(spec_parse_expr(ts, i + 1, true, level + 1) == (ParseOut::Tree {
                ast: a,
                next: m1,
                depth: l1,
            }));
            lemma_fold_cert(ts, m1, l1, *rest, m, l2, a);
            assert(advanced(ts, i + 1, m1) == m1);
            assert(spec_parse_expr(ts, i + 1, false, level + 1) == spec_parse_args(
                ts,
                m1,
                a,
                l1,
            ));
            assert(spec_parse_par(ts, i, level) == spec_parse_args(ts, m1, a, l1));
            assert(spec_parse_expr(ts, i, true, level) == spec_parse_par(ts, i, level));
        },
        AtomCert::Lam { body, mb, lb, rest } => {
            lemma_atom_cert(ts, i + 2, level, *body, mb, lb);
            let b = out_ast(spec_parse_expr(ts, i + 2, true, level));
            assert(spec_parse_expr(ts, i + 2, true, level) == (ParseOut::Tree {
                ast: b,
                next: mb,
                depth: lb,
            }));
            lemma_fold_cert(ts, mb, lb, *rest, m, l2, b);
            assert(advanced(ts, i + 2, mb) == mb);
            assert(spec_parse_expr(ts, i + 2, false, level) == spec_parse_args(ts, mb, b, lb));
            assert(spec_parse_def(ts, i + 1, level) is Tree);
            assert(spec_parse_sym(ts, i, level) is Tree && out_next(spec_parse_sym(ts, i, level))
                == m && out_depth(spec_parse_sym(ts, i, level)) == l2 && !(out_ast(
                spec_parse_sym(ts, i, level),
            ) is End));
            assert(spec_parse_expr(ts, i, true, level) == spec_parse_sym(ts, i, level));
        },
    }
}

proof fn lemma_fold_cert(
    ts: Seq<TokenModel>,
    i: int,
    level: int,
    c: FoldCert,
    j: int,
    d: int,
    acc: AstModel,
)
    requires
        fold_cert_ok(ts, i, level, c, j, d),
        !(acc is End),
        level >= 0,
    ensures
        i <= j <= ts.len(),
        d >= 0,
        ({
            let o = spec_parse_args(ts, i, acc, level);
            &&& o is Tree
            &&& out_next(o) == j
            &&& out_depth(o) == d
            &&& !(out_ast(o) is End)
        }),
    decreases fold_cert_size(c),
{
    match c {
        FoldCert::AtEnd => {
        },
        FoldCert::AtClose => {
            reveal_strlit("(");
            reveal_strlit(")");
            assert(ts[i].text != "("@) by {
                assert(")"@[0] == ')');
                assert("("@[0] == '(');
            }
            assert(spec_parse_par(ts, i, level) == (ParseOut::Tree {
                ast: AstModel::End { tok: ts[i] },
                next: i + 1,
                depth: level - 1,
            }));
            assert(spec_parse_expr(ts, i, true, level) == spec_parse_par(ts, i, level));
        },
        FoldCert::Step { atom, m, l2, rest } => {
            lemma_atom_cert(ts, i, level, *atom, m, l2);
            let a = out_ast(spec_parse_expr(ts, i, true, level));
            assert(spec_parse_expr(ts, i, true, level) == (ParseOut::Tree {
                ast: a,
                next: m,
                depth: l2,
            }));
            let app = AstModel::Application {
                func: Box::new(acc),
                arg: Box::new(a),
                tok: ast_token(a),
            };
            assert(advanced(ts, i, m) == m);
            assert(spec_parse_args(ts, i, acc, level) == spec_parse_args(ts, m, app, l2));
            lemma_fold_cert(ts, m, l2, *rest, j, d, app);
        },
    }
}

/// Every input whose tokens carry a well-formedness certificate — balanced
/// parentheses with non-empty groups, and every lambda introducer followed
/// by an identifier and a non-empty body — parses successfully, consumes
/// every token, and brings the nesting depth back to zero.
pub proof fn lemma_parse_well_formed(
    ts: Seq<TokenModel>,
    first: AtomCert,
    m: int,
    l2: int,
    rest: FoldCert,
)
    requires
        atom_cert_ok(ts, 0, 0, first, m, l2),
        fold_cert_ok(ts, m, l2, rest, ts.len() as int, 0),
    ensures
        ({
            let o = spec_parse_expr(ts, 0, false, 0);
            &&& o is Tree
            &&& out_next(o) == ts.len()
            &&& out_depth(o) == 0
            &&& !(out_ast(o) is End)
        }),
{
    lemma_atom_cert(ts, 0, 0, first, m, l2);
    let a = out_ast(spec_parse_expr(ts, 0, true, 0));
    assert(spec_parse_expr(ts, 0, true, 0) == (ParseOut::Tree { ast: a, next: m, depth: l2 }));
    assert(advanced(ts, 0, m) == m);
    assert(spec_parse_expr(ts, 0, false, 0) == spec_parse_args(ts, m, a, l2));
    lemma_fold_cert(ts, m, l2, rest, ts.len() as int, 0, a);
}

/// A certificate that the argument fold from a cursor on runs into one of
/// the two unrecoverable bracket failures: it reaches end of input with a
/// parenthesis still open, meets a closing parenthesis with none open,
/// folds one more complete atom first, or the very next atom attempt fails
/// inside.
pub enum FailCert {
    OpenAtEnd,
    CloseAtZero { p: int },
    FoldStep { atom: Box<AtomCert>, m: int, l2: int, rest: Box<FailCert> },
    BadAtom { atom: Box<AtomFail> },
}

/// A certificate that an atom attempt fails with a bracket failure: a
/// closing parenthesis met with none open, an opening parenthesis at the
/// very end of input, or a group or lambda body whose inside fails —
/// either in its own leading atom or in the fold that follows it.
pub enum AtomFail {
    CloseHere { p: int },
    GrpAtEnd,
    GrpFirstBad { inner: Box<AtomFail> },
    GrpFoldBad { inner: Box<AtomCert>, m1: int, l1: int, rest: Box<FailCert> },
    LamFirstBad { body: Box<AtomFail> },
    LamFoldBad { body: Box<AtomCert>, mb: int, lb: int, rest: Box<FailCert> },
}

/// Whether the failing-fold certificate fits `ts` at cursor `i`, depth
/// `level`.
pub open spec fn fail_cert_ok(ts: Seq<TokenModel>, i: int, level: int, c: FailCert) -> bool
    decreases c,
{
    match c {
        FailCert::OpenAtEnd => i == ts.len() && level > 0,
        FailCert::CloseAtZero { p } => i == p && 0 <= p < ts.len() && level == 0
            && ts[p].class is Parenthesis && ts[p].text == ")"@,
        FailCert::FoldStep { atom, m, l2, rest } => atom_cert_ok(ts, i, level, *atom, m, l2)
            && fail_cert_ok(ts, m, l2, *rest),
        FailCert::BadAtom { atom } => atom_fail_ok(ts, i, level, *atom),
    }
}

/// Whether the failing-atom certificate fits `ts` at cursor `i`, depth
/// `level`.
pub open spec fn atom_fail_ok(ts: Seq<TokenModel>, i: int, level: int, c: AtomFail) -> bool
    decreases c,
{
    match c {
        AtomFail::CloseHere { p } => i == p && 0 <= p < ts.len() && level == 0
            && ts[p].class is Parenthesis && ts[p].text == ")"@,
        AtomFail::GrpAtEnd => 0 <= i < ts.len() && ts[i].class is Parenthesis && ts[i].text
            == "("@ && i + 1 == ts.len(),
        AtomFail::GrpFirstBad { inner } => 0 <= i < ts.len() && ts[i].class is Parenthesis
            && ts[i].text == "("@ && atom_fail_ok(ts, i + 1, level + 1, *inner),
        AtomFail::GrpFoldBad { inner, m1, l1, rest } => {
            &&& 0 <= i < ts.len()
            &&& ts[i].class is Parenthesis
            &&& ts[i].text == "("@
            &&& atom_cert_ok(ts, i + 1, level + 1, *inner, m1, l1)
            &&& fail_cert_ok(ts, m1, l1, *rest)
        },
        AtomFail::LamFirstBad { body } => {
            &&& 0 <= i && i + 1 < ts.len()
            &&& ts[i].class is Keyword
            &&& (ts[i].text == "\\"@ || ts[i].text == "fn"@)
            &&& ts[i + 1].class is Identifier
            &&& atom_fail_ok(ts, i + 2, level, *body)
        },
        AtomFail::LamFoldBad { body, mb, lb, rest } => {
            &&& 0 <= i && i + 1 < ts.len()
            &&& ts[i].class is Keyword
            &&& (ts[i].text == "\\"@ || ts[i].text == "fn"@)
            &&& ts[i + 1].class is Identifier
            &&& atom_cert_ok(ts, i + 2, level, *body, mb, lb)
            &&& fail_cert_ok(ts, mb, lb, *rest)
        },
    }
}

/// The failure a failing-fold certificate ends in: the end-of-input
/// "expected ending parenthesis" error, or "ending parentheses before
/// starting them" at the offending token.
pub open spec fn fail_cert_outcome(ts: Seq<TokenModel>, c: FailCert) -> ParseOut
    decreases c,
{
    match c {
        FailCert::OpenAtEnd => ParseOut::Fail {
            msg: "expected ending parenthesis"@,
            pos: eof_pos(),
        },
        FailCert::CloseAtZero { p } => ParseOut::Fail {
            msg: "ending parentheses before starting them"@,
            pos: ts[p].pos,
        },
        FailCert::FoldStep { rest, .. } => fail_cert_outcome(ts, *rest),
        FailCert::BadAtom { atom } => atom_fail_outcome(ts, *atom),
    }
}

/// The failure a failing-atom certificate ends in.
pub open spec fn atom_fail_outcome(ts: Seq<TokenModel>, c: AtomFail) -> ParseOut
    decreases c,
{
    match c {
        AtomFail::CloseHere { p } => ParseOut::Fail {
            msg: "ending parentheses before starting them"@,
            pos: ts[p].pos,
        },
        AtomFail::GrpAtEnd => ParseOut::Fail {
            msg: "expected ending parenthesis"@,
            pos: eof_pos(),
        },
        AtomFail::GrpFirstBad { inner } => atom_fail_outcome(ts, *inner),
        AtomFail::GrpFoldBad { rest, .. } => fail_cert_outcome(ts, *rest),
        AtomFail::LamFirstBad { body } => atom_fail_outcome(ts, *body),
        AtomFail::LamFoldBad { rest, .. } => fail_cert_outcome(ts, *rest),
    }
}

/// The number of nodes of a failing-fold certificate.
pub open spec fn fail_cert_size(c: FailCert) -> nat
    decreases c,
{
    match c {
        FailCert::OpenAtEnd => 1,
        FailCert::CloseAtZero { .. } => 1,
        FailCert::FoldStep { atom, rest, .. } => 1 + atom_cert_size(*atom) + fail_cert_size(
            *rest,
        ),
        FailCert::BadAtom { atom } => 1 + atom_fail_size(*atom),
    }
}

/// The number of nodes of a failing-atom certificate.
pub open spec fn atom_fail_size(c: AtomFail) -> nat
    decreases c,
{
    match c {
        AtomFail::CloseHere { .. } => 1,
        AtomFail::GrpAtEnd => 1,
        AtomFail::GrpFirstBad { inner } => 1 + atom_fail_size(*inner),
        AtomFail::GrpFoldBad { inner, rest, .. } => 1 + atom_cert_size(*inner) + fail_cert_size(
            *rest,
        ),
        AtomFail::LamFirstBad { body } => 1 + atom_fail_size(*body),
        AtomFail::LamFoldBad { body, rest, .. } => 1 + atom_cert_size(*body) + fail_cert_size(
            *rest,
        ),
    }
}

proof fn lemma_fail_cert(ts: Seq<TokenModel>, i: int, level: int, c: FailCert, acc: AstModel)
    requires
        fail_cert_ok(ts, i, level, c),
        !(acc is End),
        level >= 0,
    ensures
        spec_parse_args(ts, i, acc, level) == fail_cert_outcome(ts, c),
        fail_cert_outcome(ts, c) is Fail,
    decreases fail_cert_size(c),
{
    reveal_strlit("(");
    reveal_strlit(")");
    match c {
        FailCert::OpenAtEnd => {
        },
        FailCert::CloseAtZero { p } => {
            assert(ts[p].text != "("@) by {
                assert(")"@[0] == ')');
                assert("("@[0] == '(');
            }
            assert(spec_parse_par(ts, p, level) == fail_cert_outcome(ts, c));
            assert(spec_parse_expr(ts, p, true, level) == spec_parse_par(ts, p, level));
        },
        FailCert::FoldStep { atom, m, l2, rest } => {
            lemma_atom_cert(ts, i, level, *atom, m, l2);
            let a = out_ast(spec_parse_expr(ts, i, true, level));
            assert(spec_parse_expr(ts, i, true, level) == (ParseOut::Tree {
                ast: a,
                next: m,
                depth: l2,
            }));
            let app = AstModel::Application {
                func: Box::new(acc),
                arg: Box::new(a),
                tok: ast_token(a),
            };
            assert(advanced(ts, i, m) == m);
            assert(spec_parse_args(ts, i, acc, level) == spec_parse_args(ts, m, app, l2));
            lemma_fail_cert(ts, m, l2, *rest, app);
        },
        FailCert::BadAtom { atom } => {
            lemma_atom_fail(ts, i, level, *atom);
        },
    }
}

proof fn lemma_atom_fail(ts: Seq<TokenModel>, i: int, level: int, c: AtomFail)
    requires
        atom_fail_ok(ts, i, level, c),
        level >= 0,
    ensures
        spec_parse_expr(ts, i, true, level) == atom_fail_outcome(ts, c),
        atom_fail_outcome(ts, c) is Fail,
    decreases atom_fail_size(c),
{
    match c {
        AtomFail::CloseHere { p } => {
            reveal_strlit("(");
            reveal_strlit(")");
            assert(ts[i].text != "("@) by {
                assert(")"@[0] == ')');
                assert("("@[0] == '(');
            }
            assert(spec_parse_par(ts, i, level) == atom_fail_outcome(ts, c));
            assert(spec_parse_expr(ts, i, true, level) == spec_parse_par(ts, i, level));
        },
        AtomFail::GrpAtEnd => {
            assert(spec_parse_expr(ts, i + 1, false, level + 1) == atom_fail_outcome(ts, c));
            assert(spec_parse_par(ts, i, level) == atom_fail_outcome(ts, c));
            assert(spec_parse_expr(ts, i, true, level) == spec_parse_par(ts, i, level));
        },
        AtomFail::GrpFirstBad { inner } => {
            lemma_atom_fail(ts, i + 1, level + 1, *inner);
            assert(spec_parse_expr(ts, i + 1, false, level + 1) == atom_fail_outcome(
                ts,
                *inner,
            ));
            assert(spec_parse_par(ts, i, level) == atom_fail_outcome(ts, *inner));
            assert(spec_parse_expr(ts, i, true, level) == spec_parse_par(ts, i, level));
        },
        AtomFail::GrpFoldBad { inner, m1, l1, rest } => {
            lemma_atom_cert(ts, i + 1, level + 1, *inner, m1, l1);
            let a = out_ast(spec_parse_expr(ts, i + 1, true, level + 1));
            assert(spec_parse_expr(ts, i + 1, true, level + 1) == (ParseOut::Tree {
                ast: a,
                next: m1,
                depth: l1,
            }));
            lemma_fail_cert(ts, m1, l1, *rest, a);
            assert(advanced(ts, i + 1, m1) == m1);
            assert(spec_parse_expr(ts, i + 1, false, level + 1) == spec_parse_args(
                ts,
                m1,
                a,
                l1,
            ));
            assert(spec_parse_par(ts, i, level) == fail_cert_outcome(ts, *rest));
            assert(spec_parse_expr(ts, i, true, level) == spec_parse_par(ts, i, level));
        },
        AtomFail::LamFirstBad { body } => {
            lemma_atom_fail(ts, i + 2, level, *body);
            assert(spec_parse_def(ts, i + 1, level) is Tree);
            assert(spec_parse_expr(ts, i + 2, false, level) == atom_fail_outcome(ts, *body));
            assert(spec_parse_sym(ts, i, level) == atom_fail_outcome(ts, *body));
            assert(spec_parse_expr(ts, i, true, level) == spec_parse_sym(ts, i, level));
        },
        AtomFail::LamFoldBad { body, mb, lb, rest } => {
            lemma_atom_cert(ts, i + 2, level, *body, mb, lb);
            let b = out_ast(spec_parse_expr(ts, i + 2, true, level));
            assert(spec_parse_expr(ts, i + 2, true, level) == (ParseOut::Tree {
                ast: b,
                next: mb,
                depth: lb,
            }));
            lemma_fail_cert(ts, mb, lb, *rest, b);
            assert(advanced(ts, i + 2, mb) == mb);
            assert(spec_parse_expr(ts, i + 2, false, level) == spec_parse_args(ts, mb, b, lb));
            assert(spec_parse_def(ts, i + 1, level) is Tree);
            assert(spec_parse_sym(ts, i, level) == fail_cert_outcome(ts, *rest));
            assert(spec_parse_expr(ts, i, true, level) == spec_parse_sym(ts, i, level));
        },
    }
}

/// Any input whose run fails on brackets after a complete leading atom
/// fails with exactly the certified error: a closing parenthesis met with
/// none open gives "ending parentheses before starting them" at that very
/// token, and end of input with a parenthesis still open gives the
/// end-of-input "expected ending parenthesis" error.
pub proof fn lemma_parse_fold_fails(
    ts: Seq<TokenModel>,
    first: AtomCert,
    m: int,
    l2: int,
    rest: FailCert,
)
    requires
        atom_cert_ok(ts, 0, 0, first, m, l2),
        fail_cert_ok(ts, m, l2, rest),
    ensures
        spec_parse_expr(ts, 0, false, 0) == fail_cert_outcome(ts, rest),
        fail_cert_outcome(ts, rest) is Fail,
{
    lemma_atom_cert(ts, 0, 0, first, m, l2);
    let a = out_ast(spec_parse_expr(ts, 0, true, 0));
    assert(spec_parse_expr(ts, 0, true, 0) == (ParseOut::Tree { ast: a, next: m, depth: l2 }));
    assert(advanced(ts, 0, m) == m);
    assert(spec_parse_expr(ts, 0, false, 0) == spec_parse_args(ts, m, a, l2));
    lemma_fail_cert(ts, m, l2, rest, a);
}

/// Any input whose very first atom fails on brackets — a bare unmatched
/// `)` included — fails with exactly the certified error; see
/// `lemma_parse_fold_fails` for the two possible errors.
pub proof fn lemma_parse_first_atom_fails(ts: Seq<TokenModel>, c: AtomFail)
    requires
        atom_fail_ok(ts, 0, 0, c),
    ensures
        spec_parse_expr(ts, 0, false, 0) == atom_fail_outcome(ts, c),
        atom_fail_outcome(ts, c) is Fail,
{
    lemma_atom_fail(ts, 0, 0, c);
}

/// Parses one expression starting at the shared cursor `i`, at the given
/// parenthesis-nesting depth. Outside argument position, further atoms are
/// folded onto the result left-associatively as applications. The cursor is
/// advanced past everything consumed; it is never rewound.
pub fn parse_expr(tokens: &Vec<Token>, i: &mut usize, is_arg: bool, level: &mut usize) -> (r:
    Result<Node, SyntaxError>)
    requires
        *old(i) <= tokens@.len(),
        *old(level) + tokens@.len() - *old(i) < usize::MAX,
    ensures
        parse_out_matches(
            r,
            *final(i) as int,
            *final(level) as int,
            spec_parse_expr(models(tokens@), *old(i) as int, is_arg, *old(level) as int),
        ),
        *old(i) <= *final(i) <= tokens@.len(),
        *final(level) + tokens@.len() - *final(i) <= *old(level) + tokens@.len() - *old(i),
        r matches Ok(n) && !(n.class is End) ==> *final(i) > *old(i),
    decreases tokens@.len() - *old(i), (if is_arg { 1int } else { 3int }),
{
    let ghost ts = models(tokens@);
    let ghost i0 = *i as int;
    if *i >= tokens.len() {
        if *level != 0 {
            return Err(
                SyntaxError::create(
                    String::from_str("expected ending parenthesis"),
                    None,
                    None,
                    true,
                    None,
                ),
            );
        }
        return Ok(
            Node {
                class: NodeType::End,
                data: String::new(),
                token: Token {
                    class: TokenType::Keyword,
                    data: String::new(),
                    pos: Position {
                        line: 0,
                        col: 0,
                        start: 0,
                        end: 0,
                        last: true,
                        finished: false,
                    },
                },
                nodes: Vec::new(),
            },
        );
    }
    proof {
        assert(ts[i0] == tokens@[i0]@);
    }
    let node: Node;
    let ghost m: AstModel;
    match tokens[*i].class {
        TokenType::Identifier => {
            let token = &tokens[*i];
            *i = *i + 1;
            node =
            Node {
                class: NodeType::Variable,
                data: token.data.clone(),
                token: token.clone(),
                nodes: Vec::new(),
            };
            proof {
                m = AstModel::Variable { name: ts[i0].text, tok: ts[i0] };
            }
        },
        TokenType::Parenthesis => {
            match parse_par(tokens, i, level) {
                Ok(ok) => {
                    node = ok;
                },
                Err(err) => {
                    return Err(err);
                },
            }
            proof {
                m = out_ast(spec_parse_par(ts, i0, *old(level) as int));
            }
        },
        TokenType::Keyword => {
            match parse_sym(tokens, i, level) {
                Ok(ok) => {
                    node = ok;
                },
                Err(err) => {
                    return Err(err);
                },
            }
            proof {
                m = out_ast(spec_parse_sym(ts, i0, *old(level) as int));
            }
        },
    }
    if !is_arg && !(matches!(node.class, NodeType::End)) {
        proof {
            assert(advanced(ts, i0, *i as int) == *i as int);
        }
        parse_args(tokens, i, node, level, Ghost(m))
    } else {
        // the end sentinel is a control signal, never a tree: hand it back
        // without folding arguments onto it
        Ok(node)
    }
}

/// The argument fold: keeps parsing atoms in argument position and wraps
/// each onto the accumulated tree as an application node, until an attempt
/// yields the end sentinel, which is discarded.
fn parse_args(
    tokens: &Vec<Token>,
    i: &mut usize,
    node: Node,
    level: &mut usize,
    Ghost(m): Ghost<AstModel>,
) -> (r: Result<Node, SyntaxError>)
    requires
        *old(i) <= tokens@.len(),
        *old(level) + tokens@.len() - *old(i) < usize::MAX,
        node_models(node, m),
    ensures
        parse_out_matches(
            r,
            *final(i) as int,
            *final(level) as int,
            spec_parse_args(models(tokens@), *old(i) as int, m, *old(level) as int),
        ),
        *old(i) <= *final(i) <= tokens@.len(),
        *final(level) + tokens@.len() - *final(i) <= *old(level) + tokens@.len() - *old(i),
    decreases tokens@.len() - *old(i), 2int,
{
    let ghost ts = models(tokens@);
    let ghost i0 = *i as int;
    let ghost level0 = *level as int;
    let n = tokens.len();
    let mut last_node = node;
    let ghost mut acc = m;
    loop
        invariant
            n == tokens@.len(),
            *i <= n,
            *level + tokens@.len() - *i <= level0 + tokens@.len() - i0,
            level0 + tokens@.len() - i0 < usize::MAX,
            i0 == *old(i) as int,
            level0 == *old(level) as int,
            i0 <= *i as int,
            node_models(last_node, acc),
            spec_parse_args(ts, *i as int, acc, *level as int) == spec_parse_args(
                ts,
                i0,
                m,
                level0,
            ),
            ts == models(tokens@),
            ts.len() == tokens@.len(),
        decreases tokens@.len() - *i,
    {
        let ghost icur = *i as int;
        let ghost lcur = *level as int;
        let current = match parse_expr(tokens, i, true, level) {
            Ok(ok) => ok,
            Err(err) => {
                return Err(err);
            },
        };
        if current.class == NodeType::End {
            return Ok(last_node);
        }
        proof {
            assert(advanced(ts, icur, *i as int) == *i as int);
            acc =
            AstModel::Application {
                func: Box::new(acc),
                arg: Box::new(out_ast(spec_parse_expr(ts, icur, true, lcur))),
                tok: ast_token(out_ast(spec_parse_expr(ts, icur, true, lcur))),
            };
        }
        let token = current.token.clone();
        let mut children: Vec<Node> = Vec::new();
        children.push(last_node);
        children.push(current);
        last_node =
        Node { class: NodeType::Application, data: String::new(), token: token, nodes: children };
    }
}

/// A parenthesis token: `(` opens a nested full expression, which must not
/// come back empty; `)` closes one level — failing when none is open — and
/// yields the end sentinel to signal closure to the enclosing call.
fn parse_par(tokens: &Vec<Token>, i: &mut usize, level: &mut usize) -> (r: Result<
    Node,
    SyntaxError,
>)
    requires
        *old(i) < tokens@.len(),
        *old(level) + tokens@.len() - *old(i) < usize::MAX,
    ensures
        parse_out_matches(
            r,
            *final(i) as int,
            *final(level) as int,
            spec_parse_par(models(tokens@), *old(i) as int, *old(level) as int),
        ),
        *old(i) <= *final(i) <= tokens@.len(),
        *final(level) + tokens@.len() - *final(i) <= *old(level) + tokens@.len() - *old(i),
        r is Ok ==> *final(i) > *old(i),
        // a closing parenthesis with no level open fails before consuming
        // anything: cursor and depth are left untouched
        models(tokens@)[*old(i) as int].text != "("@ && *old(level) == 0 ==> *final(i) == *old(i)
            && *final(level) == *old(level),
    decreases tokens@.len() - *old(i), 0int,
{
    let ghost ts = models(tokens@);
    let ghost i0 = *i as int;
    let n = tokens.len();
    proof {
        assert(ts[i0] == tokens@[i0]@);
    }
    let token = tokens[*i].clone();
    if token.data == String::from_str("(") {
        *i = *i + 1;
        *level = *level + 1;
        let expr = match parse_expr(tokens, i, false, level) {
            Ok(ok) => ok,
            Err(err) => {
                return Err(err);
            },
        };
        if expr.class == NodeType::End {
            return Err(
                SyntaxError {
                    error: String::from_str("no expression inside parentheses"),
                    pos: expr.token.pos,
                },
            );
        }
        Ok(expr)
    } else {
        if *level == 0 {
            return Err(
                SyntaxError {
                    error: String::from_str("ending parentheses before starting them"),
                    pos: token.pos,
                },
            );
        }
        *i = *i + 1;
        *level = *level - 1;
        Ok(Node { class: NodeType::End, data: String::new(), token: token, nodes: Vec::new() })
    }
}

/// A keyword token: one of the two lambda-introducer spellings, then the
/// bound name, then the body, which extends maximally to the right and must
/// not come back empty.
fn parse_sym(tokens: &Vec<Token>, i: &mut usize, level: &mut usize) -> (r: Result<
    Node,
    SyntaxError,
>)
    requires
        *old(i) < tokens@.len(),
        *old(level) + tokens@.len() - *old(i) < usize::MAX,
    ensures
        parse_out_matches(
            r,
            *final(i) as int,
            *final(level) as int,
            spec_parse_sym(models(tokens@), *old(i) as int, *old(level) as int),
        ),
        *old(i) <= *final(i) <= tokens@.len(),
        *final(level) + tokens@.len() - *final(i) <= *old(level) + tokens@.len() - *old(i),
        r is Ok ==> *final(i) > *old(i),
    decreases tokens@.len() - *old(i), 0int,
{
    let ghost ts = models(tokens@);
    let ghost i0 = *i as int;
    let n = tokens.len();
    proof {
        assert(ts[i0] == tokens@[i0]@);
    }
    let token = tokens[*i].clone();
    if token.data == String::from_str("\\") || token.data == String::from_str("fn") {
        *i = *i + 1;
        let var = match parse_def(tokens, i, level) {
            Ok(ok) => ok,
            Err(err) => {
                return Err(err);
            },
        };
        let body = match parse_expr(tokens, i, false, level) {
            Ok(ok) => ok,
            Err(err) => {
                return Err(err);
            },
        };
        if body.class == NodeType::End {
            return Err(
                SyntaxError {
                    error: String::from_str("expected body to abstraction"),
                    pos: body.token.pos,
                },
            );
        }
        let mut children: Vec<Node> = Vec::new();
        children.push(body);
        Ok(
            Node {
                class: NodeType::Abstraction,
                data: var.data,
                token: token,
                nodes: children,
            },
        )
    } else {
        Err(SyntaxError { error: String::from_str("invalid symbol"), pos: token.pos })
    }
}

/// The bound name after a lambda introducer: exactly one identifier token,
/// with distinct failures for end-of-input and for a wrong token kind.
fn parse_def(tokens: &Vec<Token>, i: &mut usize, level: &mut usize) -> (r: Result<
    Node,
    SyntaxError,
>)
    requires
        *old(i) <= tokens@.len(),
    ensures
        parse_out_matches(
            r,
            *final(i) as int,
            *final(level) as int,
            spec_parse_def(models(tokens@), *old(i) as int, *old(level) as int),
        ),
        *old(i) <= *final(i) <= tokens@.len(),
        *final(level) == *old(level),
{
    let ghost ts = models(tokens@);
    let ghost i0 = *i as int;
    if *i >= tokens.len() {
        return if *level != 0 {
            Err(
                SyntaxError::create(
                    String::from_str("no ending to parentheses"),
                    None,
                    None,
                    true,
                    None,
                ),
            )
        } else {
            Err(
                SyntaxError::create(
                    String::from_str("expected name in definition"),
                    None,
                    None,
                    true,
                    None,
                ),
            )
        };
    }
    proof {
        assert(ts[i0] == tokens@[i0]@);
    }
    let token = &tokens[*i];
    if token.class == TokenType::Identifier {
        *i = *i + 1;
        Ok(
            Node {
                class: NodeType::Variable,
                data: token.data.clone(),
                token: token.clone(),
                nodes: Vec::new(),
            },
        )
    } else {
        Err(SyntaxError { error: String::from_str("expexted name in definition"), pos: token.pos })
    }
}

} // verus!
