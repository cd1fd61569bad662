//! Recognizer for the source language, written as a recursive-descent
//! parser with ordered choice and unlimited backtracking.
//!
//! The grammar, top to bottom:
//!
//! ```text
//! file        := statement+ blanknl* EOF | blanknl* EOF
//! statement   := function | call | simple
//! function    := blanknl* "def" blank* name blank* "(" params ")" blank* ":" blank* NL+ statement+
//! params      := (blank* name blank*) ** ","
//! call        := blank* name blank* "(" args ")" NL+
//! args        := (blank* expression blank*) ** ","
//! simple      := blanknl* assignment
//! assignment  := name blank* "=" blank* expression NL*
//! expression  := assignment | call | arithmetic | literal
//! arithmetic  := literal blank* op blank* literal
//! literal     := number | name | string
//! ```
//!
//! A bare name in operand position is a variable read and becomes
//! `Identifier`; a quoted string becomes a `Literal` token and is only
//! examined at translation time.  Statements must cover the whole input
//! up to trailing whitespace; an empty or all-whitespace source is a
//! valid file with no statements at all.
//!
//! The functions named `p_*` are the specification: they define exactly
//! which inputs are recognized and which tree comes back.  The executable
//! parser below them is proved to return precisely what they describe.

use vstd::prelude::*;

use crate::ast::BinaryOp;
use crate::ast::Expr;
use crate::ast::ExprV;
use crate::ast::view_expr;
use crate::ast::view_exprs;
use crate::ast::lemma_view_exprs;

verus! {

/// A parse failure: the character offset the parser could not get past,
/// and a description of what it was looking for there.
pub struct ParseError {
    pub offset: usize,
    pub expected: String,
}

/// Character classes the grammar skips over or collects.
#[derive(Clone, Copy, PartialEq, Eq, Structural, Debug)]
pub enum CharClass {
    /// Space or tab.
    Blank,
    /// Space, tab or newline.
    BlankNewline,
    /// Newline only.
    Newline,
    /// Letter, digit or underscore.
    NameChar,
    /// Decimal digit.
    Digit,
}

pub open spec fn is_name_start(c: char) -> bool {
    c == '_' || ('a' <= c && c <= 'z') || ('A' <= c && c <= 'Z')
}

pub open spec fn is_digit(c: char) -> bool {
    '0' <= c && c <= '9'
}

pub open spec fn in_class(k: CharClass, c: char) -> bool {
    match k {
        CharClass::Blank => c == ' ' || c == '\t',
        CharClass::BlankNewline => c == ' ' || c == '\t' || c == '\n',
        CharClass::Newline => c == '\n',
        CharClass::NameChar => is_name_start(c) || is_digit(c),
        CharClass::Digit => is_digit(c),
    }
}

/// First position at or after `pos` whose character is outside the class.
pub open spec fn skip_rec(s: Seq<char>, k: CharClass, pos: int) -> int
    decreases s.len() - pos,
{
    if 0 <= pos < s.len() && in_class(k, s[pos]) {
        skip_rec(s, k, pos + 1)
    } else {
        pos
    }
}

/// `skip_rec`, bounded into `[pos, s.len()]`.  The bounds never change
/// the value (see `lemma_skip`); stating them here keeps every recursive
/// grammar rule visibly terminating.
pub open spec fn skip(s: Seq<char>, k: CharClass, pos: int) -> int {
    let q = skip_rec(s, k, pos);
    if q < pos {
        pos
    } else if q > s.len() {
        s.len() as int
    } else {
        q
    }
}

pub proof fn lemma_skip(s: Seq<char>, k: CharClass, pos: int)
    requires
        0 <= pos <= s.len(),
    ensures
        pos <= skip_rec(s, k, pos) <= s.len(),
        skip(s, k, pos) == skip_rec(s, k, pos),
        forall|i: int| pos <= i < skip_rec(s, k, pos) ==> in_class(k, s[i]),
        skip_rec(s, k, pos) < s.len() ==> !in_class(k, s[skip_rec(s, k, pos)]),
    decreases s.len() - pos,
{
    if pos < s.len() && in_class(k, s[pos]) {
        lemma_skip(s, k, pos + 1);
    }
}

/// A successful sub-parse always stands past `pos` and within the input;
/// bounding its position into `(pos, s.len()]` keeps the recursion
/// visibly terminating without changing what is recognized.
pub open spec fn bump(s: Seq<char>, pos: int, q: int) -> int {
    let b = if q > pos {
        q
    } else {
        pos + 1
    };
    if b > s.len() {
        s.len() as int
    } else {
        b
    }
}

/// name := [a-zA-Z_][a-zA-Z0-9_]*
pub open spec fn p_name(s: Seq<char>, pos: int) -> Option<(Seq<char>, int)> {
    if 0 <= pos < s.len() && is_name_start(s[pos]) {
        let end = skip(s, CharClass::NameChar, pos + 1);
        Some((s.subrange(pos, end), end))
    } else {
        None
    }
}

/// number := [0-9]+
pub open spec fn p_number(s: Seq<char>, pos: int) -> Option<(Seq<char>, int)> {
    if 0 <= pos < s.len() && is_digit(s[pos]) {
        let end = skip(s, CharClass::Digit, pos + 1);
        Some((s.subrange(pos, end), end))
    } else {
        None
    }
}

/// string := '"' name '"'
pub open spec fn p_string(s: Seq<char>, pos: int) -> Option<(Seq<char>, int)> {
    if 0 <= pos < s.len() && s[pos] == '"' {
        match p_name(s, pos + 1) {
            Some((n, q)) => if q < s.len() && s[q] == '"' {
                Some((n, q + 1))
            } else {
                None
            },
            None => None,
        }
    } else {
        None
    }
}

/// op := "+" | "-" | "/" | "*"
pub open spec fn p_op(s: Seq<char>, pos: int) -> Option<(BinaryOp, int)> {
    if 0 <= pos < s.len() {
        if s[pos] == '+' {
            Some((BinaryOp::Add, pos + 1))
        } else if s[pos] == '-' {
            Some((BinaryOp::Sub, pos + 1))
        } else if s[pos] == '/' {
            Some((BinaryOp::Div, pos + 1))
        } else if s[pos] == '*' {
            Some((BinaryOp::Mul, pos + 1))
        } else {
            None
        }
    } else {
        None
    }
}

/// literal := number | name | string — a bare name in operand position
/// reads the variable of that name.
pub open spec fn p_literal(s: Seq<char>, pos: int) -> Option<(ExprV, int)> {
    match p_number(s, pos) {
        Some((t, q)) => Some((ExprV::Literal(t), q)),
        None => match p_name(s, pos) {
            Some((n, q)) => Some((ExprV::Identifier(n), q)),
            None => match p_string(s, pos) {
                Some((t, q)) => Some((ExprV::Literal(t), q)),
                None => None,
            },
        },
    }
}

/// arithmetic := literal blank* op blank* literal — exactly one operator,
/// no chaining.
pub open spec fn p_arithmetic(s: Seq<char>, pos: int) -> Option<(ExprV, int)> {
    match p_literal(s, pos) {
        Some((lhs, q1)) => {
            let q2 = skip(s, CharClass::Blank, q1);
            match p_op(s, q2) {
                Some((op, q3)) => {
                    let q4 = skip(s, CharClass::Blank, q3);
                    match p_literal(s, q4) {
                        Some((rhs, q5)) => Some(
                            (ExprV::Operation(Box::new(lhs), Box::new(rhs), op), q5),
                        ),
                        None => None,
                    }
                },
                None => None,
            }
        },
        None => None,
    }
}

/// params := (blank* name blank*) ** "," — what follows the first
/// parameter name: zero or more ", blank* name blank*" groups.
pub open spec fn p_params_more(s: Seq<char>, pos: int) -> (Seq<Seq<char>>, int)
    decreases s.len() - pos,
{
    if 0 <= pos < s.len() && s[pos] == ',' {
        let a = skip(s, CharClass::Blank, pos + 1);
        match p_name(s, a) {
            Some((n, q)) => {
                let q2 = skip(s, CharClass::Blank, q);
                let (rest, r) = p_params_more(s, bump(s, pos, q2));
                (seq![n] + rest, r)
            },
            None => (Seq::empty(), pos),
        }
    } else {
        (Seq::empty(), pos)
    }
}

/// The whole parameter list; an empty list consumes nothing.
pub open spec fn p_params(s: Seq<char>, pos: int) -> (Seq<Seq<char>>, int) {
    let a = skip(s, CharClass::Blank, pos);
    match p_name(s, a) {
        Some((n, q)) => {
            let q2 = skip(s, CharClass::Blank, q);
            let (rest, r) = p_params_more(s, q2);
            (seq![n] + rest, r)
        },
        None => (Seq::empty(), pos),
    }
}

/// assignment := name blank* "=" blank* expression NL*
pub open spec fn p_assignment(s: Seq<char>, pos: int) -> Option<(ExprV, int)>
    decreases s.len() - pos, 1int,
{
    if !(0 <= pos <= s.len()) {
        None
    } else {
        match p_name(s, pos) {
            Some((n, q1)) => {
                let q2 = skip(s, CharClass::Blank, q1);
                if q2 < s.len() && s[q2] == '=' {
                    let q3 = skip(s, CharClass::Blank, q2 + 1);
                    match p_expression(s, q3) {
                        Some((e, q4)) => Some(
                            (ExprV::Assign(n, Box::new(e)), skip(s, CharClass::Newline, q4)),
                        ),
                        None => None,
                    }
                } else {
                    None
                }
            },
            None => None,
        }
    }
}

/// call := blank* name blank* "(" args ")" NL+
pub open spec fn p_call(s: Seq<char>, pos: int) -> Option<(ExprV, int)>
    decreases s.len() - pos, 2int,
{
    if !(0 <= pos <= s.len()) {
        None
    } else {
        let q0 = skip(s, CharClass::Blank, pos);
        match p_name(s, q0) {
            Some((n, q1)) => {
                let q2 = skip(s, CharClass::Blank, q1);
                if q2 < s.len() && s[q2] == '(' {
                    let (args, q3) = p_args(s, q2 + 1);
                    if q3 < s.len() && s[q3] == ')' {
                        if q3 + 1 < s.len() && s[q3 + 1] == '\n' {
                            Some((ExprV::Call(n, args), skip(s, CharClass::Newline, q3 + 2)))
                        } else {
                            None
                        }
                    } else {
                        None
                    }
                } else {
                    None
                }
            },
            None => None,
        }
    }
}

/// expression := assignment | call | arithmetic | literal
pub open spec fn p_expression(s: Seq<char>, pos: int) -> Option<(ExprV, int)>
    decreases s.len() - pos, 3int,
{
    if !(0 <= pos <= s.len()) {
        None
    } else {
        match p_assignment(s, pos) {
            Some(r) => Some(r),
            None => match p_call(s, pos) {
                Some(r) => Some(r),
                None => match p_arithmetic(s, pos) {
                    Some(r) => Some(r),
                    None => p_literal(s, pos),
                },
            },
        }
    }
}

/// args := (blank* expression blank*) ** "," — the whole argument list;
/// an empty list consumes nothing.
pub open spec fn p_args(s: Seq<char>, pos: int) -> (Seq<ExprV>, int)
    decreases s.len() - pos, 4int,
{
    if !(0 <= pos < s.len()) {
        (Seq::empty(), pos)
    } else {
        let a = skip(s, CharClass::Blank, pos);
        match p_expression(s, a) {
            Some((e, q)) => {
                let q2 = skip(s, CharClass::Blank, q);
                let (rest, r) = p_args_more(s, bump(s, pos, q2));
                (seq![e] + rest, r)
            },
            None => (Seq::empty(), pos),
        }
    }
}

/// What follows the first argument: zero or more ", blank* expression
/// blank*" groups.
pub open spec fn p_args_more(s: Seq<char>, pos: int) -> (Seq<ExprV>, int)
    decreases s.len() - pos, 5int,
{
    if 0 <= pos < s.len() && s[pos] == ',' {
        let a = skip(s, CharClass::Blank, pos + 1);
        match p_expression(s, a) {
            Some((e, q)) => {
                let q2 = skip(s, CharClass::Blank, q);
                let (rest, r) = p_args_more(s, bump(s, pos, q2));
                (seq![e] + rest, r)
            },
            None => (Seq::empty(), pos),
        }
    } else {
        (Seq::empty(), pos)
    }
}

/// simple := blanknl* assignment
pub open spec fn p_simple(s: Seq<char>, pos: int) -> Option<(ExprV, int)>
    decreases s.len() - pos, 6int,
{
    if !(0 <= pos <= s.len()) {
        None
    } else {
        p_assignment(s, skip(s, CharClass::BlankNewline, pos))
    }
}

/// function := blanknl* "def" blank* name blank* "(" params ")" blank*
/// ":" blank* NL+ statement+
pub open spec fn p_function(s: Seq<char>, pos: int) -> Option<(ExprV, int)>
    decreases s.len() - pos, 7int,
{
    if !(0 <= pos <= s.len()) {
        None
    } else {
        let q0 = skip(s, CharClass::BlankNewline, pos);
        if q0 + 2 < s.len() && s[q0] == 'd' && s[q0 + 1] == 'e' && s[q0 + 2] == 'f' {
            let q1 = skip(s, CharClass::Blank, q0 + 3);
            match p_name(s, q1) {
                Some((fname, q2)) => {
                    let q3 = skip(s, CharClass::Blank, q2);
                    if q3 < s.len() && s[q3] == '(' {
                        let (ps, q4) = p_params(s, q3 + 1);
                        if q4 < s.len() && s[q4] == ')' {
                            let q5 = skip(s, CharClass::Blank, q4 + 1);
                            if q5 < s.len() && s[q5] == ':' {
                                let q6 = skip(s, CharClass::Blank, q5 + 1);
                                if q6 < s.len() && s[q6] == '\n' {
                                    let q7 = skip(s, CharClass::Newline, q6 + 1);
                                    match p_statements(s, bump(s, pos, q7)) {
                                        Some((body, q8)) => Some(
                                            (ExprV::Function(fname, ps, body), q8),
                                        ),
                                        None => None,
                                    }
                                } else {
                                    None
                                }
                            } else {
                                None
                            }
                        } else {
                            None
                        }
                    } else {
                        None
                    }
                },
                None => None,
            }
        } else {
            None
        }
    }
}

/// statement := function | call | simple
pub open spec fn p_statement(s: Seq<char>, pos: int) -> Option<(ExprV, int)>
    decreases s.len() - pos, 8int,
{
    if !(0 <= pos <= s.len()) {
        None
    } else {
        match p_function(s, pos) {
            Some(r) => Some(r),
            None => match p_call(s, pos) {
                Some(r) => Some(r),
                None => p_simple(s, pos),
            },
        }
    }
}

/// statement+ — greedy: statements are taken until one fails to parse.
pub open spec fn p_statements(s: Seq<char>, pos: int) -> Option<(Seq<ExprV>, int)>
    decreases s.len() - pos, 9int,
{
    if !(0 <= pos < s.len()) {
        None
    } else {
        match p_statement(s, pos) {
            Some((e, q)) => {
                let q1 = bump(s, pos, q);
                match p_statements(s, q1) {
                    Some((rest, r)) => Some((seq![e] + rest, r)),
                    None => Some((seq![e], q1)),
                }
            },
            None => None,
        }
    }
}

/// The whole source unit.  `None` means the input is not a valid file;
/// otherwise the result is the statement sequence, which is empty for
/// an empty or all-whitespace source.
pub open spec fn p_file(s: Seq<char>) -> Option<Seq<ExprV>> {
    match p_statements(s, 0) {
        Some((stmts, q)) => if skip(s, CharClass::BlankNewline, q) == s.len() {
            Some(stmts)
        } else {
            None
        },
        None => if skip(s, CharClass::BlankNewline, 0) == s.len() {
            Some(Seq::empty())
        } else {
            None
        },
    }
}


// ---------------------------------------------------------------------
// The executable parser.  Each function mirrors one grammar rule and is
// proved to return exactly what the rule describes.
// ---------------------------------------------------------------------

/// A token result agrees with a rule result: same success, same text,
/// same end position, and the position is inside the input.
pub open spec fn tok_matches(r: Option<(String, usize)>, m: Option<(Seq<char>, int)>, n: nat) -> bool {
    match r {
        Some((t, q)) => m is Some && t@ == m->Some_0.0 && q as int == m->Some_0.1 && q <= n,
        None => m is None,
    }
}

/// A node result agrees with a rule result, through the AST view.
pub open spec fn node_matches(r: Option<(Expr, usize)>, m: Option<(ExprV, int)>, n: nat) -> bool {
    match r {
        Some((e, q)) => m is Some && view_expr(e) == m->Some_0.0 && q as int == m->Some_0.1 && q <= n,
        None => m is None,
    }
}

/// A node-list result agrees with a rule result, element by element.
pub open spec fn nodes_match(r: (Vec<Expr>, usize), m: (Seq<ExprV>, int), n: nat) -> bool {
    view_exprs(r.0@) == m.0 && r.1 as int == m.1 && r.1 <= n
}

/// A name-list result agrees with a rule result, element by element.
pub open spec fn names_match(r: (Vec<String>, usize), m: (Seq<Seq<char>>, int), n: nat) -> bool {
    r.0.deep_view() == m.0 && r.1 as int == m.1 && r.1 <= n
}

fn class_matches(c: char, k: CharClass) -> (r: bool)
    ensures
        r == in_class(k, c),
{
    match k {
        CharClass::Blank => c == ' ' || c == '\t',
        CharClass::BlankNewline => c == ' ' || c == '\t' || c == '\n',
        CharClass::Newline => c == '\n',
        CharClass::NameChar => c == '_' || ('a' <= c && c <= 'z') || ('A' <= c && c <= 'Z') || (
        '0' <= c && c <= '9'),
        CharClass::Digit => '0' <= c && c <= '9',
    }
}

fn e_skip(s: &str, k: CharClass, pos: usize) -> (r: usize)
    requires
        pos <= s@.len(),
    ensures
        r as int == skip(s@, k, pos as int),
        pos <= r <= s@.len(),
{
    proof {
        lemma_skip(s@, k, pos as int);
    }
    let n = s.unicode_len();
    let mut p = pos;
    while p < n && class_matches(s.get_char(p), k)
        invariant
            pos <= p <= n,
            n == s@.len(),
            skip_rec(s@, k, pos as int) == skip_rec(s@, k, p as int),
        decreases n - p,
    {
        p = p + 1;
    }
    p
}

fn e_name(s: &str, pos: usize) -> (r: Option<(String, usize)>)
    requires
        pos <= s@.len(),
    ensures
        tok_matches(r, p_name(s@, pos as int), s@.len()),
{
    let n = s.unicode_len();
    if pos < n {
        let c = s.get_char(pos);
        if c == '_' || ('a' <= c && c <= 'z') || ('A' <= c && c <= 'Z') {
            let end = e_skip(s, CharClass::NameChar, pos + 1);
            return Some((s.substring_char(pos, end).to_owned(), end));
        }
    }
    None
}

fn e_number(s: &str, pos: usize) -> (r: Option<(String, usize)>)
    requires
        pos <= s@.len(),
    ensures
        tok_matches(r, p_number(s@, pos as int), s@.len()),
{
    let n = s.unicode_len();
    if pos < n {
        let c = s.get_char(pos);
        if '0' <= c && c <= '9' {
            let end = e_skip(s, CharClass::Digit, pos + 1);
            return Some((s.substring_char(pos, end).to_owned(), end));
        }
    }
    None
}

fn e_string(s: &str, pos: usize) -> (r: Option<(String, usize)>)
    requires
        pos <= s@.len(),
    ensures
        tok_matches(r, p_string(s@, pos as int), s@.len()),
{
    let n = s.unicode_len();
    if pos < n && s.get_char(pos) == '"' {
        match e_name(s, pos + 1) {
            Some((t, q)) => {
                if q < n && s.get_char(q) == '"' {
                    Some((t, q + 1))
                } else {
                    None
                }
            },
            None => None,
        }
    } else {
        None
    }
}

fn e_op(s: &str, pos: usize) -> (r: Option<(BinaryOp, usize)>)
    requires
        pos <= s@.len(),
    ensures
        ({
            let m = p_op(s@, pos as int);
            match r {
                Some((op, q)) => m is Some && op == m->Some_0.0 && q as int == m->Some_0.1 && q
                    <= s@.len(),
                None => m is None,
            }
        }),
{
    let n = s.unicode_len();
    if pos < n {
        let c = s.get_char(pos);
        if c == '+' {
            Some((BinaryOp::Add, pos + 1))
        } else if c == '-' {
            Some((BinaryOp::Sub, pos + 1))
        } else if c == '/' {
            Some((BinaryOp::Div, pos + 1))
        } else if c == '*' {
            Some((BinaryOp::Mul, pos + 1))
        } else {
            None
        }
    } else {
        None
    }
}

fn e_literal(s: &str, pos: usize) -> (r: Option<(Expr, usize)>)
    requires
        pos <= s@.len(),
    ensures
        node_matches(r, p_literal(s@, pos as int), s@.len()),
{
    match e_number(s, pos) {
        Some((t, q)) => Some((Expr::Literal(t), q)),
        None => match e_name(s, pos) {
            Some((nm, q)) => Some((Expr::Identifier(nm), q)),
            None => match e_string(s, pos) {
                Some((t, q)) => Some((Expr::Literal(t), q)),
                None => None,
            },
        },
    }
}

fn e_arithmetic(s: &str, pos: usize) -> (r: Option<(Expr, usize)>)
    requires
        pos <= s@.len(),
    ensures
        node_matches(r, p_arithmetic(s@, pos as int), s@.len()),
{
    match e_literal(s, pos) {
        Some((lhs, q1)) => {
            let q2 = e_skip(s, CharClass::Blank, q1);
            match e_op(s, q2) {
                Some((op, q3)) => {
                    let q4 = e_skip(s, CharClass::Blank, q3);
                    match e_literal(s, q4) {
                        Some((rhs, q5)) => Some(
                            (Expr::Operation(Box::new(lhs), Box::new(rhs), op), q5),
                        ),
                        None => None,
                    }
                },
                None => None,
            }
        },
        None => None,
    }
}

fn e_params_more(s: &str, pos: usize) -> (r: (Vec<String>, usize))
    requires
        pos <= s@.len(),
    ensures
        names_match(r, p_params_more(s@, pos as int), s@.len()),
    decreases s@.len() - pos,
{
    let n = s.unicode_len();
    if pos < n && s.get_char(pos) == ',' {
        let a = e_skip(s, CharClass::Blank, pos + 1);
        match e_name(s, a) {
            Some((nm, q)) => {
                let q2 = e_skip(s, CharClass::Blank, q);
                let b0 = if q2 > pos {
                    q2
                } else {
                    pos + 1
                };
                let b = if b0 > n {
                    n
                } else {
                    b0
                };
                let (mut v, rr) = e_params_more(s, b);
                let ghost dv0 = v.deep_view();
                v.insert(0, nm);
                proof {
                    assert(v.deep_view() =~= seq![nm@] + dv0);
                }
                (v, rr)
            },
            None => {
                let v: Vec<String> = Vec::new();
                proof {
                    assert(v.deep_view() =~= Seq::<Seq<char>>::empty());
                }
                (v, pos)
            },
        }
    } else {
        let v: Vec<String> = Vec::new();
        proof {
            assert(v.deep_view() =~= Seq::<Seq<char>>::empty());
        }
        (v, pos)
    }
}

fn e_params(s: &str, pos: usize) -> (r: (Vec<String>, usize))
    requires
        pos <= s@.len(),
    ensures
        names_match(r, p_params(s@, pos as int), s@.len()),
{
    let a = e_skip(s, CharClass::Blank, pos);
    match e_name(s, a) {
        Some((nm, q)) => {
            let q2 = e_skip(s, CharClass::Blank, q);
            let (mut v, rr) = e_params_more(s, q2);
            let ghost dv0 = v.deep_view();
            v.insert(0, nm);
            proof {
                assert(v.deep_view() =~= seq![nm@] + dv0);
            }
            (v, rr)
        },
        None => {
            let v: Vec<String> = Vec::new();
            proof {
                assert(v.deep_view() =~= Seq::<Seq<char>>::empty());
            }
            (v, pos)
        },
    }
}


fn e_assignment(s: &str, pos: usize) -> (r: Option<(Expr, usize)>)
    requires
        pos <= s@.len(),
    ensures
        node_matches(r, p_assignment(s@, pos as int), s@.len()),
    decreases s@.len() - pos, 1int,
{
    match e_name(s, pos) {
        Some((nm, q1)) => {
            let q2 = e_skip(s, CharClass::Blank, q1);
            let n = s.unicode_len();
            if q2 < n && s.get_char(q2) == '=' {
                let q3 = e_skip(s, CharClass::Blank, q2 + 1);
                proof {
                    assert(q1 as int >= pos + 1);
                    assert(q3 > pos);
                }
                match e_expression(s, q3) {
                    Some((e, q4)) => Some(
                        (Expr::Assign(nm, Box::new(e)), e_skip(s, CharClass::Newline, q4)),
                    ),
                    None => None,
                }
            } else {
                None
            }
        },
        None => None,
    }
}

fn e_call(s: &str, pos: usize) -> (r: Option<(Expr, usize)>)
    requires
        pos <= s@.len(),
    ensures
        node_matches(r, p_call(s@, pos as int), s@.len()),
    decreases s@.len() - pos, 2int,
{
    let q0 = e_skip(s, CharClass::Blank, pos);
    match e_name(s, q0) {
        Some((nm, q1)) => {
            let q2 = e_skip(s, CharClass::Blank, q1);
            let n = s.unicode_len();
            if q2 < n && s.get_char(q2) == '(' {
                proof {
                    assert(q1 as int >= q0 + 1);
                }
                let (args, q3) = e_args(s, q2 + 1);
                if q3 < n && s.get_char(q3) == ')' {
                    if q3 + 1 < n && s.get_char(q3 + 1) == '\n' {
                        Some((Expr::Call(nm, args), e_skip(s, CharClass::Newline, q3 + 2)))
                    } else {
                        None
                    }
                } else {
                    None
                }
            } else {
                None
            }
        },
        None => None,
    }
}

fn e_expression(s: &str, pos: usize) -> (r: Option<(Expr, usize)>)
    requires
        pos <= s@.len(),
    ensures
        node_matches(r, p_expression(s@, pos as int), s@.len()),
    decreases s@.len() - pos, 3int,
{
    match e_assignment(s, pos) {
        Some(r0) => Some(r0),
        None => match e_call(s, pos) {
            Some(r0) => Some(r0),
            None => match e_arithmetic(s, pos) {
                Some(r0) => Some(r0),
                None => e_literal(s, pos),
            },
        },
    }
}

fn e_args(s: &str, pos: usize) -> (r: (Vec<Expr>, usize))
    requires
        pos <= s@.len(),
    ensures
        nodes_match(r, p_args(s@, pos as int), s@.len()),
    decreases s@.len() - pos, 4int,
{
    let n = s.unicode_len();
    if pos >= n {
        let v: Vec<Expr> = Vec::new();
        proof {
            assert(view_exprs(v@) =~= Seq::<ExprV>::empty());
        }
        return (v, pos);
    }
    let a = e_skip(s, CharClass::Blank, pos);
    match e_expression(s, a) {
        Some((e, q)) => {
            let q2 = e_skip(s, CharClass::Blank, q);
            let b0 = if q2 > pos {
                q2
            } else {
                pos + 1
            };
            let b = if b0 > n {
                n
            } else {
                b0
            };
            let (mut v, rr) = e_args_more(s, b);
            let ghost v0 = v@;
            let ghost e0 = e;
            v.insert(0, e);
            proof {
                v0.insert_ensures(0, e0);
                lemma_view_exprs(v@);
                lemma_view_exprs(v0);
                let lhs = view_exprs(v@);
                let rhs = seq![view_expr(e0)] + view_exprs(v0);
                assert forall|i: int| 0 <= i < lhs.len() implies lhs[i] == rhs[i] by {
                    if i == 0 {
                        assert(v@[0] == e0);
                    } else {
                        assert(v@[i] == v0[i - 1]);
                    }
                }
                assert(lhs =~= rhs);
            }
            (v, rr)
        },
        None => {
            let v: Vec<Expr> = Vec::new();
            proof {
                assert(view_exprs(v@) =~= Seq::<ExprV>::empty());
            }
            (v, pos)
        },
    }
}

fn e_args_more(s: &str, pos: usize) -> (r: (Vec<Expr>, usize))
    requires
        pos <= s@.len(),
    ensures
        nodes_match(r, p_args_more(s@, pos as int), s@.len()),
    decreases s@.len() - pos, 5int,
{
    let n = s.unicode_len();
    if pos < n && s.get_char(pos) == ',' {
        let a = e_skip(s, CharClass::Blank, pos + 1);
        match e_expression(s, a) {
            Some((e, q)) => {
                let q2 = e_skip(s, CharClass::Blank, q);
                let b0 = if q2 > pos {
                    q2
                } else {
                    pos + 1
                };
                let b = if b0 > n {
                    n
                } else {
                    b0
                };
                let (mut v, rr) = e_args_more(s, b);
                let ghost v0 = v@;
                let ghost e0 = e;
                v.insert(0, e);
                proof {
                    v0.insert_ensures(0, e0);
                    lemma_view_exprs(v@);
                    lemma_view_exprs(v0);
                    let lhs = view_exprs(v@);
                    let rhs = seq![view_expr(e0)] + view_exprs(v0);
                    assert forall|i: int| 0 <= i < lhs.len() implies lhs[i] == rhs[i] by {
                        if i == 0 {
                            assert(v@[0] == e0);
                        } else {
                            assert(v@[i] == v0[i - 1]);
                        }
                    }
                    assert(lhs =~= rhs);
                }
                (v, rr)
            },
            None => {
                let v: Vec<Expr> = Vec::new();
                proof {
                    assert(view_exprs(v@) =~= Seq::<ExprV>::empty());
                }
                (v, pos)
            },
        }
    } else {
        let v: Vec<Expr> = Vec::new();
        proof {
            assert(view_exprs(v@) =~= Seq::<ExprV>::empty());
        }
        (v, pos)
    }
}

fn e_simple(s: &str, pos: usize) -> (r: Option<(Expr, usize)>)
    requires
        pos <= s@.len(),
    ensures
        node_matches(r, p_simple(s@, pos as int), s@.len()),
    decreases s@.len() - pos, 6int,
{
    let a = e_skip(s, CharClass::BlankNewline, pos);
    e_assignment(s, a)
}

fn e_function(s: &str, pos: usize) -> (r: Option<(Expr, usize)>)
    requires
        pos <= s@.len(),
    ensures
        node_matches(r, p_function(s@, pos as int), s@.len()),
    decreases s@.len() - pos, 7int,
{
    let n = s.unicode_len();
    let q0 = e_skip(s, CharClass::BlankNewline, pos);
    if q0 < n && n - q0 > 2 && s.get_char(q0) == 'd' && s.get_char(q0 + 1) == 'e' && s.get_char(
        q0 + 2,
    ) == 'f' {
        let q1 = e_skip(s, CharClass::Blank, q0 + 3);
        match e_name(s, q1) {
            Some((fname, q2)) => {
                let q3 = e_skip(s, CharClass::Blank, q2);
                if q3 < n && s.get_char(q3) == '(' {
                    let (ps, q4) = e_params(s, q3 + 1);
                    if q4 < n && s.get_char(q4) == ')' {
                        let q5 = e_skip(s, CharClass::Blank, q4 + 1);
                        if q5 < n && s.get_char(q5) == ':' {
                            let q6 = e_skip(s, CharClass::Blank, q5 + 1);
                            if q6 < n && s.get_char(q6) == '\n' {
                                let q7 = e_skip(s, CharClass::Newline, q6 + 1);
                                let b0 = if q7 > pos {
                                    q7
                                } else {
                                    pos + 1
                                };
                                let b = if b0 > n {
                                    n
                                } else {
                                    b0
                                };
                                match e_statements(s, b) {
                                    Some((body, q8)) => Some(
                                        (Expr::Function(fname, ps, body), q8),
                                    ),
                                    None => None,
                                }
                            } else {
                                None
                            }
                        } else {
                            None
                        }
                    } else {
                        None
                    }
                } else {
                    None
                }
            },
            None => None,
        }
    } else {
        None
    }
}

fn e_statement(s: &str, pos: usize) -> (r: Option<(Expr, usize)>)
    requires
        pos <= s@.len(),
    ensures
        node_matches(r, p_statement(s@, pos as int), s@.len()),
    decreases s@.len() - pos, 8int,
{
    match e_function(s, pos) {
        Some(r0) => Some(r0),
        None => match e_call(s, pos) {
            Some(r0) => Some(r0),
            None => e_simple(s, pos),
        },
    }
}

fn e_statements(s: &str, pos: usize) -> (r: Option<(Vec<Expr>, usize)>)
    requires
        pos <= s@.len(),
    ensures
        ({
            let m = p_statements(s@, pos as int);
            match r {
                Some((v, q)) => m is Some && view_exprs(v@) == m->Some_0.0 && q as int
                    == m->Some_0.1 && q <= s@.len(),
                None => m is None,
            }
        }),
    decreases s@.len() - pos, 9int,
{
    let n = s.unicode_len();
    if pos >= n {
        return None;
    }
    match e_statement(s, pos) {
        Some((e, q)) => {
            let b0 = if q > pos {
                q
            } else {
                pos + 1
            };
            let b = if b0 > n {
                n
            } else {
                b0
            };
            match e_statements(s, b) {
                Some((mut v, rr)) => {
                    let ghost v0 = v@;
                    let ghost e0 = e;
                    v.insert(0, e);
                    proof {
                        v0.insert_ensures(0, e0);
                        lemma_view_exprs(v@);
                        lemma_view_exprs(v0);
                        let lhs = view_exprs(v@);
                        let rhs = seq![view_expr(e0)] + view_exprs(v0);
                        assert forall|i: int| 0 <= i < lhs.len() implies lhs[i] == rhs[i] by {
                            if i == 0 {
                                assert(v@[0] == e0);
                            } else {
                                assert(v@[i] == v0[i - 1]);
                            }
                        }
                        assert(lhs =~= rhs);
                    }
                    Some((v, rr))
                },
                None => {
                    let mut v: Vec<Expr> = Vec::new();
                    v.push(e);
                    proof {
                        lemma_view_exprs(v@);
                        assert(view_exprs(v@) =~= seq![view_expr(e)]);
                    }
                    Some((v, b))
                },
            }
        },
        None => None,
    }
}

/// Parse a whole source unit.
///
/// Success is returned exactly when the grammar recognizes the input,
/// and the returned tree is exactly the one the grammar describes; on
/// failure the error carries the offset, in characters, that the parser
/// could not get past.
pub fn file(source: &str) -> (r: Result<Vec<Expr>, ParseError>)
    ensures
        r is Ok <==> p_file(source@) is Some,
        r matches Ok(ast) ==> view_exprs(ast@) == p_file(source@)->Some_0,
        r matches Err(e) ==> e.offset <= source@.len(),
{
    let n = source.unicode_len();
    match e_statements(source, 0) {
        Some((stmts, q)) => {
            let q2 = e_skip(source, CharClass::BlankNewline, q);
            if q2 == n {
                Ok(stmts)
            } else {
                Err(ParseError { offset: q2, expected: "a statement".to_owned() })
            }
        },
        None => {
            let q2 = e_skip(source, CharClass::BlankNewline, 0);
            if q2 == n {
                Ok(Vec::new())
            } else {
                Err(ParseError { offset: q2, expected: "a statement".to_owned() })
            }
        },
    }
}

} // verus!
