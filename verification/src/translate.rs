//! Lowering of the abstract syntax tree into SSA intermediate code.
//!
//! The algorithm is single-pass per function:
//!
//! 1. Slot pre-declaration: one scan assigns a slot to every parameter
//!    (in declaration order), then to the designated result name, then
//!    to every assignment target in body order, skipping names already
//!    seen.  Nothing is patched retroactively afterwards.
//! 2. Entry-block construction: the single basic block is created and
//!    sealed at once — the language has no branching, so the block's
//!    only predecessor is the call itself — each incoming parameter is
//!    bound to its slot, and the result slot is initialized to zero.
//! 3. Statement translation in source order.
//! 4. Finalization: the value currently bound to the result slot
//!    becomes the function's return value, and the finished code is
//!    registered under the function's name.
//!
//! The functions named `tr_*` are the specification of the translator;
//! the executable methods below are proved to agree with them.

use vstd::prelude::*;

use crate::ast::Expr;
use crate::ast::ExprV;
use crate::ast::view_expr;
use crate::ast::view_exprs;
use crate::ast::lemma_view_exprs;
use crate::ir::Block;
use crate::ir::BlockV;
use crate::ir::FuncV;
use crate::ir::FunctionIr;
use crate::ir::Inst;
use crate::ir::InstV;
use crate::ir::RefV;
use crate::ir::UnitIr;
use crate::ir::UnitV;
use crate::parser::is_digit;

verus! {

broadcast use vstd::seq::axiom_seq_index_decreases, vstd::std_specs::vec::axiom_vec_index_decreases, vstd::std_specs::vec::axiom_vec_decreases_to_view;

/// Why a source unit could not be compiled.  Compilation is
/// all-or-nothing: the first failure aborts the unit.
pub enum CompileError {
    /// The text is not in the language; `offset` is the character the
    /// parser could not get past.
    Parse { offset: usize, expected: String },
    /// A literal token that is not a base-10 numeral fitting a machine
    /// word.
    InvalidLiteral { text: String },
    /// A read of a name whose slot has not been given a value, or that
    /// has no slot at all.
    UndefinedVariable { name: String },
    /// A name declared twice as a function, or declared both as a
    /// function and as a data symbol.
    DuplicateSymbol { name: String },
    /// A call of a name that is not a registered function of that
    /// arity at this point of the single pass.
    UnresolvedCall { name: String },
}

/// The mathematical form of a compilation failure.
pub enum ErrV {
    Parse(int),
    InvalidLiteral(Seq<char>),
    UndefinedVariable(Seq<char>),
    DuplicateSymbol(Seq<char>),
    UnresolvedCall(Seq<char>),
}

pub open spec fn view_err(e: CompileError) -> ErrV {
    match e {
        CompileError::Parse { offset, expected } => ErrV::Parse(offset as int),
        CompileError::InvalidLiteral { text } => ErrV::InvalidLiteral(text@),
        CompileError::UndefinedVariable { name } => ErrV::UndefinedVariable(name@),
        CompileError::DuplicateSymbol { name } => ErrV::DuplicateSymbol(name@),
        CompileError::UnresolvedCall { name } => ErrV::UnresolvedCall(name@),
    }
}

/// Per-function state of the builder while its code is being emitted:
/// the variable table, the value currently bound to each slot, the
/// instructions of the entry block, and the slot reserved for the
/// result.
pub struct BuilderV {
    pub vars: Seq<Seq<char>>,
    pub vals: Seq<Option<RefV>>,
    pub insts: Seq<InstV>,
    pub param_count: nat,
    pub ret_slot: int,
    pub sealed: bool,
}

/// State shared by every function of one compilation: the functions
/// registered so far, the data symbols declared so far, and the name
/// designated for the result slot.
pub struct SessV {
    pub funcs: Seq<(Seq<char>, FuncV)>,
    pub data: Seq<Seq<char>>,
    pub ret_name: Seq<char>,
}

/// First index at or after `i` holding exactly `n`.
pub open spec fn index_of_from(names: Seq<Seq<char>>, n: Seq<char>, i: int) -> Option<int>
    decreases names.len() - i,
{
    if i < 0 || i >= names.len() {
        None
    } else if names[i] == n {
        Some(i)
    } else {
        index_of_from(names, n, i + 1)
    }
}

pub open spec fn index_of(names: Seq<Seq<char>>, n: Seq<char>) -> Option<int> {
    index_of_from(names, n, 0)
}

/// First index at or after `i` whose function is named exactly `n`.
pub open spec fn func_index_from(funcs: Seq<(Seq<char>, FuncV)>, n: Seq<char>, i: int) -> Option<
    int,
>
    decreases funcs.len() - i,
{
    if i < 0 || i >= funcs.len() {
        None
    } else if funcs[i].0 == n {
        Some(i)
    } else {
        func_index_from(funcs, n, i + 1)
    }
}

pub open spec fn func_index(funcs: Seq<(Seq<char>, FuncV)>, n: Seq<char>) -> Option<int> {
    func_index_from(funcs, n, 0)
}

/// Declare a name: give it the next slot unless it already has one.
pub open spec fn add_name(vars: Seq<Seq<char>>, n: Seq<char>) -> Seq<Seq<char>> {
    if index_of(vars, n) is Some {
        vars
    } else {
        vars.push(n)
    }
}

pub open spec fn add_names(vars: Seq<Seq<char>>, names: Seq<Seq<char>>, i: int) -> Seq<Seq<char>>
    decreases names.len() - i,
{
    if i < 0 || i >= names.len() {
        vars
    } else {
        add_names(add_name(vars, names[i]), names, i + 1)
    }
}

/// Declare every assignment target inside one expression, in source
/// order.  A nested function definition is skipped: its body gets a
/// fresh table of its own.
pub open spec fn expr_targets(vars: Seq<Seq<char>>, e: ExprV) -> Seq<Seq<char>>
    decreases e, 0int, 0int,
{
    match e {
        ExprV::Literal(_) => vars,
        ExprV::Identifier(_) => vars,
        ExprV::GlobalDataAddr(_) => vars,
        ExprV::Assign(n, inner) => expr_targets(add_name(vars, n), *inner),
        ExprV::Operation(l, r, _) => expr_targets(expr_targets(vars, *l), *r),
        ExprV::Call(_, args) => exprs_targets(vars, args, 0),
        ExprV::Function(_, _, _) => vars,
    }
}

pub open spec fn exprs_targets(vars: Seq<Seq<char>>, es: Seq<ExprV>, i: int) -> Seq<Seq<char>>
    decreases es, 1int, es.len() - i,
{
    if i < 0 || i >= es.len() {
        vars
    } else {
        exprs_targets(expr_targets(vars, es[i]), es, i + 1)
    }
}

/// Declare the assignment targets of a statement list; function
/// definitions declare nothing in the enclosing table.
pub open spec fn stmts_targets(vars: Seq<Seq<char>>, stmts: Seq<ExprV>, i: int) -> Seq<Seq<char>>
    decreases stmts.len() - i,
{
    if i < 0 || i >= stmts.len() {
        vars
    } else {
        let vars2 = match stmts[i] {
            ExprV::Function(_, _, _) => vars,
            e => expr_targets(vars, e),
        };
        stmts_targets(vars2, stmts, i + 1)
    }
}

/// Bind each incoming parameter value to its slot, in order; with a
/// repeated parameter name the later binding wins.
pub open spec fn bind_params(
    vals: Seq<Option<RefV>>,
    vars: Seq<Seq<char>>,
    params: Seq<Seq<char>>,
    i: int,
) -> Seq<Option<RefV>>
    decreases params.len() - i,
{
    if i < 0 || i >= params.len() {
        vals
    } else {
        let vals2 = match index_of(vars, params[i]) {
            Some(slot) => vals.update(slot, Some(RefV::Param(i))),
            None => vals,
        };
        bind_params(vals2, vars, params, i + 1)
    }
}

/// Steps 1 and 2 for one function: pre-declare every slot, bind the
/// parameters, seal the entry block, and initialize the result slot to
/// the zero word, which is the block's first instruction.
pub open spec fn builder_new(
    params: Seq<Seq<char>>,
    ret_name: Seq<char>,
    stmts: Seq<ExprV>,
) -> BuilderV {
    let vars0 = add_names(Seq::empty(), params, 0);
    let vars1 = add_name(vars0, ret_name);
    let vars = stmts_targets(vars1, stmts, 0);
    let ret_slot = match index_of(vars1, ret_name) {
        Some(s) => s,
        None => 0,
    };
    let vals0 = Seq::new(vars.len(), |i: int| None::<RefV>);
    let vals1 = bind_params(vals0, vars, params, 0);
    BuilderV {
        vars,
        vals: vals1.update(ret_slot, Some(RefV::Result(0))),
        insts: seq![InstV::Const(0)],
        param_count: params.len(),
        ret_slot,
        sealed: true,
    }
}

/// Append one instruction; its result refers to it.
pub open spec fn emit(b: BuilderV, inst: InstV) -> (BuilderV, RefV) {
    (
        BuilderV { insts: b.insts.push(inst), ..b },
        RefV::Result(b.insts.len() as int),
    )
}

/// Numeric value of a digit string, most significant digit first.
pub open spec fn digits_val(t: Seq<char>) -> int
    decreases t.len(),
{
    if t.len() == 0 {
        0
    } else {
        digits_val(t.drop_last()) * 10 + (t.last() as int - 48)
    }
}

pub open spec fn all_digits(t: Seq<char>) -> bool {
    forall|i: int| 0 <= i < t.len() ==> is_digit(#[trigger] t[i])
}

/// A literal token read as a base-10 machine word: it must be a
/// non-empty digit string whose value fits in 64 bits.
pub open spec fn str_to_word(t: Seq<char>) -> Option<u64> {
    if t.len() == 0 || !all_digits(t) {
        None
    } else if digits_val(t) > u64::MAX {
        None
    } else {
        Some(digits_val(t) as u64)
    }
}

/// Is `n` already a registered symbol of either kind?
pub open spec fn symbol_exists(sess: SessV, n: Seq<char>) -> bool {
    func_index(sess.funcs, n) is Some || index_of(sess.data, n) is Some
}

/// Step 4: the value currently bound to the result slot becomes the
/// return value, and the block — sealed since construction — is final.
pub open spec fn finalize(b: BuilderV) -> FuncV {
    FuncV {
        param_count: b.param_count,
        entry: BlockV { insts: b.insts, sealed: b.sealed },
        ret: match b.vals[b.ret_slot] {
            Some(v) => v,
            None => RefV::Result(0),
        },
        vars: b.vars,
    }
}

/// Translate one expression: the session, the builder, and the value
/// id the expression evaluates to.
///
/// * A literal is read as a base-10 machine word — `InvalidLiteral`
///   otherwise — and becomes a constant.
/// * An identifier reads the value currently bound to its slot;
///   `UndefinedVariable` when it has no slot or no value yet.
/// * An assignment evaluates its expression and binds the value as the
///   new current value of the target's slot; the target must have been
///   pre-declared.
/// * A data address resolves the symbol, declaring it if absent;
///   `DuplicateSymbol` when the name is already a function.
/// * An operation evaluates left then right and applies the operator.
/// * A call evaluates its arguments left to right and resolves the
///   name among the functions registered so far; `UnresolvedCall` when
///   none of that name and arity exists.
/// * A function definition registers the function (fresh table, fresh
///   block) and yields the zero word.
pub open spec fn tr_expr(sess: SessV, b: BuilderV, e: ExprV) -> Result<
    (SessV, BuilderV, RefV),
    ErrV,
>
    decreases e, 0int, 0int,
{
    match e {
        ExprV::Literal(t) => match str_to_word(t) {
            Some(v) => {
                let (b2, id) = emit(b, InstV::Const(v));
                Ok((sess, b2, id))
            },
            None => Err(ErrV::InvalidLiteral(t)),
        },
        ExprV::Identifier(n) => match index_of(b.vars, n) {
            Some(slot) => match b.vals[slot] {
                Some(v) => Ok((sess, b, v)),
                None => Err(ErrV::UndefinedVariable(n)),
            },
            None => Err(ErrV::UndefinedVariable(n)),
        },
        ExprV::Assign(n, inner) => match tr_expr(sess, b, *inner) {
            Ok((sess2, b2, v)) => match index_of(b2.vars, n) {
                Some(slot) => Ok(
                    (sess2, BuilderV { vals: b2.vals.update(slot, Some(v)), ..b2 }, v),
                ),
                None => Err(ErrV::UndefinedVariable(n)),
            },
            Err(er) => Err(er),
        },
        ExprV::GlobalDataAddr(n) => {
            if func_index(sess.funcs, n) is Some {
                Err(ErrV::DuplicateSymbol(n))
            } else {
                let (sess2, d) = match index_of(sess.data, n) {
                    Some(d) => (sess, d),
                    None => (
                        SessV { data: sess.data.push(n), ..sess },
                        sess.data.len() as int,
                    ),
                };
                let (b2, id) = emit(b, InstV::SymbolAddr(d));
                Ok((sess2, b2, id))
            }
        },
        ExprV::Operation(l, r, op) => match tr_expr(sess, b, *l) {
            Ok((sess2, b2, v1)) => match tr_expr(sess2, b2, *r) {
                Ok((sess3, b3, v2)) => {
                    let (b4, id) = emit(b3, InstV::Binary(op, v1, v2));
                    Ok((sess3, b4, id))
                },
                Err(er) => Err(er),
            },
            Err(er) => Err(er),
        },
        ExprV::Call(n, args) => match tr_args(sess, b, args, 0, Seq::empty()) {
            Ok((sess2, b2, argvals)) => match func_index(sess2.funcs, n) {
                Some(j) => if args.len() == sess2.funcs[j].1.param_count {
                    let (b3, id) = emit(b2, InstV::Call(j, argvals));
                    Ok((sess2, b3, id))
                } else {
                    Err(ErrV::UnresolvedCall(n))
                },
                None => Err(ErrV::UnresolvedCall(n)),
            },
            Err(er) => Err(er),
        },
        ExprV::Function(n, ps, body) => match tr_func_def(sess, n, ps, body) {
            Ok(sess2) => {
                let (b2, id) = emit(b, InstV::Const(0));
                Ok((sess2, b2, id))
            },
            Err(er) => Err(er),
        },
    }
}

/// Translate call arguments left to right, collecting their value ids.
pub open spec fn tr_args(
    sess: SessV,
    b: BuilderV,
    args: Seq<ExprV>,
    i: int,
    acc: Seq<RefV>,
) -> Result<(SessV, BuilderV, Seq<RefV>), ErrV>
    decreases args, 1int, args.len() - i,
{
    if i < 0 || i >= args.len() {
        Ok((sess, b, acc))
    } else {
        match tr_expr(sess, b, args[i]) {
            Ok((sess2, b2, v)) => tr_args(sess2, b2, args, i + 1, acc.push(v)),
            Err(er) => Err(er),
        }
    }
}

/// Translate a statement list in source order.  A function definition
/// is registered without touching the surrounding block; any other
/// statement is an expression whose value is left unused.
pub open spec fn tr_stmts(sess: SessV, b: BuilderV, stmts: Seq<ExprV>, i: int) -> Result<
    (SessV, BuilderV),
    ErrV,
>
    decreases stmts, 1int, stmts.len() - i,
{
    if i < 0 || i >= stmts.len() {
        Ok((sess, b))
    } else {
        match stmts[i] {
            ExprV::Function(n, ps, body) => match tr_func_def(sess, n, ps, body) {
                Ok(sess2) => tr_stmts(sess2, b, stmts, i + 1),
                Err(er) => Err(er),
            },
            e => match tr_expr(sess, b, e) {
                Ok((sess2, b2, _v)) => tr_stmts(sess2, b2, stmts, i + 1),
                Err(er) => Err(er),
            },
        }
    }
}

/// Translate one function definition and register it: fresh variable
/// table, fresh sealed block, body in source order, then registration
/// under its name — `DuplicateSymbol` when the name is already taken.
/// Registration happens after the body, so a function can call only
/// functions registered before it, never itself.
pub open spec fn tr_func_def(
    sess: SessV,
    n: Seq<char>,
    ps: Seq<Seq<char>>,
    body: Seq<ExprV>,
) -> Result<SessV, ErrV>
    decreases body, 2int, 0int,
{
    let b0 = builder_new(ps, sess.ret_name, body);
    match tr_stmts(sess, b0, body, 0) {
        Ok((sess2, b1)) => if symbol_exists(sess2, n) {
            Err(ErrV::DuplicateSymbol(n))
        } else {
            Ok(SessV { funcs: sess2.funcs.push((n, finalize(b1))), ..sess2 })
        },
        Err(er) => Err(er),
    }
}

/// Is any top-level item a bare statement rather than a definition?
pub open spec fn has_bare_stmt(ast: Seq<ExprV>) -> bool {
    exists|i: int| 0 <= i < ast.len() && !((#[trigger] ast[i]) is Function)
}

/// Translate a whole source unit.  Every function definition is
/// compiled and registered; the bare top-level statements, if any,
/// form one more function with no parameters, translated in the same
/// single pass, so a bare statement sees exactly the functions defined
/// above it.
pub open spec fn tr_unit(ast: Seq<ExprV>, ret_name: Seq<char>) -> Result<UnitV, ErrV> {
    let sess0 = SessV { funcs: Seq::empty(), data: Seq::empty(), ret_name };
    let b0 = builder_new(Seq::empty(), ret_name, ast);
    match tr_stmts(sess0, b0, ast, 0) {
        Ok((sess1, b1)) => Ok(
            UnitV {
                funcs: sess1.funcs,
                data: sess1.data,
                top: if has_bare_stmt(ast) {
                    Some(finalize(b1))
                } else {
                    None
                },
            },
        ),
        Err(er) => Err(er),
    }
}


// ---------------------------------------------------------------------
// Well-formedness of builder and session state, and how it is kept.
// ---------------------------------------------------------------------

/// `a` carries `b` as a prefix.
pub open spec fn seq_ext<T>(a: Seq<T>, b: Seq<T>) -> bool {
    b.len() <= a.len() && forall|k: int| 0 <= k < b.len() ==> a[k] == b[k]
}

/// Every function registered so far is well formed against the
/// functions below it and the data declared so far.
pub open spec fn sess_wf(s: SessV) -> bool {
    forall|k: int| 0 <= k < s.funcs.len() ==> crate::ir::func_wf(
        (#[trigger] s.funcs[k]).1,
        k,
        s.funcs,
        s.data.len() as int,
    )
}

/// The builder state is internally consistent: one value cell per slot,
/// the result slot exists, the block is sealed and owns at least its
/// zero-initialization instruction, every bound value is defined, and
/// every instruction only reads what was defined before it.
pub open spec fn builder_wf(
    b: BuilderV,
    funcs: Seq<(Seq<char>, FuncV)>,
    data_len: int,
) -> bool {
    &&& b.vals.len() == b.vars.len()
    &&& 0 <= b.ret_slot < b.vars.len()
    &&& b.sealed
    &&& b.insts.len() >= 1
    &&& forall|s: int| 0 <= s < b.vals.len() ==> match #[trigger] b.vals[s] {
        Some(r) => crate::ir::ref_wf(r, b.param_count, b.insts.len() as int),
        None => true,
    }
    &&& forall|i: int| 0 <= i < b.insts.len() ==> crate::ir::inst_wf(
        #[trigger] b.insts[i],
        b.param_count,
        i,
        funcs.len() as int,
        funcs,
        data_len,
    )
}

/// What translation may do to the session: extend the tables, never
/// rewrite them.
pub open spec fn sess_extends(s2: SessV, s1: SessV) -> bool {
    seq_ext(s2.funcs, s1.funcs) && seq_ext(s2.data, s1.data) && s2.ret_name == s1.ret_name
}

/// What translation may do to the builder: append instructions and
/// rebind slots, never touch the table shape.
pub open spec fn b_extends(b2: BuilderV, b1: BuilderV) -> bool {
    &&& b2.vars == b1.vars
    &&& b2.param_count == b1.param_count
    &&& b2.ret_slot == b1.ret_slot
    &&& b2.sealed == b1.sealed
    &&& b2.vals.len() == b1.vals.len()
    &&& b2.insts.len() >= b1.insts.len()
}

/// Instruction well-formedness survives registering more functions and
/// declaring more data.
pub proof fn lemma_inst_wf_mono(
    inst: InstV,
    param_count: nat,
    idx: int,
    funcs1: Seq<(Seq<char>, FuncV)>,
    dl1: int,
    funcs2: Seq<(Seq<char>, FuncV)>,
    dl2: int,
)
    requires
        crate::ir::inst_wf(inst, param_count, idx, funcs1.len() as int, funcs1, dl1),
        seq_ext(funcs2, funcs1),
        dl1 <= dl2,
    ensures
        crate::ir::inst_wf(inst, param_count, idx, funcs2.len() as int, funcs2, dl2),
{
    match inst {
        InstV::Call(f, args) => {
            assert(funcs2[f] == funcs1[f]);
        },
        _ => {},
    }
}

/// Builder well-formedness survives the same growth.
pub proof fn lemma_builder_wf_mono(
    b: BuilderV,
    funcs1: Seq<(Seq<char>, FuncV)>,
    dl1: int,
    funcs2: Seq<(Seq<char>, FuncV)>,
    dl2: int,
)
    requires
        builder_wf(b, funcs1, dl1),
        seq_ext(funcs2, funcs1),
        dl1 <= dl2,
    ensures
        builder_wf(b, funcs2, dl2),
{
    assert forall|i: int| 0 <= i < b.insts.len() implies crate::ir::inst_wf(
        #[trigger] b.insts[i],
        b.param_count,
        i,
        funcs2.len() as int,
        funcs2,
        dl2,
    ) by {
        lemma_inst_wf_mono(b.insts[i], b.param_count, i, funcs1, dl1, funcs2, dl2);
    }
}

/// Function well-formedness survives the same growth of the tables it
/// is checked against.
pub proof fn lemma_func_wf_mono(
    f: FuncV,
    fbound: int,
    funcs1: Seq<(Seq<char>, FuncV)>,
    dl1: int,
    funcs2: Seq<(Seq<char>, FuncV)>,
    dl2: int,
)
    requires
        crate::ir::func_wf(f, fbound, funcs1, dl1),
        seq_ext(funcs2, funcs1),
        fbound <= funcs1.len(),
        dl1 <= dl2,
    ensures
        crate::ir::func_wf(f, fbound, funcs2, dl2),
{
    assert forall|i: int| 0 <= i < f.entry.insts.len() implies crate::ir::inst_wf(
        #[trigger] f.entry.insts[i],
        f.param_count,
        i,
        fbound,
        funcs2,
        dl2,
    ) by {
        match f.entry.insts[i] {
            InstV::Call(g, args) => {
                assert(funcs2[g] == funcs1[g]);
            },
            _ => {},
        }
    }
}

/// Session well-formedness survives declaring one more data symbol.
pub proof fn lemma_sess_wf_data_push(s: SessV, n: Seq<char>)
    requires
        sess_wf(s),
    ensures
        sess_wf(SessV { data: s.data.push(n), ..s }),
{
    let s2 = SessV { data: s.data.push(n), ..s };
    assert forall|k: int| 0 <= k < s2.funcs.len() implies crate::ir::func_wf(
        (#[trigger] s2.funcs[k]).1,
        k,
        s2.funcs,
        s2.data.len() as int,
    ) by {
        lemma_func_wf_mono(s.funcs[k].1, k, s.funcs, s.data.len() as int, s2.funcs, s2.data.len() as int);
    }
}

/// Session well-formedness survives registering one more function that
/// is well formed against the current state.
pub proof fn lemma_sess_wf_func_push(s: SessV, n: Seq<char>, f: FuncV)
    requires
        sess_wf(s),
        crate::ir::func_wf(f, s.funcs.len() as int, s.funcs, s.data.len() as int),
    ensures
        sess_wf(SessV { funcs: s.funcs.push((n, f)), ..s }),
{
    let s2 = SessV { funcs: s.funcs.push((n, f)), ..s };
    assert forall|k: int| 0 <= k < s2.funcs.len() implies crate::ir::func_wf(
        (#[trigger] s2.funcs[k]).1,
        k,
        s2.funcs,
        s2.data.len() as int,
    ) by {
        if k < s.funcs.len() {
            lemma_func_wf_mono(s.funcs[k].1, k, s.funcs, s.data.len() as int, s2.funcs, s2.data.len() as int);
        } else {
            lemma_func_wf_mono(f, k, s.funcs, s.data.len() as int, s2.funcs, s2.data.len() as int);
        }
    }
}

/// Where `index_of_from` points, and what `None` rules out.
pub proof fn lemma_index_of_from(names: Seq<Seq<char>>, n: Seq<char>, i: int)
    requires
        0 <= i,
    ensures
        match index_of_from(names, n, i) {
            Some(j) => i <= j < names.len() && names[j] == n,
            None => forall|k: int| i <= k < names.len() ==> names[k] != n,
        },
    decreases names.len() - i,
{
    if !(i < 0 || i >= names.len()) && names[i] != n {
        lemma_index_of_from(names, n, i + 1);
    }
}

// ---------------------------------------------------------------------
// The executable translator.
// ---------------------------------------------------------------------

/// The mathematical form of a cell table.
pub open spec fn vals_view(v: Seq<Option<crate::ir::ValueRef>>) -> Seq<Option<RefV>> {
    Seq::new(
        v.len(),
        |i: int| match v[i] {
            Some(r) => Some(crate::ir::view_ref(r)),
            None => None,
        },
    )
}

/// Per-function working state: the variable table, the value currently
/// bound to each slot, the instructions of the single sealed entry
/// block, and the slot reserved for the designated result.
pub struct FunctionTranslator {
    pub vars: Vec<String>,
    pub vals: Vec<Option<crate::ir::ValueRef>>,
    pub insts: Vec<Inst>,
    pub param_count: usize,
    pub ret_slot: usize,
    pub sealed: bool,
}

impl View for FunctionTranslator {
    type V = BuilderV;

    open spec fn view(&self) -> BuilderV {
        BuilderV {
            vars: self.vars.deep_view(),
            vals: vals_view(self.vals@),
            insts: Seq::new(self.insts@.len(), |i: int| crate::ir::view_inst(self.insts@[i])),
            param_count: self.param_count as nat,
            ret_slot: self.ret_slot as int,
            sealed: self.sealed,
        }
    }
}

/// State shared by every function of one compilation: the functions
/// and data symbols registered so far, and the designated result name.
pub struct UnitBuilder {
    pub functions: Vec<(String, FunctionIr)>,
    pub data: Vec<String>,
    pub ret_name: String,
}

impl View for UnitBuilder {
    type V = SessV;

    open spec fn view(&self) -> SessV {
        SessV {
            funcs: Seq::new(
                self.functions@.len(),
                |i: int| (self.functions@[i].0@, self.functions@[i].1@),
            ),
            data: self.data.deep_view(),
            ret_name: self.ret_name@,
        }
    }
}

/// First slot holding exactly this name.
fn find_name(names: &Vec<String>, n: &String) -> (r: Option<usize>)
    ensures
        ({
            let m = index_of(names.deep_view(), n@);
            match r {
                Some(j) => m == Some(j as int) && j < names@.len(),
                None => m is None,
            }
        }),
{
    let ghost dv = names.deep_view();
    let mut i: usize = 0;
    while i < names.len()
        invariant
            i <= names@.len(),
            dv == names.deep_view(),
            index_of_from(dv, n@, 0) == index_of_from(dv, n@, i as int),
        decreases names@.len() - i,
    {
        if names[i] == *n {
            proof {
                assert(dv[i as int] == n@);
            }
            return Some(i);
        }
        proof {
            assert(dv[i as int] != n@);
        }
        i = i + 1;
    }
    None
}

/// First registered function of exactly this name.
pub(crate) fn find_func(funcs: &Vec<(String, FunctionIr)>, n: &String, Ghost(fv): Ghost<Seq<(Seq<char>, FuncV)>>) -> (r: Option<usize>)
    requires
        fv == Seq::new(funcs@.len(), |i: int| (funcs@[i].0@, funcs@[i].1@)),
    ensures
        ({
            let m = func_index(fv, n@);
            match r {
                Some(j) => m == Some(j as int) && j < funcs@.len(),
                None => m is None,
            }
        }),
{
    let mut i: usize = 0;
    while i < funcs.len()
        invariant
            i <= funcs@.len(),
            fv == Seq::new(funcs@.len(), |k: int| (funcs@[k].0@, funcs@[k].1@)),
            func_index_from(fv, n@, 0) == func_index_from(fv, n@, i as int),
        decreases funcs@.len() - i,
    {
        if funcs[i].0 == *n {
            proof {
                assert(fv[i as int].0 == n@);
            }
            return Some(i);
        }
        proof {
            assert(fv[i as int].0 != n@);
        }
        i = i + 1;
    }
    None
}

/// Every digit of a digit string keeps its value non-negative, and a
/// longer digit string is never worth less than its prefix.
proof fn lemma_digits_nonneg(t: Seq<char>)
    requires
        all_digits(t),
    ensures
        digits_val(t) >= 0,
    decreases t.len(),
{
    if t.len() > 0 {
        assert(all_digits(t.drop_last())) by {
            assert(forall|i: int| 0 <= i < t.len() - 1 ==> t.drop_last()[i] == t[i]);
        }
        lemma_digits_nonneg(t.drop_last());
        assert(is_digit(t.last()));
    }
}

proof fn lemma_digits_prefix(t: Seq<char>, i: int)
    requires
        all_digits(t),
        0 <= i <= t.len(),
    ensures
        digits_val(t.subrange(0, i)) >= 0,
        digits_val(t) >= digits_val(t.subrange(0, i)),
    decreases t.len() - i,
{
    assert(all_digits(t.subrange(0, i)));
    lemma_digits_nonneg(t.subrange(0, i));
    if i == t.len() {
        assert(t.subrange(0, i) =~= t);
    }
    if i < t.len() {
        lemma_digits_prefix(t, i + 1);
        let a = t.subrange(0, i);
        let b = t.subrange(0, i + 1);
        assert(b.drop_last() =~= a);
        assert(b.last() == t[i]);
        assert(is_digit(t[i]));
        assert(digits_val(b) == digits_val(a) * 10 + (t[i] as int - 48));
    }
}

/// Read a literal token as a base-10 machine word.
fn parse_word(t: &String) -> (r: Option<u64>)
    ensures
        r == str_to_word(t@),
{
    let s = t.as_str();
    let n = s.unicode_len();
    if n == 0 {
        return None;
    }
    let mut acc: u64 = 0;
    let mut i: usize = 0;
    while i < n
        invariant
            i <= n,
            n == t@.len(),
            s@ == t@,
            all_digits(t@.subrange(0, i as int)),
            acc as int == digits_val(t@.subrange(0, i as int)),
        decreases n - i,
    {
        let c = s.get_char(i);
        if !('0' <= c && c <= '9') {
            proof {
                assert(!is_digit(t@[i as int]));
            }
            return None;
        }
        let d: u64 = (c as u32 - 48) as u64;
        let ghost pre = t@.subrange(0, i as int);
        let ghost cur = t@.subrange(0, i as int + 1);
        proof {
            assert(cur.drop_last() =~= pre);
            assert(cur.last() == t@[i as int]);
            assert(all_digits(cur));
        }
        let step = match acc.checked_mul(10) {
            Some(a2) => a2.checked_add(d),
            None => None,
        };
        match step {
            Some(a3) => {
                acc = a3;
            },
            None => {
                proof {
                    assert(digits_val(cur) > u64::MAX);
                    if all_digits(t@) {
                        lemma_digits_prefix(t@, i as int + 1);
                        assert(digits_val(t@) > u64::MAX);
                    }
                }
                return None;
            },
        }
        i = i + 1;
    }
    proof {
        assert(t@.subrange(0, n as int) =~= t@);
    }
    Some(acc)
}


/// A declared name keeps its slot, and declaring only appends.
proof fn lemma_add_name(vars: Seq<Seq<char>>, n: Seq<char>)
    ensures
        seq_ext(add_name(vars, n), vars),
        index_of(add_name(vars, n), n) is Some,
{
    lemma_index_of_from(vars, n, 0);
    if index_of(vars, n) is None {
        lemma_index_of_from(vars.push(n), n, 0);
        if index_of(vars.push(n), n) is None {
            assert(vars.push(n)[vars.len() as int] == n);
        }
    }
}

proof fn lemma_expr_targets_ext(vars: Seq<Seq<char>>, e: ExprV)
    ensures
        seq_ext(expr_targets(vars, e), vars),
    decreases e, 0int, 0int,
{
    match e {
        ExprV::Assign(n, inner) => {
            lemma_add_name(vars, n);
            lemma_expr_targets_ext(add_name(vars, n), *inner);
        },
        ExprV::Operation(l, r, _) => {
            lemma_expr_targets_ext(vars, *l);
            lemma_expr_targets_ext(expr_targets(vars, *l), *r);
        },
        ExprV::Call(_, args) => {
            lemma_exprs_targets_ext(vars, args, 0);
        },
        _ => {},
    }
}

proof fn lemma_exprs_targets_ext(vars: Seq<Seq<char>>, es: Seq<ExprV>, i: int)
    ensures
        seq_ext(exprs_targets(vars, es, i), vars),
    decreases es, 1int, es.len() - i,
{
    if !(i < 0 || i >= es.len()) {
        lemma_expr_targets_ext(vars, es[i]);
        lemma_exprs_targets_ext(expr_targets(vars, es[i]), es, i + 1);
    }
}

proof fn lemma_stmts_targets_ext(vars: Seq<Seq<char>>, stmts: Seq<ExprV>, i: int)
    ensures
        seq_ext(stmts_targets(vars, stmts, i), vars),
    decreases stmts.len() - i,
{
    if !(i < 0 || i >= stmts.len()) {
        match stmts[i] {
            ExprV::Function(_, _, _) => {
                lemma_stmts_targets_ext(vars, stmts, i + 1);
            },
            e => {
                lemma_expr_targets_ext(vars, e);
                lemma_stmts_targets_ext(expr_targets(vars, e), stmts, i + 1);
            },
        }
    }
}

/// Binding parameters changes no cell into anything but a parameter
/// reference, and keeps the table's length.
proof fn lemma_bind_params(
    vals: Seq<Option<RefV>>,
    vars: Seq<Seq<char>>,
    params: Seq<Seq<char>>,
    i: int,
)
    requires
        vals.len() == vars.len(),
        0 <= i,
    ensures
        bind_params(vals, vars, params, i).len() == vals.len(),
        forall|s: int| 0 <= s < vals.len() ==> (#[trigger] bind_params(vals, vars, params, i)[s]
            == vals[s] || (bind_params(vals, vars, params, i)[s] matches Some(RefV::Param(j))
            && i <= j < params.len())),
    decreases params.len() - i,
{
    if !(i < 0 || i >= params.len()) {
        let vals2 = match index_of(vars, params[i]) {
            Some(slot) => vals.update(slot, Some(RefV::Param(i))),
            None => vals,
        };
        lemma_index_of_from(vars, params[i], 0);
        lemma_bind_params(vals2, vars, params, i + 1);
    }
}

/// A fresh builder is well formed against any session tables.
pub proof fn lemma_builder_new_wf(
    params: Seq<Seq<char>>,
    ret_name: Seq<char>,
    stmts: Seq<ExprV>,
    funcs: Seq<(Seq<char>, FuncV)>,
    dl: int,
)
    ensures
        builder_wf(builder_new(params, ret_name, stmts), funcs, dl),
{
    let vars0 = add_names(Seq::empty(), params, 0);
    let vars1 = add_name(vars0, ret_name);
    let vars = stmts_targets(vars1, stmts, 0);
    lemma_add_name(vars0, ret_name);
    lemma_stmts_targets_ext(vars1, stmts, 0);
    lemma_index_of_from(vars1, ret_name, 0);
    let vals0 = Seq::new(vars.len(), |i: int| None::<RefV>);
    lemma_bind_params(vals0, vars, params, 0);
    let b = builder_new(params, ret_name, stmts);
    assert forall|s: int| 0 <= s < b.vals.len() implies match #[trigger] b.vals[s] {
        Some(r) => crate::ir::ref_wf(r, b.param_count, b.insts.len() as int),
        None => true,
    } by {
        let vals1 = bind_params(vals0, vars, params, 0);
        if s != b.ret_slot {
            assert(b.vals[s] == vals1[s]);
        }
    }
    assert(b.insts[0] == InstV::Const(0));
}


/// Declare one name if it has no slot yet (step 1 for a single name).
fn declare_variable(vars: &mut Vec<String>, name: &String)
    ensures
        final(vars).deep_view() == add_name(old(vars).deep_view(), name@),
{
    let ghost dv = vars.deep_view();
    match find_name(vars, name) {
        Some(_) => {},
        None => {
            vars.push(name.clone());
            proof {
                assert(vars.deep_view() =~= dv.push(name@));
            }
        },
    }
}

/// Declare every assignment target inside one expression.
#[verifier::loop_isolation(false)]
fn declare_expr_targets(vars: &mut Vec<String>, e: &Expr)
    ensures
        final(vars).deep_view() == expr_targets(old(vars).deep_view(), view_expr(*e)),
    decreases *e, 0int,
{
    match e {
        Expr::Assign(n, inner) => {
            declare_variable(vars, n);
            declare_expr_targets(vars, inner);
        },
        Expr::Operation(l, r, _) => {
            declare_expr_targets(vars, l);
            declare_expr_targets(vars, r);
        },
        Expr::Call(_, args) => {
            let ghost dv0 = vars.deep_view();
            let ghost argsv = view_exprs(args@);
            let mut i: usize = 0;
            proof {
                lemma_view_exprs(args@);
            }
            while i < args.len()
                invariant
                    i <= args@.len(),
                    argsv == view_exprs(args@),
                    argsv.len() == args@.len(),
                    forall|k: int| 0 <= k < args@.len() ==> argsv[k] == view_expr(
                        #[trigger] args@[k],
                    ),
                    exprs_targets(vars.deep_view(), argsv, i as int) == exprs_targets(
                        dv0,
                        argsv,
                        0,
                    ),
                decreases args@.len() - i,
            {
                proof {
                    assert(decreases_to!(*e => *args));
                }
                declare_expr_targets(vars, &args[i]);
                i = i + 1;
            }
        },
        _ => {},
    }
}

/// Step 1 and step 2: build the variable table (parameters first, then
/// the designated result name, then every assignment target in body
/// order), create the sealed entry block, bind the parameters, and
/// initialize the result slot to the zero word.
pub fn declare_variables(
    params: &Vec<String>,
    the_return: &String,
    stmts: &Vec<Expr>,
) -> (r: FunctionTranslator)
    ensures
        r@ == builder_new(params.deep_view(), the_return@, view_exprs(stmts@)),
        r@.param_count == params@.len(),
{
    let ghost pdv = params.deep_view();
    let mut vars: Vec<String> = Vec::new();
    proof {
        assert(vars.deep_view() =~= Seq::<Seq<char>>::empty());
    }
    let mut i: usize = 0;
    while i < params.len()
        invariant
            i <= params@.len(),
            pdv == params.deep_view(),
            pdv.len() == params@.len(),
            add_names(vars.deep_view(), pdv, i as int) == add_names(Seq::empty(), pdv, 0),
        decreases params@.len() - i,
    {
        declare_variable(&mut vars, &params[i]);
        i = i + 1;
    }
    declare_variable(&mut vars, the_return);
    let ghost vars1 = vars.deep_view();
    let ret_slot = match find_name(&vars, the_return) {
        Some(s) => s,
        None => 0,
    };
    let ghost stmtsv = view_exprs(stmts@);
    let mut j: usize = 0;
    proof {
        lemma_view_exprs(stmts@);
    }
    while j < stmts.len()
        invariant
            j <= stmts@.len(),
            stmtsv == view_exprs(stmts@),
            stmtsv.len() == stmts@.len(),
            forall|k: int| 0 <= k < stmts@.len() ==> stmtsv[k] == view_expr(#[trigger] stmts@[k]),
            stmts_targets(vars.deep_view(), stmtsv, j as int) == stmts_targets(vars1, stmtsv, 0),
        decreases stmts@.len() - j,
    {
        match &stmts[j] {
            Expr::Function(_, _, _) => {
                proof {
                    assert(view_expr(stmts@[j as int]) matches ExprV::Function(_, _, _));
                }
            },
            _ => {
                declare_expr_targets(&mut vars, &stmts[j]);
            },
        }
        j = j + 1;
    }
    let mut vals: Vec<Option<crate::ir::ValueRef>> = Vec::new();
    let mut k: usize = 0;
    let n_vars = vars.len();
    while k < n_vars
        invariant
            k <= n_vars,
            n_vars == vars@.len(),
            vals@.len() == k,
            forall|s: int| 0 <= s < k ==> vals@[s] is None,
        decreases n_vars - k,
    {
        vals.push(None);
        k = k + 1;
    }
    proof {
        assert(vals_view(vals@) =~= Seq::new(vars.deep_view().len(), |i: int| None::<RefV>));
    }
    let mut m: usize = 0;
    let ghost vdv = vars.deep_view();
    while m < params.len()
        invariant
            m <= params@.len(),
            pdv == params.deep_view(),
            pdv.len() == params@.len(),
            vdv == vars.deep_view(),
            vals@.len() == vars@.len(),
            bind_params(vals_view(vals@), vdv, pdv, m as int) == bind_params(
                Seq::new(vdv.len(), |i: int| None::<RefV>),
                vdv,
                pdv,
                0,
            ),
        decreases params@.len() - m,
    {
        match find_name(&vars, &params[m]) {
            Some(slot) => {
                let ghost old_vals = vals_view(vals@);
                vals.set(slot, Some(crate::ir::ValueRef::Param(m)));
                proof {
                    assert(vals_view(vals@) =~= old_vals.update(
                        slot as int,
                        Some(RefV::Param(m as int)),
                    ));
                }
            },
            None => {},
        }
        m = m + 1;
    }
    proof {
        lemma_add_name(add_names(Seq::empty(), pdv, 0), the_return@);
        lemma_stmts_targets_ext(vars1, stmtsv, 0);
        lemma_index_of_from(vars1, the_return@, 0);
    }
    let ghost old_vals = vals_view(vals@);
    vals.set(ret_slot, Some(crate::ir::ValueRef::Result(0)));
    proof {
        assert(vals_view(vals@) =~= old_vals.update(ret_slot as int, Some(RefV::Result(0))));
    }
    let mut insts: Vec<Inst> = Vec::new();
    insts.push(Inst::Const(0));
    let r = FunctionTranslator {
        vars,
        vals,
        insts,
        param_count: params.len(),
        ret_slot,
        sealed: true,
    };
    proof {
        assert(r@.insts =~= seq![InstV::Const(0)]);
        assert(r@ == builder_new(pdv, the_return@, stmtsv));
    }
    r
}


/// The mathematical form of an argument-value list.
pub open spec fn refs_view(v: Seq<crate::ir::ValueRef>) -> Seq<RefV> {
    Seq::new(v.len(), |i: int| crate::ir::view_ref(v[i]))
}

impl FunctionTranslator {
    /// Append one instruction to the sealed entry block; the result
    /// refers to it.
    fn push_inst(
        &mut self,
        inst: Inst,
        Ghost(funcs): Ghost<Seq<(Seq<char>, FuncV)>>,
        Ghost(dl): Ghost<int>,
    ) -> (r: crate::ir::ValueRef)
        requires
            builder_wf(old(self)@, funcs, dl),
            crate::ir::inst_wf(
                crate::ir::view_inst(inst),
                old(self)@.param_count,
                old(self)@.insts.len() as int,
                funcs.len() as int,
                funcs,
                dl,
            ),
        ensures
            ({
                let (b2, rv) = emit(old(self)@, crate::ir::view_inst(inst));
                &&& final(self)@ == b2
                &&& crate::ir::view_ref(r) == rv
            }),
            builder_wf(final(self)@, funcs, dl),
            b_extends(final(self)@, old(self)@),
            crate::ir::ref_wf(
                crate::ir::view_ref(r),
                final(self)@.param_count,
                final(self)@.insts.len() as int,
            ),
    {
        let ghost inst_v = crate::ir::view_inst(inst);
        let id = self.insts.len();
        self.insts.push(inst);
        proof {
            assert(self@.insts =~= old(self)@.insts.push(inst_v));
            let b2 = self@;
            assert forall|s: int| 0 <= s < b2.vals.len() implies match #[trigger] b2.vals[s] {
                Some(rr) => crate::ir::ref_wf(rr, b2.param_count, b2.insts.len() as int),
                None => true,
            } by {
                assert(b2.vals[s] == old(self)@.vals[s]);
            }
        }
        crate::ir::ValueRef::Result(id)
    }

    /// Translate one expression into the entry block, and hand back
    /// the value it evaluates to.  The session may gain data symbols
    /// and, through a nested definition, functions; the builder gains
    /// instructions and rebindings; on failure the unit is abandoned.
    #[verifier::loop_isolation(false)]
    pub fn translate_expr(&mut self, sess: &mut UnitBuilder, expr: &Expr) -> (r: Result<
        crate::ir::ValueRef,
        CompileError,
    >)
        requires
            sess_wf(old(sess)@),
            builder_wf(old(self)@, old(sess)@.funcs, old(sess)@.data.len() as int),
        ensures
            ({
                let m = tr_expr(old(sess)@, old(self)@, view_expr(*expr));
                match r {
                    Ok(v) => {
                        &&& m matches Ok(o)
                        &&& final(sess)@ == o.0
                        &&& final(self)@ == o.1
                        &&& crate::ir::view_ref(v) == o.2
                        &&& sess_wf(final(sess)@)
                        &&& builder_wf(final(self)@, final(sess)@.funcs, final(sess)@.data.len() as int)
                        &&& sess_extends(final(sess)@, old(sess)@)
                        &&& b_extends(final(self)@, old(self)@)
                        &&& crate::ir::ref_wf(
                            crate::ir::view_ref(v),
                            final(self)@.param_count,
                            final(self)@.insts.len() as int,
                        )
                    },
                    Err(e) => m matches Err(ev) && view_err(e) == ev,
                }
            }),
        decreases *expr, 0int,
    {
        let ghost sess0 = sess@;
        let ghost b0 = self@;
        match expr {
            Expr::Literal(t) => {
                match parse_word(t) {
                    Some(v) => Ok(self.push_inst(Inst::Const(v), Ghost(sess@.funcs), Ghost(sess@.data.len() as int))),
                    None => Err(CompileError::InvalidLiteral { text: t.clone() }),
                }
            },
            Expr::Identifier(n) => {
                match find_name(&self.vars, n) {
                    Some(slot) => match self.vals[slot] {
                        Some(v) => Ok(v),
                        None => Err(CompileError::UndefinedVariable { name: n.clone() }),
                    },
                    None => Err(CompileError::UndefinedVariable { name: n.clone() }),
                }
            },
            Expr::Assign(n, inner) => {
                let v = match self.translate_expr(sess, inner) {
                    Ok(v) => v,
                    Err(e) => {
                        return Err(e);
                    },
                };
                match find_name(&self.vars, n) {
                    Some(slot) => {
                        let ghost old_vals = vals_view(self.vals@);
                        self.vals.set(slot, Some(v));
                        proof {
                            assert(vals_view(self.vals@) =~= old_vals.update(
                                slot as int,
                                Some(crate::ir::view_ref(v)),
                            ));
                        }
                        Ok(v)
                    },
                    None => Err(CompileError::UndefinedVariable { name: n.clone() }),
                }
            },
            Expr::GlobalDataAddr(n) => {
                match find_func(&sess.functions, n, Ghost(sess@.funcs)) {
                    Some(_) => Err(CompileError::DuplicateSymbol { name: n.clone() }),
                    None => {
                        let d: usize = match find_name(&sess.data, n) {
                            Some(d) => d,
                            None => {
                                let d = sess.data.len();
                                let ghost old_sess = sess@;
                                sess.data.push(n.clone());
                                proof {
                                    assert(sess@.data =~= old_sess.data.push(n@));
                                    assert(sess@.funcs =~= old_sess.funcs);
                                    lemma_sess_wf_data_push(old_sess, n@);
                                    assert(sess@ == SessV { data: old_sess.data.push(n@), ..old_sess });
                                    lemma_builder_wf_mono(
                                        self@,
                                        old_sess.funcs,
                                        old_sess.data.len() as int,
                                        sess@.funcs,
                                        sess@.data.len() as int,
                                    );
                                }
                                d
                            },
                        };
                        Ok(self.push_inst(Inst::SymbolAddr(d), Ghost(sess@.funcs), Ghost(sess@.data.len() as int)))
                    },
                }
            },
            Expr::Operation(l, op_r, op) => {
                let v1 = match self.translate_expr(sess, l) {
                    Ok(v) => v,
                    Err(e) => {
                        return Err(e);
                    },
                };
                let v2 = match self.translate_expr(sess, op_r) {
                    Ok(v) => v,
                    Err(e) => {
                        return Err(e);
                    },
                };
                Ok(self.push_inst(Inst::Binary(*op, v1, v2), Ghost(sess@.funcs), Ghost(sess@.data.len() as int)))
            },
            Expr::Call(n, args) => {
                let ghost argsv = view_exprs(args@);
                proof {
                    lemma_view_exprs(args@);
                }
                let mut vals: Vec<crate::ir::ValueRef> = Vec::new();
                proof {
                    assert(refs_view(vals@) =~= Seq::<RefV>::empty());
                }
                let mut i: usize = 0;
                while i < args.len()
                    invariant
                        i <= args@.len(),
                        sess_wf(sess@),
                        builder_wf(self@, sess@.funcs, sess@.data.len() as int),
                        sess_extends(sess@, sess0),
                        b_extends(self@, b0),
                        vals@.len() == i,
                        forall|k: int| 0 <= k < i ==> crate::ir::ref_wf(
                            crate::ir::view_ref(#[trigger] vals@[k]),
                            self@.param_count,
                            self@.insts.len() as int,
                        ),
                        tr_args(sess0, b0, argsv, 0, Seq::empty()) == tr_args(
                            sess@,
                            self@,
                            argsv,
                            i as int,
                            refs_view(vals@),
                        ),
                    decreases args@.len() - i,
                {
                    proof {
                        assert(decreases_to!(*expr => *args));
                    }
                    let ghost pre_b = self@;
                    let v = match self.translate_expr(sess, &args[i]) {
                        Ok(v) => v,
                        Err(e) => {
                            return Err(e);
                        },
                    };
                    let ghost old_refs = refs_view(vals@);
                    vals.push(v);
                    proof {
                        assert(refs_view(vals@) =~= old_refs.push(crate::ir::view_ref(v)));
                        assert forall|k: int| 0 <= k < i + 1 implies crate::ir::ref_wf(
                            crate::ir::view_ref(#[trigger] vals@[k]),
                            self@.param_count,
                            self@.insts.len() as int,
                        ) by {}
                    }
                    i = i + 1;
                }
                match find_func(&sess.functions, n, Ghost(sess@.funcs)) {
                    Some(j) => {
                        if args.len() == sess.functions[j].1.param_count {
                            proof {
                                assert(sess@.funcs[j as int].1 == sess.functions@[j as int].1@);
                            }
                            Ok(self.push_inst(Inst::Call(j, vals), Ghost(sess@.funcs), Ghost(sess@.data.len() as int)))
                        } else {
                            Err(CompileError::UnresolvedCall { name: n.clone() })
                        }
                    },
                    None => Err(CompileError::UnresolvedCall { name: n.clone() }),
                }
            },
            Expr::Function(n, ps, body) => {
                match translate_function(sess, n, ps, body) {
                    Ok(()) => {
                        proof {
                            lemma_builder_wf_mono(
                                self@,
                                sess0.funcs,
                                sess0.data.len() as int,
                                sess@.funcs,
                                sess@.data.len() as int,
                            );
                        }
                        Ok(self.push_inst(Inst::Const(0), Ghost(sess@.funcs), Ghost(sess@.data.len() as int)))
                    },
                    Err(e) => Err(e),
                }
            },
        }
    }

    /// Translate a statement list in source order: definitions are
    /// registered, other statements are emitted into this block.
    #[verifier::loop_isolation(false)]
    pub fn translate_stmts(&mut self, sess: &mut UnitBuilder, stmts: &Vec<Expr>) -> (r: Result<
        (),
        CompileError,
    >)
        requires
            sess_wf(old(sess)@),
            builder_wf(old(self)@, old(sess)@.funcs, old(sess)@.data.len() as int),
        ensures
            ({
                let m = tr_stmts(old(sess)@, old(self)@, view_exprs(stmts@), 0);
                match r {
                    Ok(()) => {
                        &&& m matches Ok(o)
                        &&& final(sess)@ == o.0
                        &&& final(self)@ == o.1
                        &&& sess_wf(final(sess)@)
                        &&& builder_wf(final(self)@, final(sess)@.funcs, final(sess)@.data.len() as int)
                        &&& sess_extends(final(sess)@, old(sess)@)
                        &&& b_extends(final(self)@, old(self)@)
                    },
                    Err(e) => m matches Err(ev) && view_err(e) == ev,
                }
            }),
        decreases *stmts, 1int,
    {
        let ghost sess0 = sess@;
        let ghost b0 = self@;
        let ghost stmtsv = view_exprs(stmts@);
        proof {
            lemma_view_exprs(stmts@);
        }
        let mut i: usize = 0;
        while i < stmts.len()
            invariant
                i <= stmts@.len(),
                sess_wf(sess@),
                builder_wf(self@, sess@.funcs, sess@.data.len() as int),
                sess_extends(sess@, sess0),
                b_extends(self@, b0),
                tr_stmts(sess0, b0, stmtsv, 0) == tr_stmts(sess@, self@, stmtsv, i as int),
            decreases stmts@.len() - i,
        {
            match &stmts[i] {
                Expr::Function(n, ps, body) => {
                    proof {
                        assert(decreases_to!(*stmts => stmts@[i as int]));
                        assert(stmtsv[i as int] == view_expr(stmts@[i as int]));
                    }
                    let ghost pre = sess@;
                    match translate_function(sess, n, ps, body) {
                        Ok(()) => {
                            proof {
                                lemma_builder_wf_mono(
                                    self@,
                                    pre.funcs,
                                    pre.data.len() as int,
                                    sess@.funcs,
                                    sess@.data.len() as int,
                                );
                            }
                        },
                        Err(e) => {
                            return Err(e);
                        },
                    }
                },
                _ => {
                    match self.translate_expr(sess, &stmts[i]) {
                        Ok(_) => {},
                        Err(e) => {
                            return Err(e);
                        },
                    }
                },
            }
            i = i + 1;
        }
        Ok(())
    }

    /// Step 4: seal state and instructions become the finished code;
    /// the value bound to the result slot is returned.
    pub fn finish(self) -> (r: FunctionIr)
        requires
            self.ret_slot < self.vals.len(),
        ensures
            r@ == finalize(self@),
    {
        let ghost b = self@;
        let ret = match self.vals[self.ret_slot] {
            Some(v) => v,
            None => crate::ir::ValueRef::Result(0),
        };
        let r = FunctionIr {
            param_count: self.param_count,
            entry: Block { insts: self.insts, sealed: self.sealed },
            ret,
            vars: self.vars,
        };
        proof {
            assert(r@.entry.insts =~= b.insts);
            assert(r@.vars =~= b.vars);
        }
        r
    }
}

/// A finished builder yields a well-formed function when registered at
/// the current end of the function table.
pub proof fn lemma_finish_wf(b: BuilderV, funcs: Seq<(Seq<char>, FuncV)>, dl: int)
    requires
        builder_wf(b, funcs, dl),
    ensures
        crate::ir::func_wf(finalize(b), funcs.len() as int, funcs, dl),
{
    let f = finalize(b);
    assert(f.entry.insts == b.insts);
}

/// Translate one function definition and register it under its name.
#[verifier::loop_isolation(false)]
pub fn translate_function(
    sess: &mut UnitBuilder,
    name: &String,
    params: &Vec<String>,
    body: &Vec<Expr>,
) -> (r: Result<(), CompileError>)
    requires
        sess_wf(old(sess)@),
    ensures
        ({
            let m = tr_func_def(old(sess)@, name@, params.deep_view(), view_exprs(body@));
            match r {
                Ok(()) => {
                    &&& m matches Ok(s2)
                    &&& final(sess)@ == s2
                    &&& sess_wf(final(sess)@)
                    &&& sess_extends(final(sess)@, old(sess)@)
                },
                Err(e) => m matches Err(ev) && view_err(e) == ev,
            }
        }),
    decreases *body, 2int,
{
    let ghost sess0 = sess@;
    let mut ft = declare_variables(params, &sess.ret_name, body);
    proof {
        lemma_builder_new_wf(
            params.deep_view(),
            sess0.ret_name,
            view_exprs(body@),
            sess0.funcs,
            sess0.data.len() as int,
        );
    }
    match ft.translate_stmts(sess, body) {
        Ok(()) => {},
        Err(e) => {
            return Err(e);
        },
    }
    let dup = match find_func(&sess.functions, name, Ghost(sess@.funcs)) {
        Some(_) => true,
        None => match find_name(&sess.data, name) {
            Some(_) => true,
            None => false,
        },
    };
    if dup {
        Err(CompileError::DuplicateSymbol { name: name.clone() })
    } else {
        proof {
            lemma_finish_wf(ft@, sess@.funcs, sess@.data.len() as int);
        }
        let ghost pre = sess@;
        let ghost fv = finalize(ft@);
        let f = ft.finish();
        sess.functions.push((name.clone(), f));
        proof {
            assert(sess@.funcs =~= pre.funcs.push((name@, fv)));
            assert(sess@.data =~= pre.data);
            assert(sess@ == SessV { funcs: pre.funcs.push((name@, fv)), ..pre });
            lemma_sess_wf_func_push(pre, name@, fv);
        }
        Ok(())
    }
}


/// Drives translation of whole source units to backend-ready code.
/// `the_return` is the name designated for every function's result
/// slot; a function that never assigns it returns the zero word.
pub struct JIT {
    pub the_return: String,
}

impl Default for JIT {
    /// A translator whose designated result name is `none`.
    fn default() -> (r: JIT)
        ensures
            r.the_return@ == "none"@,
    {
        JIT { the_return: "none".to_owned() }
    }
}

impl JIT {
    /// Compile one source unit: parse it, translate every function
    /// definition, and fold the bare top-level statements, if any,
    /// into one parameterless function.  The result is exactly what
    /// the grammar and the translation rules describe, and the unit
    /// is well formed, so it can be evaluated or handed to a backend.
    pub fn compile(&self, source: &str) -> (r: Result<UnitIr, CompileError>)
        ensures
            crate::parser::p_file(source@) is None ==> (r matches Err(e) && e matches
                CompileError::Parse { offset, expected } && offset <= source@.len()),
            ({
                crate::parser::p_file(source@) matches Some(astv) ==> match tr_unit(
                    astv,
                    self.the_return@,
                ) {
                    Ok(uv) => r matches Ok(u) && u@ == uv && u@.wf(),
                    Err(ev) => r matches Err(e) && view_err(e) == ev,
                }
            }),
    {
        let ast = match crate::parser::file(source) {
            Ok(a) => a,
            Err(pe) => {
                return Err(CompileError::Parse { offset: pe.offset, expected: pe.expected });
            },
        };
        let ghost astv = view_exprs(ast@);
        proof {
            lemma_view_exprs(ast@);
        }
        let mut sess = UnitBuilder {
            functions: Vec::new(),
            data: Vec::new(),
            ret_name: self.the_return.clone(),
        };
        let ghost sess0 = sess@;
        proof {
            assert(sess0.funcs =~= Seq::<(Seq<char>, FuncV)>::empty());
            assert(sess0.data =~= Seq::<Seq<char>>::empty());
        }
        let mut has_bare = false;
        let mut i: usize = 0;
        while i < ast.len()
            invariant
                i <= ast@.len(),
                astv == view_exprs(ast@),
                astv.len() == ast@.len(),
                forall|k: int| 0 <= k < ast@.len() ==> astv[k] == view_expr(#[trigger] ast@[k]),
                has_bare == exists|k: int|
                    0 <= k < i && !((#[trigger] astv[k]) is Function),
            decreases ast@.len() - i,
        {
            match &ast[i] {
                Expr::Function(_, _, _) => {
                    proof {
                        assert(astv[i as int] is Function);
                    }
                },
                _ => {
                    proof {
                        assert(!(astv[i as int] is Function));
                    }
                    has_bare = true;
                },
            }
            i = i + 1;
        }
        proof {
            assert(has_bare == has_bare_stmt(astv));
        }
        let empty_params: Vec<String> = Vec::new();
        let mut top = declare_variables(&empty_params, &sess.ret_name, &ast);
        proof {
            assert(empty_params.deep_view() =~= Seq::<Seq<char>>::empty());
            lemma_builder_new_wf(
                Seq::empty(),
                sess0.ret_name,
                astv,
                sess0.funcs,
                sess0.data.len() as int,
            );
        }
        match top.translate_stmts(&mut sess, &ast) {
            Ok(()) => {},
            Err(e) => {
                return Err(e);
            },
        }
        proof {
            lemma_finish_wf(top@, sess@.funcs, sess@.data.len() as int);
        }
        let top_ir = if has_bare {
            Some(top.finish())
        } else {
            None
        };
        let u = UnitIr { functions: sess.functions, data: sess.data, top_level: top_ir };
        proof {
            let m = tr_stmts(sess0, builder_new(Seq::empty(), sess0.ret_name, astv), astv, 0);
            assert(u@.funcs =~= m->Ok_0.0.funcs);
            assert(u@.data =~= m->Ok_0.0.data);
        }
        Ok(u)
    }
}

} // verus!
