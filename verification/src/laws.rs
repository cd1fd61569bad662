//! General properties of the compiler, stated and proved once and for
//! all inputs.

use vstd::prelude::*;

use crate::ast::ExprV;
use crate::eval::invoke_top_v;
use crate::eval::invoke_v;
use crate::ir::UnitV;
use crate::parser::p_file;
use crate::translate::ErrV;
use crate::translate::add_name;
use crate::translate::add_names;
use crate::translate::builder_new;
use crate::translate::expr_targets;
use crate::translate::exprs_targets;
use crate::translate::index_of;
use crate::translate::lemma_index_of_from;
use crate::translate::stmts_targets;
use crate::translate::sess_extends;
use crate::translate::tr_args;
use crate::translate::tr_expr;
use crate::translate::tr_func_def;
use crate::translate::tr_stmts;
use crate::translate::tr_unit;
use crate::translate::BuilderV;
use crate::translate::SessV;

verus! {

broadcast use vstd::seq::axiom_seq_index_decreases;

/// Does some assignment anywhere inside the expression target `n`?  A
/// nested function definition does not count: its targets live in a
/// table of its own.
pub open spec fn target_in_expr(e: ExprV, n: Seq<char>) -> bool
    decreases e, 0int, 0int,
{
    match e {
        ExprV::Assign(m, inner) => m == n || target_in_expr(*inner, n),
        ExprV::Operation(l, r, _) => target_in_expr(*l, n) || target_in_expr(*r, n),
        ExprV::Call(_, args) => target_in_exprs(args, 0, n),
        _ => false,
    }
}

pub open spec fn target_in_exprs(es: Seq<ExprV>, i: int, n: Seq<char>) -> bool
    decreases es, 1int, es.len() - i,
{
    if i < 0 || i >= es.len() {
        false
    } else {
        target_in_expr(es[i], n) || target_in_exprs(es, i + 1, n)
    }
}

pub open spec fn target_in_stmts(stmts: Seq<ExprV>, i: int, n: Seq<char>) -> bool
    decreases stmts.len() - i,
{
    if i < 0 || i >= stmts.len() {
        false
    } else {
        (match stmts[i] {
            ExprV::Function(_, _, _) => false,
            e => target_in_expr(e, n),
        }) || target_in_stmts(stmts, i + 1, n)
    }
}

/// Has the name a slot in this table?
pub open spec fn declared(vars: Seq<Seq<char>>, n: Seq<char>) -> bool {
    index_of(vars, n) is Some
}

/// A name has a slot exactly when it stands somewhere in the table.
pub proof fn lemma_declared_iff(vars: Seq<Seq<char>>, n: Seq<char>)
    ensures
        declared(vars, n) <==> exists|k: int| 0 <= k < vars.len() && vars[k] == n,
{
    lemma_index_of_from(vars, n, 0);
}

/// The law of the pre-declaration pass: a table that starts with a
/// prefix holding no target keeps that prefix, and grows by exactly
/// the names it would have grown from the rest alone.
proof fn lemma_expr_targets_concat(pre: Seq<Seq<char>>, vars: Seq<Seq<char>>, e: ExprV)
    requires
        forall|n: Seq<char>| #[trigger] target_in_expr(e, n) ==> !declared(pre, n),
    ensures
        expr_targets(pre + vars, e) == pre + expr_targets(vars, e),
    decreases e, 0int, 0int,
{
    match e {
        ExprV::Assign(m, inner) => {
            assert(target_in_expr(e, m));
            lemma_declared_iff(pre, m);
            lemma_declared_iff(vars, m);
            lemma_declared_iff(pre + vars, m);
            if declared(vars, m) {
                assert(declared(pre + vars, m)) by {
                    let k = choose|k: int| 0 <= k < vars.len() && vars[k] == m;
                    assert((pre + vars)[pre.len() + k] == m);
                }
                assert(add_name(pre + vars, m) == pre + vars);
                assert(add_name(vars, m) == vars);
                assert forall|n: Seq<char>| #[trigger] target_in_expr(*inner, n) implies
                    !declared(pre, n) by {
                    assert(target_in_expr(e, n));
                }
                lemma_expr_targets_concat(pre, vars, *inner);
            } else {
                assert(!declared(pre + vars, m)) by {
                    if declared(pre + vars, m) {
                        let k = choose|k: int|
                            0 <= k < (pre + vars).len() && (pre + vars)[k] == m;
                        if k < pre.len() {
                            assert(pre[k] == m);
                        } else {
                            assert(vars[k - pre.len()] == m);
                        }
                    }
                }
                assert((pre + vars).push(m) =~= pre + vars.push(m));
                assert forall|n: Seq<char>| #[trigger] target_in_expr(*inner, n) implies
                    !declared(pre, n) by {
                    assert(target_in_expr(e, n));
                }
                lemma_expr_targets_concat(pre, vars.push(m), *inner);
            }
        },
        ExprV::Operation(l, r, _) => {
            assert forall|n: Seq<char>| #[trigger] target_in_expr(*l, n) implies !declared(
                pre,
                n,
            ) by {
                assert(target_in_expr(e, n));
            }
            assert forall|n: Seq<char>| #[trigger] target_in_expr(*r, n) implies !declared(
                pre,
                n,
            ) by {
                assert(target_in_expr(e, n));
            }
            lemma_expr_targets_concat(pre, vars, *l);
            lemma_expr_targets_concat(pre, expr_targets(vars, *l), *r);
        },
        ExprV::Call(_, args) => {
            assert forall|n: Seq<char>| #[trigger] target_in_exprs(args, 0, n) implies !declared(
                pre,
                n,
            ) by {
                assert(target_in_expr(e, n));
            }
            lemma_exprs_targets_concat(pre, vars, args, 0);
        },
        _ => {},
    }
}

proof fn lemma_exprs_targets_concat(
    pre: Seq<Seq<char>>,
    vars: Seq<Seq<char>>,
    es: Seq<ExprV>,
    i: int,
)
    requires
        forall|n: Seq<char>| #[trigger] target_in_exprs(es, i, n) ==> !declared(pre, n),
    ensures
        exprs_targets(pre + vars, es, i) == pre + exprs_targets(vars, es, i),
    decreases es, 1int, es.len() - i,
{
    if !(i < 0 || i >= es.len()) {
        assert forall|n: Seq<char>| #[trigger] target_in_expr(es[i], n) implies !declared(
            pre,
            n,
        ) by {
            assert(target_in_exprs(es, i, n));
        }
        lemma_expr_targets_concat(pre, vars, es[i]);
        assert forall|n: Seq<char>| #[trigger] target_in_exprs(es, i + 1, n) implies !declared(
            pre,
            n,
        ) by {
            assert(target_in_exprs(es, i, n));
        }
        lemma_exprs_targets_concat(pre, expr_targets(vars, es[i]), es, i + 1);
    }
}

proof fn lemma_stmts_targets_concat(
    pre: Seq<Seq<char>>,
    vars: Seq<Seq<char>>,
    stmts: Seq<ExprV>,
    i: int,
)
    requires
        forall|n: Seq<char>| #[trigger] target_in_stmts(stmts, i, n) ==> !declared(pre, n),
    ensures
        stmts_targets(pre + vars, stmts, i) == pre + stmts_targets(vars, stmts, i),
    decreases stmts.len() - i,
{
    if !(i < 0 || i >= stmts.len()) {
        match stmts[i] {
            ExprV::Function(_, _, _) => {
                assert forall|n: Seq<char>| #[trigger] target_in_stmts(stmts, i + 1, n) implies
                    !declared(pre, n) by {
                    assert(target_in_stmts(stmts, i, n));
                }
                lemma_stmts_targets_concat(pre, vars, stmts, i + 1);
            },
            e => {
                assert forall|n: Seq<char>| #[trigger] target_in_expr(e, n) implies !declared(
                    pre,
                    n,
                ) by {
                    assert(target_in_stmts(stmts, i, n));
                }
                lemma_expr_targets_concat(pre, vars, e);
                assert forall|n: Seq<char>| #[trigger] target_in_stmts(stmts, i + 1, n) implies
                    !declared(pre, n) by {
                    assert(target_in_stmts(stmts, i, n));
                }
                lemma_stmts_targets_concat(pre, expr_targets(vars, e), stmts, i + 1);
            },
        }
    }
}

/// Declaring distinct fresh names grows the table by one slot each and
/// declares exactly those names.
proof fn lemma_add_names_distinct(vars: Seq<Seq<char>>, params: Seq<Seq<char>>, i: int)
    requires
        0 <= i <= params.len(),
        forall|a: int, b: int| i <= a < b < params.len() ==> params[a] != params[b],
        forall|a: int| i <= a < params.len() ==> !declared(vars, #[trigger] params[a]),
    ensures
        add_names(vars, params, i).len() == vars.len() + (params.len() - i),
        forall|n: Seq<char>| #[trigger] declared(add_names(vars, params, i), n) <==> (declared(
            vars,
            n,
        ) || exists|a: int| i <= a < params.len() && params[a] == n),
    decreases params.len() - i,
{
    if i < params.len() {
        lemma_declared_iff(vars, params[i]);
        let vars2 = vars.push(params[i]);
        assert(add_name(vars, params[i]) == vars2);
        assert forall|a: int| i + 1 <= a < params.len() implies !declared(
            vars2,
            #[trigger] params[a],
        ) by {
            lemma_declared_iff(vars2, params[a]);
            lemma_declared_iff(vars, params[a]);
            if declared(vars2, params[a]) {
                let k = choose|k: int| 0 <= k < vars2.len() && vars2[k] == params[a];
                if k < vars.len() {
                    assert(vars[k] == params[a]);
                } else {
                    assert(params[i] == params[a]);
                }
            }
        }
        lemma_add_names_distinct(vars2, params, i + 1);
        assert forall|n: Seq<char>| #[trigger] declared(add_names(vars, params, i), n) implies (
        declared(vars, n) || exists|a: int| i <= a < params.len() && params[a] == n) by {
            if declared(vars2, n) && !declared(vars, n) {
                lemma_declared_iff(vars2, n);
                lemma_declared_iff(vars, n);
                let k = choose|k: int| 0 <= k < vars2.len() && vars2[k] == n;
                assert(k == vars.len());
                assert(params[i] == n);
            }
        }
        assert forall|n: Seq<char>| (declared(vars, n) || exists|a: int|
            i <= a < params.len() && params[a] == n) implies #[trigger] declared(
            add_names(vars, params, i),
            n,
        ) by {
            if declared(vars, n) {
                lemma_declared_iff(vars, n);
                let k = choose|k: int| 0 <= k < vars.len() && vars[k] == n;
                assert(vars2[k] == n);
                lemma_declared_iff(vars2, n);
            } else {
                let a = choose|a: int| i <= a < params.len() && params[a] == n;
                if a == i {
                    lemma_declared_iff(vars2, n);
                    assert(vars2[vars.len() as int] == n);
                } else {
                    assert(i + 1 <= a < params.len() && params[a] == n);
                }
            }
        }
    }
}

/// Slot allocation counts exactly: a function with `M` parameters, no
/// redeclaration, and `N` distinct assignment targets gets `M + 1 + N`
/// slots — the parameters, the designated result, and the targets,
/// each under its name.
pub proof fn lemma_slot_count(params: Seq<Seq<char>>, ret_name: Seq<char>, stmts: Seq<ExprV>)
    requires
        forall|a: int, b: int| 0 <= a < b < params.len() ==> params[a] != params[b],
        forall|a: int| 0 <= a < params.len() ==> #[trigger] params[a] != ret_name,
        forall|n: Seq<char>| #[trigger] target_in_stmts(stmts, 0, n) ==> !params.contains(n) && n
            != ret_name,
    ensures
        builder_new(params, ret_name, stmts).vars.len() == params.len() + 1 + stmts_targets(
            Seq::empty(),
            stmts,
            0,
        ).len(),
{
    let empty = Seq::<Seq<char>>::empty();
    assert forall|a: int| 0 <= a < params.len() implies !declared(
        empty,
        #[trigger] params[a],
    ) by {
        lemma_declared_iff(empty, params[a]);
    }
    lemma_add_names_distinct(empty, params, 0);
    let vars0 = add_names(empty, params, 0);
    assert(!declared(vars0, ret_name)) by {
        if declared(vars0, ret_name) {
            lemma_declared_iff(empty, ret_name);
        }
    }
    let vars1 = vars0.push(ret_name);
    assert(add_name(vars0, ret_name) == vars1);
    assert forall|n: Seq<char>| #[trigger] target_in_stmts(stmts, 0, n) implies !declared(
        vars1,
        n,
    ) by {
        lemma_declared_iff(vars1, n);
        if declared(vars1, n) {
            let k = choose|k: int| 0 <= k < vars1.len() && vars1[k] == n;
            if k < vars0.len() {
                lemma_declared_iff(vars0, n);
                assert(declared(vars0, n)) by {
                    assert(vars0[k] == n);
                }
                lemma_declared_iff(empty, n);
                let a = choose|a: int| 0 <= a < params.len() && params[a] == n;
                assert(params.contains(n)) by {
                    assert(0 <= a < params.len() && params[a] == n);
                }
            } else {
                assert(n == ret_name);
            }
        }
    }
    assert(vars1 + empty =~= vars1);
    lemma_stmts_targets_concat(vars1, empty, stmts, 0);
    assert(builder_new(params, ret_name, stmts).vars == vars1 + stmts_targets(empty, stmts, 0));
}

/// Determinism: compiling the same source twice gives the same unit,
/// and evaluating the same unit on the same arguments and data twice
/// gives the same outcome.  Nothing in parsing, translation or
/// evaluation depends on anything but its inputs.
pub proof fn lemma_deterministic(
    s1: Seq<char>,
    s2: Seq<char>,
    ret_name: Seq<char>,
    name: Seq<char>,
    args: Seq<u64>,
    data: Seq<u64>,
    u1: UnitV,
    u2: UnitV,
)
    requires
        s1 == s2,
        u1 == u2,
    ensures
        p_file(s1) == p_file(s2),
        p_file(s1) matches Some(ast) ==> tr_unit(ast, ret_name) == tr_unit(
            p_file(s2)->Some_0,
            ret_name,
        ),
        invoke_v(u1, name, args, data) == invoke_v(u2, name, args, data),
        invoke_top_v(u1, data) == invoke_top_v(u2, data),
{
}

/// A variable read yields exactly the value bound to the name's slot;
/// a name with no slot, or whose slot was never given a value, fails
/// with `UndefinedVariable` — it never silently becomes zero.
pub proof fn lemma_undefined_read(sess: SessV, b: BuilderV, n: Seq<char>)
    ensures
        tr_expr(sess, b, ExprV::Identifier(n)) == match index_of(b.vars, n) {
            Some(slot) => match b.vals[slot] {
                Some(v) => Ok::<_, ErrV>((sess, b, v)),
                None => Err(ErrV::UndefinedVariable(n)),
            },
            None => Err(ErrV::UndefinedVariable(n)),
        },
{
}

/// An empty source unit parses to no statements at all and compiles to
/// zero functions, zero data symbols and no top-level code, without
/// error.
pub proof fn lemma_empty_unit(ret_name: Seq<char>)
    ensures
        p_file(Seq::<char>::empty()) == Some(Seq::<ExprV>::empty()),
        tr_unit(Seq::empty(), ret_name) matches Ok(u) && u.funcs.len() == 0 && u.data.len() == 0
            && u.top is None,
{
    let s = Seq::<char>::empty();
    assert(crate::parser::skip_rec(s, crate::parser::CharClass::BlankNewline, 0) == 0);
    assert(p_file(s) == Some(Seq::<ExprV>::empty()));
    let m = tr_unit(Seq::empty(), ret_name);
    assert(m matches Ok(u) && u.funcs.len() == 0 && u.data.len() == 0 && u.top is None);
}


/// Is a function of this name registered?
pub open spec fn has_func(funcs: Seq<(Seq<char>, crate::ir::FuncV)>, n: Seq<char>) -> bool {
    exists|k: int| 0 <= k < funcs.len() && funcs[k].0 == n
}

/// Translation only ever extends the session's tables.
proof fn lemma_tr_expr_extends(sess: SessV, b: BuilderV, e: ExprV)
    ensures
        tr_expr(sess, b, e) matches Ok(o) ==> sess_extends(o.0, sess),
    decreases e, 0int, 0int,
{
    match e {
        ExprV::Assign(_, inner) => {
            lemma_tr_expr_extends(sess, b, *inner);
        },
        ExprV::Operation(l, r, _) => {
            lemma_tr_expr_extends(sess, b, *l);
            match tr_expr(sess, b, *l) {
                Ok(o) => {
                    lemma_tr_expr_extends(o.0, o.1, *r);
                },
                Err(_) => {},
            }
        },
        ExprV::Call(_, args) => {
            lemma_tr_args_extends(sess, b, args, 0, Seq::empty());
        },
        ExprV::Function(n, ps, body) => {
            lemma_tr_func_def_extends(sess, n, ps, body);
        },
        _ => {},
    }
}

proof fn lemma_tr_args_extends(
    sess: SessV,
    b: BuilderV,
    args: Seq<ExprV>,
    i: int,
    acc: Seq<crate::ir::RefV>,
)
    ensures
        tr_args(sess, b, args, i, acc) matches Ok(o) ==> sess_extends(o.0, sess),
    decreases args, 1int, args.len() - i,
{
    if !(i < 0 || i >= args.len()) {
        lemma_tr_expr_extends(sess, b, args[i]);
        match tr_expr(sess, b, args[i]) {
            Ok(o) => {
                lemma_tr_args_extends(o.0, o.1, args, i + 1, acc.push(o.2));
            },
            Err(_) => {},
        }
    }
}

proof fn lemma_tr_stmts_extends(sess: SessV, b: BuilderV, stmts: Seq<ExprV>, i: int)
    ensures
        tr_stmts(sess, b, stmts, i) matches Ok(o) ==> sess_extends(o.0, sess),
    decreases stmts, 1int, stmts.len() - i,
{
    if !(i < 0 || i >= stmts.len()) {
        match stmts[i] {
            ExprV::Function(n, ps, body) => {
                lemma_tr_func_def_extends(sess, n, ps, body);
                match tr_func_def(sess, n, ps, body) {
                    Ok(s2) => {
                        lemma_tr_stmts_extends(s2, b, stmts, i + 1);
                    },
                    Err(_) => {},
                }
            },
            e => {
                lemma_tr_expr_extends(sess, b, e);
                match tr_expr(sess, b, e) {
                    Ok(o) => {
                        lemma_tr_stmts_extends(o.0, o.1, stmts, i + 1);
                    },
                    Err(_) => {},
                }
            },
        }
    }
}

proof fn lemma_tr_func_def_extends(
    sess: SessV,
    n: Seq<char>,
    ps: Seq<Seq<char>>,
    body: Seq<ExprV>,
)
    ensures
        tr_func_def(sess, n, ps, body) matches Ok(s2) ==> sess_extends(s2, sess) && s2.funcs.len()
            >= 1 && s2.funcs.last().0 == n,
    decreases body, 2int, 0int,
{
    let b0 = builder_new(ps, sess.ret_name, body);
    lemma_tr_stmts_extends(sess, b0, body, 0);
}

/// Once registered, a function stays registered.
proof fn lemma_has_func_extends(s2: SessV, s1: SessV, n: Seq<char>)
    requires
        sess_extends(s2, s1),
        has_func(s1.funcs, n),
    ensures
        has_func(s2.funcs, n),
{
    let k = choose|k: int| 0 <= k < s1.funcs.len() && s1.funcs[k].0 == n;
    assert(s2.funcs[k].0 == n);
}

proof fn lemma_defs_registered(sess: SessV, b: BuilderV, stmts: Seq<ExprV>, i: int)
    requires
        0 <= i,
    ensures
        tr_stmts(sess, b, stmts, i) matches Ok(o) ==> forall|j: int|
            i <= j < stmts.len() ==> ((#[trigger] stmts[j]) matches ExprV::Function(n, _, _)
                ==> has_func(o.0.funcs, n)),
    decreases stmts, 1int, stmts.len() - i,
{
    if !(i < 0 || i >= stmts.len()) {
        match stmts[i] {
            ExprV::Function(n, ps, body) => {
                lemma_tr_func_def_extends(sess, n, ps, body);
                match tr_func_def(sess, n, ps, body) {
                    Ok(s2) => {
                        lemma_defs_registered(s2, b, stmts, i + 1);
                        lemma_tr_stmts_extends(s2, b, stmts, i + 1);
                        match tr_stmts(s2, b, stmts, i + 1) {
                            Ok(o) => {
                                assert(has_func(s2.funcs, n)) by {
                                    assert(s2.funcs[s2.funcs.len() - 1].0 == n);
                                }
                                lemma_has_func_extends(o.0, s2, n);
                                assert forall|j: int| i <= j < stmts.len() implies ((
                                #[trigger] stmts[j]) matches ExprV::Function(m, _, _)
                                    ==> has_func(o.0.funcs, m)) by {
                                    if j == i {
                                        assert(stmts[j] == stmts[i]);
                                    }
                                }
                            },
                            Err(_) => {},
                        }
                    },
                    Err(_) => {},
                }
            },
            e => {
                match tr_expr(sess, b, e) {
                    Ok(o2) => {
                        lemma_defs_registered(o2.0, o2.1, stmts, i + 1);
                        match tr_stmts(o2.0, o2.1, stmts, i + 1) {
                            Ok(o) => {
                                assert forall|j: int| i <= j < stmts.len() implies ((
                                #[trigger] stmts[j]) matches ExprV::Function(m, _, _)
                                    ==> has_func(o.0.funcs, m)) by {
                                    if j == i {
                                        assert(!(stmts[i] matches ExprV::Function(m, _, _)));
                                    }
                                }
                            },
                            Err(_) => {},
                        }
                    },
                    Err(_) => {},
                }
            },
        }
    }
}

/// Every function definition of a unit that compiles is registered
/// under its own name — none is silently dropped; the caller picks an
/// entry point by name afterwards.
pub proof fn lemma_every_definition_registered(ast: Seq<ExprV>, ret_name: Seq<char>)
    ensures
        tr_unit(ast, ret_name) matches Ok(u) ==> forall|j: int|
            0 <= j < ast.len() ==> ((#[trigger] ast[j]) matches ExprV::Function(n, _, _)
                ==> has_func(u.funcs, n)),
{
    let sess0 = SessV { funcs: Seq::empty(), data: Seq::empty(), ret_name };
    let b0 = builder_new(Seq::empty(), ret_name, ast);
    lemma_defs_registered(sess0, b0, ast, 0);
}

} // verus!
