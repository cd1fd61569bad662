//! Evaluation of compiled units.
//!
//! This is the reference meaning of the intermediate code: what a
//! native backend must compute when it runs a compiled function.  All
//! arithmetic is on 64-bit machine words and wraps; unsigned division
//! by zero is a run-time trap, never a compile-time error.  Because a
//! well-formed function only calls functions registered before it,
//! evaluation always terminates.
//!
//! The functions named `eval_*` over mathematical values are the
//! specification; the executable evaluator is proved to agree with
//! them.

use vstd::prelude::*;

use crate::ast::BinaryOp;
use crate::ir::FuncV;
use crate::ir::FunctionIr;
use crate::ir::Inst;
use crate::ir::InstV;
use crate::ir::RefV;
use crate::ir::UnitIr;
use crate::ir::UnitV;
use crate::ir::ValueRef;
use crate::ir::func_wf;
use crate::ir::ref_wf;
use crate::ir::view_ref;
use crate::translate::find_func;
use crate::translate::func_index;

verus! {

/// A fault raised while compiled code runs.
#[derive(Clone, Copy, PartialEq, Eq, Structural, Debug)]
pub enum Trap {
    DivisionByZero,
}

/// Addition modulo the machine word.
pub open spec fn word_add(a: u64, b: u64) -> u64 {
    ((a as int + b as int) % 0x1_0000_0000_0000_0000) as u64
}

/// Subtraction modulo the machine word.
pub open spec fn word_sub(a: u64, b: u64) -> u64 {
    if a >= b {
        (a as int - b as int) as u64
    } else {
        (a as int + 0x1_0000_0000_0000_0000 - b as int) as u64
    }
}

/// Multiplication modulo the machine word.
pub open spec fn word_mul(a: u64, b: u64) -> u64 {
    ((a as int * b as int) % 0x1_0000_0000_0000_0000) as u64
}

/// One arithmetic application; division is unsigned and traps on a
/// zero divisor.
pub open spec fn apply_op(op: BinaryOp, a: u64, b: u64) -> Result<u64, Trap> {
    match op {
        BinaryOp::Add => Ok(word_add(a, b)),
        BinaryOp::Sub => Ok(word_sub(a, b)),
        BinaryOp::Mul => Ok(word_mul(a, b)),
        BinaryOp::Div => if b == 0 {
            Err(Trap::DivisionByZero)
        } else {
            Ok((a as int / b as int) as u64)
        },
    }
}

/// The machine word a reference stands for, given the incoming
/// arguments and the results of the instructions already evaluated.
pub open spec fn ref_val(r: RefV, args: Seq<u64>, ivals: Seq<u64>) -> u64 {
    match r {
        RefV::Param(i) => args[i],
        RefV::Result(j) => ivals[j],
    }
}

/// Evaluate the instructions from index `i` on, extending the results
/// accumulated so far; `fbound` bounds which functions may be called.
pub open spec fn eval_insts(
    u: UnitV,
    f: FuncV,
    fbound: int,
    args: Seq<u64>,
    data: Seq<u64>,
    ivals: Seq<u64>,
    i: int,
) -> Result<Seq<u64>, Trap>
    decreases fbound, f.entry.insts.len() - i, 0int,
{
    if i < 0 || i >= f.entry.insts.len() {
        Ok(ivals)
    } else {
        let step: Result<u64, Trap> = match f.entry.insts[i] {
            InstV::Const(c) => Ok(c),
            InstV::Binary(op, a, b) => apply_op(
                op,
                ref_val(a, args, ivals),
                ref_val(b, args, ivals),
            ),
            InstV::SymbolAddr(d) => Ok(data[d]),
            InstV::Call(j, cargs) => if 0 <= j < fbound && j < u.funcs.len() {
                eval_func(
                    u,
                    u.funcs[j].1,
                    j,
                    Seq::new(cargs.len(), |k: int| ref_val(cargs[k], args, ivals)),
                    data,
                )
            } else {
                Ok(0)
            },
        };
        match step {
            Ok(v) => eval_insts(u, f, fbound, args, data, ivals.push(v), i + 1),
            Err(t) => Err(t),
        }
    }
}

/// Evaluate one function on its arguments: run the entry block, then
/// read the returned reference.
pub open spec fn eval_func(
    u: UnitV,
    f: FuncV,
    fbound: int,
    args: Seq<u64>,
    data: Seq<u64>,
) -> Result<u64, Trap>
    decreases fbound, f.entry.insts.len(), 1int,
{
    match eval_insts(u, f, fbound, args, data, Seq::empty(), 0) {
        Ok(ivals) => Ok(ref_val(f.ret, args, ivals)),
        Err(t) => Err(t),
    }
}

/// What invoking a named function of the unit yields: `None` when no
/// function of that name and arity exists.
pub open spec fn invoke_v(
    u: UnitV,
    name: Seq<char>,
    args: Seq<u64>,
    data: Seq<u64>,
) -> Option<Result<u64, Trap>> {
    match func_index(u.funcs, name) {
        Some(j) => if args.len() == u.funcs[j].1.param_count {
            Some(eval_func(u, u.funcs[j].1, j, args, data))
        } else {
            None
        },
        None => None,
    }
}

/// What invoking the top-level statements yields: `None` when the
/// source had no bare statements.
pub open spec fn invoke_top_v(u: UnitV, data: Seq<u64>) -> Option<Result<u64, Trap>> {
    match u.top {
        Some(f) => Some(eval_func(u, f, u.funcs.len() as int, Seq::empty(), data)),
        None => None,
    }
}

/// The machine word a reference stands for.
fn ref_value(r: &ValueRef, args: &Vec<u64>, ivals: &Vec<u64>) -> (v: u64)
    requires
        ref_wf(view_ref(*r), args@.len() as nat, ivals@.len() as int),
    ensures
        v == ref_val(view_ref(*r), args@, ivals@),
{
    match r {
        ValueRef::Param(i) => args[*i],
        ValueRef::Result(j) => ivals[*j],
    }
}

/// Run one function of the unit.  `bound` is its position: it may only
/// call functions registered below it, which is why the recursion
/// terminates.
#[verifier::loop_isolation(false)]
fn eval_function(
    u: &UnitIr,
    f: &FunctionIr,
    bound: usize,
    args: &Vec<u64>,
    data: &Vec<u64>,
) -> (r: Result<u64, Trap>)
    requires
        u@.wf(),
        bound <= u@.funcs.len(),
        func_wf(f@, bound as int, u@.funcs, u@.data.len() as int),
        args@.len() == f@.param_count,
        data@.len() == u@.data.len(),
    ensures
        r == eval_func(u@, f@, bound as int, args@, data@),
    decreases bound,
{
    let mut ivals: Vec<u64> = Vec::new();
    proof {
        assert(ivals@ =~= Seq::<u64>::empty());
    }
    let n = f.entry.insts.len();
    let mut i: usize = 0;
    while i < n
        invariant
            i <= n,
            ivals@.len() == i,
            eval_insts(u@, f@, bound as int, args@, data@, Seq::empty(), 0) == eval_insts(
                u@,
                f@,
                bound as int,
                args@,
                data@,
                ivals@,
                i as int,
            ),
        decreases n - i,
    {
        let ghost prev = ivals@;
        let ghost iv = f@.entry.insts[i as int];
        proof {
            assert(iv == crate::ir::view_inst(f.entry.insts@[i as int]));
            assert(crate::ir::inst_wf(
                iv,
                f@.param_count,
                i as int,
                bound as int,
                u@.funcs,
                u@.data.len() as int,
            ));
        }
        let step: u64 = match &f.entry.insts[i] {
            Inst::Const(c) => *c,
            Inst::Binary(op, a, b) => {
                let va = ref_value(a, args, &ivals);
                let vb = ref_value(b, args, &ivals);
                match op {
                    BinaryOp::Add => (((va as u128) + (vb as u128))
                        % 0x1_0000_0000_0000_0000u128) as u64,
                    BinaryOp::Sub => {
                        if va >= vb {
                            va - vb
                        } else {
                            (((va as u128) + 0x1_0000_0000_0000_0000u128 - (vb as u128))) as u64
                        }
                    },
                    BinaryOp::Mul => {
                        proof {
                            assert((va as u128) * (vb as u128)
                                <= 0xFFFF_FFFF_FFFF_FFFFu128 * 0xFFFF_FFFF_FFFF_FFFFu128)
                                by (nonlinear_arith)
                                requires
                                    va as u128 <= 0xFFFF_FFFF_FFFF_FFFFu128,
                                    vb as u128 <= 0xFFFF_FFFF_FFFF_FFFFu128,
                            ;
                        }
                        (((va as u128) * (vb as u128)) % 0x1_0000_0000_0000_0000u128) as u64
                    },
                    BinaryOp::Div => {
                        if vb == 0 {
                            proof {
                                assert(eval_insts(
                                    u@,
                                    f@,
                                    bound as int,
                                    args@,
                                    data@,
                                    prev,
                                    i as int,
                                ) == Err::<Seq<u64>, Trap>(Trap::DivisionByZero));
                            }
                            return Err(Trap::DivisionByZero);
                        }
                        va / vb
                    },
                }
            },
            Inst::SymbolAddr(d) => data[*d],
            Inst::Call(j, cargs) => {
                let mut cv: Vec<u64> = Vec::new();
                let m = cargs.len();
                let mut k: usize = 0;
                while k < m
                    invariant
                        k <= m,
                        cv@.len() == k,
                        forall|s: int| 0 <= s < k ==> cv@[s] == ref_val(
                            view_ref(#[trigger] cargs@[s]),
                            args@,
                            ivals@,
                        ),
                    decreases m - k,
                {
                    proof {
                        assert(iv matches InstV::Call(jj, cargs_v) && ref_wf(
                            cargs_v[k as int],
                            f@.param_count,
                            i as int,
                        ) && cargs_v[k as int] == view_ref(cargs@[k as int]));
                    }
                    let v = ref_value(&cargs[k], args, &ivals);
                    cv.push(v);
                    k = k + 1;
                }
                let callee = &u.functions[*j].1;
                proof {
                    assert(u@.funcs[*j as int] == (u.functions@[*j as int].0@, u.functions@[*j as int].1@));
                    assert(u@.funcs[*j as int].1 == callee@);
                    assert(func_wf(callee@, *j as int, u@.funcs, u@.data.len() as int));
                    assert(iv matches InstV::Call(jj, cargs_v) ==> cv@ =~= Seq::new(
                        cargs_v.len(),
                        |s: int| ref_val(cargs_v[s], args@, ivals@),
                    ));
                }
                match eval_function(u, callee, *j, &cv, data) {
                    Ok(v) => v,
                    Err(t) => {
                        proof {
                            assert(eval_insts(
                                u@,
                                f@,
                                bound as int,
                                args@,
                                data@,
                                prev,
                                i as int,
                            ) == Err::<Seq<u64>, Trap>(t));
                        }
                        return Err(t);
                    },
                }
            },
        };
        ivals.push(step);
        i = i + 1;
        proof {
            assert(eval_insts(u@, f@, bound as int, args@, data@, prev, i - 1) == eval_insts(
                u@,
                f@,
                bound as int,
                args@,
                data@,
                prev.push(step),
                i as int,
            ));
        }
    }
    Ok(ref_value(&f.ret, args, &ivals))
}

impl UnitIr {
    /// Invoke a compiled function by name on machine-word arguments;
    /// `data_addrs` gives the address the backend assigned to each
    /// data symbol of the unit, in table order.  `None` when the unit
    /// has no function of that name and arity.
    pub fn invoke(&self, name: &String, args: &Vec<u64>, data_addrs: &Vec<u64>) -> (r: Option<
        Result<u64, Trap>,
    >)
        requires
            self@.wf(),
            data_addrs@.len() == self@.data.len(),
        ensures
            r == invoke_v(self@, name@, args@, data_addrs@),
    {
        match find_func(&self.functions, name, Ghost(self@.funcs)) {
            Some(j) => {
                if args.len() == self.functions[j].1.param_count {
                    proof {
                        assert(self@.funcs[j as int].1 == self.functions@[j as int].1@);
                    }
                    Some(eval_function(self, &self.functions[j].1, j, args, data_addrs))
                } else {
                    None
                }
            },
            None => None,
        }
    }

    /// Invoke the function built from the bare top-level statements;
    /// `None` when the source had none.
    pub fn invoke_top(&self, data_addrs: &Vec<u64>) -> (r: Option<Result<u64, Trap>>)
        requires
            self@.wf(),
            data_addrs@.len() == self@.data.len(),
            self@.top matches Some(f) ==> f.param_count == 0,
        ensures
            r == invoke_top_v(self@, data_addrs@),
    {
        match &self.top_level {
            Some(f) => {
                let empty_args: Vec<u64> = Vec::new();
                proof {
                    assert(empty_args@ =~= Seq::<u64>::empty());
                }
                Some(eval_function(self, f, self.functions.len(), &empty_args, data_addrs))
            },
            None => None,
        }
    }
}

} // verus!
