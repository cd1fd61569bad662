//! Intermediate code in static single-assignment form.
//!
//! A compiled unit holds one `FunctionIr` per function definition, in
//! registration order, an ordered table of the data symbols the code
//! refers to, and, when the source had bare top-level statements, one
//! more function built from those statements.
//!
//! Values are named by `ValueRef`: either an incoming parameter or the
//! result of an earlier instruction of the same block.  A function at
//! position `k` of the unit may only call functions at positions below
//! `k` — registration is single-pass — which is what makes evaluation
//! of a well-formed unit terminate.

use vstd::prelude::*;

use crate::ast::BinaryOp;

verus! {

/// One SSA value of a function: an incoming parameter, or the value
/// defined by the instruction with this index in the entry block.
#[derive(Clone, Copy, PartialEq, Eq, Structural, Debug)]
pub enum ValueRef {
    Param(usize),
    Result(usize),
}

/// The mathematical form of a value reference.
pub enum RefV {
    Param(int),
    Result(int),
}

pub open spec fn view_ref(r: ValueRef) -> RefV {
    match r {
        ValueRef::Param(i) => RefV::Param(i as int),
        ValueRef::Result(j) => RefV::Result(j as int),
    }
}

/// A value reference is well formed when it points at one of the
/// `param_count` parameters or at one of the first `insts_len`
/// instructions.
pub open spec fn ref_wf(r: RefV, param_count: nat, insts_len: int) -> bool {
    match r {
        RefV::Param(i) => 0 <= i < param_count,
        RefV::Result(j) => 0 <= j < insts_len,
    }
}

/// One instruction of a basic block.  Every instruction defines one
/// machine-word value.
pub enum Inst {
    /// A constant machine word.
    Const(u64),
    /// A binary arithmetic application of two earlier values.
    Binary(BinaryOp, ValueRef, ValueRef),
    /// The address of the data symbol with this index in the unit's
    /// data table.
    SymbolAddr(usize),
    /// A direct call of the function with this index in the unit's
    /// function table, on earlier values as arguments.
    Call(usize, Vec<ValueRef>),
}

/// The mathematical form of an instruction.
pub enum InstV {
    Const(u64),
    Binary(BinaryOp, RefV, RefV),
    SymbolAddr(int),
    Call(int, Seq<RefV>),
}

/// One basic block: a straight-line instruction sequence plus its seal
/// state.  A sealed block's predecessor set is final, so a variable
/// read inside it resolves directly to the latest definition; in this
/// language every function is one block that is sealed as soon as its
/// parameters are bound, and no read ever needs a deferred placeholder.
pub struct Block {
    pub insts: Vec<Inst>,
    pub sealed: bool,
}

/// The mathematical form of a block.
pub struct BlockV {
    pub insts: Seq<InstV>,
    pub sealed: bool,
}

/// Finished intermediate code for one function: its signature (the
/// parameter count; every parameter and the result are machine words),
/// its entry block, the value returned, and its variable table (slot
/// index to name).
pub struct FunctionIr {
    pub param_count: usize,
    pub entry: Block,
    pub ret: ValueRef,
    pub vars: Vec<String>,
}

/// The mathematical form of a function.
pub struct FuncV {
    pub param_count: nat,
    pub entry: BlockV,
    pub ret: RefV,
    pub vars: Seq<Seq<char>>,
}

/// Everything one source unit compiles to.
pub struct UnitIr {
    pub functions: Vec<(String, FunctionIr)>,
    pub data: Vec<String>,
    pub top_level: Option<FunctionIr>,
}

/// The mathematical form of a unit.
pub struct UnitV {
    pub funcs: Seq<(Seq<char>, FuncV)>,
    pub data: Seq<Seq<char>>,
    pub top: Option<FuncV>,
}

pub open spec fn view_inst(i: Inst) -> InstV {
    match i {
        Inst::Const(c) => InstV::Const(c),
        Inst::Binary(op, a, b) => InstV::Binary(op, view_ref(a), view_ref(b)),
        Inst::SymbolAddr(d) => InstV::SymbolAddr(d as int),
        Inst::Call(f, args) => InstV::Call(
            f as int,
            Seq::new(args@.len(), |j: int| view_ref(args@[j])),
        ),
    }
}

impl View for Block {
    type V = BlockV;

    open spec fn view(&self) -> BlockV {
        BlockV {
            insts: Seq::new(self.insts@.len(), |i: int| view_inst(self.insts@[i])),
            sealed: self.sealed,
        }
    }
}

impl View for FunctionIr {
    type V = FuncV;

    open spec fn view(&self) -> FuncV {
        FuncV {
            param_count: self.param_count as nat,
            entry: self.entry@,
            ret: view_ref(self.ret),
            vars: self.vars.deep_view(),
        }
    }
}

impl View for UnitIr {
    type V = UnitV;

    open spec fn view(&self) -> UnitV {
        UnitV {
            funcs: Seq::new(
                self.functions@.len(),
                |i: int| (self.functions@[i].0@, self.functions@[i].1@),
            ),
            data: self.data.deep_view(),
            top: match self.top_level {
                Some(f) => Some(f@),
                None => None,
            },
        }
    }
}

/// An instruction is well formed when every value it reads was defined
/// before it, every symbol index lies in the data table, and every call
/// goes to a function below `fbound` with the arity that function has.
pub open spec fn inst_wf(
    inst: InstV,
    param_count: nat,
    idx: int,
    fbound: int,
    funcs: Seq<(Seq<char>, FuncV)>,
    data_len: int,
) -> bool {
    match inst {
        InstV::Const(_) => true,
        InstV::Binary(_, a, b) => ref_wf(a, param_count, idx) && ref_wf(b, param_count, idx),
        InstV::SymbolAddr(d) => 0 <= d < data_len,
        InstV::Call(f, args) => 0 <= f < fbound && f < funcs.len() && args.len()
            == funcs[f].1.param_count && forall|j: int|
            0 <= j < args.len() ==> ref_wf(#[trigger] args[j], param_count, idx),
    }
}

/// A function is well formed when each instruction is, counting only
/// the values defined before it, and the returned reference is defined.
pub open spec fn func_wf(
    f: FuncV,
    fbound: int,
    funcs: Seq<(Seq<char>, FuncV)>,
    data_len: int,
) -> bool {
    &&& forall|i: int| 0 <= i < f.entry.insts.len() ==> inst_wf(
        #[trigger] f.entry.insts[i],
        f.param_count,
        i,
        fbound,
        funcs,
        data_len,
    )
    &&& ref_wf(f.ret, f.param_count, f.entry.insts.len() as int)
    &&& f.entry.sealed
}

impl UnitV {
    /// A unit is well formed when every function only calls functions
    /// registered before it, and the top-level function, if any, only
    /// calls registered functions.
    pub open spec fn wf(self) -> bool {
        &&& forall|k: int| 0 <= k < self.funcs.len() ==> func_wf(
            (#[trigger] self.funcs[k]).1,
            k,
            self.funcs,
            self.data.len() as int,
        )
        &&& match self.top {
            Some(f) => func_wf(f, self.funcs.len() as int, self.funcs, self.data.len() as int),
            None => true,
        }
    }
}

} // verus!
