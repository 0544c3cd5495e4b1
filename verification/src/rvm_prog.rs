//! The assembled program: parallel arrays of opcodes and operand lists,
//! the pool of literal values, and the two symbol tables.

use vstd::prelude::*;
use crate::rvm_htab::{RvmHtabCtx, Symbol};

verus! {

/// The program as a mathematical value.
pub struct ProgramView {
    pub start: i32,
    pub instructions: Seq<i32>,
    pub args: Seq<Seq<i32>>,
    pub values: Seq<i32>,
    pub defines: Map<Seq<char>, Symbol>,
    pub labels: Map<Seq<char>, Symbol>,
}

pub struct RvmProg {
    pub start: i32,
    pub instructions: Vec<i32>,
    pub args: Vec<Vec<i32>>,
    pub values: Vec<i32>,
    pub defines: RvmHtabCtx,
    pub labels: RvmHtabCtx,
}

/// The operand lists as sequences.
pub open spec fn args_view(args: Seq<Vec<i32>>) -> Seq<Seq<i32>> {
    Seq::new(args.len(), |i: int| args[i]@)
}

impl View for RvmProg {
    type V = ProgramView;

    open spec fn view(&self) -> ProgramView {
        ProgramView {
            start: self.start,
            instructions: self.instructions@,
            args: args_view(self.args@),
            values: self.values@,
            defines: self.defines@,
            labels: self.labels@,
        }
    }
}

impl RvmProg {
    /// Both symbol tables are well formed.
    pub open spec fn wf(&self) -> bool {
        self.defines.wf() && self.labels.wf()
    }

    /// The empty program.
    pub open spec fn new_view() -> ProgramView {
        ProgramView {
            start: 0,
            instructions: Seq::empty(),
            args: Seq::empty(),
            values: Seq::empty(),
            defines: Map::empty(),
            labels: Map::empty(),
        }
    }

    /// An empty program that starts at index zero.
    pub fn new() -> (r: Self)
        ensures
            r.wf(),
            r@ == Self::new_view(),
            r.defines.count() == 0,
            r.labels.count() == 0,
    {
        let r = Self {
            start: 0,
            instructions: Vec::new(),
            args: Vec::new(),
            values: Vec::new(),
            defines: RvmHtabCtx::new(),
            labels: RvmHtabCtx::new(),
        };
        assert(r@.args =~= Seq::empty());
        r
    }
}

} // verus!
