//! The intermediate representation: functions as graphs of basic blocks.

pub mod visit;

use vstd::prelude::*;
use crate::span::{Span, Symbol};
use crate::ty::Ty;

verus! {

/// A handle to one value that a statement produces. It is the position of the
/// value's record among the registers of its function.
#[derive(Debug, Clone, Copy, PartialEq, Eq, Structural, Hash)]
pub struct Register(pub usize);

/// A handle to a basic block: its position among the blocks of its function.
#[derive(Debug, Clone, Copy, PartialEq, Eq, Structural, Hash)]
pub struct BbIdx(pub usize);

/// A value that is known at compile time.
#[derive(Debug, Clone, Copy, PartialEq, Eq, Structural)]
pub enum ConstValue {
    Int(u128),
}

/// What a statement reads: a produced value or a constant.
#[derive(Debug, Clone, Copy, PartialEq, Eq, Structural)]
pub enum Operand {
    Reg(Register),
    Const(ConstValue),
}

impl Operand {
    /// Whether the operand is a constant or one of the first `regs` registers.
    pub open spec fn known(self, regs: nat) -> bool {
        self matches Operand::Reg(reg) ==> reg.0 < regs
    }

    /// Whether the operand is the register `reg`.
    pub open spec fn is_reg(self, reg: Register) -> bool {
        self == Operand::Reg(reg)
    }
}

#[derive(Debug, Clone, Copy, PartialEq, Eq, Structural)]
pub enum BinKind {
    Add,
    Sub,
    Mul,
    Div,
    Mod,
    Eq,
    Neq,
    Gt,
    Geq,
    Lt,
    Leq,
}

#[derive(Debug, Clone, Copy, PartialEq, Eq, Structural)]
pub enum UnaryKind {
    Negate,
    BitNot,
    LogicalNot,
}

/// Size and alignment of a type, in bytes.
#[derive(Debug, Clone, Copy, PartialEq, Eq, Structural, Hash)]
pub struct Layout {
    pub size: u64,
    pub align: u64,
}

impl Layout {
    /// The layout with the given size and alignment.
    pub fn size_align(size: u64, align: u64) -> (layout: Layout)
        ensures
            layout == (Layout { size, align }),
    {
        Layout { size, align }
    }

    /// The number under which a layout is filed: its size and its alignment
    /// side by side.
    pub open spec fn key(self) -> nat {
        (self.size * 0x1_0000_0000_0000_0000 + self.align) as nat
    }

    /// Two layouts are filed under the same number only if they are equal.
    pub proof fn lemma_key_injective(self, other: Layout)
        requires
            self.key() == other.key(),
        ensures
            self == other,
    {
    }

    /// The number under which this layout is filed.
    pub fn compute_key(&self) -> (key: u128)
        ensures
            key == self.key(),
    {
        self.size as u128 * 0x1_0000_0000_0000_0000 + self.align as u128
    }
}

/// A canonical layout: a handle to a layout that an interner keeps. As with
/// [`Ty`], `id` is the identity of the handle.
#[derive(Debug, Clone, Copy)]
pub struct LayoutRef<'cx> {
    pub id: usize,
    pub layout: &'cx Layout,
}

/// A type together with its layout.
#[derive(Debug, Clone, Copy)]
pub struct TyLayout<'cx> {
    pub ty: Ty<'cx>,
    pub layout: LayoutRef<'cx>,
}

/// What is recorded of a register: the type of its value and, for a variable's
/// storage, the variable's name.
#[derive(Debug, Clone, Copy)]
pub struct RegisterData<'cx> {
    pub tyl: TyLayout<'cx>,
    pub name: Option<Symbol>,
}

#[derive(Debug, PartialEq, Eq)]
#[allow(inconsistent_fields)]
pub enum StatementKind {
    Alloca { result: Register, size: u64, align: u64 },
    Store { ptr: Operand, value: Operand, size: u64, align: u64 },
    Load { result: Register, ptr: Operand, size: u64, align: u64 },
    BinOp { kind: BinKind, lhs: Operand, rhs: Operand, result: Register },
    UnaryOperation { rhs: Operand, kind: UnaryKind, result: Register },
    PtrOffset { result: Register, ptr: Operand, amount: Operand },
    Call { result: Register, func: Operand, args: Vec<Operand> },
}

/// A [`StatementKind`] as a mathematical value.
#[allow(inconsistent_fields)]
pub ghost enum StatementKindView {
    Alloca { result: Register, size: u64, align: u64 },
    Store { ptr: Operand, value: Operand, size: u64, align: u64 },
    Load { result: Register, ptr: Operand, size: u64, align: u64 },
    BinOp { kind: BinKind, lhs: Operand, rhs: Operand, result: Register },
    UnaryOperation { rhs: Operand, kind: UnaryKind, result: Register },
    PtrOffset { result: Register, ptr: Operand, amount: Operand },
    Call { result: Register, func: Operand, args: Seq<Operand> },
}

impl View for StatementKind {
    type V = StatementKindView;

    open spec fn view(&self) -> StatementKindView {
        match *self {
            StatementKind::Alloca { result, size, align } => StatementKindView::Alloca {
                result,
                size,
                align,
            },
            StatementKind::Store { ptr, value, size, align } => StatementKindView::Store {
                ptr,
                value,
                size,
                align,
            },
            StatementKind::Load { result, ptr, size, align } => StatementKindView::Load {
                result,
                ptr,
                size,
                align,
            },
            StatementKind::BinOp { kind, lhs, rhs, result } => StatementKindView::BinOp {
                kind,
                lhs,
                rhs,
                result,
            },
            StatementKind::UnaryOperation { rhs, kind, result } => {
                StatementKindView::UnaryOperation { rhs, kind, result }
            },
            StatementKind::PtrOffset { result, ptr, amount } => StatementKindView::PtrOffset {
                result,
                ptr,
                amount,
            },
            StatementKind::Call { result, func, args } => StatementKindView::Call {
                result,
                func,
                args: args@,
            },
        }
    }
}

impl StatementKindView {
    /// Whether the statement reads the register `reg`.
    pub open spec fn reads(self, reg: Register) -> bool {
        match self {
            StatementKindView::Alloca { .. } => false,
            StatementKindView::Store { ptr, value, .. } => ptr.is_reg(reg) || value.is_reg(reg),
            StatementKindView::Load { ptr, .. } => ptr.is_reg(reg),
            StatementKindView::BinOp { lhs, rhs, .. } => lhs.is_reg(reg) || rhs.is_reg(reg),
            StatementKindView::UnaryOperation { rhs, .. } => rhs.is_reg(reg),
            StatementKindView::PtrOffset { ptr, amount, .. } => ptr.is_reg(reg) || amount.is_reg(
                reg,
            ),
            StatementKindView::Call { func, args, .. } => func.is_reg(reg) || exists|i: int|
                0 <= i < args.len() && (#[trigger] args[i]).is_reg(reg),
        }
    }

    /// Whether every register that the statement reads is one of the first
    /// `regs` registers.
    pub open spec fn reads_known(self, regs: nat) -> bool {
        forall|reg: Register| #[trigger] self.reads(reg) ==> reg.0 < regs
    }

    /// The register that the statement produces, if it produces one.
    pub open spec fn result(self) -> Option<Register> {
        match self {
            StatementKindView::Alloca { result, .. } => Some(result),
            StatementKindView::Store { .. } => None,
            StatementKindView::Load { result, .. } => Some(result),
            StatementKindView::BinOp { result, .. } => Some(result),
            StatementKindView::UnaryOperation { result, .. } => Some(result),
            StatementKindView::PtrOffset { result, .. } => Some(result),
            StatementKindView::Call { result, .. } => Some(result),
        }
    }
}

/// What a statement does, and where in the source it comes from.
#[derive(Debug, PartialEq, Eq)]
pub struct Statement {
    pub span: Span,
    pub kind: StatementKind,
}

/// A [`Statement`] as a mathematical value.
pub ghost struct StatementView {
    pub span: Span,
    pub kind: StatementKindView,
}

impl View for Statement {
    type V = StatementView;

    open spec fn view(&self) -> StatementView {
        StatementView { span: self.span, kind: self.kind@ }
    }
}

/// How control leaves a basic block.
#[derive(Debug, Clone, Copy, PartialEq, Eq, Structural)]
pub enum Branch {
    /// Go on with the given block.
    Goto(BbIdx),
    /// Go on with `yes` if `cond` holds, with `no` if not.
    Switch { cond: Operand, yes: BbIdx, no: BbIdx },
    /// Not decided yet. A block is in this state only while its function is
    /// being built.
    Unset,
}

impl Branch {
    /// Whether the terminator names the block `b` as a target.
    pub open spec fn names(self, b: int) -> bool {
        match self {
            Branch::Goto(target) => target.0 == b,
            Branch::Switch { yes, no, .. } => yes.0 == b || no.0 == b,
            Branch::Unset => false,
        }
    }

    /// Whether the terminator reads the register `reg`.
    pub open spec fn reads(self, reg: Register) -> bool {
        self matches Branch::Switch { cond, .. } && cond.is_reg(reg)
    }

    /// Whether every block that the terminator names is one of the first
    /// `blocks` blocks.
    pub open spec fn targets_below(self, blocks: nat) -> bool {
        match self {
            Branch::Goto(target) => target.0 < blocks,
            Branch::Switch { yes, no, .. } => yes.0 < blocks && no.0 < blocks,
            Branch::Unset => true,
        }
    }
}

/// Statements that run one after the other, and then one terminator.
#[derive(Debug, PartialEq, Eq)]
pub struct BasicBlock {
    pub statements: Vec<Statement>,
    pub term: Branch,
}

/// A [`BasicBlock`] as a mathematical value.
pub ghost struct BlockView {
    pub statements: Seq<StatementView>,
    pub term: Branch,
}

impl View for BasicBlock {
    type V = BlockView;

    open spec fn view(&self) -> BlockView {
        BlockView { statements: statement_views(self.statements@), term: self.term }
    }
}

/// The statements of a sequence, each as a mathematical value.
pub open spec fn statement_views(statements: Seq<Statement>) -> Seq<StatementView> {
    Seq::new(statements.len(), |i: int| statements[i]@)
}

/// The blocks of a sequence, each as a mathematical value.
pub open spec fn block_views(blocks: Seq<BasicBlock>) -> Seq<BlockView> {
    Seq::new(blocks.len(), |i: int| blocks[i]@)
}

impl BlockView {
    /// A block with no statement and no terminator yet.
    pub open spec fn empty() -> BlockView {
        BlockView { statements: Seq::empty(), term: Branch::Unset }
    }
}

/// One function of the program: its blocks, of which block 0 is the entry, and
/// the registers that its statements produce.
#[derive(Debug)]
pub struct Func<'cx> {
    pub name: Symbol,
    pub def_span: Span,
    pub ret_ty: Ty<'cx>,
    pub regs: Vec<RegisterData<'cx>>,
    pub bbs: Vec<BasicBlock>,
}

/// A [`Func`] as a mathematical value.
pub ghost struct FuncView<'cx> {
    pub name: Symbol,
    pub def_span: Span,
    pub ret_ty: Ty<'cx>,
    pub regs: Seq<RegisterData<'cx>>,
    pub bbs: Seq<BlockView>,
}

impl<'cx> View for Func<'cx> {
    type V = FuncView<'cx>;

    open spec fn view(&self) -> FuncView<'cx> {
        FuncView {
            name: self.name,
            def_span: self.def_span,
            ret_ty: self.ret_ty,
            regs: self.regs@,
            bbs: block_views(self.bbs@),
        }
    }
}

impl<'cx> FuncView<'cx> {
    /// Whether every terminator names blocks of this function only.
    pub open spec fn targets_in_range(self) -> bool {
        forall|b: int|
            0 <= b < self.bbs.len() ==> (#[trigger] self.bbs[b]).term.targets_below(
                self.bbs.len(),
            )
    }

    /// Whether every block has its terminator.
    pub open spec fn all_terminated(self) -> bool {
        forall|b: int| 0 <= b < self.bbs.len() ==> !((#[trigger] self.bbs[b]).term is Unset)
    }

    /// Whether `i` is the place of a statement in block `b`.
    pub open spec fn is_site(self, b: int, i: int) -> bool {
        0 <= b < self.bbs.len() && 0 <= i < self.bbs[b].statements.len()
    }

    /// The register that the statement at place `i` of block `b` defines, if it
    /// defines one.
    pub open spec fn defined_at(self, b: int, i: int) -> Option<Register> {
        self.bbs[b].statements[i].kind.result()
    }

    /// Whether the registers are used as they should be: every register that a
    /// statement defines has its record among the registers of the function,
    /// and no register is defined twice.
    pub open spec fn registers_sound(self) -> bool {
        &&& forall|b: int, i: int|
            #![trigger self.defined_at(b, i)]
            self.is_site(b, i) ==> (self.defined_at(b, i) matches Some(reg) ==> reg.0
                < self.regs.len())
        &&& forall|b1: int, i1: int, b2: int, i2: int|
            #![trigger self.defined_at(b1, i1), self.defined_at(b2, i2)]
            self.is_site(b1, i1) && self.is_site(b2, i2) && self.defined_at(b1, i1) is Some
                && self.defined_at(b1, i1) == self.defined_at(b2, i2) ==> b1 == b2 && i1 == i2
    }

    /// Whether a statement or a terminator of the function reads or defines the
    /// register `reg`.
    pub open spec fn mentions(self, reg: Register) -> bool {
        ||| exists|b: int, i: int|
            #![trigger self.bbs[b].statements[i]]
            self.is_site(b, i) && (self.bbs[b].statements[i].kind.reads(reg)
                || self.bbs[b].statements[i].kind.result() == Some(reg))
        ||| exists|b: int| 0 <= b < self.bbs.len() && (#[trigger] self.bbs[b]).term.reads(reg)
    }

    /// Whether every register that the function mentions has its record among
    /// the registers of the function.
    #[verifier::opaque]
    pub open spec fn registers_known(self) -> bool {
        forall|reg: Register| #[trigger] self.mentions(reg) ==> reg.0 < self.regs.len()
    }

    /// Whether a terminator of the function names the block `b` as a target.
    pub open spec fn enters(self, b: int) -> bool {
        exists|p: int| 0 <= p < self.bbs.len() && (#[trigger] self.bbs[p]).term.names(b)
    }

    /// Whether every block but the entry is the target of a terminator of the
    /// function: control comes to the entry from outside and to every other
    /// block through a jump or a branch.
    pub open spec fn all_entered(self) -> bool {
        forall|b: int| 1 <= b < self.bbs.len() ==> #[trigger] self.enters(b)
    }

    /// Whether `later` has every block of `self` with the terminator it has in
    /// `self`, if it has one there.
    pub open spec fn terminators_kept(self, later: FuncView<'cx>) -> bool {
        &&& self.bbs.len() <= later.bbs.len()
        &&& forall|p: int|
            0 <= p < self.bbs.len() && !((#[trigger] self.bbs[p]).term is Unset)
                ==> later.bbs[p].term == self.bbs[p].term
    }

    /// A block that is a target stays one where terminators are kept.
    pub proof fn lemma_enters_kept(self, later: FuncView<'cx>, b: int)
        requires
            self.terminators_kept(later),
            self.enters(b),
        ensures
            later.enters(b),
    {
        let p = choose|p: int| 0 <= p < self.bbs.len() && (#[trigger] self.bbs[p]).term.names(b);
        assert(later.bbs[p].term.names(b));
    }

    /// Whether the blocks and the registers can be counted by machine
    /// integers, as those of every function in memory can.
    pub open spec fn in_memory(self) -> bool {
        self.bbs.len() <= usize::MAX && self.regs.len() <= usize::MAX
    }

    /// Whether the function is a finished control-flow graph: it has an entry,
    /// block 0; every block ends in a jump or a two-way branch; and every
    /// target of these is a block of the function.
    pub open spec fn well_formed(self) -> bool {
        &&& self.bbs.len() > 0
        &&& self.all_terminated()
        &&& self.targets_in_range()
    }
}

impl<'cx> Func<'cx> {
    /// A function in memory has no more blocks and registers than machine
    /// integers can count.
    pub proof fn lemma_in_memory(&self)
        ensures
            self@.in_memory(),
    {
        assert(self.bbs.len() <= usize::MAX);
        assert(self.regs.len() <= usize::MAX);
    }
}

/// The functions of a translation unit, in the order of their definitions.
#[derive(Debug)]
pub struct Ir<'cx> {
    pub funcs: Vec<Func<'cx>>,
}

/// The functions of a sequence, each as a mathematical value.
pub open spec fn func_views<'cx>(funcs: Seq<Func<'cx>>) -> Seq<FuncView<'cx>> {
    Seq::new(funcs.len(), |i: int| funcs[i]@)
}

impl<'cx> View for Ir<'cx> {
    type V = Seq<FuncView<'cx>>;

    open spec fn view(&self) -> Seq<FuncView<'cx>> {
        func_views(self.funcs@)
    }
}

} // verus!
