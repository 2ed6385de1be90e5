//! The builder of one function's control-flow graph.

use vstd::prelude::*;
use crate::ir::{
    block_views, statement_views, BasicBlock, BbIdx, BinKind, BlockView, Branch, Func, FuncView,
    Layout, Operand, Register, RegisterData, Statement, StatementKind, StatementKindView,
    StatementView, TyLayout,
};
use crate::lower::cx::{InternerView, LoweringCx};
use crate::span::{Span, Symbol};
use crate::ty::{Ty, TyKind};

verus! {

/// A function under construction, as a mathematical value: what has been built
/// so far, the block that statements are appended to, and the type given to
/// the result of every `Alloca`, a pointer.
pub ghost struct BuilderView<'cx> {
    pub func: FuncView<'cx>,
    pub current: BbIdx,
    pub ptr_tyl: TyLayout<'cx>,
}

impl<'cx> BuilderView<'cx> {
    /// The builder of a new function: one empty block, the entry, which is
    /// current; no register. Making it interns the type of a pointer to `void`.
    pub open spec fn new(
        interner: InternerView<'cx>,
        name: Symbol,
        def_span: Span,
        ret_ty: Ty<'cx>,
    ) -> (InternerView<'cx>, BuilderView<'cx>) {
        let (with_void, void) = interner.intern_ty(TyKind::Void);
        let (with_ptr, ptr) = with_void.intern_ty(TyKind::Ptr(void));
        let (after, ptr_tyl) = with_ptr.layout_of(ptr);
        (
            after,
            BuilderView {
                func: FuncView {
                    name,
                    def_span,
                    ret_ty,
                    regs: Seq::empty(),
                    bbs: seq![BlockView::empty()],
                },
                current: BbIdx(0),
                ptr_tyl: ptr_tyl->0,
            },
        )
    }

    /// Whether the current block is a block of the function.
    pub open spec fn wf(self) -> bool {
        self.current.0 < self.func.bbs.len()
    }

    /// The block that statements are appended to.
    pub open spec fn current_block(self) -> BlockView {
        self.func.bbs[self.current.0 as int]
    }

    /// The register that the next producing statement will define.
    pub open spec fn next_reg(self) -> Register {
        Register(self.func.regs.len() as usize)
    }

    /// The handle that the next new block will have.
    pub open spec fn next_block(self) -> BbIdx {
        BbIdx(self.func.bbs.len() as usize)
    }

    /// With the block `bb` replaced by `block`.
    pub open spec fn with_block(self, bb: BbIdx, block: BlockView) -> BuilderView<'cx> {
        BuilderView {
            func: FuncView { bbs: self.func.bbs.update(bb.0 as int, block), ..self.func },
            ..self
        }
    }

    /// With `stmt` appended to the current block.
    pub open spec fn push(self, stmt: StatementView) -> BuilderView<'cx> {
        let block = self.current_block();
        self.with_block(
            self.current,
            BlockView { statements: block.statements.push(stmt), ..block },
        )
    }

    /// With the terminator of the block `bb` set to `term`.
    pub open spec fn set_term(self, bb: BbIdx, term: Branch) -> BuilderView<'cx> {
        self.with_block(bb, BlockView { term, ..self.func.bbs[bb.0 as int] })
    }

    /// With `bb` as the current block.
    pub open spec fn at(self, bb: BbIdx) -> BuilderView<'cx> {
        BuilderView { current: bb, ..self }
    }

    /// With one more register, of the given type and name.
    pub open spec fn new_reg(self, name: Option<Symbol>, tyl: TyLayout<'cx>) -> (
        BuilderView<'cx>,
        Register,
    ) {
        (
            BuilderView {
                func: FuncView {
                    regs: self.func.regs.push(RegisterData { tyl, name }),
                    ..self.func
                },
                ..self
            },
            self.next_reg(),
        )
    }

    /// With one more block, empty and without a terminator, at the end. The
    /// current block stays what it is.
    pub open spec fn new_block(self) -> (BuilderView<'cx>, BbIdx) {
        (
            BuilderView {
                func: FuncView { bbs: self.func.bbs.push(BlockView::empty()), ..self.func },
                ..self
            },
            self.next_block(),
        )
    }

    /// With an `Alloca` of the given layout appended to the current block. Its
    /// result is a fresh register, a pointer that carries the variable's name.
    pub open spec fn alloca(self, layout: Layout, name: Option<Symbol>, span: Span) -> (
        BuilderView<'cx>,
        Register,
    ) {
        let (with_reg, result) = self.new_reg(name, self.ptr_tyl);
        (
            with_reg.push(
                StatementView {
                    span,
                    kind: StatementKindView::Alloca {
                        result,
                        size: layout.size,
                        align: layout.align,
                    },
                },
            ),
            result,
        )
    }

    /// With a `Store` of `value` through `ptr` appended to the current block.
    pub open spec fn store(self, ptr: Register, value: Operand, layout: Layout, span: Span)
        -> BuilderView<'cx> {
        self.push(
            StatementView {
                span,
                kind: StatementKindView::Store {
                    ptr: Operand::Reg(ptr),
                    value,
                    size: layout.size,
                    align: layout.align,
                },
            },
        )
    }

    /// With a `BinOp` appended to the current block. Its result is a fresh
    /// register of the given type.
    pub open spec fn binary(
        self,
        kind: BinKind,
        lhs: Operand,
        rhs: Operand,
        span: Span,
        result_tyl: TyLayout<'cx>,
    ) -> (BuilderView<'cx>, Register) {
        let (with_reg, result) = self.new_reg(None, result_tyl);
        (
            with_reg.push(
                StatementView { span, kind: StatementKindView::BinOp { kind, lhs, rhs, result } },
            ),
            result,
        )
    }

    /// With a `Call` appended to the current block. Its result is a fresh
    /// register of the given type.
    pub open spec fn call(
        self,
        result_tyl: TyLayout<'cx>,
        callee: Operand,
        args: Seq<Operand>,
        span: Span,
    ) -> (BuilderView<'cx>, Register) {
        let (with_reg, result) = self.new_reg(None, result_tyl);
        (
            with_reg.push(
                StatementView {
                    span,
                    kind: StatementKindView::Call { result, func: callee, args },
                },
            ),
            result,
        )
    }
}

/// Registers stay sound where every statement stays in its place and defines
/// what it defined, but for at most one new statement, at place `i` of block
/// `b`, which defines no register or one that had no record before.
proof fn lemma_same_sites_keep_registers<'cx>(
    before: FuncView<'cx>,
    after: FuncView<'cx>,
    b: int,
    i: int,
)
    requires
        before.registers_sound(),
        before.regs.len() <= after.regs.len(),
        forall|b1: int, i1: int|
            after.is_site(b1, i1) && !(b1 == b && i1 == i) ==> before.is_site(b1, i1)
                && #[trigger] after.defined_at(b1, i1) == before.defined_at(b1, i1),
        after.is_site(b, i) ==> (after.defined_at(b, i) matches Some(reg) ==> before.regs.len()
            <= reg.0 < after.regs.len()),
    ensures
        after.registers_sound(),
{
    assert forall|b1: int, i1: int, b2: int, i2: int|
        #![trigger after.defined_at(b1, i1), after.defined_at(b2, i2)]
        after.is_site(b1, i1) && after.is_site(b2, i2) && after.defined_at(b1, i1) is Some
            && after.defined_at(b1, i1) == after.defined_at(b2, i2) implies b1 == b2 && i1
        == i2 by {
        if !(b1 == b && i1 == i) {
            assert(after.defined_at(b1, i1) == before.defined_at(b1, i1));
        }
        if !(b2 == b && i2 == i) {
            assert(after.defined_at(b2, i2) == before.defined_at(b2, i2));
        }
    }
}

/// A statement that defines the newest register keeps the registers sound.
pub proof fn lemma_define_keeps_registers<'cx>(
    build: BuilderView<'cx>,
    name: Option<Symbol>,
    tyl: TyLayout<'cx>,
    stmt: StatementView,
)
    requires
        build.wf(),
        build.func.registers_sound(),
        build.func.regs.len() <= usize::MAX,
        stmt.kind.result() == Some(build.next_reg()),
    ensures
        build.new_reg(name, tyl).0.push(stmt).func.registers_sound(),
{
    lemma_same_sites_keep_registers(
        build.func,
        build.new_reg(name, tyl).0.push(stmt).func,
        build.current.0 as int,
        build.current_block().statements.len() as int,
    );
}

/// A statement that defines no register keeps the registers sound.
pub proof fn lemma_use_keeps_registers<'cx>(build: BuilderView<'cx>, stmt: StatementView)
    requires
        build.wf(),
        build.func.registers_sound(),
        stmt.kind.result() is None,
    ensures
        build.push(stmt).func.registers_sound(),
{
    lemma_same_sites_keep_registers(
        build.func,
        build.push(stmt).func,
        build.current.0 as int,
        build.current_block().statements.len() as int,
    );
}

/// A new block keeps the registers sound.
pub proof fn lemma_new_block_keeps_registers<'cx>(build: BuilderView<'cx>)
    requires
        build.func.registers_sound(),
    ensures
        build.new_block().0.func.registers_sound(),
{
    lemma_same_sites_keep_registers(build.func, build.new_block().0.func, -1, -1);
}

/// A terminator keeps the registers sound.
pub proof fn lemma_set_term_keeps_registers<'cx>(build: BuilderView<'cx>, bb: BbIdx, term: Branch)
    requires
        build.func.registers_sound(),
        bb.0 < build.func.bbs.len(),
    ensures
        build.set_term(bb, term).func.registers_sound(),
{
    lemma_same_sites_keep_registers(build.func, build.set_term(bb, term).func, -1, -1);
}

/// A statement that reads and defines only registers with a record keeps
/// every mentioned register known.
pub proof fn lemma_push_keeps_known<'cx>(build: BuilderView<'cx>, stmt: StatementView)
    requires
        build.wf(),
        build.func.registers_known(),
        stmt.kind.reads_known(build.func.regs.len()),
        stmt.kind.result() matches Some(reg) ==> reg.0 < build.func.regs.len(),
    ensures
        build.push(stmt).func.registers_known(),
{
    reveal(FuncView::registers_known);
    let before = build.func;
    let after = build.push(stmt).func;
    let cur = build.current.0 as int;
    let last = before.bbs[cur].statements.len() as int;
    assert forall|reg: Register| #[trigger] after.mentions(reg) implies reg.0
        < after.regs.len() by {
        if exists|b: int, i: int|
            #![trigger after.bbs[b].statements[i]]
            after.is_site(b, i) && (after.bbs[b].statements[i].kind.reads(reg)
                || after.bbs[b].statements[i].kind.result() == Some(reg)) {
            let (b, i) = choose|b: int, i: int|
                #![trigger after.bbs[b].statements[i]]
                after.is_site(b, i) && (after.bbs[b].statements[i].kind.reads(reg)
                    || after.bbs[b].statements[i].kind.result() == Some(reg));
            if b == cur && i == last {
                assert(after.bbs[b].statements[i] == stmt);
            } else {
                assert(before.is_site(b, i));
                assert(before.bbs[b].statements[i] == after.bbs[b].statements[i]);
                assert(before.mentions(reg));
            }
        } else {
            let b = choose|b: int|
                0 <= b < after.bbs.len() && (#[trigger] after.bbs[b]).term.reads(reg);
            assert(before.bbs[b].term == after.bbs[b].term);
            assert(before.mentions(reg));
        }
    }
}

/// A new register keeps every mentioned register known.
pub proof fn lemma_new_reg_keeps_known<'cx>(
    build: BuilderView<'cx>,
    name: Option<Symbol>,
    tyl: TyLayout<'cx>,
)
    requires
        build.func.registers_known(),
    ensures
        build.new_reg(name, tyl).0.func.registers_known(),
{
    reveal(FuncView::registers_known);
    let before = build.func;
    let after = build.new_reg(name, tyl).0.func;
    assert forall|reg: Register| #[trigger] after.mentions(reg) implies reg.0
        < after.regs.len() by {
        assert(after.bbs == before.bbs);
        assert(before.mentions(reg));
    }
}

/// A new block keeps every mentioned register known.
pub proof fn lemma_new_block_keeps_known<'cx>(build: BuilderView<'cx>)
    requires
        build.func.registers_known(),
    ensures
        build.new_block().0.func.registers_known(),
{
    reveal(FuncView::registers_known);
    let before = build.func;
    let after = build.new_block().0.func;
    assert forall|reg: Register| #[trigger] after.mentions(reg) implies reg.0
        < after.regs.len() by {
        if exists|b: int, i: int|
            #![trigger after.bbs[b].statements[i]]
            after.is_site(b, i) && (after.bbs[b].statements[i].kind.reads(reg)
                || after.bbs[b].statements[i].kind.result() == Some(reg)) {
            let (b, i) = choose|b: int, i: int|
                #![trigger after.bbs[b].statements[i]]
                after.is_site(b, i) && (after.bbs[b].statements[i].kind.reads(reg)
                    || after.bbs[b].statements[i].kind.result() == Some(reg));
            assert(before.is_site(b, i));
            assert(before.bbs[b].statements[i] == after.bbs[b].statements[i]);
            assert(before.mentions(reg));
        } else {
            let b = choose|b: int|
                0 <= b < after.bbs.len() && (#[trigger] after.bbs[b]).term.reads(reg);
            assert(b < before.bbs.len());
            assert(before.bbs[b].term == after.bbs[b].term);
            assert(before.mentions(reg));
        }
    }
}

/// A terminator that reads only a register with a record keeps every
/// mentioned register known.
pub proof fn lemma_set_term_keeps_known<'cx>(build: BuilderView<'cx>, bb: BbIdx, term: Branch)
    requires
        build.func.registers_known(),
        bb.0 < build.func.bbs.len(),
        forall|reg: Register| #[trigger] term.reads(reg) ==> reg.0 < build.func.regs.len(),
    ensures
        build.set_term(bb, term).func.registers_known(),
{
    reveal(FuncView::registers_known);
    let before = build.func;
    let after = build.set_term(bb, term).func;
    assert forall|reg: Register| #[trigger] after.mentions(reg) implies reg.0
        < after.regs.len() by {
        if exists|b: int, i: int|
            #![trigger after.bbs[b].statements[i]]
            after.is_site(b, i) && (after.bbs[b].statements[i].kind.reads(reg)
                || after.bbs[b].statements[i].kind.result() == Some(reg)) {
            let (b, i) = choose|b: int, i: int|
                #![trigger after.bbs[b].statements[i]]
                after.is_site(b, i) && (after.bbs[b].statements[i].kind.reads(reg)
                    || after.bbs[b].statements[i].kind.result() == Some(reg));
            assert(before.is_site(b, i));
            assert(before.bbs[b].statements[i] == after.bbs[b].statements[i]);
            assert(before.mentions(reg));
        } else {
            let b = choose|b: int|
                0 <= b < after.bbs.len() && (#[trigger] after.bbs[b]).term.reads(reg);
            if b != bb.0 {
                assert(before.bbs[b].term == after.bbs[b].term);
                assert(before.mentions(reg));
            }
        }
    }
}

/// A register without a record is mentioned nowhere in a function whose
/// mentioned registers are all known: it is fresh.
pub proof fn lemma_fresh_register<'cx>(func: FuncView<'cx>, reg: Register)
    requires
        func.registers_known(),
        func.regs.len() <= reg.0,
    ensures
        !func.mentions(reg),
{
    reveal(FuncView::registers_known);
}

/// A function without statements and terminators mentions no register.
pub proof fn lemma_empty_known<'cx>(func: FuncView<'cx>)
    requires
        forall|b: int| 0 <= b < func.bbs.len() ==> #[trigger] func.bbs[b] == BlockView::empty(),
    ensures
        func.registers_known(),
        func.registers_sound(),
{
    reveal(FuncView::registers_known);
}

/// Appending a statement and then taking views is taking views and then
/// appending the statement's view.
pub proof fn lemma_statement_views_push(statements: Seq<Statement>, stmt: Statement)
    ensures
        statement_views(statements.push(stmt)) == statement_views(statements).push(stmt@),
{
    assert(statement_views(statements.push(stmt)) =~= statement_views(statements).push(stmt@));
}

/// The same for blocks.
pub proof fn lemma_block_views_push(blocks: Seq<BasicBlock>, block: BasicBlock)
    ensures
        block_views(blocks.push(block)) == block_views(blocks).push(block@),
{
    assert(block_views(blocks.push(block)) =~= block_views(blocks).push(block@));
}

/// Replacing a block and then taking views is taking views and then replacing
/// the block's view.
pub proof fn lemma_block_views_update(blocks: Seq<BasicBlock>, i: int, block: BasicBlock)
    requires
        0 <= i < blocks.len(),
    ensures
        block_views(blocks.update(i, block)) == block_views(blocks).update(i, block@),
{
    assert(block_views(blocks.update(i, block)) =~= block_views(blocks).update(i, block@));
}

/// Builds one function, block by block and statement by statement.
#[derive(Debug)]
pub struct FuncBuilder<'cx> {
    /// What has been built so far.
    pub ir: Func<'cx>,
    /// The block that statements are appended to.
    pub current_bb: BbIdx,
    /// The type given to the result of every `Alloca`: a pointer.
    pub ptr_tyl: TyLayout<'cx>,
}

impl<'cx> View for FuncBuilder<'cx> {
    type V = BuilderView<'cx>;

    open spec fn view(&self) -> BuilderView<'cx> {
        BuilderView { func: self.ir@, current: self.current_bb, ptr_tyl: self.ptr_tyl }
    }
}

impl<'cx> FuncBuilder<'cx> {
    /// The builder of a new function: one empty block, the entry, which is
    /// current.
    pub fn new(name: Symbol, def_span: Span, ret_ty: Ty<'cx>, lcx: &mut LoweringCx<'cx>) -> (build:
        Self)
        requires
            old(lcx).wf(),
        ensures
            final(lcx).wf(),
            (final(lcx)@, build@) == BuilderView::new(old(lcx)@, name, def_span, ret_ty),
            final(lcx)@.extends(old(lcx)@),
            final(lcx)@.owns(build@.ptr_tyl),
            build@.wf(),
            build@.func.registers_sound(),
            build@.func.registers_known(),
    {
        let void = lcx.intern_ty(TyKind::Void);
        let ghost with_void = lcx@;
        let ptr = lcx.intern_ty(TyKind::Ptr(void));
        let ghost with_ptr = lcx@;
        let ptr_tyl = match lcx.layout_of(ptr) {
            Some(tyl) => tyl,
            None => unreached(),
        };
        proof {
            with_ptr.lemma_extends_trans(with_void, old(lcx)@);
            lcx@.lemma_extends_trans(with_ptr, old(lcx)@);
        }
        let entry = BasicBlock { statements: Vec::new(), term: Branch::Unset };
        let mut bbs = Vec::new();
        bbs.push(entry);
        let build = FuncBuilder {
            ir: Func { name, def_span, ret_ty, regs: Vec::new(), bbs },
            current_bb: BbIdx(0),
            ptr_tyl,
        };
        proof {
            assert(build.ir.bbs@[0].statements@ =~= Seq::empty());
            assert(build.ir.bbs@[0]@.statements =~= Seq::empty());
            assert(build@.func.bbs =~= seq![BlockView::empty()]);
            lemma_empty_known(build@.func);
        }
        build
    }

    /// The block with the handle `bb`, to be changed in place.
    pub fn bb_mut(&mut self, bb: BbIdx) -> (block: &mut BasicBlock)
        requires
            bb.0 < old(self).ir.bbs.len(),
        ensures
            *block == old(self).ir.bbs[bb.0 as int],
            final(self).ir.bbs@ == old(self).ir.bbs@.update(bb.0 as int, *final(block)),
            final(self).ir.name == old(self).ir.name,
            final(self).ir.def_span == old(self).ir.def_span,
            final(self).ir.ret_ty == old(self).ir.ret_ty,
            final(self).ir.regs == old(self).ir.regs,
            final(self).current_bb == old(self).current_bb,
            final(self).ptr_tyl == old(self).ptr_tyl,
            final(self)@ == old(self)@.with_block(bb, final(block)@),
    {
        let block = &mut self.ir.bbs[bb.0];
        proof {
            lemma_block_views_update(old(self).ir.bbs@, bb.0 as int, *final(block));
        }
        block
    }

    /// The block that statements are appended to, to be changed in place.
    pub fn cur_bb_mut(&mut self) -> (block: &mut BasicBlock)
        requires
            old(self)@.wf(),
        ensures
            *block == old(self).ir.bbs[old(self).current_bb.0 as int],
            final(self).ir.bbs@ == old(self).ir.bbs@.update(
                old(self).current_bb.0 as int,
                *final(block),
            ),
            final(self).ir.name == old(self).ir.name,
            final(self).ir.def_span == old(self).ir.def_span,
            final(self).ir.ret_ty == old(self).ir.ret_ty,
            final(self).ir.regs == old(self).ir.regs,
            final(self).current_bb == old(self).current_bb,
            final(self).ptr_tyl == old(self).ptr_tyl,
            final(self)@ == old(self)@.with_block(old(self).current_bb, final(block)@),
    {
        let current = self.current_bb;
        self.bb_mut(current)
    }

    /// Appends a new block, empty and without a terminator, and returns its
    /// handle. The current block stays what it is.
    pub fn new_block(&mut self) -> (bb: BbIdx)
        ensures
            (final(self)@, bb) == old(self)@.new_block(),
            bb.0 == old(self)@.func.bbs.len(),
            old(self)@.func.registers_sound() ==> final(self)@.func.registers_sound(),
            old(self)@.func.registers_known() ==> final(self)@.func.registers_known(),
    {
        let bb = BbIdx(self.ir.bbs.len());
        let block = BasicBlock { statements: Vec::new(), term: Branch::Unset };
        proof {
            if self@.func.registers_sound() {
                lemma_new_block_keeps_registers(self@);
            }
            if self@.func.registers_known() {
                lemma_new_block_keeps_known(self@);
            }
            lemma_block_views_push(self.ir.bbs@, block);
            assert(block@.statements =~= Seq::empty());
        }
        self.ir.bbs.push(block);
        bb
    }

    /// Records one more register and returns its handle.
    fn new_reg(&mut self, name: Option<Symbol>, tyl: TyLayout<'cx>) -> (reg: Register)
        ensures
            (final(self)@, reg) == old(self)@.new_reg(name, tyl),
            reg.0 == old(self)@.func.regs.len(),
    {
        let reg = Register(self.ir.regs.len());
        self.ir.regs.push(RegisterData { tyl, name });
        reg
    }

    /// Appends `stmt` to the current block.
    fn push_stmt(&mut self, stmt: Statement)
        requires
            old(self)@.wf(),
        ensures
            final(self)@ == old(self)@.push(stmt@),
    {
        let block = self.cur_bb_mut();
        proof {
            lemma_statement_views_push(block.statements@, stmt);
        }
        block.statements.push(stmt);
    }

    /// Emits an `Alloca` of the given layout in the current block and returns
    /// its result, a fresh register that points to the storage. `name` is the
    /// name of the variable that the storage is for, if it is for one.
    pub fn alloca(&mut self, layout: &Layout, name: Option<Symbol>, span: Span) -> (ptr: Register)
        requires
            old(self)@.wf(),
        ensures
            (final(self)@, ptr) == old(self)@.alloca(*layout, name, span),
            ptr.0 == old(self)@.func.regs.len(),
            final(self)@.wf(),
            old(self)@.func.registers_sound() ==> final(self)@.func.registers_sound(),
            old(self)@.func.registers_known() ==> final(self)@.func.registers_known(),
    {
        let tyl = self.ptr_tyl;
        let result = self.new_reg(name, tyl);
        let stmt = Statement {
            span,
            kind: StatementKind::Alloca { result, size: layout.size, align: layout.align },
        };
        proof {
            if old(self)@.func.registers_sound() {
                lemma_define_keeps_registers(old(self)@, name, tyl, stmt@);
            }
            if old(self)@.func.registers_known() {
                lemma_new_reg_keeps_known(old(self)@, name, tyl);
                lemma_push_keeps_known(self@, stmt@);
            }
        }
        self.push_stmt(stmt);
        result
    }

    /// Emits a `Store` of `value` through `ptr` in the current block.
    pub fn store(&mut self, ptr: Register, value: Operand, layout: &Layout, span: Span)
        requires
            old(self)@.wf(),
        ensures
            final(self)@ == old(self)@.store(ptr, value, *layout, span),
            final(self)@.wf(),
            old(self)@.func.registers_sound() ==> final(self)@.func.registers_sound(),
            old(self)@.func.registers_known() && ptr.0 < old(self)@.func.regs.len() && value.known(
                old(self)@.func.regs.len(),
            ) ==> final(self)@.func.registers_known(),
    {
        let stmt = Statement {
            span,
            kind: StatementKind::Store {
                ptr: Operand::Reg(ptr),
                value,
                size: layout.size,
                align: layout.align,
            },
        };
        proof {
            if self@.func.registers_sound() {
                lemma_use_keeps_registers(self@, stmt@);
            }
            if self@.func.registers_known() && ptr.0 < self@.func.regs.len() && value.known(
                self@.func.regs.len(),
            ) {
                lemma_push_keeps_known(self@, stmt@);
            }
        }
        self.push_stmt(stmt);
    }

    /// Emits a `BinOp` in the current block and returns its result, a fresh
    /// register of the type `result_tyl`.
    pub fn binary(
        &mut self,
        kind: BinKind,
        lhs: Operand,
        rhs: Operand,
        span: Span,
        result_tyl: TyLayout<'cx>,
    ) -> (result: Register)
        requires
            old(self)@.wf(),
        ensures
            (final(self)@, result) == old(self)@.binary(kind, lhs, rhs, span, result_tyl),
            result.0 == old(self)@.func.regs.len(),
            final(self)@.wf(),
            old(self)@.func.registers_sound() ==> final(self)@.func.registers_sound(),
            old(self)@.func.registers_known() && lhs.known(old(self)@.func.regs.len())
                && rhs.known(old(self)@.func.regs.len()) ==> final(self)@.func.registers_known(),
    {
        let result = self.new_reg(None, result_tyl);
        let stmt = Statement { span, kind: StatementKind::BinOp { kind, lhs, rhs, result } };
        proof {
            if old(self)@.func.registers_sound() {
                lemma_define_keeps_registers(old(self)@, None, result_tyl, stmt@);
            }
            if old(self)@.func.registers_known() && lhs.known(old(self)@.func.regs.len())
                && rhs.known(old(self)@.func.regs.len()) {
                lemma_new_reg_keeps_known(old(self)@, None, result_tyl);
                lemma_push_keeps_known(self@, stmt@);
            }
        }
        self.push_stmt(stmt);
        result
    }

    /// Emits a `Call` of `callee` with `args` in the current block and returns
    /// its result, a fresh register of the type `result_tyl`.
    pub fn call(
        &mut self,
        result_tyl: TyLayout<'cx>,
        callee: Operand,
        args: Vec<Operand>,
        span: Span,
    ) -> (result: Register)
        requires
            old(self)@.wf(),
        ensures
            (final(self)@, result) == old(self)@.call(result_tyl, callee, args@, span),
            result.0 == old(self)@.func.regs.len(),
            final(self)@.wf(),
            old(self)@.func.registers_sound() ==> final(self)@.func.registers_sound(),
            old(self)@.func.registers_known() && callee.known(old(self)@.func.regs.len()) && (
            forall|i: int|
                0 <= i < args@.len() ==> (#[trigger] args@[i]).known(old(self)@.func.regs.len()))
                ==> final(self)@.func.registers_known(),
    {
        let result = self.new_reg(None, result_tyl);
        let stmt = Statement { span, kind: StatementKind::Call { result, func: callee, args } };
        proof {
            if old(self)@.func.registers_sound() {
                lemma_define_keeps_registers(old(self)@, None, result_tyl, stmt@);
            }
            if old(self)@.func.registers_known() && callee.known(old(self)@.func.regs.len()) && (
            forall|i: int|
                0 <= i < args@.len() ==> (#[trigger] args@[i]).known(
                    old(self)@.func.regs.len(),
                )) {
                lemma_new_reg_keeps_known(old(self)@, None, result_tyl);
                lemma_push_keeps_known(self@, stmt@);
            }
        }
        self.push_stmt(stmt);
        result
    }

    /// Whether every block has its terminator.
    pub fn all_terminated(&self) -> (yes: bool)
        ensures
            yes == self@.func.all_terminated(),
    {
        let mut i: usize = 0;
        while i < self.ir.bbs.len()
            invariant
                i <= self.ir.bbs.len(),
                forall|b: int| 0 <= b < i ==> !((#[trigger] self@.func.bbs[b]).term is Unset),
            decreases self.ir.bbs.len() - i,
        {
            if let Branch::Unset = self.ir.bbs[i].term {
                assert(self@.func.bbs[i as int].term is Unset);
                return false;
            }
            i = i + 1;
        }
        true
    }

    /// A builder in memory has no more blocks and registers than machine
    /// integers can count.
    pub proof fn lemma_in_memory(&self)
        ensures
            self@.func.in_memory(),
    {
        self.ir.lemma_in_memory();
    }

    /// The finished function. Every block must have its terminator by now: one
    /// without is a mistake of whoever drove the builder.
    pub fn finish(self) -> (func: Func<'cx>)
        requires
            self@.func.all_terminated(),
        ensures
            func@ == self@.func,
    {
        self.ir
    }
}

} // verus!
