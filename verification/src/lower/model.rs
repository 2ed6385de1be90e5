//! What lowering means: the pass as a mathematical function from the
//! state of the pass and a piece of syntax to the next state and a result.

use vstd::prelude::*;
use crate::ast::{
    ArithOpKind, Atom, BinaryOp, ComparisonKind, Decl, DeclAttr, Expr, ExprBinary, ExternalDecl,
    InitDecl, PostfixOp, Stmt,
};
use crate::error::{unresolved_error, unsupported_error, Error, Unsupported};
use crate::ir::{BinKind, Branch, ConstValue, FuncView, Operand, Register, TyLayout};
use crate::lower::builder::BuilderView;
use crate::lower::cx::InternerView;
use crate::span::{Span, Spanned, Symbol};
use crate::ty::Ty;

verus! {

/// What the pass knows of a declared variable.
#[derive(Debug, Clone, Copy)]
pub struct VariableInfo<'cx> {
    /// Where the variable was declared.
    pub def_span: Span,
    /// Its type and layout.
    pub tyl: TyLayout<'cx>,
    /// The register that points to its storage.
    pub ptr_to: Register,
    /// The storage attributes of its declaration.
    pub decl_attr: DeclAttr,
}

/// One scope: the variables declared in it, by the index of their name.
pub type ScopeView<'cx> = Map<u32, VariableInfo<'cx>>;

/// The state of the pass while it lowers one function.
pub ghost struct LowerState<'cx> {
    /// The function built so far.
    pub build: BuilderView<'cx>,
    /// The scopes that are open, the innermost last.
    pub scopes: Seq<ScopeView<'cx>>,
    /// The types and layouts seen so far.
    pub interner: InternerView<'cx>,
}

impl<'cx> LowerState<'cx> {
    /// Whether there is a scope to declare into and a block to append to.
    pub open spec fn wf(self) -> bool {
        self.build.wf() && self.scopes.len() > 0
    }

    /// Whether every register that the function or a scope mentions has its
    /// record among the registers of the function.
    pub open spec fn registers_tracked(self) -> bool {
        &&& self.build.func.registers_known()
        &&& scopes_known(self.scopes, self.build.func.regs.len())
    }

    /// With the builder replaced.
    pub open spec fn with_build(self, build: BuilderView<'cx>) -> Self {
        LowerState { build, ..self }
    }

    /// With the interner replaced.
    pub open spec fn with_interner(self, interner: InternerView<'cx>) -> Self {
        LowerState { interner, ..self }
    }

    /// With `name` declared in the innermost scope. It hides a variable of the
    /// same name, of this scope or an outer one, from then on.
    pub open spec fn declare(self, name: Symbol, info: VariableInfo<'cx>) -> Self {
        LowerState {
            scopes: self.scopes.update(
                self.scopes.len() - 1,
                self.scopes.last().insert(name.0, info),
            ),
            ..self
        }
    }
}

/// Whether the storage of every variable of every scope is one of the first
/// `regs` registers.
pub open spec fn scopes_known<'cx>(scopes: Seq<ScopeView<'cx>>, regs: nat) -> bool {
    forall|j: int, key: u32|
        #![trigger scopes[j].contains_key(key)]
        0 <= j < scopes.len() && scopes[j].contains_key(key) ==> scopes[j][key].ptr_to.0 < regs
}

/// The variable that `ident` names: the one of the innermost scope that
/// declares the name, if any scope does.
pub open spec fn resolve<'cx>(scopes: Seq<ScopeView<'cx>>, ident: Symbol) -> Option<
    VariableInfo<'cx>,
>
    decreases scopes.len(),
{
    if scopes.len() == 0 {
        None
    } else if scopes.last().contains_key(ident.0) {
        Some(scopes.last()[ident.0])
    } else {
        resolve(scopes.drop_last(), ident)
    }
}

/// The operation of the representation that a binary operator of the source
/// stands for, or the reason why it has none.
pub open spec fn bin_kind(op: BinaryOp) -> Result<BinKind, Unsupported> {
    match op {
        BinaryOp::Arith(ArithOpKind::Mul) => Ok(BinKind::Mul),
        BinaryOp::Arith(ArithOpKind::Div) => Ok(BinKind::Div),
        BinaryOp::Arith(ArithOpKind::Mod) => Ok(BinKind::Mod),
        BinaryOp::Arith(ArithOpKind::Add) => Ok(BinKind::Add),
        BinaryOp::Arith(ArithOpKind::Sub) => Ok(BinKind::Sub),
        BinaryOp::Arith(ArithOpKind::Shl) => Err(Unsupported::Shl),
        BinaryOp::Arith(ArithOpKind::Shr) => Err(Unsupported::Shr),
        BinaryOp::Arith(ArithOpKind::BitAnd) => Err(Unsupported::BitAnd),
        BinaryOp::Arith(ArithOpKind::BitXor) => Err(Unsupported::BitXor),
        BinaryOp::Arith(ArithOpKind::BitOr) => Err(Unsupported::BitOr),
        BinaryOp::LogicalAnd => Err(Unsupported::LogicalAnd),
        BinaryOp::LogicalOr => Err(Unsupported::LogicalOr),
        BinaryOp::Comparison(ComparisonKind::Lt) => Ok(BinKind::Lt),
        BinaryOp::Comparison(ComparisonKind::Gt) => Ok(BinKind::Gt),
        BinaryOp::Comparison(ComparisonKind::LtEq) => Ok(BinKind::Leq),
        BinaryOp::Comparison(ComparisonKind::GtEq) => Ok(BinKind::Geq),
        BinaryOp::Comparison(ComparisonKind::Eq) => Ok(BinKind::Eq),
        BinaryOp::Comparison(ComparisonKind::Neq) => Ok(BinKind::Neq),
        BinaryOp::Comma => Err(Unsupported::Comma),
        BinaryOp::Index => Err(Unsupported::Index),
        BinaryOp::Assign(_) => Err(Unsupported::AssignExpr),
    }
}

/// Lowering an expression: the statements that compute it are appended to the
/// current block, and the result is the operand that holds its value.
///
/// A literal is a constant and emits nothing. A binary expression lowers its
/// left operand, then its right operand, then emits one `BinOp`. A call lowers
/// the callee, then the arguments from left to right, then emits one `Call`.
/// Everything else is unsupported and fails at the expression's span.
pub open spec fn lower_expr<'cx>(st: LowerState<'cx>, expr: Expr, span: Span) -> (
    LowerState<'cx>,
    Result<Operand, Error>,
)
    decreases expr,
{
    match expr {
        Expr::Atom(Atom::Char(c)) => (st, Ok(Operand::Const(ConstValue::Int(c as u128)))),
        Expr::Atom(Atom::Int(i)) => (st, Ok(Operand::Const(ConstValue::Int(i)))),
        Expr::Atom(Atom::Float(_)) => (st, Err(unsupported_error(Unsupported::FloatLiteral, span))),
        Expr::Atom(Atom::Ident(_)) => (st, Err(unsupported_error(Unsupported::IdentExpr, span))),
        Expr::Atom(Atom::String(_)) => (
            st,
            Err(unsupported_error(Unsupported::StringLiteral, span)),
        ),
        Expr::Unary(_) => (st, Err(unsupported_error(Unsupported::Unary, span))),
        Expr::Binary(binary) => {
            let (after_lhs, lhs) = lower_expr(st, binary.lhs.0, binary.lhs.1);
            match lhs {
                Err(err) => (after_lhs, Err(err)),
                Ok(lhs) => {
                    let (after_rhs, rhs) = lower_expr(after_lhs, binary.rhs.0, binary.rhs.1);
                    match rhs {
                        Err(err) => (after_rhs, Err(err)),
                        Ok(rhs) => match bin_kind(binary.op) {
                            Err(what) => (after_rhs, Err(unsupported_error(what, span))),
                            Ok(kind) => {
                                let (interner, tyl) = after_rhs.interner.void_layout();
                                let (build, result) = after_rhs.build.binary(
                                    kind,
                                    lhs,
                                    rhs,
                                    span,
                                    tyl,
                                );
                                (
                                    after_rhs.with_interner(interner).with_build(build),
                                    Ok(Operand::Reg(result)),
                                )
                            },
                        },
                    }
                },
            }
        },
        Expr::Postfix(postfix) => {
            let (after_callee, callee) = lower_expr(st, postfix.lhs.0, postfix.lhs.1);
            match callee {
                Err(err) => (after_callee, Err(err)),
                Ok(callee) => match postfix.op {
                    PostfixOp::Call(args) => {
                        let (after_args, lowered) = lower_args(
                            after_callee,
                            args@,
                            0,
                            Seq::empty(),
                        );
                        match lowered {
                            Err(err) => (after_args, Err(err)),
                            Ok(operands) => {
                                let (interner, tyl) = after_args.interner.void_layout();
                                let (build, result) = after_args.build.call(
                                    tyl,
                                    callee,
                                    operands,
                                    span,
                                );
                                (
                                    after_args.with_interner(interner).with_build(build),
                                    Ok(Operand::Reg(result)),
                                )
                            },
                        }
                    },
                    PostfixOp::Member(_) => (
                        after_callee,
                        Err(unsupported_error(Unsupported::Member, span)),
                    ),
                    PostfixOp::ArrowMember(_) => (
                        after_callee,
                        Err(unsupported_error(Unsupported::ArrowMember, span)),
                    ),
                    PostfixOp::Increment => (
                        after_callee,
                        Err(unsupported_error(Unsupported::Increment, span)),
                    ),
                    PostfixOp::Decrement => (
                        after_callee,
                        Err(unsupported_error(Unsupported::Decrement, span)),
                    ),
                },
            }
        },
    }
}

/// Lowering the arguments of a call from the `from`-th on, one after the
/// other, where `done` holds the operands of the arguments before. The first
/// argument that fails ends it.
pub open spec fn lower_args<'cx>(
    st: LowerState<'cx>,
    args: Seq<Spanned<Expr>>,
    from: int,
    done: Seq<Operand>,
) -> (LowerState<'cx>, Result<Seq<Operand>, Error>)
    decreases args, args.len() - from,
{
    if 0 <= from < args.len() {
        let (after, operand) = lower_expr(st, args[from].0, args[from].1);
        match operand {
            Err(err) => (after, Err(err)),
            Ok(operand) => lower_args(after, args, from + 1, done.push(operand)),
        }
    } else {
        (st, Ok(done))
    }
}

/// Lowering a statement.
///
/// A declaration gives each declared name storage, an `Alloca`, records the
/// name in the innermost scope and stores the initializer, if there is one. A
/// plain assignment to a name resolves the name first, and fails with nothing
/// lowered if no scope declares it; then it lowers the right-hand side and
/// stores its value into the variable's storage. An `if` ends the current block in a two-way branch to
/// new blocks for its bodies, which both jump to a new block where lowering
/// goes on. Any other expression is lowered for what it emits, and its
/// value is dropped. Everything else is unsupported and fails at the
/// statement's span.
pub open spec fn lower_stmt<'cx>(st: LowerState<'cx>, stmt: Stmt, stmt_span: Span) -> (
    LowerState<'cx>,
    Result<(), Error>,
)
    decreases stmt,
{
    match stmt {
        Stmt::Decl(Decl::StaticAssert) => (
            st,
            Err(unsupported_error(Unsupported::StaticAssert, stmt_span)),
        ),
        Stmt::Decl(Decl::Normal(decl)) => {
            let (interner, ty) = st.interner.lower_ty(decl.decl_spec.ty);
            lower_declarators(
                st.with_interner(interner),
                ty,
                decl.decl_spec.attrs,
                decl.init_declarators@,
                0,
                stmt_span,
            )
        },
        Stmt::Labeled { .. } => (st, Err(unsupported_error(Unsupported::Labeled, stmt_span))),
        Stmt::Compound(_) => (st, Err(unsupported_error(Unsupported::Compound, stmt_span))),
        Stmt::If { cond, then, otherwise } => {
            let (after_cond, cond) = lower_expr(st, cond.0, cond.1);
            match cond {
                Err(err) => (after_cond, Err(err)),
                Ok(cond) => {
                    let pred = after_cond.build.current;
                    let (build, then_bb) = after_cond.build.new_block();
                    let (build, else_bb) = match otherwise {
                        Some(_) => {
                            let (build, else_bb) = build.new_block();
                            (build, Some(else_bb))
                        },
                        None => (build, None),
                    };
                    let (build, cont) = build.new_block();
                    let (after_then, then_done) = lower_stmts(
                        after_cond.with_build(build.at(then_bb)),
                        then@,
                        0,
                    );
                    match then_done {
                        Err(err) => (after_then, Err(err)),
                        Ok(()) => {
                            let joined = after_then.with_build(
                                after_then.build.set_term(
                                    after_then.build.current,
                                    Branch::Goto(cont),
                                ),
                            );
                            match otherwise {
                                None => (
                                    joined.with_build(
                                        joined.build.set_term(
                                            pred,
                                            Branch::Switch { cond, yes: then_bb, no: cont },
                                        ).at(cont),
                                    ),
                                    Ok(()),
                                ),
                                Some(else_body) => {
                                    let else_bb = else_bb->0;
                                    let (after_else, else_done) = lower_stmts(
                                        joined.with_build(joined.build.at(else_bb)),
                                        else_body@,
                                        0,
                                    );
                                    match else_done {
                                        Err(err) => (after_else, Err(err)),
                                        Ok(()) => (
                                            after_else.with_build(
                                                after_else.build.set_term(
                                                    after_else.build.current,
                                                    Branch::Goto(cont),
                                                ).set_term(
                                                    pred,
                                                    Branch::Switch {
                                                        cond,
                                                        yes: then_bb,
                                                        no: else_bb,
                                                    },
                                                ).at(cont),
                                            ),
                                            Ok(()),
                                        ),
                                    }
                                },
                            }
                        },
                    }
                },
            }
        },
        Stmt::Switch => (st, Err(unsupported_error(Unsupported::Switch, stmt_span))),
        Stmt::While { .. } => (st, Err(unsupported_error(Unsupported::While, stmt_span))),
        Stmt::For { .. } => (st, Err(unsupported_error(Unsupported::For, stmt_span))),
        Stmt::Goto(_) => (st, Err(unsupported_error(Unsupported::Goto, stmt_span))),
        Stmt::Continue => (st, Err(unsupported_error(Unsupported::Continue, stmt_span))),
        Stmt::Break => (st, Err(unsupported_error(Unsupported::Break, stmt_span))),
        Stmt::Return(_) => (st, Err(unsupported_error(Unsupported::Return, stmt_span))),
        Stmt::Expr(Expr::Binary(ExprBinary { op: BinaryOp::Assign(with_op), lhs, rhs })) => {
            if with_op is Some {
                (st, Err(unsupported_error(Unsupported::CompoundAssign, stmt_span)))
            } else {
                match lhs.0 {
                    Expr::Atom(Atom::Ident((ident, ident_span))) => match resolve(
                        st.scopes,
                        ident,
                    ) {
                        None => (st, Err(unresolved_error(ident, ident_span))),
                        Some(var) => {
                            let (after_rhs, value) = lower_expr(st, rhs.0, rhs.1);
                            match value {
                                Err(err) => (after_rhs, Err(err)),
                                Ok(value) => (
                                    after_rhs.with_build(
                                        after_rhs.build.store(
                                            var.ptr_to,
                                            value,
                                            *var.tyl.layout.layout,
                                            stmt_span,
                                        ),
                                    ),
                                    Ok(()),
                                ),
                            }
                        },
                    },
                    _ => (st, Err(unsupported_error(Unsupported::AssignTarget, lhs.1))),
                }
            }
        },
        Stmt::Expr(expr) => {
            let (after, value) = lower_expr(st, expr, stmt_span);
            match value {
                Err(err) => (after, Err(err)),
                Ok(_) => (after, Ok(())),
            }
        },
    }
}

/// Lowering the statements of a body from the `from`-th on, one after the
/// other. The first statement that fails ends it.
pub open spec fn lower_stmts<'cx>(st: LowerState<'cx>, body: Seq<Spanned<Stmt>>, from: int) -> (
    LowerState<'cx>,
    Result<(), Error>,
)
    decreases body, body.len() - from,
{
    if 0 <= from < body.len() {
        let (after, done) = lower_stmt(st, body[from].0, body[from].1);
        match done {
            Err(err) => (after, Err(err)),
            Ok(()) => lower_stmts(after, body, from + 1),
        }
    } else {
        (st, Ok(()))
    }
}

/// Lowering the declarators of one declaration of the type `ty` from the
/// `from`-th on, one after the other. The type is one that a specifier names,
/// so it has a layout.
pub open spec fn lower_declarators<'cx>(
    st: LowerState<'cx>,
    ty: Ty<'cx>,
    attrs: DeclAttr,
    declarators: Seq<Spanned<InitDecl>>,
    from: int,
    stmt_span: Span,
) -> (LowerState<'cx>, Result<(), Error>)
    recommends
        !ty.kind.is_aggregate(),
    decreases declarators, declarators.len() - from,
{
    if 0 <= from < declarators.len() {
        let (var, def_span) = declarators[from];
        let (interner, tyl) = st.interner.layout_of(ty);
        let tyl = tyl->0;
        let name = var.declarator.decl.spec_name().0;
        let (build, ptr_to) = st.build.alloca(*tyl.layout.layout, Some(name), stmt_span);
        let info = VariableInfo { def_span, tyl, ptr_to, decl_attr: attrs };
        let declared = st.with_interner(interner).with_build(build).declare(name, info);
        match var.init {
            None => lower_declarators(declared, ty, attrs, declarators, from + 1, stmt_span),
            Some((init, init_span)) => {
                let (after_init, value) = lower_expr(declared, init, init_span);
                match value {
                    Err(err) => (after_init, Err(err)),
                    Ok(value) => lower_declarators(
                        after_init.with_build(
                            after_init.build.store(ptr_to, value, *tyl.layout.layout, init_span),
                        ),
                        ty,
                        attrs,
                        declarators,
                        from + 1,
                        stmt_span,
                    ),
                }
            },
        }
    } else {
        (st, Ok(()))
    }
}

/// Lowering the body of one function into a finished function. The block that
/// is current when the body ends becomes a jump to itself: the representation
/// has no way yet to leave a function.
pub open spec fn lower_function<'cx>(
    interner: InternerView<'cx>,
    body: Seq<Spanned<Stmt>>,
    def_span: Span,
    name: Symbol,
    ret_ty: Ty<'cx>,
) -> (InternerView<'cx>, Result<FuncView<'cx>, Error>) {
    let (interner, build) = BuilderView::new(interner, name, def_span, ret_ty);
    let (after, done) = lower_stmts(
        LowerState { build, scopes: seq![Map::empty()], interner },
        body,
        0,
    );
    match done {
        Err(err) => (after.interner, Err(err)),
        Ok(()) => (
            after.interner,
            Ok(after.build.set_term(after.build.current, Branch::Goto(after.build.current)).func),
        ),
    }
}

/// Lowering the declarations of a translation unit from the `from`-th on,
/// where `done` holds the functions of those before. Only function definitions
/// are supported; the first declaration that fails ends it.
pub open spec fn lower_unit<'cx>(
    interner: InternerView<'cx>,
    unit: Seq<Spanned<ExternalDecl>>,
    from: int,
    done: Seq<FuncView<'cx>>,
) -> (InternerView<'cx>, Result<Seq<FuncView<'cx>>, Error>)
    decreases unit.len() - from,
{
    if 0 <= from < unit.len() {
        let (decl, span) = unit[from];
        match decl {
            ExternalDecl::Decl(_) => (
                interner,
                Err(unsupported_error(Unsupported::TopLevelDecl, span)),
            ),
            ExternalDecl::FunctionDef(def) => match def.decl {
                Decl::StaticAssert => (
                    interner,
                    Err(unsupported_error(Unsupported::StaticAssert, span)),
                ),
                Decl::Normal(decl) => {
                    let (interner, ret_ty) = interner.lower_ty(decl.decl_spec.ty);
                    if decl.init_declarators@.len() == 0 {
                        (interner, Err(unsupported_error(Unsupported::MissingDeclarator, span)))
                    } else {
                        let (first, def_span) = decl.init_declarators@[0];
                        let (interner, func) = lower_function(
                            interner,
                            def.body@,
                            def_span,
                            first.declarator.decl.spec_name().0,
                            ret_ty,
                        );
                        match func {
                            Err(err) => (interner, Err(err)),
                            Ok(func) => lower_unit(interner, unit, from + 1, done.push(func)),
                        }
                    }
                },
            },
        }
    } else {
        (interner, Ok(done))
    }
}

} // verus!
