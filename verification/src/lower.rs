//! Lowering: from the syntax tree to the intermediate representation.

pub mod backing;
pub mod builder;
pub mod cx;
pub mod laws;
pub mod model;

use vstd::prelude::*;
use bumpalo::Bump;
use rustc_hash::FxHashMap;
use crate::ast::{
    ArithOpKind, Atom, BinaryOp, ComparisonKind, Decl, Expr, ExprBinary, ExternalDecl, PostfixOp,
    Stmt, TranslationUnit,
};
use crate::error::{Error, Unsupported};
use crate::ir::{func_views, BinKind, Branch, ConstValue, Func, Ir, Operand};
use crate::lower::backing::{table_get, table_insert};
use crate::lower::builder::{
    lemma_set_term_keeps_known, lemma_set_term_keeps_registers, FuncBuilder,
};
use crate::lower::cx::{InternerView, LoweringCx};
use crate::lower::laws::{
    appended, grown, lemma_appended_grown, lemma_appended_trans, lemma_grown_trans,
    lemma_if_else_grown, lemma_if_grown, lemma_lower_expr_appends, lemma_resolve_known,
    open_ended,
};
use crate::lower::model::{
    lower_args, lower_declarators, lower_expr, lower_function, lower_stmt, lower_stmts,
    lower_unit, resolve, LowerState, ScopeView, VariableInfo,
};
use crate::span::{Span, Spanned, Symbol};
use crate::ty::{Ty, TyKind};

verus! {

/// One scope: the variables declared in it, by the index of their name.
pub type Scope<'cx> = FxHashMap<u32, VariableInfo<'cx>>;

/// The scopes of a stack, each as a mathematical map.
pub open spec fn scope_views<'cx>(scopes: Seq<Scope<'cx>>) -> Seq<ScopeView<'cx>> {
    Seq::new(scopes.len(), |i: int| scopes[i]@)
}

/// What the pass keeps while it lowers one function: the scopes that are
/// open, the innermost last, and the builder of the function.
pub struct FnLoweringCtxt<'cx> {
    pub scopes: Vec<Scope<'cx>>,
    pub build: FuncBuilder<'cx>,
}

impl<'cx> FnLoweringCtxt<'cx> {
    /// The state of the pass, as a mathematical value.
    pub open spec fn state(&self, lcx: &LoweringCx<'cx>) -> LowerState<'cx> {
        LowerState { build: self.build@, scopes: scope_views(self.scopes@), interner: lcx@ }
    }

    /// Whether there is a scope to declare into and a block to append to.
    pub open spec fn wf(&self) -> bool {
        self.build@.wf() && self.scopes@.len() > 0
    }

    /// The context for a new function: its builder, and one scope without
    /// variables.
    pub fn new(name: Symbol, def_span: Span, ret_ty: Ty<'cx>, lcx: &mut LoweringCx<'cx>) -> (cx:
        Self)
        requires
            old(lcx).wf(),
        ensures
            final(lcx).wf(),
            final(lcx)@.extends(old(lcx)@),
            cx.wf(),
            cx.build@.func.registers_sound(),
            cx.state(final(lcx)).registers_tracked(),
            cx.state(final(lcx)).scopes == seq![Map::<u32, VariableInfo<'cx>>::empty()],
            (final(lcx)@, cx.build@) == crate::lower::builder::BuilderView::new(
                old(lcx)@,
                name,
                def_span,
                ret_ty,
            ),
    {
        let build = FuncBuilder::new(name, def_span, ret_ty, lcx);
        let mut scopes: Vec<Scope<'cx>> = Vec::new();
        scopes.push(FxHashMap::default());
        proof {
            assert(scope_views(scopes@) =~= seq![Map::<u32, VariableInfo<'cx>>::empty()]);
        }
        FnLoweringCtxt { scopes, build }
    }

    /// The variable that `ident` names: the one of the innermost scope that
    /// declares the name, or `None` if no scope does.
    pub fn resolve_ident(&self, ident: Symbol) -> (found: Option<&VariableInfo<'cx>>)
        ensures
            resolve(scope_views(self.scopes@), ident) == match found {
                Some(var) => Some(*var),
                None => None,
            },
    {
        let ghost all = scope_views(self.scopes@);
        let mut i = self.scopes.len();
        proof {
            assert(all.subrange(0, i as int) =~= all);
        }
        while i > 0
            invariant
                i <= self.scopes.len(),
                all == scope_views(self.scopes@),
                resolve(all, ident) == resolve(all.subrange(0, i as int), ident),
            decreases i,
        {
            i = i - 1;
            proof {
                assert(all.subrange(0, i + 1).drop_last() =~= all.subrange(0, i as int));
            }
            match table_get(&self.scopes[i], &ident.0) {
                Some(var) => {
                    return Some(var);
                },
                None => {},
            }
        }
        None
    }

    /// Lowers an expression into the current block and returns the operand
    /// that holds its value.
    #[verifier::loop_isolation(false)]
    pub fn lower_expr(&mut self, lcx: &mut LoweringCx<'cx>, expr: &Expr, span: Span) -> (value:
        Result<Operand, Error>)
        requires
            old(self).wf(),
            old(lcx).wf(),
        ensures
            final(self).wf(),
            final(lcx).wf(),
            (final(self).state(final(lcx)), value) == lower_expr(
                old(self).state(old(lcx)),
                *expr,
                span,
            ),
            old(self).build@.func.bbs.len() <= final(self).build@.func.bbs.len(),
            old(self).build@.func.registers_sound() ==> final(self).build@.func.registers_sound(),
            final(lcx)@.extends(old(lcx)@),
            old(self).build@.func.regs.len() <= final(self).build@.func.regs.len(),
            value matches Ok(Operand::Reg(reg)) ==> old(self).build@.func.regs.len() <= reg.0
                < final(self).build@.func.regs.len(),
            old(self).build@.func.registers_known() ==> final(self).build@.func.registers_known()
                && (value matches Ok(operand) ==> operand.known(
                final(self).build@.func.regs.len(),
            )),
        decreases expr,
    {
        match expr {
            Expr::Atom(Atom::Char(c)) => Ok(Operand::Const(ConstValue::Int(*c as u128))),
            Expr::Atom(Atom::Int(i)) => Ok(Operand::Const(ConstValue::Int(*i))),
            Expr::Atom(Atom::Float(_)) => Err(Error::unsupported(Unsupported::FloatLiteral, span)),
            Expr::Atom(Atom::Ident(_)) => Err(Error::unsupported(Unsupported::IdentExpr, span)),
            Expr::Atom(Atom::String(_)) => Err(
                Error::unsupported(Unsupported::StringLiteral, span),
            ),
            Expr::Unary(_) => Err(Error::unsupported(Unsupported::Unary, span)),
            Expr::Binary(binary) => {
                let lhs = match self.lower_expr(lcx, &binary.lhs.0, binary.lhs.1) {
                    Ok(lhs) => lhs,
                    Err(err) => {
                        return Err(err);
                    },
                };
                let ghost after_lhs = lcx@;
                let rhs = match self.lower_expr(lcx, &binary.rhs.0, binary.rhs.1) {
                    Ok(rhs) => rhs,
                    Err(err) => {
                        proof {
                            lcx@.lemma_extends_trans(after_lhs, old(lcx)@);
                        }
                        return Err(err);
                    },
                };
                proof {
                    lcx@.lemma_extends_trans(after_lhs, old(lcx)@);
                }
                let kind = match binary.op {
                    BinaryOp::Arith(ArithOpKind::Mul) => BinKind::Mul,
                    BinaryOp::Arith(ArithOpKind::Div) => BinKind::Div,
                    BinaryOp::Arith(ArithOpKind::Mod) => BinKind::Mod,
                    BinaryOp::Arith(ArithOpKind::Add) => BinKind::Add,
                    BinaryOp::Arith(ArithOpKind::Sub) => BinKind::Sub,
                    BinaryOp::Arith(ArithOpKind::Shl) => {
                        return Err(Error::unsupported(Unsupported::Shl, span));
                    },
                    BinaryOp::Arith(ArithOpKind::Shr) => {
                        return Err(Error::unsupported(Unsupported::Shr, span));
                    },
                    BinaryOp::Arith(ArithOpKind::BitAnd) => {
                        return Err(Error::unsupported(Unsupported::BitAnd, span));
                    },
                    BinaryOp::Arith(ArithOpKind::BitXor) => {
                        return Err(Error::unsupported(Unsupported::BitXor, span));
                    },
                    BinaryOp::Arith(ArithOpKind::BitOr) => {
                        return Err(Error::unsupported(Unsupported::BitOr, span));
                    },
                    BinaryOp::LogicalAnd => {
                        return Err(Error::unsupported(Unsupported::LogicalAnd, span));
                    },
                    BinaryOp::LogicalOr => {
                        return Err(Error::unsupported(Unsupported::LogicalOr, span));
                    },
                    BinaryOp::Comparison(ComparisonKind::Lt) => BinKind::Lt,
                    BinaryOp::Comparison(ComparisonKind::Gt) => BinKind::Gt,
                    BinaryOp::Comparison(ComparisonKind::LtEq) => BinKind::Leq,
                    BinaryOp::Comparison(ComparisonKind::GtEq) => BinKind::Geq,
                    BinaryOp::Comparison(ComparisonKind::Eq) => BinKind::Eq,
                    BinaryOp::Comparison(ComparisonKind::Neq) => BinKind::Neq,
                    BinaryOp::Comma => {
                        return Err(Error::unsupported(Unsupported::Comma, span));
                    },
                    BinaryOp::Index => {
                        return Err(Error::unsupported(Unsupported::Index, span));
                    },
                    BinaryOp::Assign(_) => {
                        return Err(Error::unsupported(Unsupported::AssignExpr, span));
                    },
                };
                let ghost after_rhs = lcx@;
                let tyl = void_layout(lcx);
                proof {
                    lcx@.lemma_extends_trans(after_rhs, old(lcx)@);
                }
                let result = self.build.binary(kind, lhs, rhs, span, tyl);
                Ok(Operand::Reg(result))
            },
            Expr::Postfix(postfix) => {
                let callee = match self.lower_expr(lcx, &postfix.lhs.0, postfix.lhs.1) {
                    Ok(callee) => callee,
                    Err(err) => {
                        return Err(err);
                    },
                };
                match &postfix.op {
                    PostfixOp::Call(args) => {
                        let ghost after_callee = self.state(lcx);
                        let mut operands: Vec<Operand> = Vec::new();
                        let mut i: usize = 0;
                        while i < args.len()
                            invariant
                                i <= args.len(),
                                self.wf(),
                                lcx.wf(),
                                old(self).build@.func.bbs.len() <= self.build@.func.bbs.len(),
                                old(self).build@.func.registers_sound()
                                    ==> self.build@.func.registers_sound(),
                                lcx@.extends(old(lcx)@),
                                old(self).build@.func.regs.len()
                                    <= self.build@.func.regs.len(),
                                old(self).build@.func.registers_known() ==> {
                                    &&& self.build@.func.registers_known()
                                    &&& callee.known(self.build@.func.regs.len())
                                    &&& forall|k: int|
                                        0 <= k < operands@.len() ==> (
                                        #[trigger] operands@[k]).known(
                                            self.build@.func.regs.len(),
                                        )
                                },
                                lower_args(after_callee, args@, 0, Seq::empty()) == lower_args(
                                    self.state(lcx),
                                    args@,
                                    i as int,
                                    operands@,
                                ),
                            decreases args.len() - i,
                        {
                            let ghost before = lcx@;
                            let lowered = self.lower_expr(lcx, &args[i].0, args[i].1);
                            proof {
                                lcx@.lemma_extends_trans(before, old(lcx)@);
                            }
                            match lowered {
                                Ok(operand) => {
                                    operands.push(operand);
                                },
                                Err(err) => {
                                    return Err(err);
                                },
                            }
                            i = i + 1;
                        }
                        let ghost after_args = lcx@;
                        let tyl = void_layout(lcx);
                        proof {
                            lcx@.lemma_extends_trans(after_args, old(lcx)@);
                        }
                        let result = self.build.call(tyl, callee, operands, span);
                        Ok(Operand::Reg(result))
                    },
                    PostfixOp::Member(_) => Err(Error::unsupported(Unsupported::Member, span)),
                    PostfixOp::ArrowMember(_) => Err(
                        Error::unsupported(Unsupported::ArrowMember, span),
                    ),
                    PostfixOp::Increment => Err(Error::unsupported(Unsupported::Increment, span)),
                    PostfixOp::Decrement => Err(Error::unsupported(Unsupported::Decrement, span)),
                }
            },
        }
    }

    /// Lowers the statements of a body, one after the other. The first one
    /// that fails ends it.
    #[verifier::loop_isolation(false)]
    pub fn lower_body(&mut self, lcx: &mut LoweringCx<'cx>, body: &[Spanned<Stmt>]) -> (done:
        Result<(), Error>)
        requires
            old(self).wf(),
            old(lcx).wf(),
        ensures
            final(self).wf(),
            final(lcx).wf(),
            (final(self).state(final(lcx)), done) == lower_stmts(
                old(self).state(old(lcx)),
                body@,
                0,
            ),
            old(self).build@.func.bbs.len() <= final(self).build@.func.bbs.len(),
            done is Ok && open_ended(old(self).build@) ==> grown(
                old(self).build@,
                final(self).build@,
            ),
            old(self).build@.func.registers_sound() ==> final(self).build@.func.registers_sound(),
            final(lcx)@.extends(old(lcx)@),
            old(self).build@.func.regs.len() <= final(self).build@.func.regs.len(),
            old(self).state(old(lcx)).registers_tracked() ==> final(self).state(
                final(lcx),
            ).registers_tracked(),
        decreases body@,
    {
        let mut i: usize = 0;
        while i < body.len()
            invariant
                i <= body.len(),
                self.wf(),
                lcx.wf(),
                old(self).build@.func.bbs.len() <= self.build@.func.bbs.len(),
                open_ended(old(self).build@) ==> grown(old(self).build@, self.build@),
                old(self).build@.func.registers_sound() ==> self.build@.func.registers_sound(),
                lcx@.extends(old(lcx)@),
                old(self).build@.func.regs.len() <= self.build@.func.regs.len(),
                old(self).state(old(lcx)).registers_tracked() ==> self.state(
                    lcx,
                ).registers_tracked(),
                lower_stmts(old(self).state(old(lcx)), body@, 0) == lower_stmts(
                    self.state(lcx),
                    body@,
                    i as int,
                ),
            decreases body.len() - i,
        {
            let ghost before = self.build@;
            let ghost interned = lcx@;
            let lowered = self.lower_stmt(lcx, &body[i].0, body[i].1);
            proof {
                lcx@.lemma_extends_trans(interned, old(lcx)@);
            }
            match lowered {
                Ok(()) => {},
                Err(err) => {
                    return Err(err);
                },
            }
            proof {
                if open_ended(old(self).build@) {
                    lemma_grown_trans(old(self).build@, before, self.build@);
                }
            }
            i = i + 1;
        }
        Ok(())
    }

    /// Lowers a statement. A declaration, a plain assignment to a name and a
    /// bare expression append to the current block; an `if` ends the current
    /// block and goes on in a new one. An assignment looks at its target
    /// first: if the target is no plain name, or a name that no scope declares,
    /// it fails with nothing lowered and the state as it was.
    #[verifier::loop_isolation(false)]
    pub fn lower_stmt(&mut self, lcx: &mut LoweringCx<'cx>, stmt: &Stmt, stmt_span: Span) -> (done:
        Result<(), Error>)
        requires
            old(self).wf(),
            old(lcx).wf(),
        ensures
            final(self).wf(),
            final(lcx).wf(),
            (final(self).state(final(lcx)), done) == lower_stmt(
                old(self).state(old(lcx)),
                *stmt,
                stmt_span,
            ),
            old(self).build@.func.bbs.len() <= final(self).build@.func.bbs.len(),
            done is Ok && open_ended(old(self).build@) ==> grown(
                old(self).build@,
                final(self).build@,
            ),
            old(self).build@.func.registers_sound() ==> final(self).build@.func.registers_sound(),
            final(lcx)@.extends(old(lcx)@),
            old(self).build@.func.regs.len() <= final(self).build@.func.regs.len(),
            old(self).state(old(lcx)).registers_tracked() ==> final(self).state(
                final(lcx),
            ).registers_tracked(),
        decreases stmt,
    {
        match stmt {
            Stmt::Decl(decl) => {
                if let Decl::StaticAssert = decl {
                    return Err(Error::unsupported(Unsupported::StaticAssert, stmt_span));
                }
                let decl = decl.unwrap_normal();
                let ty = lcx.lower_ty(&decl.decl_spec.ty);
                let decl_attr = decl.decl_spec.attrs;
                let ghost start = self.state(lcx);
                let mut i: usize = 0;
                while i < decl.init_declarators.len()
                    invariant
                        i <= decl.init_declarators.len(),
                        self.wf(),
                        lcx.wf(),
                        old(self).build@.func.bbs.len() <= self.build@.func.bbs.len(),
                        appended(old(self).build@, self.build@),
                        old(self).build@.func.registers_sound()
                            ==> self.build@.func.registers_sound(),
                        lcx@.extends(old(lcx)@),
                        old(self).state(old(lcx)).registers_tracked() ==> self.state(
                            lcx,
                        ).registers_tracked(),
                        lower_declarators(
                            start,
                            ty,
                            decl_attr,
                            decl.init_declarators@,
                            0,
                            stmt_span,
                        ) == lower_declarators(
                            self.state(lcx),
                            ty,
                            decl_attr,
                            decl.init_declarators@,
                            i as int,
                            stmt_span,
                        ),
                    decreases decl.init_declarators.len() - i,
                {
                    let var = &decl.init_declarators[i].0;
                    let def_span = decl.init_declarators[i].1;
                    let ghost interned = lcx@;
                    let tyl = match lcx.layout_of(ty) {
                        Some(tyl) => tyl,
                        None => unreached(),
                    };
                    proof {
                        lcx@.lemma_extends_trans(interned, old(lcx)@);
                    }
                    let (name, _) = var.declarator.decl.name();
                    let ghost at_entry = self.build@;
                    let ptr_to = self.build.alloca(tyl.layout.layout, Some(name), stmt_span);
                    proof {
                        assert(appended(at_entry, self.build@));
                        lemma_appended_trans(old(self).build@, at_entry, self.build@);
                    }
                    let variable_info = VariableInfo { def_span, tyl, ptr_to, decl_attr };
                    let ghost before = self.state(lcx);
                    let innermost = self.scopes.len() - 1;
                    table_insert(&mut self.scopes[innermost], name.0, variable_info);
                    proof {
                        assert(self.state(lcx).scopes =~= before.declare(
                            name,
                            variable_info,
                        ).scopes);
                        if old(self).state(old(lcx)).registers_tracked() {
                            let scopes = self.state(lcx).scopes;
                            let regs = self.build@.func.regs.len();
                            assert forall|j: int, key: u32|
                                #![trigger scopes[j].contains_key(key)]
                                0 <= j < scopes.len() && scopes[j].contains_key(
                                    key,
                                ) implies scopes[j][key].ptr_to.0 < regs by {
                                if !(j == scopes.len() - 1 && key == name.0) {
                                    assert(before.scopes[j].contains_key(key));
                                }
                            }
                        }
                    }
                    if let Some((init, init_span)) = &var.init {
                        let ghost declared = self.state(lcx);
                        let lowered = self.lower_expr(lcx, init, *init_span);
                        proof {
                            lcx@.lemma_extends_trans(declared.interner, old(lcx)@);
                            lemma_lower_expr_appends(declared, *init, *init_span);
                        }
                        let value = match lowered {
                            Ok(value) => value,
                            Err(err) => {
                                return Err(err);
                            },
                        };
                        let ghost lowered = self.build@;
                        self.build.store(ptr_to, value, tyl.layout.layout, *init_span);
                        proof {
                            lemma_lower_expr_appends(declared, *init, *init_span);
                            assert(appended(lowered, self.build@));
                            lemma_appended_trans(declared.build, lowered, self.build@);
                            lemma_appended_trans(old(self).build@, declared.build, self.build@);
                        }
                    }
                    i = i + 1;
                }
                proof {
                    if open_ended(old(self).build@) {
                        lemma_appended_grown(old(self).build@, self.build@);
                    }
                }
                Ok(())
            },
            Stmt::Labeled { .. } => Err(Error::unsupported(Unsupported::Labeled, stmt_span)),
            Stmt::Compound(_) => Err(Error::unsupported(Unsupported::Compound, stmt_span)),
            Stmt::If { cond, then: then_body, otherwise } => {
                proof {
                    lemma_lower_expr_appends(old(self).state(old(lcx)), cond.0, cond.1);
                }
                let cond = match self.lower_expr(lcx, &cond.0, cond.1) {
                    Ok(cond) => cond,
                    Err(err) => {
                        return Err(err);
                    },
                };
                let ghost forked = self.build@;
                let ghost all_known = old(self).state(old(lcx)).registers_tracked();
                let pred = self.build.current_bb;
                let then = self.build.new_block();
                let els = match otherwise {
                    Some(_) => Some(self.build.new_block()),
                    None => None,
                };
                let cont = self.build.new_block();

                self.build.current_bb = then;
                let ghost after_cond = lcx@;
                let lowered = self.lower_body(lcx, then_body.as_slice());
                proof {
                    lcx@.lemma_extends_trans(after_cond, old(lcx)@);
                }
                match lowered {
                    Ok(()) => {},
                    Err(err) => {
                        return Err(err);
                    },
                }
                let ghost after_then = self.build@;
                proof {
                    if after_then.func.registers_sound() {
                        lemma_set_term_keeps_registers(
                            after_then,
                            after_then.current,
                            Branch::Goto(cont),
                        );
                    }
                    if all_known {
                        lemma_set_term_keeps_known(
                            after_then,
                            after_then.current,
                            Branch::Goto(cont),
                        );
                    }
                }
                self.build.cur_bb_mut().term = Branch::Goto(cont);

                let false_branch = match otherwise {
                    Some(otherwise) => {
                        let els = els.unwrap();
                        self.build.current_bb = els;
                        let ghost interned = lcx@;
                        let lowered = self.lower_body(lcx, otherwise.as_slice());
                        proof {
                            lcx@.lemma_extends_trans(interned, old(lcx)@);
                        }
                        match lowered {
                            Ok(()) => {},
                            Err(err) => {
                                return Err(err);
                            },
                        }
                        proof {
                            if self.build@.func.registers_sound() {
                                lemma_set_term_keeps_registers(
                                    self.build@,
                                    self.build@.current,
                                    Branch::Goto(cont),
                                );
                            }
                            if all_known {
                                lemma_set_term_keeps_known(
                                    self.build@,
                                    self.build@.current,
                                    Branch::Goto(cont),
                                );
                            }
                            if open_ended(old(self).build@) {
                                lemma_appended_grown(old(self).build@, forked);
                                lemma_if_else_grown(
                                    forked,
                                    after_then,
                                    self.build@,
                                    then,
                                    els,
                                    cont,
                                    cond,
                                );
                            }
                        }
                        self.build.cur_bb_mut().term = Branch::Goto(cont);
                        els
                    },
                    None => {
                        proof {
                            if open_ended(old(self).build@) {
                                lemma_appended_grown(old(self).build@, forked);
                                lemma_if_grown(forked, after_then, then, cont, cond);
                            }
                        }
                        cont
                    },
                };
                proof {
                    if self.build@.func.registers_sound() {
                        lemma_set_term_keeps_registers(
                            self.build@,
                            pred,
                            Branch::Switch { cond, yes: then, no: false_branch },
                        );
                    }
                    if all_known {
                        lemma_set_term_keeps_known(
                            self.build@,
                            pred,
                            Branch::Switch { cond, yes: then, no: false_branch },
                        );
                    }
                }
                self.build.bb_mut(pred).term = Branch::Switch { cond, yes: then, no: false_branch };
                self.build.current_bb = cont;
                proof {
                    if open_ended(old(self).build@) {
                        lemma_grown_trans(old(self).build@, forked, self.build@);
                    }
                }
                Ok(())
            },
            Stmt::Switch => Err(Error::unsupported(Unsupported::Switch, stmt_span)),
            Stmt::While { .. } => Err(Error::unsupported(Unsupported::While, stmt_span)),
            Stmt::For { .. } => Err(Error::unsupported(Unsupported::For, stmt_span)),
            Stmt::Goto(_) => Err(Error::unsupported(Unsupported::Goto, stmt_span)),
            Stmt::Continue => Err(Error::unsupported(Unsupported::Continue, stmt_span)),
            Stmt::Break => Err(Error::unsupported(Unsupported::Break, stmt_span)),
            Stmt::Return(_) => Err(Error::unsupported(Unsupported::Return, stmt_span)),
            Stmt::Expr(Expr::Binary(ExprBinary { op: BinaryOp::Assign(assign), lhs, rhs })) => {
                if assign.is_some() {
                    return Err(Error::unsupported(Unsupported::CompoundAssign, stmt_span));
                }
                let (ident, ident_span) = match &lhs.0 {
                    Expr::Atom(Atom::Ident(ident)) => *ident,
                    _ => {
                        return Err(Error::unsupported(Unsupported::AssignTarget, lhs.1));
                    },
                };
                let var = match self.resolve_ident(ident) {
                    Some(var) => *var,
                    None => {
                        return Err(Error::unresolved(ident, ident_span));
                    },
                };
                proof {
                    if self.state(lcx).registers_tracked() {
                        lemma_resolve_known(
                            scope_views(self.scopes@),
                            ident,
                            self.build@.func.regs.len(),
                        );
                    }
                    lemma_lower_expr_appends(old(self).state(old(lcx)), rhs.0, rhs.1);
                }
                let value = match self.lower_expr(lcx, &rhs.0, rhs.1) {
                    Ok(value) => value,
                    Err(err) => {
                        return Err(err);
                    },
                };
                let ghost lowered = self.build@;
                self.build.store(var.ptr_to, value, var.tyl.layout.layout, stmt_span);
                proof {
                    lemma_lower_expr_appends(old(self).state(old(lcx)), rhs.0, rhs.1);
                    assert(appended(lowered, self.build@));
                    lemma_appended_trans(old(self).build@, lowered, self.build@);
                    if open_ended(old(self).build@) {
                        lemma_appended_grown(old(self).build@, self.build@);
                    }
                }
                Ok(())
            },
            Stmt::Expr(expr) => {
                proof {
                    lemma_lower_expr_appends(old(self).state(old(lcx)), *expr, stmt_span);
                    if open_ended(old(self).build@) {
                        lemma_appended_grown(
                            old(self).build@,
                            lower_expr(old(self).state(old(lcx)), *expr, stmt_span).0.build,
                        );
                    }
                }
                match self.lower_expr(lcx, expr, stmt_span) {
                    Ok(_) => Ok(()),
                    Err(err) => Err(err),
                }
            },
        }
    }
}

/// The type that the pass gives to every value it computes, `void`, with its
/// layout.
fn void_layout<'cx>(lcx: &mut LoweringCx<'cx>) -> (tyl: crate::ir::TyLayout<'cx>)
    requires
        old(lcx).wf(),
    ensures
        final(lcx).wf(),
        (final(lcx)@, tyl) == old(lcx)@.void_layout(),
        final(lcx)@.extends(old(lcx)@),
{
    let void = lcx.intern_ty(TyKind::Void);
    let ghost with_void = lcx@;
    let tyl = match lcx.layout_of(void) {
        Some(tyl) => tyl,
        None => unreached(),
    };
    proof {
        lcx@.lemma_extends_trans(with_void, old(lcx)@);
    }
    tyl
}

/// Lowers the body of one function into a finished function.
///
/// The block that is current when the body ends becomes a jump to itself: the
/// representation has no way yet to leave a function. So every block of the
/// result has its terminator, and every terminator names blocks of the result.
/// Block 0 is the entry; every other block is the target of a terminator.
/// Every register that the result mentions has its record, and none is
/// defined twice.
pub fn lower_body<'cx>(
    lcx: &mut LoweringCx<'cx>,
    body: &[Spanned<Stmt>],
    def_span: Span,
    name: Symbol,
    ret_ty: Ty<'cx>,
) -> (lowered: Result<Func<'cx>, Error>)
    requires
        old(lcx).wf(),
    ensures
        final(lcx).wf(),
        final(lcx)@ == lower_function(old(lcx)@, body@, def_span, name, ret_ty).0,
        lower_function(old(lcx)@, body@, def_span, name, ret_ty).1 == match lowered {
            Ok(func) => Ok(func@),
            Err(err) => Err(err),
        },
        lowered matches Ok(func) ==> func@.well_formed() && func@.all_entered()
            && func@.registers_sound() && func@.registers_known() && func@.in_memory(),
        final(lcx)@.extends(old(lcx)@),
{
    let mut cx = FnLoweringCtxt::new(name, def_span, ret_ty, lcx);
    let ghost start = cx.build@;
    let ghost interned = lcx@;
    proof {
        assert(cx.state(lcx).registers_tracked());
        assert(cx.build@.func.registers_sound());
    }
    let done = cx.lower_body(lcx, body);
    proof {
        lcx@.lemma_extends_trans(interned, old(lcx)@);
    }
    match done {
        Ok(()) => {},
        Err(err) => {
            return Err(err);
        },
    }
    let ghost lowered = cx.build@;
    let exit = cx.build.current_bb;
    cx.build.cur_bb_mut().term = Branch::Goto(exit);
    proof {
        assert(start.func.registers_sound());
        lemma_set_term_keeps_registers(lowered, exit, Branch::Goto(exit));
        lemma_set_term_keeps_known(lowered, exit, Branch::Goto(exit));
        assert(lowered.func.terminators_kept(cx.build@.func));
        assert forall|b: int| 1 <= b < cx.build@.func.bbs.len() implies #[trigger] cx.build@.func.enters(
            b,
        ) by {
            assert(lowered.func.enters(b));
            lowered.func.lemma_enters_kept(cx.build@.func, b);
        }
        assert(open_ended(start));
        assert(grown(start, lowered));
        assert forall|b: int| 0 <= b < cx.build@.func.bbs.len() implies !((
        #[trigger] cx.build@.func.bbs[b]).term is Unset) by {
            if b != exit.0 {
                assert(!(lowered.func.bbs[b].term is Unset));
            }
        }
        assert forall|b: int| 0 <= b < cx.build@.func.bbs.len() implies (
        #[trigger] cx.build@.func.bbs[b]).term.targets_below(cx.build@.func.bbs.len()) by {
            assert(lowered.func.bbs[b].term.targets_below(lowered.func.bbs.len()));
        }
    }
    proof {
        cx.build.lemma_in_memory();
    }
    Ok(cx.build.finish())
}

/// Lowers every function of a translation unit, in order. Only function
/// definitions are supported; the first declaration that fails ends it.
pub fn lower_translation_unit<'cx>(arena: &'cx Bump, ast: &TranslationUnit) -> (lowered: Result<
    Ir<'cx>,
    Error,
>)
    ensures
        lower_unit(InternerView::<'cx>::empty(), ast@, 0, Seq::empty()).1 == match lowered {
            Ok(ir) => Ok(ir@),
            Err(err) => Err(err),
        },
        lowered matches Ok(ir) ==> forall|i: int|
            0 <= i < ir@.len() ==> (#[trigger] ir@[i]).well_formed() && ir@[i].all_entered()
                && ir@[i].registers_sound() && ir@[i].registers_known(),
{
    let mut lcx = LoweringCx::new(arena);
    let mut funcs: Vec<Func<'cx>> = Vec::new();
    let mut i: usize = 0;
    proof {
        assert(func_views(funcs@) =~= Seq::empty());
    }
    while i < ast.len()
        invariant
            i <= ast.len(),
            lcx.wf(),
            lower_unit(InternerView::<'cx>::empty(), ast@, 0, Seq::empty()) == lower_unit(
                lcx@,
                ast@,
                i as int,
                func_views(funcs@),
            ),
            forall|k: int|
                0 <= k < funcs@.len() ==> (#[trigger] func_views(funcs@)[k]).well_formed()
                    && func_views(funcs@)[k].all_entered() && func_views(
                    funcs@,
                )[k].registers_sound() && func_views(
                    funcs@,
                )[k].registers_known(),
        decreases ast.len() - i,
    {
        let span = ast[i].1;
        match &ast[i].0 {
            ExternalDecl::Decl(_) => {
                return Err(Error::unsupported(Unsupported::TopLevelDecl, span));
            },
            ExternalDecl::FunctionDef(def) => {
                if let Decl::StaticAssert = def.decl {
                    return Err(Error::unsupported(Unsupported::StaticAssert, span));
                }
                let decl = def.decl.unwrap_normal();
                let ret_ty = lcx.lower_ty(&decl.decl_spec.ty);
                if decl.init_declarators.len() == 0 {
                    return Err(Error::unsupported(Unsupported::MissingDeclarator, span));
                }
                let func = match lower_body(
                    &mut lcx,
                    def.body.as_slice(),
                    decl.init_declarators[0].1,
                    decl.init_declarators[0].0.declarator.decl.name().0,
                    ret_ty,
                ) {
                    Ok(func) => func,
                    Err(err) => {
                        return Err(err);
                    },
                };
                proof {
                    assert(func_views(funcs@.push(func)) =~= func_views(funcs@).push(func@));
                }
                funcs.push(func);
            },
        }
        i = i + 1;
    }
    Ok(Ir { funcs })
}

} // verus!
