//! What holds of lowering, whatever is lowered.

use vstd::prelude::*;
use crate::ast::{
    Atom, BinaryOp, Decl, DeclAttr, Expr, ExprBinary, ExprPostfix, Ident, InitDecl, PostfixOp,
    Stmt,
};
use crate::error::{unresolved_error, unsupported_error, Error, Unsupported};
use crate::ir::{
    BbIdx, BlockView, Branch, ConstValue, Operand, StatementKindView, StatementView,
};
use crate::lower::builder::BuilderView;
use crate::lower::cx::InternerView;
use crate::lower::model::{
    bin_kind, lower_args, lower_declarators, lower_expr, lower_function, lower_stmt, lower_stmts,
    resolve, scopes_known, LowerState, ScopeView, VariableInfo,
};
use crate::span::{Span, Spanned, Symbol};
use crate::ty::Ty;

verus! {

/// Whether `after` is `before` with statements appended to the current block
/// and registers added, and nothing else changed: the same blocks, the same
/// current block, the same terminators, and every statement and register of
/// `before` still in its place.
pub open spec fn appended<'cx>(before: BuilderView<'cx>, after: BuilderView<'cx>) -> bool {
    &&& after.current == before.current
    &&& after.ptr_tyl == before.ptr_tyl
    &&& after.func.name == before.func.name
    &&& after.func.def_span == before.func.def_span
    &&& after.func.ret_ty == before.func.ret_ty
    &&& after.func.bbs.len() == before.func.bbs.len()
    &&& before.func.regs.is_prefix_of(after.func.regs)
    &&& forall|b: int|
        0 <= b < before.func.bbs.len() && b != before.current.0 ==> #[trigger] after.func.bbs[b]
            == before.func.bbs[b]
    &&& after.current_block().term == before.current_block().term
    &&& before.current_block().statements.is_prefix_of(after.current_block().statements)
}

/// The statements that were appended to the current block between `before`
/// and `after`.
pub open spec fn emitted<'cx>(before: BuilderView<'cx>, after: BuilderView<'cx>) -> Seq<
    StatementView,
> {
    after.current_block().statements.subrange(
        before.current_block().statements.len() as int,
        after.current_block().statements.len() as int,
    )
}

/// Appending is transitive.
pub proof fn lemma_appended_trans<'cx>(
    a: BuilderView<'cx>,
    b: BuilderView<'cx>,
    c: BuilderView<'cx>,
)
    requires
        a.wf(),
        appended(a, b),
        appended(b, c),
    ensures
        appended(a, c),
        emitted(a, c) == emitted(a, b) + emitted(b, c),
{
    assert forall|i: int| 0 <= i < a.func.bbs.len() && i != a.current.0 implies c.func.bbs[i]
        == a.func.bbs[i] by {
        assert(b.func.bbs[i] == a.func.bbs[i]);
    }
    assert(emitted(a, c) =~= emitted(a, b) + emitted(b, c));
}

/// Appending one statement.
pub proof fn lemma_push_appended<'cx>(build: BuilderView<'cx>, stmt: StatementView)
    requires
        build.wf(),
    ensures
        appended(build, build.push(stmt)),
        build.push(stmt).wf(),
        emitted(build, build.push(stmt)) == seq![stmt],
{
    assert(emitted(build, build.push(stmt)) =~= seq![stmt]);
}

/// Lowering an expression only appends to the current block: it makes no
/// block, sets no terminator, moves to no other block, and declares nothing.
/// This holds whether the expression is supported or not.
pub proof fn lemma_lower_expr_appends<'cx>(st: LowerState<'cx>, expr: Expr, span: Span)
    requires
        st.build.wf(),
    ensures
        appended(st.build, lower_expr(st, expr, span).0.build),
        lower_expr(st, expr, span).0.scopes == st.scopes,
    decreases expr,
{
    match expr {
        Expr::Binary(binary) => {
            let (after_lhs, lhs) = lower_expr(st, binary.lhs.0, binary.lhs.1);
            lemma_lower_expr_appends(st, binary.lhs.0, binary.lhs.1);
            if let Ok(lhs) = lhs {
                let (after_rhs, rhs) = lower_expr(after_lhs, binary.rhs.0, binary.rhs.1);
                lemma_lower_expr_appends(after_lhs, binary.rhs.0, binary.rhs.1);
                lemma_appended_trans(st.build, after_lhs.build, after_rhs.build);
                if let Ok(rhs) = rhs {
                    if let Ok(kind) = bin_kind(binary.op) {
                        let (_, tyl) = after_rhs.interner.void_layout();
                        let (with_reg, result) = after_rhs.build.new_reg(None, tyl);
                        let stmt = StatementView {
                            span,
                            kind: StatementKindView::BinOp { kind, lhs, rhs, result },
                        };
                        lemma_push_appended(with_reg, stmt);
                        lemma_appended_trans(st.build, after_rhs.build, with_reg.push(stmt));
                    }
                }
            }
        },
        Expr::Postfix(postfix) => {
            let (after_callee, callee) = lower_expr(st, postfix.lhs.0, postfix.lhs.1);
            lemma_lower_expr_appends(st, postfix.lhs.0, postfix.lhs.1);
            if let Ok(callee) = callee {
                if let PostfixOp::Call(args) = postfix.op {
                    let (after_args, lowered) = lower_args(after_callee, args@, 0, Seq::empty());
                    lemma_lower_args_appends(after_callee, args@, 0, Seq::empty());
                    lemma_appended_trans(st.build, after_callee.build, after_args.build);
                    if let Ok(operands) = lowered {
                        let (_, tyl) = after_args.interner.void_layout();
                        let (with_reg, result) = after_args.build.new_reg(None, tyl);
                        let stmt = StatementView {
                            span,
                            kind: StatementKindView::Call { result, func: callee, args: operands },
                        };
                        lemma_push_appended(with_reg, stmt);
                        lemma_appended_trans(st.build, after_args.build, with_reg.push(stmt));
                    }
                }
            }
        },
        _ => {},
    }
}

/// The same for the arguments of a call.
pub proof fn lemma_lower_args_appends<'cx>(
    st: LowerState<'cx>,
    args: Seq<Spanned<Expr>>,
    from: int,
    done: Seq<Operand>,
)
    requires
        st.build.wf(),
    ensures
        appended(st.build, lower_args(st, args, from, done).0.build),
        lower_args(st, args, from, done).0.scopes == st.scopes,
    decreases args, args.len() - from,
{
    if 0 <= from < args.len() {
        let (after, operand) = lower_expr(st, args[from].0, args[from].1);
        lemma_lower_expr_appends(st, args[from].0, args[from].1);
        if let Ok(operand) = operand {
            lemma_lower_args_appends(after, args, from + 1, done.push(operand));
            lemma_appended_trans(
                st.build,
                after.build,
                lower_args(after, args, from + 1, done.push(operand)).0.build,
            );
        }
    }
}

/// Whether the builder is where lowering leaves it between two statements:
/// the current block is a block of the function and has no terminator yet,
/// and every terminator names blocks of the function.
pub open spec fn open_ended<'cx>(build: BuilderView<'cx>) -> bool {
    &&& build.wf()
    &&& build.current_block().term is Unset
    &&& build.func.targets_in_range()
}

/// Whether `after` is what lowering statements makes of `before`.
///
/// The blocks that were there and were not current are untouched. The block
/// that was current, and every block that is new, has its terminator, except
/// the one that is current now, which is one of them and is still open. Every
/// block that is new is the target of a terminator.
pub open spec fn grown<'cx>(before: BuilderView<'cx>, after: BuilderView<'cx>) -> bool {
    &&& before.func.bbs.len() <= after.func.bbs.len()
    &&& open_ended(after)
    &&& after.current == before.current || after.current.0 >= before.func.bbs.len()
    &&& forall|b: int|
        0 <= b < before.func.bbs.len() && b != before.current.0 ==> #[trigger] after.func.bbs[b]
            == before.func.bbs[b]
    &&& forall|b: int|
        0 <= b < after.func.bbs.len() && b != after.current.0 && (b == before.current.0 || b
            >= before.func.bbs.len()) ==> !((#[trigger] after.func.bbs[b]).term is Unset)
    &&& new_blocks_entered(before, after)
}

/// Whether every block of `after` that `before` does not have is the target
/// of a terminator.
pub open spec fn new_blocks_entered<'cx>(before: BuilderView<'cx>, after: BuilderView<'cx>) -> bool {
    forall|b: int|
        before.func.bbs.len() <= b < after.func.bbs.len() ==> #[trigger] after.func.enters(b)
}

/// Appending to the current block is a way of growing.
pub proof fn lemma_appended_grown<'cx>(before: BuilderView<'cx>, after: BuilderView<'cx>)
    requires
        open_ended(before),
        appended(before, after),
    ensures
        grown(before, after),
{
    assert forall|b: int| 0 <= b < after.func.bbs.len() implies (
    #[trigger] after.func.bbs[b]).term.targets_below(after.func.bbs.len()) by {
        if b != before.current.0 {
            assert(after.func.bbs[b] == before.func.bbs[b]);
        }
        assert(before.func.bbs[b].term.targets_below(before.func.bbs.len()));
    }
}

/// Growing is transitive.
pub proof fn lemma_grown_trans<'cx>(a: BuilderView<'cx>, b: BuilderView<'cx>, c: BuilderView<'cx>)
    requires
        grown(a, b),
        grown(b, c),
    ensures
        grown(a, c),
{
    assert forall|i: int| 0 <= i < a.func.bbs.len() && i != a.current.0 implies c.func.bbs[i]
        == a.func.bbs[i] by {
        assert(b.func.bbs[i] == a.func.bbs[i]);
        assert(c.func.bbs[i] == b.func.bbs[i]);
    }
    assert forall|i: int|
        0 <= i < c.func.bbs.len() && i != c.current.0 && (i == a.current.0 || i
            >= a.func.bbs.len()) implies !((#[trigger] c.func.bbs[i]).term is Unset) by {
        if i < b.func.bbs.len() && i != b.current.0 {
            assert(!(b.func.bbs[i].term is Unset));
            assert(c.func.bbs[i] == b.func.bbs[i]);
        }
    }
    assert(b.func.terminators_kept(c.func)) by {
        assert forall|p: int|
            0 <= p < b.func.bbs.len() && !((#[trigger] b.func.bbs[p]).term is Unset) implies c.func.bbs[p].term
            == b.func.bbs[p].term by {
            assert(c.func.bbs[p] == b.func.bbs[p]);
        }
    }
    assert forall|x: int| a.func.bbs.len() <= x < c.func.bbs.len() implies #[trigger] c.func.enters(
        x,
    ) by {
        if x < b.func.bbs.len() {
            assert(b.func.enters(x));
            b.func.lemma_enters_kept(c.func, x);
        }
    }
}

/// An `if` without `else` grows the builder. `forked` is the builder when the
/// condition has been lowered, `after_then` the builder when the body has
/// been lowered, starting in the new block `then_bb`.
pub proof fn lemma_if_grown<'cx>(
    forked: BuilderView<'cx>,
    after_then: BuilderView<'cx>,
    then_bb: BbIdx,
    cont: BbIdx,
    cond: Operand,
)
    requires
        open_ended(forked),
        then_bb.0 == forked.func.bbs.len(),
        cont.0 == forked.func.bbs.len() + 1,
        open_ended(forked.new_block().0.new_block().0.at(then_bb)) ==> grown(
            forked.new_block().0.new_block().0.at(then_bb),
            after_then,
        ),
    ensures
        grown(
            forked,
            after_then.set_term(after_then.current, Branch::Goto(cont)).set_term(
                forked.current,
                Branch::Switch { cond, yes: then_bb, no: cont },
            ).at(cont),
        ),
{
    let start = forked.new_block().0.new_block().0.at(then_bb);
    assert(start.func.bbs[then_bb.0 as int] == BlockView::empty());
    assert(open_ended(start));
    let joined = after_then.set_term(after_then.current, Branch::Goto(cont));
    let last = joined.set_term(forked.current, Branch::Switch { cond, yes: then_bb, no: cont }).at(
        cont,
    );
    assert(start.func.bbs[cont.0 as int] == BlockView::empty());
    assert(after_then.func.bbs[cont.0 as int] == start.func.bbs[cont.0 as int]);
    assert(after_then.func.bbs[forked.current.0 as int] == start.func.bbs[forked.current.0 as int]);
    assert forall|b: int| 0 <= b < last.func.bbs.len() implies (
    #[trigger] last.func.bbs[b]).term.targets_below(last.func.bbs.len()) by {
        assert(after_then.func.bbs[b].term.targets_below(after_then.func.bbs.len()));
    }
    assert forall|b: int| 0 <= b < forked.func.bbs.len() && b != forked.current.0 implies (
    #[trigger] last.func.bbs[b]) == forked.func.bbs[b] by {
        assert(after_then.func.bbs[b] == start.func.bbs[b]);
    }
    assert forall|b: int|
        0 <= b < last.func.bbs.len() && b != last.current.0 && (b == forked.current.0 || b
            >= forked.func.bbs.len()) implies !((#[trigger] last.func.bbs[b]).term is Unset) by {
        if b != forked.current.0 && b != after_then.current.0 {
            assert(!(after_then.func.bbs[b].term is Unset));
        }
    }
    assert(after_then.func.terminators_kept(last.func));
    assert forall|x: int|
        forked.func.bbs.len() <= x < last.func.bbs.len() implies #[trigger] last.func.enters(
        x,
    ) by {
        if x <= cont.0 {
            assert(last.func.bbs[forked.current.0 as int].term.names(x));
        } else {
            assert(after_then.func.enters(x));
            after_then.func.lemma_enters_kept(last.func, x);
        }
    }
}

/// An `if` with `else` grows the builder. `after_else` is the builder when
/// the `else` body has been lowered, starting in the new block `else_bb`.
pub proof fn lemma_if_else_grown<'cx>(
    forked: BuilderView<'cx>,
    after_then: BuilderView<'cx>,
    after_else: BuilderView<'cx>,
    then_bb: BbIdx,
    else_bb: BbIdx,
    cont: BbIdx,
    cond: Operand,
)
    requires
        open_ended(forked),
        then_bb.0 == forked.func.bbs.len(),
        else_bb.0 == forked.func.bbs.len() + 1,
        cont.0 == forked.func.bbs.len() + 2,
        open_ended(forked.new_block().0.new_block().0.new_block().0.at(then_bb)) ==> grown(
            forked.new_block().0.new_block().0.new_block().0.at(then_bb),
            after_then,
        ),
        open_ended(after_then.set_term(after_then.current, Branch::Goto(cont)).at(else_bb))
            ==> grown(
            after_then.set_term(after_then.current, Branch::Goto(cont)).at(else_bb),
            after_else,
        ),
    ensures
        grown(
            forked,
            after_else.set_term(after_else.current, Branch::Goto(cont)).set_term(
                forked.current,
                Branch::Switch { cond, yes: then_bb, no: else_bb },
            ).at(cont),
        ),
{
    let start = forked.new_block().0.new_block().0.new_block().0.at(then_bb);
    assert(start.func.bbs[then_bb.0 as int] == BlockView::empty());
    assert(open_ended(start));
    let joined = after_then.set_term(after_then.current, Branch::Goto(cont));
    let else_start = joined.at(else_bb);
    let else_joined = after_else.set_term(after_else.current, Branch::Goto(cont));
    let last = else_joined.set_term(
        forked.current,
        Branch::Switch { cond, yes: then_bb, no: else_bb },
    ).at(cont);
    assert(start.func.bbs[cont.0 as int] == BlockView::empty());
    assert(start.func.bbs[else_bb.0 as int] == BlockView::empty());
    assert(after_then.func.bbs[cont.0 as int] == start.func.bbs[cont.0 as int]);
    assert(after_then.func.bbs[else_bb.0 as int] == start.func.bbs[else_bb.0 as int]);
    assert(after_then.func.bbs[forked.current.0 as int] == start.func.bbs[forked.current.0 as int]);
    assert forall|b: int| 0 <= b < else_start.func.bbs.len() implies (
    #[trigger] else_start.func.bbs[b]).term.targets_below(else_start.func.bbs.len()) by {
        assert(after_then.func.bbs[b].term.targets_below(after_then.func.bbs.len()));
    }
    assert(open_ended(else_start));
    assert(after_else.func.bbs[cont.0 as int] == else_start.func.bbs[cont.0 as int]);
    assert(after_else.func.bbs[forked.current.0 as int] == else_start.func.bbs[
        forked.current.0 as int]);
    assert forall|b: int| 0 <= b < last.func.bbs.len() implies (
    #[trigger] last.func.bbs[b]).term.targets_below(last.func.bbs.len()) by {
        assert(after_else.func.bbs[b].term.targets_below(after_else.func.bbs.len()));
    }
    assert forall|b: int| 0 <= b < forked.func.bbs.len() && b != forked.current.0 implies (
    #[trigger] last.func.bbs[b]) == forked.func.bbs[b] by {
        assert(after_then.func.bbs[b] == start.func.bbs[b]);
        assert(after_else.func.bbs[b] == else_start.func.bbs[b]);
    }
    assert forall|b: int|
        0 <= b < last.func.bbs.len() && b != last.current.0 && (b == forked.current.0 || b
            >= forked.func.bbs.len()) implies !((#[trigger] last.func.bbs[b]).term is Unset) by {
        if b != forked.current.0 && b != after_else.current.0 {
            if b == else_bb.0 || b >= else_start.func.bbs.len() {
                assert(!(after_else.func.bbs[b].term is Unset));
            } else {
                assert(after_else.func.bbs[b] == else_start.func.bbs[b]);
                if b != after_then.current.0 {
                    assert(!(after_then.func.bbs[b].term is Unset));
                }
            }
        }
    }
    assert(after_then.func.terminators_kept(else_start.func));
    assert(else_start.func.terminators_kept(after_else.func)) by {
        assert forall|p: int|
            0 <= p < else_start.func.bbs.len() && !((
            #[trigger] else_start.func.bbs[p]).term is Unset) implies after_else.func.bbs[p].term
            == else_start.func.bbs[p].term by {
            assert(after_else.func.bbs[p] == else_start.func.bbs[p]);
        }
    }
    assert(after_else.func.terminators_kept(last.func));
    assert forall|x: int|
        forked.func.bbs.len() <= x < last.func.bbs.len() implies #[trigger] last.func.enters(
        x,
    ) by {
        if x <= else_bb.0 {
            assert(last.func.bbs[forked.current.0 as int].term.names(x));
        } else if x == cont.0 {
            assert(last.func.bbs[after_else.current.0 as int].term.names(x));
        } else {
            if x < after_then.func.bbs.len() {
                assert(after_then.func.enters(x));
                after_then.func.lemma_enters_kept(else_start.func, x);
                else_start.func.lemma_enters_kept(after_else.func, x);
            } else {
                assert(after_else.func.enters(x));
            }
            after_else.func.lemma_enters_kept(last.func, x);
        }
    }
}

/// Scoping: a name that the innermost scope declares resolves to that
/// declaration, whatever the outer scopes declare.
pub proof fn lemma_inner_shadows_outer<'cx>(scopes: Seq<ScopeView<'cx>>, ident: Symbol)
    requires
        scopes.len() > 0,
        scopes.last().contains_key(ident.0),
    ensures
        resolve(scopes, ident) == Some(scopes.last()[ident.0]),
{
}

/// Scoping: a name resolves to its declaration in the innermost scope that
/// declares it.
pub proof fn lemma_resolve_innermost<'cx>(scopes: Seq<ScopeView<'cx>>, ident: Symbol, i: int)
    requires
        0 <= i < scopes.len(),
        scopes[i].contains_key(ident.0),
        forall|j: int| i < j < scopes.len() ==> !(#[trigger] scopes[j]).contains_key(ident.0),
    ensures
        resolve(scopes, ident) == Some(scopes[i][ident.0]),
    decreases scopes.len(),
{
    if i < scopes.len() - 1 {
        assert(!scopes[scopes.len() - 1].contains_key(ident.0));
        let outer = scopes.drop_last();
        assert forall|j: int| i < j < outer.len() implies !(#[trigger] outer[j]).contains_key(
            ident.0,
        ) by {
            assert(outer[j] == scopes[j]);
        }
        lemma_resolve_innermost(outer, ident, i);
    }
}

/// Scoping: a name resolves to nothing exactly when no scope declares it.
pub proof fn lemma_resolve_none<'cx>(scopes: Seq<ScopeView<'cx>>, ident: Symbol)
    ensures
        resolve(scopes, ident) is None <==> forall|j: int|
            0 <= j < scopes.len() ==> !(#[trigger] scopes[j]).contains_key(ident.0),
    decreases scopes.len(),
{
    if scopes.len() > 0 {
        let outer = scopes.drop_last();
        lemma_resolve_none(outer, ident);
        if resolve(scopes, ident) is None {
            assert forall|j: int| 0 <= j < scopes.len() implies !(
            #[trigger] scopes[j]).contains_key(ident.0) by {
                if j < outer.len() {
                    assert(outer[j] == scopes[j]);
                }
            }
        } else if !scopes.last().contains_key(ident.0) {
            let j = choose|j: int| 0 <= j < outer.len() && (#[trigger] outer[j]).contains_key(ident.0);
            assert(scopes[j] == outer[j]);
        }
    }
}

/// A name resolves to a variable of one of the scopes, so where the storage of
/// all of them is known, so is the storage of what the name resolves to.
pub proof fn lemma_resolve_known<'cx>(scopes: Seq<ScopeView<'cx>>, ident: Symbol, regs: nat)
    requires
        scopes_known(scopes, regs),
        resolve(scopes, ident) is Some,
    ensures
        resolve(scopes, ident)->0.ptr_to.0 < regs,
    decreases scopes.len(),
{
    if scopes.len() > 0 {
        if scopes.last().contains_key(ident.0) {
            assert(scopes[scopes.len() - 1].contains_key(ident.0));
        } else {
            let outer = scopes.drop_last();
            assert forall|j: int, key: u32|
                #![trigger outer[j].contains_key(key)]
                0 <= j < outer.len() && outer[j].contains_key(key) implies outer[j][key].ptr_to.0
                < regs by {
                assert(scopes[j].contains_key(key));
            }
            lemma_resolve_known(outer, ident, regs);
        }
    }
}

/// Scoping: once a name is declared, it resolves to that declaration, whether
/// or not an outer scope, or the same one, declared it before.
pub proof fn lemma_declared_resolves<'cx>(
    st: LowerState<'cx>,
    name: Symbol,
    info: VariableInfo<'cx>,
)
    requires
        st.scopes.len() > 0,
    ensures
        resolve(st.declare(name, info).scopes, name) == Some(info),
{
}

/// A plain assignment `ident = rhs`.
pub open spec fn assignment(ident: Ident, lhs_span: Span, rhs: Spanned<Expr>) -> Stmt {
    Stmt::Expr(
        Expr::Binary(
            ExprBinary {
                op: BinaryOp::Assign(None),
                lhs: Box::new((Expr::Atom(Atom::Ident(ident)), lhs_span)),
                rhs: Box::new(rhs),
            },
        ),
    )
}

/// Scoping: an assignment to a name that no scope declares fails with the
/// unresolved-identifier error at the name before anything is lowered: the
/// state is as it was, whatever the right-hand side is.
pub proof fn lemma_assign_unresolved<'cx>(
    st: LowerState<'cx>,
    ident: Ident,
    lhs_span: Span,
    rhs: Spanned<Expr>,
    stmt_span: Span,
)
    requires
        forall|j: int| 0 <= j < st.scopes.len() ==> !(#[trigger] st.scopes[j]).contains_key(ident.0.0),
    ensures
        lower_stmt(st, assignment(ident, lhs_span, rhs), stmt_span) == (
            st,
            Err::<(), Error>(unresolved_error(ident.0, ident.1)),
        ),
{
    lemma_resolve_none(st.scopes, ident.0);
}

/// An assignment whose target is not a plain name fails at the target before
/// anything is lowered.
pub proof fn lemma_assign_target<'cx>(
    st: LowerState<'cx>,
    lhs: Spanned<Expr>,
    rhs: Spanned<Expr>,
    stmt_span: Span,
)
    requires
        !(lhs.0 is Atom && lhs.0->Atom_0 is Ident),
    ensures
        lower_stmt(
            st,
            Stmt::Expr(
                Expr::Binary(
                    ExprBinary {
                        op: BinaryOp::Assign(None),
                        lhs: Box::new(lhs),
                        rhs: Box::new(rhs),
                    },
                ),
            ),
            stmt_span,
        ) == (st, Err::<(), Error>(unsupported_error(Unsupported::AssignTarget, lhs.1))),
{
}

/// An assignment to a declared name lowers the right-hand side and then
/// stores its value into the storage of the variable that the name resolved to
/// before the right-hand side was lowered.
pub proof fn lemma_assign_stores<'cx>(
    st: LowerState<'cx>,
    ident: Ident,
    lhs_span: Span,
    rhs: Spanned<Expr>,
    stmt_span: Span,
)
    requires
        st.build.wf(),
        lower_expr(st, rhs.0, rhs.1).1 is Ok,
        resolve(st.scopes, ident.0) is Some,
    ensures
        ({
            let (after_rhs, value) = lower_expr(st, rhs.0, rhs.1);
            let var = resolve(st.scopes, ident.0)->0;
            let (after, done) = lower_stmt(st, assignment(ident, lhs_span, rhs), stmt_span);
            &&& done is Ok
            &&& appended(st.build, after.build)
            &&& emitted(st.build, after.build) == emitted(st.build, after_rhs.build).push(
                StatementView {
                    span: stmt_span,
                    kind: StatementKindView::Store {
                        ptr: Operand::Reg(var.ptr_to),
                        value: value->Ok_0,
                        size: var.tyl.layout.layout.size,
                        align: var.tyl.layout.layout.align,
                    },
                },
            )
        }),
{
    lemma_lower_expr_appends(st, rhs.0, rhs.1);
    let (after_rhs, value) = lower_expr(st, rhs.0, rhs.1);
    let var = resolve(st.scopes, ident.0)->0;
    let stmt = StatementView {
        span: stmt_span,
        kind: StatementKindView::Store {
            ptr: Operand::Reg(var.ptr_to),
            value: value->Ok_0,
            size: var.tyl.layout.layout.size,
            align: var.tyl.layout.layout.align,
        },
    };
    lemma_push_appended(after_rhs.build, stmt);
    lemma_appended_trans(st.build, after_rhs.build, after_rhs.build.push(stmt));
}

/// Evaluation order: what a binary expression emits is what its left operand
/// emits, then what its right operand emits, then one `BinOp` on the two
/// values. The right operand is lowered in the state that the left one left.
pub proof fn lemma_binary_left_then_right<'cx>(st: LowerState<'cx>, binary: ExprBinary, span: Span)
    requires
        st.build.wf(),
        lower_expr(st, Expr::Binary(binary), span).1 is Ok,
    ensures
        ({
            let (after_lhs, lhs) = lower_expr(st, binary.lhs.0, binary.lhs.1);
            let (after_rhs, rhs) = lower_expr(after_lhs, binary.rhs.0, binary.rhs.1);
            let (after, value) = lower_expr(st, Expr::Binary(binary), span);
            &&& appended(st.build, after_lhs.build)
            &&& appended(after_lhs.build, after_rhs.build)
            &&& appended(after_rhs.build, after.build)
            &&& lhs is Ok && rhs is Ok && bin_kind(binary.op) is Ok
            &&& value == Ok::<Operand, Error>(Operand::Reg(after_rhs.build.next_reg()))
            &&& emitted(st.build, after.build) == emitted(st.build, after_lhs.build) + emitted(
                after_lhs.build,
                after_rhs.build,
            ) + seq![
                StatementView {
                    span,
                    kind: StatementKindView::BinOp {
                        kind: bin_kind(binary.op)->Ok_0,
                        lhs: lhs->Ok_0,
                        rhs: rhs->Ok_0,
                        result: after_rhs.build.next_reg(),
                    },
                },
            ]
        }),
{
    let (after_lhs, lhs) = lower_expr(st, binary.lhs.0, binary.lhs.1);
    let (after_rhs, rhs) = lower_expr(after_lhs, binary.rhs.0, binary.rhs.1);
    let (after, value) = lower_expr(st, Expr::Binary(binary), span);
    lemma_lower_expr_appends(st, binary.lhs.0, binary.lhs.1);
    lemma_lower_expr_appends(after_lhs, binary.rhs.0, binary.rhs.1);
    lemma_appended_trans(st.build, after_lhs.build, after_rhs.build);
    let (_, tyl) = after_rhs.interner.void_layout();
    let (with_reg, result) = after_rhs.build.new_reg(None, tyl);
    let stmt = StatementView {
        span,
        kind: StatementKindView::BinOp {
            kind: bin_kind(binary.op)->Ok_0,
            lhs: lhs->Ok_0,
            rhs: rhs->Ok_0,
            result,
        },
    };
    lemma_push_appended(with_reg, stmt);
    assert(emitted(after_rhs.build, after.build) =~= seq![stmt]);
    lemma_appended_trans(st.build, after_rhs.build, after.build);
}

/// Lowering arguments yields one operand for each argument, after those that
/// were there.
pub proof fn lemma_lower_args_len<'cx>(
    st: LowerState<'cx>,
    args: Seq<Spanned<Expr>>,
    from: int,
    done: Seq<Operand>,
)
    requires
        0 <= from <= args.len(),
        lower_args(st, args, from, done).1 is Ok,
    ensures
        lower_args(st, args, from, done).1->Ok_0.len() == done.len() + args.len() - from,
        done.is_prefix_of(lower_args(st, args, from, done).1->Ok_0),
    decreases args.len() - from,
{
    if from < args.len() {
        let (after, operand) = lower_expr(st, args[from].0, args[from].1);
        lemma_lower_args_len(after, args, from + 1, done.push(operand->Ok_0));
    }
}

/// Whether every argument is an integer literal.
pub open spec fn all_int_literals(args: Seq<Spanned<Expr>>) -> bool {
    forall|i: int| 0 <= i < args.len() ==> (#[trigger] args[i]).0 is Atom && args[i].0->Atom_0 is Int
}

/// The constants that integer literals stand for, in order.
pub open spec fn int_literal_operands(args: Seq<Spanned<Expr>>) -> Seq<Operand> {
    Seq::new(args.len(), |i: int| Operand::Const(ConstValue::Int(args[i].0->Atom_0->Int_0)))
}

/// Arguments that are integer literals lower to their constants, in the order
/// in which they are written, and emit nothing.
pub proof fn lemma_lower_literal_args<'cx>(
    st: LowerState<'cx>,
    args: Seq<Spanned<Expr>>,
    from: int,
    done: Seq<Operand>,
)
    requires
        0 <= from <= args.len(),
        all_int_literals(args),
    ensures
        lower_args(st, args, from, done) == (
            st,
            Ok::<Seq<Operand>, Error>(
                done + int_literal_operands(args).subrange(from, args.len() as int),
            ),
        ),
    decreases args.len() - from,
{
    let rest = int_literal_operands(args).subrange(from, args.len() as int);
    if from < args.len() {
        assert(args[from].0 is Atom);
        let operand = Operand::Const(ConstValue::Int(args[from].0->Atom_0->Int_0));
        assert(args[from].0 == Expr::Atom(Atom::Int(args[from].0->Atom_0->Int_0)));
        assert(lower_expr(st, args[from].0, args[from].1) == (
            st,
            Ok::<Operand, Error>(operand),
        ));
        lemma_lower_literal_args(st, args, from + 1, done.push(operand));
        assert(done.push(operand) + int_literal_operands(args).subrange(
            from + 1,
            args.len() as int,
        ) =~= done + rest);
    } else {
        assert(done + rest =~= done);
    }
}

/// Call lowering: what a call emits is what its callee emits, then what its
/// arguments emit from left to right, then one `Call` whose operands are the
/// values of the arguments in the order in which they are written. The result
/// is a register that no statement before defines, whether or not the value
/// is used.
pub proof fn lemma_call_emits<'cx>(
    st: LowerState<'cx>,
    callee: Spanned<Expr>,
    args: Vec<Spanned<Expr>>,
    span: Span,
)
    requires
        st.build.wf(),
        lower_expr(st, call_expr(callee, args), span).1 is Ok,
    ensures
        ({
            let (after_callee, func) = lower_expr(st, callee.0, callee.1);
            let (after_args, operands) = lower_args(after_callee, args@, 0, Seq::empty());
            let (after, value) = lower_expr(st, call_expr(callee, args), span);
            &&& appended(st.build, after_callee.build)
            &&& appended(after_callee.build, after_args.build)
            &&& appended(after_args.build, after.build)
            &&& func is Ok && operands is Ok
            &&& operands->Ok_0.len() == args@.len()
            &&& value == Ok::<Operand, Error>(Operand::Reg(after_args.build.next_reg()))
            &&& after.build.func.regs.len() == after_args.build.func.regs.len() + 1
            &&& emitted(st.build, after.build) == emitted(st.build, after_callee.build) + emitted(
                after_callee.build,
                after_args.build,
            ) + seq![
                StatementView {
                    span,
                    kind: StatementKindView::Call {
                        result: after_args.build.next_reg(),
                        func: func->Ok_0,
                        args: operands->Ok_0,
                    },
                },
            ]
        }),
{
    let (after_callee, func) = lower_expr(st, callee.0, callee.1);
    let (after_args, operands) = lower_args(after_callee, args@, 0, Seq::empty());
    let (after, value) = lower_expr(st, call_expr(callee, args), span);
    lemma_lower_expr_appends(st, callee.0, callee.1);
    lemma_lower_args_appends(after_callee, args@, 0, Seq::empty());
    lemma_lower_args_len(after_callee, args@, 0, Seq::empty());
    lemma_appended_trans(st.build, after_callee.build, after_args.build);
    let (_, tyl) = after_args.interner.void_layout();
    let (with_reg, result) = after_args.build.new_reg(None, tyl);
    let stmt = StatementView {
        span,
        kind: StatementKindView::Call { result, func: func->Ok_0, args: operands->Ok_0 },
    };
    lemma_push_appended(with_reg, stmt);
    assert(emitted(after_args.build, after.build) =~= seq![stmt]);
    lemma_appended_trans(st.build, after_args.build, after.build);
}

/// The call of `callee` with `args`.
pub open spec fn call_expr(callee: Spanned<Expr>, args: Vec<Spanned<Expr>>) -> Expr {
    Expr::Postfix(ExprPostfix { lhs: Box::new(callee), op: PostfixOp::Call(args) })
}

/// Whether lowering the statement makes no block: it is a declaration or an
/// expression statement, an assignment among them.
pub open spec fn straight(stmt: Stmt) -> bool {
    stmt is Decl || stmt is Expr
}

/// Whether every statement of the body is straight.
pub open spec fn all_straight(body: Seq<Spanned<Stmt>>) -> bool {
    forall|i: int| 0 <= i < body.len() ==> straight((#[trigger] body[i]).0)
}

/// Lowering the declarators of a declaration only appends to the current
/// block, and opens and closes no scope.
pub proof fn lemma_lower_declarators_appends<'cx>(
    st: LowerState<'cx>,
    ty: Ty<'cx>,
    attrs: DeclAttr,
    declarators: Seq<Spanned<InitDecl>>,
    from: int,
    stmt_span: Span,
)
    requires
        st.wf(),
    ensures
        appended(st.build, lower_declarators(st, ty, attrs, declarators, from, stmt_span).0.build),
        lower_declarators(st, ty, attrs, declarators, from, stmt_span).0.scopes.len()
            == st.scopes.len(),
    decreases declarators, declarators.len() - from,
{
    if 0 <= from < declarators.len() {
        let (var, def_span) = declarators[from];
        let (interner, tyl) = st.interner.layout_of(ty);
        let tyl = tyl->0;
        let name = var.declarator.decl.spec_name().0;
        let (with_reg, ptr_to) = st.build.new_reg(Some(name), st.build.ptr_tyl);
        let (build, _) = st.build.alloca(*tyl.layout.layout, Some(name), stmt_span);
        let alloca = StatementView {
            span: stmt_span,
            kind: StatementKindView::Alloca {
                result: ptr_to,
                size: tyl.layout.layout.size,
                align: tyl.layout.layout.align,
            },
        };
        lemma_push_appended(with_reg, alloca);
        assert(appended(st.build, build));
        let info = VariableInfo { def_span, tyl, ptr_to, decl_attr: attrs };
        let declared = st.with_interner(interner).with_build(build).declare(name, info);
        match var.init {
            None => {
                lemma_lower_declarators_appends(
                    declared,
                    ty,
                    attrs,
                    declarators,
                    from + 1,
                    stmt_span,
                );
                lemma_appended_trans(
                    st.build,
                    build,
                    lower_declarators(declared, ty, attrs, declarators, from + 1, stmt_span).0.build,
                );
            },
            Some((init, init_span)) => {
                let (after_init, value) = lower_expr(declared, init, init_span);
                lemma_lower_expr_appends(declared, init, init_span);
                lemma_appended_trans(st.build, build, after_init.build);
                if let Ok(value) = value {
                    let store = StatementView {
                        span: init_span,
                        kind: StatementKindView::Store {
                            ptr: Operand::Reg(ptr_to),
                            value,
                            size: tyl.layout.layout.size,
                            align: tyl.layout.layout.align,
                        },
                    };
                    lemma_push_appended(after_init.build, store);
                    let stored = after_init.with_build(after_init.build.push(store));
                    lemma_appended_trans(st.build, after_init.build, stored.build);
                    lemma_lower_declarators_appends(
                        stored,
                        ty,
                        attrs,
                        declarators,
                        from + 1,
                        stmt_span,
                    );
                    lemma_appended_trans(
                        st.build,
                        stored.build,
                        lower_declarators(
                            stored,
                            ty,
                            attrs,
                            declarators,
                            from + 1,
                            stmt_span,
                        ).0.build,
                    );
                }
            },
        }
    }
}

/// Lowering a straight statement only appends to the current block, and opens
/// and closes no scope.
pub proof fn lemma_straight_stmt_appends<'cx>(st: LowerState<'cx>, stmt: Stmt, stmt_span: Span)
    requires
        st.wf(),
        straight(stmt),
    ensures
        appended(st.build, lower_stmt(st, stmt, stmt_span).0.build),
        lower_stmt(st, stmt, stmt_span).0.scopes.len() == st.scopes.len(),
{
    match stmt {
        Stmt::Decl(Decl::Normal(decl)) => {
            let (interner, ty) = st.interner.lower_ty(decl.decl_spec.ty);
            lemma_lower_declarators_appends(
                st.with_interner(interner),
                ty,
                decl.decl_spec.attrs,
                decl.init_declarators@,
                0,
                stmt_span,
            );
        },
        Stmt::Expr(Expr::Binary(ExprBinary { op: BinaryOp::Assign(with_op), lhs, rhs })) => {
            if with_op is None {
                if let Expr::Atom(Atom::Ident((ident, _))) = lhs.0 {
                    if let Some(var) = resolve(st.scopes, ident) {
                        let (after_rhs, value) = lower_expr(st, rhs.0, rhs.1);
                        lemma_lower_expr_appends(st, rhs.0, rhs.1);
                        if let Ok(value) = value {
                            let store = StatementView {
                                span: stmt_span,
                                kind: StatementKindView::Store {
                                    ptr: Operand::Reg(var.ptr_to),
                                    value,
                                    size: var.tyl.layout.layout.size,
                                    align: var.tyl.layout.layout.align,
                                },
                            };
                            lemma_push_appended(after_rhs.build, store);
                            lemma_appended_trans(
                                st.build,
                                after_rhs.build,
                                after_rhs.build.push(store),
                            );
                        }
                    }
                }
            }
        },
        Stmt::Expr(expr) => {
            lemma_lower_expr_appends(st, expr, stmt_span);
        },
        _ => {},
    }
}

/// Lowering straight statements only appends to the current block.
pub proof fn lemma_straight_stmts_append<'cx>(
    st: LowerState<'cx>,
    body: Seq<Spanned<Stmt>>,
    from: int,
)
    requires
        st.wf(),
        all_straight(body),
    ensures
        appended(st.build, lower_stmts(st, body, from).0.build),
        lower_stmts(st, body, from).0.scopes.len() == st.scopes.len(),
    decreases body.len() - from,
{
    if 0 <= from < body.len() {
        let (after, done) = lower_stmt(st, body[from].0, body[from].1);
        lemma_straight_stmt_appends(st, body[from].0, body[from].1);
        if done is Ok {
            lemma_straight_stmts_append(after, body, from + 1);
            lemma_appended_trans(st.build, after.build, lower_stmts(after, body, from + 1).0.build);
        }
    }
}

/// The shape of `if (c) { A } else { B }`, for straight `A` and `B`.
///
/// Where the function had `n` blocks it now has three more. The block that
/// was current, the predecessor, holds what it held and what `c` emits, and
/// ends in a switch on the value of `c`: to block `n` if it holds, to block
/// `n + 1` if not. Block `n` holds what `A` emits and block `n + 1` what `B`
/// emits; both end in a jump to block `n + 2`. That block, the continuation,
/// is empty and current: what follows the `if` is lowered into it. Every
/// other block is as it was. The blocks are numbered by machine integers, so
/// this is said of a result that fits into memory, as every result of the
/// executable function does ([`crate::lower::builder::FuncBuilder::lemma_in_memory`]).
pub proof fn lemma_if_else_shape<'cx>(
    st: LowerState<'cx>,
    cond: Spanned<Expr>,
    then: Vec<Spanned<Stmt>>,
    otherwise: Vec<Spanned<Stmt>>,
    stmt_span: Span,
)
    requires
        st.wf(),
        all_straight(then@),
        all_straight(otherwise@),
        lower_stmt(st, Stmt::If { cond, then, otherwise: Some(otherwise) }, stmt_span).1 is Ok,
        lower_stmt(
            st,
            Stmt::If { cond, then, otherwise: Some(otherwise) },
            stmt_span,
        ).0.build.func.in_memory(),
    ensures
        ({
            let n = st.build.func.bbs.len() as int;
            let pred = st.build.current.0 as int;
            let then_bb = BbIdx(n as usize);
            let else_bb = BbIdx((n + 1) as usize);
            let cont = BbIdx((n + 2) as usize);
            let (after_cond, c) = lower_expr(st, cond.0, cond.1);
            let forked = after_cond.build.new_block().0.new_block().0.new_block().0;
            let after_then = lower_stmts(after_cond.with_build(forked.at(then_bb)), then@, 0).0;
            let after_else = lower_stmts(
                after_then.with_build(
                    after_then.build.set_term(then_bb, Branch::Goto(cont)).at(else_bb),
                ),
                otherwise@,
                0,
            ).0;
            let after = lower_stmt(
                st,
                Stmt::If { cond, then, otherwise: Some(otherwise) },
                stmt_span,
            ).0;
            &&& c is Ok
            &&& after.build.func.bbs.len() == n + 3
            &&& after.build.current == cont
            &&& after.build.func.bbs[pred] == BlockView {
                statements: after_cond.build.current_block().statements,
                term: Branch::Switch { cond: c->Ok_0, yes: then_bb, no: else_bb },
            }
            &&& st.build.current_block().statements.is_prefix_of(
                after_cond.build.current_block().statements,
            )
            &&& after.build.func.bbs[n] == BlockView {
                statements: after_then.build.current_block().statements,
                term: Branch::Goto(cont),
            }
            &&& after.build.func.bbs[n + 1] == BlockView {
                statements: after_else.build.current_block().statements,
                term: Branch::Goto(cont),
            }
            &&& after.build.func.bbs[n + 2] == BlockView::empty()
            &&& forall|b: int|
                0 <= b < n && b != pred ==> #[trigger] after.build.func.bbs[b]
                    == st.build.func.bbs[b]
        }),
{
    lemma_lower_stmt_framed(st, Stmt::If { cond, then, otherwise: Some(otherwise) }, stmt_span);
    let n = st.build.func.bbs.len() as int;
    let then_bb = BbIdx(n as usize);
    let else_bb = BbIdx((n + 1) as usize);
    let cont = BbIdx((n + 2) as usize);
    let (after_cond, c) = lower_expr(st, cond.0, cond.1);
    lemma_lower_expr_appends(st, cond.0, cond.1);
    let forked = after_cond.build.new_block().0.new_block().0.new_block().0;
    let then_start = after_cond.with_build(forked.at(then_bb));
    let after_then = lower_stmts(then_start, then@, 0).0;
    lemma_straight_stmts_append(then_start, then@, 0);
    let else_start = after_then.with_build(
        after_then.build.set_term(then_bb, Branch::Goto(cont)).at(else_bb),
    );
    let after_else = lower_stmts(else_start, otherwise@, 0).0;
    lemma_straight_stmts_append(else_start, otherwise@, 0);
    let after = lower_stmt(st, Stmt::If { cond, then, otherwise: Some(otherwise) }, stmt_span).0;
    assert(forked.func.bbs[n + 1] == BlockView::empty());
    assert(forked.func.bbs[n + 2] == BlockView::empty());
    assert(after_then.build.func.bbs[n + 1] == then_start.build.func.bbs[n + 1]);
    assert(after_then.build.func.bbs[n + 2] == then_start.build.func.bbs[n + 2]);
    assert(after_else.build.func.bbs[n] == else_start.build.func.bbs[n]);
    assert(after_else.build.func.bbs[n + 2] == else_start.build.func.bbs[n + 2]);
    assert(after_then.build.func.bbs[st.build.current.0 as int] == then_start.build.func.bbs[
        st.build.current.0 as int]);
    assert(after_else.build.func.bbs[st.build.current.0 as int] == else_start.build.func.bbs[
        st.build.current.0 as int]);
    assert forall|b: int| 0 <= b < n && b != st.build.current.0 implies #[trigger] after.build.func.bbs[b]
        == st.build.func.bbs[b] by {
        assert(after_cond.build.func.bbs[b] == st.build.func.bbs[b]);
        assert(after_then.build.func.bbs[b] == then_start.build.func.bbs[b]);
        assert(after_else.build.func.bbs[b] == else_start.build.func.bbs[b]);
    }
}

/// The shape of `if (c) { A }` without `else`, for straight `A`.
///
/// Where the function had `n` blocks it now has two more. The predecessor
/// ends in a switch on the value of `c`: to block `n` if it holds, and
/// straight to the continuation, block `n + 1`, if not. Block `n` holds what
/// `A` emits and ends in a jump to the continuation, which is empty and
/// current.
pub proof fn lemma_if_shape<'cx>(
    st: LowerState<'cx>,
    cond: Spanned<Expr>,
    then: Vec<Spanned<Stmt>>,
    stmt_span: Span,
)
    requires
        st.wf(),
        all_straight(then@),
        lower_stmt(st, Stmt::If { cond, then, otherwise: None }, stmt_span).1 is Ok,
        lower_stmt(st, Stmt::If { cond, then, otherwise: None }, stmt_span).0.build.func.in_memory(),
    ensures
        ({
            let n = st.build.func.bbs.len() as int;
            let pred = st.build.current.0 as int;
            let then_bb = BbIdx(n as usize);
            let cont = BbIdx((n + 1) as usize);
            let (after_cond, c) = lower_expr(st, cond.0, cond.1);
            let forked = after_cond.build.new_block().0.new_block().0;
            let after_then = lower_stmts(after_cond.with_build(forked.at(then_bb)), then@, 0).0;
            let after = lower_stmt(st, Stmt::If { cond, then, otherwise: None }, stmt_span).0;
            &&& c is Ok
            &&& after.build.func.bbs.len() == n + 2
            &&& after.build.current == cont
            &&& after.build.func.bbs[pred] == BlockView {
                statements: after_cond.build.current_block().statements,
                term: Branch::Switch { cond: c->Ok_0, yes: then_bb, no: cont },
            }
            &&& st.build.current_block().statements.is_prefix_of(
                after_cond.build.current_block().statements,
            )
            &&& after.build.func.bbs[n] == BlockView {
                statements: after_then.build.current_block().statements,
                term: Branch::Goto(cont),
            }
            &&& after.build.func.bbs[n + 1] == BlockView::empty()
            &&& forall|b: int|
                0 <= b < n && b != pred ==> #[trigger] after.build.func.bbs[b]
                    == st.build.func.bbs[b]
        }),
{
    lemma_lower_stmt_framed(st, Stmt::If { cond, then, otherwise: None }, stmt_span);
    let n = st.build.func.bbs.len() as int;
    let then_bb = BbIdx(n as usize);
    let cont = BbIdx((n + 1) as usize);
    let (after_cond, c) = lower_expr(st, cond.0, cond.1);
    lemma_lower_expr_appends(st, cond.0, cond.1);
    let forked = after_cond.build.new_block().0.new_block().0;
    let then_start = after_cond.with_build(forked.at(then_bb));
    let after_then = lower_stmts(then_start, then@, 0).0;
    lemma_straight_stmts_append(then_start, then@, 0);
    let after = lower_stmt(st, Stmt::If { cond, then, otherwise: None }, stmt_span).0;
    assert(forked.func.bbs[n + 1] == BlockView::empty());
    assert(after_then.build.func.bbs[n + 1] == then_start.build.func.bbs[n + 1]);
    assert(after_then.build.func.bbs[st.build.current.0 as int] == then_start.build.func.bbs[
        st.build.current.0 as int]);
    assert forall|b: int| 0 <= b < n && b != st.build.current.0 implies #[trigger] after.build.func.bbs[b]
        == st.build.func.bbs[b] by {
        assert(after_cond.build.func.bbs[b] == st.build.func.bbs[b]);
        assert(after_then.build.func.bbs[b] == then_start.build.func.bbs[b]);
    }
}

/// Lowering a statement keeps the state well-formed and takes away no block
/// and no register, whether it succeeds or not.
pub proof fn lemma_lower_stmt_keeps_wf<'cx>(st: LowerState<'cx>, stmt: Stmt, stmt_span: Span)
    requires
        st.wf(),
    ensures
        lower_stmt(st, stmt, stmt_span).0.wf(),
        st.build.func.bbs.len() <= lower_stmt(st, stmt, stmt_span).0.build.func.bbs.len(),
        st.build.func.regs.len() <= lower_stmt(st, stmt, stmt_span).0.build.func.regs.len(),
    decreases stmt,
{
    match stmt {
        Stmt::If { cond, then, otherwise } => {
            lemma_lower_expr_appends(st, cond.0, cond.1);
            let (after_cond, cond) = lower_expr(st, cond.0, cond.1);
            if let Ok(cond) = cond {
                let pred = after_cond.build.current;
                let (build, then_bb) = after_cond.build.new_block();
                let (build, else_bb) = match otherwise {
                    Some(_) => {
                        let (build, else_bb) = build.new_block();
                        (build, Some(else_bb))
                    },
                    None => (build, None),
                };
                let (build, cont) = build.new_block();
                let then_start = after_cond.with_build(build.at(then_bb));
                let (after_then, then_done) = lower_stmts(then_start, then@, 0);
                lemma_lower_stmts_keep_wf(then_start, then@, 0);
                if then_done is Ok {
                    let joined = after_then.with_build(
                        after_then.build.set_term(after_then.build.current, Branch::Goto(cont)),
                    );
                    if let Some(else_body) = otherwise {
                        let else_start = joined.with_build(joined.build.at(else_bb->0));
                        lemma_lower_stmts_keep_wf(else_start, else_body@, 0);
                    }
                }
            }
        },
        _ => {
            if straight(stmt) {
                lemma_straight_stmt_appends(st, stmt, stmt_span);
            }
        },
    }
}

/// The same for the statements of a body.
pub proof fn lemma_lower_stmts_keep_wf<'cx>(
    st: LowerState<'cx>,
    body: Seq<Spanned<Stmt>>,
    from: int,
)
    requires
        st.wf(),
    ensures
        lower_stmts(st, body, from).0.wf(),
        st.build.func.bbs.len() <= lower_stmts(st, body, from).0.build.func.bbs.len(),
        st.build.func.regs.len() <= lower_stmts(st, body, from).0.build.func.regs.len(),
    decreases body, body.len() - from,
{
    if 0 <= from < body.len() {
        let (after, done) = lower_stmt(st, body[from].0, body[from].1);
        lemma_lower_stmt_keeps_wf(st, body[from].0, body[from].1);
        if done is Ok {
            lemma_lower_stmts_keep_wf(after, body, from + 1);
        }
    }
}

/// Whether `after` is what lowering statements makes of `before`, as far as
/// the blocks that were there go: those that were not current are untouched,
/// the one that was current still begins with the statements it had, and the
/// block that is current now is that block or a new one.
pub open spec fn framed<'cx>(before: BuilderView<'cx>, after: BuilderView<'cx>) -> bool {
    &&& before.func.bbs.len() <= after.func.bbs.len()
    &&& after.wf()
    &&& after.current == before.current || after.current.0 >= before.func.bbs.len()
    &&& forall|b: int|
        0 <= b < before.func.bbs.len() && b != before.current.0 ==> #[trigger] after.func.bbs[b]
            == before.func.bbs[b]
    &&& before.current_block().statements.is_prefix_of(
        after.func.bbs[before.current.0 as int].statements,
    )
}

/// Appending to the current block leaves the other blocks alone.
pub proof fn lemma_appended_framed<'cx>(before: BuilderView<'cx>, after: BuilderView<'cx>)
    requires
        before.wf(),
        appended(before, after),
    ensures
        framed(before, after),
{
}

/// Leaving the other blocks alone is transitive.
pub proof fn lemma_framed_trans<'cx>(a: BuilderView<'cx>, b: BuilderView<'cx>, c: BuilderView<'cx>)
    requires
        a.wf(),
        framed(a, b),
        framed(b, c),
    ensures
        framed(a, c),
{
    assert forall|i: int| 0 <= i < a.func.bbs.len() && i != a.current.0 implies c.func.bbs[i]
        == a.func.bbs[i] by {
        assert(b.func.bbs[i] == a.func.bbs[i]);
        assert(c.func.bbs[i] == b.func.bbs[i]);
    }
    if a.current != b.current {
        assert(c.func.bbs[a.current.0 as int] == b.func.bbs[a.current.0 as int]);
    }
}

/// Where an `if` leaves the builder. `forked` is the builder when the
/// condition has been lowered, with `n` blocks; `after_then` is the builder
/// when the body has been lowered, starting in the new block `n`; `after_else`
/// is the builder when the `else` body, if there is one, has been lowered,
/// starting in the new block `n + 1`, and else it is `after_then` with the
/// jump to the continuation set.
///
/// The continuation is the last of the new blocks that the `if` itself makes.
/// It is current and still empty, whatever the bodies hold. The predecessor
/// keeps its statements and ends in the switch. Every other block that was
/// there is untouched.
pub open spec fn joined_at<'cx>(
    forked: BuilderView<'cx>,
    last: BuilderView<'cx>,
    cond: Operand,
    has_else: bool,
) -> bool {
    let n = forked.func.bbs.len() as int;
    let pred = forked.current.0 as int;
    let cont = if has_else {
        n + 2
    } else {
        n + 1
    };
    &&& framed(forked, last)
    &&& last.func.bbs.len() > cont
    &&& last.current.0 == cont
    &&& last.current_block() == BlockView::empty()
    &&& last.func.bbs[pred] == BlockView {
        statements: forked.current_block().statements,
        term: Branch::Switch {
            cond,
            yes: BbIdx(n as usize),
            no: BbIdx((n + 1) as usize),
        },
    }
}

/// An `if` without `else` joins at its continuation.
pub proof fn lemma_if_joins<'cx>(
    forked: BuilderView<'cx>,
    after_then: BuilderView<'cx>,
    cond: Operand,
)
    requires
        forked.wf(),
        forked.func.bbs.len() + 1 <= usize::MAX,
        framed(forked.new_block().0.new_block().0.at(forked.next_block()), after_then),
    ensures
        joined_at(
            forked,
            after_then.set_term(
                after_then.current,
                Branch::Goto(forked.new_block().0.next_block()),
            ).set_term(
                forked.current,
                Branch::Switch {
                    cond,
                    yes: forked.next_block(),
                    no: forked.new_block().0.next_block(),
                },
            ).at(forked.new_block().0.next_block()),
            cond,
            false,
        ),
{
    let n = forked.func.bbs.len() as int;
    let then_bb = forked.next_block();
    let cont = forked.new_block().0.next_block();
    let start = forked.new_block().0.new_block().0.at(then_bb);
    let last = after_then.set_term(after_then.current, Branch::Goto(cont)).set_term(
        forked.current,
        Branch::Switch { cond, yes: then_bb, no: cont },
    ).at(cont);
    assert(start.func.bbs[n + 1] == BlockView::empty());
    assert(after_then.func.bbs[n + 1] == start.func.bbs[n + 1]);
    assert(after_then.func.bbs[forked.current.0 as int] == start.func.bbs[forked.current.0 as int]);
    assert forall|b: int| 0 <= b < n && b != forked.current.0 implies #[trigger] last.func.bbs[b]
        == forked.func.bbs[b] by {
        assert(after_then.func.bbs[b] == start.func.bbs[b]);
    }
}

/// An `if` with `else` joins at its continuation.
pub proof fn lemma_if_else_joins<'cx>(
    forked: BuilderView<'cx>,
    after_then: BuilderView<'cx>,
    after_else: BuilderView<'cx>,
    cond: Operand,
)
    requires
        forked.wf(),
        forked.func.bbs.len() + 2 <= usize::MAX,
        framed(
            forked.new_block().0.new_block().0.new_block().0.at(forked.next_block()),
            after_then,
        ),
        framed(
            after_then.set_term(
                after_then.current,
                Branch::Goto(forked.new_block().0.new_block().0.next_block()),
            ).at(forked.new_block().0.next_block()),
            after_else,
        ),
    ensures
        joined_at(
            forked,
            after_else.set_term(
                after_else.current,
                Branch::Goto(forked.new_block().0.new_block().0.next_block()),
            ).set_term(
                forked.current,
                Branch::Switch {
                    cond,
                    yes: forked.next_block(),
                    no: forked.new_block().0.next_block(),
                },
            ).at(forked.new_block().0.new_block().0.next_block()),
            cond,
            true,
        ),
{
    let n = forked.func.bbs.len() as int;
    let then_bb = forked.next_block();
    let else_bb = forked.new_block().0.next_block();
    let cont = forked.new_block().0.new_block().0.next_block();
    let start = forked.new_block().0.new_block().0.new_block().0.at(then_bb);
    let else_start = after_then.set_term(after_then.current, Branch::Goto(cont)).at(else_bb);
    let last = after_else.set_term(after_else.current, Branch::Goto(cont)).set_term(
        forked.current,
        Branch::Switch { cond, yes: then_bb, no: else_bb },
    ).at(cont);
    assert(start.func.bbs[n + 1] == BlockView::empty());
    assert(start.func.bbs[n + 2] == BlockView::empty());
    assert(after_then.func.bbs[n + 1] == start.func.bbs[n + 1]);
    assert(after_then.func.bbs[n + 2] == start.func.bbs[n + 2]);
    assert(after_then.func.bbs[forked.current.0 as int] == start.func.bbs[forked.current.0 as int]);
    assert(after_else.func.bbs[n + 2] == else_start.func.bbs[n + 2]);
    assert(after_else.func.bbs[forked.current.0 as int] == else_start.func.bbs[
        forked.current.0 as int]);
    assert forall|b: int| 0 <= b < n && b != forked.current.0 implies #[trigger] last.func.bbs[b]
        == forked.func.bbs[b] by {
        assert(after_then.func.bbs[b] == start.func.bbs[b]);
        assert(after_else.func.bbs[b] == else_start.func.bbs[b]);
    }
}

/// Lowering a statement leaves alone the blocks that were there and were not
/// current, whatever the statement holds, nested `if`s among it.
///
/// For an `if` it also says where lowering goes on: in the continuation that
/// this `if` made, which is still empty, so that what follows the `if` is
/// lowered into it. The count of blocks is in a machine integer, so this is
/// said of results that fit into memory, as every result of the executable
/// function does.
pub proof fn lemma_lower_stmt_framed<'cx>(st: LowerState<'cx>, stmt: Stmt, stmt_span: Span)
    requires
        st.wf(),
        lower_stmt(st, stmt, stmt_span).1 is Ok,
        lower_stmt(st, stmt, stmt_span).0.build.func.in_memory(),
    ensures
        framed(st.build, lower_stmt(st, stmt, stmt_span).0.build),
        stmt matches Stmt::If { cond, otherwise, .. } ==> {
            let after = lower_stmt(st, stmt, stmt_span).0.build;
            let (after_cond, value) = lower_expr(st, cond.0, cond.1);
            let n = st.build.func.bbs.len();
            &&& value is Ok
            &&& appended(st.build, after_cond.build)
            &&& joined_at(after_cond.build, after, value->Ok_0, otherwise is Some)
            &&& after.current.0 == n + (if otherwise is Some {
                2int
            } else {
                1int
            })
            &&& after.current_block() == BlockView::empty()
            &&& after.func.bbs[st.build.current.0 as int].term == Branch::Switch {
                cond: value->Ok_0,
                yes: BbIdx(n as usize),
                no: BbIdx((n + 1) as usize),
            }
        },
    decreases stmt,
{
    let last = lower_stmt(st, stmt, stmt_span).0;
    match stmt {
        Stmt::If { cond, then, otherwise } => {
            lemma_lower_expr_appends(st, cond.0, cond.1);
            let (after_cond, cond) = lower_expr(st, cond.0, cond.1);
            let cond = cond->Ok_0;
            let forked = after_cond.build;
            lemma_appended_framed(st.build, forked);
            let then_bb = forked.next_block();
            match otherwise {
                None => {
                    let cont = forked.new_block().0.next_block();
                    let then_start = after_cond.with_build(
                        forked.new_block().0.new_block().0.at(then_bb),
                    );
                    let after_then = lower_stmts(then_start, then@, 0).0;
                    lemma_lower_stmts_keep_wf(then_start, then@, 0);
                    assert(last.build.func.bbs.len() == after_then.build.func.bbs.len());
                    assert(last.build.func.regs == after_then.build.func.regs);
                    lemma_lower_stmts_framed(then_start, then@, 0);
                    lemma_if_joins(forked, after_then.build, cond);
                },
                Some(else_body) => {
                    let else_bb = forked.new_block().0.next_block();
                    let cont = forked.new_block().0.new_block().0.next_block();
                    let then_start = after_cond.with_build(
                        forked.new_block().0.new_block().0.new_block().0.at(then_bb),
                    );
                    let after_then = lower_stmts(then_start, then@, 0).0;
                    lemma_lower_stmts_keep_wf(then_start, then@, 0);
                    let else_start = after_then.with_build(
                        after_then.build.set_term(after_then.build.current, Branch::Goto(cont)).at(
                            else_bb,
                        ),
                    );
                    let after_else = lower_stmts(else_start, else_body@, 0).0;
                    lemma_lower_stmts_keep_wf(else_start, else_body@, 0);
                    assert(last.build.func.bbs.len() == after_else.build.func.bbs.len());
                    assert(last.build.func.regs == after_else.build.func.regs);
                    lemma_lower_stmts_framed(then_start, then@, 0);
                    lemma_lower_stmts_framed(else_start, else_body@, 0);
                    lemma_if_else_joins(forked, after_then.build, after_else.build, cond);
                },
            }
            lemma_framed_trans(st.build, forked, last.build);
        },
        _ => {
            lemma_straight_stmt_appends(st, stmt, stmt_span);
            lemma_appended_framed(st.build, last.build);
        },
    }
}

/// The same for the statements of a body.
pub proof fn lemma_lower_stmts_framed<'cx>(
    st: LowerState<'cx>,
    body: Seq<Spanned<Stmt>>,
    from: int,
)
    requires
        st.wf(),
        lower_stmts(st, body, from).1 is Ok,
        lower_stmts(st, body, from).0.build.func.in_memory(),
    ensures
        framed(st.build, lower_stmts(st, body, from).0.build),
    decreases body, body.len() - from,
{
    if 0 <= from < body.len() {
        let (after, done) = lower_stmt(st, body[from].0, body[from].1);
        lemma_lower_stmt_keeps_wf(st, body[from].0, body[from].1);
        lemma_lower_stmts_keep_wf(after, body, from + 1);
        lemma_lower_stmt_framed(st, body[from].0, body[from].1);
        lemma_lower_stmts_framed(after, body, from + 1);
        lemma_framed_trans(st.build, after.build, lower_stmts(after, body, from + 1).0.build);
    }
}

/// Lowering a body is lowering its first `k` statements and then, from the
/// state they leave, the rest; if one of the first `k` fails, that is the
/// failure of the whole.
pub proof fn lemma_lower_stmts_split<'cx>(
    st: LowerState<'cx>,
    body: Seq<Spanned<Stmt>>,
    k: int,
    from: int,
)
    requires
        0 <= from <= k <= body.len(),
    ensures
        ({
            let (mid, done) = lower_stmts(st, body.take(k), from);
            match done {
                Err(_) => lower_stmts(st, body, from) == (mid, done),
                Ok(()) => lower_stmts(st, body, from) == lower_stmts(mid, body, k),
            }
        }),
    decreases k - from,
{
    if from < k {
        assert(body.take(k)[from] == body[from]);
        let (after, done) = lower_stmt(st, body[from].0, body[from].1);
        if done is Ok {
            lemma_lower_stmts_split(after, body, k, from + 1);
        }
    }
}

/// The entry: block 0 of a lowered function begins with what the statements
/// of the body up to the first `if` emit, in their order. `k` is any number of
/// leading statements that are all straight.
pub proof fn lemma_entry_holds_first_statements<'cx>(
    interner: InternerView<'cx>,
    body: Seq<Spanned<Stmt>>,
    def_span: Span,
    name: Symbol,
    ret_ty: Ty<'cx>,
    k: int,
)
    requires
        0 <= k <= body.len(),
        all_straight(body.take(k)),
        lower_function(interner, body, def_span, name, ret_ty).1 is Ok,
        lower_function(interner, body, def_span, name, ret_ty).1->Ok_0.in_memory(),
    ensures
        ({
            let func = lower_function(interner, body, def_span, name, ret_ty).1->Ok_0;
            let (interner, build) = BuilderView::new(interner, name, def_span, ret_ty);
            let start = LowerState { build, scopes: seq![Map::empty()], interner };
            let (first, done) = lower_stmts(start, body.take(k), 0);
            &&& done is Ok
            &&& func.bbs.len() >= 1
            &&& first.build.func.bbs.len() == 1
            &&& first.build.current == BbIdx(0)
            &&& first.build.func.bbs[0].statements.is_prefix_of(func.bbs[0].statements)
        }),
{
    let (interned, build) = BuilderView::new(interner, name, def_span, ret_ty);
    let start = LowerState { build, scopes: seq![Map::empty()], interner: interned };
    let (first, done) = lower_stmts(start, body.take(k), 0);
    let (after, _) = lower_stmts(start, body, 0);
    lemma_lower_stmts_split(start, body, k, 0);
    lemma_straight_stmts_append(start, body.take(k), 0);
    lemma_lower_stmts_keep_wf(start, body, 0);
    lemma_lower_stmts_framed(first, body, k);
}

} // verus!
