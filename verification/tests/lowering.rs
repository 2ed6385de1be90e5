use analysis::ast::{
    ArithOpKind, Atom, BinaryOp, ComparisonKind, Decl, DeclAttr, DeclSpec, Declarator,
    DirectDeclarator, Expr, ExprBinary, ExprPostfix, ExprUnary, ExternalDecl, FunctionDef,
    InitDecl, IntSign, IntTy, IntTyKind, NormalDecl, PostfixOp, Stmt, TypeSpecifier, UnaryOp,
};
use analysis::error::{Error, ErrorKind, Unsupported};
use analysis::ir::{
    BasicBlock, BbIdx, BinKind, Branch, ConstValue, Func, Operand, Register, Statement,
    StatementKind,
};
use analysis::lower::cx::LoweringCx;
use analysis::lower::{lower_body, lower_translation_unit, FnLoweringCtxt};
use analysis::span::{Span, Spanned, Symbol};
use analysis::ty::TyKind;
use bumpalo::Bump;

const X: Symbol = Symbol(1);
const Y: Symbol = Symbol(2);
const Z: Symbol = Symbol(3);
const F: Symbol = Symbol(9);

fn sp(start: usize, end: usize) -> Span {
    Span { start, end }
}

fn lit(value: u128, span: Span) -> Spanned<Expr> {
    (Expr::Atom(Atom::Int(value)), span)
}

fn ident(name: Symbol, span: Span) -> Spanned<Expr> {
    (Expr::Atom(Atom::Ident((name, span))), span)
}

fn binary(op: BinaryOp, lhs: Spanned<Expr>, rhs: Spanned<Expr>) -> Expr {
    Expr::Binary(ExprBinary { lhs: Box::new(lhs), rhs: Box::new(rhs), op })
}

fn arith(kind: ArithOpKind, lhs: Spanned<Expr>, rhs: Spanned<Expr>) -> Expr {
    binary(BinaryOp::Arith(kind), lhs, rhs)
}

fn compare(kind: ComparisonKind, lhs: Spanned<Expr>, rhs: Spanned<Expr>) -> Expr {
    binary(BinaryOp::Comparison(kind), lhs, rhs)
}

fn call(callee: Spanned<Expr>, args: Vec<Spanned<Expr>>) -> Expr {
    Expr::Postfix(ExprPostfix { lhs: Box::new(callee), op: PostfixOp::Call(args) })
}

fn postfix(lhs: Spanned<Expr>, op: PostfixOp) -> Expr {
    Expr::Postfix(ExprPostfix { lhs: Box::new(lhs), op })
}

fn assign(name: Symbol, name_span: Span, rhs: Spanned<Expr>) -> Stmt {
    Stmt::Expr(binary(BinaryOp::Assign(None), ident(name, name_span), rhs))
}

fn int_spec() -> TypeSpecifier {
    TypeSpecifier::Integer(IntTy(IntSign::Signed, IntTyKind::Int))
}

fn declarator(name: Symbol, span: Span, init: Option<Spanned<Expr>>) -> Spanned<InitDecl> {
    (
        InitDecl {
            declarator: Declarator { decl: DirectDeclarator::Ident((name, span)), pointer: false },
            init,
        },
        span,
    )
}

fn declare(ty: TypeSpecifier, declarators: Vec<Spanned<InitDecl>>) -> Stmt {
    Stmt::Decl(Decl::Normal(NormalDecl {
        decl_spec: DeclSpec { ty, attrs: DeclAttr::empty() },
        init_declarators: declarators,
    }))
}

fn declare_int(name: Symbol, span: Span, init: Option<Spanned<Expr>>) -> Stmt {
    declare(int_spec(), vec![declarator(name, span, init)])
}

fn konst(value: u128) -> Operand {
    Operand::Const(ConstValue::Int(value))
}

fn reg(index: usize) -> Operand {
    Operand::Reg(Register(index))
}

fn stmt(span: Span, kind: StatementKind) -> Statement {
    Statement { span, kind }
}

fn alloca(span: Span, result: usize, size: u64, align: u64) -> Statement {
    stmt(span, StatementKind::Alloca { result: Register(result), size, align })
}

fn store(span: Span, ptr: usize, value: Operand, size: u64, align: u64) -> Statement {
    stmt(span, StatementKind::Store { ptr: reg(ptr), value, size, align })
}

fn binop(span: Span, kind: BinKind, lhs: Operand, rhs: Operand, result: usize) -> Statement {
    stmt(span, StatementKind::BinOp { kind, lhs, rhs, result: Register(result) })
}

fn lower<'cx>(arena: &'cx Bump, body: &[Spanned<Stmt>]) -> Result<Func<'cx>, Error> {
    let mut lcx = LoweringCx::new(arena);
    let ret_ty = lcx.intern_ty(TyKind::Void);
    lower_body(&mut lcx, body, sp(0, 100), F, ret_ty)
}

fn lower_expr_alone(expr: &Expr, span: Span) -> (Result<Operand, Error>, Vec<BasicBlock>) {
    let arena = Bump::new();
    let mut lcx = LoweringCx::new(&arena);
    let ret_ty = lcx.intern_ty(TyKind::Void);
    let mut cx = FnLoweringCtxt::new(F, sp(0, 100), ret_ty, &mut lcx);
    let value = cx.lower_expr(&mut lcx, expr, span);
    (value, cx.build.ir.bbs)
}

fn unsupported(what: Unsupported, span: Span) -> Error {
    Error { kind: ErrorKind::Unsupported(what), span }
}

fn well_formed(func: &Func<'_>) -> bool {
    !func.bbs.is_empty()
        && func.bbs.iter().all(|bb| match bb.term {
            Branch::Goto(target) => target.0 < func.bbs.len(),
            Branch::Switch { yes, no, .. } => yes.0 < func.bbs.len() && no.0 < func.bbs.len(),
            Branch::Unset => false,
        })
}

#[test]
fn literals_lower_to_constants_and_emit_nothing() {
    let (value, bbs) = lower_expr_alone(&Expr::Atom(Atom::Int(42)), sp(0, 2));
    assert_eq!(value, Ok(konst(42)));
    assert_eq!(bbs.len(), 1);
    assert!(bbs[0].statements.is_empty());

    let (value, bbs) = lower_expr_alone(&Expr::Atom(Atom::Char(b'a')), sp(0, 3));
    assert_eq!(value, Ok(konst(97)));
    assert!(bbs[0].statements.is_empty());

    let (value, _) = lower_expr_alone(&Expr::Atom(Atom::Int(u128::MAX)), sp(0, 2));
    assert_eq!(value, Ok(konst(u128::MAX)));
}

#[test]
fn binary_expression_emits_one_binop_with_a_fresh_register() {
    let expr = arith(ArithOpKind::Add, lit(1, sp(0, 1)), lit(2, sp(4, 5)));
    let (value, bbs) = lower_expr_alone(&expr, sp(0, 5));
    assert_eq!(value, Ok(reg(0)));
    assert_eq!(bbs[0].statements, vec![binop(sp(0, 5), BinKind::Add, konst(1), konst(2), 0)]);
}

#[test]
fn every_supported_operator_maps_to_its_operation() {
    let cases = [
        (BinaryOp::Arith(ArithOpKind::Mul), BinKind::Mul),
        (BinaryOp::Arith(ArithOpKind::Div), BinKind::Div),
        (BinaryOp::Arith(ArithOpKind::Mod), BinKind::Mod),
        (BinaryOp::Arith(ArithOpKind::Add), BinKind::Add),
        (BinaryOp::Arith(ArithOpKind::Sub), BinKind::Sub),
        (BinaryOp::Comparison(ComparisonKind::Lt), BinKind::Lt),
        (BinaryOp::Comparison(ComparisonKind::Gt), BinKind::Gt),
        (BinaryOp::Comparison(ComparisonKind::LtEq), BinKind::Leq),
        (BinaryOp::Comparison(ComparisonKind::GtEq), BinKind::Geq),
        (BinaryOp::Comparison(ComparisonKind::Eq), BinKind::Eq),
        (BinaryOp::Comparison(ComparisonKind::Neq), BinKind::Neq),
    ];
    for (op, kind) in cases {
        let expr = binary(op, lit(6, sp(0, 1)), lit(7, sp(2, 3)));
        let (value, bbs) = lower_expr_alone(&expr, sp(0, 3));
        assert_eq!(value, Ok(reg(0)));
        assert_eq!(bbs[0].statements, vec![binop(sp(0, 3), kind, konst(6), konst(7), 0)]);
    }
}

#[test]
fn left_operand_is_emitted_before_the_right_operand() {
    // (1 + 2) * (3 - 4)
    let lhs = (arith(ArithOpKind::Add, lit(1, sp(1, 2)), lit(2, sp(5, 6))), sp(0, 7));
    let rhs = (arith(ArithOpKind::Sub, lit(3, sp(11, 12)), lit(4, sp(15, 16))), sp(10, 17));
    let expr = arith(ArithOpKind::Mul, lhs, rhs);
    let (value, bbs) = lower_expr_alone(&expr, sp(0, 17));
    assert_eq!(value, Ok(reg(2)));
    assert_eq!(
        bbs[0].statements,
        vec![
            binop(sp(0, 7), BinKind::Add, konst(1), konst(2), 0),
            binop(sp(10, 17), BinKind::Sub, konst(3), konst(4), 1),
            binop(sp(0, 17), BinKind::Mul, reg(0), reg(1), 2),
        ]
    );
}

#[test]
fn nested_left_operands_come_first_at_every_level() {
    // ((1 + 2) + 3) + (4 + 5)
    let inner = (arith(ArithOpKind::Add, lit(1, sp(0, 1)), lit(2, sp(2, 3))), sp(0, 3));
    let left = (arith(ArithOpKind::Add, inner, lit(3, sp(4, 5))), sp(0, 5));
    let right = (arith(ArithOpKind::Add, lit(4, sp(6, 7)), lit(5, sp(8, 9))), sp(6, 9));
    let expr = arith(ArithOpKind::Add, left, right);
    let (value, bbs) = lower_expr_alone(&expr, sp(0, 9));
    assert_eq!(value, Ok(reg(3)));
    assert_eq!(
        bbs[0].statements,
        vec![
            binop(sp(0, 3), BinKind::Add, konst(1), konst(2), 0),
            binop(sp(0, 5), BinKind::Add, reg(0), konst(3), 1),
            binop(sp(6, 9), BinKind::Add, konst(4), konst(5), 2),
            binop(sp(0, 9), BinKind::Add, reg(1), reg(2), 3),
        ]
    );
}

#[test]
fn call_yields_one_call_statement_with_arguments_in_order() {
    // 7(1, 2): the callee is a value like any other
    let expr = call(lit(7, sp(0, 1)), vec![lit(1, sp(2, 3)), lit(2, sp(5, 6))]);
    let (value, bbs) = lower_expr_alone(&expr, sp(0, 7));
    assert_eq!(value, Ok(reg(0)));
    assert_eq!(
        bbs[0].statements,
        vec![stmt(
            sp(0, 7),
            StatementKind::Call {
                result: Register(0),
                func: konst(7),
                args: vec![konst(1), konst(2)],
            }
        )]
    );
}

#[test]
fn call_as_a_statement_still_defines_its_result() {
    let arena = Bump::new();
    let body = vec![(
        call(lit(7, sp(0, 1)), vec![lit(1, sp(2, 3)), lit(2, sp(5, 6))]),
        sp(0, 8),
    )]
    .into_iter()
    .map(|(expr, span)| (Stmt::Expr(expr), span))
    .collect::<Vec<_>>();
    let func = lower(&arena, &body).unwrap();
    assert_eq!(func.regs.len(), 1);
    assert_eq!(
        func.bbs[0].statements,
        vec![stmt(
            sp(0, 8),
            StatementKind::Call {
                result: Register(0),
                func: konst(7),
                args: vec![konst(1), konst(2)],
            }
        )]
    );
}

#[test]
fn call_lowers_callee_then_arguments_from_left_to_right() {
    // (1 + 1)(2 * 2, 3, 4 - 4)
    let callee = (arith(ArithOpKind::Add, lit(1, sp(1, 2)), lit(1, sp(3, 4))), sp(0, 5));
    let first = (arith(ArithOpKind::Mul, lit(2, sp(6, 7)), lit(2, sp(8, 9))), sp(6, 9));
    let third = (arith(ArithOpKind::Sub, lit(4, sp(13, 14)), lit(4, sp(15, 16))), sp(13, 16));
    let expr = call(callee, vec![first, lit(3, sp(11, 12)), third]);
    let (value, bbs) = lower_expr_alone(&expr, sp(0, 17));
    assert_eq!(value, Ok(reg(3)));
    assert_eq!(
        bbs[0].statements,
        vec![
            binop(sp(0, 5), BinKind::Add, konst(1), konst(1), 0),
            binop(sp(6, 9), BinKind::Mul, konst(2), konst(2), 1),
            binop(sp(13, 16), BinKind::Sub, konst(4), konst(4), 2),
            stmt(
                sp(0, 17),
                StatementKind::Call {
                    result: Register(3),
                    func: reg(0),
                    args: vec![reg(1), konst(3), reg(2)],
                }
            ),
        ]
    );
}

#[test]
fn call_without_arguments_has_an_empty_operand_list() {
    let expr = call(lit(7, sp(0, 1)), vec![]);
    let (value, bbs) = lower_expr_alone(&expr, sp(0, 3));
    assert_eq!(value, Ok(reg(0)));
    assert_eq!(
        bbs[0].statements,
        vec![stmt(
            sp(0, 3),
            StatementKind::Call { result: Register(0), func: konst(7), args: vec![] }
        )]
    );
}

#[test]
fn call_of_a_named_function_is_not_lowered_yet() {
    // f(1, 2): reading the name `f` is an identifier expression
    let expr = call(ident(F, sp(0, 1)), vec![lit(1, sp(2, 3)), lit(2, sp(5, 6))]);
    let (value, bbs) = lower_expr_alone(&expr, sp(0, 7));
    assert_eq!(value, Err(unsupported(Unsupported::IdentExpr, sp(0, 1))));
    assert!(bbs[0].statements.is_empty());
}

#[test]
fn first_failing_argument_ends_the_call() {
    let bad = (Expr::Atom(Atom::String(b"no".to_vec())), sp(9, 13));
    let first = (arith(ArithOpKind::Add, lit(1, sp(2, 3)), lit(2, sp(4, 5))), sp(2, 5));
    let expr = call(lit(7, sp(0, 1)), vec![first, bad, ident(X, sp(15, 16))]);
    let (value, bbs) = lower_expr_alone(&expr, sp(0, 17));
    assert_eq!(value, Err(unsupported(Unsupported::StringLiteral, sp(9, 13))));
    // what came before the failure has been emitted
    assert_eq!(bbs[0].statements, vec![binop(sp(2, 5), BinKind::Add, konst(1), konst(2), 0)]);
}

#[test]
fn unsupported_expressions_fail_at_their_span() {
    let at = sp(3, 9);
    let cases: Vec<(Expr, Unsupported)> = vec![
        (Expr::Atom(Atom::Float(1.5f64.to_bits())), Unsupported::FloatLiteral),
        (Expr::Atom(Atom::Ident((X, sp(3, 4)))), Unsupported::IdentExpr),
        (Expr::Atom(Atom::String(b"hi".to_vec())), Unsupported::StringLiteral),
        (
            Expr::Unary(ExprUnary { rhs: Box::new(lit(1, sp(4, 5))), op: UnaryOp::Minus }),
            Unsupported::Unary,
        ),
        (arith(ArithOpKind::Shl, lit(1, sp(3, 4)), lit(2, sp(8, 9))), Unsupported::Shl),
        (arith(ArithOpKind::Shr, lit(1, sp(3, 4)), lit(2, sp(8, 9))), Unsupported::Shr),
        (arith(ArithOpKind::BitAnd, lit(1, sp(3, 4)), lit(2, sp(8, 9))), Unsupported::BitAnd),
        (arith(ArithOpKind::BitXor, lit(1, sp(3, 4)), lit(2, sp(8, 9))), Unsupported::BitXor),
        (arith(ArithOpKind::BitOr, lit(1, sp(3, 4)), lit(2, sp(8, 9))), Unsupported::BitOr),
        (
            binary(BinaryOp::LogicalAnd, lit(1, sp(3, 4)), lit(2, sp(8, 9))),
            Unsupported::LogicalAnd,
        ),
        (binary(BinaryOp::LogicalOr, lit(1, sp(3, 4)), lit(2, sp(8, 9))), Unsupported::LogicalOr),
        (binary(BinaryOp::Comma, lit(1, sp(3, 4)), lit(2, sp(8, 9))), Unsupported::Comma),
        (binary(BinaryOp::Index, lit(1, sp(3, 4)), lit(2, sp(8, 9))), Unsupported::Index),
        (
            binary(BinaryOp::Assign(None), lit(1, sp(3, 4)), lit(2, sp(8, 9))),
            Unsupported::AssignExpr,
        ),
        (
            binary(
                BinaryOp::Assign(Some(ArithOpKind::Add)),
                lit(1, sp(3, 4)),
                lit(2, sp(8, 9)),
            ),
            Unsupported::AssignExpr,
        ),
        (postfix(lit(1, sp(3, 4)), PostfixOp::Member((X, sp(5, 6)))), Unsupported::Member),
        (
            postfix(lit(1, sp(3, 4)), PostfixOp::ArrowMember((X, sp(5, 6)))),
            Unsupported::ArrowMember,
        ),
        (postfix(lit(1, sp(3, 4)), PostfixOp::Increment), Unsupported::Increment),
        (postfix(lit(1, sp(3, 4)), PostfixOp::Decrement), Unsupported::Decrement),
    ];
    for (expr, what) in cases {
        let (value, bbs) = lower_expr_alone(&expr, at);
        assert_eq!(value, Err(unsupported(what, at)));
        assert_eq!(bbs.len(), 1);
        assert!(bbs[0].statements.is_empty());
    }
}

#[test]
fn operands_are_lowered_before_an_unsupported_operator_fails() {
    let lhs = (arith(ArithOpKind::Add, lit(1, sp(0, 1)), lit(2, sp(2, 3))), sp(0, 3));
    let expr = arith(ArithOpKind::Shl, lhs, lit(4, sp(7, 8)));
    let (value, bbs) = lower_expr_alone(&expr, sp(0, 8));
    assert_eq!(value, Err(unsupported(Unsupported::Shl, sp(0, 8))));
    assert_eq!(bbs[0].statements, vec![binop(sp(0, 3), BinKind::Add, konst(1), konst(2), 0)]);
}

#[test]
fn declaration_emits_alloca_and_store() {
    let arena = Bump::new();
    let body = vec![(declare_int(X, sp(4, 9), Some(lit(2, sp(8, 9)))), sp(0, 10))];
    let func = lower(&arena, &body).unwrap();
    assert_eq!(func.bbs.len(), 1);
    assert_eq!(
        func.bbs[0].statements,
        vec![alloca(sp(0, 10), 0, 4, 4), store(sp(8, 9), 0, konst(2), 4, 4)]
    );
    assert_eq!(func.bbs[0].term, Branch::Goto(BbIdx(0)));
    assert_eq!(func.regs.len(), 1);
    assert_eq!(func.regs[0].name, Some(X));
    assert!(matches!(*func.regs[0].tyl.ty.kind, TyKind::Ptr(_)));
    assert_eq!(func.regs[0].tyl.layout.layout.size, 8);
    assert_eq!(func.name, F);
    assert_eq!(func.def_span, sp(0, 100));
    assert!(matches!(*func.ret_ty.kind, TyKind::Void));
}

#[test]
fn declaration_without_initializer_emits_only_alloca() {
    let arena = Bump::new();
    let body = vec![(declare(TypeSpecifier::Double, vec![declarator(X, sp(7, 8), None)]), sp(0, 9))];
    let func = lower(&arena, &body).unwrap();
    assert_eq!(func.bbs[0].statements, vec![alloca(sp(0, 9), 0, 8, 8)]);
}

#[test]
fn declaration_of_several_names_lowers_them_in_order() {
    let arena = Bump::new();
    // short x = 1, y, z = 2 + 3;
    let short = TypeSpecifier::Integer(IntTy(IntSign::Signed, IntTyKind::Short));
    let sum = (arith(ArithOpKind::Add, lit(2, sp(20, 21)), lit(3, sp(24, 25))), sp(20, 25));
    let body = vec![(
        declare(
            short,
            vec![
                declarator(X, sp(6, 11), Some(lit(1, sp(10, 11)))),
                declarator(Y, sp(13, 14), None),
                declarator(Z, sp(16, 25), Some(sum)),
            ],
        ),
        sp(0, 26),
    )];
    let func = lower(&arena, &body).unwrap();
    assert_eq!(
        func.bbs[0].statements,
        vec![
            alloca(sp(0, 26), 0, 2, 2),
            store(sp(10, 11), 0, konst(1), 2, 2),
            alloca(sp(0, 26), 1, 2, 2),
            alloca(sp(0, 26), 2, 2, 2),
            binop(sp(20, 25), BinKind::Add, konst(2), konst(3), 3),
            store(sp(20, 25), 2, reg(3), 2, 2),
        ]
    );
    assert_eq!(func.regs[0].name, Some(X));
    assert_eq!(func.regs[1].name, Some(Y));
    assert_eq!(func.regs[2].name, Some(Z));
    assert_eq!(func.regs[3].name, None);
    assert!(matches!(*func.regs[3].tyl.ty.kind, TyKind::Void));
}

#[test]
fn declaration_records_the_variable_in_the_innermost_scope() {
    let arena = Bump::new();
    let mut lcx = LoweringCx::new(&arena);
    let ret_ty = lcx.intern_ty(TyKind::Void);
    let mut cx = FnLoweringCtxt::new(F, sp(0, 100), ret_ty, &mut lcx);
    let attrs = DeclAttr::from_bits_truncate(0b010);
    let decl = Stmt::Decl(Decl::Normal(NormalDecl {
        decl_spec: DeclSpec { ty: TypeSpecifier::Char, attrs },
        init_declarators: vec![declarator(X, sp(5, 6), None)],
    }));
    assert_eq!(cx.lower_stmt(&mut lcx, &decl, sp(0, 7)), Ok(()));
    let var = *cx.resolve_ident(X).unwrap();
    assert_eq!(var.ptr_to, Register(0));
    assert_eq!(var.def_span, sp(5, 6));
    assert_eq!(var.decl_attr, attrs);
    assert!(matches!(*var.tyl.ty.kind, TyKind::Char));
    assert_eq!((var.tyl.layout.layout.size, var.tyl.layout.layout.align), (1, 1));
    assert!(cx.resolve_ident(Y).is_none());
}

#[test]
fn assignment_stores_into_the_storage_of_the_variable() {
    let arena = Bump::new();
    let body = vec![
        (declare_int(X, sp(4, 5), None), sp(0, 6)),
        (declare(TypeSpecifier::Char, vec![declarator(Y, sp(12, 13), None)]), sp(7, 14)),
        (assign(Y, sp(15, 16), lit(5, sp(19, 20))), sp(15, 21)),
        (assign(X, sp(22, 23), lit(6, sp(26, 27))), sp(22, 28)),
    ];
    let func = lower(&arena, &body).unwrap();
    assert_eq!(
        func.bbs[0].statements,
        vec![
            alloca(sp(0, 6), 0, 4, 4),
            alloca(sp(7, 14), 1, 1, 1),
            store(sp(15, 21), 1, konst(5), 1, 1),
            store(sp(22, 28), 0, konst(6), 4, 4),
        ]
    );
}

#[test]
fn assignment_to_an_undeclared_name_is_an_unresolved_identifier() {
    let arena = Bump::new();
    let body = vec![
        (declare_int(X, sp(4, 5), None), sp(0, 6)),
        (assign(Z, sp(7, 8), lit(5, sp(11, 12))), sp(7, 13)),
    ];
    let err = lower(&arena, &body).unwrap_err();
    assert_eq!(err, Error { kind: ErrorKind::UnresolvedIdent(Z), span: sp(7, 8) });
    assert_eq!(err.message(), "cannot find variable");
}

#[test]
fn assignment_to_an_undeclared_name_lowers_nothing() {
    let arena = Bump::new();
    let mut lcx = LoweringCx::new(&arena);
    let ret_ty = lcx.intern_ty(TyKind::Void);
    let mut cx = FnLoweringCtxt::new(F, sp(0, 100), ret_ty, &mut lcx);
    let rhs = (arith(ArithOpKind::Add, lit(1, sp(4, 5)), lit(2, sp(8, 9))), sp(4, 9));
    let stmt = assign(Z, sp(0, 1), rhs);
    assert_eq!(
        cx.lower_stmt(&mut lcx, &stmt, sp(0, 10)),
        Err(Error { kind: ErrorKind::UnresolvedIdent(Z), span: sp(0, 1) })
    );
    // the name is looked up first: nothing of the right-hand side was emitted
    assert_eq!(cx.build.ir.bbs.len(), 1);
    assert!(cx.build.ir.bbs[0].statements.is_empty());
    assert!(cx.build.ir.regs.is_empty());
    assert_eq!(cx.build.current_bb, BbIdx(0));
    assert_eq!(cx.scopes.len(), 1);
    assert!(cx.scopes[0].is_empty());
}

#[test]
fn undeclared_target_is_reported_before_an_unsupported_right_side() {
    let arena = Bump::new();
    // y = x, with y undeclared: the unresolved name wins over the unsupported read
    let body = vec![
        (declare_int(X, sp(4, 5), None), sp(0, 6)),
        (assign(Y, sp(7, 8), ident(X, sp(11, 12))), sp(7, 13)),
    ];
    assert_eq!(
        lower(&arena, &body).unwrap_err(),
        Error { kind: ErrorKind::UnresolvedIdent(Y), span: sp(7, 8) }
    );
    // with y declared, the read of x is what fails
    let body = vec![
        (declare_int(X, sp(4, 5), None), sp(0, 6)),
        (declare_int(Y, sp(4, 5), None), sp(0, 6)),
        (assign(Y, sp(7, 8), ident(X, sp(11, 12))), sp(7, 13)),
    ];
    assert_eq!(lower(&arena, &body).unwrap_err(), unsupported(Unsupported::IdentExpr, sp(11, 12)));
}

#[test]
fn target_that_is_no_name_is_reported_before_the_right_side_is_lowered() {
    let arena = Bump::new();
    let mut lcx = LoweringCx::new(&arena);
    let ret_ty = lcx.intern_ty(TyKind::Void);
    let mut cx = FnLoweringCtxt::new(F, sp(0, 100), ret_ty, &mut lcx);
    let rhs = (arith(ArithOpKind::Add, lit(1, sp(4, 5)), lit(2, sp(8, 9))), sp(4, 9));
    let stmt = Stmt::Expr(binary(BinaryOp::Assign(None), lit(7, sp(0, 1)), rhs));
    assert_eq!(
        cx.lower_stmt(&mut lcx, &stmt, sp(0, 10)),
        Err(unsupported(Unsupported::AssignTarget, sp(0, 1)))
    );
    assert!(cx.build.ir.bbs[0].statements.is_empty());
    assert!(cx.build.ir.regs.is_empty());
}

#[test]
fn assignment_resolves_the_name_as_it_stands_before_the_right_side() {
    let arena = Bump::new();
    // int x; x = 1 + 2;  -- the store comes after what the right-hand side emits
    let rhs = (arith(ArithOpKind::Add, lit(1, sp(11, 12)), lit(2, sp(15, 16))), sp(11, 16));
    let body =
        vec![(declare_int(X, sp(4, 5), None), sp(0, 6)), (assign(X, sp(7, 8), rhs), sp(7, 17))];
    let func = lower(&arena, &body).unwrap();
    assert_eq!(
        func.bbs[0].statements,
        vec![
            alloca(sp(0, 6), 0, 4, 4),
            binop(sp(11, 16), BinKind::Add, konst(1), konst(2), 1),
            store(sp(7, 17), 0, reg(1), 4, 4),
        ]
    );
}

#[test]
fn later_declaration_of_a_name_hides_the_earlier_one() {
    let arena = Bump::new();
    let body = vec![
        (declare_int(X, sp(4, 5), None), sp(0, 6)),
        (declare(TypeSpecifier::Char, vec![declarator(X, sp(12, 13), None)]), sp(7, 14)),
        (assign(X, sp(15, 16), lit(5, sp(19, 20))), sp(15, 21)),
    ];
    let func = lower(&arena, &body).unwrap();
    assert_eq!(
        func.bbs[0].statements,
        vec![
            alloca(sp(0, 6), 0, 4, 4),
            alloca(sp(7, 14), 1, 1, 1),
            store(sp(15, 21), 1, konst(5), 1, 1),
        ]
    );
}

#[test]
fn inner_scope_shadows_outer_scope() {
    let arena = Bump::new();
    let mut lcx = LoweringCx::new(&arena);
    let ret_ty = lcx.intern_ty(TyKind::Void);
    let mut cx = FnLoweringCtxt::new(F, sp(0, 100), ret_ty, &mut lcx);
    // outer scope: x and y
    let outer = declare(
        int_spec(),
        vec![declarator(X, sp(4, 5), None), declarator(Y, sp(7, 8), None)],
    );
    assert_eq!(cx.lower_stmt(&mut lcx, &outer, sp(0, 9)), Ok(()));
    // inner scope: x again
    cx.scopes.push(Default::default());
    let inner = declare(TypeSpecifier::Char, vec![declarator(X, sp(15, 16), None)]);
    assert_eq!(cx.lower_stmt(&mut lcx, &inner, sp(10, 17)), Ok(()));

    assert_eq!(cx.scopes.len(), 2);
    assert_eq!(cx.resolve_ident(X).unwrap().ptr_to, Register(2));
    assert_eq!(cx.resolve_ident(X).unwrap().def_span, sp(15, 16));
    assert_eq!(cx.resolve_ident(Y).unwrap().ptr_to, Register(1));
    assert!(cx.resolve_ident(Z).is_none());

    // an assignment goes to the inner x
    let stmt = assign(X, sp(18, 19), lit(1, sp(22, 23)));
    assert_eq!(cx.lower_stmt(&mut lcx, &stmt, sp(18, 24)), Ok(()));
    assert_eq!(
        cx.build.ir.bbs[0].statements.last().unwrap(),
        &store(sp(18, 24), 2, konst(1), 1, 1)
    );

    // when the inner scope is gone, the outer x is back
    cx.scopes.pop();
    assert_eq!(cx.resolve_ident(X).unwrap().ptr_to, Register(0));
    assert_eq!(cx.resolve_ident(X).unwrap().def_span, sp(4, 5));
}

#[test]
fn name_declared_only_in_an_inner_scope_is_gone_with_it() {
    let arena = Bump::new();
    let mut lcx = LoweringCx::new(&arena);
    let ret_ty = lcx.intern_ty(TyKind::Void);
    let mut cx = FnLoweringCtxt::new(F, sp(0, 100), ret_ty, &mut lcx);
    cx.scopes.push(Default::default());
    let inner = declare_int(X, sp(4, 5), None);
    assert_eq!(cx.lower_stmt(&mut lcx, &inner, sp(0, 6)), Ok(()));
    assert!(cx.resolve_ident(X).is_some());
    cx.scopes.pop();
    assert!(cx.resolve_ident(X).is_none());
    let stmt = assign(X, sp(7, 8), lit(1, sp(11, 12)));
    assert_eq!(
        cx.lower_stmt(&mut lcx, &stmt, sp(7, 13)),
        Err(Error { kind: ErrorKind::UnresolvedIdent(X), span: sp(7, 8) })
    );
}

#[test]
fn if_else_lowers_to_four_blocks() {
    let arena = Bump::new();
    // int x; if (1 < 2) { x = 3; } else { x = 4; } x = 5;
    let body = vec![
        (declare_int(X, sp(4, 5), None), sp(0, 6)),
        (
            Stmt::If {
                cond: (compare(ComparisonKind::Lt, lit(1, sp(11, 12)), lit(2, sp(15, 16))), sp(11, 16)),
                then: vec![(assign(X, sp(20, 21), lit(3, sp(24, 25))), sp(20, 26))],
                otherwise: Some(vec![(assign(X, sp(36, 37), lit(4, sp(40, 41))), sp(36, 42))]),
            },
            sp(7, 44),
        ),
        (assign(X, sp(45, 46), lit(5, sp(49, 50))), sp(45, 51)),
    ];
    let func = lower(&arena, &body).unwrap();
    assert_eq!(func.bbs.len(), 4);
    // predecessor
    assert_eq!(
        func.bbs[0].statements,
        vec![alloca(sp(0, 6), 0, 4, 4), binop(sp(11, 16), BinKind::Lt, konst(1), konst(2), 1)]
    );
    assert_eq!(func.bbs[0].term, Branch::Switch { cond: reg(1), yes: BbIdx(1), no: BbIdx(2) });
    // then
    assert_eq!(func.bbs[1].statements, vec![store(sp(20, 26), 0, konst(3), 4, 4)]);
    assert_eq!(func.bbs[1].term, Branch::Goto(BbIdx(3)));
    // else
    assert_eq!(func.bbs[2].statements, vec![store(sp(36, 42), 0, konst(4), 4, 4)]);
    assert_eq!(func.bbs[2].term, Branch::Goto(BbIdx(3)));
    // continuation
    assert_eq!(func.bbs[3].statements, vec![store(sp(45, 51), 0, konst(5), 4, 4)]);
    assert_eq!(func.bbs[3].term, Branch::Goto(BbIdx(3)));
    assert!(well_formed(&func));
}

#[test]
fn if_without_else_lowers_to_three_blocks() {
    let arena = Bump::new();
    // int x; if (9) { x = 3; } x = 5;
    let body = vec![
        (declare_int(X, sp(4, 5), None), sp(0, 6)),
        (
            Stmt::If {
                cond: lit(9, sp(11, 12)),
                then: vec![(assign(X, sp(16, 17), lit(3, sp(20, 21))), sp(16, 22))],
                otherwise: None,
            },
            sp(7, 24),
        ),
        (assign(X, sp(25, 26), lit(5, sp(29, 30))), sp(25, 31)),
    ];
    let func = lower(&arena, &body).unwrap();
    assert_eq!(func.bbs.len(), 3);
    assert_eq!(func.bbs[0].statements, vec![alloca(sp(0, 6), 0, 4, 4)]);
    // the false target is the continuation itself
    assert_eq!(func.bbs[0].term, Branch::Switch { cond: konst(9), yes: BbIdx(1), no: BbIdx(2) });
    assert_eq!(func.bbs[1].statements, vec![store(sp(16, 22), 0, konst(3), 4, 4)]);
    assert_eq!(func.bbs[1].term, Branch::Goto(BbIdx(2)));
    assert_eq!(func.bbs[2].statements, vec![store(sp(25, 31), 0, konst(5), 4, 4)]);
    assert_eq!(func.bbs[2].term, Branch::Goto(BbIdx(2)));
    assert!(well_formed(&func));
}

#[test]
fn if_with_empty_bodies_still_makes_its_blocks() {
    let arena = Bump::new();
    let body = vec![(
        Stmt::If { cond: lit(1, sp(4, 5)), then: vec![], otherwise: Some(vec![]) },
        sp(0, 12),
    )];
    let func = lower(&arena, &body).unwrap();
    assert_eq!(func.bbs.len(), 4);
    assert_eq!(func.bbs[0].term, Branch::Switch { cond: konst(1), yes: BbIdx(1), no: BbIdx(2) });
    assert_eq!(func.bbs[1], BasicBlock { statements: vec![], term: Branch::Goto(BbIdx(3)) });
    assert_eq!(func.bbs[2], BasicBlock { statements: vec![], term: Branch::Goto(BbIdx(3)) });
    assert_eq!(func.bbs[3], BasicBlock { statements: vec![], term: Branch::Goto(BbIdx(3)) });
}

#[test]
fn nested_if_joins_the_inner_continuation_to_the_outer_one() {
    let arena = Bump::new();
    // if (1) { if (2) { 3 + 3; } else { 4 + 4; } 5 + 5; } else { 6 + 6; } 7 + 7;
    let add = |n: u128, at: usize| {
        (
            Stmt::Expr(arith(ArithOpKind::Add, lit(n, sp(at, at + 1)), lit(n, sp(at + 2, at + 3)))),
            sp(at, at + 4),
        )
    };
    let inner = (
        Stmt::If {
            cond: lit(2, sp(14, 15)),
            then: vec![add(3, 20)],
            otherwise: Some(vec![add(4, 30)]),
        },
        sp(10, 36),
    );
    let body = vec![
        (
            Stmt::If {
                cond: lit(1, sp(4, 5)),
                then: vec![inner, add(5, 40)],
                otherwise: Some(vec![add(6, 50)]),
            },
            sp(0, 56),
        ),
        add(7, 60),
    ];
    let func = lower(&arena, &body).unwrap();
    assert_eq!(func.bbs.len(), 7);
    // outer predecessor: then = 1, else = 2, continuation = 3
    assert_eq!(func.bbs[0].term, Branch::Switch { cond: konst(1), yes: BbIdx(1), no: BbIdx(2) });
    // block 1 is the inner predecessor: then = 4, else = 5, continuation = 6
    assert!(func.bbs[1].statements.is_empty());
    assert_eq!(func.bbs[1].term, Branch::Switch { cond: konst(2), yes: BbIdx(4), no: BbIdx(5) });
    assert_eq!(
        func.bbs[4].statements,
        vec![binop(sp(20, 24), BinKind::Add, konst(3), konst(3), 0)]
    );
    assert_eq!(func.bbs[4].term, Branch::Goto(BbIdx(6)));
    assert_eq!(
        func.bbs[5].statements,
        vec![binop(sp(30, 34), BinKind::Add, konst(4), konst(4), 1)]
    );
    assert_eq!(func.bbs[5].term, Branch::Goto(BbIdx(6)));
    // the inner continuation holds the rest of the outer then-body
    assert_eq!(
        func.bbs[6].statements,
        vec![binop(sp(40, 44), BinKind::Add, konst(5), konst(5), 2)]
    );
    assert_eq!(func.bbs[6].term, Branch::Goto(BbIdx(3)));
    // outer else
    assert_eq!(
        func.bbs[2].statements,
        vec![binop(sp(50, 54), BinKind::Add, konst(6), konst(6), 3)]
    );
    assert_eq!(func.bbs[2].term, Branch::Goto(BbIdx(3)));
    // outer continuation
    assert_eq!(
        func.bbs[3].statements,
        vec![binop(sp(60, 64), BinKind::Add, konst(7), konst(7), 4)]
    );
    assert_eq!(func.bbs[3].term, Branch::Goto(BbIdx(3)));
    assert!(well_formed(&func));
}

#[test]
fn names_declared_in_a_branch_stay_visible_after_it() {
    let arena = Bump::new();
    // if (1) { int x; } x = 2;   -- the branch opens no scope of its own
    let body = vec![
        (
            Stmt::If {
                cond: lit(1, sp(4, 5)),
                then: vec![(declare_int(X, sp(13, 14), None), sp(9, 15))],
                otherwise: None,
            },
            sp(0, 17),
        ),
        (assign(X, sp(18, 19), lit(2, sp(22, 23))), sp(18, 24)),
    ];
    let func = lower(&arena, &body).unwrap();
    assert_eq!(func.bbs[1].statements, vec![alloca(sp(9, 15), 0, 4, 4)]);
    assert_eq!(func.bbs[2].statements, vec![store(sp(18, 24), 0, konst(2), 4, 4)]);
}

#[test]
fn end_to_end_with_literal_operands() {
    let arena = Bump::new();
    // int x = 2; int y = 3; if (2 < 3) { x = 2 + 3; } int z = 5;
    let body = vec![
        (declare_int(X, sp(4, 9), Some(lit(2, sp(8, 9)))), sp(0, 10)),
        (declare_int(Y, sp(15, 20), Some(lit(3, sp(19, 20)))), sp(11, 21)),
        (
            Stmt::If {
                cond: (compare(ComparisonKind::Lt, lit(2, sp(26, 27)), lit(3, sp(30, 31))), sp(26, 31)),
                then: vec![(
                    assign(
                        X,
                        sp(35, 36),
                        (arith(ArithOpKind::Add, lit(2, sp(39, 40)), lit(3, sp(43, 44))), sp(39, 44)),
                    ),
                    sp(35, 45),
                )],
                otherwise: None,
            },
            sp(22, 47),
        ),
        (declare_int(Z, sp(52, 57), Some(lit(5, sp(56, 57)))), sp(48, 58)),
    ];
    let func = lower(&arena, &body).unwrap();
    assert_eq!(func.bbs.len(), 3);
    assert_eq!(
        func.bbs[0].statements,
        vec![
            alloca(sp(0, 10), 0, 4, 4),
            store(sp(8, 9), 0, konst(2), 4, 4),
            alloca(sp(11, 21), 1, 4, 4),
            store(sp(19, 20), 1, konst(3), 4, 4),
            binop(sp(26, 31), BinKind::Lt, konst(2), konst(3), 2),
        ]
    );
    assert_eq!(func.bbs[0].term, Branch::Switch { cond: reg(2), yes: BbIdx(1), no: BbIdx(2) });
    assert_eq!(
        func.bbs[1].statements,
        vec![
            binop(sp(39, 44), BinKind::Add, konst(2), konst(3), 3),
            store(sp(35, 45), 0, reg(3), 4, 4),
        ]
    );
    assert_eq!(func.bbs[1].term, Branch::Goto(BbIdx(2)));
    assert_eq!(
        func.bbs[2].statements,
        vec![alloca(sp(48, 58), 4, 4, 4), store(sp(56, 57), 4, konst(5), 4, 4)]
    );
    assert_eq!(func.bbs[2].term, Branch::Goto(BbIdx(2)));
    assert_eq!(func.regs.len(), 5);
    assert_eq!(
        func.regs.iter().map(|reg| reg.name).collect::<Vec<_>>(),
        vec![Some(X), Some(Y), None, None, Some(Z)]
    );
    assert!(well_formed(&func));
}

#[test]
fn end_to_end_with_variable_reads_fails_at_the_first_read() {
    let arena = Bump::new();
    // int x = 2; int y = 3; if (x < y) { x = x + y; } int z = x;
    let body = vec![
        (declare_int(X, sp(4, 9), Some(lit(2, sp(8, 9)))), sp(0, 10)),
        (declare_int(Y, sp(15, 20), Some(lit(3, sp(19, 20)))), sp(11, 21)),
        (
            Stmt::If {
                cond: (
                    compare(ComparisonKind::Lt, ident(X, sp(26, 27)), ident(Y, sp(30, 31))),
                    sp(26, 31),
                ),
                then: vec![(
                    assign(
                        X,
                        sp(35, 36),
                        (
                            arith(ArithOpKind::Add, ident(X, sp(39, 40)), ident(Y, sp(43, 44))),
                            sp(39, 44),
                        ),
                    ),
                    sp(35, 45),
                )],
                otherwise: None,
            },
            sp(22, 47),
        ),
        (declare_int(Z, sp(52, 57), Some(ident(X, sp(56, 57)))), sp(48, 58)),
    ];
    assert_eq!(lower(&arena, &body).unwrap_err(), unsupported(Unsupported::IdentExpr, sp(26, 27)));
}

fn defined_registers(func: &Func<'_>) -> Vec<usize> {
    func.bbs
        .iter()
        .flat_map(|bb| bb.statements.iter())
        .filter_map(|stmt| match stmt.kind {
            StatementKind::Alloca { result, .. }
            | StatementKind::Load { result, .. }
            | StatementKind::BinOp { result, .. }
            | StatementKind::UnaryOperation { result, .. }
            | StatementKind::PtrOffset { result, .. }
            | StatementKind::Call { result, .. } => Some(result.0),
            StatementKind::Store { .. } => None,
        })
        .collect()
}

#[test]
fn no_register_is_defined_twice() {
    let arena = Bump::new();
    // int x = 1 + 2; if (3 < 4) { x = 5(6); int y = 7 * 8; } else { x = 9 - 1; } int z = 2 / 1;
    let sum = |kind, a, b, at: usize| {
        (arith(kind, lit(a, sp(at, at + 1)), lit(b, sp(at + 2, at + 3))), sp(at, at + 3))
    };
    let body = vec![
        (declare_int(X, sp(4, 5), Some(sum(ArithOpKind::Add, 1, 2, 8))), sp(0, 12)),
        (
            Stmt::If {
                cond: (compare(ComparisonKind::Lt, lit(3, sp(20, 21)), lit(4, sp(24, 25))), sp(20, 25)),
                then: vec![
                    (
                        assign(X, sp(30, 31), (call(lit(5, sp(34, 35)), vec![lit(6, sp(36, 37))]), sp(34, 38))),
                        sp(30, 39),
                    ),
                    (declare_int(Y, sp(44, 45), Some(sum(ArithOpKind::Mul, 7, 8, 48))), sp(40, 52)),
                ],
                otherwise: Some(vec![(
                    assign(X, sp(60, 61), sum(ArithOpKind::Sub, 9, 1, 64)),
                    sp(60, 68),
                )]),
            },
            sp(16, 70),
        ),
        (declare_int(Z, sp(75, 76), Some(sum(ArithOpKind::Div, 2, 1, 79))), sp(71, 83)),
    ];
    let func = lower(&arena, &body).unwrap();
    let mut defined = defined_registers(&func);
    assert_eq!(defined.len(), 9);
    assert_eq!(defined.len(), func.regs.len());
    assert!(defined.iter().all(|reg| *reg < func.regs.len()));
    defined.sort_unstable();
    defined.dedup();
    assert_eq!(defined, (0..9).collect::<Vec<_>>());
}

fn mentioned_registers(func: &Func<'_>) -> Vec<usize> {
    let of = |op: &Operand| match op {
        Operand::Reg(reg) => Some(reg.0),
        Operand::Const(_) => None,
    };
    let mut seen = defined_registers(func);
    for bb in &func.bbs {
        for stmt in &bb.statements {
            match &stmt.kind {
                StatementKind::Alloca { .. } => {}
                StatementKind::Store { ptr, value, .. } => seen.extend(of(ptr).into_iter().chain(of(value))),
                StatementKind::Load { ptr, .. } => seen.extend(of(ptr)),
                StatementKind::BinOp { lhs, rhs, .. } => seen.extend(of(lhs).into_iter().chain(of(rhs))),
                StatementKind::UnaryOperation { rhs, .. } => seen.extend(of(rhs)),
                StatementKind::PtrOffset { ptr, amount, .. } => {
                    seen.extend(of(ptr).into_iter().chain(of(amount)))
                }
                StatementKind::Call { func, args, .. } => {
                    seen.extend(of(func));
                    seen.extend(args.iter().filter_map(of));
                }
            }
        }
        if let Branch::Switch { cond, .. } = &bb.term {
            seen.extend(of(cond));
        }
    }
    seen
}

#[test]
fn every_mentioned_register_has_its_record_and_results_are_fresh() {
    let arena = Bump::new();
    let mut lcx = LoweringCx::new(&arena);
    let ret_ty = lcx.intern_ty(TyKind::Void);
    let mut cx = FnLoweringCtxt::new(F, sp(0, 100), ret_ty, &mut lcx);
    // int x = 1 + 2; x = 3(x is not read: 4, 5 * 6);
    let sum = (arith(ArithOpKind::Add, lit(1, sp(8, 9)), lit(2, sp(10, 11))), sp(8, 11));
    assert_eq!(cx.lower_stmt(&mut lcx, &declare_int(X, sp(4, 5), Some(sum)), sp(0, 12)), Ok(()));
    let before = cx.build.ir.regs.len();
    let product = (arith(ArithOpKind::Mul, lit(5, sp(20, 21)), lit(6, sp(22, 23))), sp(20, 23));
    let expr = call(lit(3, sp(14, 15)), vec![lit(4, sp(16, 17)), product]);
    let value = cx.lower_expr(&mut lcx, &expr, sp(14, 24)).unwrap();
    // the result is a register that nothing mentioned before
    let Operand::Reg(result) = value else { panic!("not a register") };
    assert!(result.0 >= before);
    assert!(result.0 < cx.build.ir.regs.len());
    assert_eq!(result, Register(3));
    // and it is defined once, by the last statement
    let defined = defined_registers(&cx.build.ir);
    assert_eq!(defined.iter().filter(|reg| **reg == result.0).count(), 1);
    assert_eq!(*defined.last().unwrap(), result.0);
    // whatever is mentioned has its record
    assert!(mentioned_registers(&cx.build.ir).iter().all(|reg| *reg < cx.build.ir.regs.len()));
}

#[test]
fn continuation_of_a_nested_if_is_current_and_empty() {
    let arena = Bump::new();
    let mut lcx = LoweringCx::new(&arena);
    let ret_ty = lcx.intern_ty(TyKind::Void);
    let mut cx = FnLoweringCtxt::new(F, sp(0, 100), ret_ty, &mut lcx);
    // if (1) { if (2) { 3 + 3; } } else { if (4) {} else {} }
    let add = (
        Stmt::Expr(arith(ArithOpKind::Add, lit(3, sp(20, 21)), lit(3, sp(22, 23)))),
        sp(20, 24),
    );
    let inner_then =
        (Stmt::If { cond: lit(2, sp(14, 15)), then: vec![add], otherwise: None }, sp(10, 26));
    let inner_else = (
        Stmt::If { cond: lit(4, sp(34, 35)), then: vec![], otherwise: Some(vec![]) },
        sp(30, 46),
    );
    let stmt = Stmt::If {
        cond: lit(1, sp(4, 5)),
        then: vec![inner_then],
        otherwise: Some(vec![inner_else]),
    };
    assert_eq!(cx.lower_stmt(&mut lcx, &stmt, sp(0, 50)), Ok(()));
    // the outer if made blocks 1, 2 and 3; block 3 is its continuation
    assert_eq!(cx.build.current_bb, BbIdx(3));
    assert_eq!(cx.build.ir.bbs[3], BasicBlock { statements: vec![], term: Branch::Unset });
    assert_eq!(
        cx.build.ir.bbs[0].term,
        Branch::Switch { cond: konst(1), yes: BbIdx(1), no: BbIdx(2) }
    );
    assert_eq!(cx.build.ir.bbs.len(), 9);
    // what follows goes into the continuation
    let next = Stmt::Expr(arith(ArithOpKind::Sub, lit(9, sp(60, 61)), lit(8, sp(62, 63))));
    assert_eq!(cx.lower_stmt(&mut lcx, &next, sp(60, 64)), Ok(()));
    assert_eq!(
        cx.build.ir.bbs[3].statements,
        vec![binop(sp(60, 64), BinKind::Sub, konst(9), konst(8), 1)]
    );
}

#[test]
fn entry_block_begins_with_the_statements_before_the_first_if() {
    let arena = Bump::new();
    let body = vec![
        (declare_int(X, sp(4, 9), Some(lit(2, sp(8, 9)))), sp(0, 10)),
        (assign(X, sp(11, 12), lit(3, sp(15, 16))), sp(11, 17)),
        (
            Stmt::If {
                cond: (compare(ComparisonKind::Gt, lit(2, sp(22, 23)), lit(1, sp(26, 27))), sp(22, 27)),
                then: vec![(assign(X, sp(30, 31), lit(4, sp(34, 35))), sp(30, 36))],
                otherwise: None,
            },
            sp(18, 38),
        ),
        (assign(X, sp(40, 41), lit(5, sp(44, 45))), sp(40, 46)),
    ];
    let func = lower(&arena, &body).unwrap();
    assert_eq!(
        func.bbs[0].statements[..3],
        [
            alloca(sp(0, 10), 0, 4, 4),
            store(sp(8, 9), 0, konst(2), 4, 4),
            store(sp(11, 17), 0, konst(3), 4, 4),
        ]
    );
    // the condition of the if comes after them, still in the entry
    assert_eq!(func.bbs[0].statements.len(), 4);
    assert_eq!(func.bbs[0].statements[3], binop(sp(22, 27), BinKind::Gt, konst(2), konst(1), 1));
}

#[test]
fn every_block_but_the_entry_is_the_target_of_a_terminator() {
    let arena = Bump::new();
    // if (1) { if (2) {} } else { if (3) {} else {} } if (4) {}
    let body = vec![
        (
            Stmt::If {
                cond: lit(1, sp(4, 5)),
                then: vec![(
                    Stmt::If { cond: lit(2, sp(14, 15)), then: vec![], otherwise: None },
                    sp(10, 20),
                )],
                otherwise: Some(vec![(
                    Stmt::If { cond: lit(3, sp(34, 35)), then: vec![], otherwise: Some(vec![]) },
                    sp(30, 46),
                )]),
            },
            sp(0, 50),
        ),
        (Stmt::If { cond: lit(4, sp(54, 55)), then: vec![], otherwise: None }, sp(50, 60)),
    ];
    let func = lower(&arena, &body).unwrap();
    assert_eq!(func.bbs.len(), 11);
    for b in 1..func.bbs.len() {
        let entered = func.bbs.iter().any(|bb| match bb.term {
            Branch::Goto(target) => target.0 == b,
            Branch::Switch { yes, no, .. } => yes.0 == b || no.0 == b,
            Branch::Unset => false,
        });
        assert!(entered, "block {b} is the target of no terminator");
    }
    assert!(well_formed(&func));
}

#[test]
fn empty_body_lowers_to_the_entry_block_alone() {
    let arena = Bump::new();
    let func = lower(&arena, &[]).unwrap();
    assert_eq!(func.bbs, vec![BasicBlock { statements: vec![], term: Branch::Goto(BbIdx(0)) }]);
    assert!(func.regs.is_empty());
    assert!(well_formed(&func));
}

#[test]
fn unsupported_statements_fail_at_their_span() {
    let at = sp(2, 20);
    let cases: Vec<(Stmt, Unsupported)> = vec![
        (Stmt::Decl(Decl::StaticAssert), Unsupported::StaticAssert),
        (
            Stmt::Labeled { label: (X, sp(2, 3)), stmt: Box::new((Stmt::Break, sp(5, 10))) },
            Unsupported::Labeled,
        ),
        (Stmt::Compound(vec![]), Unsupported::Compound),
        (Stmt::Switch, Unsupported::Switch),
        (Stmt::While { cond: Expr::Atom(Atom::Int(1)), body: vec![] }, Unsupported::While),
        (
            Stmt::For { init_decl: None, init_expr: None, cond: None, post: None, body: vec![] },
            Unsupported::For,
        ),
        (Stmt::Goto((X, sp(7, 8))), Unsupported::Goto),
        (Stmt::Continue, Unsupported::Continue),
        (Stmt::Break, Unsupported::Break),
        (Stmt::Return(None), Unsupported::Return),
        (Stmt::Return(Some(lit(1, sp(9, 10)))), Unsupported::Return),
        (
            Stmt::Expr(binary(
                BinaryOp::Assign(Some(ArithOpKind::Add)),
                ident(X, sp(2, 3)),
                lit(1, sp(7, 8)),
            )),
            Unsupported::CompoundAssign,
        ),
    ];
    for (stmt, what) in cases {
        let arena = Bump::new();
        let body = vec![(stmt, at)];
        assert_eq!(lower(&arena, &body).unwrap_err(), unsupported(what, at));
    }
}

#[test]
fn assignment_to_something_other_than_a_name_fails_at_the_target() {
    let arena = Bump::new();
    let target = (arith(ArithOpKind::Add, lit(1, sp(0, 1)), lit(2, sp(4, 5))), sp(0, 5));
    let body = vec![(
        Stmt::Expr(binary(BinaryOp::Assign(None), target, lit(3, sp(8, 9)))),
        sp(0, 10),
    )];
    assert_eq!(lower(&arena, &body).unwrap_err(), unsupported(Unsupported::AssignTarget, sp(0, 5)));
}

#[test]
fn first_failing_statement_ends_the_body() {
    let arena = Bump::new();
    let body = vec![
        (declare_int(X, sp(4, 5), None), sp(0, 6)),
        (Stmt::Break, sp(7, 13)),
        (Stmt::Continue, sp(14, 23)),
    ];
    assert_eq!(lower(&arena, &body).unwrap_err(), unsupported(Unsupported::Break, sp(7, 13)));
}

#[test]
fn failure_inside_a_branch_is_the_failure_of_the_if() {
    let arena = Bump::new();
    let body = vec![(
        Stmt::If {
            cond: lit(1, sp(4, 5)),
            then: vec![],
            otherwise: Some(vec![(Stmt::Return(None), sp(20, 27))]),
        },
        sp(0, 30),
    )];
    assert_eq!(lower(&arena, &body).unwrap_err(), unsupported(Unsupported::Return, sp(20, 27)));
}

fn function_def(name: Symbol, ret: TypeSpecifier, body: Vec<Spanned<Stmt>>) -> ExternalDecl {
    ExternalDecl::FunctionDef(FunctionDef {
        decl: Decl::Normal(NormalDecl {
            decl_spec: DeclSpec { ty: ret, attrs: DeclAttr::empty() },
            init_declarators: vec![(
                InitDecl {
                    declarator: Declarator {
                        decl: DirectDeclarator::WithParams { ident: (name, sp(4, 5)), params: vec![] },
                        pointer: false,
                    },
                    init: None,
                },
                sp(0, 7),
            )],
        }),
        body,
    })
}

#[test]
fn translation_unit_lowers_every_function_in_order() {
    let arena = Bump::new();
    let unit = vec![
        (
            function_def(X, int_spec(), vec![(declare_int(Z, sp(14, 15), None), sp(10, 16))]),
            sp(0, 18),
        ),
        (
            function_def(
                Y,
                TypeSpecifier::Void,
                vec![(
                    Stmt::If { cond: lit(1, sp(34, 35)), then: vec![], otherwise: None },
                    sp(30, 40),
                )],
            ),
            sp(20, 42),
        ),
    ];
    let ir = lower_translation_unit(&arena, &unit).unwrap();
    assert_eq!(ir.funcs.len(), 2);
    assert_eq!(ir.funcs[0].name, X);
    assert_eq!(ir.funcs[0].def_span, sp(0, 7));
    assert!(matches!(
        *ir.funcs[0].ret_ty.kind,
        TyKind::Integer(IntTy(IntSign::Signed, IntTyKind::Int))
    ));
    assert_eq!(ir.funcs[0].bbs.len(), 1);
    assert_eq!(ir.funcs[0].bbs[0].statements, vec![alloca(sp(10, 16), 0, 4, 4)]);
    assert_eq!(ir.funcs[1].name, Y);
    assert!(matches!(*ir.funcs[1].ret_ty.kind, TyKind::Void));
    assert_eq!(ir.funcs[1].bbs.len(), 3);
    assert!(ir.funcs.iter().all(well_formed));
    // both functions share the canonical pointer type of their allocas
    assert_eq!(ir.funcs[0].regs[0].tyl.ty.id, {
        let mut lcx = LoweringCx::new(&arena);
        let int = lcx.lower_ty(&int_spec());
        let void = lcx.intern_ty(TyKind::Void);
        let ptr = lcx.intern_ty(TyKind::Ptr(void));
        assert_eq!((int.id, void.id), (0, 1));
        ptr.id
    });
}

#[test]
fn empty_translation_unit_has_no_functions() {
    let arena = Bump::new();
    let ir = lower_translation_unit(&arena, &vec![]).unwrap();
    assert!(ir.funcs.is_empty());
}

#[test]
fn translation_unit_rejects_what_is_not_a_function_definition() {
    let arena = Bump::new();
    let plain = ExternalDecl::Decl(Decl::Normal(NormalDecl {
        decl_spec: DeclSpec { ty: int_spec(), attrs: DeclAttr::empty() },
        init_declarators: vec![declarator(X, sp(4, 5), None)],
    }));
    let unit = vec![(function_def(X, int_spec(), vec![]), sp(0, 9)), (plain, sp(10, 16))];
    assert_eq!(
        lower_translation_unit(&arena, &unit).unwrap_err(),
        unsupported(Unsupported::TopLevelDecl, sp(10, 16))
    );

    let asserted =
        ExternalDecl::FunctionDef(FunctionDef { decl: Decl::StaticAssert, body: vec![] });
    assert_eq!(
        lower_translation_unit(&arena, &vec![(asserted, sp(3, 8))]).unwrap_err(),
        unsupported(Unsupported::StaticAssert, sp(3, 8))
    );

    let nameless = ExternalDecl::FunctionDef(FunctionDef {
        decl: Decl::Normal(NormalDecl {
            decl_spec: DeclSpec { ty: int_spec(), attrs: DeclAttr::empty() },
            init_declarators: vec![],
        }),
        body: vec![],
    });
    assert_eq!(
        lower_translation_unit(&arena, &vec![(nameless, sp(1, 5))]).unwrap_err(),
        unsupported(Unsupported::MissingDeclarator, sp(1, 5))
    );
}

#[test]
fn translation_unit_stops_at_the_first_function_that_fails() {
    let arena = Bump::new();
    let unit = vec![
        (function_def(X, int_spec(), vec![]), sp(0, 9)),
        (function_def(Y, int_spec(), vec![(Stmt::Break, sp(20, 26))]), sp(10, 28)),
        (function_def(Z, int_spec(), vec![(Stmt::Continue, sp(40, 49))]), sp(30, 51)),
    ];
    assert_eq!(
        lower_translation_unit(&arena, &unit).unwrap_err(),
        unsupported(Unsupported::Break, sp(20, 26))
    );
}
