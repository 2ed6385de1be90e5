//! The syntax tree that the parser hands to the lowering pass.

use vstd::prelude::*;
use crate::span::{Spanned, Symbol};

verus! {

/// A name with the place where it was written.
pub type Ident = Spanned<Symbol>;

//
// --- Expr
//
/// A leaf of an expression.
#[derive(Debug)]
pub enum Atom {
    Ident(Ident),
    Int(u128),
    /// A floating-point literal, kept as the bit pattern of its IEEE 754
    /// double-precision value.
    Float(u64),
    String(Vec<u8>),
    Char(u8),
}

#[derive(Debug)]
pub enum UnaryOp {
    Increment,
    Decrement,
    AddrOf,
    Deref,
    Plus,
    Minus,
    Tilde,
    Bang,
}

#[derive(Debug)]
pub enum ArithOpKind {
    Mul,
    Div,
    Mod,
    Add,
    Sub,
    Shl,
    Shr,
    BitAnd,
    BitXor,
    BitOr,
}

#[derive(Debug)]
pub enum ComparisonKind {
    Lt,
    Gt,
    LtEq,
    GtEq,
    Eq,
    Neq,
}

#[derive(Debug)]
pub enum BinaryOp {
    Arith(ArithOpKind),
    LogicalAnd,
    LogicalOr,
    Comparison(ComparisonKind),
    Comma,
    /// `lhs[rhs]`
    Index,
    Assign(Option<ArithOpKind>),
}

#[derive(Debug)]
pub struct ExprUnary {
    pub rhs: Box<Spanned<Expr>>,
    pub op: UnaryOp,
}

#[derive(Debug)]
pub struct ExprBinary {
    pub lhs: Box<Spanned<Expr>>,
    pub rhs: Box<Spanned<Expr>>,
    pub op: BinaryOp,
}

#[derive(Debug)]
pub enum PostfixOp {
    Call(Vec<Spanned<Expr>>),
    Member(Ident),
    ArrowMember(Ident),
    Increment,
    Decrement,
}

#[derive(Debug)]
pub struct ExprPostfix {
    pub lhs: Box<Spanned<Expr>>,
    pub op: PostfixOp,
}

#[derive(Debug)]
pub enum Expr {
    Atom(Atom),
    Unary(ExprUnary),
    Binary(ExprBinary),
    Postfix(ExprPostfix),
}

//
// --- Statements
//
#[derive(Debug)]
#[allow(inconsistent_fields)]
pub enum Stmt {
    Decl(Decl),
    Labeled { label: Ident, stmt: Box<Spanned<Stmt>> },
    Compound(Vec<Spanned<Stmt>>),
    If { cond: Spanned<Expr>, then: Vec<Spanned<Stmt>>, otherwise: Option<Vec<Spanned<Stmt>>> },
    Switch,
    While { cond: Expr, body: Vec<Spanned<Stmt>> },
    For {
        init_decl: Option<Spanned<Decl>>,
        init_expr: Option<Spanned<Expr>>,
        cond: Option<Spanned<Expr>>,
        post: Option<Spanned<Expr>>,
        body: Vec<Spanned<Stmt>>,
    },
    Goto(Ident),
    Continue,
    Break,
    Return(Option<Spanned<Expr>>),
    Expr(Expr),
}

//
// --- Types and declarations
//
#[derive(Debug, Clone, Copy, PartialEq, Eq, Structural, Hash)]
pub enum IntSign {
    Signed,
    Unsigned,
}

impl Default for IntSign {
    /// A plain integer type is signed.
    fn default() -> (sign: Self)
        ensures
            sign == IntSign::Signed,
    {
        IntSign::Signed
    }
}

/// The width class of an integer type, from narrowest to widest.
#[derive(Debug, Clone, Copy, PartialEq, Eq, Structural, Hash, PartialOrd, Ord)]
pub enum IntTyKind {
    Bool,
    Char,
    Short,
    Int,
    Long,
    LongLong,
}

#[derive(Debug, Clone, Copy, PartialEq, Eq, Structural, Hash)]
pub struct IntTy(pub IntSign, pub IntTyKind);

#[derive(Debug, Clone, Copy, PartialEq, Eq, Structural)]
pub enum TypeSpecifier {
    Void,
    Char,
    SChar,
    UChar,
    Integer(IntTy),
    Float,
    Double,
    LongDouble,
    Bool,
}

/// The storage attributes of a declaration, one bit each.
#[derive(Debug, Clone, Copy, PartialEq, Eq, Structural, Hash)]
pub struct DeclAttr {
    bits: u8,
}

/// The bit of the attribute for a declaration defined elsewhere.
pub const DECL_ATTR_EXTERN: u8 = 0b0000_0001;

/// The bit of the attribute for static storage.
pub const DECL_ATTR_STATIC: u8 = 0b0000_0010;

/// The bit of the attribute for thread-local storage.
pub const DECL_ATTR_THREAD_LOCAL: u8 = 0b0000_0100;

/// All the bits that stand for an attribute.
pub const DECL_ATTR_ALL: u8 = 0b0000_0111;

impl DeclAttr {
    /// The bits that are set, as a number.
    pub closed spec fn view(&self) -> u8 {
        self.bits
    }

    /// No attribute at all.
    pub fn empty() -> (attrs: DeclAttr)
        ensures
            attrs@ == 0,
    {
        DeclAttr { bits: 0 }
    }

    /// The attributes whose bits are set in `bits`; bits that stand for no
    /// attribute are dropped.
    pub fn from_bits_truncate(bits: u8) -> (attrs: DeclAttr)
        ensures
            attrs@ == bits & DECL_ATTR_ALL,
    {
        DeclAttr { bits: bits & DECL_ATTR_ALL }
    }

    /// The bits that are set, as a number.
    pub fn bits(&self) -> (bits: u8)
        ensures
            bits == self@,
    {
        self.bits
    }

    /// Whether every attribute of `other` is also one of `self`.
    pub fn contains(&self, other: DeclAttr) -> (all: bool)
        ensures
            all == (self@ & other@ == other@),
    {
        self.bits & other.bits == other.bits
    }

    /// The attributes of `self` together with those of `other`.
    pub fn union(self, other: DeclAttr) -> (both: DeclAttr)
        ensures
            both@ == self@ | other@,
    {
        DeclAttr { bits: self.bits | other.bits }
    }
}

#[derive(Debug, Clone, Copy)]
pub struct DeclSpec {
    pub ty: TypeSpecifier,
    pub attrs: DeclAttr,
}

#[derive(Debug)]
pub enum Decl {
    Normal(NormalDecl),
    StaticAssert,
}

#[derive(Debug)]
pub struct InitDecl {
    pub declarator: Declarator,
    pub init: Option<Spanned<Expr>>,
}

#[derive(Debug)]
pub struct NormalDecl {
    pub decl_spec: DeclSpec,
    pub init_declarators: Vec<Spanned<InitDecl>>,
}

#[derive(Debug)]
pub struct FunctionParamDecl {
    pub decl_spec: Spanned<DeclSpec>,
    pub declarator: Spanned<Declarator>,
}

#[derive(Debug)]
pub enum DirectDeclarator {
    Ident(Ident),
    WithParams { ident: Ident, params: Vec<FunctionParamDecl> },
}

#[derive(Debug)]
pub struct Declarator {
    pub decl: DirectDeclarator,
    pub pointer: bool,
}

#[derive(Debug)]
pub struct FunctionDef {
    pub decl: Decl,
    pub body: Vec<Spanned<Stmt>>,
}

#[derive(Debug)]
pub enum ExternalDecl {
    Decl(Decl),
    FunctionDef(FunctionDef),
}

pub type TranslationUnit = Vec<Spanned<ExternalDecl>>;

impl Decl {
    /// The plain declaration that this is. A static assertion has none.
    pub fn unwrap_normal(&self) -> (normal: &NormalDecl)
        requires
            self is Normal,
        ensures
            *normal == self->Normal_0,
    {
        match self {
            Decl::Normal(decl) => decl,
            Decl::StaticAssert => unreached(),
        }
    }
}

impl DirectDeclarator {
    /// The name and the parameters of a declarator that has parameters.
    pub fn unwrap_with_params(&self) -> (parts: (&Ident, &Vec<FunctionParamDecl>))
        requires
            self is WithParams,
        ensures
            *parts.0 == self->ident,
            *parts.1 == self->params,
    {
        match self {
            DirectDeclarator::Ident(_) => unreached(),
            DirectDeclarator::WithParams { ident, params } => (ident, params),
        }
    }

    /// The declared name, with or without parameters.
    pub open spec fn spec_name(&self) -> Ident {
        match *self {
            DirectDeclarator::Ident(ident) => ident,
            DirectDeclarator::WithParams { ident, .. } => ident,
        }
    }

    /// The declared name, with or without parameters.
    #[verifier::when_used_as_spec(spec_name)]
    pub fn name(&self) -> (ident: Ident)
        ensures
            ident == self.spec_name(),
    {
        match *self {
            DirectDeclarator::Ident(ident) => ident,
            DirectDeclarator::WithParams { ident, .. } => ident,
        }
    }
}

/// Whether two parameter declarations are the same: the same specifiers, the
/// same spans and the same declarator.
pub open spec fn same_param(a: FunctionParamDecl, b: FunctionParamDecl) -> bool
    decreases a,
{
    &&& a.decl_spec == b.decl_spec
    &&& a.declarator.1 == b.declarator.1
    &&& a.declarator.0.pointer == b.declarator.0.pointer
    &&& same_direct_declarator(a.declarator.0.decl, b.declarator.0.decl)
}

/// Whether two declarators are the same: the same name and, one by one, the
/// same parameters.
pub open spec fn same_direct_declarator(a: DirectDeclarator, b: DirectDeclarator) -> bool
    decreases a,
{
    match a {
        DirectDeclarator::Ident(ident) => b == DirectDeclarator::Ident(ident),
        DirectDeclarator::WithParams { ident, params } => {
            &&& b is WithParams
            &&& b->ident == ident
            &&& b->params@.len() == params@.len()
            &&& forall|k: int|
                0 <= k < params@.len() ==> same_param(#[trigger] params@[k], b->params@[k])
        },
    }
}

impl Clone for FunctionParamDecl {
    /// A copy that is the same declaration.
    fn clone(&self) -> (copy: Self)
        ensures
            same_param(*self, copy),
        decreases self,
    {
        FunctionParamDecl {
            decl_spec: (self.decl_spec.0, self.decl_spec.1),
            declarator: (self.declarator.0.clone(), self.declarator.1),
        }
    }
}

impl Clone for Declarator {
    /// A copy with the same declarator and the same pointer mark.
    fn clone(&self) -> (copy: Self)
        ensures
            copy.pointer == self.pointer,
            same_direct_declarator(self.decl, copy.decl),
        decreases self,
    {
        Declarator { decl: self.decl.clone(), pointer: self.pointer }
    }
}

impl Clone for DirectDeclarator {
    /// A copy that is the same declarator: the same name, and every parameter
    /// the same as the one it was copied from.
    #[verifier::loop_isolation(false)]
    fn clone(&self) -> (copy: Self)
        ensures
            same_direct_declarator(*self, copy),
        decreases self,
    {
        match self {
            DirectDeclarator::Ident(ident) => DirectDeclarator::Ident(*ident),
            DirectDeclarator::WithParams { ident, params } => {
                let mut copies: Vec<FunctionParamDecl> = Vec::new();
                let mut i: usize = 0;
                while i < params.len()
                    invariant
                        i <= params.len(),
                        copies@.len() == i,
                        forall|k: int|
                            0 <= k < i ==> same_param(#[trigger] params@[k], copies@[k]),
                    decreases params.len() - i,
                {
                    copies.push(params[i].clone());
                    i = i + 1;
                }
                DirectDeclarator::WithParams { ident: *ident, params: copies }
            },
        }
    }
}

impl IntSign {
    /// Whether the type holds negative numbers.
    pub fn signed(self) -> (yes: bool)
        ensures
            yes == (self == IntSign::Signed),
    {
        matches!(self, IntSign::Signed)
    }

    /// Whether the type holds no negative numbers.
    pub fn unsigned(self) -> (yes: bool)
        ensures
            yes == (self == IntSign::Unsigned),
    {
        matches!(self, IntSign::Unsigned)
    }
}

} // verus!
