//! The diagnostics of the lowering pass.

use vstd::prelude::*;
use vstd::string::StringExecFns;
use crate::span::{Span, Symbol};

verus! {

/// A construct of the source language that the pass does not lower.
#[derive(Debug, Clone, Copy, PartialEq, Eq, Structural)]
pub enum Unsupported {
    /// A declaration at the top level of a translation unit.
    TopLevelDecl,
    /// A static assertion where a plain declaration is needed.
    StaticAssert,
    /// A function definition without a declarator.
    MissingDeclarator,
    /// A labeled statement.
    Labeled,
    /// A compound statement (a nested block).
    Compound,
    /// A `switch` statement.
    Switch,
    /// A `while` loop.
    While,
    /// A `for` loop.
    For,
    /// A `goto` statement.
    Goto,
    /// A `continue` statement.
    Continue,
    /// A `break` statement.
    Break,
    /// A `return` statement.
    Return,
    /// An assignment that combines with an operator, such as `+=`.
    CompoundAssign,
    /// An assignment whose target is not a plain identifier.
    AssignTarget,
    /// A floating-point literal.
    FloatLiteral,
    /// An identifier read as a value.
    IdentExpr,
    /// A string literal.
    StringLiteral,
    /// A unary operator.
    Unary,
    /// The operator `<<`.
    Shl,
    /// The operator `>>`.
    Shr,
    /// The operator `&`.
    BitAnd,
    /// The operator `^`.
    BitXor,
    /// The operator `|`.
    BitOr,
    /// The operator `&&`.
    LogicalAnd,
    /// The operator `||`.
    LogicalOr,
    /// The comma operator.
    Comma,
    /// Indexing, `a[b]`.
    Index,
    /// An assignment used as a value.
    AssignExpr,
    /// Member access with `.`.
    Member,
    /// Member access with `->`.
    ArrowMember,
    /// Postfix `++`.
    Increment,
    /// Postfix `--`.
    Decrement,
}

/// What went wrong.
#[derive(Debug, Clone, Copy, PartialEq, Eq, Structural)]
pub enum ErrorKind {
    /// The target of an assignment names no variable of any active scope.
    UnresolvedIdent(Symbol),
    /// The source uses a construct that the pass does not lower.
    Unsupported(Unsupported),
}

/// A diagnostic: what went wrong, and where in the source.
#[derive(Debug, Clone, Copy, PartialEq, Eq, Structural)]
pub struct Error {
    pub kind: ErrorKind,
    pub span: Span,
}

impl Error {
    /// The diagnostic of the given kind at the given place.
    pub fn new(kind: ErrorKind, span: Span) -> (err: Error)
        ensures
            err == (Error { kind, span }),
    {
        Error { kind, span }
    }

    /// The diagnostic for an assignment to a name that no scope declares.
    pub fn unresolved(ident: Symbol, span: Span) -> (err: Error)
        ensures
            err == unresolved_error(ident, span),
    {
        Error { kind: ErrorKind::UnresolvedIdent(ident), span }
    }

    /// The diagnostic for a construct that the pass does not lower.
    pub fn unsupported(what: Unsupported, span: Span) -> (err: Error)
        ensures
            err == unsupported_error(what, span),
    {
        Error { kind: ErrorKind::Unsupported(what), span }
    }

    /// The text of the message, as a sequence of characters.
    pub open spec fn message_text(self) -> Seq<char> {
        match self.kind {
            ErrorKind::UnresolvedIdent(_) => "cannot find variable"@,
            ErrorKind::Unsupported(what) => what.description_text(),
        }
    }

    /// The text of the message when the name behind the symbol is known: an
    /// unresolved identifier is then named.
    pub open spec fn message_text_naming(self, name: Seq<char>) -> Seq<char> {
        match self.kind {
            ErrorKind::UnresolvedIdent(_) => "cannot find variable "@ + name,
            ErrorKind::Unsupported(what) => what.description_text(),
        }
    }

    /// The message of this diagnostic, naming the identifier that could not be
    /// resolved. `name` is the text of that identifier, which the caller looks
    /// up in the name table by the symbol that the diagnostic carries; for a
    /// diagnostic of another kind it is not used.
    pub fn message_naming(&self, name: &str) -> (text: String)
        ensures
            text@ == self.message_text_naming(name@),
    {
        match self.kind {
            ErrorKind::UnresolvedIdent(_) => "cannot find variable ".to_owned().concat(name),
            ErrorKind::Unsupported(what) => what.description().to_owned(),
        }
    }

    /// The message of this diagnostic, without the name of an identifier.
    pub fn message(&self) -> (text: String)
        ensures
            text@ == self.message_text(),
    {
        match self.kind {
            ErrorKind::UnresolvedIdent(_) => "cannot find variable".to_owned(),
            ErrorKind::Unsupported(what) => what.description().to_owned(),
        }
    }
}

impl Unsupported {
    /// What to tell the user, as a sequence of characters.
    pub open spec fn description_text(self) -> Seq<char> {
        match self {
            Unsupported::TopLevelDecl => "declarations at the top level are not supported"@,
            Unsupported::StaticAssert => "static assertions are not supported"@,
            Unsupported::MissingDeclarator => "a function definition needs a declarator"@,
            Unsupported::Labeled => "labels are not supported"@,
            Unsupported::Compound => "blocks are not supported"@,
            Unsupported::Switch => "switch statements are not supported"@,
            Unsupported::While => "while loops are not supported"@,
            Unsupported::For => "for loops are not supported"@,
            Unsupported::Goto => "goto is not supported"@,
            Unsupported::Continue => "continue is not supported"@,
            Unsupported::Break => "break is not supported"@,
            Unsupported::Return => "return is not supported"@,
            Unsupported::CompoundAssign => "compound assignment is not supported"@,
            Unsupported::AssignTarget => "only a plain name can be assigned to"@,
            Unsupported::FloatLiteral => "floating-point literals are not supported"@,
            Unsupported::IdentExpr => "reading a variable is not supported"@,
            Unsupported::StringLiteral => "string literals are not supported"@,
            Unsupported::Unary => "unary operators are not supported"@,
            Unsupported::Shl => "the operator << is not supported"@,
            Unsupported::Shr => "the operator >> is not supported"@,
            Unsupported::BitAnd => "the operator & is not supported"@,
            Unsupported::BitXor => "the operator ^ is not supported"@,
            Unsupported::BitOr => "the operator | is not supported"@,
            Unsupported::LogicalAnd => "the operator && is not supported"@,
            Unsupported::LogicalOr => "the operator || is not supported"@,
            Unsupported::Comma => "the comma operator is not supported"@,
            Unsupported::Index => "indexing is not supported"@,
            Unsupported::AssignExpr => "an assignment cannot be used as a value"@,
            Unsupported::Member => "member access is not supported"@,
            Unsupported::ArrowMember => "member access through a pointer is not supported"@,
            Unsupported::Increment => "the operator ++ is not supported"@,
            Unsupported::Decrement => "the operator -- is not supported"@,
        }
    }

    /// What to tell the user.
    pub fn description(&self) -> (text: &'static str)
        ensures
            text@ == self.description_text(),
    {
        match self {
            Unsupported::TopLevelDecl => "declarations at the top level are not supported",
            Unsupported::StaticAssert => "static assertions are not supported",
            Unsupported::MissingDeclarator => "a function definition needs a declarator",
            Unsupported::Labeled => "labels are not supported",
            Unsupported::Compound => "blocks are not supported",
            Unsupported::Switch => "switch statements are not supported",
            Unsupported::While => "while loops are not supported",
            Unsupported::For => "for loops are not supported",
            Unsupported::Goto => "goto is not supported",
            Unsupported::Continue => "continue is not supported",
            Unsupported::Break => "break is not supported",
            Unsupported::Return => "return is not supported",
            Unsupported::CompoundAssign => "compound assignment is not supported",
            Unsupported::AssignTarget => "only a plain name can be assigned to",
            Unsupported::FloatLiteral => "floating-point literals are not supported",
            Unsupported::IdentExpr => "reading a variable is not supported",
            Unsupported::StringLiteral => "string literals are not supported",
            Unsupported::Unary => "unary operators are not supported",
            Unsupported::Shl => "the operator << is not supported",
            Unsupported::Shr => "the operator >> is not supported",
            Unsupported::BitAnd => "the operator & is not supported",
            Unsupported::BitXor => "the operator ^ is not supported",
            Unsupported::BitOr => "the operator | is not supported",
            Unsupported::LogicalAnd => "the operator && is not supported",
            Unsupported::LogicalOr => "the operator || is not supported",
            Unsupported::Comma => "the comma operator is not supported",
            Unsupported::Index => "indexing is not supported",
            Unsupported::AssignExpr => "an assignment cannot be used as a value",
            Unsupported::Member => "member access is not supported",
            Unsupported::ArrowMember => "member access through a pointer is not supported",
            Unsupported::Increment => "the operator ++ is not supported",
            Unsupported::Decrement => "the operator -- is not supported",
        }
    }
}

/// The diagnostic for an assignment to a name that no scope declares.
pub open spec fn unresolved_error(ident: Symbol, span: Span) -> Error {
    Error { kind: ErrorKind::UnresolvedIdent(ident), span }
}

/// The diagnostic for a construct that the pass does not lower.
pub open spec fn unsupported_error(what: Unsupported, span: Span) -> Error {
    Error { kind: ErrorKind::Unsupported(what), span }
}

} // verus!
