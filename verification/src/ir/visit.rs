//! Walking over a function: a visitor sees every block, statement, operand,
//! register and constant, in a fixed order.

use vstd::prelude::*;
use crate::ir::{
    BasicBlock, ConstValue, Func, Operand, Register, Statement, StatementKind, StatementKindView,
};

verus! {

/// One step of the walk over a statement: a register that the statement
/// defines, or an operand that it reads.
#[derive(Debug, Clone, Copy, PartialEq, Eq, Structural)]
pub enum Visit {
    Reg(Register),
    Operand(Operand),
}

impl StatementKindView {
    /// The steps of the walk over a statement, in order: the register that it
    /// defines, if any, and then its operands by their role. A store visits the
    /// pointer and then the value; a call visits the callee and then the
    /// arguments as they are declared.
    pub open spec fn visits(self) -> Seq<Visit> {
        match self {
            StatementKindView::Alloca { result, .. } => seq![Visit::Reg(result)],
            StatementKindView::Store { ptr, value, .. } => seq![
                Visit::Operand(ptr),
                Visit::Operand(value),
            ],
            StatementKindView::Load { result, ptr, .. } => seq![
                Visit::Reg(result),
                Visit::Operand(ptr),
            ],
            StatementKindView::BinOp { lhs, rhs, result, .. } => seq![
                Visit::Reg(result),
                Visit::Operand(lhs),
                Visit::Operand(rhs),
            ],
            StatementKindView::UnaryOperation { rhs, result, .. } => seq![
                Visit::Reg(result),
                Visit::Operand(rhs),
            ],
            StatementKindView::PtrOffset { result, ptr, amount } => seq![
                Visit::Reg(result),
                Visit::Operand(ptr),
                Visit::Operand(amount),
            ],
            StatementKindView::Call { result, func, args } => seq![
                Visit::Reg(result),
                Visit::Operand(func),
            ] + Seq::new(args.len(), |i: int| Visit::Operand(args[i])),
        }
    }
}

impl StatementKind {
    /// The steps of the walk over this statement, in order.
    pub fn visits(&self) -> (steps: Vec<Visit>)
        ensures
            steps@ == self@.visits(),
    {
        let mut steps: Vec<Visit> = Vec::new();
        match self {
            StatementKind::Alloca { result, .. } => {
                steps.push(Visit::Reg(*result));
            },
            StatementKind::Store { ptr, value, .. } => {
                steps.push(Visit::Operand(*ptr));
                steps.push(Visit::Operand(*value));
            },
            StatementKind::Load { result, ptr, .. } => {
                steps.push(Visit::Reg(*result));
                steps.push(Visit::Operand(*ptr));
            },
            StatementKind::BinOp { lhs, rhs, result, .. } => {
                steps.push(Visit::Reg(*result));
                steps.push(Visit::Operand(*lhs));
                steps.push(Visit::Operand(*rhs));
            },
            StatementKind::UnaryOperation { rhs, result, .. } => {
                steps.push(Visit::Reg(*result));
                steps.push(Visit::Operand(*rhs));
            },
            StatementKind::PtrOffset { result, ptr, amount } => {
                steps.push(Visit::Reg(*result));
                steps.push(Visit::Operand(*ptr));
                steps.push(Visit::Operand(*amount));
            },
            StatementKind::Call { result, func, args } => {
                steps.push(Visit::Reg(*result));
                steps.push(Visit::Operand(*func));
                let mut i: usize = 0;
                while i < args.len()
                    invariant
                        i <= args.len(),
                        steps@ == seq![Visit::Reg(*result), Visit::Operand(*func)] + Seq::new(
                            i as nat,
                            |j: int| Visit::Operand(args@[j]),
                        ),
                    decreases args.len() - i,
                {
                    steps.push(Visit::Operand(args[i]));
                    i = i + 1;
                }
            },
        }
        steps
    }
}

/// A walk over a function. Every sort of node has a `visit_` method, which the
/// walk calls on each node of that sort, and all but the leaves have a
/// `super_` method, which walks on into the node.
///
/// By default a `visit_` method does what the `super_` method does, and the
/// leaves do nothing. An implementer overrides the `visit_` methods of the
/// nodes it cares about; it calls the `super_` method there to walk on into the
/// node, or leaves that out to skip what is inside.
///
/// The contracts speak of what a method of the visitor does, whichever body
/// the visitor has for it: `call_ensures(Self::visit_reg, (m, reg), ())` says
/// of a borrow `m` of the visitor that a call of `visit_reg(reg)` took the
/// visitor from `*m` to `*final(m)`, so whatever that method ensures holds of
/// the two. To have this on record the walk calls every method as a value.
pub trait Visitor: Sized {
    /// By default, does what [`Self::super_func`] does.
    fn visit_func(&mut self, func: &Func<'_>)
        default_ensures
            exists|m: &mut Self|
                *m == *old(self) && *final(m) == *final(self) && call_ensures(
                    Self::super_func,
                    (m, func),
                    (),
                ),
    {
        let walk = Self::super_func;
        walk(self, func);
    }

    /// By default, does what [`Self::super_bb`] does.
    fn visit_bb(&mut self, bb: &BasicBlock)
        default_ensures
            exists|m: &mut Self|
                *m == *old(self) && *final(m) == *final(self) && call_ensures(
                    Self::super_bb,
                    (m, bb),
                    (),
                ),
    {
        let walk = Self::super_bb;
        walk(self, bb);
    }

    /// By default, does what [`Self::super_statement`] does.
    fn visit_statement(&mut self, stmt: &Statement)
        default_ensures
            exists|m: &mut Self|
                *m == *old(self) && *final(m) == *final(self) && call_ensures(
                    Self::super_statement,
                    (m, stmt),
                    (),
                ),
    {
        let walk = Self::super_statement;
        walk(self, stmt);
    }

    /// By default, does what [`Self::super_operand`] does.
    fn visit_operand(&mut self, op: Operand)
        default_ensures
            exists|m: &mut Self|
                *m == *old(self) && *final(m) == *final(self) && call_ensures(
                    Self::super_operand,
                    (m, op),
                    (),
                ),
    {
        let walk = Self::super_operand;
        walk(self, op);
    }

    /// By default, does nothing.
    fn visit_reg(&mut self, _reg: Register)
        default_ensures
            *final(self) == *old(self),
    {
    }

    /// By default, does nothing.
    fn visit_const(&mut self, _value: ConstValue)
        default_ensures
            *final(self) == *old(self),
    {
    }

    /// Visits the blocks of `func` in the order in which they are stored, each
    /// with [`Self::visit_bb`], and does nothing else: the visitor goes through
    /// the states `states`, where the visit of block `k` takes it from
    /// `states[k]` to `states[k + 1]`.
    fn super_func(&mut self, func: &Func<'_>)
        ensures
            exists|states: Seq<Self>|
                {
                    &&& states.len() == func.bbs@.len() + 1
                    &&& states[0] == *old(self)
                    &&& states.last() == *final(self)
                    &&& forall|k: int|
                        #![trigger states[k]]
                        0 <= k < func.bbs@.len() ==> exists|m: &mut Self|
                            *m == states[k] && *final(m) == states[k + 1] && call_ensures(
                                Self::visit_bb,
                                (m, &func.bbs@[k]),
                                (),
                            )
                },
    {
        let ghost mut states: Seq<Self> = seq![*self];
        let mut i: usize = 0;
        while i < func.bbs.len()
            invariant
                i <= func.bbs.len(),
                states.len() == i + 1,
                states[0] == *old(self),
                states[i as int] == *self,
                forall|k: int|
                    #![trigger states[k]]
                    0 <= k < i ==> exists|m: &mut Self|
                        *m == states[k] && *final(m) == states[k + 1] && call_ensures(
                            Self::visit_bb,
                            (m, &func.bbs@[k]),
                            (),
                        ),
            decreases func.bbs.len() - i,
        {
            let ghost before = states;
            let visit = Self::visit_bb;
            visit(self, &func.bbs[i]);
            proof {
                states = states.push(*self);
                assert(exists|m: &mut Self|
                    *m == states[i as int] && *final(m) == states[i + 1] && call_ensures(
                        Self::visit_bb,
                        (m, &func.bbs@[i as int]),
                        (),
                    ));
                assert forall|k: int| #![trigger states[k]] 0 <= k < i + 1 implies exists|
                    m: &mut Self,
                |
                    *m == states[k] && *final(m) == states[k + 1] && call_ensures(
                        Self::visit_bb,
                        (m, &func.bbs@[k]),
                        (),
                    ) by {
                    if k < i {
                        assert(before[k] == states[k]);
                        assert(before[k + 1] == states[k + 1]);
                    }
                }
            }
            i = i + 1;
        }
    }

    /// Visits the statements of `bb` in the order in which they are stored,
    /// each with [`Self::visit_statement`], and does nothing else: the visit of
    /// statement `k` takes the visitor from `states[k]` to `states[k + 1]`.
    fn super_bb(&mut self, bb: &BasicBlock)
        ensures
            exists|states: Seq<Self>|
                {
                    &&& states.len() == bb.statements@.len() + 1
                    &&& states[0] == *old(self)
                    &&& states.last() == *final(self)
                    &&& forall|k: int|
                        #![trigger states[k]]
                        0 <= k < bb.statements@.len() ==> exists|m: &mut Self|
                            *m == states[k] && *final(m) == states[k + 1] && call_ensures(
                                Self::visit_statement,
                                (m, &bb.statements@[k]),
                                (),
                            )
                },
    {
        let ghost mut states: Seq<Self> = seq![*self];
        let mut i: usize = 0;
        while i < bb.statements.len()
            invariant
                i <= bb.statements.len(),
                states.len() == i + 1,
                states[0] == *old(self),
                states[i as int] == *self,
                forall|k: int|
                    #![trigger states[k]]
                    0 <= k < i ==> exists|m: &mut Self|
                        *m == states[k] && *final(m) == states[k + 1] && call_ensures(
                            Self::visit_statement,
                            (m, &bb.statements@[k]),
                            (),
                        ),
            decreases bb.statements.len() - i,
        {
            let ghost before = states;
            let visit = Self::visit_statement;
            visit(self, &bb.statements[i]);
            proof {
                states = states.push(*self);
                assert(exists|m: &mut Self|
                    *m == states[i as int] && *final(m) == states[i + 1] && call_ensures(
                        Self::visit_statement,
                        (m, &bb.statements@[i as int]),
                        (),
                    ));
                assert forall|k: int| #![trigger states[k]] 0 <= k < i + 1 implies exists|
                    m: &mut Self,
                |
                    *m == states[k] && *final(m) == states[k + 1] && call_ensures(
                        Self::visit_statement,
                        (m, &bb.statements@[k]),
                        (),
                    ) by {
                    if k < i {
                        assert(before[k] == states[k]);
                        assert(before[k + 1] == states[k + 1]);
                    }
                }
            }
            i = i + 1;
        }
    }

    /// Visits what `stmt` defines and reads, in the order that
    /// [`StatementKind::visits`] gives, a register with [`Self::visit_reg`] and
    /// an operand with [`Self::visit_operand`], and does nothing else: step `k`
    /// takes the visitor from `states[k]` to `states[k + 1]`.
    fn super_statement(&mut self, stmt: &Statement)
        ensures
            exists|states: Seq<Self>|
                {
                    &&& states.len() == stmt.kind@.visits().len() + 1
                    &&& states[0] == *old(self)
                    &&& states.last() == *final(self)
                    &&& forall|k: int|
                        #![trigger states[k]]
                        0 <= k < stmt.kind@.visits().len() ==> match stmt.kind@.visits()[k] {
                            Visit::Reg(reg) => exists|m: &mut Self|
                                *m == states[k] && *final(m) == states[k + 1] && call_ensures(
                                    Self::visit_reg,
                                    (m, reg),
                                    (),
                                ),
                            Visit::Operand(op) => exists|m: &mut Self|
                                *m == states[k] && *final(m) == states[k + 1] && call_ensures(
                                    Self::visit_operand,
                                    (m, op),
                                    (),
                                ),
                        }
                },
    {
        let steps = stmt.kind.visits();
        let ghost mut states: Seq<Self> = seq![*self];
        let mut i: usize = 0;
        while i < steps.len()
            invariant
                i <= steps.len(),
                steps@ == stmt.kind@.visits(),
                states.len() == i + 1,
                states[0] == *old(self),
                states[i as int] == *self,
                forall|k: int|
                    #![trigger states[k]]
                    0 <= k < i ==> match steps@[k] {
                        Visit::Reg(reg) => exists|m: &mut Self|
                            *m == states[k] && *final(m) == states[k + 1] && call_ensures(
                                Self::visit_reg,
                                (m, reg),
                                (),
                            ),
                        Visit::Operand(op) => exists|m: &mut Self|
                            *m == states[k] && *final(m) == states[k + 1] && call_ensures(
                                Self::visit_operand,
                                (m, op),
                                (),
                            ),
                    },
            decreases steps.len() - i,
        {
            let ghost before = states;
            match steps[i] {
                Visit::Reg(reg) => {
                    let visit = Self::visit_reg;
                    visit(self, reg);
                    proof {
                        states = states.push(*self);
                        assert(exists|m: &mut Self|
                            *m == states[i as int] && *final(m) == states[i + 1] && call_ensures(
                                Self::visit_reg,
                                (m, reg),
                                (),
                            ));
                    }
                },
                Visit::Operand(op) => {
                    let visit = Self::visit_operand;
                    visit(self, op);
                    proof {
                        states = states.push(*self);
                        assert(exists|m: &mut Self|
                            *m == states[i as int] && *final(m) == states[i + 1] && call_ensures(
                                Self::visit_operand,
                                (m, op),
                                (),
                            ));
                    }
                },
            }
            proof {
                assert forall|k: int| #![trigger states[k]] 0 <= k < i + 1 implies match steps@[k] {
                    Visit::Reg(reg) => exists|m: &mut Self|
                        *m == states[k] && *final(m) == states[k + 1] && call_ensures(
                            Self::visit_reg,
                            (m, reg),
                            (),
                        ),
                    Visit::Operand(op) => exists|m: &mut Self|
                        *m == states[k] && *final(m) == states[k + 1] && call_ensures(
                            Self::visit_operand,
                            (m, op),
                            (),
                        ),
                } by {
                    if k < i {
                        assert(before[k] == states[k]);
                        assert(before[k + 1] == states[k + 1]);
                    }
                }
            }
            i = i + 1;
        }
    }

    /// Visits the register or the constant that `op` is, with
    /// [`Self::visit_reg`] or [`Self::visit_const`], and does nothing else.
    fn super_operand(&mut self, op: Operand)
        ensures
            match op {
                Operand::Reg(reg) => exists|m: &mut Self|
                    *m == *old(self) && *final(m) == *final(self) && call_ensures(
                        Self::visit_reg,
                        (m, reg),
                        (),
                    ),
                Operand::Const(value) => exists|m: &mut Self|
                    *m == *old(self) && *final(m) == *final(self) && call_ensures(
                        Self::visit_const,
                        (m, value),
                        (),
                    ),
            },
    {
        match op {
            Operand::Reg(reg) => {
                let visit = Self::visit_reg;
                visit(self, reg);
            },
            Operand::Const(value) => {
                let visit = Self::visit_const;
                visit(self, value);
            },
        }
    }
}

} // verus!
