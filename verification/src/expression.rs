//! The instruction expressions that the front end produces.

use vstd::prelude::*;

verus! {

/// One instruction, with every symbol resolved.
#[derive(Debug)]
pub enum Expression {
    /// An address instruction: the address it loads.
    Address(u16),
    /// A compute instruction that stores its result and does not jump.
    Compute { destination: String, computation: String },
    /// A compute instruction that jumps on its result.
    ComputeJump { computation: String, jump: String },
}

/// The mathematical value of an [`Expression`].
pub enum ExpressionView {
    Address(u16),
    Compute { destination: Seq<char>, computation: Seq<char> },
    ComputeJump { computation: Seq<char>, jump: Seq<char> },
}

impl View for Expression {
    type V = ExpressionView;

    open spec fn view(&self) -> ExpressionView {
        match self {
            Expression::Address(address) => ExpressionView::Address(*address),
            Expression::Compute { destination, computation } => ExpressionView::Compute {
                destination: destination@,
                computation: computation@,
            },
            Expression::ComputeJump { computation, jump } => ExpressionView::ComputeJump {
                computation: computation@,
                jump: jump@,
            },
        }
    }
}

impl PartialEq for Expression {
    /// Whether the two expressions have the same value.
    fn eq(&self, other: &Expression) -> (equal: bool) {
        match (self, other) {
            (Expression::Address(a), Expression::Address(b)) => *a == *b,
            (
                Expression::Compute { destination: d, computation: c },
                Expression::Compute { destination: e, computation: f },
            ) => d.eq(e) && c.eq(f),
            (
                Expression::ComputeJump { computation: c, jump: j },
                Expression::ComputeJump { computation: f, jump: k },
            ) => c.eq(f) && j.eq(k),
            _ => false,
        }
    }
}

/// `==` on expressions means that their values are equal.
impl vstd::std_specs::cmp::PartialEqSpecImpl for Expression {
    open spec fn obeys_eq_spec() -> bool {
        true
    }

    open spec fn eq_spec(&self, other: &Expression) -> bool {
        self@ == other@
    }
}

impl Eq for Expression {

}

impl Clone for Expression {
    /// An expression of the same value.
    fn clone(&self) -> (copy: Expression)
        ensures
            copy@ == self@,
    {
        match self {
            Expression::Address(address) => Expression::Address(*address),
            Expression::Compute { destination, computation } => Expression::Compute {
                destination: destination.clone(),
                computation: computation.clone(),
            },
            Expression::ComputeJump { computation, jump } => Expression::ComputeJump {
                computation: computation.clone(),
                jump: jump.clone(),
            },
        }
    }
}

/// The values of a sequence of expressions, in the same order.
pub open spec fn expression_views(expressions: Seq<Expression>) -> Seq<ExpressionView> {
    expressions.map_values(|expression: Expression| expression@)
}

} // verus!
