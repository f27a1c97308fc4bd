//! The operators of expressions.

use vstd::prelude::*;
use vstd::string::StrSliceExecFns;

verus! {

/// An operator of an expression.
#[derive(Debug, Clone, Copy, PartialEq, Eq)]
pub enum Operator {
    /// `+`
    Plus,
    /// `-`
    Minus,
    /// `*`
    Multiply,
    /// `/`
    Divide,
    /// `//`
    IntDivide,
    /// `%`
    Modulus,
    /// `**`
    Power,
    /// `!`
    BooleanNot,
    /// `~`
    BitwiseNegate,
}

/// The text of an operator.
pub open spec fn operator_text(op: Operator) -> Seq<char> {
    match op {
        Operator::Plus => "+"@,
        Operator::Minus => "-"@,
        Operator::Multiply => "*"@,
        Operator::Divide => "/"@,
        Operator::IntDivide => "//"@,
        Operator::Modulus => "%"@,
        Operator::Power => "**"@,
        Operator::BooleanNot => "!"@,
        Operator::BitwiseNegate => "~"@,
    }
}

impl Operator {
    /// The text of this operator.
    pub fn to_text(&self) -> (s: &'static str)
        ensures
            s@ == operator_text(*self),
    {
        match self {
            Operator::Plus => "+",
            Operator::Minus => "-",
            Operator::Multiply => "*",
            Operator::Divide => "/",
            Operator::IntDivide => "//",
            Operator::Modulus => "%",
            Operator::Power => "**",
            Operator::BooleanNot => "!",
            Operator::BitwiseNegate => "~",
        }
    }

    /// The operator that a text spells, if it spells one.
    pub fn from_str(op: &str) -> (r: Option<Operator>)
        ensures
            match r {
                Some(o) => operator_text(o) == op@,
                None => forall|o: Operator| #[trigger] operator_text(o) != op@,
            },
    {
        proof {
            reveal_strlit("+");
            reveal_strlit("-");
            reveal_strlit("*");
            reveal_strlit("/");
            reveal_strlit("//");
            reveal_strlit("%");
            reveal_strlit("**");
            reveal_strlit("!");
            reveal_strlit("~");
        }
        let n = op.unicode_len();
        if n == 1 {
            let c = op.get_char(0);
            let r = if c == '+' {
                Some(Operator::Plus)
            } else if c == '-' {
                Some(Operator::Minus)
            } else if c == '*' {
                Some(Operator::Multiply)
            } else if c == '/' {
                Some(Operator::Divide)
            } else if c == '%' {
                Some(Operator::Modulus)
            } else if c == '!' {
                Some(Operator::BooleanNot)
            } else if c == '~' {
                Some(Operator::BitwiseNegate)
            } else {
                None
            };
            match r {
                Some(o) => {
                    assert(operator_text(o) =~= op@);
                },
                None => {
                    assert forall|o: Operator| #[trigger] operator_text(o) != op@ by {
                        if operator_text(o) == op@ {
                            assert(operator_text(o)[0] == c);
                        }
                    }
                },
            }
            r
        } else if n == 2 {
            let a = op.get_char(0);
            let b = op.get_char(1);
            if a == '/' && b == '/' {
                assert(operator_text(Operator::IntDivide) =~= op@);
                Some(Operator::IntDivide)
            } else if a == '*' && b == '*' {
                assert(operator_text(Operator::Power) =~= op@);
                Some(Operator::Power)
            } else {
                assert forall|o: Operator| #[trigger] operator_text(o) != op@ by {
                    if operator_text(o) == op@ {
                        assert(operator_text(o)[0] == a && operator_text(o)[1] == b);
                    }
                }
                None
            }
        } else {
            assert forall|o: Operator| #[trigger] operator_text(o) != op@ by {
                assert(operator_text(o).len() == 1 || operator_text(o).len() == 2);
            }
            None
        }
    }
}

} // verus!
