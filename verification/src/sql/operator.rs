use vstd::prelude::*;

verus! {

/// The binary operators of expressions.
#[derive(Debug, Clone, Copy, PartialEq, Eq, Structural)]
pub enum Operator {
    Equal,
    NotEqual,
    And,
    Or,
    GreaterThan,
    GreaterThanEqual,
    LessThan,
    LessThanEqual,
    Add,
    Multiply,
    Divide,
    Subtract,
}

impl Operator {
    /// The binding power of the operator; a higher number binds tighter.
    pub open spec fn binding_power(self) -> u8 {
        match self {
            Operator::Or => 2,
            Operator::And => 3,
            Operator::NotEqual
            | Operator::Equal
            | Operator::LessThan
            | Operator::LessThanEqual
            | Operator::GreaterThan
            | Operator::GreaterThanEqual => 5,
            Operator::Add | Operator::Subtract => 7,
            Operator::Multiply | Operator::Divide => 10,
        }
    }

    /// Whether the operator compares its operands.
    pub open spec fn is_comparison(self) -> bool {
        self.binding_power() == 5
    }

    /// Whether the operator is one of `+ - * /`.
    pub open spec fn is_arithmetic(self) -> bool {
        self.binding_power() >= 7
    }

    /// The operator as it is written in a query.
    pub open spec fn symbol(self) -> Seq<char> {
        match self {
            Operator::Equal => "="@,
            Operator::NotEqual => "!="@,
            Operator::And => "AND"@,
            Operator::Or => "OR"@,
            Operator::GreaterThan => ">"@,
            Operator::GreaterThanEqual => ">="@,
            Operator::LessThan => "<"@,
            Operator::LessThanEqual => "<="@,
            Operator::Add => "+"@,
            Operator::Subtract => "-"@,
            Operator::Multiply => "*"@,
            Operator::Divide => "/"@,
        }
    }

    /// The operator as it is written in a query.
    pub fn to_symbol(self) -> (symbol: &'static str)
        ensures
            symbol@ == self.symbol(),
    {
        match self {
            Operator::Equal => "=",
            Operator::NotEqual => "!=",
            Operator::And => "AND",
            Operator::Or => "OR",
            Operator::GreaterThan => ">",
            Operator::GreaterThanEqual => ">=",
            Operator::LessThan => "<",
            Operator::LessThanEqual => "<=",
            Operator::Add => "+",
            Operator::Subtract => "-",
            Operator::Multiply => "*",
            Operator::Divide => "/",
        }
    }

    /// The binding power of the operator: `OR` 2, `AND` 3, comparisons 5,
    /// `+ -` 7, `* /` 10.
    pub fn precedence(&self) -> (power: u8)
        ensures
            power == self.binding_power(),
            2 <= power <= 10,
    {
        match self {
            Operator::Or => 2,
            Operator::And => 3,
            Operator::NotEqual
            | Operator::Equal
            | Operator::LessThan
            | Operator::LessThanEqual
            | Operator::GreaterThan
            | Operator::GreaterThanEqual => 5,
            Operator::Add | Operator::Subtract => 7,
            Operator::Multiply | Operator::Divide => 10,
        }
    }
}

} // verus!
