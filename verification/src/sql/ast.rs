//! The syntax tree that the parser builds.

use crate::sql::keyword::Keyword;
use crate::sql::operator::Operator;
use crate::types::DataType;
use vstd::prelude::*;

verus! {

/// A literal as it is written in a query. A float literal keeps its decimal
/// text, digits with one point.
#[derive(Debug, Clone, PartialEq)]
pub enum Literal {
    Int64(i64),
    Float64(String),
    Text(String),
    Bool(bool),
    Null,
}

/// The content of a [`Literal`].
pub enum LiteralView {
    Int64(i64),
    Float64(Seq<char>),
    Text(Seq<char>),
    Bool(bool),
    Null,
}

impl View for Literal {
    type V = LiteralView;

    open spec fn view(&self) -> LiteralView {
        match *self {
            Literal::Int64(n) => LiteralView::Int64(n),
            Literal::Float64(s) => LiteralView::Float64(s@),
            Literal::Text(s) => LiteralView::Text(s@),
            Literal::Bool(b) => LiteralView::Bool(b),
            Literal::Null => LiteralView::Null,
        }
    }
}

/// What may follow `IS` or `IS NOT`.
#[derive(Debug, Clone, Copy, PartialEq, Eq, Structural)]
pub enum IsPredicate {
    True,
    False,
    Null,
}

impl IsPredicate {
    /// The predicate that the keyword names, if it names one.
    pub fn from_keyword(kw: Keyword) -> (r: Option<IsPredicate>)
        ensures
            r == match kw {
                Keyword::True => Some(IsPredicate::True),
                Keyword::False => Some(IsPredicate::False),
                Keyword::Null => Some(IsPredicate::Null),
                _ => None,
            },
    {
        match kw {
            Keyword::True => Some(IsPredicate::True),
            Keyword::False => Some(IsPredicate::False),
            Keyword::Null => Some(IsPredicate::Null),
            _ => None,
        }
    }

    /// The predicate as it is written in a query.
    pub fn to_string(&self) -> (text: &'static str)
        ensures
            text@ == match *self {
                IsPredicate::True => "TRUE"@,
                IsPredicate::False => "FALSE"@,
                IsPredicate::Null => "NULL"@,
            },
    {
        match self {
            IsPredicate::True => "TRUE",
            IsPredicate::False => "FALSE",
            IsPredicate::Null => "NULL",
        }
    }
}

/// An expression of a target list or a `WHERE` clause.
#[derive(Debug, PartialEq)]
pub enum Expression {
    BinaryOp { left: Box<Expression>, op: Operator, right: Box<Expression> },
    /// A column reference, or `*`.
    Identifier(String),
    Literal(Literal),
    Is { expr: Box<Expression>, predicate: IsPredicate, is_negated: bool },
}

/// The content of an [`Expression`].
pub enum ExprView {
    BinaryOp { left: Box<ExprView>, op: Operator, right: Box<ExprView> },
    Identifier(Seq<char>),
    Literal(LiteralView),
    Is { expr: Box<ExprView>, predicate: IsPredicate, is_negated: bool },
}

impl Expression {
    /// The content of the expression.
    pub open spec fn content(self) -> ExprView
        decreases self,
    {
        match self {
            Expression::BinaryOp { left, op, right } => ExprView::BinaryOp {
                left: Box::new(left.content()),
                op,
                right: Box::new(right.content()),
            },
            Expression::Identifier(name) => ExprView::Identifier(name@),
            Expression::Literal(literal) => ExprView::Literal(literal@),
            Expression::Is { expr, predicate, is_negated } => ExprView::Is {
                expr: Box::new(expr.content()),
                predicate,
                is_negated,
            },
        }
    }
}

impl View for Expression {
    type V = ExprView;

    open spec fn view(&self) -> ExprView {
        self.content()
    }
}

impl ExprView {
    /// The name under which the expression appears in a result: a column
    /// reference goes by its name, anything else by `?column?`.
    pub open spec fn column_name(self) -> Seq<char> {
        match self {
            ExprView::Identifier(name) => name,
            _ => "?column?"@,
        }
    }
}

impl Expression {
    /// The name under which the expression appears in a result: a column
    /// reference goes by its name, anything else by `?column?`.
    pub fn to_column_name(&self) -> (name: &str)
        ensures
            name@ == self@.column_name(),
    {
        match self {
            Expression::Identifier(name) => name.as_str(),
            _ => "?column?",
        }
    }
}

/// One item of a target list.
#[derive(Debug, PartialEq)]
pub enum SelectTarget {
    /// `*`: every column of the input.
    Star,
    /// An expression, with the alias that follows it, if one does.
    Expression { expr: Expression, alias: Option<String> },
}

/// The content of a [`SelectTarget`].
pub enum TargetView {
    Star,
    Expression { expr: ExprView, alias: Option<Seq<char>> },
}

impl View for SelectTarget {
    type V = TargetView;

    open spec fn view(&self) -> TargetView {
        match self {
            SelectTarget::Star => TargetView::Star,
            SelectTarget::Expression { expr, alias } => TargetView::Expression {
                expr: expr@,
                alias: match alias {
                    Some(a) => Some(a@),
                    None => None,
                },
            },
        }
    }
}

/// The target list of a `SELECT`.
#[derive(Debug, PartialEq)]
pub struct SelectList(pub Vec<SelectTarget>);

impl View for SelectList {
    type V = Seq<TargetView>;

    open spec fn view(&self) -> Seq<TargetView> {
        Seq::new(self.0@.len(), |i: int| self.0@[i]@)
    }
}

/// The table that a `SELECT` reads.
#[derive(Debug, Clone, PartialEq)]
pub struct FromClause {
    pub table_name: String,
}

/// `SELECT <targets> FROM <table> [WHERE <condition>]`.
#[derive(Debug, PartialEq)]
pub struct SelectStatement {
    pub select_list: SelectList,
    pub from_clause: FromClause,
    pub where_clause: Option<Expression>,
}

/// A constraint on a column of a `CREATE TABLE`.
#[derive(Debug, Clone, Copy, PartialEq, Eq, Structural)]
pub enum ColumnConstraint {
    PrimaryKey,
    Unique,
    NotNull,
}

/// One column of a `CREATE TABLE`.
#[derive(Debug, Clone, PartialEq)]
pub struct ColumnDefinition {
    pub name: String,
    pub data_type: DataType,
    pub constraints: Vec<ColumnConstraint>,
}

/// `CREATE TABLE <name> ( <columns> )`.
#[derive(Debug, Clone, PartialEq)]
pub struct CreateStatement {
    pub table_name: String,
    pub if_not_exists: bool,
    pub columns: Vec<ColumnDefinition>,
}

/// A parsed statement.
#[derive(Debug, PartialEq)]
pub enum Statement {
    Create(CreateStatement),
    Select(SelectStatement),
}

/// The content of a [`ColumnDefinition`].
pub struct ColumnDefinitionView {
    pub name: Seq<char>,
    pub data_type: DataType,
    pub constraints: Seq<ColumnConstraint>,
}

impl View for ColumnDefinition {
    type V = ColumnDefinitionView;

    open spec fn view(&self) -> ColumnDefinitionView {
        ColumnDefinitionView {
            name: self.name@,
            data_type: self.data_type,
            constraints: self.constraints@,
        }
    }
}

/// The content of a [`Statement`].
pub enum StatementView {
    Create { table_name: Seq<char>, if_not_exists: bool, columns: Seq<ColumnDefinitionView> },
    Select { targets: Seq<TargetView>, table_name: Seq<char>, condition: Option<ExprView> },
}

impl View for Statement {
    type V = StatementView;

    open spec fn view(&self) -> StatementView {
        match self {
            Statement::Create(create) => StatementView::Create {
                table_name: create.table_name@,
                if_not_exists: create.if_not_exists,
                columns: Seq::new(create.columns@.len(), |i: int| create.columns@[i]@),
            },
            Statement::Select(select) => StatementView::Select {
                targets: select.select_list@,
                table_name: select.from_clause.table_name@,
                condition: match select.where_clause {
                    Some(e) => Some(e@),
                    None => None,
                },
            },
        }
    }
}

impl Statement {
    /// The table that the statement is about.
    pub fn table_name(&self) -> (name: &str)
        ensures
            name@ == match self@ {
                StatementView::Create { table_name, .. } => table_name,
                StatementView::Select { table_name, .. } => table_name,
            },
    {
        match self {
            Statement::Create(create) => create.table_name.as_str(),
            Statement::Select(select) => select.from_clause.table_name.as_str(),
        }
    }
}

} // verus!
