//! The parser: recursive descent for statements, precedence climbing for
//! expressions.

use crate::error::DatabaseError;
use crate::sql::ast::{
    ColumnConstraint, ColumnDefinition, ColumnDefinitionView, CreateStatement, ExprView,
    Expression, FromClause, IsPredicate, Literal, LiteralView, SelectList, SelectStatement,
    SelectTarget, Statement, StatementView, TargetView,
};
use crate::sql::keyword::Keyword;
use crate::sql::lexer::{lex_complete, lex_tokens, tokens_view, Lexer, Token, TokenView};
use crate::sql::operator::Operator;
use crate::types::DataType;
use vstd::prelude::*;
use vstd::string::*;

verus! {

/// The token at index `pos`, if there is one.
pub open spec fn token_at(t: Seq<TokenView>, pos: int) -> Option<TokenView> {
    if 0 <= pos < t.len() {
        Some(t[pos])
    } else {
        None
    }
}

/// The binary operator that a token stands for, if it stands for one.
pub open spec fn binary_op_of(token: Option<TokenView>) -> Option<Operator> {
    match token {
        Some(TokenView::Equal) => Some(Operator::Equal),
        Some(TokenView::NotEqual) => Some(Operator::NotEqual),
        Some(TokenView::GreaterThan) => Some(Operator::GreaterThan),
        Some(TokenView::LessThan) => Some(Operator::LessThan),
        Some(TokenView::GreaterThanEqual) => Some(Operator::GreaterThanEqual),
        Some(TokenView::LessThanEqual) => Some(Operator::LessThanEqual),
        Some(TokenView::Plus) => Some(Operator::Add),
        Some(TokenView::Minus) => Some(Operator::Subtract),
        Some(TokenView::Asterisk) => Some(Operator::Multiply),
        Some(TokenView::Slash) => Some(Operator::Divide),
        Some(TokenView::Keyword(Keyword::And)) => Some(Operator::And),
        Some(TokenView::Keyword(Keyword::Or)) => Some(Operator::Or),
        _ => None,
    }
}

/// `expr` with the `IS [NOT] (TRUE | FALSE | NULL)` that follows it at
/// `pos`, if one does; `None` where `IS` is followed by anything else.
pub open spec fn spec_postfix(t: Seq<TokenView>, pos: int, expr: ExprView) -> Option<
    (ExprView, int),
> {
    if token_at(t, pos) == Some(TokenView::Keyword(Keyword::Is)) {
        let is_negated = token_at(t, pos + 1) == Some(TokenView::Keyword(Keyword::Not));
        let at = if is_negated {
            pos + 2
        } else {
            pos + 1
        };
        match token_at(t, at) {
            Some(TokenView::Keyword(Keyword::True)) => Some(
                (
                    ExprView::Is { expr: Box::new(expr), predicate: IsPredicate::True, is_negated },
                    at + 1,
                ),
            ),
            Some(TokenView::Keyword(Keyword::False)) => Some(
                (
                    ExprView::Is { expr: Box::new(expr), predicate: IsPredicate::False, is_negated },
                    at + 1,
                ),
            ),
            Some(TokenView::Keyword(Keyword::Null)) => Some(
                (
                    ExprView::Is { expr: Box::new(expr), predicate: IsPredicate::Null, is_negated },
                    at + 1,
                ),
            ),
            _ => None,
        }
    } else {
        Some((expr, pos))
    }
}

/// The primary expression at `pos` with its postfix, and the index behind it.
pub open spec fn spec_primary(t: Seq<TokenView>, pos: int) -> Option<(ExprView, int)>
    decreases t.len() - pos, 0int,
{
    match token_at(t, pos) {
        Some(TokenView::Keyword(Keyword::True)) => spec_postfix(
            t,
            pos + 1,
            ExprView::Literal(LiteralView::Bool(true)),
        ),
        Some(TokenView::Keyword(Keyword::False)) => spec_postfix(
            t,
            pos + 1,
            ExprView::Literal(LiteralView::Bool(false)),
        ),
        Some(TokenView::Integer(i)) => spec_postfix(
            t,
            pos + 1,
            ExprView::Literal(LiteralView::Int64(i)),
        ),
        Some(TokenView::Float(f)) => spec_postfix(
            t,
            pos + 1,
            ExprView::Literal(LiteralView::Float64(f)),
        ),
        Some(TokenView::String(s)) => spec_postfix(
            t,
            pos + 1,
            ExprView::Literal(LiteralView::Text(s)),
        ),
        Some(TokenView::Identifier(i)) => spec_postfix(t, pos + 1, ExprView::Identifier(i)),
        Some(TokenView::Asterisk) => spec_postfix(t, pos + 1, ExprView::Identifier("*"@)),
        Some(TokenView::LeftParen) => match spec_expression(t, pos + 1, 0) {
            Some((inner, close)) => if pos < close && token_at(t, close) == Some(
                TokenView::RightParen,
            ) {
                spec_postfix(t, close + 1, inner)
            } else {
                None
            },
            None => None,
        },
        _ => None,
    }
}

/// The expression at `pos` whose operators all bind at least as tightly as
/// `min_prec`, and the index behind it.
pub open spec fn spec_expression(t: Seq<TokenView>, pos: int, min_prec: int) -> Option<
    (ExprView, int),
>
    decreases t.len() - pos, 2int,
{
    match spec_primary(t, pos) {
        Some((lhs, next)) => if pos < next <= t.len() {
            spec_climb(t, next, min_prec, lhs)
        } else {
            None
        },
        None => None,
    }
}

/// `lhs` extended by the operators from `pos` on that bind at least as
/// tightly as `min_prec`, each with the operand to its right. An operand
/// takes only operators that bind tighter than its own, so operators of one
/// level associate to the left.
pub open spec fn spec_climb(t: Seq<TokenView>, pos: int, min_prec: int, lhs: ExprView) -> Option<
    (ExprView, int),
>
    decreases t.len() - pos, 1int,
{
    match binary_op_of(token_at(t, pos)) {
        Some(op) => if op.binding_power() < min_prec {
            Some((lhs, pos))
        } else {
            match spec_expression(t, pos + 1, op.binding_power() + 1) {
                Some((rhs, next)) => if pos < next <= t.len() {
                    spec_climb(
                        t,
                        next,
                        min_prec,
                        ExprView::BinaryOp { left: Box::new(lhs), op, right: Box::new(rhs) },
                    )
                } else {
                    None
                },
                None => None,
            }
        },
        None => Some((lhs, pos)),
    }
}

/// The alias that follows a target expression at `pos`: `AS name`, or a bare
/// name; `Some(None)` where none follows; `None` where `AS` lacks its name.
pub open spec fn spec_alias(t: Seq<TokenView>, pos: int) -> Option<(Option<Seq<char>>, int)> {
    if token_at(t, pos) == Some(TokenView::Keyword(Keyword::As)) {
        match token_at(t, pos + 1) {
            Some(TokenView::Identifier(name)) => Some((Some(name), pos + 2)),
            _ => None,
        }
    } else {
        match token_at(t, pos) {
            Some(TokenView::Identifier(name)) => Some((Some(name), pos + 1)),
            _ => Some((None, pos)),
        }
    }
}

/// The targets from `pos` up to the keyword `FROM`, and the index of that keyword.
pub open spec fn spec_targets(t: Seq<TokenView>, pos: int) -> Option<(Seq<TargetView>, int)>
    decreases t.len() - pos,
{
    if token_at(t, pos) == Some(TokenView::Keyword(Keyword::From)) {
        Some((Seq::empty(), pos))
    } else {
        match spec_expression(t, pos, 0) {
            None => None,
            Some((expr, next)) => if !(pos < next <= t.len()) {
                None
            } else if expr == ExprView::Identifier("*"@) {
                match spec_targets(t, next) {
                    Some((rest, end)) => Some((seq![TargetView::Star] + rest, end)),
                    None => None,
                }
            } else {
                match spec_alias(t, next) {
                    None => None,
                    Some((alias, after)) => {
                        let resume = if token_at(t, after) == Some(TokenView::Comma) {
                            after + 1
                        } else {
                            after
                        };
                        match spec_targets(t, resume) {
                            Some((rest, end)) => Some(
                                (seq![TargetView::Expression { expr, alias }] + rest, end),
                            ),
                            None => None,
                        }
                    },
                }
            },
        }
    }
}

/// The statement `SELECT <targets> FROM <table> [WHERE <expr>]` at the start
/// of `t`. A token behind the table name that is not `WHERE` ends the statement.
pub open spec fn spec_select(t: Seq<TokenView>) -> Option<StatementView> {
    if token_at(t, 0) != Some(TokenView::Keyword(Keyword::Select)) {
        None
    } else {
        match spec_targets(t, 1) {
            None => None,
            Some((targets, from)) => match token_at(t, from + 1) {
                Some(TokenView::Identifier(table_name)) => if token_at(t, from + 2) == Some(
                    TokenView::Keyword(Keyword::Where),
                ) {
                    match spec_expression(t, from + 3, 0) {
                        Some((condition, _)) => Some(
                            StatementView::Select {
                                targets,
                                table_name,
                                condition: Some(condition),
                            },
                        ),
                        None => None,
                    }
                } else {
                    Some(StatementView::Select { targets, table_name, condition: None })
                },
                _ => None,
            },
        }
    }
}

/// The column type at `pos`, and the index behind it. `VARCHAR` takes a size
/// in parentheses, an integer that 32 bits can hold.
pub open spec fn spec_column_type(t: Seq<TokenView>, pos: int) -> Option<(DataType, int)> {
    match token_at(t, pos) {
        Some(TokenView::Keyword(Keyword::Integer)) => Some((DataType::Int64, pos + 1)),
        Some(TokenView::Keyword(Keyword::Float)) => Some((DataType::Float64, pos + 1)),
        Some(TokenView::Keyword(Keyword::Text)) => Some((DataType::Text, pos + 1)),
        Some(TokenView::Keyword(Keyword::Timestamp)) => Some((DataType::Timestamp, pos + 1)),
        Some(TokenView::Keyword(Keyword::Boolean)) => Some((DataType::Bool, pos + 1)),
        Some(TokenView::Keyword(Keyword::Varchar)) => if token_at(t, pos + 1) == Some(
            TokenView::LeftParen,
        ) && token_at(t, pos + 3) == Some(TokenView::RightParen) {
            match token_at(t, pos + 2) {
                Some(TokenView::Integer(size)) => if 0 <= size <= 0xffff_ffff {
                    Some((DataType::VarChar(size as u32), pos + 4))
                } else {
                    None
                },
                _ => None,
            }
        } else {
            None
        },
        _ => None,
    }
}

/// The constraints from `pos` up to a comma or a closing parenthesis, and
/// the index of that token.
pub open spec fn spec_constraints(t: Seq<TokenView>, pos: int) -> Option<
    (Seq<ColumnConstraint>, int),
>
    decreases t.len() - pos,
{
    if token_at(t, pos) == Some(TokenView::RightParen) || token_at(t, pos) == Some(
        TokenView::Comma,
    ) {
        Some((Seq::empty(), pos))
    } else {
        let step: Option<(ColumnConstraint, int)> = match token_at(t, pos) {
            Some(TokenView::Keyword(Keyword::Not)) => if token_at(t, pos + 1) == Some(
                TokenView::Keyword(Keyword::Null),
            ) {
                Some((ColumnConstraint::NotNull, pos + 2))
            } else {
                None
            },
            Some(TokenView::Keyword(Keyword::Primary)) => if token_at(t, pos + 1) == Some(
                TokenView::Keyword(Keyword::Key),
            ) {
                Some((ColumnConstraint::PrimaryKey, pos + 2))
            } else {
                None
            },
            Some(TokenView::Keyword(Keyword::Unique)) => Some((ColumnConstraint::Unique, pos + 1)),
            _ => None,
        };
        match step {
            None => None,
            Some((constraint, next)) => if next <= t.len() {
                match spec_constraints(t, next) {
                    Some((rest, end)) => Some((seq![constraint] + rest, end)),
                    None => None,
                }
            } else {
                None
            },
        }
    }
}

/// The column definition at `pos`: a name, a type and constraints, with the
/// comma behind them, if there is one; and the index behind it all.
pub open spec fn spec_column(t: Seq<TokenView>, pos: int) -> Option<(ColumnDefinitionView, int)> {
    match token_at(t, pos) {
        Some(TokenView::Identifier(name)) => match spec_column_type(t, pos + 1) {
            None => None,
            Some((data_type, next)) => match spec_constraints(t, next) {
                None => None,
                Some((constraints, end)) => Some(
                    (
                        ColumnDefinitionView { name, data_type, constraints },
                        if token_at(t, end) == Some(TokenView::Comma) {
                            end + 1
                        } else {
                            end
                        },
                    ),
                ),
            },
        },
        _ => None,
    }
}

/// The column definitions from `pos` up to the closing parenthesis.
pub open spec fn spec_columns(t: Seq<TokenView>, pos: int) -> Option<Seq<ColumnDefinitionView>>
    decreases t.len() - pos,
{
    if token_at(t, pos) == Some(TokenView::RightParen) {
        Some(Seq::empty())
    } else {
        match spec_column(t, pos) {
            None => None,
            Some((column, next)) => if pos < next <= t.len() {
                match spec_columns(t, next) {
                    Some(rest) => Some(seq![column] + rest),
                    None => None,
                }
            } else {
                None
            },
        }
    }
}

/// The statement `CREATE TABLE <name> ( <columns> )` at the start of `t`.
pub open spec fn spec_create(t: Seq<TokenView>) -> Option<StatementView> {
    if token_at(t, 0) == Some(TokenView::Keyword(Keyword::Create)) && token_at(t, 1) == Some(
        TokenView::Keyword(Keyword::Table),
    ) && token_at(t, 3) == Some(TokenView::LeftParen) {
        match token_at(t, 2) {
            Some(TokenView::Identifier(table_name)) => match spec_columns(t, 4) {
                Some(columns) => Some(
                    StatementView::Create { table_name, if_not_exists: false, columns },
                ),
                None => None,
            },
            _ => None,
        }
    } else {
        None
    }
}

/// The statement at the start of `t`: a `SELECT` or a `CREATE TABLE`.
pub open spec fn spec_statement(t: Seq<TokenView>) -> Option<StatementView> {
    match token_at(t, 0) {
        Some(TokenView::Keyword(Keyword::Select)) => spec_select(t),
        Some(TokenView::Keyword(Keyword::Create)) => spec_create(t),
        _ => None,
    }
}

fn invalid(message: &str) -> (e: DatabaseError)
    ensures
        e is InvalidQuery,
{
    DatabaseError::InvalidQuery(message.to_owned())
}

/// A parser over the tokens of one query.
pub struct SqlParser {
    /// The tokens of the query, up to its end or to the first place where
    /// no token starts.
    pub tokens: Vec<Token>,
    /// Whether the tokens end at a place where no token starts, and not at
    /// the end of the query.
    pub lexer_failed: bool,
    /// The index of the next token.
    pub position: usize,
}

impl SqlParser {
    /// The parser invariant: the position lies within the tokens.
    pub open spec fn wf(self) -> bool {
        self.position <= self.tokens@.len()
    }

    /// The contents of the tokens.
    pub open spec fn stream(self) -> Seq<TokenView> {
        tokens_view(self.tokens@)
    }

    /// A parser for `query`, at its first token.
    pub fn new(query: &str) -> (parser: Self)
        ensures
            parser.wf(),
            parser.position == 0,
            parser.stream() == lex_tokens(query@, 0),
            parser.lexer_failed == !lex_complete(query@, 0),
    {
        let mut lexer = Lexer::new(query);
        let (tokens, error) = lexer.collect();
        Self { tokens, lexer_failed: error.is_some(), position: 0 }
    }

    /// The next token, which stays where it is.
    fn peek(&self) -> (token: Option<&Token>)
        requires
            self.wf(),
        ensures
            match token {
                Some(t) => token_at(self.stream(), self.position as int) == Some(t@),
                None => token_at(self.stream(), self.position as int) is None,
            },
    {
        if self.position < self.tokens.len() {
            Some(&self.tokens[self.position])
        } else {
            None
        }
    }

    /// Steps over the next token.
    fn advance(&mut self)
        requires
            old(self).wf(),
            old(self).position < old(self).tokens@.len(),
        ensures
            final(self).wf(),
            final(self).tokens == old(self).tokens,
            final(self).lexer_failed == old(self).lexer_failed,
            final(self).position == old(self).position + 1,
    {
        let _n: usize = self.tokens.len();
        self.position = self.position + 1;
    }

    /// Whether the next token is the keyword `expected`.
    pub fn peek_keyword(&self, expected: Keyword) -> (is: bool)
        requires
            self.wf(),
        ensures
            is == (token_at(self.stream(), self.position as int) == Some(
                TokenView::Keyword(expected),
            )),
    {
        match self.peek() {
            Some(Token::Keyword(kw)) => *kw == expected,
            _ => false,
        }
    }

    /// Steps over the next token if it is the keyword `expected`.
    fn consume_keyword(&mut self, expected: Keyword) -> (consumed: bool)
        requires
            old(self).wf(),
        ensures
            final(self).wf(),
            final(self).tokens == old(self).tokens,
            final(self).lexer_failed == old(self).lexer_failed,
            consumed == (token_at(old(self).stream(), old(self).position as int) == Some(
                TokenView::Keyword(expected),
            )),
            final(self).position == old(self).position + if consumed {
                1int
            } else {
                0int
            },
    {
        if self.peek_keyword(expected) {
            self.advance();
            true
        } else {
            false
        }
    }

    /// Whether the next token is one without content of the kind of `expected`.
    fn peek_is(&self, expected: &Token) -> (is: bool)
        requires
            self.wf(),
            expected@ is Comma || expected@ is LeftParen || expected@ is RightParen,
        ensures
            is == (token_at(self.stream(), self.position as int) == Some(expected@)),
    {
        match (self.peek(), expected) {
            (Some(Token::Comma), Token::Comma) => true,
            (Some(Token::LeftParen), Token::LeftParen) => true,
            (Some(Token::RightParen), Token::RightParen) => true,
            _ => false,
        }
    }

    /// Steps over the next token if it is of the kind of `expected`.
    fn consume_if(&mut self, expected: &Token) -> (consumed: bool)
        requires
            old(self).wf(),
            expected@ is Comma || expected@ is LeftParen || expected@ is RightParen,
        ensures
            final(self).wf(),
            final(self).tokens == old(self).tokens,
            final(self).lexer_failed == old(self).lexer_failed,
            consumed == (token_at(old(self).stream(), old(self).position as int) == Some(
                expected@,
            )),
            final(self).position == old(self).position + if consumed {
                1int
            } else {
                0int
            },
    {
        if self.peek_is(expected) {
            self.advance();
            true
        } else {
            false
        }
    }

    /// Steps over the next token, which must be an identifier, and gives its name.
    fn expect_identifier(&mut self) -> (r: Result<String, DatabaseError>)
        requires
            old(self).wf(),
        ensures
            final(self).wf(),
            final(self).tokens == old(self).tokens,
            final(self).lexer_failed == old(self).lexer_failed,
            match token_at(old(self).stream(), old(self).position as int) {
                Some(TokenView::Identifier(name)) => r matches Ok(s) && s@ == name
                    && final(self).position == old(self).position + 1,
                _ => r matches Err(DatabaseError::InvalidQuery(_)),
            },
    {
        match self.peek() {
            Some(Token::Identifier(name)) => {
                let name = name.clone();
                self.advance();
                Ok(name)
            },
            _ => Err(invalid("Expected IDENTIFIER")),
        }
    }

    /// The `IS [NOT] (TRUE | FALSE | NULL)` that may follow `expr`.
    fn parse_is_postfix(&mut self, expr: Expression) -> (r: Result<Expression, DatabaseError>)
        requires
            old(self).wf(),
        ensures
            final(self).wf(),
            final(self).tokens == old(self).tokens,
            final(self).lexer_failed == old(self).lexer_failed,
            match spec_postfix(old(self).stream(), old(self).position as int, expr@) {
                Some((v, next)) => r matches Ok(x) && x@ == v && final(self).position == next
                    && old(self).position <= next,
                None => r matches Err(DatabaseError::InvalidQuery(_)),
            },
    {
        if !self.consume_keyword(Keyword::Is) {
            return Ok(expr);
        }
        let is_negated: bool = self.consume_keyword(Keyword::Not);
        let predicate = match self.peek() {
            Some(Token::Keyword(Keyword::True)) => IsPredicate::True,
            Some(Token::Keyword(Keyword::False)) => IsPredicate::False,
            Some(Token::Keyword(Keyword::Null)) => IsPredicate::Null,
            _ => {
                return Err(invalid("Expected TRUE/FALSE/NULL after IS"));
            },
        };
        self.advance();
        let ghost inner = expr@;
        let out = Expression::Is { expr: Box::new(expr), predicate, is_negated };
        assert(out@ == ExprView::Is { expr: Box::new(inner), predicate, is_negated });
        Ok(out)
    }

    /// A literal, a column, `*` or an expression in parentheses, with the
    /// `IS` test that may follow it.
    fn parse_primary(&mut self) -> (r: Result<Expression, DatabaseError>)
        requires
            old(self).wf(),
        ensures
            final(self).wf(),
            final(self).tokens == old(self).tokens,
            final(self).lexer_failed == old(self).lexer_failed,
            match spec_primary(old(self).stream(), old(self).position as int) {
                Some((v, next)) => r matches Ok(x) && x@ == v && final(self).position == next
                    && old(self).position < next,
                None => r matches Err(DatabaseError::InvalidQuery(_)),
            },
        decreases old(self).tokens@.len() - old(self).position, 0int,
    {
        let expr = match self.peek() {
            Some(Token::Keyword(Keyword::True)) => Expression::Literal(Literal::Bool(true)),
            Some(Token::Keyword(Keyword::False)) => Expression::Literal(Literal::Bool(false)),
            Some(Token::Integer(i)) => Expression::Literal(Literal::Int64(*i)),
            Some(Token::Float(f)) => Expression::Literal(Literal::Float64(f.clone())),
            Some(Token::String(s)) => Expression::Literal(Literal::Text(s.clone())),
            Some(Token::Identifier(i)) => Expression::Identifier(i.clone()),
            Some(Token::Asterisk) => Expression::Identifier("*".to_owned()),
            Some(Token::LeftParen) => {
                self.advance();
                let inner = match self.parse_expression(0) {
                    Ok(e) => e,
                    Err(e) => {
                        return Err(e);
                    },
                };
                if !self.consume_if(&Token::RightParen) {
                    return Err(invalid("Expected ')'"));
                }
                return self.parse_is_postfix(inner);
            },
            _ => {
                return Err(invalid("Expected a column or value"));
            },
        };
        self.advance();
        self.parse_is_postfix(expr)
    }

    /// An expression whose operators all bind at least as tightly as `min_prec`.
    fn parse_expression(&mut self, min_prec: u8) -> (r: Result<Expression, DatabaseError>)
        requires
            old(self).wf(),
        ensures
            final(self).wf(),
            final(self).tokens == old(self).tokens,
            final(self).lexer_failed == old(self).lexer_failed,
            match spec_expression(old(self).stream(), old(self).position as int, min_prec as int) {
                Some((v, next)) => r matches Ok(x) && x@ == v && final(self).position == next
                    && old(self).position < next,
                None => r matches Err(DatabaseError::InvalidQuery(_)),
            },
        decreases old(self).tokens@.len() - old(self).position, 2int,
    {
        let ghost t = self.stream();
        let ghost start = self.position as int;
        let mut lhs = match self.parse_primary() {
            Ok(e) => e,
            Err(e) => {
                return Err(e);
            },
        };
        loop
            invariant
                self.wf(),
                self.tokens == old(self).tokens,
                self.lexer_failed == old(self).lexer_failed,
                t == old(self).stream(),
                start == old(self).position,
                start < self.position,
                spec_expression(t, start, min_prec as int) == spec_climb(
                    t,
                    self.position as int,
                    min_prec as int,
                    lhs@,
                ),
            ensures
                spec_expression(t, start, min_prec as int) == Some((lhs@, self.position as int)),
            decreases self.tokens@.len() - self.position,
        {
            let op = match self.peek_binary_op() {
                Some(op) => op,
                None => {
                    break ;
                },
            };
            if op.precedence() < min_prec {
                break ;
            }
            self.advance();
            let rhs = match self.parse_expression(op.precedence() + 1) {
                Ok(e) => e,
                Err(e) => {
                    return Err(e);
                },
            };
            let ghost l = lhs@;
            let ghost r = rhs@;
            lhs = Expression::BinaryOp { left: Box::new(lhs), op, right: Box::new(rhs) };
            assert(lhs@ == ExprView::BinaryOp { left: Box::new(l), op, right: Box::new(r) });
        }
        Ok(lhs)
    }

    /// The binary operator that the next token stands for.
    fn peek_binary_op(&self) -> (op: Option<Operator>)
        requires
            self.wf(),
        ensures
            op == binary_op_of(token_at(self.stream(), self.position as int)),
            op is Some ==> self.position < self.tokens@.len(),
    {
        match self.peek() {
            Some(Token::Equal) => Some(Operator::Equal),
            Some(Token::NotEqual) => Some(Operator::NotEqual),
            Some(Token::GreaterThan) => Some(Operator::GreaterThan),
            Some(Token::LessThan) => Some(Operator::LessThan),
            Some(Token::GreaterThanEqual) => Some(Operator::GreaterThanEqual),
            Some(Token::LessThanEqual) => Some(Operator::LessThanEqual),
            Some(Token::Plus) => Some(Operator::Add),
            Some(Token::Minus) => Some(Operator::Subtract),
            Some(Token::Asterisk) => Some(Operator::Multiply),
            Some(Token::Slash) => Some(Operator::Divide),
            Some(Token::Keyword(Keyword::And)) => Some(Operator::And),
            Some(Token::Keyword(Keyword::Or)) => Some(Operator::Or),
            _ => None,
        }
    }

    /// The alias that may follow a target expression.
    fn parse_alias(&mut self) -> (r: Result<Option<String>, DatabaseError>)
        requires
            old(self).wf(),
        ensures
            final(self).wf(),
            final(self).tokens == old(self).tokens,
            final(self).lexer_failed == old(self).lexer_failed,
            match spec_alias(old(self).stream(), old(self).position as int) {
                Some((alias, next)) => r matches Ok(a) && final(self).position == next && (match (
                    a,
                    alias,
                ) {
                    (Some(x), Some(y)) => x@ == y,
                    (None, None) => true,
                    _ => false,
                }),
                None => r matches Err(DatabaseError::InvalidQuery(_)),
            },
    {
        if self.consume_keyword(Keyword::As) {
            match self.expect_identifier() {
                Ok(name) => Ok(Some(name)),
                Err(e) => Err(e),
            }
        } else {
            match self.peek() {
                Some(Token::Identifier(_)) => match self.expect_identifier() {
                    Ok(name) => Ok(Some(name)),
                    Err(e) => Err(e),
                },
                _ => Ok(None),
            }
        }
    }

    /// The target list, up to the keyword `FROM`.
    #[verifier::loop_isolation(false)]
    fn parse_targets(&mut self) -> (r: Result<SelectList, DatabaseError>)
        requires
            old(self).wf(),
        ensures
            final(self).wf(),
            final(self).tokens == old(self).tokens,
            final(self).lexer_failed == old(self).lexer_failed,
            match spec_targets(old(self).stream(), old(self).position as int) {
                Some((targets, next)) => r matches Ok(list) && list@ == targets
                    && final(self).position == next && token_at(
                    old(self).stream(),
                    next,
                ) == Some(TokenView::Keyword(Keyword::From)),
                None => r matches Err(DatabaseError::InvalidQuery(_)),
            },
    {
        let ghost t = self.stream();
        let ghost start = self.position as int;
        let mut columns: Vec<SelectTarget> = Vec::new();
        while !self.peek_keyword(Keyword::From)
            invariant
                self.wf(),
                self.tokens == old(self).tokens,
                self.lexer_failed == old(self).lexer_failed,
                t == old(self).stream(),
                start == old(self).position,
                spec_targets(t, start) == match spec_targets(t, self.position as int) {
                    Some((rest, end)) => Some((targets_view(columns@) + rest, end)),
                    None => None,
                },
            decreases self.tokens@.len() - self.position,
        {
            let ghost done = targets_view(columns@);
            let ghost here = self.position as int;
            let expr = match self.parse_expression(0) {
                Ok(e) => e,
                Err(e) => {
                    return Err(e);
                },
            };
            let ghost ev = expr@;
            let is_star: bool = match &expr {
                Expression::Identifier(name) => crate::text::str_eq(name.as_str(), "*"),
                _ => false,
            };
            if is_star {
                columns.push(SelectTarget::Star);
                proof {
                    assert(targets_view(columns@) =~= done + seq![TargetView::Star]);
                    lemma_targets_join(done, TargetView::Star, spec_targets(t, self.position as int));
                }
                continue ;
            }
            let alias = match self.parse_alias() {
                Ok(a) => a,
                Err(e) => {
                    return Err(e);
                },
            };
            let target = SelectTarget::Expression { expr, alias };
            let ghost tv = target@;
            columns.push(target);
            self.consume_if(&Token::Comma);
            proof {
                assert(targets_view(columns@) =~= done + seq![tv]);
                lemma_targets_join(done, tv, spec_targets(t, self.position as int));
            }
        }
        let list = SelectList(columns);
        assert(list@ =~= targets_view(columns@) + Seq::<TargetView>::empty());
        Ok(list)
    }

    fn parse_select_statement(&mut self) -> (r: Result<Statement, DatabaseError>)
        requires
            old(self).wf(),
            old(self).position == 0,
        ensures
            final(self).wf(),
            final(self).tokens == old(self).tokens,
            final(self).lexer_failed == old(self).lexer_failed,
            match spec_select(old(self).stream()) {
                Some(statement) => r matches Ok(s) && s@ == statement,
                None => r matches Err(DatabaseError::InvalidQuery(_)),
            },
    {
        if !self.consume_keyword(Keyword::Select) {
            return Err(invalid("Expected SELECT"));
        }
        let select_list = match self.parse_targets() {
            Ok(list) => list,
            Err(e) => {
                return Err(e);
            },
        };
        if !self.consume_keyword(Keyword::From) {
            return Err(invalid("Expected FROM"));
        }
        let table_name = match self.expect_identifier() {
            Ok(name) => name,
            Err(e) => {
                return Err(e);
            },
        };
        let where_clause = if self.consume_keyword(Keyword::Where) {
            match self.parse_expression(0) {
                Ok(e) => Some(e),
                Err(e) => {
                    return Err(e);
                },
            }
        } else {
            None
        };
        Ok(
            Statement::Select(
                SelectStatement { select_list, from_clause: FromClause { table_name }, where_clause },
            ),
        )
    }

    /// The type of a column.
    fn parse_column_type(&mut self) -> (r: Result<DataType, DatabaseError>)
        requires
            old(self).wf(),
        ensures
            final(self).wf(),
            final(self).tokens == old(self).tokens,
            final(self).lexer_failed == old(self).lexer_failed,
            match spec_column_type(old(self).stream(), old(self).position as int) {
                Some((data_type, next)) => r == Ok::<DataType, DatabaseError>(data_type)
                    && final(self).position == next && old(self).position < next,
                None => r matches Err(DatabaseError::InvalidQuery(_)),
            },
    {
        let data_type = match self.peek() {
            Some(Token::Keyword(Keyword::Integer)) => DataType::Int64,
            Some(Token::Keyword(Keyword::Float)) => DataType::Float64,
            Some(Token::Keyword(Keyword::Text)) => DataType::Text,
            Some(Token::Keyword(Keyword::Timestamp)) => DataType::Timestamp,
            Some(Token::Keyword(Keyword::Boolean)) => DataType::Bool,
            Some(Token::Keyword(Keyword::Varchar)) => {
                self.advance();
                if !self.consume_if(&Token::LeftParen) {
                    return Err(invalid("Expected '(' after VARCHAR"));
                }
                let size: i64 = match self.peek() {
                    Some(Token::Integer(n)) => *n,
                    _ => {
                        return Err(invalid("Expected integer"));
                    },
                };
                if size < 0 || size > 0xffff_ffff {
                    return Err(invalid("VARCHAR size is out of range"));
                }
                self.advance();
                if !self.consume_if(&Token::RightParen) {
                    return Err(invalid("Expected ')' after VARCHAR size"));
                }
                return Ok(DataType::VarChar(size as u32));
            },
            _ => {
                return Err(invalid("Expected a column type."));
            },
        };
        self.advance();
        Ok(data_type)
    }

    /// One column of a `CREATE TABLE`: a name, a type, and constraints.
    #[verifier::loop_isolation(false)]
    fn parse_column_definition(&mut self) -> (r: Result<ColumnDefinition, DatabaseError>)
        requires
            old(self).wf(),
        ensures
            final(self).wf(),
            final(self).tokens == old(self).tokens,
            final(self).lexer_failed == old(self).lexer_failed,
            match spec_column(old(self).stream(), old(self).position as int) {
                Some((column, next)) => r matches Ok(c) && c@ == column && final(self).position
                    == next && old(self).position < next,
                None => r matches Err(DatabaseError::InvalidQuery(_)),
            },
    {
        let ghost t = self.stream();
        let name = match self.expect_identifier() {
            Ok(name) => name,
            Err(e) => {
                return Err(e);
            },
        };
        let data_type = match self.parse_column_type() {
            Ok(data_type) => data_type,
            Err(e) => {
                return Err(e);
            },
        };
        let ghost start = self.position as int;
        let mut constraints: Vec<ColumnConstraint> = Vec::new();
        while !self.peek_is(&Token::RightParen) && !self.peek_is(&Token::Comma)
            invariant
                self.wf(),
                self.tokens == old(self).tokens,
                self.lexer_failed == old(self).lexer_failed,
                t == old(self).stream(),
                start <= self.position,
                spec_constraints(t, start) == match spec_constraints(t, self.position as int) {
                    Some((rest, end)) => Some((constraints@ + rest, end)),
                    None => None,
                },
            decreases self.tokens@.len() - self.position,
        {
            let ghost done = constraints@;
            let constraint = match self.peek() {
                Some(Token::Keyword(Keyword::Not)) => {
                    self.advance();
                    if self.consume_keyword(Keyword::Null) {
                        ColumnConstraint::NotNull
                    } else {
                        return Err(invalid("Expected 'NULL' after 'NOT'"));
                    }
                },
                Some(Token::Keyword(Keyword::Primary)) => {
                    self.advance();
                    if self.consume_keyword(Keyword::Key) {
                        ColumnConstraint::PrimaryKey
                    } else {
                        return Err(invalid("Expected 'KEY' after 'PRIMARY'"));
                    }
                },
                Some(Token::Keyword(Keyword::Unique)) => {
                    self.advance();
                    ColumnConstraint::Unique
                },
                _ => {
                    return Err(invalid("Unexpected token while parsing constraints"));
                },
            };
            constraints.push(constraint);
            proof {
                let tail = spec_constraints(t, self.position as int);
                if let Some((rest, end)) = tail {
                    assert(done + (seq![constraint] + rest) =~= constraints@ + rest);
                }
            }
        }
        assert(constraints@ + Seq::<ColumnConstraint>::empty() =~= constraints@);
        self.consume_if(&Token::Comma);
        Ok(ColumnDefinition { name, data_type, constraints })
    }

    #[verifier::loop_isolation(false)]
    fn parse_create_statement(&mut self) -> (r: Result<Statement, DatabaseError>)
        requires
            old(self).wf(),
            old(self).position == 0,
        ensures
            final(self).wf(),
            final(self).tokens == old(self).tokens,
            final(self).lexer_failed == old(self).lexer_failed,
            match spec_create(old(self).stream()) {
                Some(statement) => r matches Ok(s) && s@ == statement,
                None => r matches Err(DatabaseError::InvalidQuery(_)),
            },
    {
        let ghost t = self.stream();
        if !self.consume_keyword(Keyword::Create) {
            return Err(invalid("Expected CREATE"));
        }
        if !self.consume_keyword(Keyword::Table) {
            return Err(invalid("Expected TABLE"));
        }
        let table_name = match self.expect_identifier() {
            Ok(name) => name,
            Err(e) => {
                return Err(e);
            },
        };
        if !self.consume_if(&Token::LeftParen) {
            return Err(invalid("Expected '('"));
        }
        let mut columns: Vec<ColumnDefinition> = Vec::new();
        while !self.peek_is(&Token::RightParen)
            invariant
                self.wf(),
                self.tokens == old(self).tokens,
                self.lexer_failed == old(self).lexer_failed,
                t == old(self).stream(),
                spec_columns(t, 4) == match spec_columns(t, self.position as int) {
                    Some(rest) => Some(columns_view(columns@) + rest),
                    None => None,
                },
            decreases self.tokens@.len() - self.position,
        {
            let ghost done = columns_view(columns@);
            let column = match self.parse_column_definition() {
                Ok(c) => c,
                Err(e) => {
                    return Err(e);
                },
            };
            let ghost cv = column@;
            columns.push(column);
            proof {
                assert(columns_view(columns@) =~= done + seq![cv]);
                if let Some(rest) = spec_columns(t, self.position as int) {
                    assert(done + (seq![cv] + rest) =~= (done + seq![cv]) + rest);
                }
            }
        }
        self.advance();
        assert(columns_view(columns@) + Seq::<ColumnDefinitionView>::empty() =~= columns_view(
            columns@,
        ));
        let statement = Statement::Create(
            CreateStatement { table_name, if_not_exists: false, columns },
        );
        assert(statement@->Create_columns =~= columns_view(columns@));
        Ok(statement)
    }

    /// Parses the query, from its first token on, into a statement: a
    /// `SELECT` or a `CREATE TABLE`.
    ///
    /// Fails with `InvalidQuery` where the tokens make no such statement.
    /// Tokens behind a complete statement are not looked at.
    pub fn parse(&mut self) -> (r: Result<Statement, DatabaseError>)
        requires
            old(self).wf(),
        ensures
            final(self).wf(),
            final(self).tokens == old(self).tokens,
            match spec_statement(old(self).stream()) {
                Some(statement) => r matches Ok(s) && s@ == statement,
                None => r matches Err(DatabaseError::InvalidQuery(_)),
            },
    {
        self.position = 0;
        match self.peek() {
            Some(Token::Keyword(Keyword::Select)) => self.parse_select_statement(),
            Some(Token::Keyword(Keyword::Create)) => self.parse_create_statement(),
            Some(_) => Err(invalid("Unexpected token at the start of the statement")),
            None => if self.lexer_failed {
                Err(invalid("Lexer error occurred"))
            } else {
                Err(invalid("Unexpected end of input"))
            },
        }
    }
}

/// The contents of a vector of targets.
pub open spec fn targets_view(targets: Seq<SelectTarget>) -> Seq<TargetView> {
    Seq::new(targets.len(), |i: int| targets[i]@)
}

/// The contents of a vector of column definitions.
pub open spec fn columns_view(columns: Seq<ColumnDefinition>) -> Seq<ColumnDefinitionView> {
    Seq::new(columns.len(), |i: int| columns[i]@)
}

proof fn lemma_targets_join(done: Seq<TargetView>, v: TargetView, tail: Option<(Seq<TargetView>, int)>)
    ensures
        (match tail {
            Some((rest, end)) => Some((done + (seq![v] + rest), end)),
            None => None,
        }) == (match tail {
            Some((rest, end)) => Some(((done + seq![v]) + rest, end)),
            None => None::<(Seq<TargetView>, int)>,
        }),
{
    if let Some((rest, end)) = tail {
        assert(done + (seq![v] + rest) =~= (done + seq![v]) + rest);
    }
}

/// Operator precedence: `a + b * c` is the sum of `a` and the product of
/// `b` and `c`, and `a * b + c` is the sum of the product of `a` and `b`,
/// and `c`.
pub proof fn lemma_precedence(a: Seq<char>, b: Seq<char>, c: Seq<char>)
    ensures
        spec_expression(
            seq![
                TokenView::Identifier(a),
                TokenView::Plus,
                TokenView::Identifier(b),
                TokenView::Asterisk,
                TokenView::Identifier(c),
            ],
            0,
            0,
        ) == Some(
            (
                ExprView::BinaryOp {
                    left: Box::new(ExprView::Identifier(a)),
                    op: Operator::Add,
                    right: Box::new(
                        ExprView::BinaryOp {
                            left: Box::new(ExprView::Identifier(b)),
                            op: Operator::Multiply,
                            right: Box::new(ExprView::Identifier(c)),
                        },
                    ),
                },
                5int,
            ),
        ),
        spec_expression(
            seq![
                TokenView::Identifier(a),
                TokenView::Asterisk,
                TokenView::Identifier(b),
                TokenView::Plus,
                TokenView::Identifier(c),
            ],
            0,
            0,
        ) == Some(
            (
                ExprView::BinaryOp {
                    left: Box::new(
                        ExprView::BinaryOp {
                            left: Box::new(ExprView::Identifier(a)),
                            op: Operator::Multiply,
                            right: Box::new(ExprView::Identifier(b)),
                        },
                    ),
                    op: Operator::Add,
                    right: Box::new(ExprView::Identifier(c)),
                },
                5int,
            ),
        ),
{
    reveal_with_fuel(spec_expression, 8);
    reveal_with_fuel(spec_climb, 8);
    reveal_with_fuel(spec_primary, 8);
    let first = seq![
        TokenView::Identifier(a),
        TokenView::Plus,
        TokenView::Identifier(b),
        TokenView::Asterisk,
        TokenView::Identifier(c),
    ];
    let second = seq![
        TokenView::Identifier(a),
        TokenView::Asterisk,
        TokenView::Identifier(b),
        TokenView::Plus,
        TokenView::Identifier(c),
    ];
    assert(first.len() == 5 && second.len() == 5);
    assert(spec_primary(first, 4) == Some((ExprView::Identifier(c), 5int)));
    assert(spec_expression(first, 4, 11) == Some((ExprView::Identifier(c), 5int)));
    assert(spec_primary(first, 2) == Some((ExprView::Identifier(b), 3int)));
    assert(spec_expression(first, 2, 8) == Some(
        (
            ExprView::BinaryOp {
                left: Box::new(ExprView::Identifier(b)),
                op: Operator::Multiply,
                right: Box::new(ExprView::Identifier(c)),
            },
            5int,
        ),
    ));
    assert(spec_primary(first, 0) == Some((ExprView::Identifier(a), 1int)));
    assert(spec_primary(second, 4) == Some((ExprView::Identifier(c), 5int)));
    assert(spec_expression(second, 4, 8) == Some((ExprView::Identifier(c), 5int)));
    assert(spec_primary(second, 2) == Some((ExprView::Identifier(b), 3int)));
    assert(spec_expression(second, 2, 11) == Some((ExprView::Identifier(b), 3int)));
    assert(spec_primary(second, 0) == Some((ExprView::Identifier(a), 1int)));
}

/// Parses one query into a statement.
///
/// Fails with `InvalidQuery` where the tokens of the query make no
/// statement. Where the tokens end because a character starts no token, and
/// the statement was complete before, the statement stands.
pub fn parse_query(query: &str) -> (r: Result<Statement, DatabaseError>)
    ensures
        match spec_statement(lex_tokens(query@, 0)) {
            Some(statement) => r matches Ok(s) && s@ == statement,
            None => r matches Err(DatabaseError::InvalidQuery(_)),
        },
{
    let mut parser = SqlParser::new(query);
    parser.parse()
}

} // verus!
