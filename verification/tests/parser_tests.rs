use scuttle_db::sql::ast::{
    ColumnConstraint, ColumnDefinition, CreateStatement, Expression, FromClause, IsPredicate,
    Literal, SelectStatement, SelectTarget, Statement,
};
use scuttle_db::sql::operator::Operator;
use scuttle_db::sql::parser::{parse_query, SqlParser};
use scuttle_db::{DataType, DatabaseError};

fn parse(query: &str) -> Statement {
    let mut parser = SqlParser::new(query);
    parser.parse().expect("Failed to parse query")
}

fn parse_where(query: &str) -> Expression {
    match parse(query) {
        Statement::Select(SelectStatement {
            where_clause: Some(expr),
            ..
        }) => expr,
        _ => panic!("Expected SELECT with WHERE clause"),
    }
}

fn identifier(name: &str) -> Expression {
    Expression::Identifier(name.to_string())
}

fn binary(left: Expression, op: Operator, right: Expression) -> Expression {
    Expression::BinaryOp {
        left: Box::new(left),
        op,
        right: Box::new(right),
    }
}

fn column_names(statement: &Statement) -> Vec<String> {
    match statement {
        Statement::Select(select) => select
            .select_list
            .0
            .iter()
            .map(|target| match target {
                SelectTarget::Star => "*".to_string(),
                SelectTarget::Expression { expr, .. } => expr.to_column_name().to_string(),
            })
            .collect(),
        _ => panic!("Expected Select statement"),
    }
}

#[test]
fn test_parse_select() {
    let mut parser = SqlParser::new("SELECT * FROM users");
    let stmt = parser.parse().unwrap();

    match stmt {
        Statement::Select(select) => {
            assert_eq!(select.select_list.0, vec![SelectTarget::Star]);
            assert_eq!(select.from_clause.table_name, "users".to_string());
        }
        _ => panic!("Expected Select statement"),
    }
}

#[test]
fn parser_test_parse_select() {
    let stmt = parse_query("SELECT * FROM users").unwrap();

    assert_eq!(column_names(&stmt), vec!["*".to_string()]);
    assert_eq!(stmt.table_name(), "users");
}

#[test]
fn test_parse_select_with_columns() {
    let mut parser = SqlParser::new("SELECT id, name FROM users");
    let stmt = parser.parse().unwrap();

    assert_eq!(
        column_names(&stmt),
        vec!["id".to_string(), "name".to_string()]
    );
    assert_eq!(stmt.table_name(), "users".to_string());
}

#[test]
fn parser_test_parse_select_with_columns() {
    let stmt = parse_query("SELECT id, name FROM users").unwrap();

    match stmt {
        Statement::Select(select) => {
            assert_eq!(
                select.select_list.0,
                vec![
                    SelectTarget::Expression {
                        expr: identifier("id"),
                        alias: None,
                    },
                    SelectTarget::Expression {
                        expr: identifier("name"),
                        alias: None,
                    },
                ]
            );
            assert_eq!(select.from_clause.table_name, "users".to_string());
        }
        _ => panic!("Expected Select statement"),
    }
}

#[test]
fn test_parser_select_with_where_clause() {
    let mut parser = SqlParser::new("SELECT * FROM users WHERE id = 1");
    let stmt = parser.parse().unwrap();

    match stmt {
        Statement::Select(select) => {
            assert_eq!(select.select_list.0, vec![SelectTarget::Star]);
            assert_eq!(select.from_clause.table_name, "users".to_string());
            assert!(select.where_clause.is_some());
            assert_eq!(
                select.where_clause,
                Some(binary(
                    identifier("id"),
                    Operator::Equal,
                    Expression::Literal(Literal::Int64(1)),
                ))
            );
        }
        _ => panic!("Expected Select statement"),
    }
}

#[test]
fn parser_test_parser_select_with_where_clause() {
    let stmt = parse_query("SELECT * FROM users WHERE id = 1").unwrap();

    assert_eq!(column_names(&stmt), vec!["*".to_string()]);
    assert_eq!(stmt.table_name(), "users");
    assert_eq!(
        parse_where("SELECT * FROM users WHERE id = 1"),
        binary(
            identifier("id"),
            Operator::Equal,
            Expression::Literal(Literal::Int64(1)),
        )
    );
}

#[test]
fn test_parser_select_with_where_clause_gt() {
    let mut parser = SqlParser::new("SELECT * FROM users WHERE id > 1");
    let stmt = parser.parse().unwrap();

    match stmt {
        Statement::Select(select) => {
            assert_eq!(select.select_list.0, vec![SelectTarget::Star]);
            assert_eq!(select.from_clause.table_name, "users".to_string());
            assert!(select.where_clause.is_some());
            assert_eq!(
                select.where_clause,
                Some(binary(
                    identifier("id"),
                    Operator::GreaterThan,
                    Expression::Literal(Literal::Int64(1)),
                ))
            );
        }
        _ => panic!("Expected Select statement"),
    }
}

#[test]
fn test_parse_select_all() {
    match parse("SELECT * FROM users") {
        Statement::Select(SelectStatement {
            select_list,
            from_clause,
            where_clause,
        }) => {
            assert_eq!(select_list.0, vec![SelectTarget::Star]);
            assert_eq!(
                from_clause,
                FromClause {
                    table_name: "users".to_string(),
                }
            );
            assert!(where_clause.is_none());
        }
        _ => panic!("Expected Select statement"),
    }
}

#[test]
fn test_parse_select_multiple() {
    match parse("SELECT id, name FROM users") {
        Statement::Select(SelectStatement { select_list, .. }) => {
            assert_eq!(
                select_list.0,
                vec![
                    SelectTarget::Expression {
                        expr: identifier("id"),
                        alias: None,
                    },
                    SelectTarget::Expression {
                        expr: identifier("name"),
                        alias: None,
                    }
                ]
            );
        }
        _ => panic!("Expected Select statement"),
    }
}

#[test]
fn test_parse_select_with_implicit_alias() {
    match parse("SELECT id user_id FROM users") {
        Statement::Select(SelectStatement { select_list, .. }) => {
            assert_eq!(
                select_list.0,
                vec![SelectTarget::Expression {
                    expr: identifier("id"),
                    alias: Some("user_id".to_string()),
                }]
            );
        }
        _ => panic!("Expected Select statement"),
    }
}

#[test]
fn test_parse_select_columns() {
    match parse("SELECT id as \"Identity\", name AS firstName FROM users") {
        Statement::Select(SelectStatement { select_list, .. }) => {
            assert_eq!(
                select_list.0,
                vec![
                    SelectTarget::Expression {
                        expr: identifier("id"),
                        alias: Some("Identity".to_string()),
                    },
                    SelectTarget::Expression {
                        expr: identifier("name"),
                        alias: Some("firstName".to_string()),
                    },
                ]
            );
        }
        _ => panic!("Expected Select statement"),
    }
}

#[test]
fn test_parse_where_simple_comparison() {
    let expr = parse_where("SELECT * FROM users WHERE id = 1");
    assert_eq!(
        expr,
        binary(
            identifier("id"),
            Operator::Equal,
            Expression::Literal(Literal::Int64(1)),
        )
    );
}

#[test]
fn test_parse_where_operators() {
    let expr = parse_where("SELECT * FROM users WHERE age > 18");
    assert!(matches!(
        expr,
        Expression::BinaryOp {
            op: Operator::GreaterThan,
            ..
        }
    ));

    let expr = parse_where("SELECT * FROM users WHERE age < 65");
    assert!(matches!(
        expr,
        Expression::BinaryOp {
            op: Operator::LessThan,
            ..
        }
    ));

    let expr = parse_where("SELECT * FROM users WHERE status != 'active'");
    assert!(matches!(
        expr,
        Expression::BinaryOp {
            op: Operator::NotEqual,
            ..
        }
    ));
}

#[test]
fn test_parse_where_logical_operators() {
    let expr = parse_where("SELECT * FROM users WHERE age > 18 AND status = 'active'");
    assert!(matches!(
        expr,
        Expression::BinaryOp {
            op: Operator::And,
            ..
        }
    ));

    let expr = parse_where("SELECT * FROM users WHERE age < 18 OR age > 65");
    assert!(matches!(
        expr,
        Expression::BinaryOp {
            op: Operator::Or,
            ..
        }
    ));
}

#[test]
fn test_parse_where_arithmetic() {
    let expr = parse_where("SELECT * FROM users WHERE age + 5 > 30");
    if let Expression::BinaryOp {
        left,
        op: Operator::GreaterThan,
        ..
    } = expr
    {
        assert!(matches!(
            *left,
            Expression::BinaryOp {
                op: Operator::Add,
                ..
            }
        ));
    } else {
        panic!("Expected comparison with arithmetic");
    }

    let expr = parse_where("SELECT * FROM users WHERE price * 2 > 100");
    if let Expression::BinaryOp {
        left,
        op: Operator::GreaterThan,
        ..
    } = expr
    {
        assert!(matches!(
            *left,
            Expression::BinaryOp {
                op: Operator::Multiply,
                ..
            }
        ));
    } else {
        panic!("Expected comparison with arithmetic");
    }
}

#[test]
fn test_parse_where_parentheses() {
    let expr = parse_where("SELECT * FROM users WHERE (age > 18 AND age < 65) OR status = 'admin'");

    assert!(matches!(
        expr,
        Expression::BinaryOp {
            op: Operator::Or,
            ..
        }
    ));
}

#[test]
fn test_parse_operator_precedence() {
    let expr = parse_where("SELECT * FROM t WHERE a + b * c > 10");

    if let Expression::BinaryOp {
        left,
        op: Operator::GreaterThan,
        ..
    } = expr
    {
        if let Expression::BinaryOp {
            left: a,
            op: Operator::Add,
            right: bc,
        } = *left
        {
            assert!(matches!(*a, Expression::Identifier(_)));
            assert!(matches!(
                *bc,
                Expression::BinaryOp {
                    op: Operator::Multiply,
                    ..
                }
            ));
        } else {
            panic!("Expected a + (b * c) structure");
        }
    } else {
        panic!("Expected a comparison at the top");
    }
}

#[test]
fn test_parse_literal_types() {
    let expr = parse_where("SELECT * FROM t WHERE x = 42");
    if let Expression::BinaryOp { right, .. } = expr {
        assert_eq!(*right, Expression::Literal(Literal::Int64(42)));
    } else {
        panic!("Expected a comparison");
    }

    let expr = parse_where("SELECT * FROM t WHERE x = 3.15");
    if let Expression::BinaryOp { right, .. } = expr {
        assert_eq!(
            *right,
            Expression::Literal(Literal::Float64("3.15".to_string()))
        );
        if let Expression::Literal(Literal::Float64(text)) = *right {
            assert_eq!(text.parse::<f64>().unwrap(), 3.15);
        }
    } else {
        panic!("Expected a comparison");
    }

    let expr = parse_where("SELECT * FROM t WHERE active = TRUE");
    if let Expression::BinaryOp { right, .. } = expr {
        assert_eq!(*right, Expression::Literal(Literal::Bool(true)));
    } else {
        panic!("Expected a comparison");
    }
}

#[test]
fn test_parse_create_table() {
    match parse("CREATE TABLE users (id INT PRIMARY KEY, name TEXT NOT NULL, active BOOL UNIQUE)") {
        Statement::Create(CreateStatement {
            table_name,
            if_not_exists,
            columns,
        }) => {
            assert_eq!(table_name, "users".to_string());
            assert!(!if_not_exists);
            assert_eq!(
                columns,
                vec![
                    ColumnDefinition {
                        name: "id".to_string(),
                        data_type: DataType::Int64,
                        constraints: vec![ColumnConstraint::PrimaryKey],
                    },
                    ColumnDefinition {
                        name: "name".to_string(),
                        data_type: DataType::Text,
                        constraints: vec![ColumnConstraint::NotNull],
                    },
                    ColumnDefinition {
                        name: "active".to_string(),
                        data_type: DataType::Bool,
                        constraints: vec![ColumnConstraint::Unique],
                    },
                ]
            );
        }
        _ => panic!("Expected CREATE statement"),
    }
}

#[test]
fn precedence_of_sum_and_product() {
    assert_eq!(
        parse_where("SELECT * FROM t WHERE a + b * c"),
        binary(
            identifier("a"),
            Operator::Add,
            binary(identifier("b"), Operator::Multiply, identifier("c")),
        )
    );
    assert_eq!(
        parse_where("SELECT * FROM t WHERE a * b + c"),
        binary(
            binary(identifier("a"), Operator::Multiply, identifier("b")),
            Operator::Add,
            identifier("c"),
        )
    );
    assert_eq!(
        parse_where("SELECT * FROM t WHERE (a + b) * c"),
        binary(
            binary(identifier("a"), Operator::Add, identifier("b")),
            Operator::Multiply,
            identifier("c"),
        )
    );
}

#[test]
fn operators_of_one_level_associate_to_the_left() {
    assert_eq!(
        parse_where("SELECT * FROM t WHERE a - b - c"),
        binary(
            binary(identifier("a"), Operator::Subtract, identifier("b")),
            Operator::Subtract,
            identifier("c"),
        )
    );
    assert_eq!(
        parse_where("SELECT * FROM t WHERE a / b * c"),
        binary(
            binary(identifier("a"), Operator::Divide, identifier("b")),
            Operator::Multiply,
            identifier("c"),
        )
    );
    assert_eq!(
        parse_where("SELECT * FROM t WHERE a OR b AND c = d + e * f"),
        binary(
            identifier("a"),
            Operator::Or,
            binary(
                identifier("b"),
                Operator::And,
                binary(
                    identifier("c"),
                    Operator::Equal,
                    binary(
                        identifier("d"),
                        Operator::Add,
                        binary(identifier("e"), Operator::Multiply, identifier("f")),
                    ),
                ),
            ),
        )
    );
    assert_eq!(
        parse_where("SELECT * FROM t WHERE a AND b OR c"),
        binary(
            binary(identifier("a"), Operator::And, identifier("b")),
            Operator::Or,
            identifier("c"),
        )
    );
}

#[test]
fn operator_symbols_and_precedence() {
    let table = [
        (Operator::Or, "OR", 2),
        (Operator::And, "AND", 3),
        (Operator::Equal, "=", 5),
        (Operator::NotEqual, "!=", 5),
        (Operator::LessThan, "<", 5),
        (Operator::LessThanEqual, "<=", 5),
        (Operator::GreaterThan, ">", 5),
        (Operator::GreaterThanEqual, ">=", 5),
        (Operator::Add, "+", 7),
        (Operator::Subtract, "-", 7),
        (Operator::Multiply, "*", 10),
        (Operator::Divide, "/", 10),
    ];
    for (op, symbol, precedence) in table {
        assert_eq!(op.to_symbol(), symbol);
        assert_eq!(op.precedence(), precedence);
    }
}

#[test]
fn is_postfix() {
    assert_eq!(
        parse_where("SELECT * FROM t WHERE a IS NULL"),
        Expression::Is {
            expr: Box::new(identifier("a")),
            predicate: IsPredicate::Null,
            is_negated: false,
        }
    );
    assert_eq!(
        parse_where("SELECT * FROM t WHERE a is not true"),
        Expression::Is {
            expr: Box::new(identifier("a")),
            predicate: IsPredicate::True,
            is_negated: true,
        }
    );
    assert_eq!(
        parse_where("SELECT * FROM t WHERE (a = b) IS FALSE AND c"),
        binary(
            Expression::Is {
                expr: Box::new(binary(identifier("a"), Operator::Equal, identifier("b"))),
                predicate: IsPredicate::False,
                is_negated: false,
            },
            Operator::And,
            identifier("c"),
        )
    );
    assert_eq!(IsPredicate::Null.to_string(), "NULL");
    assert_eq!(IsPredicate::True.to_string(), "TRUE");
    assert_eq!(IsPredicate::False.to_string(), "FALSE");
}

#[test]
fn parse_failures() {
    let bad = [
        "",
        "   ",
        "FROM users",
        "DROP TABLE users",
        "users",
        "SELECT",
        "SELECT *",
        "SELECT * FROM",
        "SELECT * FROM 42",
        "SELECT * users",
        "SELECT *, id FROM users",
        "SELECT id AS FROM users",
        "SELECT * FROM users WHERE",
        "SELECT * FROM users WHERE (a = 1",
        "SELECT * FROM users WHERE a = ",
        "SELECT * FROM users WHERE a IS 5",
        "SELECT * FROM users WHERE a IS NOT b",
        "SELECT * FROM users WHERE a + , b",
        "SELECT ! FROM users",
        "CREATE users (id INT)",
        "CREATE TABLE users id INT",
        "CREATE TABLE users (id)",
        "CREATE TABLE users (id WIDGET)",
        "CREATE TABLE users (id VARCHAR)",
        "CREATE TABLE users (id VARCHAR(1.5))",
        "CREATE TABLE users (id VARCHAR(x))",
        "CREATE TABLE users (id VARCHAR(4294967296))",
        "CREATE TABLE users (id INT NOT)",
        "CREATE TABLE users (id INT PRIMARY)",
        "CREATE TABLE users (id INT SELECT)",
        "CREATE TABLE users (id INT",
    ];
    for query in bad {
        assert!(
            matches!(parse_query(query), Err(DatabaseError::InvalidQuery(_))),
            "expected a failure for {query:?}"
        );
    }
}

#[test]
fn what_follows_a_statement_is_not_looked_at() {
    assert!(parse_query("SELECT * FROM users;").is_ok());
    assert!(parse_query("SELECT * FROM users !").is_ok());
    assert!(parse_query("SELECT * FROM users WHERE a = 1 ; garbage").is_ok());
    assert_eq!(
        column_names(&parse_query("SELECT FROM users").unwrap()),
        Vec::<String>::new()
    );
}

#[test]
fn create_table_with_all_types() {
    match parse(
        "create table t (a INTEGER, b FLOAT NOT NULL UNIQUE, c VARCHAR(255) primary key, d STRING, e TIMESTAMP, f BOOLEAN)",
    ) {
        Statement::Create(create) => {
            let types: Vec<DataType> = create.columns.iter().map(|c| c.data_type).collect();
            assert_eq!(
                types,
                vec![
                    DataType::Int64,
                    DataType::Float64,
                    DataType::VarChar(255),
                    DataType::Text,
                    DataType::Timestamp,
                    DataType::Bool,
                ]
            );
            assert_eq!(
                create.columns[1].constraints,
                vec![ColumnConstraint::NotNull, ColumnConstraint::Unique]
            );
            assert_eq!(
                create.columns[2].constraints,
                vec![ColumnConstraint::PrimaryKey]
            );
            assert_eq!(create.table_name, "t");
        }
        _ => panic!("Expected CREATE statement"),
    }
    match parse("CREATE TABLE empty ()") {
        Statement::Create(create) => assert!(create.columns.is_empty()),
        _ => panic!("Expected CREATE statement"),
    }
}

#[test]
fn peek_keyword_looks_without_consuming() {
    let parser = SqlParser::new("select 1");
    assert!(parser.peek_keyword(scuttle_db::sql::keyword::Keyword::Select));
    assert!(!parser.peek_keyword(scuttle_db::sql::keyword::Keyword::From));
    assert_eq!(parser.position, 0);
    assert!(!parser.lexer_failed);
    assert!(SqlParser::new("select #").lexer_failed);
}
