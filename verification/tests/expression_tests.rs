use scuttle_db::database::Database;
use scuttle_db::sql::analyzer::{
    AnalyzedExpression, Analyzer, ColumnReference, IsPredicateTarget, OutputSchema,
};
use scuttle_db::sql::ast::{Expression, IsPredicate, Literal, Statement};
use scuttle_db::sql::evaluator::{ExpressionEvaluator, FloatArithmetic};
use scuttle_db::sql::operator::Operator;
use scuttle_db::sql::parser::SqlParser;
use scuttle_db::sql::planner_context::PlannerContext;
use scuttle_db::{ColumnDef, DataType, DatabaseError, Row, Schema, Value};

struct Floats;

impl FloatArithmetic for Floats {
    fn parse(&self, text: &str) -> u64 {
        text.parse::<f64>().unwrap().to_bits()
    }

    fn from_int(&self, n: i64) -> u64 {
        (n as f64).to_bits()
    }

    fn add(&self, a: u64, b: u64) -> u64 {
        (f64::from_bits(a) + f64::from_bits(b)).to_bits()
    }

    fn subtract(&self, a: u64, b: u64) -> u64 {
        (f64::from_bits(a) - f64::from_bits(b)).to_bits()
    }

    fn multiply(&self, a: u64, b: u64) -> u64 {
        (f64::from_bits(a) * f64::from_bits(b)).to_bits()
    }

    fn divide(&self, a: u64, b: u64) -> u64 {
        (f64::from_bits(a) / f64::from_bits(b)).to_bits()
    }
}

fn float(x: f64) -> Value {
    Value::Float64(x.to_bits())
}

fn column(name: &str) -> Expression {
    Expression::Identifier(name.to_string())
}

fn integer(n: i64) -> Expression {
    Expression::Literal(Literal::Int64(n))
}

fn binary(left: Expression, op: Operator, right: Expression) -> Expression {
    Expression::BinaryOp {
        left: Box::new(left),
        op,
        right: Box::new(right),
    }
}

/// Resolves the names of an expression by hand, so that the evaluator is
/// tested on its own.
fn resolve(expr: &Expression, schema: &Schema) -> AnalyzedExpression {
    match expr {
        Expression::BinaryOp { left, op, right } => AnalyzedExpression::BinaryExpr {
            left: Box::new(resolve(left, schema)),
            op: *op,
            right: Box::new(resolve(right, schema)),
            return_type: DataType::Bool,
        },
        Expression::Identifier(name) => {
            let index = schema.get_column_index(name).expect("column to exist");
            AnalyzedExpression::Column(
                ColumnReference {
                    index,
                    relation: None,
                },
                schema.columns[index].data_type,
            )
        }
        Expression::Literal(literal) => AnalyzedExpression::Literal(match literal {
            Literal::Int64(n) => Value::Int64(*n),
            Literal::Float64(text) => Value::Float64(Floats.parse(text)),
            Literal::Text(text) => Value::Text(text.clone()),
            Literal::Bool(b) => Value::Bool(*b),
            Literal::Null => Value::Null,
        }),
        Expression::Is {
            expr,
            predicate,
            is_negated,
        } => AnalyzedExpression::IsPredicate {
            expr: Box::new(resolve(expr, schema)),
            predicate: match predicate {
                IsPredicate::True => IsPredicateTarget::True,
                IsPredicate::False => IsPredicateTarget::False,
                IsPredicate::Null => IsPredicateTarget::Null,
            },
            negated: *is_negated,
        },
    }
}

fn evaluate(expr: &Expression, row: &Row, schema: &Schema) -> Result<Value, DatabaseError> {
    let evaluator = ExpressionEvaluator::new(Floats);
    evaluator.evaluate(&resolve(expr, schema), row)
}

fn parse_expr(expr_str: &str) -> Expression {
    let query = format!("SELECT * FROM dummy WHERE {}", expr_str);
    let mut parser = SqlParser::new(&query);
    match parser.parse() {
        Ok(Statement::Select(select)) => match select.where_clause {
            Some(expr) => expr,
            None => panic!("Query parsed but no WHERE clause found"),
        },
        Ok(_) => panic!("Query parsed but no WHERE clause found"),
        Err(e) => panic!("Failed to parse expression '{}': {:?}", expr_str, e),
    }
}

fn setup_test_data() -> (Schema, Row) {
    let schema = Schema {
        columns: vec![
            ColumnDef::new("id", DataType::Int64, false),
            ColumnDef::new("name", DataType::Text, false),
            ColumnDef::new("score", DataType::Float64, true),
            ColumnDef::new("age", DataType::Int64, false),
            ColumnDef::new("is_active", DataType::Bool, true),
        ],
    };
    let row = Row::new(vec![
        Value::Int64(10),
        Value::Text("Alice".to_string()),
        float(15.5),
        Value::Int64(30),
        Value::Bool(true),
    ]);

    (schema, row)
}

#[test]
fn test_literal_evaluation() {
    let (schema, row) = setup_test_data();

    let expr = integer(42);
    let result = evaluate(&expr, &row, &schema);
    assert!(result.is_ok());
    assert_eq!(result.unwrap(), Value::Int64(42));

    let expr = Expression::Literal(Literal::Float64(format!("{}", std::f64::consts::PI)));
    let result = evaluate(&expr, &row, &schema);
    assert!(result.is_ok());
    assert_eq!(result.unwrap(), float(std::f64::consts::PI));

    let expr = Expression::Literal(Literal::Bool(true));
    let result = evaluate(&expr, &row, &schema);
    assert!(result.is_ok());
    assert_eq!(result.unwrap(), Value::Bool(true));
}

#[test]
fn test_column_evaluation() {
    let (schema, row) = setup_test_data();

    let result = evaluate(&column("id"), &row, &schema);
    assert!(result.is_ok());
    assert_eq!(result.unwrap(), Value::Int64(10));

    let result = evaluate(&column("name"), &row, &schema);
    assert!(result.is_ok());
    assert_eq!(result.unwrap(), Value::Text("Alice".to_string()));
}

#[test]
fn test_column_not_found() {
    let (schema, _row) = setup_test_data();
    let database = Database::new("unused");
    let context = PlannerContext::new(&database);
    let floats = Floats;
    let analyzer = Analyzer::new(&context, &floats);

    let expr = column("nonexistent");
    let result = analyzer.bind_expression(&expr, &OutputSchema::from_table(&schema));
    assert!(result.is_err());
    assert_eq!(
        result.unwrap_err(),
        DatabaseError::ColumnNotFound("nonexistent".to_string())
    );
}

#[test]
fn test_arithmetic_add() {
    let (schema, row) = setup_test_data();

    let expr = binary(column("id"), Operator::Add, integer(5));
    let result = evaluate(&expr, &row, &schema);
    assert!(result.is_ok());
    assert_eq!(result.unwrap(), Value::Int64(15));
}

#[test]
fn test_arithmetic_subtract() {
    let (schema, row) = setup_test_data();

    let expr = binary(column("age"), Operator::Subtract, integer(5));
    let result = evaluate(&expr, &row, &schema);
    assert!(result.is_ok());
    assert_eq!(result.unwrap(), Value::Int64(25));
}

#[test]
fn test_arithmetic_multiply() {
    let (schema, row) = setup_test_data();

    let expr = binary(column("id"), Operator::Multiply, integer(2));
    let result = evaluate(&expr, &row, &schema);
    assert!(result.is_ok());
    assert_eq!(result.unwrap(), Value::Int64(20));
}

#[test]
fn test_arithmetic_divide() {
    let (schema, row) = setup_test_data();

    let expr = binary(column("age"), Operator::Divide, integer(3));
    let result = evaluate(&expr, &row, &schema);
    assert!(result.is_ok());
    assert_eq!(result.unwrap(), Value::Int64(10));
}

#[test]
fn test_arithmetic_mixed_types() {
    let (schema, row) = setup_test_data();

    let expr = binary(
        column("id"),
        Operator::Add,
        Expression::Literal(Literal::Float64("2.5".to_string())),
    );
    let result = evaluate(&expr, &row, &schema);
    assert!(result.is_ok());
    assert_eq!(result.unwrap(), float(12.5));
}

#[test]
fn test_comparison_equal() {
    let (schema, row) = setup_test_data();

    let expr = binary(column("id"), Operator::Equal, integer(10));
    let result = evaluate(&expr, &row, &schema);
    assert!(result.is_ok());
    assert_eq!(result.unwrap(), Value::Bool(true));

    let expr = binary(column("id"), Operator::Equal, integer(5));
    let result = evaluate(&expr, &row, &schema);
    assert!(result.is_ok());
    assert_eq!(result.unwrap(), Value::Bool(false));
}

#[test]
fn test_comparison_not_equal() {
    let (schema, row) = setup_test_data();

    let expr = binary(column("id"), Operator::NotEqual, integer(5));
    let result = evaluate(&expr, &row, &schema);
    assert!(result.is_ok());
    assert_eq!(result.unwrap(), Value::Bool(true));
}

#[test]
fn test_comparison_greater_than() {
    let (schema, row) = setup_test_data();

    let expr = binary(column("id"), Operator::GreaterThan, integer(5));
    let result = evaluate(&expr, &row, &schema);
    assert!(result.is_ok());
    assert_eq!(result.unwrap(), Value::Bool(true));

    let expr = binary(column("id"), Operator::GreaterThan, integer(20));
    let result = evaluate(&expr, &row, &schema);
    assert!(result.is_ok());
    assert_eq!(result.unwrap(), Value::Bool(false));
}

#[test]
fn test_comparison_less_than() {
    let (schema, row) = setup_test_data();

    let expr = binary(column("id"), Operator::LessThan, integer(20));
    let result = evaluate(&expr, &row, &schema);
    assert!(result.is_ok());
    assert_eq!(result.unwrap(), Value::Bool(true));
}

#[test]
fn test_logical_and_both_true() {
    let (schema, row) = setup_test_data();

    let expr = binary(
        binary(column("id"), Operator::GreaterThan, integer(5)),
        Operator::And,
        binary(column("age"), Operator::GreaterThan, integer(20)),
    );
    let result = evaluate(&expr, &row, &schema);
    assert!(result.is_ok());
    assert_eq!(result.unwrap(), Value::Bool(true));
}

#[test]
fn test_logical_and_one_false() {
    let (schema, row) = setup_test_data();

    let expr = binary(
        binary(column("id"), Operator::GreaterThan, integer(5)),
        Operator::And,
        binary(column("age"), Operator::GreaterThan, integer(50)),
    );
    let result = evaluate(&expr, &row, &schema);
    assert!(result.is_ok());
    assert_eq!(result.unwrap(), Value::Bool(false));
}

#[test]
fn test_logical_or_one_true() {
    let (schema, row) = setup_test_data();

    let expr = binary(
        binary(column("id"), Operator::GreaterThan, integer(5)),
        Operator::Or,
        binary(column("age"), Operator::GreaterThan, integer(50)),
    );
    let result = evaluate(&expr, &row, &schema);
    assert!(result.is_ok());
    assert_eq!(result.unwrap(), Value::Bool(true));
}

#[test]
fn test_logical_or_both_false() {
    let (schema, row) = setup_test_data();

    let expr = binary(
        binary(column("id"), Operator::LessThan, integer(5)),
        Operator::Or,
        binary(column("age"), Operator::GreaterThan, integer(50)),
    );
    let result = evaluate(&expr, &row, &schema);
    assert!(result.is_ok());
    assert_eq!(result.unwrap(), Value::Bool(false));
}

#[test]
fn test_nested_arithmetic() {
    let (schema, row) = setup_test_data();

    let expr = binary(
        binary(column("id"), Operator::Add, integer(5)),
        Operator::Multiply,
        integer(2),
    );
    let result = evaluate(&expr, &row, &schema);
    assert!(result.is_ok());
    assert_eq!(result.unwrap(), Value::Int64(30));
}

#[test]
fn test_arithmetic_in_comparison() {
    let (schema, row) = setup_test_data();

    let expr = binary(
        binary(column("age"), Operator::Add, integer(5)),
        Operator::GreaterThan,
        integer(30),
    );
    let result = evaluate(&expr, &row, &schema);
    assert!(result.is_ok());
    assert_eq!(result.unwrap(), Value::Bool(true));
}

#[test]
fn test_with_parser_simple_comparison() {
    let (schema, row) = setup_test_data();

    let expr = parse_expr("id > 5");
    let result = evaluate(&expr, &row, &schema);
    assert!(result.is_ok());
    assert_eq!(result.unwrap(), Value::Bool(true));
}

#[test]
fn test_with_parser_arithmetic() {
    let (schema, row) = setup_test_data();

    let expr = parse_expr("age + 5");
    let result = evaluate(&expr, &row, &schema);
    assert!(result.is_ok());
    assert_eq!(result.unwrap(), Value::Int64(35));
}

#[test]
fn test_with_parser_complex_expression() {
    let (schema, row) = setup_test_data();

    let expr = parse_expr("(age + 5) > 30 AND id < 20");
    let result = evaluate(&expr, &row, &schema);
    assert!(result.is_ok());
    assert_eq!(result.unwrap(), Value::Bool(true));
}

#[test]
fn test_with_parser_nested_arithmetic() {
    let (schema, row) = setup_test_data();

    let expr = parse_expr("(id + 5) * 2");
    let result = evaluate(&expr, &row, &schema);
    assert!(result.is_ok());
    assert_eq!(result.unwrap(), Value::Int64(30));
}

#[test]
fn and_or_do_not_evaluate_what_is_decided() {
    let (schema, row) = setup_test_data();

    let fails = binary(integer(1), Operator::Divide, integer(0));
    assert_eq!(
        evaluate(&fails, &row, &schema).unwrap_err(),
        DatabaseError::DivisionByZero
    );

    let expr = binary(
        Expression::Literal(Literal::Bool(false)),
        Operator::And,
        binary(integer(1), Operator::Divide, integer(0)),
    );
    assert_eq!(evaluate(&expr, &row, &schema).unwrap(), Value::Bool(false));

    let expr = binary(
        Expression::Literal(Literal::Bool(true)),
        Operator::Or,
        binary(integer(1), Operator::Divide, integer(0)),
    );
    assert_eq!(evaluate(&expr, &row, &schema).unwrap(), Value::Bool(true));

    let expr = binary(
        Expression::Literal(Literal::Null),
        Operator::And,
        binary(integer(1), Operator::Divide, integer(0)),
    );
    assert_eq!(evaluate(&expr, &row, &schema).unwrap(), Value::Bool(false));

    let expr = binary(
        Expression::Literal(Literal::Bool(true)),
        Operator::And,
        binary(integer(1), Operator::Divide, integer(0)),
    );
    assert_eq!(
        evaluate(&expr, &row, &schema).unwrap_err(),
        DatabaseError::DivisionByZero
    );

    let expr = binary(
        Expression::Literal(Literal::Bool(false)),
        Operator::Or,
        binary(integer(1), Operator::Divide, integer(0)),
    );
    assert_eq!(
        evaluate(&expr, &row, &schema).unwrap_err(),
        DatabaseError::DivisionByZero
    );
}

#[test]
fn and_or_give_the_truthiness_of_the_right_operand() {
    let (schema, row) = setup_test_data();
    let expr = binary(
        Expression::Literal(Literal::Bool(true)),
        Operator::And,
        Expression::Literal(Literal::Null),
    );
    assert_eq!(evaluate(&expr, &row, &schema).unwrap(), Value::Bool(false));
    let expr = binary(
        Expression::Literal(Literal::Bool(true)),
        Operator::And,
        integer(7),
    );
    assert_eq!(evaluate(&expr, &row, &schema).unwrap(), Value::Bool(false));
    let expr = binary(
        Expression::Literal(Literal::Null),
        Operator::Or,
        Expression::Literal(Literal::Bool(true)),
    );
    assert_eq!(evaluate(&expr, &row, &schema).unwrap(), Value::Bool(true));
}

#[test]
fn is_tests_are_two_valued() {
    let (schema, row) = setup_test_data();
    let null_row = Row::new(vec![
        Value::Int64(10),
        Value::Text("Alice".to_string()),
        Value::Null,
        Value::Int64(30),
        Value::Null,
    ]);
    let cases = [
        ("is_active IS TRUE", true, false),
        ("is_active IS NOT TRUE", false, true),
        ("is_active IS FALSE", false, false),
        ("is_active IS NOT FALSE", true, true),
        ("is_active IS NULL", false, true),
        ("is_active IS NOT NULL", true, false),
        ("score IS NULL", false, true),
        ("id IS NULL", false, false),
    ];
    for (text, on_true, on_null) in cases {
        let expr = parse_expr(text);
        assert_eq!(evaluate(&expr, &row, &schema).unwrap(), Value::Bool(on_true));
        assert_eq!(
            evaluate(&expr, &null_row, &schema).unwrap(),
            Value::Bool(on_null)
        );
    }
}

#[test]
fn comparisons_with_null_are_null() {
    let (schema, _row) = setup_test_data();
    let null_row = Row::new(vec![
        Value::Null,
        Value::Text("Alice".to_string()),
        Value::Null,
        Value::Int64(30),
        Value::Null,
    ]);
    for text in ["id = 1", "id != 1", "id < 1", "id <= 1", "id > 1", "id >= 1", "id + 1"] {
        let expr = parse_expr(text);
        assert_eq!(evaluate(&expr, &null_row, &schema).unwrap(), Value::Null);
    }
}

#[test]
fn greater_equal_and_less_equal() {
    let (schema, row) = setup_test_data();
    let cases = [
        ("id >= 10", true),
        ("id >= 11", false),
        ("id <= 10", true),
        ("id <= 9", false),
        ("score >= 15.5", true),
        ("score <= 15.4", false),
        ("name >= 'Alice'", true),
        ("name <= 'Alicd'", false),
        ("name < 'Bob'", true),
    ];
    for (text, expected) in cases {
        let expr = parse_expr(text);
        assert_eq!(
            evaluate(&expr, &row, &schema).unwrap(),
            Value::Bool(expected)
        );
    }
}

#[test]
fn a_column_beyond_the_row_is_null() {
    let evaluator = ExpressionEvaluator::new(Floats);
    let expr = AnalyzedExpression::Column(
        ColumnReference {
            index: 9,
            relation: None,
        },
        DataType::Int64,
    );
    let row = Row::new(vec![Value::Int64(1)]);
    assert_eq!(evaluator.evaluate(&expr, &row).unwrap(), Value::Null);
}
