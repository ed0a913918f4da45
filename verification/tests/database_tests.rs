use scuttle_db::buffer_manager::{BufferManager, MAX_PAGES};
use scuttle_db::database::{Database, QueryResponse};
use scuttle_db::sql::analyzer::{AnalyzedExpression, ColumnReference, Field, OutputSchema};
use scuttle_db::sql::evaluator::{ExpressionEvaluator, FloatArithmetic};
use scuttle_db::sql::executor::{PhysicalPlan, BATCH_SIZE};
use scuttle_db::sql::operator::Operator;
use scuttle_db::{
    ColumnDef, DataType, DatabaseError, Page, PageType, Row, Schema, Value, PAGE_SIZE,
};

struct Floats;

impl FloatArithmetic for Floats {
    fn parse(&self, text: &str) -> u64 {
        text.parse::<f64>().unwrap().to_bits()
    }

    fn from_int(&self, n: i64) -> u64 {
        (n as f64).to_bits()
    }

    fn add(&self, a: u64, b: u64) -> u64 {
        (f64::from_bits(a) + f64::from_bits(b)).to_bits()
    }

    fn subtract(&self, a: u64, b: u64) -> u64 {
        (f64::from_bits(a) - f64::from_bits(b)).to_bits()
    }

    fn multiply(&self, a: u64, b: u64) -> u64 {
        (f64::from_bits(a) * f64::from_bits(b)).to_bits()
    }

    fn divide(&self, a: u64, b: u64) -> u64 {
        (f64::from_bits(a) / f64::from_bits(b)).to_bits()
    }
}

fn users_schema() -> Schema {
    Schema::new(vec![
        ColumnDef::new("id", DataType::Int64, false),
        ColumnDef::new("name", DataType::VarChar(255), false),
        ColumnDef::new("age", DataType::Int64, true),
        ColumnDef::new("is_active", DataType::Bool, true),
    ])
}

fn user(id: i64, name: &str, age: Option<i64>, is_active: Option<bool>) -> Row {
    Row::new(vec![
        Value::Int64(id),
        Value::Text(name.to_string()),
        age.map(Value::Int64).unwrap_or(Value::Null),
        is_active.map(Value::Bool).unwrap_or(Value::Null),
    ])
}

fn four_users() -> Vec<Row> {
    vec![
        user(1, "Alice", Some(30), None),
        user(2, "Bob", None, Some(false)),
        user(3, "Charlie", Some(35), Some(true)),
        user(4, "Dana", Some(17), Some(true)),
    ]
}

fn users_database() -> Database {
    let mut database = Database::new("data");
    database.create_table("users", users_schema()).unwrap();
    for row in four_users() {
        database.insert_row("users", row).unwrap();
    }
    database
}

fn query(database: &Database, sql: &str) -> Result<QueryResponse, DatabaseError> {
    database.execute_query(sql, &ExpressionEvaluator::new(Floats))
}

fn ints(values: &[i64]) -> Vec<Row> {
    values
        .iter()
        .map(|v| Row::new(vec![Value::Int64(*v)]))
        .collect()
}

#[test]
fn select_star_returns_all_rows_in_insertion_order() {
    let database = users_database();
    let response = query(&database, "SELECT * FROM users").unwrap();
    assert_eq!(response.rows, four_users());
    assert_eq!(
        response.schema,
        OutputSchema::from_table(&users_schema())
    );
    let names: Vec<&str> = response.schema.fields.iter().map(|f| f.name.as_str()).collect();
    assert_eq!(names, vec!["id", "name", "age", "is_active"]);
}

#[test]
fn select_with_comparison_drops_null() {
    let database = users_database();
    let response = query(&database, "SELECT name, age FROM users WHERE age > 25").unwrap();
    assert_eq!(
        response.rows,
        vec![
            Row::new(vec![Value::Text("Alice".to_string()), Value::Int64(30)]),
            Row::new(vec![Value::Text("Charlie".to_string()), Value::Int64(35)]),
        ]
    );
}

#[test]
fn select_where_is_true() {
    let database = users_database();
    let response = query(&database, "SELECT id FROM users WHERE is_active IS TRUE").unwrap();
    assert_eq!(response.rows, ints(&[3, 4]));
}

#[test]
fn select_where_is_not_null() {
    let database = users_database();
    let response = query(&database, "SELECT id FROM users WHERE is_active IS NOT NULL").unwrap();
    assert_eq!(response.rows, ints(&[2, 3, 4]));
}

#[test]
fn select_with_alias_and_arithmetic() {
    let database = users_database();
    let response = query(
        &database,
        "SELECT id, (age + 5) AS age_plus_five FROM users WHERE age IS NOT NULL AND age + 5 > 30",
    )
    .unwrap();
    assert_eq!(
        response.rows,
        vec![
            Row::new(vec![Value::Int64(1), Value::Int64(35)]),
            Row::new(vec![Value::Int64(3), Value::Int64(40)]),
        ]
    );
    assert_eq!(
        response.schema.fields,
        vec![
            Field {
                name: "id".to_string(),
                alias: None,
                data_type: DataType::Int64,
                is_nullable: false,
            },
            Field {
                name: "?column?".to_string(),
                alias: Some("age_plus_five".to_string()),
                data_type: DataType::Int64,
                is_nullable: true,
            },
        ]
    );
}

#[test]
fn division_by_zero_aborts_the_query() {
    let database = users_database();
    let result = query(&database, "SELECT * FROM users WHERE age / 0 = 0");
    assert_eq!(result.unwrap_err(), DatabaseError::DivisionByZero);
    let result = query(&database, "SELECT id / 0 FROM users");
    assert_eq!(result.unwrap_err(), DatabaseError::DivisionByZero);
    let result = query(&database, "SELECT id FROM users WHERE id = 4 AND id / (id - 4) = 1");
    assert_eq!(result.unwrap_err(), DatabaseError::DivisionByZero);
    let response = query(&database, "SELECT id FROM users WHERE id != 4 AND 8 / (id - 4) < 0").unwrap();
    assert_eq!(response.rows, ints(&[1, 2, 3]));
}

#[test]
fn null_condition_eliminates_the_row() {
    let database = users_database();
    let response = query(&database, "SELECT id FROM users WHERE age = age").unwrap();
    assert_eq!(response.rows, ints(&[1, 3, 4]));
    let response = query(&database, "SELECT id FROM users WHERE is_active").unwrap();
    assert_eq!(response.rows, ints(&[3, 4]));
    let response = query(&database, "SELECT id FROM users WHERE age != 30").unwrap();
    assert_eq!(response.rows, ints(&[3, 4]));
    let response = query(&database, "SELECT id FROM users WHERE age < 100 OR is_active = FALSE").unwrap();
    assert_eq!(response.rows, ints(&[1, 2, 3, 4]));
}

#[test]
fn empty_result_has_the_schema_and_no_rows() {
    let database = users_database();
    let response = query(&database, "SELECT name FROM users WHERE id > 100").unwrap();
    assert!(response.rows.is_empty());
    assert_eq!(response.schema.fields.len(), 1);
    assert_eq!(response.schema.fields[0].name, "name");

    let mut database = Database::new("data");
    database.create_table("empty", users_schema()).unwrap();
    let response = query(&database, "SELECT * FROM empty").unwrap();
    assert!(response.rows.is_empty());
    assert_eq!(response.schema.fields.len(), 4);
}

#[test]
fn queries_with_floats_and_text() {
    let mut database = Database::new("data");
    database
        .create_table(
            "items",
            Schema::new(vec![
                ColumnDef::new("label", DataType::Text, false),
                ColumnDef::new("price", DataType::Float64, true),
                ColumnDef::new("count", DataType::Int64, false),
            ]),
        )
        .unwrap();
    let rows = [("apple", Some(0.5), 4), ("pear", Some(1.25), 2), ("fig", None, 9)];
    for (label, price, count) in rows {
        database
            .insert_row(
                "items",
                Row::new(vec![
                    Value::Text(label.to_string()),
                    price.map(|p: f64| Value::Float64(p.to_bits())).unwrap_or(Value::Null),
                    Value::Int64(count),
                ]),
            )
            .unwrap();
    }
    let response = query(&database, "SELECT label, count * price FROM items WHERE price < 1.0 OR label = 'pear'").unwrap();
    assert_eq!(
        response.rows,
        vec![
            Row::new(vec![
                Value::Text("apple".to_string()),
                Value::Float64(2.0f64.to_bits())
            ]),
            Row::new(vec![
                Value::Text("pear".to_string()),
                Value::Float64(2.5f64.to_bits())
            ]),
        ]
    );
    let response = query(&database, "SELECT label FROM items WHERE label > 'b' AND count / 2 >= 1").unwrap();
    assert_eq!(
        response.rows,
        vec![
            Row::new(vec![Value::Text("pear".to_string())]),
            Row::new(vec![Value::Text("fig".to_string())]),
        ]
    );
    let result = query(&database, "SELECT label FROM items WHERE count / 0.0 > 1.0");
    assert_eq!(result.unwrap_err(), DatabaseError::DivisionByZero);
}

#[test]
fn query_errors() {
    let database = users_database();
    assert!(matches!(
        query(&database, "SELEC * FROM users"),
        Err(DatabaseError::InvalidQuery(_))
    ));
    assert!(matches!(
        query(&database, "SELECT * FROM users WHERE is_active ! 1"),
        Ok(_)
    ));
    assert!(matches!(
        query(&database, "SELECT * FROM users WHERE"),
        Err(DatabaseError::InvalidQuery(_))
    ));
    assert!(matches!(
        query(&database, "CREATE TABLE t (id INT)"),
        Err(DatabaseError::InvalidQuery(_))
    ));
    assert_eq!(
        query(&database, "SELECT * FROM nobody").unwrap_err(),
        DatabaseError::TableNotFound("nobody".to_string())
    );
    assert_eq!(
        query(&database, "SELECT height FROM users").unwrap_err(),
        DatabaseError::ColumnNotFound("height".to_string())
    );
    assert!(matches!(
        query(&database, "SELECT id FROM users WHERE name > 1"),
        Err(DatabaseError::TypeMismatch(_))
    ));
}

#[test]
fn catalog_operations() {
    let mut database = Database::new("some/dir");
    assert_eq!(database.data_directory, "some/dir");
    assert!(database.initialize().is_ok());
    assert!(!database.table_exists("users"));
    assert_eq!(
        database.get_table("users").unwrap_err(),
        DatabaseError::TableNotFound("users".to_string())
    );
    assert_eq!(
        database.drop_table("users").unwrap_err(),
        DatabaseError::TableNotFound("users".to_string())
    );
    assert_eq!(
        database.get_rows("users").unwrap_err(),
        DatabaseError::TableNotFound("users".to_string())
    );
    assert_eq!(
        database.insert_row("users", user(1, "a", None, None)).unwrap_err(),
        DatabaseError::TableNotFound("users".to_string())
    );

    database.create_table("users", users_schema()).unwrap();
    database
        .create_table(
            "other",
            Schema::new(vec![ColumnDef::new("x", DataType::Int64, false)]),
        )
        .unwrap();
    assert!(database.table_exists("users"));
    assert_eq!(database.get_table("users").unwrap().schema, users_schema());
    assert_eq!(database.tables.len(), 2);

    database
        .create_table(
            "users",
            Schema::new(vec![ColumnDef::new("only", DataType::Text, true)]),
        )
        .unwrap();
    assert_eq!(database.tables.len(), 2);
    assert_eq!(database.get_table("users").unwrap().schema.columns.len(), 1);
    assert_eq!(database.get_table("other").unwrap().schema.columns.len(), 1);

    database.drop_table("users").unwrap();
    assert!(!database.table_exists("users"));
    assert!(database.table_exists("other"));
    assert!(database.drop_table("users").is_err());
}

#[test]
fn insert_row_validates_against_the_schema() {
    let mut database = Database::new("data");
    database.create_table("users", users_schema()).unwrap();
    let bad = vec![
        Row::new(vec![Value::Int64(1)]),
        Row::new(vec![
            Value::Null,
            Value::Text("a".to_string()),
            Value::Null,
            Value::Null,
        ]),
        Row::new(vec![
            Value::Int64(1),
            Value::Text("a".to_string()),
            Value::Text("thirty".to_string()),
            Value::Null,
        ]),
        user(1, &"x".repeat(256), None, None),
    ];
    for row in bad {
        assert!(matches!(
            database.insert_row("users", row),
            Err(DatabaseError::TypeMismatch(_))
        ));
    }
    assert!(database.get_rows("users").unwrap().is_empty());
    assert_eq!(
        database.insert_row("users", user(1, "a", None, None)).unwrap(),
        (0, 0)
    );
    assert_eq!(
        database.insert_row("users", user(2, "b", None, None)).unwrap(),
        (0, 1)
    );
    assert_eq!(database.get_rows("users").unwrap().len(), 2);
}

#[test]
fn rows_overflow_to_a_second_page() {
    let mut database = Database::new("data");
    database
        .create_table(
            "wide",
            Schema::new(vec![
                ColumnDef::new("id", DataType::Int64, false),
                ColumnDef::new("body", DataType::Text, false),
            ]),
        )
        .unwrap();
    let body = "b".repeat(1000);
    let encoded = 1 + 8 + 4 + 1000;
    let per_page = (PAGE_SIZE - 24) / (encoded + 5);
    let mut expected = Vec::new();
    for i in 0..(per_page as i64 + 1) {
        let row = Row::new(vec![Value::Int64(i), Value::Text(body.clone())]);
        let (page_id, item_id) = database.insert_row("wide", row.clone()).unwrap();
        if (i as usize) < per_page {
            assert_eq!((page_id, item_id), (0, i as u16));
        } else {
            assert_eq!((page_id, item_id), (1, 0));
        }
        expected.push(row);
    }
    assert_eq!(database.buffer_manager.page_count("wide"), 2);
    assert_eq!(
        database
            .buffer_manager
            .get_free_page("wide", encoded)
            .unwrap(),
        1
    );
    assert_eq!(database.get_rows("wide").unwrap(), expected);
    let response = query(&database, "SELECT * FROM wide").unwrap();
    assert_eq!(response.rows, expected);

    let small = Row::new(vec![Value::Int64(-1), Value::Text("s".to_string())]);
    assert_eq!(database.insert_row("wide", small.clone()).unwrap().0, 0);
    let mut found = database.get_rows("wide").unwrap();
    assert_eq!(found.len(), expected.len() + 1);
    assert_eq!(found.remove(per_page), small);
    assert_eq!(found, expected);
}

#[test]
fn a_row_larger_than_a_page_is_refused() {
    let mut database = Database::new("data");
    database
        .create_table(
            "wide",
            Schema::new(vec![ColumnDef::new("body", DataType::Text, false)]),
        )
        .unwrap();
    let fits = Row::new(vec![Value::Text("b".repeat(8163 - 5))]);
    let too_large = Row::new(vec![Value::Text("b".repeat(8163 - 4))]);
    assert_eq!(
        database.insert_row("wide", too_large).unwrap_err(),
        DatabaseError::NoFreePage
    );
    assert_eq!(database.buffer_manager.page_count("wide"), 0);
    assert_eq!(database.insert_row("wide", fits.clone()).unwrap(), (0, 0));
    assert_eq!(database.get_rows("wide").unwrap(), vec![fits]);
}

#[test]
fn scan_finds_every_inserted_row() {
    let mut database = Database::new("data");
    database
        .create_table(
            "t",
            Schema::new(vec![
                ColumnDef::new("n", DataType::Int64, false),
                ColumnDef::new("s", DataType::Text, true),
            ]),
        )
        .unwrap();
    let mut inserted = Vec::new();
    for i in 0..3000i64 {
        let row = Row::new(vec![
            Value::Int64(i % 17),
            if i % 5 == 0 {
                Value::Null
            } else {
                Value::Text("x".repeat((i % 90) as usize))
            },
        ]);
        database.insert_row("t", row.clone()).unwrap();
        inserted.push(row);
    }
    let response = query(&database, "SELECT * FROM t").unwrap();
    assert_eq!(response.rows.len(), inserted.len());
    let key = |row: &Row| format!("{:?}", row);
    let mut found: Vec<String> = response.rows.iter().map(key).collect();
    let mut expected: Vec<String> = inserted.iter().map(key).collect();
    found.sort();
    expected.sort();
    assert_eq!(found, expected);
    assert_eq!(database.get_rows("t").unwrap(), response.rows);
    assert!(database.buffer_manager.page_count("t") > 1);

    let response = query(&database, "SELECT n FROM t WHERE n = 3 AND s IS NULL").unwrap();
    let expected = inserted
        .iter()
        .filter(|r| r.values[0] == Value::Int64(3) && r.values[1] == Value::Null)
        .count();
    assert_eq!(response.rows.len(), expected);
}

#[test]
fn deleted_items_are_not_scanned() {
    let mut database = users_database();
    database.buffer_manager.tables[0].pages[0]
        .delete_item(1)
        .unwrap();
    let rows = database.get_rows("users").unwrap();
    assert_eq!(
        rows,
        vec![
            user(1, "Alice", Some(30), None),
            user(3, "Charlie", Some(35), Some(true)),
            user(4, "Dana", Some(17), Some(true)),
        ]
    );
    let response = query(&database, "SELECT id FROM users").unwrap();
    assert_eq!(response.rows, ints(&[1, 3, 4]));
}

#[test]
fn corrupt_tuples_are_reported() {
    let mut database = Database::new("data");
    database.create_table("users", users_schema()).unwrap();
    let mut page = Page::new(0, PageType::Table);
    page.add_data(&[0, 1, 2]).unwrap();
    database.buffer_manager.put_page("users", page).unwrap();
    assert!(matches!(
        database.get_rows("users"),
        Err(DatabaseError::SerializationError(_))
    ));
    assert!(matches!(
        query(&database, "SELECT * FROM users"),
        Err(DatabaseError::SerializationError(_))
    ));
}

#[test]
fn buffer_pool_pages() {
    let mut pool = BufferManager::new();
    assert_eq!(pool.page_count("t"), 0);
    assert!(pool.get_page("t", 0).is_none());
    assert!(pool.save_page("t", 0).is_none());
    assert_eq!(
        pool.add_data("t", 0, b"x").unwrap_err(),
        DatabaseError::ItemNotFound
    );

    assert_eq!(pool.get_free_page("t", 100).unwrap(), 0);
    assert_eq!(pool.page_count("t"), 1);
    assert_eq!(pool.get_free_page("t", 100).unwrap(), 0);
    assert_eq!(pool.page_count("t"), 1);
    assert_eq!(pool.add_data("t", 0, &[1u8; 8000]).unwrap(), 0);
    assert_eq!(pool.get_free_page("t", 158).unwrap(), 0);
    assert_eq!(pool.get_free_page("t", 159).unwrap(), 1);
    assert_eq!(pool.page_count("t"), 2);
    assert_eq!(pool.get_page("t", 1).unwrap().header.page_id, 1);
    assert_eq!(pool.get_page("t", 1).unwrap().header.page_type, PageType::Table);
    assert_eq!(
        pool.add_data("t", 0, &[1u8; 200]).unwrap_err(),
        DatabaseError::NotEnoughSpace
    );
    assert_eq!(
        pool.get_free_page("t", 8164).unwrap_err(),
        DatabaseError::NoFreePage
    );
    assert_eq!(pool.page_count("t"), 2);
    assert_eq!(pool.get_free_page("t", 8163).unwrap(), 1);

    let block = pool.save_page("t", 0).unwrap();
    let page = Page::decode(&block).unwrap();
    assert_eq!(&page, pool.get_page("t", 0).unwrap());
    assert_eq!(page.get_item(0).unwrap(), &[1u8; 8000][..]);

    assert_eq!(pool.put_page("u", page.clone()).unwrap(), 0);
    assert!(matches!(
        pool.put_page("u", page.clone()),
        Err(DatabaseError::SerializationError(_))
    ));
    let mut broken = Page::new(1, PageType::Table);
    broken.header.lower = 9000;
    assert!(pool.put_page("u", broken).is_err());
    assert_eq!(pool.put_page("u", Page::new(1, PageType::Table)).unwrap(), 1);
    assert_eq!(pool.page_count("u"), 2);
    assert_eq!(pool.page_count("t"), 2);
}

#[test]
fn buffer_pool_search_ceiling() {
    let mut pool = BufferManager::new();
    let payload = vec![0u8; 8163];
    for i in 0..MAX_PAGES {
        let page_id = pool.get_free_page("t", payload.len()).unwrap();
        assert_eq!(page_id as usize, i);
        pool.add_data("t", page_id, &payload).unwrap();
    }
    assert_eq!(pool.page_count("t"), 1000);
    assert_eq!(
        pool.get_free_page("t", 1).unwrap_err(),
        DatabaseError::NoFreePage
    );
    assert_eq!(
        pool.put_page("t", Page::new(1000, PageType::Table)).unwrap_err(),
        DatabaseError::NoFreePage
    );
}

fn scan_of(n: i64) -> PhysicalPlan {
    PhysicalPlan::SeqScanExec {
        schema: OutputSchema {
            fields: vec![Field {
                name: "n".to_string(),
                alias: None,
                data_type: DataType::Int64,
                is_nullable: false,
            }],
        },
        rows: (0..n).map(|i| Row::new(vec![Value::Int64(i)])).collect(),
        cursor: 0,
    }
}

fn n_column() -> AnalyzedExpression {
    AnalyzedExpression::Column(
        ColumnReference {
            index: 0,
            relation: None,
        },
        DataType::Int64,
    )
}

fn compare(op: Operator, value: i64) -> AnalyzedExpression {
    AnalyzedExpression::BinaryExpr {
        left: Box::new(n_column()),
        op,
        right: Box::new(AnalyzedExpression::Literal(Value::Int64(value))),
        return_type: DataType::Bool,
    }
}

#[test]
fn scan_hands_out_batches_of_the_nominal_size() {
    let evaluator = ExpressionEvaluator::new(Floats);
    let mut plan = scan_of(2500);
    let sizes: Vec<usize> = std::iter::from_fn(|| plan.next(&evaluator).unwrap())
        .map(|batch| batch.rows.len())
        .collect();
    assert_eq!(BATCH_SIZE, 1024);
    assert_eq!(sizes, vec![1024, 1024, 452]);
    assert!(plan.next(&evaluator).unwrap().is_none());
    assert_eq!(plan.schema().fields.len(), 1);
}

#[test]
fn filter_never_returns_an_empty_batch() {
    let evaluator = ExpressionEvaluator::new(Floats);
    let mut plan = PhysicalPlan::FilterExec {
        input: Box::new(scan_of(5000)),
        condition: compare(Operator::GreaterThanEqual, 3000),
    };
    let first = plan.next(&evaluator).unwrap().unwrap();
    assert_eq!(first.rows.len(), 72);
    assert_eq!(first.rows[0], Row::new(vec![Value::Int64(3000)]));
    let second = plan.next(&evaluator).unwrap().unwrap();
    assert_eq!(second.rows.len(), 1024);
    let third = plan.next(&evaluator).unwrap().unwrap();
    assert_eq!(third.rows.len(), 904);
    assert!(plan.next(&evaluator).unwrap().is_none());

    let mut none = PhysicalPlan::FilterExec {
        input: Box::new(scan_of(5000)),
        condition: compare(Operator::LessThan, 0),
    };
    assert!(none.next(&evaluator).unwrap().is_none());
    assert_eq!(none.collect(&evaluator).unwrap(), Vec::<Row>::new());
}

#[test]
fn projection_keeps_the_row_count() {
    let evaluator = ExpressionEvaluator::new(Floats);
    let mut plan = PhysicalPlan::ProjectionExec {
        input: Box::new(PhysicalPlan::FilterExec {
            input: Box::new(scan_of(10)),
            condition: compare(Operator::NotEqual, 4),
        }),
        expressions: vec![
            AnalyzedExpression::BinaryExpr {
                left: Box::new(n_column()),
                op: Operator::Multiply,
                right: Box::new(n_column()),
                return_type: DataType::Int64,
            },
            AnalyzedExpression::Literal(Value::Text("k".to_string())),
        ],
        schema: OutputSchema { fields: vec![] },
    };
    let rows = plan.collect(&evaluator).unwrap();
    let expected: Vec<Row> = (0..10i64)
        .filter(|n| *n != 4)
        .map(|n| Row::new(vec![Value::Int64(n * n), Value::Text("k".to_string())]))
        .collect();
    assert_eq!(rows, expected);
    assert!(plan.next(&evaluator).unwrap().is_none());
}

#[test]
fn a_failing_row_ends_the_stream_with_its_error() {
    let evaluator = ExpressionEvaluator::new(Floats);
    let mut plan = PhysicalPlan::FilterExec {
        input: Box::new(scan_of(3000)),
        condition: AnalyzedExpression::BinaryExpr {
            left: Box::new(AnalyzedExpression::BinaryExpr {
                left: Box::new(AnalyzedExpression::Literal(Value::Int64(1))),
                op: Operator::Divide,
                right: Box::new(AnalyzedExpression::BinaryExpr {
                    left: Box::new(n_column()),
                    op: Operator::Subtract,
                    right: Box::new(AnalyzedExpression::Literal(Value::Int64(2999))),
                    return_type: DataType::Int64,
                }),
                return_type: DataType::Int64,
            }),
            op: Operator::LessThanEqual,
            right: Box::new(AnalyzedExpression::Literal(Value::Int64(0))),
            return_type: DataType::Bool,
        },
    };
    assert_eq!(
        plan.collect(&evaluator).unwrap_err(),
        DatabaseError::DivisionByZero
    );
}

#[test]
fn a_fault_in_a_batch_ends_the_query_in_place_of_that_batch() {
    let evaluator = ExpressionEvaluator::new(Floats);
    let rows: Vec<Row> = (0..3000i64)
        .map(|n| {
            Row::new(vec![
                Value::Int64(n),
                if n == 1 || n == 2000 {
                    Value::Text("x".to_string())
                } else {
                    Value::Int64(0)
                },
            ])
        })
        .collect();
    let second_column = AnalyzedExpression::Column(
        ColumnReference {
            index: 1,
            relation: None,
        },
        DataType::Int64,
    );
    let plan_over = |rows: Vec<Row>, divisor_shift: i64| PhysicalPlan::ProjectionExec {
        input: Box::new(PhysicalPlan::FilterExec {
            input: Box::new(PhysicalPlan::SeqScanExec {
                schema: OutputSchema { fields: vec![] },
                rows,
                cursor: 0,
            }),
            condition: AnalyzedExpression::BinaryExpr {
                left: Box::new(second_column_copy()),
                op: Operator::LessThan,
                right: Box::new(AnalyzedExpression::Literal(Value::Int64(5))),
                return_type: DataType::Bool,
            },
        }),
        expressions: vec![AnalyzedExpression::BinaryExpr {
            left: Box::new(AnalyzedExpression::Literal(Value::Int64(1))),
            op: Operator::Divide,
            right: Box::new(AnalyzedExpression::BinaryExpr {
                left: Box::new(n_column()),
                op: Operator::Subtract,
                right: Box::new(AnalyzedExpression::Literal(Value::Int64(divisor_shift))),
                return_type: DataType::Int64,
            }),
            return_type: DataType::Int64,
        }],
        schema: OutputSchema { fields: vec![] },
    };
    assert_eq!(second_column, second_column_copy());

    // Row 0 fails in the projection and row 1 in the filter: the filter
    // works on the whole batch first, so its fault is the one that comes.
    let mut plan = plan_over(rows.clone(), 0);
    assert!(matches!(
        plan.collect(&evaluator),
        Err(DatabaseError::TypeMismatch(_))
    ));

    // The projection would fail on row 1500 and the filter on row 2000,
    // both in one batch: again the fault of the filter comes.
    let later: Vec<Row> = rows[1024..].to_vec();
    let mut plan = plan_over(later.clone(), 1500);
    assert!(matches!(
        plan.collect(&evaluator),
        Err(DatabaseError::TypeMismatch(_))
    ));

    // Where no row of the batch fails in the filter, the fault of the
    // projection comes.
    let mut plan = plan_over(later[..900].to_vec(), 1500);
    assert_eq!(
        plan.collect(&evaluator).unwrap_err(),
        DatabaseError::DivisionByZero
    );
    let mut plan = plan_over(rows[500..1800].to_vec(), 600);
    assert_eq!(
        plan.collect(&evaluator).unwrap_err(),
        DatabaseError::DivisionByZero
    );
    let mut plan = plan_over(rows[500..1800].to_vec(), 500);
    let first = plan.next(&evaluator);
    assert_eq!(first.unwrap_err(), DatabaseError::DivisionByZero);
}

fn second_column_copy() -> AnalyzedExpression {
    AnalyzedExpression::Column(
        ColumnReference {
            index: 1,
            relation: None,
        },
        DataType::Int64,
    )
}
