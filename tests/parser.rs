use firesql::{
    Collection, CompareOperations, Condition, Expected, FireSQLParser, FireSQLSelect, GrammarError,
    Number, ParseError, SelectProjection, Value,
};

fn number(negative: bool, whole: &str, fraction: &str) -> Value {
    Value::Number(Number {
        negative,
        whole: whole.to_owned(),
        fraction: fraction.to_owned(),
    })
}

fn comparison(field: &str, value: Value) -> Condition {
    Condition::Comparison(field.to_owned(), CompareOperations::Equal(value))
}

#[test]
fn parse_simple_statement() {
    let result = FireSQLParser::parse(
        r"SELECT *, company
        frOM users/USER_ID/achievements",
    );

    assert_eq!(
        result,
        Ok(FireSQLSelect {
            projections: vec![
                SelectProjection::Object,
                SelectProjection::Property("company".to_owned()),
            ],
            collection: Collection {
                path: "users/USER_ID/achievements".to_owned(),
            },
            conditions: vec![],
        }),
    )
}

#[test]
fn parse_statement_with_conditions() {
    let result = FireSQLParser::parse(
        r#"SELECT :id
                frOM users/USER_ID/achievements
                WHERE name = "abc"
                and name != 4
                and value > 42
                and done = true
                AND completed is not null
                and completion is null
                "#,
    );
    assert!(result.is_ok());
}

#[test]
fn sql_parser_single_letter_identifiers() {
    let result = FireSQLParser::parse(
        r#"
                select a from b
                where
                c = "d"
                and e = 5
            "#,
    );
    assert!(result.is_ok());
    assert_eq!(
        result.unwrap(),
        FireSQLSelect {
            projections: vec![SelectProjection::Property("a".to_owned())],
            collection: Collection {
                path: "b".to_owned()
            },
            conditions: vec![
                Condition::Comparison(
                    "c".to_owned(),
                    CompareOperations::Equal(Value::String("d".to_owned()))
                ),
                Condition::Comparison(
                    "e".to_owned(),
                    CompareOperations::Equal(number(false, "5", ""))
                )
            ]
        }
    )
}

#[test]
fn basic_query() {
    let parsed = FireSQLParser::parse(
        r"SELECT *, company
            frOM users/USER_ID/achievements",
    );
    println!("parsed: {:#?}", parsed);
    assert!(parsed.is_ok());
}

#[test]
fn single_where_query() {
    let parsed = FireSQLParser::parse(
        r#"SELECT :id
                frOM users/USER_ID/achievements
                WHERE company = "abc""#,
    );
    println!("parsed: {:#?}", parsed);
    assert!(parsed.is_ok());
}

#[test]
fn multi_where_query() {
    let parsed = FireSQLParser::parse(
        r#"SELECT :id
                frOM users/USER_ID/achievements
                WHERE name = "abc"
                and name != 4
                and value > 42
                and done = true
                AND completed is not null
                and completion is null
                "#,
    );
    assert!(parsed.is_ok());
}

#[test]
fn sql_grammar_single_letter_identifiers() {
    let parsed = FireSQLParser::parse(
        r#"select a from b
                where
                c = "d"
                and e = 5"#,
    );
    assert!(parsed.is_ok());
}

#[test]
fn parsing_twice_gives_the_same_tree() {
    let text = "select :id, name from users/u1/posts where likes > 10 and draft is null";
    assert_eq!(FireSQLParser::parse(text), FireSQLParser::parse(text));
    let bad = "select from";
    assert_eq!(FireSQLParser::parse(bad), FireSQLParser::parse(bad));
}

#[test]
fn odd_paths_parse() {
    assert!(FireSQLParser::parse("SELECT :id FROM users/USER_ID/achievements").is_ok());
    assert!(FireSQLParser::parse("SELECT :id FROM users").is_ok());
    assert!(FireSQLParser::parse("SELECT :id FROM a/b/c/d/e").is_ok());
}

#[test]
fn even_paths_are_refused() {
    assert_eq!(
        FireSQLParser::parse("SELECT :id FROM users/USER_ID"),
        Err(ParseError::InvalidCollectionPath("users/USER_ID".to_owned()))
    );
    assert_eq!(
        FireSQLParser::parse("SELECT * FROM a/b/c/d where x = 1"),
        Err(ParseError::InvalidCollectionPath("a/b/c/d".to_owned()))
    );
}

#[test]
fn malformed_paths_are_grammar_errors() {
    assert_eq!(
        FireSQLParser::parse("SELECT * FROM a//b"),
        Err(ParseError::GrammarError(GrammarError {
            position: 14,
            expected: Expected::CollectionPath,
        }))
    );
    assert_eq!(
        FireSQLParser::parse("SELECT * FROM "),
        Err(ParseError::GrammarError(GrammarError {
            position: 14,
            expected: Expected::CollectionPath,
        }))
    );
}

#[test]
fn is_not_null_becomes_a_negation() {
    let parsed = FireSQLParser::parse(
        "SELECT :id FROM users/USER_ID/achievements WHERE done = true AND completed is not null",
    )
    .unwrap();
    assert_eq!(
        parsed.conditions,
        vec![
            comparison("done", Value::Bool(true)),
            Condition::Not(Box::new(Condition::IsNull("completed".to_owned()))),
        ]
    );
}

#[test]
fn empty_projection_list_is_a_grammar_error() {
    assert_eq!(
        FireSQLParser::parse("SELECT FROM x"),
        Err(ParseError::GrammarError(GrammarError {
            position: 7,
            expected: Expected::Projection,
        }))
    );
}

#[test]
fn grammar_errors_name_what_was_expected() {
    let err = |position: usize, expected: Expected| {
        Err(ParseError::GrammarError(GrammarError { position, expected }))
    };
    assert_eq!(FireSQLParser::parse("  UPDATE x"), err(2, Expected::SelectKeyword));
    assert_eq!(FireSQLParser::parse("SELECT a b"), err(9, Expected::FromKeyword));
    assert_eq!(FireSQLParser::parse("SELECT a FROM b c"), err(16, Expected::WhereOrEnd));
    assert_eq!(FireSQLParser::parse("SELECT a FROM b WHERE 1 = 2"), err(22, Expected::Condition));
    assert_eq!(FireSQLParser::parse("SELECT a FROM b WHERE c is d"), err(27, Expected::NullKeyword));
    assert_eq!(FireSQLParser::parse("SELECT a FROM b WHERE c \"d\""), err(24, Expected::Operator));
    assert_eq!(FireSQLParser::parse("SELECT a FROM b WHERE c = d"), err(26, Expected::Value));
    assert_eq!(FireSQLParser::parse("SELECT a FROM b WHERE c = \"d"), err(26, Expected::Value));
    assert_eq!(FireSQLParser::parse("SELECT a FROM b WHERE c = 1 or d = 2"), err(28, Expected::AndOrEnd));
}

#[test]
fn unknown_operators_are_unexpected_items() {
    assert_eq!(
        FireSQLParser::parse("SELECT a FROM b WHERE c >= 1"),
        Err(ParseError::UnexpectedItem(">=".to_owned()))
    );
}

#[test]
fn keywords_ignore_case_but_names_do_not() {
    let parsed = FireSQLParser::parse("sElEcT Name FrOm Users wHeRe Age < 3 AnD x Is NuLl").unwrap();
    assert_eq!(parsed.projections, vec![SelectProjection::Property("Name".to_owned())]);
    assert_eq!(parsed.collection.path, "Users");
    assert_eq!(
        parsed.conditions,
        vec![
            Condition::Comparison("Age".to_owned(), CompareOperations::LessThan(number(false, "3", ""))),
            Condition::IsNull("x".to_owned()),
        ]
    );
}

#[test]
fn literal_kinds() {
    let parsed = FireSQLParser::parse(
        "SELECT a FROM b WHERE a = -007.250 AND b != false AND c = #users/u1 AND d > 0.5",
    )
    .unwrap();
    assert_eq!(
        parsed.conditions,
        vec![
            comparison("a", number(true, "7", "25")),
            Condition::Comparison("b".to_owned(), CompareOperations::NotEqual(Value::Bool(false))),
            comparison("c", Value::Reference("users/u1".to_owned())),
            Condition::Comparison("d".to_owned(), CompareOperations::GreaterThan(number(false, "", "5"))),
        ]
    );
}

#[test]
fn projections_keep_their_order() {
    let parsed = FireSQLParser::parse("SELECT name, :id, *, age FROM c").unwrap();
    assert_eq!(
        parsed.projections,
        vec![
            SelectProjection::Property("name".to_owned()),
            SelectProjection::ObjectId,
            SelectProjection::Object,
            SelectProjection::Property("age".to_owned()),
        ]
    );
}
