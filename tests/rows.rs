use firesql::{
    document_json, plan_query, render_value, shape_row, shape_rows, Document, FieldFilter,
    FieldValue, FireSQLParser, RenderError, Row, SelectProjection, TranslateError,
};

fn doc(name: &str, fields: Vec<(&str, FieldValue)>) -> Document {
    Document {
        name: name.to_owned(),
        fields: fields.into_iter().map(|(k, v)| (k.to_owned(), v)).collect(),
    }
}

fn text(s: &str) -> FieldValue {
    FieldValue::Text(s.to_owned())
}

#[test]
fn statement_to_rows_end_to_end() {
    let select = FireSQLParser::parse("SELECT *, company FROM users/USER_ID/achievements").unwrap();
    let plan = plan_query(select).unwrap();
    assert_eq!(plan.collection, "users/USER_ID/achievements");
    assert_eq!(plan.fields, None);
    assert!(plan.filters.is_empty());
    let docs = vec![doc(
        "projects/p/databases/(default)/documents/users/USER_ID/achievements/abc123",
        vec![("company", text("Acme"))],
    )];
    let rows = shape_rows(&plan.projections, &docs).unwrap();
    assert_eq!(
        rows,
        vec![Row(
            "abc123".to_owned(),
            vec![
                ("*".to_owned(), "{\"company\":\"Acme\"}".to_owned()),
                ("company".to_owned(), "Acme".to_owned()),
            ]
        )]
    );
    assert_eq!(rows[0].id(), "abc123");
    assert_eq!(rows[0].columns().len(), 2);
}

#[test]
fn columns_follow_projection_order() {
    let projections = vec![SelectProjection::Property("name".to_owned()), SelectProjection::ObjectId];
    let row = shape_row(&projections, &doc("c/x1", vec![("name", text("Ann"))])).unwrap();
    let names: Vec<&str> = row.columns().iter().map(|(n, _)| n.as_str()).collect();
    assert_eq!(names, vec!["name", ":id"]);
    assert_eq!(row.columns()[1].1, "x1");
}

#[test]
fn missing_field_is_nil() {
    let projections = vec![SelectProjection::Property("age".to_owned())];
    let row = shape_row(&projections, &doc("c/x1", vec![("name", text("Ann"))])).unwrap();
    assert_eq!(row.columns(), &vec![("age".to_owned(), "nil".to_owned())]);
}

#[test]
fn value_rendering() {
    assert_eq!(render_value(&FieldValue::Null), Ok("NULL".to_owned()));
    assert_eq!(render_value(&FieldValue::Boolean(true)), Ok("true".to_owned()));
    assert_eq!(render_value(&FieldValue::Integer(-42)), Ok("-42".to_owned()));
    assert_eq!(render_value(&FieldValue::Integer(1234567)), Ok("1234567".to_owned()));
    assert_eq!(render_value(&FieldValue::Double("2.5".to_owned())), Ok("2.5".to_owned()));
    assert_eq!(render_value(&text("hi")), Ok("hi".to_owned()));
    assert_eq!(render_value(&FieldValue::Reference("users/u1".to_owned())), Ok("#:users/u1".to_owned()));
    assert_eq!(
        render_value(&FieldValue::GeoPoint("1.5".to_owned(), "-2".to_owned())),
        Ok("1.5:-2".to_owned())
    );
    assert_eq!(
        render_value(&FieldValue::Array(vec![FieldValue::Integer(1), text("a"), FieldValue::Null])),
        Ok("1, a, NULL".to_owned())
    );
    assert_eq!(
        render_value(&FieldValue::Fields(vec![
            ("k".to_owned(), FieldValue::Integer(1)),
            ("l".to_owned(), FieldValue::Array(vec![])),
        ])),
        Ok("(k : 1), (l : )".to_owned())
    );
}

#[test]
fn byte_blobs_are_not_rendered() {
    assert_eq!(render_value(&FieldValue::Bytes(vec![1, 2])), Err(RenderError::UnsupportedBytes));
    assert_eq!(
        render_value(&FieldValue::Array(vec![FieldValue::Null, FieldValue::Bytes(vec![])])),
        Err(RenderError::UnsupportedBytes)
    );
    let projections = vec![SelectProjection::Object];
    assert_eq!(
        shape_row(&projections, &doc("c/x", vec![("b", FieldValue::Bytes(vec![0]))])),
        Err(RenderError::UnsupportedBytes)
    );
}

#[test]
fn document_json_quotes_keys_and_texts() {
    let fields = vec![
        ("a\"b".to_owned(), text("x\ny")),
        ("n".to_owned(), FieldValue::Integer(3)),
    ];
    assert_eq!(document_json(&fields), Ok("{\"a\\\"b\":\"x\\ny\",\"n\":\"3\"}".to_owned()));
    assert_eq!(document_json(&vec![]), Ok("{}".to_owned()));
}

#[test]
fn filters_are_one_per_condition() {
    let select = FireSQLParser::parse("SELECT name, :id FROM c WHERE a = 1 AND b is null AND c < \"z\"").unwrap();
    let plan = plan_query(select).unwrap();
    assert_eq!(plan.fields, Some(vec!["name".to_owned()]));
    assert_eq!(plan.filters.len(), 3);
    assert_eq!(plan.filters[1], FieldFilter::IsNull("b".to_owned()));
    assert!(matches!(plan.filters[0], FieldFilter::Compare(ref f, _) if f == "a"));
}

#[test]
fn negated_conditions_are_refused() {
    let select = FireSQLParser::parse("SELECT :id FROM c WHERE a is not null").unwrap();
    assert_eq!(plan_query(select).err(), Some(TranslateError::UnsupportedNegation));
}

#[test]
fn rows_for_no_documents() {
    let projections = vec![SelectProjection::ObjectId];
    assert_eq!(shape_rows(&projections, &vec![]), Ok(vec![]));
}
