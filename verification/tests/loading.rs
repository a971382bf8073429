use my_blog::{
    decode, load, parse_json, ContentModel, DecodeError, Field, JsonValue, Post, PostFault,
    BLOG_SOURCE,
};

fn post(title: &str, content: &str) -> Post {
    Post { title: title.to_string(), content: content.to_string() }
}

#[test]
fn loads_the_blog_in_document_order() {
    let model = load(BLOG_SOURCE).expect("the blog's own text loads");
    assert_eq!(model.len(), 3);
    assert_eq!(model.categories()[0].name, "Programming");
    assert_eq!(
        model.categories()[0].posts,
        vec![
            post(
                "Rust and WebAssembly",
                "Learn how to build a blog using Rust and WebAssembly..."
            ),
            post(
                "Async Programming in JavaScript",
                "Discover the power of async programming in modern JavaScript..."
            ),
        ]
    );
    assert_eq!(model.categories()[1].name, "Photography");
    assert_eq!(
        model.categories()[1].posts,
        vec![post(
            "Landscape Photography Tips",
            "Capture stunning landscape photos with these essential tips..."
        )]
    );
    assert_eq!(model.categories()[2].name, "Travel");
    assert_eq!(
        model.categories()[2].posts,
        vec![post(
            "Top 5 European Cities to Visit",
            "Explore the best European cities for your next vacation..."
        )]
    );
}

#[test]
fn keeps_categories_in_the_order_of_the_text() {
    let model = load(r#"{"b": [], "a": [], "c": []}"#).unwrap();
    assert_eq!(model.len(), 3);
    assert_eq!(model.categories()[0].name, "b");
    assert_eq!(model.categories()[1].name, "a");
    assert_eq!(model.categories()[2].name, "c");
}

#[test]
fn loads_an_empty_object_as_an_empty_model() {
    let model = load("{}").unwrap();
    assert_eq!(model.len(), 0);
    assert_eq!(model, ContentModel::new());
}

#[test]
fn loads_a_category_without_posts() {
    let model = load(r#"{"Empty": []}"#).unwrap();
    assert_eq!(model.len(), 1);
    assert_eq!(model.categories()[0].name, "Empty");
    assert!(model.categories()[0].posts.is_empty());
}

#[test]
fn accepts_empty_texts() {
    let model = load(r#"{"": [{"title": "", "content": ""}]}"#).unwrap();
    assert_eq!(model.len(), 1);
    assert_eq!(model.categories()[0].name, "");
    assert_eq!(model.categories()[0].posts, vec![post("", "")]);
}

#[test]
fn ignores_other_members_of_a_post() {
    let model =
        load(r#"{"A": [{"author": 7, "content": "c", "title": "t", "tags": ["x"]}]}"#).unwrap();
    assert_eq!(model.categories()[0].posts, vec![post("t", "c")]);
}

#[test]
fn decodes_escapes_in_texts() {
    let model = load(r#"{"A": [{"title": "a\"b", "content": "line\nbreak é"}]}"#).unwrap();
    assert_eq!(model.categories()[0].posts, vec![post("a\"b", "line\nbreak \u{e9}")]);
}

#[test]
fn a_repeated_category_keeps_its_place_and_its_last_posts() {
    let model = load(
        r#"{"A": [{"title": "1", "content": "x"}], "B": [], "A": [{"title": "2", "content": "y"}]}"#,
    )
    .unwrap();
    assert_eq!(model.len(), 2);
    assert_eq!(model.categories()[0].name, "A");
    assert_eq!(model.categories()[0].posts, vec![post("2", "y")]);
    assert_eq!(model.categories()[1].name, "B");
}

#[test]
fn refuses_a_post_without_content() {
    let outcome = load(r#"{"Programming": [{"title": "X"}]}"#);
    assert_eq!(
        outcome,
        Err(DecodeError::BadPost {
            category: "Programming".to_string(),
            index: 0,
            fault: PostFault::Missing(Field::Content),
        })
    );
}

#[test]
fn refuses_a_post_without_title() {
    let outcome = load(r#"{"A": [{"title": "t", "content": "c"}, {"content": "c"}]}"#);
    assert_eq!(
        outcome,
        Err(DecodeError::BadPost {
            category: "A".to_string(),
            index: 1,
            fault: PostFault::Missing(Field::Title),
        })
    );
}

#[test]
fn refuses_a_title_that_is_no_text() {
    let outcome = load(r#"{"A": [{"title": 5, "content": "c"}]}"#);
    assert_eq!(
        outcome,
        Err(DecodeError::BadPost {
            category: "A".to_string(),
            index: 0,
            fault: PostFault::NotText(Field::Title),
        })
    );
}

#[test]
fn refuses_a_content_that_is_no_text() {
    let outcome = load(r#"{"A": [{"title": "t", "content": null}]}"#);
    assert_eq!(
        outcome,
        Err(DecodeError::BadPost {
            category: "A".to_string(),
            index: 0,
            fault: PostFault::NotText(Field::Content),
        })
    );
}

#[test]
fn reports_the_title_before_the_content() {
    let outcome = load(r#"{"A": [{"content": 1}]}"#);
    assert_eq!(
        outcome,
        Err(DecodeError::BadPost {
            category: "A".to_string(),
            index: 0,
            fault: PostFault::Missing(Field::Title),
        })
    );
}

#[test]
fn refuses_an_entry_that_is_no_object() {
    let outcome = load(r#"{"A": [{"title": "t", "content": "c"}, "loose", 3]}"#);
    assert_eq!(
        outcome,
        Err(DecodeError::BadPost {
            category: "A".to_string(),
            index: 1,
            fault: PostFault::NotAnObject,
        })
    );
}

#[test]
fn refuses_an_entry_that_is_an_array() {
    let outcome = load(r#"{"A": [["t", "c"]]}"#);
    assert_eq!(
        outcome,
        Err(DecodeError::BadPost {
            category: "A".to_string(),
            index: 0,
            fault: PostFault::NotAnObject,
        })
    );
}

#[test]
fn refuses_a_category_that_is_no_array() {
    let outcome = load(r#"{"A": [], "B": {"title": "t", "content": "c"}}"#);
    assert_eq!(outcome, Err(DecodeError::NotAnArray { category: "B".to_string() }));
}

#[test]
fn reports_the_first_category_at_fault() {
    let outcome = load(r#"{"A": [1], "B": 2}"#);
    assert_eq!(
        outcome,
        Err(DecodeError::BadPost {
            category: "A".to_string(),
            index: 0,
            fault: PostFault::NotAnObject,
        })
    );
    let outcome = load(r#"{"B": 2, "A": [1]}"#);
    assert_eq!(outcome, Err(DecodeError::NotAnArray { category: "B".to_string() }));
}

#[test]
fn refuses_a_value_that_is_no_object() {
    assert_eq!(load("[]"), Err(DecodeError::NotAnObject));
    assert_eq!(load("\"text\""), Err(DecodeError::NotAnObject));
    assert_eq!(load("null"), Err(DecodeError::NotAnObject));
    assert_eq!(load("12"), Err(DecodeError::NotAnObject));
}

#[test]
fn refuses_a_truncated_text_with_the_parser_message() {
    let text = r#"{"Programming": [{"title": "X", "content": "Y"}"#;
    let expected = serde_json::from_str::<serde_json::Value>(text).unwrap_err().to_string();
    assert_eq!(expected, "EOF while parsing a list at line 1 column 47");
    assert_eq!(load(text), Err(DecodeError::Syntax { message: expected }));
}

#[test]
fn refuses_text_that_is_no_json() {
    assert_eq!(
        load("not json"),
        Err(DecodeError::Syntax { message: "expected ident at line 1 column 2".to_string() })
    );
    assert_eq!(
        load(""),
        Err(DecodeError::Syntax {
            message: "EOF while parsing a value at line 1 column 0".to_string()
        })
    );
    assert_eq!(
        load("{} {}"),
        Err(DecodeError::Syntax { message: "trailing characters at line 1 column 4".to_string() })
    );
}

fn text(value: &str) -> JsonValue {
    JsonValue::Text(value.to_string())
}

fn object(members: Vec<(&str, JsonValue)>) -> JsonValue {
    JsonValue::Object(members.into_iter().map(|(key, value)| (key.to_string(), value)).collect())
}

#[test]
fn decodes_a_value_built_by_hand() {
    let value = object(vec![
        (
            "News",
            JsonValue::Array(vec![
                object(vec![("title", text("One")), ("content", text("<p>1</p>"))]),
                object(vec![("content", text("two")), ("title", text("Two"))]),
            ]),
        ),
        ("Later", JsonValue::Array(Vec::new())),
    ]);
    let model = decode(&value).unwrap();
    assert_eq!(model.len(), 2);
    assert_eq!(model.categories()[0].name, "News");
    assert_eq!(model.categories()[0].posts, vec![post("One", "<p>1</p>"), post("Two", "two")]);
    assert_eq!(model.categories()[1].name, "Later");
    assert!(model.categories()[1].posts.is_empty());
}

#[test]
fn decode_refuses_values_of_other_kinds() {
    assert_eq!(decode(&JsonValue::Other), Err(DecodeError::NotAnObject));
    assert_eq!(decode(&text("posts")), Err(DecodeError::NotAnObject));
    assert_eq!(decode(&JsonValue::Array(Vec::new())), Err(DecodeError::NotAnObject));
    assert_eq!(
        decode(&object(vec![("A", text("posts"))])),
        Err(DecodeError::NotAnArray { category: "A".to_string() })
    );
    assert_eq!(
        decode(&object(vec![("A", JsonValue::Array(vec![JsonValue::Other]))])),
        Err(DecodeError::BadPost {
            category: "A".to_string(),
            index: 0,
            fault: PostFault::NotAnObject,
        })
    );
}

#[test]
fn decode_reads_the_last_member_of_a_key() {
    let value = object(vec![(
        "A",
        JsonValue::Array(vec![object(vec![
            ("title", JsonValue::Other),
            ("content", text("c")),
            ("title", text("last")),
        ])]),
    )]);
    let model = decode(&value).unwrap();
    assert_eq!(model.categories()[0].posts, vec![post("last", "c")]);
    let value = object(vec![(
        "A",
        JsonValue::Array(vec![object(vec![
            ("title", text("first")),
            ("content", text("c")),
            ("title", JsonValue::Other),
        ])]),
    )]);
    assert_eq!(
        decode(&value),
        Err(DecodeError::BadPost {
            category: "A".to_string(),
            index: 0,
            fault: PostFault::NotText(Field::Title),
        })
    );
}

#[test]
fn decode_files_a_repeated_name_once() {
    let value = object(vec![
        ("A", JsonValue::Array(vec![object(vec![("title", text("1")), ("content", text("x"))])])),
        ("B", JsonValue::Array(Vec::new())),
        ("A", JsonValue::Array(Vec::new())),
    ]);
    let model = decode(&value).unwrap();
    assert_eq!(model.len(), 2);
    assert_eq!(model.categories()[0].name, "A");
    assert!(model.categories()[0].posts.is_empty());
    assert_eq!(model.categories()[1].name, "B");
}

#[test]
fn parses_each_kind_of_value() {
    assert_eq!(parse_json("\"a\\u0062c\""), Ok(text("abc")));
    assert_eq!(parse_json("null"), Ok(JsonValue::Other));
    assert_eq!(parse_json("true"), Ok(JsonValue::Other));
    assert_eq!(parse_json("-1.5e3"), Ok(JsonValue::Other));
    assert_eq!(parse_json(" [ ] "), Ok(JsonValue::Array(Vec::new())));
    assert_eq!(parse_json("{}"), Ok(JsonValue::Object(Vec::new())));
    assert_eq!(
        parse_json(r#"{"z": ["x", 1, {"k": null}], "a": "y"}"#),
        Ok(object(vec![
            (
                "z",
                JsonValue::Array(vec![
                    text("x"),
                    JsonValue::Other,
                    object(vec![("k", JsonValue::Other)]),
                ]),
            ),
            ("a", text("y")),
        ]))
    );
}

#[test]
fn parses_a_repeated_key_to_its_last_value() {
    assert_eq!(
        parse_json(r#"{"a": 1, "b": "x", "a": "y"}"#),
        Ok(object(vec![("a", text("y")), ("b", text("x"))]))
    );
}

#[test]
fn parse_failures_carry_the_parser_message() {
    let source = "{\"a\": [1, 2";
    let expected = serde_json::from_str::<serde_json::Value>(source).unwrap_err().to_string();
    assert_eq!(parse_json(source), Err(expected));
    assert_eq!(parse_json("{\"a\": }"), Err("expected value at line 1 column 7".to_string()));
}

#[test]
fn field_keys_are_the_names_in_the_text() {
    assert_eq!(Field::Title.key(), "title");
    assert_eq!(Field::Content.key(), "content");
}
