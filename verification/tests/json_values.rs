use misfit_engine::json::{
    find_key, parse_json, set_json_path, set_json_value, to_pretty_json, JsonSetError, JsonValue,
    KeyPathError,
};

fn num(n: i64) -> JsonValue {
    JsonValue::Number(serde_json::Number::from(n))
}

fn text(s: &str) -> JsonValue {
    JsonValue::Text(s.to_string())
}

fn obj(members: Vec<(&str, JsonValue)>) -> JsonValue {
    JsonValue::Object(members.into_iter().map(|(k, v)| (k.to_string(), v)).collect())
}

fn path(parts: &[&str]) -> Vec<String> {
    parts.iter().map(|s| s.to_string()).collect()
}

#[test]
fn parse_reads_every_kind_of_value() {
    let doc = parse_json(r#"{"b": [1, "two", null, true, {"x": -3}], "a": 1.5}"#).unwrap();
    let expected = obj(vec![
        ("a", JsonValue::Number(serde_json::Number::from_f64(1.5).unwrap())),
        (
            "b",
            JsonValue::Array(vec![
                num(1),
                text("two"),
                JsonValue::Null,
                JsonValue::Bool(true),
                obj(vec![("x", num(-3))]),
            ]),
        ),
    ]);
    assert_eq!(doc, expected);
}

#[test]
fn parse_refuses_what_is_not_json() {
    assert!(parse_json("{not json").is_err());
    assert!(parse_json("").is_err());
    assert!(parse_json("{} trailing").is_err());
}

#[test]
fn parse_keeps_one_member_per_name() {
    let doc = parse_json(r#"{"a": 1, "a": 2}"#).unwrap();
    assert_eq!(doc, obj(vec![("a", num(2))]));
}

#[test]
fn pretty_print_indents_by_two() {
    let doc = obj(vec![("a", obj(vec![("b", num(42))]))]);
    assert_eq!(to_pretty_json(&doc).unwrap(), "{\n  \"a\": {\n    \"b\": 42\n  }\n}");
    assert_eq!(to_pretty_json(&obj(vec![])).unwrap(), "{}");
    assert_eq!(to_pretty_json(&JsonValue::Null).unwrap(), "null");
}

#[test]
fn pretty_print_then_parse_gives_the_document() {
    let doc = obj(vec![
        ("a", JsonValue::Array(vec![num(1), text("x\n\"y\""), JsonValue::Bool(false)])),
        ("z", obj(vec![("k", JsonValue::Null)])),
    ]);
    let printed = to_pretty_json(&doc).unwrap();
    assert_eq!(parse_json(&printed).unwrap(), doc);
}

#[test]
fn duplicate_is_equal() {
    let doc = obj(vec![("a", JsonValue::Array(vec![num(1), obj(vec![("b", text("c"))])]))]);
    assert_eq!(doc.duplicate(), doc);
    assert_eq!(doc.clone(), doc);
}

#[test]
fn set_creates_missing_objects() {
    let after = set_json_path(obj(vec![]), &path(&["a", "b"]), num(42)).unwrap();
    assert_eq!(after, obj(vec![("a", obj(vec![("b", num(42))]))]));
}

#[test]
fn set_overwrites_in_place_and_adds_at_the_end() {
    let doc = obj(vec![("x", num(1)), ("y", num(2)), ("z", num(3))]);
    let after = set_json_path(doc, &path(&["y"]), text("new")).unwrap();
    assert_eq!(after, obj(vec![("x", num(1)), ("y", text("new")), ("z", num(3))]));
    let after = set_json_path(after, &path(&["w"]), num(4)).unwrap();
    assert_eq!(
        after,
        obj(vec![("x", num(1)), ("y", text("new")), ("z", num(3)), ("w", num(4))])
    );
}

#[test]
fn set_descends_into_existing_objects() {
    let doc = obj(vec![("theme", obj(vec![("colors", obj(vec![("primary", text("red"))]))]))]);
    let after = set_json_path(doc, &path(&["theme", "colors", "accent"]), text("blue")).unwrap();
    assert_eq!(
        after,
        obj(vec![(
            "theme",
            obj(vec![(
                "colors",
                obj(vec![("primary", text("red")), ("accent", text("blue"))])
            )])
        )])
    );
}

#[test]
fn set_fails_where_the_walk_meets_no_object() {
    let doc = obj(vec![("a", num(1))]);
    match set_json_path(doc, &path(&["a", "b"]), num(2)).unwrap_err() {
        JsonSetError::NotAnObject { segment, at_target } => {
            assert_eq!(segment, 1);
            assert_eq!(at_target, true);
        }
        other => panic!("{:?}", other),
    }
    match set_json_path(JsonValue::Array(vec![]), &path(&["a"]), num(2)).unwrap_err() {
        JsonSetError::NotAnObject { segment, at_target } => {
            assert_eq!(segment, 0);
            assert_eq!(at_target, true);
        }
        other => panic!("{:?}", other),
    }
    let doc = obj(vec![("a", obj(vec![("b", JsonValue::Null)]))]);
    match set_json_path(doc, &path(&["a", "b", "c"]), num(2)).unwrap_err() {
        JsonSetError::NotAnObject { segment, at_target } => {
            assert_eq!(segment, 2);
            assert_eq!(at_target, true);
        }
        other => panic!("{:?}", other),
    }
}

#[test]
fn set_tells_the_target_from_the_way_there() {
    let doc = obj(vec![("a", num(1))]);
    match set_json_path(doc, &path(&["a", "b", "c"]), num(2)).unwrap_err() {
        JsonSetError::NotAnObject { segment, at_target } => {
            assert_eq!(segment, 1);
            assert!(!at_target);
        }
        other => panic!("{:?}", other),
    }
    match set_json_value(Some("[]"), "a.b", num(1)).unwrap_err() {
        JsonSetError::NotAnObject { segment, at_target } => {
            assert_eq!(segment, 0);
            assert!(!at_target);
        }
        other => panic!("{:?}", other),
    }
}

#[test]
fn set_where_the_value_is_held_changes_nothing() {
    let doc = parse_json(r#"{"z": 1, "a": {"c": true, "b": 42}}"#).unwrap();
    let after = set_json_path(doc.duplicate(), &path(&["a", "b"]), num(42)).unwrap();
    assert_eq!(after, doc);
    let printed = to_pretty_json(&doc).unwrap();
    assert_eq!(set_json_value(Some(&printed), "a.b", num(42)).unwrap(), printed);
}

#[test]
fn set_with_no_segments_changes_nothing() {
    let doc = obj(vec![("a", num(1))]);
    assert_eq!(set_json_path(doc.duplicate(), &vec![], num(2)).unwrap(), doc);
}

#[test]
fn set_twice_equals_set_once() {
    let cases: Vec<(JsonValue, Vec<String>, JsonValue)> = vec![
        (obj(vec![]), path(&["a", "b"]), num(42)),
        (obj(vec![("a", obj(vec![("b", num(1)), ("c", num(2))]))]), path(&["a", "b"]), text("v")),
        (obj(vec![("k", num(1))]), path(&["k"]), obj(vec![("k", num(1))])),
        (obj(vec![("x", num(1))]), path(&["a", "b", "c", "d"]), JsonValue::Null),
    ];
    for (doc, parts, value) in cases {
        let once = set_json_path(doc, &parts, value.duplicate()).unwrap();
        let twice = set_json_path(once.duplicate(), &parts, value).unwrap();
        assert_eq!(twice, once);
    }
}

#[test]
fn set_json_value_on_missing_file() {
    let out = set_json_value(None, "a.b", num(42)).unwrap();
    assert_eq!(out, "{\n  \"a\": {\n    \"b\": 42\n  }\n}");
    assert_eq!(parse_json(&out).unwrap(), obj(vec![("a", obj(vec![("b", num(42))]))]));
}

#[test]
fn set_json_value_on_existing_content() {
    let out = set_json_value(
        Some(r#"{"workbench.colorTheme": "Dark", "z": 1}"#),
        "workbench\\.colorTheme",
        text("Light"),
    )
    .unwrap();
    assert_eq!(out, "{\n  \"workbench.colorTheme\": \"Light\",\n  \"z\": 1\n}");
    let out = set_json_value(Some(r#"{"z": 1}"#), "a", num(0)).unwrap();
    assert_eq!(out, "{\n  \"a\": 0,\n  \"z\": 1\n}");
}

#[test]
fn set_json_value_twice_gives_the_same_text() {
    let once = set_json_value(Some(r#"{"q": [1, 2]}"#), "a.b", num(42)).unwrap();
    let twice = set_json_value(Some(&once), "a.b", num(42)).unwrap();
    assert_eq!(twice, once);
}

#[test]
fn set_json_value_errors() {
    match set_json_value(Some("{oops"), "a", num(1)).unwrap_err() {
        JsonSetError::Parse(_) => {}
        other => panic!("{:?}", other),
    }
    match set_json_value(Some("{oops"), "a..b", num(1)).unwrap_err() {
        JsonSetError::Parse(_) => {}
        other => panic!("{:?}", other),
    }
    match set_json_value(Some("{}"), "a..b", num(1)).unwrap_err() {
        JsonSetError::KeyPath(e) => assert_eq!(e, KeyPathError::EmptySegment),
        other => panic!("{:?}", other),
    }
    match set_json_value(None, " ", num(1)).unwrap_err() {
        JsonSetError::KeyPath(e) => assert_eq!(e, KeyPathError::Empty),
        other => panic!("{:?}", other),
    }
    match set_json_value(Some("[1]"), "a", num(1)).unwrap_err() {
        JsonSetError::NotAnObject { segment, at_target } => {
            assert_eq!(segment, 0);
            assert_eq!(at_target, true);
        }
        other => panic!("{:?}", other),
    }
    match set_json_value(Some(r#"{"a": "text"}"#), "a.b", num(1)).unwrap_err() {
        JsonSetError::NotAnObject { segment, at_target } => {
            assert_eq!(segment, 1);
            assert_eq!(at_target, true);
        }
        other => panic!("{:?}", other),
    }
}

#[test]
fn find_key_gives_the_first_member_of_a_name() {
    let members = vec![
        ("a".to_string(), 1),
        ("b".to_string(), 2),
        ("a".to_string(), 3),
    ];
    assert_eq!(find_key(&members, "a"), Some(0));
    assert_eq!(find_key(&members, "b"), Some(1));
    assert_eq!(find_key(&members, "c"), None);
    assert_eq!(find_key(&Vec::<(String, u8)>::new(), "a"), None);
}
