//! Model-level tests: the text normalizer, the MIME payload resolver, the
//! notebook parser, the size estimates, and the preprocessor shell.

use mdbook_jupyter::convert::{estimate_cell_len, ConvertError, convert_notebook_to_md};
use mdbook_jupyter::json::{value_to_text, JsonValue};
use mdbook_jupyter::notebook::{parse_notebook, parse_u32_text, Cell};
use mdbook_jupyter::text::MultilineString;
use mdbook_jupyter::JupyterPreprocessor;

fn jstr(s: &str) -> JsonValue {
    JsonValue::Text(s.to_string())
}

fn obj(entries: Vec<(&str, JsonValue)>) -> JsonValue {
    let owned: Vec<(String, JsonValue)> = entries.into_iter().map(|(k, v)| (k.to_string(), v)).collect();
    JsonValue::Obj(owned, "{}".to_string())
}

fn notebook(cells: Vec<JsonValue>) -> JsonValue {
    obj(vec![("cells", JsonValue::Arr(cells))])
}

fn code_cell_with(extra: Vec<(&str, JsonValue)>) -> JsonValue {
    let mut fields = vec![
        ("cell_type", jstr("code")),
        ("source", jstr("x")),
        ("outputs", JsonValue::Arr(vec![])),
    ];
    fields.extend(extra);
    obj(fields)
}

#[test]
fn multiline_normalization() {
    let single = MultilineString::Single("hello".to_string());
    assert_eq!(single.len(), 5);
    assert_eq!(single.into_string(), "hello");

    let multi = MultilineString::Multi(vec!["ab".to_string(), String::new(), "c".to_string()]);
    assert_eq!(multi.len(), 3);
    assert_eq!(multi.as_string(), "abc");
    assert_eq!(multi.into_string(), "abc");
}

#[test]
fn value_to_text_cases() {
    assert_eq!(value_to_text(&jstr("plain")), Some("plain".to_string()));
    assert_eq!(
        value_to_text(&JsonValue::Num("3.25".to_string())),
        Some("3.25".to_string())
    );
    assert_eq!(value_to_text(&JsonValue::Bool(true)), Some("true".to_string()));
    assert_eq!(value_to_text(&JsonValue::Bool(false)), Some("false".to_string()));
    assert_eq!(value_to_text(&JsonValue::Null), None);
    let arr = JsonValue::Arr(vec![jstr("a"), JsonValue::Null, jstr("b"), JsonValue::Bool(true)]);
    assert_eq!(value_to_text(&arr), Some("abtrue".to_string()));
    let o = JsonValue::Obj(vec![("k".to_string(), jstr("v"))], "{\"k\":\"v\"}".to_string());
    assert_eq!(value_to_text(&o), Some("{\"k\":\"v\"}".to_string()));
}

#[test]
fn parse_u32_text_bounds() {
    assert_eq!(parse_u32_text("0"), Some(0));
    assert_eq!(parse_u32_text("42"), Some(42));
    assert_eq!(parse_u32_text("4294967295"), Some(u32::MAX));
    assert_eq!(parse_u32_text("4294967296"), None);
    assert_eq!(parse_u32_text(""), None);
    assert_eq!(parse_u32_text("3.5"), None);
    assert_eq!(parse_u32_text("-1"), None);
    assert_eq!(parse_u32_text("99999999999"), None);
}

#[test]
fn execution_count_strictness() {
    let ok = notebook(vec![code_cell_with(vec![(
        "execution_count",
        JsonValue::Num("5".to_string()),
    )])]);
    let parsed = parse_notebook(&ok).unwrap();
    assert_eq!(parsed.cells.len(), 1);
    match &parsed.cells[0] {
        Cell::Code { execution_count, .. } => assert_eq!(*execution_count, Some(5)),
        other => panic!("expected a code cell, got {:?}", other),
    }

    let absent = notebook(vec![code_cell_with(vec![])]);
    match &parse_notebook(&absent).unwrap().cells[0] {
        Cell::Code { execution_count, .. } => assert_eq!(*execution_count, None),
        other => panic!("expected a code cell, got {:?}", other),
    }

    let null = notebook(vec![code_cell_with(vec![("execution_count", JsonValue::Null)])]);
    match &parse_notebook(&null).unwrap().cells[0] {
        Cell::Code { execution_count, .. } => assert_eq!(*execution_count, None),
        other => panic!("expected a code cell, got {:?}", other),
    }

    let fractional = notebook(vec![code_cell_with(vec![(
        "execution_count",
        JsonValue::Num("3.5".to_string()),
    )])]);
    assert!(parse_notebook(&fractional).is_err());

    let textual = notebook(vec![code_cell_with(vec![("execution_count", jstr("3"))])]);
    assert!(parse_notebook(&textual).is_err());
}

#[test]
fn stream_name_field() {
    let stream = |name: Option<JsonValue>| {
        let mut fields = vec![("output_type", jstr("stream")), ("text", jstr("out"))];
        if let Some(n) = name {
            fields.push(("name", n));
        }
        notebook(vec![obj(vec![
            ("cell_type", jstr("code")),
            ("source", jstr("x")),
            ("outputs", JsonValue::Arr(vec![obj(fields)])),
        ])])
    };
    assert!(parse_notebook(&stream(None)).is_ok());
    assert!(parse_notebook(&stream(Some(JsonValue::Null))).is_ok());
    assert!(parse_notebook(&stream(Some(jstr("stderr")))).is_ok());
    assert!(parse_notebook(&stream(Some(JsonValue::Num("1".to_string())))).is_err());
}

#[test]
fn code_cell_requires_outputs() {
    let nb = notebook(vec![obj(vec![
        ("cell_type", jstr("code")),
        ("source", jstr("x")),
    ])]);
    match convert_notebook_to_md(&nb, None) {
        Err(ConvertError::Parse(_)) => {}
        other => panic!("expected a parse error, got {:?}", other),
    }
}

#[test]
fn not_an_object_is_parse_error() {
    let doc = JsonValue::Arr(vec![]);
    assert!(parse_notebook(&doc).is_err());
}

#[test]
fn estimate_lengths() {
    let nb = notebook(vec![obj(vec![
        ("cell_type", jstr("markdown")),
        ("source", jstr("abc")),
    ])]);
    let parsed = parse_notebook(&nb).unwrap();
    assert_eq!(estimate_cell_len(&parsed.cells[0]), 7);
}

#[test]
fn error_message_carried() {
    let nb = JsonValue::Bool(true);
    match convert_notebook_to_md(&nb, None) {
        Err(e) => assert!(!e.message().is_empty()),
        Ok(_) => panic!("a non-object document must not convert"),
    }
}

#[test]
fn preprocessor_renderer_support() {
    let p = JupyterPreprocessor::new();
    assert_eq!(p.name(), "jupyter");
    assert!(p.supports_renderer("html"));
    assert!(p.supports_renderer("markdown"));
    assert!(!p.supports_renderer("pdf"));
    assert!(!p.supports_renderer(""));
}
