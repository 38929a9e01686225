//! Conversion-level tests: whole notebooks in, Markdown and assets out.

use base64::Engine as _;
use mdbook_jupyter::convert::{convert_notebook_to_md, convert_notebook_to_md_with_options,
    ConvertError, ConvertOptions};
use mdbook_jupyter::json::JsonValue;
use mdbook_jupyter::render::AssetContent;

fn jstr(s: &str) -> JsonValue {
    JsonValue::Text(s.to_string())
}

fn obj(entries: Vec<(&str, JsonValue)>) -> JsonValue {
    let owned: Vec<(String, JsonValue)> = entries.into_iter().map(|(k, v)| (k.to_string(), v)).collect();
    JsonValue::Obj(owned, "{}".to_string())
}

fn notebook(cells: Vec<JsonValue>) -> JsonValue {
    obj(vec![("cells", JsonValue::Arr(cells))])
}

fn markdown_cell(src: &str) -> JsonValue {
    obj(vec![("cell_type", jstr("markdown")), ("source", jstr(src))])
}

fn raw_cell(src: &str) -> JsonValue {
    obj(vec![("cell_type", jstr("raw")), ("source", jstr(src))])
}

fn code_cell(src: &str, outputs: Vec<JsonValue>) -> JsonValue {
    obj(vec![
        ("cell_type", jstr("code")),
        ("source", jstr(src)),
        ("outputs", JsonValue::Arr(outputs)),
    ])
}

fn display_data(entries: Vec<(&str, JsonValue)>) -> JsonValue {
    let mut fields = vec![("output_type", jstr("display_data"))];
    fields.push(("data", obj(entries)));
    obj(fields)
}

#[test]
fn markdown_only_cells_concatenate() {
    let nb = notebook(vec![markdown_cell("# Title"), raw_cell("raw text"), markdown_cell("end")]);
    let conv = convert_notebook_to_md(&nb, Some("assets")).unwrap();
    assert_eq!(conv.markdown, "# Title\n\nraw text\n\nend\n\n");
    assert!(conv.assets.is_empty());
}

#[test]
fn embed_images_idempotent() {
    let nb1 = notebook(vec![code_cell(
        "plot()",
        vec![display_data(vec![("image/png", jstr("aGVsbG8="))])],
    )]);
    let nb2 = notebook(vec![code_cell(
        "plot()",
        vec![display_data(vec![("image/png", jstr("aGVsbG8="))])],
    )]);
    let opts = ConvertOptions { embed_images: true };
    let first = convert_notebook_to_md_with_options(&nb1, Some("assets"), &opts).unwrap();
    let second = convert_notebook_to_md_with_options(&nb2, Some("assets"), &opts).unwrap();
    assert_eq!(first.markdown, second.markdown);
    assert!(first.assets.is_empty());
    assert!(second.assets.is_empty());
    assert_eq!(
        first.markdown,
        "```python\nplot()\n```\n\n![output image](data:image/png;base64,aGVsbG8=)\n\n"
    );
}

#[test]
fn png_roundtrip_externalized() {
    let payload = "iVBORw0KGgo=";
    let nb = notebook(vec![code_cell(
        "x = 1",
        vec![display_data(vec![("image/png", jstr(payload))])],
    )]);
    let conv = convert_notebook_to_md(&nb, Some("assets")).unwrap();
    assert_eq!(
        conv.markdown,
        "```python\nx = 1\n```\n\n![output image](assets/output_000.png)\n\n"
    );
    assert_eq!(conv.assets.len(), 1);
    assert_eq!(conv.assets[0].filename(), "output_000.png");
    let expected = base64::engine::general_purpose::STANDARD.decode(payload).unwrap();
    match &conv.assets[0].content {
        AssetContent::Bytes(bytes) => assert_eq!(bytes, &expected),
        AssetContent::Markup(_) => panic!("a png asset must hold decoded bytes"),
    }
}

#[test]
fn markdown_priority_over_plain() {
    let nb = notebook(vec![code_cell(
        "show()",
        vec![display_data(vec![
            ("text/plain", jstr("bold")),
            ("text/markdown", jstr("**bold**")),
        ])],
    )]);
    let conv = convert_notebook_to_md(&nb, None).unwrap();
    assert_eq!(conv.markdown, "```python\nshow()\n```\n\n**bold**\n\n");
}

#[test]
fn counter_monotonic_across_cells() {
    let nb = notebook(vec![
        code_cell(
            "a",
            vec![
                display_data(vec![("image/png", jstr("aGVsbG8="))]),
                display_data(vec![("image/jpeg", jstr("aGVsbG8="))]),
            ],
        ),
        code_cell("b", vec![display_data(vec![("image/svg+xml", jstr("<svg/>"))])]),
    ]);
    let conv = convert_notebook_to_md(&nb, None).unwrap();
    let names: Vec<String> = conv.assets.iter().map(|a| a.filename()).collect();
    assert_eq!(names, vec!["output_000.png", "output_001.jpg", "output_002.svg"]);
    assert!(conv.markdown.contains("![output image](output_000.png)"));
    assert!(conv.markdown.contains("![output image](output_001.jpg)"));
    assert!(conv.markdown.contains("![output svg](output_002.svg)"));
}

#[test]
fn missing_cells_is_parse_error() {
    let nb = obj(vec![("nbformat", JsonValue::Num("4".to_string()))]);
    match convert_notebook_to_md(&nb, Some("assets")) {
        Err(ConvertError::Parse(_)) => {}
        other => panic!("expected a parse error, got {:?}", other),
    }
}

#[test]
fn unknown_cell_type_is_parse_error() {
    let nb = notebook(vec![obj(vec![
        ("cell_type", jstr("widget")),
        ("source", jstr("x")),
    ])]);
    match convert_notebook_to_md(&nb, Some("assets")) {
        Err(ConvertError::Parse(_)) => {}
        other => panic!("expected a parse error, got {:?}", other),
    }
}

#[test]
fn error_output_fragment() {
    let nb = notebook(vec![code_cell(
        "boom()",
        vec![obj(vec![
            ("output_type", jstr("error")),
            ("ename", jstr("ValueError")),
            ("evalue", jstr("bad input")),
            ("traceback", jstr("line1\nline2")),
        ])],
    )]);
    let conv = convert_notebook_to_md(&nb, None).unwrap();
    assert_eq!(
        conv.markdown,
        "```python\nboom()\n```\n\n```error\nValueError: bad input\nline1\nline2\n```\n\n"
    );
}

#[test]
fn stream_output_fenced() {
    let nb = notebook(vec![code_cell(
        "print('hi')",
        vec![obj(vec![
            ("output_type", jstr("stream")),
            ("name", jstr("stdout")),
            ("text", jstr("hi")),
        ])],
    )]);
    let conv = convert_notebook_to_md(&nb, None).unwrap();
    assert_eq!(conv.markdown, "```python\nprint('hi')\n```\n\n```\nhi\n```\n\n");
}

#[test]
fn svg_embedded_as_base64() {
    let markup = "<svg xmlns='x'/>";
    let nb = notebook(vec![code_cell(
        "draw()",
        vec![display_data(vec![("image/svg+xml", jstr(markup))])],
    )]);
    let opts = ConvertOptions { embed_images: true };
    let conv = convert_notebook_to_md_with_options(&nb, None, &opts).unwrap();
    let encoded = base64::engine::general_purpose::STANDARD.encode(markup.as_bytes());
    let expected = format!(
        "```python\ndraw()\n```\n\n![output svg](data:image/svg+xml;base64,{})\n\n",
        encoded
    );
    assert_eq!(conv.markdown, expected);
    assert!(conv.assets.is_empty());
}

#[test]
fn svg_externalized_as_markup() {
    let nb = notebook(vec![code_cell(
        "draw()",
        vec![display_data(vec![("image/svg+xml", jstr("<svg/>"))])],
    )]);
    let conv = convert_notebook_to_md(&nb, Some("assets")).unwrap();
    assert_eq!(
        conv.markdown,
        "```python\ndraw()\n```\n\n![output svg](assets/output_000.svg)\n\n"
    );
    assert_eq!(conv.assets.len(), 1);
    assert_eq!(conv.assets[0].filename(), "output_000.svg");
    match &conv.assets[0].content {
        AssetContent::Markup(text) => assert_eq!(text, "<svg/>"),
        AssetContent::Bytes(_) => panic!("an svg asset must hold literal markup"),
    }
}

#[test]
fn plain_text_fenced() {
    let nb = notebook(vec![code_cell(
        "1 + 1",
        vec![obj(vec![
            ("output_type", jstr("execute_result")),
            ("data", obj(vec![("text/plain", jstr("2"))])),
            ("execution_count", JsonValue::Num("1".to_string())),
        ])],
    )]);
    let conv = convert_notebook_to_md(&nb, None).unwrap();
    assert_eq!(conv.markdown, "```python\n1 + 1\n```\n\n```\n2\n```\n\n");
}

#[test]
fn html_fenced() {
    let nb = notebook(vec![code_cell(
        "table()",
        vec![display_data(vec![("text/html", jstr("<table></table>"))])],
    )]);
    let conv = convert_notebook_to_md(&nb, None).unwrap();
    assert_eq!(
        conv.markdown,
        "```python\ntable()\n```\n\n```html\n<table></table>\n```\n\n"
    );
}

#[test]
fn unresolvable_output_dropped() {
    let nb = notebook(vec![code_cell(
        "widget()",
        vec![display_data(vec![("application/json", JsonValue::Null)])],
    )]);
    let conv = convert_notebook_to_md(&nb, None).unwrap();
    assert_eq!(conv.markdown, "```python\nwidget()\n```\n\n");
    assert!(conv.assets.is_empty());
}

#[test]
fn invalid_base64_is_asset_error() {
    let nb = notebook(vec![code_cell(
        "plot()",
        vec![display_data(vec![("image/png", jstr("!!!not base64!!!"))])],
    )]);
    match convert_notebook_to_md(&nb, Some("assets")) {
        Err(ConvertError::AssetIo(_)) => {}
        other => panic!("expected an asset error, got {:?}", other),
    }
}

#[test]
fn array_source_concatenated() {
    let nb = notebook(vec![obj(vec![
        ("cell_type", jstr("markdown")),
        (
            "source",
            JsonValue::Arr(vec![jstr("line1\n"), jstr("line2")]),
        ),
    ])]);
    let conv = convert_notebook_to_md(&nb, None).unwrap();
    assert_eq!(conv.markdown, "line1\nline2\n\n");
}

#[test]
fn default_options_externalize() {
    let opts = ConvertOptions::default();
    assert!(!opts.embed_images);
}
