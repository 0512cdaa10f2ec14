use mini_rag::parser::{parse_codebase, render_openapi, ApiOperation};

#[test]
fn operations_render_one_line_each() {
    let ops = vec![
        ApiOperation {
            method: "get".to_string(),
            path: "/pets".to_string(),
            summary: Some("List pets".to_string()),
        },
        ApiOperation {
            method: "post".to_string(),
            path: "/pets".to_string(),
            summary: None,
        },
    ];
    assert_eq!(
        render_openapi(&ops),
        "GET /pets: List pets\nPOST /pets: No summary\n"
    );
}

#[test]
fn method_uppercasing_is_ascii_only() {
    let ops = vec![ApiOperation {
        method: "gEt-2".to_string(),
        path: "/x".to_string(),
        summary: None,
    }];
    assert_eq!(render_openapi(&ops), "GET-2 /x: No summary\n");
}

#[test]
fn empty_document_renders_empty_corpus() {
    assert_eq!(render_openapi(&vec![]), "");
}

#[test]
fn codebase_parsing_renders_fixed_text() {
    assert_eq!(parse_codebase("/some/path").unwrap(), "Test");
}
