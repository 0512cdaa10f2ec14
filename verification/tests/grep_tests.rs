use mini_rag::grep::{
    build_search_pattern, extract_class_definitions, extract_python_classes, extract_rust_structs,
    get_base_indent, get_language_from_extension, search_lines, SearchOptions,
};

fn lines(v: &[&str]) -> Vec<String> {
    v.iter().map(|s| s.to_string()).collect()
}

#[test]
fn language_is_judged_by_extension() {
    assert_eq!(get_language_from_extension("src/main.rs"), "rust");
    assert_eq!(get_language_from_extension("a/b/test.py"), "python");
    assert_eq!(get_language_from_extension("Foo.java"), "java");
    assert_eq!(get_language_from_extension("x.hpp"), "c");
    assert_eq!(get_language_from_extension("x.cc"), "cpp");
    assert_eq!(get_language_from_extension("app.ts"), "typescript");
    assert_eq!(get_language_from_extension("noext"), "unknown");
    assert_eq!(get_language_from_extension(".hidden"), "unknown");
}

#[test]
fn base_indent_counts_leading_blanks() {
    assert_eq!(get_base_indent("    x"), 4);
    assert_eq!(get_base_indent("\t\tx"), 2);
    assert_eq!(get_base_indent("x"), 0);
    assert_eq!(get_base_indent(""), 0);
    // the whole Unicode white-space class counts as indentation
    assert_eq!(get_base_indent("\u{A0}\u{2003}x"), 2);
}

#[test]
fn search_pattern_escapes_the_term() {
    let defaults = SearchOptions::default();
    assert_eq!(build_search_pattern("a.b", &defaults), "a\\.b");
    assert_eq!(build_search_pattern("a-b&c", &defaults), "a\\-b\\&c");
    assert_eq!(build_search_pattern("\\", &defaults), "\\\\");
    assert_eq!(build_search_pattern("plain", &defaults), "plain");
    let mut whole = SearchOptions::default();
    whole.whole_word = true;
    assert_eq!(build_search_pattern("a.b", &whole), "\\ba\\.b\\b");
    let mut ci = SearchOptions::default();
    ci.case_insensitive = true;
    assert_eq!(build_search_pattern("a.b", &ci), "(?i)a\\.b");
}

#[test]
fn test_basic_search() {
    let content = lines(&["Hello world", "This is a test", "Hello again"]);
    let pattern = build_search_pattern("Hello", &SearchOptions::default());
    let results = search_lines("test.txt", &content, &pattern);
    assert_eq!(results.len(), 2);
    assert_eq!(results[0].line_number, 1);
    assert_eq!(results[1].line_number, 3);
    assert_eq!(results[0].match_start, 0);
    assert_eq!(results[0].match_end, 5);
    assert_eq!(results[0].line_content, "Hello world");
    assert_eq!(results[0].file_path, "test.txt");
}

#[test]
fn test_case_insensitive_search() {
    let content = lines(&["Hello world", "hello again"]);
    let mut options = SearchOptions::default();
    options.case_insensitive = true;
    let pattern = build_search_pattern("HELLO", &options);
    let results = search_lines("test.txt", &content, &pattern);
    assert_eq!(results.len(), 2);
}

#[test]
fn python_classes_run_until_dedent() {
    let content = lines(&["class Foo:", "    def f(self):", "        pass", "x = 1"]);
    let found = extract_python_classes(&content, "m.py", &None);
    assert_eq!(found.len(), 1);
    assert_eq!(found[0].class_name, "Foo");
    assert_eq!(found[0].start_line, 1);
    assert_eq!(found[0].end_line, 3);
    assert_eq!(
        found[0].full_definition,
        "class Foo:\n    def f(self):\n        pass"
    );
    assert_eq!(found[0].language, "python");
}

#[test]
fn rust_structs_end_at_matching_brace() {
    let content = lines(&["pub struct A {", "    x: u32,", "}", "fn main() {}"]);
    let found = extract_rust_structs(&content, "m.rs", &None);
    assert_eq!(found.len(), 1);
    assert_eq!(found[0].class_name, "A");
    assert_eq!(found[0].start_line, 1);
    assert_eq!(found[0].end_line, 3);
    assert_eq!(found[0].full_definition, "pub struct A {\n    x: u32,\n}");
}

#[test]
fn target_class_filters_matches() {
    let content = lines(&["pub struct A {", "}", "struct B {", "}"]);
    let all = extract_rust_structs(&content, "m.rs", &None);
    assert_eq!(all.len(), 2);
    let only_b = extract_rust_structs(&content, "m.rs", &Some("B".to_string()));
    assert_eq!(only_b.len(), 1);
    assert_eq!(only_b[0].class_name, "B");
}

#[test]
fn extraction_dispatches_on_extension() {
    let java = lines(&["public class Foo {", "}"]);
    let found = extract_class_definitions("Foo.java", &java, &None);
    assert_eq!(found.len(), 1);
    assert_eq!(found[0].language, "java");
    assert_eq!(found[0].class_name, "Foo");

    let unknown = extract_class_definitions("Foo.txt", &java, &None);
    assert!(unknown.is_empty());
}
