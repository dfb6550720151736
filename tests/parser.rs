use rust_document_generator::document::{
    parse_statement, ApiDocument, ParseError, ReturnContentType,
};

fn lines(v: &[&str]) -> Vec<String> {
    v.iter().map(|s| s.to_string()).collect()
}

#[test]
fn it_works() {
    assert_eq!(2 + 2, 4);
}

#[test]
fn example_annotation_parses() {
    let doc = parse_statement(lines(&[
        "module Orders",
        "fn Create /orders/create post Creates an order",
        "param",
        "  Id string required Order identifier",
        "return",
        "  string A textual status",
    ]))
    .unwrap();
    assert_eq!(doc.module_name, "Orders");
    assert_eq!(doc.name, "Create");
    assert_eq!(doc.path, "/orders/create");
    assert_eq!(doc.http_method, "post");
    assert_eq!(doc.desc, "Creates an order");
    assert_eq!(doc.param_list.len(), 1);
    assert_eq!(doc.param_list[0].name, "Id");
    assert_eq!(doc.param_list[0].param_type, "string");
    assert!(doc.param_list[0].required);
    assert_eq!(doc.param_list[0].desc, "Order identifier");
    assert_eq!(doc.return_content_type, ReturnContentType::String);
    assert_eq!(doc.return_desc, "A textual status");
    assert_eq!(doc.return_content, "");
}

#[test]
fn return_first_line_type_word() {
    let mut doc = ApiDocument::default();
    doc.parse_return(true, "type X").unwrap();
    assert_eq!(doc.return_content_type, ReturnContentType::Type);
    assert_eq!(doc.return_desc, "X");
}

#[test]
fn return_first_line_string_word() {
    let mut doc = ApiDocument::default();
    doc.return_content_type = ReturnContentType::Type;
    doc.parse_return(true, "string a b").unwrap();
    assert_eq!(doc.return_content_type, ReturnContentType::String);
    assert_eq!(doc.return_desc, "a b");
}

#[test]
fn return_first_line_unknown_word_kept_whole() {
    let mut doc = ApiDocument::default();
    doc.parse_return(true, "foo X").unwrap();
    assert_eq!(doc.return_content_type, ReturnContentType::String);
    assert_eq!(doc.return_desc, "foo X");
}

#[test]
fn return_first_line_single_word() {
    let mut doc = ApiDocument::default();
    doc.parse_return(true, "type").unwrap();
    assert_eq!(doc.return_content_type, ReturnContentType::Type);
    assert_eq!(doc.return_desc, "");
}

#[test]
fn return_first_line_single_string_word() {
    let mut doc = ApiDocument::default();
    doc.return_content_type = ReturnContentType::Type;
    doc.parse_return(true, "string").unwrap();
    assert_eq!(doc.return_content_type, ReturnContentType::String);
    assert_eq!(doc.return_desc, "");
}

#[test]
fn return_first_line_other_single_word_kept() {
    let mut doc = ApiDocument::default();
    doc.parse_return(true, "text").unwrap();
    assert_eq!(doc.return_content_type, ReturnContentType::String);
    assert_eq!(doc.return_desc, "text");
}

#[test]
fn second_module_marker_fails() {
    let r = parse_statement(lines(&["module A", "module B"]));
    assert_eq!(r.unwrap_err(), ParseError::MultipleModuleLines);
    let r = parse_statement(lines(&["module A", "fn F /f get", "module A"]));
    assert_eq!(r.unwrap_err(), ParseError::MultipleModuleLines);
}

#[test]
fn param_desc_is_trimmed_at_both_ends() {
    let doc = parse_statement(lines(&["param", "a b c  ", "d e required  text \t"])).unwrap();
    assert_eq!(doc.param_list[0].desc, "c");
    assert_eq!(doc.param_list[1].desc, "text");
}

#[test]
fn marker_followed_by_unicode_space() {
    let doc = parse_statement(lines(&["fn A /a get", "param\u{a0}", "x int"])).unwrap();
    assert_eq!(doc.param_list.len(), 1);
    assert_eq!(doc.param_list[0].name, "x");
    assert_eq!(doc.desc, "");
}

#[test]
fn return_content_lines_joined_by_crlf() {
    let doc = parse_statement(lines(&["return", "a json object", " +{", " +  \"Desc\":\"x\"", " +}"]))
        .unwrap();
    assert_eq!(doc.return_desc, "a json object");
    assert_eq!(doc.return_content, "\r\n{\r\n  \"Desc\":\"x\"\r\n}");
}

#[test]
fn return_segment_type_line_after_marker() {
    let doc = parse_statement(lines(&["fn A /a get", "return", "  type Order", "  +{}"])).unwrap();
    assert_eq!(doc.return_content_type, ReturnContentType::Type);
    assert_eq!(doc.return_desc, "Order");
    assert_eq!(doc.return_content, "\r\n{}");
}

#[test]
fn return_marker_without_lines_leaves_defaults() {
    let doc = parse_statement(lines(&["fn A /a get", "return"])).unwrap();
    assert_eq!(doc.return_content_type, ReturnContentType::String);
    assert_eq!(doc.return_desc, "");
    assert_eq!(doc.return_content, "");
}

#[test]
fn second_return_marker_starts_a_new_first_line() {
    let doc = parse_statement(lines(&["return", "type A", "x", "return", "string B"])).unwrap();
    assert_eq!(doc.return_content_type, ReturnContentType::String);
    assert_eq!(doc.return_desc, "B");
    assert_eq!(doc.return_content, "\r\nx");
}

#[test]
fn plus_continuation_keeps_leading_spaces() {
    let doc = parse_statement(lines(&["fn A /a get first", "   +   indented text"])).unwrap();
    assert_eq!(doc.desc, "first\r\n   indented text");
}

#[test]
fn continuation_without_plus_is_trimmed() {
    let doc = parse_statement(lines(&["fn A /a get first", "   second"])).unwrap();
    assert_eq!(doc.desc, "first\r\nsecond");
}

#[test]
fn fn_line_without_description() {
    let doc = parse_statement(lines(&["fn A /a get"])).unwrap();
    assert_eq!(doc.name, "A");
    assert_eq!(doc.path, "/a");
    assert_eq!(doc.http_method, "get");
    assert_eq!(doc.desc, "");
}

#[test]
fn lines_before_first_marker_are_ignored() {
    let doc = parse_statement(lines(&["just text", "module M"])).unwrap();
    assert_eq!(doc.module_name, "M");
    assert_eq!(doc.desc, "");
}

#[test]
fn empty_input_gives_default_document() {
    let doc = parse_statement(Vec::new()).unwrap();
    assert_eq!(doc.module_name, "");
    assert!(doc.param_list.is_empty());
    assert_eq!(doc.return_content_type, ReturnContentType::String);
}

#[test]
fn module_name_is_trimmed() {
    let doc = parse_statement(lines(&["   module   Users  "])).unwrap();
    assert_eq!(doc.module_name, "Users");
}

#[test]
fn module_without_name_fails() {
    let r = parse_statement(lines(&["module"]));
    assert_eq!(r.unwrap_err(), ParseError::MissingModuleName);
}

#[test]
fn module_segment_with_second_line_fails() {
    let r = parse_statement(lines(&["module Orders", "more"]));
    assert_eq!(r.unwrap_err(), ParseError::MultipleModuleLines);
}

#[test]
fn fn_marker_without_payload_fails() {
    let r = parse_statement(lines(&["fn"]));
    assert_eq!(r.unwrap_err(), ParseError::EmptyFnLine);
}

#[test]
fn fn_without_name_fails() {
    let mut doc = ApiDocument::default();
    assert_eq!(doc.parse_fn_line(true, "   "), Err(ParseError::MissingFnName));
}

#[test]
fn fn_without_path_fails() {
    let r = parse_statement(lines(&["fn Create"]));
    assert_eq!(r.unwrap_err(), ParseError::MissingApiPath);
}

#[test]
fn fn_without_method_fails() {
    let r = parse_statement(lines(&["fn Create /orders"]));
    assert_eq!(r.unwrap_err(), ParseError::MissingHttpMethod);
}

#[test]
fn fn_segment_empty_line_fails() {
    let r = parse_statement(lines(&["fn A /a get d", "   "]));
    assert_eq!(r.unwrap_err(), ParseError::EmptyFnLine);
}

#[test]
fn param_without_type_fails() {
    let r = parse_statement(lines(&["param", "  Id"]));
    assert_eq!(r.unwrap_err(), ParseError::MissingParamType("Id".to_string()));
}

#[test]
fn param_blank_line_fails() {
    let r = parse_statement(lines(&["param", "   "]));
    assert_eq!(r.unwrap_err(), ParseError::MissingParamName);
}

#[test]
fn params_keep_declaration_order_and_flags() {
    let doc = parse_statement(lines(&[
        "param",
        "a int optional first one",
        "b   string   required   second",
        "c bool maybe third",
        "d u8",
    ]))
    .unwrap();
    let p = &doc.param_list;
    assert_eq!(p.len(), 4);
    assert_eq!((p[0].name.as_str(), p[0].param_type.as_str(), p[0].required), ("a", "int", false));
    assert_eq!(p[0].desc, "first one");
    assert_eq!((p[1].name.as_str(), p[1].param_type.as_str(), p[1].required), ("b", "string", true));
    assert_eq!(p[1].desc, "second");
    assert_eq!((p[2].name.as_str(), p[2].required), ("c", false));
    assert_eq!(p[2].desc, "maybe third");
    assert_eq!((p[3].name.as_str(), p[3].param_type.as_str(), p[3].desc.as_str()), ("d", "u8", ""));
}

#[test]
fn param_marker_with_text_is_not_a_marker() {
    let doc = parse_statement(lines(&["param", "param x y"])).unwrap();
    assert_eq!(doc.param_list.len(), 1);
    assert_eq!(doc.param_list[0].name, "param");
    assert_eq!(doc.param_list[0].param_type, "x");
}

#[test]
fn failure_aborts_whole_record() {
    let r = parse_statement(lines(&["module M", "fn A /a get d", "param", "x"]));
    assert_eq!(r.unwrap_err(), ParseError::MissingParamType("x".to_string()));
}

#[test]
fn handler_failure_leaves_document_unchanged() {
    let mut doc = ApiDocument::default();
    doc.name = "Old".to_string();
    assert_eq!(doc.parse_fn_line(true, "New"), Err(ParseError::MissingApiPath));
    assert_eq!(doc.name, "Old");
}
