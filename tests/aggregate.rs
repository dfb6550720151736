use rust_document_generator::api_doc::{
    get_api_list, get_api_list_detail, get_grouped_api_list, group_api_list, Document,
};
use rust_document_generator::document::{parse_statement, ApiDocument};
use rust_document_generator::file::{decode_items, frame_item, Item, ItemType};
use rust_document_generator::project::{
    get_cache_file_path, get_doc_file_path, get_project_item, ProjectInfo,
};
use serde_json::Value;

fn doc(module: &str, name: &str) -> ApiDocument {
    let mut d = ApiDocument::default();
    d.module_name = module.to_string();
    d.name = name.to_string();
    d
}

fn project() -> ProjectInfo {
    ProjectInfo { id: "shop".to_string(), name: "Shop".to_string(), path: "/src/shop".to_string() }
}

fn item(t: u32, c: &str) -> Item {
    Item { item_type: t, content: c.to_string() }
}

#[test]
fn grouping_keeps_first_seen_order() {
    let list = vec![doc("Orders", "A"), doc("Users", "B"), doc("Orders", "C")];
    let groups = group_api_list(&list);
    assert_eq!(groups.len(), 2);
    assert_eq!(groups[0].module_name, "Orders");
    let names: Vec<&str> = groups[0].api_list.iter().map(|d| d.name.as_str()).collect();
    assert_eq!(names, vec!["A", "C"]);
    assert_eq!(groups[1].module_name, "Users");
    assert_eq!(groups[1].api_list.len(), 1);
    assert_eq!(groups[1].api_list[0].name, "B");
}

#[test]
fn grouping_two_orders_one_users() {
    let list = vec![doc("Orders", "doc1"), doc("Orders", "doc2"), doc("Users", "doc3")];
    let groups = group_api_list(&list);
    let shape: Vec<(String, Vec<String>)> = groups
        .iter()
        .map(|g| (g.module_name.clone(), g.api_list.iter().map(|d| d.name.clone()).collect()))
        .collect();
    assert_eq!(
        shape,
        vec![
            ("Orders".to_string(), vec!["doc1".to_string(), "doc2".to_string()]),
            ("Users".to_string(), vec!["doc3".to_string()]),
        ]
    );
}

#[test]
fn grouping_uses_exact_module_names() {
    let list = vec![doc("orders", "A"), doc("Orders", "B"), doc("Orders ", "C")];
    assert_eq!(group_api_list(&list).len(), 3);
    assert!(group_api_list(&Vec::new()).is_empty());
}

#[test]
fn missing_log_falls_back_to_cache() {
    let cached = Document { header: "cached".to_string(), api_list: vec![doc("M", "F")] };
    let r = get_api_list(&project(), Err("not found".to_string()), Some(Ok(cached))).unwrap();
    assert_eq!(r.header, "cached");
    assert_eq!(r.api_list[0].name, "F");
}

#[test]
fn log_read_wins_over_cache() {
    let fresh = Document { header: "fresh".to_string(), api_list: Vec::new() };
    let r = get_api_list(&project(), Ok(fresh), None).unwrap();
    assert_eq!(r.header, "fresh");
}

#[test]
fn both_reads_failing_names_project_and_cause() {
    let r = get_api_list(&project(), Err("boom".to_string()), Some(Err("gone".to_string())));
    assert_eq!(r.err().unwrap(), "load Shop err:boom");
    let r = get_api_list(&project(), Err("boom".to_string()), None);
    assert_eq!(r.err().unwrap(), "load Shop err:boom");
}

#[test]
fn grouped_document_from_cache() {
    let cached = Document {
        header: "h".to_string(),
        api_list: vec![doc("Orders", "A"), doc("Orders", "B"), doc("Users", "C")],
    };
    let g = get_grouped_api_list(&project(), Err("x".to_string()), Some(Ok(cached))).unwrap();
    assert_eq!(g.header, "h");
    assert_eq!(g.group_api.len(), 2);
    assert_eq!(g.group_api[0].api_list.len(), 2);
    assert_eq!(g.group_api[1].module_name, "Users");
}

#[test]
fn items_split_into_header_and_payloads() {
    let items = vec![item(0, "h1"), item(1, "{a}"), item(0, "h2"), item(1, "{b}")];
    let raw = get_api_list_detail(&items).unwrap();
    assert_eq!(raw.header, "h2");
    assert_eq!(raw.api_list, vec!["{a}".to_string(), "{b}".to_string()]);
    let empty = get_api_list_detail(&Vec::new()).unwrap();
    assert_eq!(empty.header, "");
    assert!(empty.api_list.is_empty());
}

#[test]
fn unknown_item_kind_fails_read() {
    let items = vec![item(1, "{a}"), item(9, "?"), item(4, "?")];
    assert_eq!(get_api_list_detail(&items).err(), Some(9));
}

#[test]
fn paths_join_with_one_separator() {
    assert_eq!(get_doc_file_path("/src/shop"), "/src/shop/doc.data");
    assert_eq!(get_doc_file_path("/src/shop/"), "/src/shop/doc.data");
    assert_eq!(get_doc_file_path(""), "doc.data");
    assert_eq!(get_cache_file_path("shop"), "./DocCache/shop");
}

#[test]
fn project_lookup() {
    let list = vec![
        ProjectInfo { id: "a".to_string(), name: "A".to_string(), path: "x".to_string() },
        ProjectInfo { id: "b".to_string(), name: "B1".to_string(), path: "y".to_string() },
        ProjectInfo { id: "b".to_string(), name: "B2".to_string(), path: "z".to_string() },
    ];
    assert_eq!(get_project_item("b".to_string(), &list).unwrap().name, "B1");
    assert_eq!(
        get_project_item("c".to_string(), &list).err().unwrap(),
        "no found target project:c"
    );
}

fn to_json(d: &ApiDocument) -> Value {
    let mut params = Vec::new();
    for p in &d.param_list {
        let mut m = serde_json::Map::new();
        m.insert("Name".to_string(), Value::from(p.name.clone()));
        m.insert("ParamType".to_string(), Value::from(p.param_type.clone()));
        m.insert("Required".to_string(), Value::from(p.required));
        m.insert("Desc".to_string(), Value::from(p.desc.clone()));
        params.push(Value::Object(m));
    }
    let mut m = serde_json::Map::new();
    m.insert("ModuleName".to_string(), Value::from(d.module_name.clone()));
    m.insert("HttpMethod".to_string(), Value::from(d.http_method.clone()));
    m.insert("Name".to_string(), Value::from(d.name.clone()));
    m.insert("Path".to_string(), Value::from(d.path.clone()));
    m.insert("Desc".to_string(), Value::from(d.desc.clone()));
    m.insert("ParamList".to_string(), Value::Array(params));
    m.insert("ReturnContent".to_string(), Value::from(d.return_content.clone()));
    m.insert("ReturnDesc".to_string(), Value::from(d.return_desc.clone()));
    Value::Object(m)
}

#[test]
fn parsed_record_survives_json_and_log() {
    let lines: Vec<String> = [
        "module Orders",
        "fn Create /orders/create post Creates an order",
        "+  über, with spaces",
        "param",
        "  Id string required Order identifier",
        "return",
        "  +{ \"ok\": true }",
    ]
    .iter()
    .map(|s| s.to_string())
    .collect();
    let parsed = parse_statement(lines).unwrap();
    let json = to_json(&parsed).to_string();
    let mut log = frame_item(ItemType::Header, "header\r\ntext");
    log.extend(frame_item(ItemType::Api, &json));
    let items = decode_items(&log).unwrap();
    let raw = get_api_list_detail(&items).unwrap();
    assert_eq!(raw.header, "header\r\ntext");
    assert_eq!(raw.api_list.len(), 1);
    let back: Value = serde_json::from_str(&raw.api_list[0]).unwrap();
    assert_eq!(back, to_json(&parsed));
    assert_eq!(back["Desc"], "Creates an order\r\n  über, with spaces");
}
