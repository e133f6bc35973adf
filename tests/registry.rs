use connector_registry::bundle::{collect_schema_files, SchemaBundle};
use connector_registry::client::{read_response, ApiClient, HttpMethod};
use connector_registry::codegen::{
    fill_template, generate_action_routing, generate_actions_mod_rs, generate_trigger_routing,
    generate_triggers_mod_rs,
};
use connector_registry::discovery::{discover, HandlerKind, UnitDir};
use connector_registry::dispatch::{finish_call, input_schema, output_schema, RoutingTable};
use connector_registry::embed::{decimal_string, generate_embedded_code, render_bytes};
use connector_registry::error::{AppError, BuildError, ErrorCode};
use connector_registry::json::{clean_empty_values, request_body_without_empty_values, Json};
use connector_registry::text::{compare, replace_all_exec};

fn unit(name: &str, has_impl: bool, input: Option<&str>, output: Option<&str>) -> UnitDir {
    UnitDir {
        name: Some(name.to_string()),
        is_dir: true,
        has_impl,
        input_schema: input.map(|s| s.to_string()),
        output_schema: output.map(|s| s.to_string()),
    }
}

fn sample() -> Vec<UnitDir> {
    vec![
        unit("list_items", true, None, Some("{\"type\":\"array\"}")),
        unit("legacy", false, Some("{}"), Some("{}")),
        unit("create_item", true, Some("{\"type\":\"object\"}"), Some("{\"id\":1}")),
    ]
}

const ROUTING_TEMPLATE: &str = "fn run(id: &str) {\n    match id {\n{EXECUTE_MATCH_ARMS}        _ => unknown(id),\n    }\n}\n// in\n{INPUT_SCHEMA_MATCH_ARMS}// out\n{OUTPUT_SCHEMA_MATCH_ARMS}// list\n{AVAILABLE_ACTIONS_LIST}";

#[test]
fn sample_registers_exactly_the_implemented_units() {
    let table = discover(&sample()).unwrap();
    assert_eq!(table, vec!["create_item".to_string(), "list_items".to_string()]);
}

#[test]
fn sample_bundle_holds_exactly_the_present_schemas() {
    let bundle = collect_schema_files(&sample(), &Vec::new()).unwrap();
    assert_eq!(bundle.get("create_item_input").map(|s| s.as_str()), Some("{\"type\":\"object\"}"));
    assert_eq!(bundle.get("create_item_output").map(|s| s.as_str()), Some("{\"id\":1}"));
    assert_eq!(bundle.get("list_items_output").map(|s| s.as_str()), Some("{\"type\":\"array\"}"));
    assert!(bundle.get("list_items_input").is_none());
    assert!(bundle.get("legacy_input").is_none());
    assert!(bundle.get("legacy_output").is_none());
    assert_eq!(bundle.len(), 3);
}

#[test]
fn bundle_covers_both_kinds() {
    let triggers = vec![unit("new_item", true, Some("{\"a\":1}"), None)];
    let bundle = collect_schema_files(&sample(), &triggers).unwrap();
    assert_eq!(bundle.get("new_item_input").map(|s| s.as_str()), Some("{\"a\":1}"));
    assert!(bundle.get("new_item_output").is_none());
    assert_eq!(bundle.len(), 4);
}

#[test]
fn discovery_ignores_enumeration_order() {
    let mut reversed = sample();
    reversed.reverse();
    let a = discover(&sample()).unwrap();
    let b = discover(&reversed).unwrap();
    assert_eq!(a, b);
    let ga = generate_action_routing(ROUTING_TEMPLATE, &RoutingTable::new(a.clone())).unwrap();
    let gb = generate_action_routing(ROUTING_TEMPLATE, &RoutingTable::new(b.clone())).unwrap();
    assert_eq!(ga, gb);
}

#[test]
fn table_is_strictly_increasing() {
    let entries = vec![
        unit("zeta", true, None, None),
        unit("alpha", true, None, None),
        unit("Mid", true, None, None),
        unit("alpha_2", true, None, None),
    ];
    let table = discover(&entries).unwrap();
    assert_eq!(table, vec!["Mid", "alpha", "alpha_2", "zeta"]);
    for w in table.windows(2) {
        assert!(w[0] < w[1]);
    }
}

#[test]
fn empty_listing_gives_empty_table() {
    assert_eq!(discover(&Vec::new()).unwrap(), Vec::<String>::new());
}

#[test]
fn files_beside_directories_are_skipped() {
    let mut entries = sample();
    entries.push(UnitDir { name: None, is_dir: false, has_impl: false, input_schema: None, output_schema: None });
    entries.push(UnitDir { name: Some("mod.rs".to_string()), is_dir: false, has_impl: true, input_schema: None, output_schema: None });
    assert_eq!(discover(&entries).unwrap(), vec!["create_item", "list_items"]);
}

#[test]
fn undecodable_directory_name_is_invalid() {
    let mut entries = sample();
    entries.push(UnitDir { name: None, is_dir: true, has_impl: false, input_schema: None, output_schema: None });
    assert!(matches!(discover(&entries), Err(BuildError::InvalidName(_))));
    assert!(matches!(collect_schema_files(&entries, &Vec::new()), Err(BuildError::InvalidName(_))));
}

#[test]
fn registered_name_must_be_identifier() {
    assert!(matches!(discover(&vec![unit("bad-name", true, None, None)]), Err(BuildError::InvalidName(_))));
    assert!(matches!(discover(&vec![unit("_", true, None, None)]), Err(BuildError::InvalidName(_))));
    assert!(matches!(discover(&vec![unit("9lives", true, None, None)]), Err(BuildError::InvalidName(_))));
    assert_eq!(discover(&vec![unit("bad-name", false, None, None)]).unwrap(), Vec::<String>::new());
    assert_eq!(discover(&vec![unit("_private9", true, None, None)]).unwrap(), vec!["_private9"]);
}

#[test]
fn kind_file_names() {
    assert_eq!(HandlerKind::Action.implementation_file(), "action.rs");
    assert_eq!(HandlerKind::Trigger.implementation_file(), "fetch_events.rs");
    assert_eq!(HandlerKind::Action.input_schema_file(), "base_input_schema.json");
    assert_eq!(HandlerKind::Action.output_schema_file(), "base_output_schema.json");
    assert_eq!(HandlerKind::Trigger.input_schema_file(), "input_schema.json");
    assert_eq!(HandlerKind::Trigger.output_schema_file(), "output_schema.json");
}

#[test]
fn action_routing_has_one_arm_per_unit() {
    let names = vec!["create_item".to_string(), "list_items".to_string()];
    let code = generate_action_routing(ROUTING_TEMPLATE, &RoutingTable::new(names)).unwrap();
    let expected = "fn run(id: &str) {\n    match id {\n        \"create_item\" => actions::create_item::execute(context),\n        \"list_items\" => actions::list_items::execute(context),\n        _ => unknown(id),\n    }\n}\n// in\n        \"create_item\" => actions::create_item::input_schema(context),\n        \"list_items\" => actions::list_items::input_schema(context),\n// out\n        \"create_item\" => actions::create_item::output_schema(context),\n        \"list_items\" => actions::list_items::output_schema(context),\n// list\n        \"create_item\".to_string(),\n        \"list_items\".to_string(),\n";
    assert_eq!(code, expected);
}

#[test]
fn empty_table_keeps_fallback_arm() {
    let code = generate_action_routing(ROUTING_TEMPLATE, &RoutingTable::new(Vec::new())).unwrap();
    assert_eq!(code, "fn run(id: &str) {\n    match id {\n        _ => unknown(id),\n    }\n}\n// in\n// out\n// list\n");
}

#[test]
fn trigger_routing_uses_fetch_events() {
    let template = "{FETCH_EVENTS_MATCH_ARMS}|{INPUT_SCHEMA_MATCH_ARMS}|{OUTPUT_SCHEMA_MATCH_ARMS}|{AVAILABLE_TRIGGERS_LIST}";
    let code = generate_trigger_routing(template, &RoutingTable::new(vec!["new_item".to_string()])).unwrap();
    assert_eq!(
        code,
        "        \"new_item\" => triggers::new_item::fetch_events(context),\n|        \"new_item\" => triggers::new_item::input_schema(context),\n|        \"new_item\" => triggers::new_item::output_schema(context),\n|        \"new_item\".to_string(),\n"
    );
}

#[test]
fn routing_template_without_placeholder_fails() {
    let r = generate_trigger_routing("{FETCH_EVENTS_MATCH_ARMS}", &RoutingTable::new(Vec::new()));
    assert!(matches!(r, Err(BuildError::Template(_))));
}

#[test]
fn module_aggregation_expands_snippet() {
    let names = RoutingTable::new(vec!["b".to_string(), "a".to_string()]);
    let code = generate_actions_mod_rs("// generated\n{ACTION_MODULES}", &names, "pub mod {NAME} { /* {NAME} */ }\n").unwrap();
    assert_eq!(code, "// generated\npub mod a { /* a */ }\npub mod b { /* b */ }\n");
    let code = generate_triggers_mod_rs("{TRIGGER_MODULES}", &names, "[{NAME}]").unwrap();
    assert_eq!(code, "[a][b]");
    assert!(matches!(generate_triggers_mod_rs("{ACTION_MODULES}", &names, "x"), Err(BuildError::Template(_))));
}

#[test]
fn fill_template_replaces_every_occurrence() {
    assert_eq!(fill_template("a{X}b{X}", "{X}", "yy").unwrap(), "ayybyy");
    assert!(matches!(fill_template("abc", "{X}", "y"), Err(BuildError::Template(_))));
    assert_eq!(replace_all_exec("aaaa", "aa", "b"), ("bb".to_string(), true));
    assert_eq!(replace_all_exec("héllo", "l", "L"), ("héLLo".to_string(), true));
}

#[test]
fn compare_orders_lexically() {
    assert!(compare("abc", "abd") < 0);
    assert!(compare("ab", "abc") < 0);
    assert!(compare("b", "abc") > 0);
    assert_eq!(compare("same", "same"), 0);
    assert!(compare("Z", "a") < 0);
}

#[test]
fn embedded_code_is_byte_literal_of_json() {
    let entries = vec![unit("a", true, Some("x"), None)];
    let bundle = collect_schema_files(&entries, &Vec::new()).unwrap();
    let json = bundle.to_json().unwrap();
    assert_eq!(json, "{\"a_input\":\"x\"}");
    let code = generate_embedded_code("const B: &[u8] = &{SCHEMA_FILES_BYTES};", &bundle).unwrap();
    assert_eq!(code, format!("const B: &[u8] = &{:?};", json.as_bytes()));
    assert_eq!(code, "const B: &[u8] = &[123, 34, 97, 95, 105, 110, 112, 117, 116, 34, 58, 34, 120, 34, 125];");
    assert!(matches!(generate_embedded_code("nothing here", &bundle), Err(BuildError::Template(_))));
}

#[test]
fn bundle_json_is_sorted_and_raw() {
    let entries = vec![
        unit("zz", true, Some("not json {"), None),
        unit("aa", true, None, Some("{}")),
    ];
    let bundle = collect_schema_files(&entries, &Vec::new()).unwrap();
    assert_eq!(bundle.to_json().unwrap(), "{\"aa_output\":\"{}\",\"zz_input\":\"not json {\"}");
}

#[test]
fn render_bytes_matches_debug_format() {
    assert_eq!(render_bytes(&[]), "[]");
    assert_eq!(render_bytes(&[0, 9, 10, 255]), "[0, 9, 10, 255]");
    assert_eq!(decimal_string(0), "0");
    assert_eq!(decimal_string(1234567), "1234567");
    assert_eq!(decimal_string(u64::MAX), u64::MAX.to_string());
}

#[test]
fn routing_table_sorts_and_dedups() {
    let t = RoutingTable::new(vec!["b".to_string(), "a".to_string(), "b".to_string()]);
    assert_eq!(t.identifiers(), vec!["a", "b"]);
    assert_eq!(t.resolve("b").unwrap(), 1);
}

#[test]
fn unknown_identifier_is_not_found() {
    let empty = RoutingTable::new(Vec::new());
    let bundle = collect_schema_files(&sample(), &Vec::new()).unwrap();
    assert_eq!(empty.resolve("create_item").unwrap_err().code, ErrorCode::NotFound);
    assert_eq!(input_schema(&empty, &bundle, "create_item").unwrap_err().code, ErrorCode::NotFound);
    assert_eq!(output_schema(&empty, &bundle, "create_item").unwrap_err().code, ErrorCode::NotFound);
    let table = RoutingTable::new(discover(&sample()).unwrap());
    for id in ["legacy", "", "zzz", "aaa", "create_itemx"] {
        assert_eq!(table.resolve(id).unwrap_err().code, ErrorCode::NotFound);
        assert_eq!(input_schema(&table, &bundle, id).unwrap_err().code, ErrorCode::NotFound);
        assert_eq!(output_schema(&table, &bundle, id).unwrap_err().code, ErrorCode::NotFound);
    }
}

#[test]
fn schema_lookup_reserializes_pretty() {
    let table = RoutingTable::new(discover(&sample()).unwrap());
    let bundle = collect_schema_files(&sample(), &Vec::new()).unwrap();
    assert_eq!(input_schema(&table, &bundle, "create_item").unwrap(), "{\n  \"type\": \"object\"\n}");
    assert_eq!(output_schema(&table, &bundle, "list_items").unwrap(), "{\n  \"type\": \"array\"\n}");
    assert_eq!(input_schema(&table, &bundle, "list_items").unwrap_err().code, ErrorCode::NotFound);
}

#[test]
fn malformed_schema_is_other_error() {
    let entries = vec![unit("broken", true, Some("{oops"), None)];
    let table = RoutingTable::new(discover(&entries).unwrap());
    let bundle = collect_schema_files(&entries, &Vec::new()).unwrap();
    assert_eq!(input_schema(&table, &bundle, "broken").unwrap_err().code, ErrorCode::Other);
}

#[test]
fn finish_call_normalizes_outcomes() {
    let v: serde_json::Value = serde_json::from_str("{ \"ok\" : [1, 2] }").unwrap();
    assert_eq!(finish_call(Ok(v)).unwrap(), "{\"ok\":[1,2]}");
    let e = AppError { code: ErrorCode::MalformedResponse, message: "bad".to_string() };
    let r = finish_call(Err(e)).unwrap_err();
    assert_eq!(r.code, ErrorCode::MalformedResponse);
    assert_eq!(r.message, "bad");
}

#[test]
fn client_needs_base_url_and_headers() {
    let e = ApiClient::new(None, Some(Vec::new())).unwrap_err();
    assert_eq!(e.code, ErrorCode::Misconfigured);
    assert_eq!(e.message, "base_url not found in connection data");
    let e = ApiClient::new(Some("https://x".to_string()), None).unwrap_err();
    assert_eq!(e.code, ErrorCode::Misconfigured);
    assert_eq!(e.message, "Headers not found in connection data");
}

#[test]
fn client_builds_requests() {
    let headers = vec![
        ("Authorization".to_string(), Some("Bearer t".to_string())),
        ("X-Count".to_string(), None),
    ];
    let c = ApiClient::new(Some("https://api.test".to_string()), Some(headers)).unwrap();
    assert_eq!(c.base_url(), "https://api.test");
    let q = c.get("/items");
    assert_eq!(q.method, HttpMethod::Get);
    assert_eq!(q.url, "https://api.test/items");
    assert_eq!(q.headers, vec![("Authorization".to_string(), "Bearer t".to_string())]);
    assert!(q.body.is_none());
    let body: serde_json::Value = serde_json::from_str("{\"name\": \"n\"}").unwrap();
    let q = c.post("/items", &body).unwrap();
    assert_eq!(q.method, HttpMethod::Post);
    assert_eq!(q.body.as_deref(), Some("{\"name\":\"n\"}"));
    assert_eq!(c.put("/items/1", &body).unwrap().method, HttpMethod::Put);
    assert_eq!(c.patch("/items/1", &body).unwrap().method, HttpMethod::Patch);
    assert_eq!(c.delete("/items/1").url, "https://api.test/items/1");
}

#[test]
fn responses_are_classified() {
    let answer = |status: u16, body: &str| Some((status, body.to_string()));
    let e = read_response(HttpMethod::Get, "https://a/b", answer(201, "{}")).unwrap_err();
    assert_eq!(e.code, ErrorCode::Other);
    assert_eq!(e.message, "API request failed with status: 201 - URL: https://a/b - Response: {}");
    assert!(read_response(HttpMethod::Post, "u", answer(201, "{}")).is_ok());
    assert_eq!(read_response(HttpMethod::Delete, "u", answer(404, "nf")).unwrap_err().code, ErrorCode::Other);
    let e = read_response(HttpMethod::Get, "u", answer(200, "<html>")).unwrap_err();
    assert_eq!(e.code, ErrorCode::MalformedResponse);
    assert_eq!(e.message, "Invalid API response format");
    let e = read_response(HttpMethod::Get, "u", None).unwrap_err();
    assert_eq!(e.code, ErrorCode::Other);
    assert_eq!(e.message, "Request failed");
    let v = read_response(HttpMethod::Put, "u", answer(299, "[1]")).unwrap();
    assert_eq!(v, serde_json::Value::Array(vec![serde_json::Value::from(1)]));
}

fn s(x: &str) -> Json {
    Json::Str(x.to_string())
}

fn num(n: u64) -> Json {
    Json::Number(serde_json::Number::from(n))
}

fn render(v: &Json) -> String {
    match v {
        Json::Null => "null".to_string(),
        Json::Bool(b) => b.to_string(),
        Json::Number(n) => n.to_string(),
        Json::Str(x) => format!("{:?}", x),
        Json::Array(a) => format!("[{}]", a.iter().map(render).collect::<Vec<_>>().join(",")),
        Json::Object(o) => format!(
            "{{{}}}",
            o.iter().map(|(k, v)| format!("{:?}:{}", k, render(v))).collect::<Vec<_>>().join(",")
        ),
    }
}

#[test]
fn clean_empty_values_prunes_recursively() {
    let v = Json::Object(vec![
        ("a".to_string(), s("")),
        ("b".to_string(), Json::Array(vec![Json::Null, s(""), Json::Array(vec![])])),
        ("c".to_string(), Json::Array(vec![num(1), Json::Null, s("x")])),
        ("d".to_string(), Json::Object(vec![("e".to_string(), Json::Null)])),
        ("f".to_string(), Json::Bool(false)),
    ]);
    assert_eq!(render(&clean_empty_values(&v)), "{\"c\":[1,\"x\"],\"f\":false}");
    assert_eq!(render(&clean_empty_values(&s(""))), "null");
    assert_eq!(render(&clean_empty_values(&Json::Object(vec![]))), "null");
    assert_eq!(render(&clean_empty_values(&num(0))), "0");
}

#[test]
fn request_body_skips_path_parameters() {
    let input = Json::Object(vec![
        ("id".to_string(), num(7)),
        ("name".to_string(), s("n")),
        ("note".to_string(), s("")),
        ("tags".to_string(), Json::Array(vec![s("t")])),
    ]);
    let body = request_body_without_empty_values(&input, &["id"]).unwrap();
    assert_eq!(render(&body), "{\"name\":\"n\",\"tags\":[\"t\"]}");
    let body = request_body_without_empty_values(&s("scalar"), &[]).unwrap();
    assert_eq!(render(&body), "{}");
    let body = request_body_without_empty_values(&Json::Object(vec![("x".to_string(), s(""))]), &[]).unwrap();
    assert_eq!(render(&body), "{}");
}

#[test]
fn separate_calls_do_not_share_state() {
    let table = RoutingTable::new(discover(&sample()).unwrap());
    let bundle = collect_schema_files(&sample(), &Vec::new()).unwrap();
    let first = input_schema(&table, &bundle, "create_item");
    let second = input_schema(&table, &bundle, "nope");
    let third = input_schema(&table, &bundle, "create_item");
    assert_eq!(first.unwrap(), third.unwrap());
    assert_eq!(second.unwrap_err().code, ErrorCode::NotFound);
    let a = finish_call(Err(AppError { code: ErrorCode::Other, message: "first".to_string() }));
    let b = finish_call(Ok(serde_json::Value::Bool(true)));
    assert_eq!(a.unwrap_err().message, "first");
    assert_eq!(b.unwrap(), "true");
}

#[test]
fn colliding_keys_keep_one_entry() {
    let actions = vec![unit("same", true, Some("{\"from\":\"action\"}"), None)];
    let triggers = vec![unit("same", true, Some("{\"from\":\"trigger\"}"), None)];
    let bundle = collect_schema_files(&actions, &triggers).unwrap();
    assert_eq!(bundle.len(), 1);
    assert_eq!(bundle.get("same_input").map(|s| s.as_str()), Some("{\"from\":\"trigger\"}"));
    assert_eq!(bundle.to_json().unwrap(), "{\"same_input\":\"{\\\"from\\\":\\\"trigger\\\"}\"}");
}

#[test]
fn build_error_messages() {
    assert_eq!(BuildError::Template("x".to_string()).message(), "Template error: x");
    assert_eq!(BuildError::InvalidName("a-b".to_string()).message(), "Invalid directory name: a-b");
    let io = std::io::Error::new(std::io::ErrorKind::NotFound, "gone");
    assert_eq!(BuildError::Io(io).message(), "IO error: gone");
    let json_err = serde_json::from_str::<serde_json::Value>("{").unwrap_err();
    assert!(BuildError::Json(json_err).message().starts_with("JSON error: "));
}

#[test]
fn bundle_json_reads_back() {
    let triggers = vec![unit("new_item", true, Some("{\"a\":1}"), None)];
    let bundle = collect_schema_files(&sample(), &triggers).unwrap();
    let json = bundle.to_json().unwrap();
    let back = SchemaBundle::from_json(&json).unwrap();
    assert_eq!(back.len(), bundle.len());
    for key in ["create_item_input", "create_item_output", "list_items_output", "new_item_input"] {
        assert_eq!(back.get(key), bundle.get(key));
    }
    assert!(back.get("list_items_input").is_none());
    assert!(matches!(SchemaBundle::from_json("[1]"), Err(BuildError::Json(_))));
}
