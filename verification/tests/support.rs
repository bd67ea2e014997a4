use hurlbox::api::ApiState;
use hurlbox::assertions::{escape_hurl_string, generate_json_assertions, inject_assertions_into_entry};
use hurlbox::envfile::{parse_env_content, unquote};
use hurlbox::filetree::{check_within_root, file_tree, FileRoot};

fn s(v: &str) -> String {
    v.to_string()
}

fn pairs(v: &[(&str, &str)]) -> Vec<(String, String)> {
    v.iter().map(|(a, b)| (s(a), s(b))).collect()
}

#[test]
fn escapes_backslash_and_quote() {
    assert_eq!(escape_hurl_string(r#"a"b\c"#), r#"a\"b\\c"#);
    assert_eq!(escape_hurl_string("plain"), "plain");
}

#[test]
fn generates_json_assertions_without_duplicates() {
    let got = generate_json_assertions("{\"a b\": [1, 2], \"o\": {\"k\": null}, \"s\": \"q\\\"\", \"q\\\"k\": 0}");
    assert_eq!(
        got,
        vec![
            s("jsonpath \"$[\"a b\"]\" count == 2"),
            s("jsonpath \"$[\"a b\"]\" exists"),
            s("jsonpath \"$[\"a b\"][0]\" == 1"),
            s("jsonpath \"$.o\" exists"),
            s("jsonpath \"$.o.k\" == null"),
            s("jsonpath \"$[\"q\\\"k\"]\" == 0"),
            s("jsonpath \"$.s\" == \"q\\\"\""),
        ]
    );
    assert!(generate_json_assertions("nope").is_empty());
    // A repeated scalar line is kept once.
    let got = generate_json_assertions("[[true], [true]]");
    assert_eq!(got, vec![s("jsonpath \"$\" count == 2"), s("jsonpath \"$\" exists"), s("jsonpath \"$[0]\" count == 1"), s("jsonpath \"$[0]\" exists"), s("jsonpath \"$[0][0]\" == true")]);
}

#[test]
fn json_assertions_stop_near_forty() {
    let body = format!("{{{}}}", (0..60).map(|i| format!("\"k{:02}\": {}", i, i)).collect::<Vec<_>>().join(", "));
    let got = generate_json_assertions(&body);
    assert_eq!(got.len(), 40);
}

#[test]
fn injects_into_existing_asserts_section() {
    let content = "GET https://a.example\nHTTP 200\n[Asserts]\njsonpath \"$.id\" == 1\n[Captures]\nx: body\n\nGET https://b.example\nHTTP 200";
    let (text, added) = inject_assertions_into_entry(
        content,
        0,
        &vec![s("jsonpath \"$.id\" == 1"), s("jsonpath \"$.n\" == 2")],
    )
    .unwrap();
    assert_eq!(added, 1);
    assert_eq!(
        text,
        "GET https://a.example\nHTTP 200\n[Asserts]\njsonpath \"$.id\" == 1\njsonpath \"$.n\" == 2\n[Captures]\nx: body\n\nGET https://b.example\nHTTP 200"
    );
    let (same, none) = inject_assertions_into_entry(content, 0, &vec![s("jsonpath \"$.id\" == 1")]).unwrap();
    assert_eq!(none, 0);
    assert_eq!(same, content);
    let (text, added) = inject_assertions_into_entry(content, 1, &vec![s("status == 200")]).unwrap();
    assert_eq!(added, 1);
    assert!(text.ends_with("GET https://b.example\nHTTP 200\n[Asserts]\nstatus == 200"));
}

#[test]
fn inject_errors() {
    assert_eq!(inject_assertions_into_entry("x", 0, &vec![]).unwrap(), (s("x"), 0));
    assert_eq!(
        inject_assertions_into_entry("GET https://a.example", 0, &vec![s("status == 200")]).err().unwrap(),
        "Unable to locate HTTP status line for entry"
    );
    assert_eq!(
        inject_assertions_into_entry("GET https://a.example\nHTTP 200", 4, &vec![s("status == 200")]).err().unwrap(),
        "Entry ordering failure"
    );
}

#[test]
fn env_file_lines() {
    let vars = parse_env_content("# c\n\nexport A=1\nB = \"two words\"\nA='x'\nC=a=b\n").unwrap();
    assert_eq!(vars, pairs(&[("A", "x"), ("B", "two words"), ("C", "a=b")]));
    assert_eq!(
        parse_env_content("A=1\nBROKEN\n").err().unwrap(),
        "Invalid env file format at line 2: expected KEY=VALUE"
    );
    assert_eq!(parse_env_content(" =v").err().unwrap(), "Invalid env file format at line 1: empty key");
    let q: Vec<char> = "\"x'".chars().collect();
    assert_eq!(unquote(&q), "\"x'");
    let q: Vec<char> = "''".chars().collect();
    assert_eq!(unquote(&q), "");
}

#[test]
fn settings_are_set_once() {
    let mut api = ApiState::new();
    assert_eq!(api.resolve_path(""), ".");
    api.set_root_dir(s("/srv/hurl/"));
    api.set_root_dir(s("/other"));
    assert_eq!(api.resolve_path("  ."), "/srv/hurl/");
    assert_eq!(api.resolve_path("//a/b.hurl "), "/srv/hurl/a/b.hurl");
    assert!(!api.env_default().loaded);
    api.set_default_env(pairs(&[("A", "1"), ("B", "2"), ("A", "3")]), Some(s(".env")));
    api.set_default_env(pairs(&[("Z", "9")]), Some(s("other.env")));
    let d = api.env_default();
    assert!(d.loaded);
    assert_eq!(d.source.as_deref(), Some(".env"));
    assert_eq!(d.count, 2);
}

#[test]
fn request_variables_override_defaults() {
    let mut api = ApiState::new();
    assert_eq!(api.merged_env(None), None);
    assert_eq!(api.merged_env(Some(pairs(&[("X", "1")]))), Some(pairs(&[("X", "1")])));
    api.set_default_env(pairs(&[("A", "1"), ("B", "2")]), None);
    let merged = api.merged_env(Some(pairs(&[("B", "20"), ("C", "30")]))).unwrap();
    assert_eq!(merged, pairs(&[("A", "1"), ("B", "20"), ("C", "30")]));
    assert_eq!(api.merged_env(None).unwrap(), pairs(&[("A", "1"), ("B", "2")]));
}

#[test]
fn file_tree_orders_folders_then_files() {
    let files = vec![
        vec![s("b.hurl")],
        vec![s("sub"), s("z.hurl")],
        vec![s("a.hurl")],
        vec![s("alpha"), s("deep"), s("x.hurl")],
        vec![s("sub"), s("y.hurl")],
    ];
    let tree = file_tree("root", &files).unwrap();
    assert_eq!(tree.name, "root");
    assert_eq!(tree.node_type, "folder");
    let kids = tree.children.unwrap();
    let names: Vec<(String, String, String)> =
        kids.iter().map(|k| (k.name.clone(), k.relative_path.clone(), k.node_type.clone())).collect();
    assert_eq!(
        names,
        vec![
            (s("alpha"), s("alpha"), s("folder")),
            (s("sub"), s("sub"), s("folder")),
            (s("a.hurl"), s("a.hurl"), s("file")),
            (s("b.hurl"), s("b.hurl"), s("file")),
        ]
    );
    let sub = kids[1].children.as_ref().unwrap();
    assert_eq!(sub[0].relative_path, "sub/y.hurl");
    assert_eq!(sub[1].relative_path, "sub/z.hurl");
    let deep = &kids[0].children.as_ref().unwrap()[0];
    assert_eq!(deep.relative_path, "alpha/deep");
    assert_eq!(deep.children.as_ref().unwrap()[0].relative_path, "alpha/deep/x.hurl");
    assert_eq!(file_tree("root", &vec![]).err().unwrap(), "No .hurl files found in directory");
}

#[test]
fn file_root_is_set_once_and_paths_checked() {
    let mut root = FileRoot::new();
    assert_eq!(root.current_root().err().unwrap(), "No root path set. Open a file explorer first.");
    root.set_current_root(vec![s("/"), s("srv")]);
    root.set_current_root(vec![s("/"), s("tmp")]);
    assert_eq!(root.current_root().unwrap(), vec![s("/"), s("srv")]);
    assert!(check_within_root(&vec![s("/"), s("srv")], &vec![s("/"), s("srv"), s("a.hurl")]).is_ok());
    assert_eq!(
        check_within_root(&vec![s("/"), s("srv")], &vec![s("/"), s("srvx")]).err().unwrap(),
        "Path is outside the root directory"
    );
    assert!(check_within_root(&vec![s("/"), s("srv")], &vec![s("/")]).is_err());
}

#[test]
fn generated_asserts_stop_at_the_limit_and_open_with_the_path() {
    let fields: Vec<String> = (0..50).map(|i| format!("\"k{:02}\": {}", i, i)).collect();
    let body = format!("{{{}}}", fields.join(", "));
    let asserts = generate_json_assertions(&body);
    assert_eq!(asserts.len(), 40);
    assert!(asserts.iter().all(|a| a.starts_with("jsonpath \"$")));
    assert_eq!(asserts[0], "jsonpath \"$.k00\" == 0");
    let nested = generate_json_assertions("{\"a\": [{\"b\": 1}, 2], \"c\": \"x\"}");
    assert_eq!(
        nested,
        vec![
            "jsonpath \"$.a\" count == 2",
            "jsonpath \"$.a\" exists",
            "jsonpath \"$.a[0]\" exists",
            "jsonpath \"$.c\" == \"x\"",
        ]
    );
}
