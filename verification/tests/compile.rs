use lson::error::{KsonError, Warning};
use lson::json::kson_items_to_json;
use lson::kmodel::KType;
use lson::kson::KSONItem;
use lson::reader::{read, Entry, Host};

fn entry(name: &str, value: &str) -> Entry {
    Entry { name: name.to_string(), value: value.to_string() }
}

fn host_with(files: Vec<Entry>, variables: Vec<Entry>) -> Host {
    Host { files, variables, env_file_found: true }
}

fn section(name: &str, children: Vec<KSONItem>) -> KSONItem {
    KSONItem::Section(name.to_string(), children)
}

fn property(key: &str, value: &str) -> KSONItem {
    KSONItem::Property(key.to_string(), value.to_string())
}

const USER_SCHEMA: &str = "$user\n  name: String\n  age: Integer?";

#[test]
fn optional_property_may_be_absent() {
    let host = host_with(vec![entry("user.kmodel", USER_SCHEMA)], vec![]);
    let path = "user.kmodel".to_string();
    let compiled = read("$user\n   name = \"Ann\"", Some(&path), &host).unwrap();
    assert_eq!(compiled.properties, vec![section("user", vec![property("name", "\"Ann\"")])]);
    assert_eq!(kson_items_to_json(compiled.properties), "{\"user\": {\"name\": \"Ann\"}}");
}

#[test]
fn required_property_must_be_present() {
    let host = host_with(vec![entry("user.kmodel", USER_SCHEMA)], vec![]);
    let path = "user.kmodel".to_string();
    let failure = read("$user\n   age = 9", Some(&path), &host).unwrap_err();
    assert_eq!(
        failure,
        KsonError::RequiredPropertyMissing("name".to_string(), Some("user".to_string()))
    );
}

#[test]
fn array_element_of_wrong_type_is_reported_by_index() {
    let host = host_with(vec![entry("tags.kmodel", "tags: Array<String>")], vec![]);
    let path = "tags.kmodel".to_string();
    let failure = read("tags = [\"a\", 1]", Some(&path), &host).unwrap_err();
    assert_eq!(failure, KsonError::ArrayElementTypeMismatch(2, KType::String));
}

#[test]
fn declared_variable_is_replaced_by_its_quoted_value() {
    let host = host_with(vec![], vec![entry("TOKEN", "abc123")]);
    let compiled = read("@env(TOKEN)\nsecret = TOKEN", None, &host).unwrap();
    assert_eq!(compiled.env_vars, vec!["TOKEN".to_string()]);
    assert_eq!(kson_items_to_json(compiled.properties), "{\"secret\": \"abc123\"}");
}

#[test]
fn outdent_to_the_middle_level_closes_the_inner_levels() {
    let text = "$a\n  $b\n    $c\n      x = 1\n  $d\n    y = 2\n";
    let compiled = read(text, None, &host_with(vec![], vec![])).unwrap();
    assert_eq!(
        compiled.properties,
        vec![section(
            "a",
            vec![
                section("b", vec![section("c", vec![property("x", "1")])]),
                section("d", vec![property("y", "2")]),
            ]
        )]
    );
}

#[test]
fn any_is_warned_of_once() {
    let host = host_with(vec![entry("m", "a: Any\nb: Any")], vec![]);
    let compiled = read("@model(\"m\")\na = 1\nb = two\n", None, &host).unwrap();
    assert_eq!(compiled.warnings, vec![Warning::AnyTypeUsed]);
}

#[test]
fn nested_array_type_loads_and_rejects_values() {
    let host = host_with(vec![entry("m", "grid: Array<Array<Integer>>")], vec![]);
    let path = "m".to_string();
    assert!(lson::reader::load_schema(&host.files, "m").is_ok());
    let failure = read("grid = [1, 2]", Some(&path), &host).unwrap_err();
    assert_eq!(failure, KsonError::NestedArrayRejected);
}

#[test]
fn document_without_schema_keeps_every_property() {
    let text = "# settings\ntitle = \"Config\"\n\n$server\n  host = \"localhost\"\n  port = 8080\n  stray words\n$client\n  retries = three\n";
    let compiled = read(text, None, &host_with(vec![], vec![])).unwrap();
    assert_eq!(
        compiled.properties,
        vec![
            property("title", "\"Config\""),
            section("server", vec![property("host", "\"localhost\""), property("port", "8080")]),
            section("client", vec![property("retries", "three")]),
        ]
    );
    assert!(compiled.warnings.is_empty());
    assert!(compiled.env_vars.is_empty());
}

#[test]
fn top_level_keys_of_the_json_follow_the_document() {
    let text = "b = 1\n$s\n  inner = 2\na = 3\n$t\n$u\n  x = 4\nlast = 5";
    let compiled = read(text, None, &host_with(vec![], vec![])).unwrap();
    let keys: Vec<&str> = compiled
        .properties
        .iter()
        .map(|item| match item {
            KSONItem::Section(name, _) => name.as_str(),
            KSONItem::Property(key, _) => key.as_str(),
        })
        .collect();
    assert_eq!(keys, vec!["b", "s", "a", "t", "u", "last"]);
    assert_eq!(
        kson_items_to_json(compiled.properties),
        "{\"b\": 1,\"s\": {\"inner\": 2},\"a\": 3,\"t\": {},\"u\": {\"x\": 4},\"last\": 5}"
    );
}

#[test]
fn empty_document_compiles_to_nothing() {
    let compiled = read("", None, &host_with(vec![], vec![])).unwrap();
    assert!(compiled.properties.is_empty());
    assert_eq!(kson_items_to_json(compiled.properties), "{}");
}

#[test]
fn value_is_what_follows_the_first_equals_sign() {
    let compiled = read("url = \"a=b\"", None, &host_with(vec![], vec![])).unwrap();
    assert_eq!(compiled.properties, vec![property("url", "\"a=b\"")]);
    assert_eq!(
        lson::reader::parse_property_line("  key =  value = more  "),
        Some(("key".to_string(), "value = more".to_string()))
    );
    assert_eq!(lson::reader::parse_property_line("no assignment"), None);
    assert_eq!(
        lson::reader::parse_property_line("="),
        Some(("".to_string(), "".to_string()))
    );
}

#[test]
fn property_at_the_width_of_a_section_closes_it() {
    let text = "$a\n  $b\n    x = 1\n  y = 2\nz = 3";
    let compiled = read(text, None, &host_with(vec![], vec![])).unwrap();
    assert_eq!(
        compiled.properties,
        vec![
            section("a", vec![section("b", vec![property("x", "1")]), property("y", "2")]),
            property("z", "3"),
        ]
    );
}

#[test]
fn missing_env_file_is_only_warned_of() {
    let host = Host { files: vec![], variables: vec![], env_file_found: false };
    let compiled = read("a = 1", None, &host).unwrap();
    assert_eq!(compiled.warnings, vec![Warning::MissingEnvFile]);
    assert_eq!(compiled.properties, vec![property("a", "1")]);
}

#[test]
fn both_warnings_in_the_order_given() {
    let host = Host {
        files: vec![entry("m", "a: Any")],
        variables: vec![],
        env_file_found: false,
    };
    let compiled = read("@model m\na = 1\na = 2\na = 3", None, &host).unwrap();
    assert_eq!(compiled.warnings, vec![Warning::MissingEnvFile, Warning::AnyTypeUsed]);
}

#[test]
fn undeclared_name_is_no_variable() {
    let host = host_with(vec![], vec![entry("TOKEN", "abc123")]);
    let compiled = read("secret = TOKEN", None, &host).unwrap();
    assert_eq!(compiled.properties, vec![property("secret", "TOKEN")]);
}

#[test]
fn declared_variable_without_value_is_fatal() {
    let host = host_with(vec![], vec![entry("OTHER", "x")]);
    assert_eq!(
        read("a = 1\n@env(TOKEN)\nb = 2", None, &host).unwrap_err(),
        KsonError::MissingEnvironmentVariable("TOKEN".to_string())
    );
}

#[test]
fn resolved_value_is_held_against_the_schema() {
    let host = host_with(
        vec![entry("m", "secret: String\ncount: Integer")],
        vec![entry("TOKEN", "abc123"), entry("N", "5")],
    );
    let compiled = read("@model(m)\n@env(TOKEN)\nsecret = TOKEN\ncount = 5", None, &host).unwrap();
    assert_eq!(
        compiled.properties,
        vec![property("secret", "\"abc123\""), property("count", "5")]
    );
    assert_eq!(
        read("@model(m)\n@env(N)\nsecret = \"s\"\ncount = N", None, &host).unwrap_err(),
        KsonError::PropertyTypeMismatch("count".to_string(), KType::Integer)
    );
}

#[test]
fn model_directive_takes_brackets_and_quotes() {
    let host = host_with(vec![entry("conf/app.kmodel", "port: Integer")], vec![]);
    for line in [
        "@model conf/app.kmodel",
        "@model(conf/app.kmodel)",
        "@model(\"conf/app.kmodel\")",
        "@model   ( \"conf/app.kmodel\" )",
    ] {
        let text = format!("{}\nport = x", line);
        let result = read(&text, None, &host);
        if line.ends_with(" )") {
            assert_eq!(
                result.unwrap_err(),
                KsonError::SchemaNotFound(" \"conf/app.kmodel\" ".to_string()),
                "{:?}",
                line
            );
        } else {
            assert_eq!(
                result.unwrap_err(),
                KsonError::PropertyTypeMismatch("port".to_string(), KType::Integer),
                "{:?}",
                line
            );
        }
    }
    assert_eq!(
        lson::reader::model_paths("a = 1\n@model(\"x.kmodel\")\n  @model(no)\n@model y\n"),
        vec!["x.kmodel".to_string(), "y".to_string()]
    );
}

#[test]
fn schema_that_is_not_there_is_fatal() {
    let host = host_with(vec![], vec![]);
    assert_eq!(
        read("@model(missing.kmodel)\na = 1", None, &host).unwrap_err(),
        KsonError::SchemaNotFound("missing.kmodel".to_string())
    );
    let path = "outside.kmodel".to_string();
    assert_eq!(
        read("a = 1", Some(&path), &host).unwrap_err(),
        KsonError::SchemaNotFound("outside.kmodel".to_string())
    );
    assert!(read("", Some(&path), &host).is_ok());
}

#[test]
fn malformed_schema_is_fatal() {
    let host = host_with(vec![entry("m", "tags: Array<String")], vec![]);
    assert_eq!(
        read("@model(m)\ntags = [\"a\"]", None, &host).unwrap_err(),
        KsonError::MalformedArrayType
    );
}

#[test]
fn schema_given_from_outside_is_in_force_for_every_line() {
    let host = host_with(
        vec![entry("outside", "a: Integer"), entry("inside", "a: String")],
        vec![],
    );
    let path = "outside".to_string();
    assert_eq!(
        read("@model(inside)\na = \"text\"", Some(&path), &host).unwrap_err(),
        KsonError::PropertyTypeMismatch("a".to_string(), KType::Integer)
    );
    assert!(read("@model(inside)\na = 1", Some(&path), &host).is_ok());
    assert_eq!(
        read("a = 1\n@model(inside)", Some(&path), &host).unwrap().properties,
        vec![property("a", "1")]
    );
    assert_eq!(
        read("@model(inside)", Some(&path), &host).unwrap_err(),
        KsonError::RequiredPropertyMissing("a".to_string(), None)
    );
}

#[test]
fn later_model_directive_replaces_the_earlier() {
    let host = host_with(vec![entry("one", "a: Integer"), entry("two", "a: String")], vec![]);
    assert!(read("@model one\na = 1\n@model two\na = \"x\"", None, &host).is_ok());
    assert_eq!(
        read("@model one\n@model two\na = 1", None, &host).unwrap_err(),
        KsonError::PropertyTypeMismatch("a".to_string(), KType::String)
    );
}

#[test]
fn property_is_held_against_the_section_named_like_the_innermost_open_one() {
    let schema = "port: Integer\n$server\n  port: String\n$inner?\n  flag: Bool";
    let host = host_with(vec![entry("m", schema)], vec![]);
    let path = "m".to_string();
    let text = "port = 1\n$server\n  port = \"eighty\"\n  $inner\n    flag = true";
    assert!(read(text, Some(&path), &host).is_ok());
    let text = "port = 1\n$server\n  port = 80";
    assert_eq!(
        read(text, Some(&path), &host).unwrap_err(),
        KsonError::PropertyTypeMismatch("port".to_string(), KType::String)
    );
    let text = "port = 1\n$server\n  port = \"p\"\n  $inner\n    flag = 1";
    assert_eq!(
        read(text, Some(&path), &host).unwrap_err(),
        KsonError::PropertyTypeMismatch("flag".to_string(), KType::Boolean)
    );
}

#[test]
fn property_that_the_schema_does_not_know_is_kept() {
    let host = host_with(vec![entry("m", "a: Integer")], vec![]);
    let compiled = read("@model m\na = 1\nextra = whatever", None, &host).unwrap();
    assert_eq!(compiled.properties, vec![property("a", "1"), property("extra", "whatever")]);
}

#[test]
fn unknown_type_accepts_every_value_without_warning() {
    let host = host_with(vec![entry("m", "a: Mystery")], vec![]);
    let compiled = read("@model m\na = whatever", None, &host).unwrap();
    assert_eq!(compiled.properties, vec![property("a", "whatever")]);
    assert!(compiled.warnings.is_empty());
}

#[test]
fn required_section_must_be_present() {
    let host = host_with(vec![entry("m", "$user\n  name: String\n$extra?\n  note: String")], vec![]);
    let path = "m".to_string();
    assert_eq!(
        read("other = 1", Some(&path), &host).unwrap_err(),
        KsonError::RequiredSectionMissing("user".to_string())
    );
    assert!(read("$user\n  name = \"Ann\"", Some(&path), &host).is_ok());
}

#[test]
fn optional_section_that_is_present_must_hold_its_required_properties() {
    let host = host_with(vec![entry("m", "$extra?\n  note: String\n  more: Integer?")], vec![]);
    let path = "m".to_string();
    assert!(read("a = 1", Some(&path), &host).is_ok());
    assert_eq!(
        read("$extra\n  more = 1", Some(&path), &host).unwrap_err(),
        KsonError::RequiredPropertyMissing("note".to_string(), Some("extra".to_string()))
    );
    assert!(read("$extra\n  note = \"n\"", Some(&path), &host).is_ok());
}

#[test]
fn required_property_at_the_top_must_be_present() {
    let host = host_with(vec![entry("m", "a: Integer\nb: Integer?")], vec![]);
    let path = "m".to_string();
    assert_eq!(
        read("b = 1", Some(&path), &host).unwrap_err(),
        KsonError::RequiredPropertyMissing("a".to_string(), None)
    );
    assert!(read("a = 1", Some(&path), &host).is_ok());
}

#[test]
fn what_is_missing_is_reported_in_the_order_of_the_schema() {
    let host = host_with(vec![entry("m", "$s\n  x: Integer\na: Integer")], vec![]);
    let path = "m".to_string();
    assert_eq!(
        read("# nothing", Some(&path), &host).unwrap_err(),
        KsonError::RequiredSectionMissing("s".to_string())
    );
    assert_eq!(
        lson::reader::require_complete(
            &lson::kmodel::read("a: Integer\n$s\n  x: Integer").unwrap().properties,
            &vec![]
        ),
        Err(KsonError::RequiredPropertyMissing("a".to_string(), None))
    );
}

#[test]
fn wrong_value_ends_the_compile_before_anything_missing_is_looked_for() {
    let host = host_with(vec![entry("m", "a: Integer\nb: Integer")], vec![]);
    let path = "m".to_string();
    assert_eq!(
        read("b = x", Some(&path), &host).unwrap_err(),
        KsonError::PropertyTypeMismatch("b".to_string(), KType::Integer)
    );
}

#[test]
fn lookup_takes_the_first_entry_of_a_name() {
    let entries = vec![entry("a", "1"), entry("b", "2"), entry("a", "3")];
    assert_eq!(lson::reader::lookup(&entries, "a"), Some("1"));
    assert_eq!(lson::reader::lookup(&entries, "b"), Some("2"));
    assert_eq!(lson::reader::lookup(&entries, "c"), None);
}

#[test]
fn version_is_read_from_the_package_table() {
    let package_file = "[package]\nname = \"lson\"\nversion = \"1.2.3\"\n\n[dependencies]\n";
    assert_eq!(lson::version::get_project_version(package_file), Some("1.2.3".to_string()));
    assert_eq!(lson::version::get_project_version("[package]\nname = \"x\""), None);
    assert_eq!(lson::version::get_project_version("version = \"1.0\""), None);
    assert_eq!(lson::version::get_project_version("[package]\nversion = 3"), None);
    assert_eq!(lson::version::get_project_version("not toml ["), None);
}

#[test]
fn document_is_read_from_the_files_of_the_host() {
    let host = host_with(
        vec![entry("conf.kson", "@model(conf.kmodel)\nport = 80"), entry("conf.kmodel", "port: Integer")],
        vec![],
    );
    let compiled = lson::reader::read_file("conf.kson", None, &host).unwrap();
    assert_eq!(compiled.properties, vec![property("port", "80")]);
    assert_eq!(
        lson::reader::read_file("other.kson", None, &host).unwrap_err(),
        KsonError::DocumentNotFound("other.kson".to_string())
    );
}
