use lson::json::kson_items_to_json;
use lson::kson::KSONItem;

fn section(name: &str, children: Vec<KSONItem>) -> KSONItem {
    KSONItem::Section(name.to_string(), children)
}

fn property(key: &str, value: &str) -> KSONItem {
    KSONItem::Property(key.to_string(), value.to_string())
}

#[test]
fn an_empty_document_is_an_empty_object() {
    assert_eq!(kson_items_to_json(vec![]), "{}");
}

#[test]
fn an_empty_section_is_an_empty_object() {
    assert_eq!(kson_items_to_json(vec![section("s", vec![])]), "{\"s\": {}}");
}

#[test]
fn values_are_written_as_they_stand() {
    assert_eq!(
        kson_items_to_json(vec![
            property("name", "\"Ann\""),
            property("age", "9"),
            property("ok", "true"),
            property("tags", "[\"a\", \"b\"]"),
        ]),
        "{\"name\": \"Ann\",\"age\": 9,\"ok\": true,\"tags\": [\"a\", \"b\"]}"
    );
}

#[test]
fn single_quotes_become_double_quotes() {
    assert_eq!(kson_items_to_json(vec![property("c", "'x'")]), "{\"c\": \"x\"}");
    assert_eq!(kson_items_to_json(vec![property("c", "''x''")]), "{\"c\": \"x\"}");
    assert_eq!(kson_items_to_json(vec![property("c", "'")]), "{\"c\": \"\"}");
    assert_eq!(kson_items_to_json(vec![property("c", "'a'b'")]), "{\"c\": \"a'b\"}");
    assert_eq!(kson_items_to_json(vec![property("c", "'x")]), "{\"c\": 'x}");
}

#[test]
fn sections_are_objects_in_objects() {
    assert_eq!(
        kson_items_to_json(vec![
            section(
                "a",
                vec![property("x", "1"), section("b", vec![property("y", "2")]), property("z", "3")]
            ),
            property("w", "4"),
        ]),
        "{\"a\": {\"x\": 1,\"b\": {\"y\": 2},\"z\": 3},\"w\": 4}"
    );
}
