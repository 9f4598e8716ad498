use lson::kson::{find_section, find_value, KSONItem, KSON};

fn section(name: &str, children: Vec<KSONItem>) -> KSONItem {
    KSONItem::Section(name.to_string(), children)
}

fn property(key: &str, value: &str) -> KSONItem {
    KSONItem::Property(key.to_string(), value.to_string())
}

fn path(names: &[&str]) -> Vec<String> {
    names.iter().map(|n| n.to_string()).collect()
}

#[test]
fn new_builder_has_nothing_open() {
    let kson = KSON::new(vec![property("a", "1")]);
    assert_eq!(kson.properties, vec![property("a", "1")]);
    assert!(kson._sections.is_empty());
    assert!(kson._section_indents.is_empty());
    assert!(kson.env_vars.is_empty());
    assert_eq!(kson.last_section(), None);
}

#[test]
fn lookups_take_the_first_match_at_the_top_level() {
    let kson = KSON::new(vec![
        property("a", "1"),
        property("a", "2"),
        section("s", vec![property("x", "'c'"), section("t", vec![property("deep", "0")])]),
        section("s", vec![property("y", "true")]),
    ]);
    assert_eq!(kson.get_property("a"), Some("1"));
    assert_eq!(kson.get_property("x"), None);
    assert_eq!(kson.get_property("s"), None);
    assert_eq!(
        kson.get_section("s"),
        Some(&vec![property("x", "'c'"), section("t", vec![property("deep", "0")])])
    );
    assert_eq!(kson.get_section("t"), None);
    assert_eq!(kson.get_section_property("s", "x"), Some("'c'"));
    assert_eq!(kson.get_section_property("s", "y"), None);
    assert_eq!(kson.get_section_property("s", "deep"), None);
    assert_eq!(kson.get_section_property("none", "x"), None);
    assert_eq!(find_value(&kson.properties, "a"), Some("1"));
    assert_eq!(find_section(&kson.properties, "a"), None);
}

#[test]
fn sections_nest_along_the_stack() {
    let mut kson = KSON::new(vec![]);
    kson.push_section("a", 0);
    kson.attr(property("x", "1"));
    kson.push_section("b", 2);
    kson.attr(property("y", "2"));
    assert_eq!(kson.last_section(), Some("b"));
    assert_eq!(kson._section_indents, vec![0, 2]);
    kson.pop_section();
    assert_eq!(kson.last_section(), Some("a"));
    assert_eq!(kson._section_indents, vec![0]);
    kson.attr(property("z", "3"));
    kson.pop_section();
    kson.pop_section();
    assert_eq!(kson.last_section(), None);
    kson.attr(property("w", "4"));
    assert_eq!(
        kson.properties,
        vec![
            section(
                "a",
                vec![property("x", "1"), section("b", vec![property("y", "2")]), property("z", "3")]
            ),
            property("w", "4"),
        ]
    );
}

#[test]
fn close_sections_closes_from_the_given_width_inwards() {
    let mut kson = KSON::new(vec![]);
    kson.push_section("a", 0);
    kson.push_section("b", 2);
    kson.push_section("c", 4);
    kson.close_sections(5);
    assert_eq!(kson._sections, path(&["a", "b", "c"]));
    kson.close_sections(3);
    assert_eq!(kson._sections, path(&["a", "b"]));
    assert_eq!(kson._section_indents, vec![0, 2]);
    kson.close_sections(2);
    assert_eq!(kson._sections, path(&["a"]));
    kson.push_section("d", 2);
    kson.close_sections(0);
    assert!(kson._sections.is_empty());
    assert!(kson._section_indents.is_empty());
    kson.close_sections(0);
    assert!(kson._sections.is_empty());
}

#[test]
fn a_node_goes_to_the_last_section_of_each_name() {
    let mut items = vec![
        section("a", vec![section("b", vec![])]),
        section("a", vec![section("b", vec![]), section("b", vec![]), property("b", "no section")]),
        property("a", "no section"),
    ];
    KSON::add_to_nested_section(&mut items, &path(&["a", "b"]), 0, property("x", "1"));
    assert_eq!(
        items,
        vec![
            section("a", vec![section("b", vec![])]),
            section(
                "a",
                vec![
                    section("b", vec![]),
                    section("b", vec![property("x", "1")]),
                    property("b", "no section")
                ]
            ),
            property("a", "no section"),
        ]
    );
}

#[test]
fn a_node_stays_where_the_path_breaks_off() {
    let mut items = vec![section("a", vec![property("k", "v")])];
    KSON::add_to_nested_section(&mut items, &path(&["a", "missing", "c"]), 0, property("x", "1"));
    assert_eq!(items, vec![section("a", vec![property("k", "v"), property("x", "1")])]);
    KSON::add_to_nested_section(&mut items, &path(&["nowhere"]), 0, property("y", "2"));
    assert_eq!(
        items,
        vec![section("a", vec![property("k", "v"), property("x", "1")]), property("y", "2")]
    );
}

#[test]
fn a_depth_behind_the_path_places_the_node_at_once() {
    let mut items = vec![section("a", vec![])];
    KSON::add_to_nested_section(&mut items, &path(&["a"]), 1, property("x", "1"));
    KSON::add_to_nested_section(&mut items, &path(&["a"]), 7, property("y", "2"));
    assert_eq!(items, vec![section("a", vec![]), property("x", "1"), property("y", "2")]);
}
