use lson::error::KsonError;
use lson::kmodel::{parse_property_line, parse_type, read, KItemType, KModel, KModelSection, KType};

fn array(kind: KType) -> KType {
    KType::Array(Box::new(kind))
}

fn optional(kind: KType) -> KType {
    KType::Optional(Box::new(kind))
}

fn declared(key: &str, kind: KType) -> KItemType {
    KItemType::Property(key.to_string(), kind)
}

fn required_section(name: &str, entries: Vec<KItemType>) -> KItemType {
    KItemType::Section(KModelSection::Required(name.to_string()), entries)
}

fn optional_section(name: &str, entries: Vec<KItemType>) -> KItemType {
    KItemType::Section(KModelSection::Optional(name.to_string()), entries)
}

#[test]
fn only_optional_types_are_not_required() {
    assert!(KType::String.is_required());
    assert!(KType::Any.is_required());
    assert!(KType::Unknown.is_required());
    assert!(array(KType::Integer).is_required());
    assert!(array(optional(KType::Integer)).is_required());
    assert!(!optional(KType::Integer).is_required());
    assert!(!optional(array(KType::Integer)).is_required());
}

#[test]
fn types_are_written_as_a_schema_writes_them() {
    assert_eq!(KType::String.to_string(), "String");
    assert_eq!(KType::Char.to_string(), "Char");
    assert_eq!(KType::Integer.to_string(), "Integer");
    assert_eq!(KType::Float.to_string(), "Float");
    assert_eq!(KType::Boolean.to_string(), "Bool");
    assert_eq!(KType::Any.to_string(), "Any");
    assert_eq!(KType::Unknown.to_string(), "Unknown");
    assert_eq!(array(KType::Integer).to_string(), "Array<Integer>");
    assert_eq!(array(optional(KType::Char)).to_string(), "Array<Char?>");
    assert_eq!(optional(array(KType::Float)).to_string(), "Array<Float>?");
    assert_eq!(array(array(KType::Integer)).to_string(), "Array<Array<Integer>>");
}

#[test]
fn duplicate_and_required_form() {
    let kind = optional(array(optional(KType::Boolean)));
    assert_eq!(kind.duplicate(), kind);
    assert_eq!(*kind.required_form(), array(optional(KType::Boolean)));
    assert_eq!(*optional(optional(KType::Char)).required_form(), KType::Char);
    assert_eq!(*KType::Any.required_form(), KType::Any);
}

#[test]
fn sections_know_their_name_and_whether_they_are_required() {
    let required = KModelSection::Required("user".to_string());
    let optional = KModelSection::Optional("extra".to_string());
    assert!(required.is_required());
    assert!(!optional.is_required());
    assert_eq!(required.to_string(), "user");
    assert_eq!(optional.to_string(), "extra");
}

#[test]
fn type_tokens() {
    assert_eq!(parse_type("String"), Ok(KType::String));
    assert_eq!(parse_type("Char"), Ok(KType::Char));
    assert_eq!(parse_type("Integer"), Ok(KType::Integer));
    assert_eq!(parse_type("Float"), Ok(KType::Float));
    assert_eq!(parse_type("Bool"), Ok(KType::Boolean));
    assert_eq!(parse_type("Any"), Ok(KType::Any));
    assert_eq!(parse_type("Boolean"), Ok(KType::Unknown));
    assert_eq!(parse_type("string"), Ok(KType::Unknown));
    assert_eq!(parse_type(""), Ok(KType::Unknown));
    assert_eq!(parse_type("Integer?"), Ok(KType::Unknown));
    assert_eq!(parse_type("Array<Integer>"), Ok(array(KType::Integer)));
    assert_eq!(parse_type("Array<Integer?>"), Ok(array(optional(KType::Integer))));
    assert_eq!(parse_type("Array<Thing>"), Ok(array(KType::Unknown)));
    assert_eq!(parse_type("Array<?>"), Ok(array(optional(KType::Unknown))));
    assert_eq!(parse_type("Array< Integer >"), Ok(array(KType::Unknown)));
    assert_eq!(parse_type("Array<Array<Integer>>"), Ok(array(array(KType::Integer))));
    assert_eq!(
        parse_type("Array<Array<Integer>?>"),
        Ok(array(optional(array(KType::Integer))))
    );
}

#[test]
fn array_without_element_type_is_malformed() {
    for token in ["Array", "Array<", "Array<Integer", "Array>", "Array<>", "Array>Integer<", "Array<Array<>"]
    {
        assert_eq!(parse_type(token), Err(KsonError::MalformedArrayType), "{:?}", token);
    }
}

#[test]
fn declaration_has_exactly_one_colon() {
    assert_eq!(
        parse_property_line("  name : String "),
        Some(("name".to_string(), "String".to_string()))
    );
    assert_eq!(parse_property_line("name:"), Some(("name".to_string(), "".to_string())));
    assert_eq!(parse_property_line(":"), Some(("".to_string(), "".to_string())));
    assert_eq!(parse_property_line("name String"), None);
    assert_eq!(parse_property_line("a: b: c"), None);
    assert_eq!(parse_property_line(""), None);
}

#[test]
fn schema_with_top_level_properties_and_sections() {
    let text = "title: String\n$user\n  name: String\n  age: Integer?\n$extra?\n  tags: Array<String>\nversion: Float";
    let model = read(text).unwrap();
    assert_eq!(
        model.properties,
        vec![
            declared("title", KType::String),
            required_section(
                "user",
                vec![declared("name", KType::String), declared("age", optional(KType::Integer))]
            ),
            optional_section("extra", vec![declared("tags", array(KType::String))]),
            declared("version", KType::Float),
        ]
    );
    assert!(model._sections.is_empty());
}

#[test]
fn outdent_in_a_schema_returns_to_the_outer_section() {
    let text = "$a\n  $b\n    y: Integer\n  z: String\n";
    let model = read(text).unwrap();
    assert_eq!(
        model.properties,
        vec![
            required_section("a", vec![declared("z", KType::String)]),
            required_section("b", vec![declared("y", KType::Integer)]),
        ]
    );
    assert_eq!(model._sections, vec!["a".to_string()]);
}

#[test]
fn schema_lines_without_declaration_are_passed_over() {
    let model = read("\n# no colon here\nplain text\n   \n").unwrap();
    assert!(model.properties.is_empty());
    assert_eq!(read("").unwrap().properties, vec![]);
}

#[test]
fn schema_with_malformed_array_does_not_load() {
    assert_eq!(read("tags: Array<String").unwrap_err(), KsonError::MalformedArrayType);
    assert_eq!(read("a: String\n$s\n  tags: Array?").unwrap_err(), KsonError::MalformedArrayType);
}

#[test]
fn lookups_take_the_first_match() {
    let model = KModel::new(vec![
        declared("a", KType::Integer),
        declared("a", KType::String),
        required_section("s", vec![declared("x", KType::Char), declared("x", KType::Any)]),
        optional_section("s", vec![declared("y", KType::Float)]),
    ]);
    assert_eq!(model.get_property("a"), Some(&KType::Integer));
    assert_eq!(model.get_property("x"), None);
    assert_eq!(model.get_property("s"), None);
    assert_eq!(
        model.get_section("s"),
        Some(&vec![declared("x", KType::Char), declared("x", KType::Any)])
    );
    assert_eq!(model.get_section("a"), None);
    assert_eq!(model.get_section_property("s", "x"), Some(&KType::Char));
    assert_eq!(model.get_section_property("s", "y"), None);
    assert_eq!(model.get_section_property("t", "x"), None);
}

#[test]
fn builder_keeps_a_stack_of_open_sections() {
    let mut model = KModel::new(vec![]);
    assert_eq!(model.last_section(), None);
    model.attr(declared("top", KType::Integer));
    model.push_section(KModelSection::Required("a".to_string()));
    assert_eq!(model.last_section(), Some("a"));
    model.attr(declared("x", KType::String));
    model.push_section(KModelSection::Optional("b".to_string()));
    assert_eq!(model.last_section(), Some("b"));
    model.attr(declared("y", KType::Char));
    model.pop_section();
    assert_eq!(model.last_section(), Some("a"));
    model.attr(declared("z", KType::Float));
    model.pop_section();
    model.pop_section();
    assert_eq!(model.last_section(), None);
    model.attr(declared("end", KType::Any));
    assert_eq!(
        model.properties,
        vec![
            declared("top", KType::Integer),
            required_section("a", vec![declared("x", KType::String), declared("z", KType::Float)]),
            optional_section("b", vec![declared("y", KType::Char)]),
            declared("end", KType::Any),
        ]
    );
}

#[test]
fn entry_for_a_section_that_is_not_there_goes_to_the_top() {
    let mut model = KModel::new(vec![declared("top", KType::Integer)]);
    model._sections.push("ghost".to_string());
    model.attr(declared("x", KType::String));
    assert_eq!(
        model.properties,
        vec![declared("top", KType::Integer), declared("x", KType::String)]
    );
}
