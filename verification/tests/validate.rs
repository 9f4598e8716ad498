use lson::error::KsonError;
use lson::kmodel::KType;
use lson::validate::{validate, validate_with_groups};

fn array(kind: KType) -> KType {
    KType::Array(Box::new(kind))
}

fn optional(kind: KType) -> KType {
    KType::Optional(Box::new(kind))
}

fn mismatch(key: &str, kind: KType) -> Result<bool, KsonError> {
    Err(KsonError::PropertyTypeMismatch(key.to_string(), kind))
}

#[test]
fn any_accepts_everything_and_says_so() {
    for literal in ["", "1", "\"text\"", "[1, 2]", "anything at all"] {
        assert_eq!(validate("k", &KType::Any, literal), Ok(true));
        assert_eq!(validate("k", &optional(KType::Any), literal), Ok(true));
    }
}

#[test]
fn unknown_is_no_constraint() {
    for literal in ["", "1", "\"text\"", "[1, 2]", "anything at all"] {
        assert_eq!(validate("k", &KType::Unknown, literal), Ok(false));
    }
}

#[test]
fn strings_are_in_double_quotes() {
    assert_eq!(validate("k", &KType::String, "\"Ann\""), Ok(false));
    assert_eq!(validate("k", &KType::String, "\"\""), Ok(false));
    assert_eq!(validate("k", &KType::String, "Ann"), mismatch("k", KType::String));
    assert_eq!(validate("k", &KType::String, "'Ann'"), mismatch("k", KType::String));
    assert_eq!(validate("k", &KType::String, "\"Ann"), mismatch("k", KType::String));
    assert_eq!(validate("k", &KType::String, ""), mismatch("k", KType::String));
}

#[test]
fn chars_are_in_single_quotes() {
    assert_eq!(validate("k", &KType::Char, "'a'"), Ok(false));
    assert_eq!(validate("k", &KType::Char, "\"a\""), mismatch("k", KType::Char));
    assert_eq!(validate("k", &KType::Char, "a"), mismatch("k", KType::Char));
}

#[test]
fn numbers_and_booleans() {
    assert_eq!(validate("n", &KType::Integer, "9"), Ok(false));
    assert_eq!(validate("n", &KType::Integer, "-2147483648"), Ok(false));
    assert_eq!(validate("n", &KType::Integer, "2147483648"), mismatch("n", KType::Integer));
    assert_eq!(validate("n", &KType::Integer, "9.5"), mismatch("n", KType::Integer));
    assert_eq!(validate("n", &KType::Float, "9.5"), Ok(false));
    assert_eq!(validate("n", &KType::Float, "9"), Ok(false));
    assert_eq!(validate("n", &KType::Float, "nine"), mismatch("n", KType::Float));
    assert_eq!(validate("b", &KType::Boolean, "true"), Ok(false));
    assert_eq!(validate("b", &KType::Boolean, "false"), Ok(false));
    assert_eq!(validate("b", &KType::Boolean, "True"), mismatch("b", KType::Boolean));
}

#[test]
fn an_optional_value_must_still_have_the_inner_type() {
    assert_eq!(validate("age", &optional(KType::Integer), "9"), Ok(false));
    assert_eq!(
        validate("age", &optional(KType::Integer), "nine"),
        mismatch("age", KType::Integer)
    );
    assert_eq!(validate("age", &optional(optional(KType::Integer)), "9"), Ok(false));
}

#[test]
fn arrays_hold_elements_of_the_element_type() {
    assert_eq!(validate("t", &array(KType::String), "[\"a\", \"b\"]"), Ok(false));
    assert_eq!(validate("t", &array(KType::Integer), "[1,2 , 3]"), Ok(false));
    assert_eq!(validate("t", &array(optional(KType::Integer)), "[1, 2]"), Ok(false));
    assert_eq!(validate("t", &optional(array(KType::Boolean)), "[true]"), Ok(false));
    assert_eq!(validate("t", &array(KType::Char), "['a', 'b']"), Ok(false));
    assert_eq!(validate("t", &array(KType::Float), "[1.5, 2, inf]"), Ok(false));
}

#[test]
fn the_first_wrong_element_is_reported_with_its_index_from_one() {
    assert_eq!(
        validate("t", &array(KType::String), "[\"a\", 1]"),
        Err(KsonError::ArrayElementTypeMismatch(2, KType::String))
    );
    assert_eq!(
        validate("t", &array(KType::Integer), "[x, y]"),
        Err(KsonError::ArrayElementTypeMismatch(1, KType::Integer))
    );
    assert_eq!(
        validate("t", &array(KType::Integer), "[1, 2, 3, four, five]"),
        Err(KsonError::ArrayElementTypeMismatch(4, KType::Integer))
    );
    assert_eq!(
        validate("t", &array(optional(KType::Boolean)), "[true, maybe]"),
        Err(KsonError::ArrayElementTypeMismatch(2, KType::Boolean))
    );
}

#[test]
fn an_empty_array_holds_one_empty_element() {
    assert_eq!(
        validate("t", &array(KType::Integer), "[]"),
        Err(KsonError::ArrayElementTypeMismatch(1, KType::Integer))
    );
}

#[test]
fn elements_are_counted_through_all_arrays_of_the_literal() {
    assert_eq!(validate("t", &array(KType::Integer), "[1, 2] [3]"), Ok(false));
    assert_eq!(
        validate("t", &array(KType::Integer), "[1, 2] [3, x]"),
        Err(KsonError::ArrayElementTypeMismatch(4, KType::Integer))
    );
}

#[test]
fn a_literal_without_array_does_not_have_an_array_type() {
    assert_eq!(validate("t", &array(KType::Integer), "1, 2"), mismatch("t", array(KType::Integer)));
    assert_eq!(validate("t", &array(KType::Integer), "[1, 2"), mismatch("t", array(KType::Integer)));
    assert_eq!(validate("t", &array(KType::Integer), ""), mismatch("t", array(KType::Integer)));
}

#[test]
fn elements_of_other_than_plain_types_never_match() {
    assert_eq!(
        validate("t", &array(KType::Any), "[1]"),
        Err(KsonError::ArrayElementTypeMismatch(1, KType::Any))
    );
    assert_eq!(
        validate("t", &array(KType::Unknown), "[1]"),
        Err(KsonError::ArrayElementTypeMismatch(1, KType::Unknown))
    );
}

#[test]
fn arrays_of_arrays_are_rejected_whatever_the_literal() {
    let nested = array(array(KType::Integer));
    for literal in ["[1, 2]", "[[1], [2]]", "1", ""] {
        assert_eq!(validate("g", &nested, literal), Err(KsonError::NestedArrayRejected));
    }
    assert_eq!(
        validate("g", &array(optional(array(KType::Integer))), "[1]"),
        Err(KsonError::NestedArrayRejected)
    );
    assert_eq!(
        validate("g", &optional(array(array(KType::Integer))), "[1]"),
        Err(KsonError::NestedArrayRejected)
    );
}

#[test]
fn nested_array_literal_does_not_have_a_plain_element_type() {
    assert_eq!(
        validate("g", &array(KType::Integer), "[[1, 2], [3]]"),
        Err(KsonError::ArrayElementTypeMismatch(1, KType::Integer))
    );
}

#[test]
fn given_groups_decide_for_an_array_type() {
    let groups = vec!["1, 2".to_string(), " 3 ".to_string()];
    assert_eq!(validate_with_groups("t", &array(KType::Integer), "ignored", &groups), Ok(false));
    let groups = vec!["1".to_string(), "2,b".to_string()];
    assert_eq!(
        validate_with_groups("t", &array(KType::Integer), "ignored", &groups),
        Err(KsonError::ArrayElementTypeMismatch(3, KType::Integer))
    );
    assert_eq!(
        validate_with_groups("t", &array(KType::Integer), "[1]", &vec![]),
        mismatch("t", array(KType::Integer))
    );
    assert_eq!(validate_with_groups("t", &KType::Integer, "5", &groups), Ok(false));
}

#[test]
fn a_comma_in_quoted_text_does_not_end_an_element() {
    assert_eq!(validate("t", &array(KType::String), "[\"a,b\", \"c\"]"), Ok(false));
    assert_eq!(validate("t", &array(KType::Char), "[',', 'x']"), Ok(false));
    assert_eq!(
        validate("t", &array(KType::String), "[\"a,b\", c]"),
        Err(KsonError::ArrayElementTypeMismatch(2, KType::String))
    );
    assert_eq!(
        validate("t", &array(KType::String), "[\"it's, fine\", \"x\", 3]"),
        Err(KsonError::ArrayElementTypeMismatch(3, KType::String))
    );
    assert_eq!(validate("t", &array(KType::String), "[\"open, \"x\"]"), Ok(false));
    assert_eq!(
        validate("t", &array(KType::String), "[\"open, x]"),
        Err(KsonError::ArrayElementTypeMismatch(1, KType::String))
    );
}
