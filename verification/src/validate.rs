//! The type validator: whether the literal of a property has the type that
//! the schema gives it.

use vstd::prelude::*;
use crate::error::{agrees, Failure, KsonError};
use crate::kmodel::KType;
use crate::literal::{
    is_bool, is_bool_literal, is_float, is_float_literal, is_integer, is_integer_literal,
    is_quoted, is_wrapped,
};
use crate::text::{names, rows, slice, to_chars, trim, trimmed};

verus! {

/// What `regex::Regex::new(pattern)` finds in `text`: for each match that
/// `captures_iter` gives, in order, the text that the first capture group
/// matched. `None` where `pattern` is no regular expression, or where that
/// group took no part in one of the matches.
pub uninterp spec fn first_group_matches(pattern: Seq<char>, text: Seq<char>) -> Option<
    Seq<Seq<char>>,
>;

/// Compiles `pattern` with `regex::Regex::new` and walks the matches in
/// `text` with `Regex::captures_iter`, taking from each the first capture
/// group with `Captures::get`. The result is the named result
/// `first_group_matches`; nothing more is claimed of it.
#[verifier::external_body]
fn capture_first_groups(pattern: &str, text: &str) -> (found: Option<Vec<String>>)
    ensures
        match found {
            Some(groups) => first_group_matches(pattern@, text@) == Some(names(groups@)),
            None => first_group_matches(pattern@, text@) is None,
        },
{
    let compiled = regex::Regex::new(pattern).ok()?;
    compiled.captures_iter(text).map(|c| c.get(1).map(|m| m.as_str().to_string())).collect()
}

/// The regular expression for one array in a literal: an opening bracket, as
/// few characters as possible, a closing bracket. The group captures what
/// stands between the brackets.
pub open spec fn array_pattern() -> Seq<char> {
    "\\[(.*?)\\]"@
}

/// The contents of the arrays in `literal`, in order.
pub open spec fn array_groups(literal: Seq<char>) -> Seq<Seq<char>> {
    match first_group_matches(array_pattern(), literal) {
        Some(groups) => groups,
        None => Seq::empty(),
    }
}

/// Whether `literal` is a value of the plain type `kind`. No literal is a
/// value of any other type.
pub open spec fn is_plain_value(kind: KType, literal: Seq<char>) -> bool {
    match kind {
        KType::String => is_quoted(literal, '"'),
        KType::Char => is_quoted(literal, '\''),
        KType::Integer => is_integer_literal(literal),
        KType::Float => is_float_literal(literal),
        KType::Boolean => is_bool_literal(literal),
        _ => false,
    }
}

/// Whether `c` opens a quoted text.
pub open spec fn is_quote(c: char) -> bool {
    c == '"' || c == '\''
}

/// The quoted text that one stands in behind the character `c`: `inside` is
/// the quote character that opened the text one stood in before `c`.
pub open spec fn quote_after(inside: Option<char>, c: char) -> Option<char> {
    match inside {
        Some(quote) => if c == quote {
            None
        } else {
            inside
        },
        None => if is_quote(c) {
            Some(c)
        } else {
            None
        },
    }
}

/// The index of the first comma of `s` that stands outside quoted text, or
/// `s.len()` where there is none. A quoted text begins with a double or a
/// single quote and ends with the next quote of the same kind.
pub open spec fn next_comma(s: Seq<char>, inside: Option<char>) -> nat
    decreases s.len(),
{
    if s.len() == 0 || (inside is None && s[0] == ',') {
        0
    } else {
        1 + next_comma(s.skip(1), quote_after(inside, s[0]))
    }
}

/// The parts of `s` between the commas that stand outside quoted text.
pub open spec fn items_of(s: Seq<char>) -> Seq<Seq<char>>
    decreases s.len(),
{
    let i = next_comma(s, None) as int;
    if i >= s.len() {
        seq![s]
    } else {
        seq![s.take(i)] + items_of(s.skip(i + 1))
    }
}

/// Each of `parts` without the white space around it.
pub open spec fn all_trimmed(parts: Seq<Seq<char>>) -> Seq<Seq<char>> {
    Seq::new(parts.len(), |i: int| trimmed(parts[i]))
}

/// The elements that the arrays with these contents hold, in order: the
/// parts of each content between commas outside quoted text, without the
/// white space around them.
pub open spec fn elements(groups: Seq<Seq<char>>) -> Seq<Seq<char>>
    decreases groups.len(),
{
    if groups.len() == 0 {
        Seq::empty()
    } else {
        elements(groups.drop_last()) + all_trimmed(items_of(groups.last()))
    }
}

/// The index of the first of `items` that is no value of `kind`, or
/// `items.len()` where all are.
pub open spec fn first_mismatch(items: Seq<Seq<char>>, kind: KType) -> nat
    decreases items.len(),
{
    if items.len() == 0 || !is_plain_value(kind, items[0]) {
        0
    } else {
        1 + first_mismatch(items.skip(1), kind)
    }
}

/// `first_mismatch` is the least index of an item that is no value of `kind`.
pub proof fn lemma_first_mismatch(items: Seq<Seq<char>>, kind: KType)
    ensures
        first_mismatch(items, kind) <= items.len(),
        forall|i: int|
            0 <= i < first_mismatch(items, kind) ==> is_plain_value(kind, #[trigger] items[i]),
        first_mismatch(items, kind) < items.len() ==> !is_plain_value(
            kind,
            items[first_mismatch(items, kind) as int],
        ),
    decreases items.len(),
{
    if !(items.len() == 0 || !is_plain_value(kind, items[0])) {
        lemma_first_mismatch(items.skip(1), kind);
        let n = first_mismatch(items.skip(1), kind) as int;
        assert forall|i: int| 0 <= i < n + 1 implies is_plain_value(kind, #[trigger] items[i]) by {
            if i > 0 {
                assert(items[i] == items.skip(1)[i - 1]);
            }
        }
        if n + 1 < items.len() {
            assert(items[n + 1] == items.skip(1)[n]);
        }
    }
}

/// The verdict on a literal, given the contents of the arrays found in it.
///
/// The literal is held against the expected type without its `Optional`.
/// `Any` accepts every literal, and the result `true` says that it did;
/// `Unknown` accepts every literal too. A plain type accepts the literals of
/// its form. An array type whose elements are arrays accepts nothing. Any
/// other array type wants at least one array in the literal, and every
/// element to be a value of the element type without its `Optional`; the
/// first element that is not is reported with its index, counted from 1.
pub open spec fn verdict(
    key: Seq<char>,
    expected: KType,
    literal: Seq<char>,
    groups: Seq<Seq<char>>,
) -> Result<bool, Failure> {
    let kind = expected.base();
    match kind {
        KType::Any => Ok(true),
        KType::Unknown => Ok(false),
        KType::Array(element) => {
            let items = elements(groups);
            let bad = first_mismatch(items, element.base());
            if element.base() is Array {
                Err(Failure::NestedArrayRejected)
            } else if groups.len() == 0 {
                Err(Failure::PropertyTypeMismatch(key, kind))
            } else if bad < items.len() {
                Err(Failure::ArrayElementTypeMismatch(bad + 1, element.base()))
            } else {
                Ok(false)
            }
        },
        _ => if is_plain_value(kind, literal) {
            Ok(false)
        } else {
            Err(Failure::PropertyTypeMismatch(key, kind))
        },
    }
}

/// An array of arrays accepts no literal, whatever the literal holds: a type
/// whose elements are arrays, with or without `Optional` around either, is
/// answered with `NestedArrayRejected`.
pub proof fn lemma_nested_array_rejected(
    key: Seq<char>,
    expected: KType,
    literal: Seq<char>,
    groups: Seq<Seq<char>>,
)
    requires
        expected.base() matches KType::Array(element) && element.base() is Array,
    ensures
        verdict(key, expected, literal, groups) == Err::<bool, Failure>(
            Failure::NestedArrayRejected,
        ),
{
}

/// The array elements are held against a plain type: where a literal is
/// accepted for an array type, every element found in it is a value of one of
/// the five plain types, none of which is an array.
pub proof fn lemma_array_elements_plain(
    key: Seq<char>,
    expected: KType,
    literal: Seq<char>,
    groups: Seq<Seq<char>>,
)
    requires
        expected.base() matches KType::Array(_),
        verdict(key, expected, literal, groups) is Ok,
    ensures
        groups.len() > 0,
        expected.base() matches KType::Array(element) && !(element.base() is Array) && forall|
            i: int,
        |
            0 <= i < elements(groups).len() ==> is_plain_value(
                element.base(),
                #[trigger] elements(groups)[i],
            ),
{
    match expected.base() {
        KType::Array(element) => {
            lemma_first_mismatch(elements(groups), element.base());
        },
        _ => {},
    }
}

fn has_plain_type(kind: &KType, literal: &Vec<char>) -> (r: bool)
    ensures
        r == is_plain_value(*kind, literal@),
{
    match kind {
        KType::String => is_wrapped(literal, '"'),
        KType::Char => is_wrapped(literal, '\''),
        KType::Integer => is_integer(literal),
        KType::Float => is_float(literal),
        KType::Boolean => is_bool(literal),
        _ => false,
    }
}

/// The first comma outside quoted text at or behind `from`, or `v.len()`.
fn find_comma(v: &Vec<char>, from: usize) -> (i: usize)
    requires
        from <= v.len(),
    ensures
        from <= i <= v.len(),
        i - from == next_comma(v@.skip(from as int), None),
{
    let mut i: usize = from;
    let mut inside: Option<char> = None;
    while i < v.len() && !(inside.is_none() && v[i] == ',')
        invariant
            from <= i <= v.len(),
            next_comma(v@.skip(from as int), None) == (i - from) + next_comma(
                v@.skip(i as int),
                inside,
            ),
        decreases v.len() - i,
    {
        let c = v[i];
        assert(v@.skip(i as int).skip(1) =~= v@.skip(i + 1));
        inside = match inside {
            Some(quote) => if c == quote {
                None
            } else {
                inside
            },
            None => if c == '"' || c == '\'' {
                Some(c)
            } else {
                None
            },
        };
        i += 1;
    }
    i
}

/// Splits `v` at the commas that stand outside quoted text.
fn split_items(v: &Vec<char>) -> (parts: Vec<Vec<char>>)
    ensures
        rows(parts@) == items_of(v@),
{
    let mut parts: Vec<Vec<char>> = Vec::new();
    let mut start: usize = 0;
    assert(v@.skip(0) =~= v@);
    assert(rows(parts@) + items_of(v@) =~= items_of(v@));
    loop
        invariant_except_break
            start <= v.len(),
            items_of(v@) == rows(parts@) + items_of(v@.skip(start as int)),
        ensures
            rows(parts@) == items_of(v@),
        decreases v.len() - start,
    {
        let i = find_comma(v, start);
        let part = slice(v, start, i);
        let ghost rest = v@.skip(start as int);
        let ghost before = rows(parts@);
        assert(rest.take(i - start) =~= part@);
        parts.push(part);
        if i >= v.len() {
            assert(rest.take(rest.len() as int) =~= rest);
            assert(rows(parts@) =~= before + seq![rest]);
            break ;
        }
        assert(rest.skip(i - start + 1) =~= v@.skip(i + 1));
        assert(rows(parts@) =~= before + seq![rest.take(i - start)]);
        assert(before + (seq![rest.take(i - start)] + items_of(v@.skip(i + 1))) =~= (before
            + seq![rest.take(i - start)]) + items_of(v@.skip(i + 1)));
        start = i + 1;
    }
    parts
}

fn elements_of(groups: &Vec<String>) -> (items: Vec<Vec<char>>)
    ensures
        rows(items@) == elements(names(groups@)),
{
    let mut items: Vec<Vec<char>> = Vec::new();
    let mut g: usize = 0;
    assert(names(groups@).take(0) =~= Seq::empty());
    while g < groups.len()
        invariant
            g <= groups.len(),
            rows(items@) == elements(names(groups@).take(g as int)),
        decreases groups.len() - g,
    {
        let content = to_chars(groups[g].as_str());
        let parts = split_items(&content);
        let ghost before = rows(items@);
        let ghost wanted = all_trimmed(items_of(content@));
        let mut p: usize = 0;
        while p < parts.len()
            invariant
                p <= parts.len(),
                rows(parts@) == items_of(content@),
                wanted == all_trimmed(items_of(content@)),
                rows(items@) == before + wanted.take(p as int),
            decreases parts.len() - p,
        {
            let item = trim(&parts[p]);
            assert(rows(parts@)[p as int] == parts@[p as int]@);
            let ghost old_rows = rows(items@);
            items.push(item);
            assert(rows(items@) =~= old_rows.push(item@));
            assert(wanted.take(p + 1) =~= wanted.take(p as int).push(wanted[p as int]));
            p += 1;
        }
        assert(wanted.take(p as int) =~= wanted);
        assert(names(groups@).take(g + 1).drop_last() =~= names(groups@).take(g as int));
        assert(names(groups@).take(g + 1).last() == content@);
        g += 1;
    }
    assert(names(groups@).take(g as int) =~= names(groups@));
    items
}

/// The verdict on a literal whose arrays have the contents `groups`.
pub fn validate_with_groups(
    key: &str,
    expected: &KType,
    literal: &str,
    groups: &Vec<String>,
) -> (r: Result<bool, KsonError>)
    ensures
        agrees(r, verdict(key@, *expected, literal@, names(groups@))),
{
    let kind = expected.required_form();
    match kind {
        KType::Any => Ok(true),
        KType::Unknown => Ok(false),
        KType::Array(inner) => {
            let element = inner.required_form();
            if let KType::Array(_) = element {
                return Err(KsonError::NestedArrayRejected);
            }
            if groups.len() == 0 {
                return Err(
                    KsonError::PropertyTypeMismatch(String::from_str(key), kind.duplicate()),
                );
            }
            let items = elements_of(groups);
            let mut i: usize = 0;
            assert(rows(items@).skip(0) =~= rows(items@));
            while i < items.len()
                invariant
                    i <= items.len(),
                    *kind == expected.base(),
                    *kind == KType::Array(*inner),
                    *element == inner.base(),
                    !(*element is Array),
                    groups.len() > 0,
                    rows(items@) == elements(names(groups@)),
                    first_mismatch(rows(items@), *element) == i + first_mismatch(
                        rows(items@).skip(i as int),
                        *element,
                    ),
                decreases items.len() - i,
            {
                assert(rows(items@).skip(i as int)[0] == items@[i as int]@);
                if !has_plain_type(element, &items[i]) {
                    return Err(KsonError::ArrayElementTypeMismatch(i + 1, element.duplicate()));
                }
                assert(rows(items@).skip(i as int).skip(1) =~= rows(items@).skip(i + 1));
                i += 1;
            }
            Ok(false)
        },
        _ => {
            let chars = to_chars(literal);
            if has_plain_type(kind, &chars) {
                Ok(false)
            } else {
                Err(KsonError::PropertyTypeMismatch(String::from_str(key), kind.duplicate()))
            }
        },
    }
}

/// The verdict on the literal of the property `key`, held against the type
/// that the schema gives it.
pub fn validate(key: &str, expected: &KType, literal: &str) -> (r: Result<bool, KsonError>)
    ensures
        agrees(r, verdict(key@, *expected, literal@, array_groups(literal@))),
{
    let groups = match capture_first_groups("\\[(.*?)\\]", literal) {
        Some(groups) => groups,
        None => Vec::new(),
    };
    assert(names(groups@) =~= array_groups(literal@));
    validate_with_groups(key, expected, literal, &groups)
}

} // verus!
