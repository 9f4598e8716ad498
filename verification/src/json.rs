//! The JSON emitter: a document as the text of one JSON object.

use vstd::prelude::*;
use crate::kson::{lemma_nodes, node, nodes, KSONItem, Node};
use crate::literal::{is_quoted, is_wrapped};
use crate::text::{
    strip_leading, strip_trailing, to_chars, to_string, without_leading, without_trailing,
    CharClass,
};

verus! {

/// The value of a property as JSON writes it. A value in single quotes is
/// written in double quotes, without the single quotes at its ends. Any other
/// value is written as it stands.
pub open spec fn json_value(value: Seq<char>) -> Seq<char> {
    if is_quoted(value, '\'') {
        "\""@ + without_trailing(
            without_leading(value, CharClass::Only('\'')),
            CharClass::Only('\''),
        ) + "\""@
    } else {
        value
    }
}

/// The key of a node: the key of a property, the name of a section.
pub open spec fn key_of(n: Node) -> Seq<char> {
    match n {
        Node::Property { key, value: _ } => key,
        Node::Section { name, children: _ } => name,
    }
}

/// A node as a member of a JSON object: the key in double quotes, a colon
/// and a space, then the value of a property, or the nodes of a section as an
/// object.
pub open spec fn member(n: Node) -> Seq<char>
    decreases n,
{
    match n {
        Node::Property { key, value } => "\""@ + key + "\": "@ + json_value(value),
        Node::Section { name, children } => "\""@ + name + "\": "@ + ("{"@ + members(children)
            + "}"@),
    }
}

/// The members for `forest`, in order, with a comma between one and the
/// next.
pub open spec fn members(forest: Seq<Node>) -> Seq<char>
    decreases forest,
{
    if forest.len() == 0 {
        Seq::empty()
    } else if forest.len() == 1 {
        member(forest[0])
    } else {
        members(forest.drop_last()) + ","@ + member(forest.last())
    }
}

/// A document as a JSON object.
pub open spec fn object(forest: Seq<Node>) -> Seq<char> {
    "{"@ + members(forest) + "}"@
}

fn value_to_json(value: &str) -> (json: String)
    ensures
        json@ == json_value(value@),
{
    let chars = to_chars(value);
    if is_wrapped(&chars, '\'') {
        let inner = strip_leading(&chars, CharClass::Only('\''));
        let inner = strip_trailing(&inner, CharClass::Only('\''));
        let mut json = String::from_str("\"");
        json.append(to_string(&inner).as_str());
        json.append("\"");
        json
    } else {
        String::from_str(value)
    }
}

fn render(items: &Vec<KSONItem>) -> (json: String)
    ensures
        json@ == object(nodes(items@)),
    decreases items@,
{
    let ghost forest = nodes(items@);
    proof {
        lemma_nodes(items@);
    }
    let mut json = String::from_str("{");
    let mut i: usize = 0;
    assert(forest.take(0) =~= Seq::<Node>::empty());
    while i < items.len()
        invariant
            i <= items.len(),
            forest == nodes(items@),
            forest.len() == items.len(),
            forall|j: int| 0 <= j < forest.len() ==> #[trigger] forest[j] == node(items@[j]),
            json@ == "{"@ + members(forest.take(i as int)),
        decreases items.len() - i,
    {
        let ghost so_far = members(forest.take(i as int));
        if i > 0 {
            json.append(",");
        }
        json.append("\"");
        match &items[i] {
            KSONItem::Property(key, value) => {
                json.append(key.as_str());
                json.append("\": ");
                json.append(value_to_json(value.as_str()).as_str());
            },
            KSONItem::Section(name, children) => {
                json.append(name.as_str());
                json.append("\": ");
                json.append(render(children).as_str());
            },
        }
        proof {
            let next = forest.take(i + 1);
            assert(next.drop_last() =~= forest.take(i as int));
            assert(next.last() == forest[i as int]);
            if i == 0 {
                assert(next[0] == forest[0]);
                assert(json@ =~= "{"@ + member(forest[0]));
            } else {
                assert(json@ =~= "{"@ + (so_far + ","@ + member(forest[i as int])));
            }
        }
        i += 1;
    }
    assert(forest.take(i as int) =~= forest);
    json.append("}");
    json
}

/// Renders a document as one JSON object.
pub fn kson_items_to_json(items: Vec<KSONItem>) -> (json: String)
    ensures
        json@ == object(nodes(items@)),
{
    render(&items)
}

} // verus!
