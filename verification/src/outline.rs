//! The outline of a document: the keys of its top-level nodes, read off the
//! lines of its text without building the document.
//!
//! A line that makes a node stands at the top level where no section is open
//! once the line has closed what it closes. Only the section at the bottom of
//! the stack matters for that: the line stands at the top level unless that
//! section was opened at a smaller width.

use vstd::prelude::*;
use crate::json::{key_of, member};
use crate::kson::{last_named, lemma_last_named, placed, Document, Node};
use crate::reader::{
    assignment, initial, parse_line, parse_lines, parsed, resolved, Entry, Parsing,
};
use crate::scope::{kept, lemma_closes_exactly};
use crate::text::{has_prefix, indent_of, lines_of, trimmed, without_leading, CharClass};

verus! {

/// The keys of the nodes of `forest`, in order.
pub open spec fn keys(forest: Seq<Node>) -> Seq<Seq<char>> {
    Seq::new(forest.len(), |i: int| key_of(forest[i]))
}

/// Whether `line` is a section header.
pub open spec fn is_header(line: Seq<char>) -> bool {
    let content = without_leading(line, CharClass::Whitespace);
    &&& !has_prefix(line, "@model"@)
    &&& !has_prefix(line, "@env"@)
    &&& content.len() > 0
    &&& content[0] == '$'
}

/// The key of the node that `line` makes: the name of the section that it
/// opens or the key of its property. `None` for a directive, a comment, and a
/// line that is passed over.
pub open spec fn made_key(line: Seq<char>) -> Option<Seq<char>> {
    let content = without_leading(line, CharClass::Whitespace);
    if has_prefix(line, "@model"@) || has_prefix(line, "@env"@) {
        None
    } else if content.len() > 0 && content[0] == '#' {
        None
    } else if content.len() > 0 && content[0] == '$' {
        Some(trimmed(content.skip(1)))
    } else {
        match assignment(line) {
            Some((key, _)) => Some(key),
            None => None,
        }
    }
}

/// Whether a line at `width` stands at the top level, `outer` being the
/// width of the outermost open section.
pub open spec fn at_top(width: usize, outer: Option<usize>) -> bool {
    match outer {
        Some(opened) => width <= opened,
        None => true,
    }
}

/// The width of the outermost open section after `line`.
pub open spec fn outer_after(line: Seq<char>, outer: Option<usize>) -> Option<usize> {
    let width = indent_of(line) as usize;
    if made_key(line) is Some && at_top(width, outer) {
        if is_header(line) {
            Some(width)
        } else {
            None
        }
    } else {
        outer
    }
}

/// The keys of the nodes that `lines` make at the top level, in order.
pub open spec fn top_keys(lines: Seq<Seq<char>>, outer: Option<usize>) -> Seq<Seq<char>>
    decreases lines.len(),
{
    if lines.len() == 0 {
        Seq::empty()
    } else {
        let rest = top_keys(lines.skip(1), outer_after(lines[0], outer));
        match made_key(lines[0]) {
            Some(key) if at_top(indent_of(lines[0]) as usize, outer) => seq![key] + rest,
            _ => rest,
        }
    }
}

/// The width of the outermost open section of `doc`.
pub open spec fn outer_of(doc: Document) -> Option<usize> {
    if doc.indents.len() > 0 {
        Some(doc.indents[0])
    } else {
        None
    }
}

/// The stack of `doc` is well formed, and the outermost open section stands
/// at the top level of the forest.
pub open spec fn rooted(doc: Document) -> bool {
    &&& doc.well_formed()
    &&& doc.open.len() > 0 ==> last_named(doc.forest, doc.open[0]) >= 0
}

/// Replacing a section by one of the same name does not change which
/// section is the last of a given name.
proof fn lemma_last_named_update(forest: Seq<Node>, i: int, children: Seq<Node>, name: Seq<char>)
    requires
        0 <= i < forest.len(),
        forest[i] is Section,
    ensures
        last_named(
            forest.update(i, Node::Section { name: forest[i]->name, children }),
            name,
        ) == last_named(forest, name),
    decreases forest.len(),
{
    let changed = forest.update(i, Node::Section { name: forest[i]->name, children });
    if i < forest.len() - 1 {
        assert(changed.drop_last() =~= forest.drop_last().update(
            i,
            Node::Section { name: forest[i]->name, children },
        ));
        lemma_last_named_update(forest.drop_last(), i, children, name);
    } else {
        assert(changed.drop_last() =~= forest.drop_last());
    }
}

/// Placing a node along a path changes the outline only where the path is
/// empty: then the node's key is added at the end. Along a path that begins
/// at a section of the top level, the outline stays, and so does the place of
/// that section.
proof fn lemma_placed_outline(forest: Seq<Node>, path: Seq<Seq<char>>, added: Node)
    requires
        path.len() > 0 ==> last_named(forest, path[0]) >= 0,
    ensures
        path.len() == 0 ==> keys(placed(forest, path, added)) == keys(forest).push(key_of(added)),
        path.len() > 0 ==> keys(placed(forest, path, added)) == keys(forest),
        path.len() > 0 ==> last_named(placed(forest, path, added), path[0]) >= 0,
{
    if path.len() == 0 {
        assert(keys(forest.push(added)) =~= keys(forest).push(key_of(added)));
    } else {
        let i = last_named(forest, path[0]);
        lemma_last_named(forest, path[0]);
        let inner = placed(forest[i]->children, path.skip(1), added);
        lemma_last_named_update(forest, i, inner, path[0]);
        assert(keys(placed(forest, path, added)) =~= keys(forest));
    }
}

/// What one line does to the outline.
proof fn lemma_line_outline(
    state: Parsing,
    line: Seq<char>,
    external: Option<Seq<char>>,
    files: Seq<Entry>,
    variables: Seq<Entry>,
)
    requires
        rooted(state.doc),
    ensures
        parse_line(state, line, external, files, variables) matches Ok(next) ==> {
            &&& rooted(next.doc)
            &&& outer_of(next.doc) == outer_after(line, outer_of(state.doc))
            &&& keys(next.doc.forest) == keys(state.doc.forest) + top_keys(
                seq![line],
                outer_of(state.doc),
            )
        },
{
    let width = indent_of(line) as usize;
    let closed = state.doc.closed_to(width);
    lemma_closes_exactly(state.doc.indents, width);
    let n = kept(state.doc.indents, width) as int;
    assert(at_top(width, outer_of(state.doc)) <==> n == 0);
    assert(top_keys(seq![line].skip(1), outer_after(line, outer_of(state.doc))) =~= Seq::empty());
    match parse_line(state, line, external, files, variables) {
        Ok(next) => {
            match made_key(line) {
                Some(key) => {
                    assert(n > 0 ==> closed.open[0] == state.doc.open[0]);
                    let added = if is_header(line) {
                        Node::Section { name: key, children: Seq::empty() }
                    } else {
                        let (_, value) = assignment(line)->Some_0;
                        Node::Property {
                            key,
                            value: resolved(value, closed.env_vars, variables)->Ok_0,
                        }
                    };
                    lemma_placed_outline(closed.forest, closed.open, added);
                    assert(next.doc.forest == placed(closed.forest, closed.open, added));
                    if is_header(line) && n == 0 {
                        assert(next.doc.forest.last() == added);
                        lemma_last_named(next.doc.forest, key);
                        assert(next.doc.open =~= seq![key]);
                    }
                    assert(keys(state.doc.forest) + seq![key] =~= keys(state.doc.forest).push(key));
                    assert(keys(state.doc.forest) + Seq::<Seq<char>>::empty() =~= keys(
                        state.doc.forest,
                    ));
                },
                None => {
                    assert(next.doc.forest == state.doc.forest);
                    assert(keys(state.doc.forest) + Seq::<Seq<char>>::empty() =~= keys(
                        state.doc.forest,
                    ));
                },
            }
        },
        Err(_) => {},
    }
}

/// What the lines of a document do to the outline.
proof fn lemma_lines_outline(
    state: Parsing,
    lines: Seq<Seq<char>>,
    external: Option<Seq<char>>,
    files: Seq<Entry>,
    variables: Seq<Entry>,
)
    requires
        rooted(state.doc),
    ensures
        parse_lines(state, lines, external, files, variables) matches Ok(end) ==> keys(
            end.doc.forest,
        ) == keys(state.doc.forest) + top_keys(lines, outer_of(state.doc)),
    decreases lines.len(),
{
    if lines.len() == 0 {
        assert(keys(state.doc.forest) + Seq::<Seq<char>>::empty() =~= keys(state.doc.forest));
    } else {
        lemma_line_outline(state, lines[0], external, files, variables);
        match parse_line(state, lines[0], external, files, variables) {
            Ok(next) => {
                lemma_lines_outline(next, lines.skip(1), external, files, variables);
                let first = top_keys(seq![lines[0]], outer_of(state.doc));
                let rest = top_keys(lines.skip(1), outer_of(next.doc));
                let outer = outer_after(lines[0], outer_of(state.doc));
                assert(seq![lines[0]].skip(1) =~= Seq::<Seq<char>>::empty());
                assert(top_keys(seq![lines[0]].skip(1), outer) =~= Seq::<Seq<char>>::empty());
                assert(seq![lines[0]][0] == lines[0]);
                assert(top_keys(lines, outer_of(state.doc)) =~= first + rest);
                match parse_lines(state, lines, external, files, variables) {
                    Ok(end) => {
                        assert((keys(state.doc.forest) + first) + rest =~= keys(state.doc.forest)
                            + (first + rest));
                    },
                    Err(_) => {},
                }
            },
            Err(_) => {},
        }
    }
}

/// The top-level nodes of a compiled document have the keys of the lines
/// that stand at the top level of its text, in the order of the text. This
/// holds of every document that compiles, with a schema in force or without.
pub proof fn lemma_top_level_keys(
    text: Seq<char>,
    external: Option<Seq<char>>,
    files: Seq<Entry>,
    variables: Seq<Entry>,
    env_file_found: bool,
)
    ensures
        parsed(text, external, files, variables, env_file_found) matches Ok(outcome) ==> keys(
            outcome.forest,
        ) == top_keys(lines_of(text), None),
{
    let start = initial(env_file_found);
    lemma_lines_outline(start, lines_of(text), external, files, variables);
    assert(keys(start.doc.forest) =~= Seq::<Seq<char>>::empty());
    assert(keys(start.doc.forest) + top_keys(lines_of(text), None) =~= top_keys(
        lines_of(text),
        None,
    ));
}

/// In the JSON text of a document each node is a member that begins with
/// the node's key in double quotes, a colon and a space. The members stand
/// in the order of the nodes, so the keys of the JSON object are the keys of
/// the document's top-level nodes in that order.
pub proof fn lemma_member_begins_with_key(n: Node)
    ensures
        has_prefix(member(n), "\""@ + key_of(n) + "\": "@),
{
    let head = "\""@ + key_of(n) + "\": "@;
    match n {
        Node::Property { key, value } => {
            assert(member(n).take(head.len() as int) =~= head);
        },
        Node::Section { name, children } => {
            assert(member(n).take(head.len() as int) =~= head);
        },
    }
}

} // verus!
