//! The document tree, and the builder that grows it while a document is
//! read.
//!
//! A document is a forest of sections and properties. The builder keeps the
//! stack of open sections beside the forest: their names, outermost first, and
//! the width at which each was opened. A new node goes into the innermost open
//! section, which is found by walking the forest along the names on the stack.

use vstd::prelude::*;
use crate::scope::{close, increasing, kept, lemma_closes_exactly};
use crate::text::names;

verus! {

/// A node of a document: a section with its nodes, or a property with its
/// key and the text of its value as the document writes it.
#[derive(Debug, PartialEq, Eq)]
pub enum KSONItem {
    Section(String, Vec<KSONItem>),
    Property(String, String),
}

/// A node of a document, with texts as character sequences.
pub enum Node {
    Section { name: Seq<char>, children: Seq<Node> },
    Property { key: Seq<char>, value: Seq<char> },
}

/// What a node holds, with texts as character sequences.
pub open spec fn node(item: KSONItem) -> Node
    decreases item,
{
    match item {
        KSONItem::Section(name, children) => Node::Section {
            name: name@,
            children: nodes(children@),
        },
        KSONItem::Property(key, value) => Node::Property { key: key@, value: value@ },
    }
}

/// What each of `items` holds, in order.
pub open spec fn nodes(items: Seq<KSONItem>) -> Seq<Node>
    decreases items,
{
    if items.len() == 0 {
        seq![]
    } else {
        nodes(items.drop_last()).push(node(items.last()))
    }
}

/// `nodes` keeps the length and the places of the nodes.
pub proof fn lemma_nodes(items: Seq<KSONItem>)
    ensures
        nodes(items).len() == items.len(),
        forall|i: int| 0 <= i < items.len() ==> #[trigger] nodes(items)[i] == node(items[i]),
    decreases items.len(),
{
    if items.len() > 0 {
        lemma_nodes(items.drop_last());
    }
}

/// The value of the first property with this key among `forest`.
pub open spec fn property_value(forest: Seq<Node>, key: Seq<char>) -> Option<Seq<char>>
    decreases forest.len(),
{
    if forest.len() == 0 {
        None
    } else {
        match forest[0] {
            Node::Property { key: k, value } if k == key => Some(value),
            _ => property_value(forest.skip(1), key),
        }
    }
}

/// The nodes of the first section with this name among `forest`.
pub open spec fn section_nodes(forest: Seq<Node>, name: Seq<char>) -> Option<Seq<Node>>
    decreases forest.len(),
{
    if forest.len() == 0 {
        None
    } else {
        match forest[0] {
            Node::Section { name: n, children } if n == name => Some(children),
            _ => section_nodes(forest.skip(1), name),
        }
    }
}

/// The value of the property `key` in the section `section`.
pub open spec fn section_property_value(
    forest: Seq<Node>,
    section: Seq<char>,
    key: Seq<char>,
) -> Option<Seq<char>> {
    match section_nodes(forest, section) {
        Some(children) => property_value(children, key),
        None => None,
    }
}

/// The index of the last section with this name among `forest`, or -1.
pub open spec fn last_named(forest: Seq<Node>, name: Seq<char>) -> int
    decreases forest.len(),
{
    if forest.len() == 0 {
        -1
    } else {
        match forest.last() {
            Node::Section { name: n, children: _ } if n == name => forest.len() - 1,
            _ => last_named(forest.drop_last(), name),
        }
    }
}

/// `last_named` is -1 or the index of a section with the name.
pub proof fn lemma_last_named(forest: Seq<Node>, name: Seq<char>)
    ensures
        -1 <= last_named(forest, name) < forest.len(),
        last_named(forest, name) >= 0 ==> (forest[last_named(forest, name)] matches Node::Section {
            name: n,
            ..
        } && n == name),
    decreases forest.len(),
{
    if forest.len() > 0 {
        lemma_last_named(forest.drop_last(), name);
    }
}

/// `forest` with `added` placed at the end of the section that `path` leads
/// to. Each name of `path` picks the last section of that name among the
/// nodes reached so far. Where `path` is empty, or such a section is missing,
/// `added` is placed at the end of the nodes reached.
pub open spec fn placed(forest: Seq<Node>, path: Seq<Seq<char>>, added: Node) -> Seq<Node>
    decreases path.len(),
{
    if path.len() == 0 {
        forest.push(added)
    } else {
        let i = last_named(forest, path[0]);
        if i < 0 {
            forest.push(added)
        } else {
            match forest[i] {
                Node::Section { name, children } => forest.update(
                    i,
                    Node::Section { name, children: placed(children, path.skip(1), added) },
                ),
                _ => forest,
            }
        }
    }
}

/// What a path still has to walk from `depth` on.
pub open spec fn rest_of(path: Seq<Seq<char>>, depth: nat) -> Seq<Seq<char>> {
    if depth <= path.len() {
        path.skip(depth as int)
    } else {
        Seq::empty()
    }
}

/// The state of a document under construction.
pub struct Document {
    /// The nodes at the top level.
    pub forest: Seq<Node>,
    /// The names of the open sections, outermost first.
    pub open: Seq<Seq<char>>,
    /// The width at which each open section was opened.
    pub indents: Seq<usize>,
    /// The names declared as environment variables.
    pub env_vars: Seq<Seq<char>>,
}

impl Document {
    /// The open sections and their widths go together, and the widths grow
    /// strictly from the outermost section to the innermost.
    pub open spec fn well_formed(self) -> bool {
        &&& self.open.len() == self.indents.len()
        &&& increasing(self.indents)
    }

    /// The document after the sections that a line at `width` closes are
    /// closed.
    pub open spec fn closed_to(self, width: usize) -> Document {
        let n = kept(self.indents, width) as int;
        Document { open: self.open.take(n), indents: self.indents.take(n), ..self }
    }

    /// The document with `added` placed in the innermost open section.
    pub open spec fn with_node(self, added: Node) -> Document {
        Document { forest: placed(self.forest, self.open, added), ..self }
    }

    /// The document with an empty section placed in the innermost open
    /// section and opened at `width`.
    pub open spec fn with_section(self, name: Seq<char>, width: usize) -> Document {
        Document {
            forest: placed(self.forest, self.open, Node::Section { name, children: Seq::empty() }),
            open: self.open.push(name),
            indents: self.indents.push(width),
            ..self
        }
    }
}

/// Closing the sections that a line closes and opening one at the line's
/// width keeps a document well formed, and so does closing alone.
pub proof fn lemma_well_formed_kept(doc: Document, name: Seq<char>, width: usize)
    requires
        doc.well_formed(),
    ensures
        doc.closed_to(width).well_formed(),
        doc.closed_to(width).with_section(name, width).well_formed(),
        forall|i: int|
            0 <= i < doc.closed_to(width).indents.len() ==> #[trigger] doc.indents[i] < width,
        forall|i: int|
            doc.closed_to(width).indents.len() <= i < doc.indents.len()
                ==> #[trigger] doc.indents[i] >= width,
{
    lemma_closes_exactly(doc.indents, width);
}

/// The builder of a document: the top-level nodes, the names of the open
/// sections, outermost first, with the width at which each was opened, and
/// the names declared as environment variables.
#[derive(Debug)]
pub struct KSON {
    pub properties: Vec<KSONItem>,
    pub _sections: Vec<String>,
    pub _section_indents: Vec<usize>,
    pub env_vars: Vec<String>,
}

impl View for KSON {
    type V = Document;

    open spec fn view(&self) -> Document {
        Document {
            forest: nodes(self.properties@),
            open: names(self._sections@),
            indents: self._section_indents@,
            env_vars: names(self.env_vars@),
        }
    }
}

/// The value of the first property with this key among `items`.
pub fn find_value<'a>(items: &'a Vec<KSONItem>, key: &str) -> (r: Option<&'a str>)
    ensures
        match r {
            Some(value) => property_value(nodes(items@), key@) == Some(value@),
            None => property_value(nodes(items@), key@) is None,
        },
{
    let ghost forest = nodes(items@);
    proof {
        lemma_nodes(items@);
        assert(forest.skip(0) =~= forest);
    }
    let mut i: usize = 0;
    while i < items.len()
        invariant
            i <= items.len(),
            forest == nodes(items@),
            forest.len() == items.len(),
            forall|j: int| 0 <= j < forest.len() ==> #[trigger] forest[j] == node(items@[j]),
            property_value(forest, key@) == property_value(forest.skip(i as int), key@),
        decreases items.len() - i,
    {
        assert(forest.skip(i as int)[0] == forest[i as int]);
        assert(forest.skip(i as int).skip(1) =~= forest.skip(i + 1));
        if let KSONItem::Property(k, v) = &items[i] {
            if k.as_str().eq(key) {
                return Some(v.as_str());
            }
        }
        i += 1;
    }
    None
}

impl KSON {
    /// A builder that starts from the given top-level nodes, with no section
    /// open.
    pub fn new(properties: Vec<KSONItem>) -> (kson: KSON)
        ensures
            kson.properties == properties,
            kson@.open == Seq::<Seq<char>>::empty(),
            kson@.indents == Seq::<usize>::empty(),
            kson@.env_vars == Seq::<Seq<char>>::empty(),
            kson@.well_formed(),
    {
        let kson = KSON {
            properties,
            _sections: Vec::new(),
            _section_indents: Vec::new(),
            env_vars: Vec::new(),
        };
        assert(kson@.open =~= Seq::<Seq<char>>::empty());
        assert(kson@.env_vars =~= Seq::<Seq<char>>::empty());
        kson
    }

    /// The value of the first top-level property with this key.
    pub fn get_property(&self, key: &str) -> (r: Option<&str>)
        ensures
            match r {
                Some(value) => property_value(self@.forest, key@) == Some(value@),
                None => property_value(self@.forest, key@) is None,
            },
    {
        find_value(&self.properties, key)
    }

    /// The nodes of the first top-level section with this name.
    pub fn get_section(&self, section: &str) -> (r: Option<&Vec<KSONItem>>)
        ensures
            match r {
                Some(children) => section_nodes(self@.forest, section@) == Some(nodes(children@)),
                None => section_nodes(self@.forest, section@) is None,
            },
    {
        find_section(&self.properties, section)
    }

    /// The value of the property `key` in the top-level section `section`.
    pub fn get_section_property(&self, section: &str, key: &str) -> (r: Option<&str>)
        ensures
            match r {
                Some(value) => section_property_value(self@.forest, section@, key@) == Some(
                    value@,
                ),
                None => section_property_value(self@.forest, section@, key@) is None,
            },
    {
        match self.get_section(section) {
            Some(children) => find_value(children, key),
            None => None,
        }
    }

    /// The name of the innermost open section.
    pub fn last_section(&self) -> (r: Option<&str>)
        ensures
            match r {
                Some(name) => self@.open.len() > 0 && name@ == self@.open.last(),
                None => self@.open.len() == 0,
            },
    {
        if self._sections.len() > 0 {
            Some(self._sections[self._sections.len() - 1].as_str())
        } else {
            None
        }
    }

    /// Closes the innermost open section, if any is open.
    pub fn pop_section(&mut self)
        ensures
            final(self)@.forest == old(self)@.forest,
            final(self)@.env_vars == old(self)@.env_vars,
            final(self)@.open == if old(self)@.open.len() > 0 {
                old(self)@.open.drop_last()
            } else {
                old(self)@.open
            },
            final(self)@.indents == if old(self)@.indents.len() > 0 {
                old(self)@.indents.drop_last()
            } else {
                old(self)@.indents
            },
            old(self)@.well_formed() ==> final(self)@.well_formed(),
    {
        let ghost open = self@.open;
        self._sections.pop();
        self._section_indents.pop();
        assert(self@.open =~= if open.len() > 0 {
            open.drop_last()
        } else {
            open
        });
    }

    /// Closes the sections that a line at `width` closes: those opened at
    /// `width` or further in, from the innermost outwards.
    pub fn close_sections(&mut self, width: usize)
        requires
            old(self)@.open.len() == old(self)@.indents.len(),
        ensures
            final(self)@ == old(self)@.closed_to(width),
            final(self)@.open.len() == final(self)@.indents.len(),
            old(self)@.well_formed() ==> final(self)@.well_formed(),
    {
        let ghost open = self@.open;
        let ghost env = self@.env_vars;
        proof {
            if self@.well_formed() {
                lemma_closes_exactly(self@.indents, width);
            }
        }
        let n = close(&mut self._section_indents, width);
        self._sections.truncate(n);
        assert(self@.open =~= open.take(n as int));
        assert(self@.env_vars =~= env);
    }

    /// Places an empty section in the innermost open section and opens it.
    /// The builder stays well formed where `indent` is greater than the width
    /// of the innermost open section.
    pub fn push_section(&mut self, section: &str, indent: usize)
        ensures
            final(self)@ == old(self)@.with_section(section@, indent),
            old(self)@.well_formed() && (old(self)@.indents.len() > 0 ==> old(
                self,
            )@.indents.last() < indent) ==> final(self)@.well_formed(),
    {
        let ghost before = self@;
        let name = String::from_str(section);
        let new_section = KSONItem::Section(String::from_str(section), Vec::new());
        assert(node(new_section) == Node::Section { name: section@, children: Seq::empty() }) by {
            assert(nodes(Seq::<KSONItem>::empty()) =~= Seq::empty());
        }
        assert(rest_of(names(self._sections@), 0) =~= names(self._sections@));
        Self::add_to_nested_section(
            &mut self.properties,
            self._sections.as_slice(),
            0,
            new_section,
        );
        self._sections.push(name);
        self._section_indents.push(indent);
        assert(self@.open =~= before.open.push(section@));
        assert(self@.env_vars =~= before.env_vars);
    }

    /// Places a node in the innermost open section.
    pub fn attr(&mut self, item: KSONItem)
        ensures
            final(self)@ == old(self)@.with_node(node(item)),
            old(self)@.well_formed() ==> final(self)@.well_formed(),
    {
        assert(rest_of(names(self._sections@), 0) =~= names(self._sections@));
        Self::add_to_nested_section(&mut self.properties, self._sections.as_slice(), 0, item);
    }

    /// Places `item` in the section that the names of `sections` from `depth`
    /// on lead to, starting at `properties`.
    pub fn add_to_nested_section(
        properties: &mut Vec<KSONItem>,
        sections: &[String],
        depth: usize,
        item: KSONItem,
    )
        ensures
            nodes(final(properties)@) == placed(
                nodes(old(properties)@),
                rest_of(names(sections@), depth as nat),
                node(item),
            ),
        decreases sections.len() - depth,
    {
        let ghost before = properties@;
        let ghost forest = nodes(before);
        let ghost path = rest_of(names(sections@), depth as nat);
        proof {
            lemma_nodes(before);
        }
        if depth >= sections.len() {
            properties.push(item);
            assert(properties@.drop_last() =~= before);
            return ;
        }
        let ghost target = path[0];
        assert(target == sections@[depth as int]@);
        let mut i: usize = properties.len();
        assert(forest.take(i as int) =~= forest);
        while i > 0
            invariant
                i <= properties.len(),
                depth < sections.len(),
                properties@ == before,
                before == old(properties)@,
                forest == nodes(before),
                forest.len() == before.len(),
                forall|j: int| 0 <= j < forest.len() ==> #[trigger] forest[j] == node(before[j]),
                path == rest_of(names(sections@), depth as nat),
                target == path[0],
                target == sections@[depth as int]@,
                last_named(forest, target) == last_named(forest.take(i as int), target),
            decreases i,
        {
            i -= 1;
            assert(forest.take(i + 1).last() == forest[i as int]);
            assert(forest.take(i + 1).drop_last() =~= forest.take(i as int));
            let hit = match &properties[i] {
                KSONItem::Section(name, _) => name.as_str().eq(sections[depth].as_str()),
                KSONItem::Property(_, _) => false,
            };
            assert(hit == (forest[i as int] matches Node::Section { name: n, .. } && n == target));
            if hit {
                assert(last_named(forest, target) == i);
                assert(path.skip(1) =~= rest_of(names(sections@), (depth + 1) as nat));
                match &mut properties[i] {
                    KSONItem::Section(_, children) => {
                        Self::add_to_nested_section(children, sections, depth + 1, item);
                    },
                    KSONItem::Property(_, _) => {},
                }
                proof {
                    lemma_nodes(properties@);
                    let goal = placed(forest, path, node(item));
                    assert(properties@.len() == before.len());
                    assert forall|j: int| 0 <= j < forest.len() implies nodes(properties@)[j]
                        == goal[j] by {
                        if j != i {
                            assert(properties@[j] == before[j]);
                        }
                    }
                    assert(nodes(properties@) =~= goal);
                }
                return ;
            }
        }
        properties.push(item);
        assert(properties@.drop_last() =~= before);
    }
}

/// The nodes of the first section with this name among `items`.
pub fn find_section<'a>(items: &'a Vec<KSONItem>, name: &str) -> (r: Option<&'a Vec<KSONItem>>)
    ensures
        match r {
            Some(children) => section_nodes(nodes(items@), name@) == Some(nodes(children@)),
            None => section_nodes(nodes(items@), name@) is None,
        },
{
    let ghost forest = nodes(items@);
    proof {
        lemma_nodes(items@);
        assert(forest.skip(0) =~= forest);
    }
    let mut i: usize = 0;
    while i < items.len()
        invariant
            i <= items.len(),
            forest == nodes(items@),
            forest.len() == items.len(),
            forall|j: int| 0 <= j < forest.len() ==> #[trigger] forest[j] == node(items@[j]),
            section_nodes(forest, name@) == section_nodes(forest.skip(i as int), name@),
        decreases items.len() - i,
    {
        assert(forest.skip(i as int)[0] == forest[i as int]);
        assert(forest.skip(i as int).skip(1) =~= forest.skip(i + 1));
        if let KSONItem::Section(k, v) = &items[i] {
            if k.as_str().eq(name) {
                return Some(v);
            }
        }
        i += 1;
    }
    None
}

} // verus!
