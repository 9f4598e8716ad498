//! The schema model: value types, the sections and properties that a schema
//! declares, and the loader that reads a schema from its text.
//!
//! A schema is a list of top-level entries. A property entry gives a key its
//! type. A section entry carries the properties declared inside the section.
//! Sections are looked up by name among the top-level entries, so a section
//! declared inside another one still stands at the top level of the schema.

use vstd::prelude::*;
use crate::error::{Failure, KsonError};
use crate::scope::{close, increasing, kept, lemma_closes_exactly};
use crate::text::{
    count_leading, end_of_last, ends_with_char, find, first_index, has_prefix, indent_of, is_word,
    lines, lines_of, names, pieces, rfind_end, rows, slice, split, starts_with, to_chars,
    to_string, trim, trimmed, without_leading, CharClass,
};

verus! {

/// The type that a schema gives to a property value.
#[derive(Debug, PartialEq, Eq)]
pub enum KType {
    Any,
    Unknown,
    String,
    Char,
    Integer,
    Float,
    Boolean,
    Array(Box<KType>),
    Optional(Box<KType>),
}

impl KType {
    /// Every type but `Optional` is required.
    pub open spec fn required(self) -> bool {
        !(self is Optional)
    }

    /// The type that a value must have where it is present: this type
    /// without the `Optional` around it.
    pub open spec fn base(self) -> KType
        decreases self,
    {
        match self {
            KType::Optional(inner) => inner.base(),
            _ => self,
        }
    }

    /// The type as a schema writes it.
    pub open spec fn text(self) -> Seq<char>
        decreases self,
    {
        match self {
            KType::String => "String"@,
            KType::Char => "Char"@,
            KType::Integer => "Integer"@,
            KType::Float => "Float"@,
            KType::Boolean => "Bool"@,
            KType::Any => "Any"@,
            KType::Unknown => "Unknown"@,
            KType::Array(kind) => "Array<"@ + kind.text() + ">"@,
            KType::Optional(kind) => kind.text() + "?"@,
        }
    }

    /// Whether a property of this type must be present.
    pub fn is_required(&self) -> (r: bool)
        ensures
            r == self.required(),
    {
        match self {
            KType::Optional(_) => false,
            _ => true,
        }
    }

    /// The type as a schema writes it.
    pub fn to_string(&self) -> (s: String)
        ensures
            s@ == self.text(),
        decreases self,
    {
        match self {
            KType::String => String::from_str("String"),
            KType::Char => String::from_str("Char"),
            KType::Integer => String::from_str("Integer"),
            KType::Float => String::from_str("Float"),
            KType::Boolean => String::from_str("Bool"),
            KType::Any => String::from_str("Any"),
            KType::Unknown => String::from_str("Unknown"),
            KType::Array(kind) => {
                let mut s = String::from_str("Array<");
                let inner = kind.to_string();
                s.append(inner.as_str());
                s.append(">");
                s
            },
            KType::Optional(kind) => {
                let mut s = kind.to_string();
                s.append("?");
                s
            },
        }
    }

    /// A copy of this type.
    pub fn duplicate(&self) -> (r: KType)
        ensures
            r == *self,
        decreases self,
    {
        match self {
            KType::String => KType::String,
            KType::Char => KType::Char,
            KType::Integer => KType::Integer,
            KType::Float => KType::Float,
            KType::Boolean => KType::Boolean,
            KType::Any => KType::Any,
            KType::Unknown => KType::Unknown,
            KType::Array(kind) => KType::Array(Box::new(kind.duplicate())),
            KType::Optional(kind) => KType::Optional(Box::new(kind.duplicate())),
        }
    }

    /// The type without the `Optional` around it.
    pub fn required_form(&self) -> (r: &KType)
        ensures
            *r == self.base(),
        decreases self,
    {
        match self {
            KType::Optional(inner) => inner.required_form(),
            _ => self,
        }
    }
}

/// The header of a schema section: its name, and whether a document must
/// have the section.
#[derive(Debug, PartialEq, Eq)]
pub enum KModelSection {
    Required(String),
    Optional(String),
}

impl KModelSection {
    /// The name of the section.
    pub open spec fn name(self) -> Seq<char> {
        match self {
            KModelSection::Required(name) => name@,
            KModelSection::Optional(name) => name@,
        }
    }

    /// Whether a document must have the section.
    pub open spec fn required(self) -> bool {
        self is Required
    }

    /// Whether a document must have the section.
    pub fn is_required(&self) -> (r: bool)
        ensures
            r == self.required(),
    {
        match self {
            KModelSection::Required(_) => true,
            KModelSection::Optional(_) => false,
        }
    }

    /// The name of the section.
    pub fn to_string(&self) -> (s: String)
        ensures
            s@ == self.name(),
    {
        match self {
            KModelSection::Required(name) => name.clone(),
            KModelSection::Optional(name) => name.clone(),
        }
    }
}

/// An entry of a schema.
#[derive(Debug, PartialEq, Eq)]
pub enum KItemType {
    Section(KModelSection, Vec<KItemType>),
    Property(String, KType),
}

/// An entry of a schema, with texts as character sequences.
pub enum SchemaNode {
    Section { name: Seq<char>, required: bool, children: Seq<SchemaNode> },
    Property { key: Seq<char>, kind: KType },
}

/// What an entry says, with texts as character sequences.
pub open spec fn schema_node(item: KItemType) -> SchemaNode
    decreases item,
{
    match item {
        KItemType::Section(section, children) => SchemaNode::Section {
            name: section.name(),
            required: section.required(),
            children: schema_nodes(children@),
        },
        KItemType::Property(key, kind) => SchemaNode::Property { key: key@, kind },
    }
}

/// What each of `items` says, in order.
pub open spec fn schema_nodes(items: Seq<KItemType>) -> Seq<SchemaNode>
    decreases items,
{
    if items.len() == 0 {
        seq![]
    } else {
        schema_nodes(items.drop_last()).push(schema_node(items.last()))
    }
}

/// `schema_nodes` keeps the length and the places of the entries.
pub proof fn lemma_schema_nodes(items: Seq<KItemType>)
    ensures
        schema_nodes(items).len() == items.len(),
        forall|i: int|
            0 <= i < items.len() ==> #[trigger] schema_nodes(items)[i] == schema_node(items[i]),
    decreases items.len(),
{
    if items.len() > 0 {
        lemma_schema_nodes(items.drop_last());
    }
}

/// The type of the first property with this key among `nodes`.
pub open spec fn property_kind(nodes: Seq<SchemaNode>, key: Seq<char>) -> Option<KType>
    decreases nodes.len(),
{
    if nodes.len() == 0 {
        None
    } else {
        match nodes[0] {
            SchemaNode::Property { key: k, kind } if k == key => Some(kind),
            _ => property_kind(nodes.skip(1), key),
        }
    }
}

/// The entries inside the first section with this name among `nodes`.
pub open spec fn section_entries(nodes: Seq<SchemaNode>, name: Seq<char>) -> Option<
    Seq<SchemaNode>,
>
    decreases nodes.len(),
{
    if nodes.len() == 0 {
        None
    } else {
        match nodes[0] {
            SchemaNode::Section { name: n, required: _, children } if n == name => Some(children),
            _ => section_entries(nodes.skip(1), name),
        }
    }
}

/// The type of the property `key` inside the section `section`.
pub open spec fn section_property_kind(
    nodes: Seq<SchemaNode>,
    section: Seq<char>,
    key: Seq<char>,
) -> Option<KType> {
    match section_entries(nodes, section) {
        Some(children) => property_kind(children, key),
        None => None,
    }
}

/// The index of the last section with this name among `nodes`, or -1.
pub open spec fn last_section_named(nodes: Seq<SchemaNode>, name: Seq<char>) -> int
    decreases nodes.len(),
{
    if nodes.len() == 0 {
        -1
    } else {
        match nodes.last() {
            SchemaNode::Section { name: n, required: _, children: _ } if n == name => nodes.len()
                - 1,
            _ => last_section_named(nodes.drop_last(), name),
        }
    }
}

/// `nodes` with `node` added to the innermost open section: inside the last
/// top-level section that has the name on top of `open`. Where no section is
/// open, or none has that name, `node` is added at the top level.
pub open spec fn attached(nodes: Seq<SchemaNode>, open: Seq<Seq<char>>, node: SchemaNode) -> Seq<
    SchemaNode,
> {
    if open.len() == 0 {
        nodes.push(node)
    } else {
        let i = last_section_named(nodes, open.last());
        if i < 0 {
            nodes.push(node)
        } else {
            match nodes[i] {
                SchemaNode::Section { name, required, children } => nodes.update(
                    i,
                    SchemaNode::Section { name, required, children: children.push(node) },
                ),
                _ => nodes,
            }
        }
    }
}

/// A schema under construction: its entries, and the names of the sections
/// that are open, outermost first.
pub struct Schema {
    pub nodes: Seq<SchemaNode>,
    pub open: Seq<Seq<char>>,
}

/// A schema, with the stack that its loader keeps while it reads: the
/// top-level entries, and the names of the sections that are open, outermost
/// first.
#[derive(Debug)]
pub struct KModel {
    pub properties: Vec<KItemType>,
    pub _sections: Vec<String>,
}

impl View for KModel {
    type V = Schema;

    open spec fn view(&self) -> Schema {
        Schema { nodes: schema_nodes(self.properties@), open: names(self._sections@) }
    }
}

impl KModel {
    /// A schema with the given entries and no section open.
    pub fn new(properties: Vec<KItemType>) -> (model: KModel)
        ensures
            model.properties == properties,
            model@.open == Seq::<Seq<char>>::empty(),
    {
        let model = KModel { properties, _sections: Vec::new() };
        assert(model@.open =~= Seq::<Seq<char>>::empty());
        model
    }

    /// The type of the first top-level property with this key.
    pub fn get_property(&self, key: &str) -> (r: Option<&KType>)
        ensures
            match r {
                Some(kind) => property_kind(self@.nodes, key@) == Some(*kind),
                None => property_kind(self@.nodes, key@) is None,
            },
    {
        find_property(&self.properties, key)
    }

    /// The entries of the first top-level section with this name.
    pub fn get_section(&self, section: &str) -> (r: Option<&Vec<KItemType>>)
        ensures
            match r {
                Some(entries) => section_entries(self@.nodes, section@) == Some(
                    schema_nodes(entries@),
                ),
                None => section_entries(self@.nodes, section@) is None,
            },
    {
        let ghost nodes = schema_nodes(self.properties@);
        proof {
            lemma_schema_nodes(self.properties@);
            assert(nodes.skip(0) =~= nodes);
        }
        let mut i: usize = 0;
        while i < self.properties.len()
            invariant
                i <= self.properties.len(),
                nodes == schema_nodes(self.properties@),
                nodes.len() == self.properties.len(),
                forall|j: int|
                    0 <= j < nodes.len() ==> #[trigger] nodes[j] == schema_node(
                        self.properties@[j],
                    ),
                section_entries(nodes, section@) == section_entries(
                    nodes.skip(i as int),
                    section@,
                ),
            decreases self.properties.len() - i,
        {
            assert(nodes.skip(i as int)[0] == nodes[i as int]);
            assert(nodes.skip(i as int).skip(1) =~= nodes.skip(i + 1));
            if let KItemType::Section(k, v) = &self.properties[i] {
                let name = k.to_string();
                if name.as_str().eq(section) {
                    return Some(v);
                }
            }
            i += 1;
        }
        None
    }

    /// The type of the property `key` inside the section `section`.
    pub fn get_section_property(&self, section: &str, key: &str) -> (r: Option<&KType>)
        ensures
            match r {
                Some(kind) => section_property_kind(self@.nodes, section@, key@) == Some(*kind),
                None => section_property_kind(self@.nodes, section@, key@) is None,
            },
    {
        match self.get_section(section) {
            Some(entries) => find_property(entries, key),
            None => None,
        }
    }

    /// The name of the innermost open section.
    pub fn last_section(&self) -> (r: Option<&str>)
        ensures
            match r {
                Some(name) => self@.open.len() > 0 && name@ == self@.open.last(),
                None => self@.open.len() == 0,
            },
    {
        if self._sections.len() > 0 {
            Some(self._sections[self._sections.len() - 1].as_str())
        } else {
            None
        }
    }

    /// Adds an empty section at the top level and opens it.
    pub fn push_section(&mut self, section: KModelSection)
        ensures
            final(self)@.nodes == old(self)@.nodes.push(
                SchemaNode::Section {
                    name: section.name(),
                    required: section.required(),
                    children: Seq::empty(),
                },
            ),
            final(self)@.open == old(self)@.open.push(section.name()),
    {
        let name = section.to_string();
        let ghost before = self.properties@;
        let ghost open = self@.open;
        let item = KItemType::Section(section, Vec::new());
        assert(schema_node(item) == SchemaNode::Section {
            name: section.name(),
            required: section.required(),
            children: Seq::empty(),
        }) by {
            assert(schema_nodes(Seq::<KItemType>::empty()) =~= Seq::empty());
        }
        self.properties.push(item);
        self._sections.push(name);
        assert(self.properties@.drop_last() =~= before);
        assert(self@.open =~= open.push(section.name()));
    }

    /// Closes the innermost open section, if any is open.
    pub fn pop_section(&mut self)
        ensures
            final(self)@.nodes == old(self)@.nodes,
            final(self)@.open == if old(self)@.open.len() > 0 {
                old(self)@.open.drop_last()
            } else {
                old(self)@.open
            },
    {
        let ghost open = self@.open;
        self._sections.pop();
        assert(self@.open =~= if open.len() > 0 {
            open.drop_last()
        } else {
            open
        });
    }

    /// Adds an entry to the innermost open section, or at the top level
    /// where no section is open.
    pub fn attr(&mut self, item: KItemType)
        ensures
            final(self)@.nodes == attached(old(self)@.nodes, old(self)@.open, schema_node(item)),
            final(self)@.open == old(self)@.open,
    {
        let ghost before = self.properties@;
        let ghost nodes = schema_nodes(before);
        proof {
            lemma_schema_nodes(before);
        }
        if self._sections.len() == 0 {
            self.properties.push(item);
            assert(self.properties@.drop_last() =~= before);
            return ;
        }
        let ghost target = self@.open.last();
        let mut i: usize = self.properties.len();
        assert(nodes.take(i as int) =~= nodes);
        while i > 0
            invariant
                i <= self.properties.len(),
                self.properties@ == before,
                before == old(self).properties@,
                self._sections == old(self)._sections,
                self._sections.len() > 0,
                target == names(self._sections@).last(),
                nodes == schema_nodes(before),
                nodes.len() == before.len(),
                forall|j: int|
                    0 <= j < nodes.len() ==> #[trigger] nodes[j] == schema_node(before[j]),
                last_section_named(nodes, target) == last_section_named(
                    nodes.take(i as int),
                    target,
                ),
            decreases i,
        {
            i -= 1;
            assert(nodes.take(i + 1).last() == nodes[i as int]);
            assert(nodes.take(i + 1).drop_last() =~= nodes.take(i as int));
            let hit = match &self.properties[i] {
                KItemType::Section(section, _) => {
                    let name = section.to_string();
                    name.as_str().eq(self._sections[self._sections.len() - 1].as_str())
                },
                KItemType::Property(_, _) => false,
            };
            assert(hit == (nodes[i as int] matches SchemaNode::Section { name: n, .. } && n
                == target));
            if hit {
                assert(last_section_named(nodes, target) == i);
                match &mut self.properties[i] {
                    KItemType::Section(_, children) => {
                        let ghost inner = children@;
                        children.push(item);
                        assert(children@.drop_last() =~= inner);
                        assert(schema_nodes(children@) == schema_nodes(inner).push(
                            schema_node(item),
                        ));
                    },
                    KItemType::Property(_, _) => {},
                }
                proof {
                    lemma_schema_nodes(self.properties@);
                    let goal = attached(nodes, names(self._sections@), schema_node(item));
                    assert(self.properties@.len() == before.len());
                    assert forall|j: int| 0 <= j < nodes.len() implies schema_nodes(
                        self.properties@,
                    )[j] == goal[j] by {
                        if j != i {
                            assert(self.properties@[j] == before[j]);
                        }
                    }
                    assert(schema_nodes(self.properties@) =~= goal);
                }
                return ;
            }
        }
        self.properties.push(item);
        assert(self.properties@.drop_last() =~= before);
    }
}

/// The type of the first property with this key among `items`.
fn find_property<'a>(items: &'a Vec<KItemType>, key: &str) -> (r: Option<&'a KType>)
    ensures
        match r {
            Some(kind) => property_kind(schema_nodes(items@), key@) == Some(*kind),
            None => property_kind(schema_nodes(items@), key@) is None,
        },
{
    let ghost nodes = schema_nodes(items@);
    proof {
        lemma_schema_nodes(items@);
        assert(nodes.skip(0) =~= nodes);
    }
    let mut i: usize = 0;
    while i < items.len()
        invariant
            i <= items.len(),
            nodes == schema_nodes(items@),
            nodes.len() == items.len(),
            forall|j: int| 0 <= j < nodes.len() ==> #[trigger] nodes[j] == schema_node(items@[j]),
            property_kind(nodes, key@) == property_kind(nodes.skip(i as int), key@),
        decreases items.len() - i,
    {
        assert(nodes.skip(i as int)[0] == nodes[i as int]);
        assert(nodes.skip(i as int).skip(1) =~= nodes.skip(i + 1));
        if let KItemType::Property(k, v) = &items[i] {
            if k.as_str().eq(key) {
                return Some(v);
            }
        }
        i += 1;
    }
    None
}

/// The type that a type token denotes, or `None` for an `Array` token
/// without an element type in angle brackets.
///
/// The six plain type names denote their types. A token that begins with
/// `Array` denotes an array whose element type is what stands between the
/// first `<` and the last `>` of the token; a `?` at the end of that text
/// makes the elements optional. Any other token denotes `Unknown`.
pub open spec fn type_of(token: Seq<char>) -> Option<KType>
    decreases token.len(),
{
    if token == "String"@ {
        Some(KType::String)
    } else if token == "Char"@ {
        Some(KType::Char)
    } else if token == "Integer"@ {
        Some(KType::Integer)
    } else if token == "Float"@ {
        Some(KType::Float)
    } else if token == "Bool"@ {
        Some(KType::Boolean)
    } else if token == "Any"@ {
        Some(KType::Any)
    } else if has_prefix(token, "Array"@) {
        let open = first_index(token, '<') as int;
        let close = end_of_last(token, '>') - 1;
        if open + 1 < close < token.len() {
            let inner = token.subrange(open + 1, close);
            if inner.last() == '?' {
                match type_of(inner.drop_last()) {
                    Some(kind) => Some(KType::Array(Box::new(KType::Optional(Box::new(kind))))),
                    None => None,
                }
            } else {
                match type_of(inner) {
                    Some(kind) => Some(KType::Array(Box::new(kind))),
                    None => None,
                }
            }
        } else {
            None
        }
    } else {
        Some(KType::Unknown)
    }
}

/// The type that a property declaration names: `type_of`, where a `?` at the
/// end of the declaration makes the property optional.
pub open spec fn declared_type(text: Seq<char>) -> Option<KType> {
    if text.len() > 0 && text.last() == '?' {
        match type_of(text.drop_last()) {
            Some(kind) => Some(KType::Optional(Box::new(kind))),
            None => None,
        }
    } else {
        type_of(text)
    }
}

fn type_of_chars(token: &Vec<char>) -> (r: Option<KType>)
    ensures
        r == type_of(token@),
    decreases token@.len(),
{
    if is_word(token, "String") {
        Some(KType::String)
    } else if is_word(token, "Char") {
        Some(KType::Char)
    } else if is_word(token, "Integer") {
        Some(KType::Integer)
    } else if is_word(token, "Float") {
        Some(KType::Float)
    } else if is_word(token, "Bool") {
        Some(KType::Boolean)
    } else if is_word(token, "Any") {
        Some(KType::Any)
    } else if starts_with(token, "Array") {
        let open = find(token, '<');
        let end = rfind_end(token, '>');
        if end >= 2 && open < end - 2 {
            let inner = slice(token, open + 1, end - 1);
            if ends_with_char(&inner, '?') {
                let bare = slice(&inner, 0, inner.len() - 1);
                assert(bare@ =~= inner@.drop_last());
                match type_of_chars(&bare) {
                    Some(kind) => Some(KType::Array(Box::new(KType::Optional(Box::new(kind))))),
                    None => None,
                }
            } else {
                match type_of_chars(&inner) {
                    Some(kind) => Some(KType::Array(Box::new(kind))),
                    None => None,
                }
            }
        } else {
            None
        }
    } else {
        Some(KType::Unknown)
    }
}

/// Reads a type token.
pub fn parse_type(token: &str) -> (r: Result<KType, KsonError>)
    ensures
        match type_of(token@) {
            Some(kind) => r == Ok::<KType, KsonError>(kind),
            None => r == Err::<KType, KsonError>(KsonError::MalformedArrayType),
        },
{
    let chars = to_chars(token);
    match type_of_chars(&chars) {
        Some(kind) => Ok(kind),
        None => Err(KsonError::MalformedArrayType),
    }
}

/// The key and the type text of a property declaration: the two parts of a
/// line that holds exactly one `:`, each without the white space around it.
pub open spec fn declaration(line: Seq<char>) -> Option<(Seq<char>, Seq<char>)> {
    let parts = pieces(line, ':');
    if parts.len() == 2 {
        Some((trimmed(parts[0]), trimmed(parts[1])))
    } else {
        None
    }
}

fn declaration_of(line: &Vec<char>) -> (r: Option<(Vec<char>, Vec<char>)>)
    ensures
        match r {
            Some((key, value)) => declaration(line@) == Some((key@, value@)),
            None => declaration(line@) is None,
        },
{
    let parts = split(line, ':');
    if parts.len() == 2 {
        assert(rows(parts@)[0] == parts@[0]@ && rows(parts@)[1] == parts@[1]@);
        Some((trim(&parts[0]), trim(&parts[1])))
    } else {
        None
    }
}

/// Splits a property declaration into its key and its type text.
pub fn parse_property_line(line: &str) -> (r: Option<(String, String)>)
    ensures
        match r {
            Some((key, value)) => declaration(line@) == Some((key@, value@)),
            None => declaration(line@) is None,
        },
{
    let chars = to_chars(line);
    match declaration_of(&chars) {
        Some((key, value)) => Some((to_string(&key), to_string(&value))),
        None => None,
    }
}

/// The header that the text behind the `$` of a section line declares: a `?`
/// at its end makes the section optional and is no part of the name.
pub open spec fn section_header(rest: Seq<char>) -> (Seq<char>, bool) {
    let name = trimmed(rest);
    if name.len() > 0 && name.last() == '?' {
        (name.drop_last(), false)
    } else {
        (name, true)
    }
}

/// The state of the loader between two lines: the schema read so far, and
/// the width at which each open section was declared.
pub struct Loading {
    pub schema: Schema,
    pub indents: Seq<usize>,
}

/// The loader's state after one more line.
///
/// A line whose first character after its indentation is `$` declares a
/// section; a line with exactly one `:` declares a property; any other line
/// changes nothing. Either kind of declaration first closes the sections
/// declared at its own width or further in. A section is added at the top
/// level and opened. A property is added to the innermost open section.
pub open spec fn load_line(state: Loading, line: Seq<char>) -> Result<Loading, Failure> {
    let width = indent_of(line) as usize;
    let content = without_leading(line, CharClass::Whitespace);
    let n = kept(state.indents, width) as int;
    let open = state.schema.open.take(n);
    if content.len() > 0 && content[0] == '$' {
        let (name, required) = section_header(content.skip(1));
        Ok(
            Loading {
                schema: Schema {
                    nodes: state.schema.nodes.push(
                        SchemaNode::Section { name, required, children: Seq::empty() },
                    ),
                    open: open.push(name),
                },
                indents: state.indents.take(n).push(width),
            },
        )
    } else {
        match declaration(line) {
            Some((key, text)) => match declared_type(text) {
                Some(kind) => Ok(
                    Loading {
                        schema: Schema {
                            nodes: attached(
                                state.schema.nodes,
                                open,
                                SchemaNode::Property { key, kind },
                            ),
                            open,
                        },
                        indents: state.indents.take(n),
                    },
                ),
                None => Err(Failure::MalformedArrayType),
            },
            None => Ok(state),
        }
    }
}

/// The loader's state after all of `lines`, or the failure of the first line
/// that fails.
pub open spec fn load_lines(state: Loading, lines: Seq<Seq<char>>) -> Result<Loading, Failure>
    decreases lines.len(),
{
    if lines.len() == 0 {
        Ok(state)
    } else {
        match load_line(state, lines[0]) {
            Ok(next) => load_lines(next, lines.skip(1)),
            Err(failure) => Err(failure),
        }
    }
}

/// The loader's state after the last line of `text`.
pub open spec fn loaded(text: Seq<char>) -> Result<Loading, Failure> {
    load_lines(
        Loading {
            schema: Schema { nodes: Seq::empty(), open: Seq::empty() },
            indents: Seq::empty(),
        },
        lines_of(text),
    )
}

/// The entries of the schema that `text` describes.
pub open spec fn schema_of(text: Seq<char>) -> Result<Seq<SchemaNode>, Failure> {
    match loaded(text) {
        Ok(state) => Ok(state.schema.nodes),
        Err(failure) => Err(failure),
    }
}

/// The open sections and their widths go together, and the widths grow
/// strictly from the outermost section to the innermost.
pub open spec fn well_formed(state: Loading) -> bool {
    &&& state.schema.open.len() == state.indents.len()
    &&& increasing(state.indents)
}

/// Every line keeps the loader's stack of open sections well formed.
pub proof fn lemma_load_line_well_formed(state: Loading, line: Seq<char>)
    requires
        well_formed(state),
    ensures
        load_line(state, line) matches Ok(next) ==> well_formed(next),
{
    lemma_closes_exactly(state.indents, indent_of(line) as usize);
}

fn load(model: &mut KModel, indents: &mut Vec<usize>, line: &Vec<char>) -> (r: Result<
    (),
    KsonError,
>)
    requires
        old(model)._sections.len() == old(indents).len(),
    ensures
        match load_line(Loading { schema: old(model)@, indents: old(indents)@ }, line@) {
            Ok(next) => r is Ok && final(model)@ == next.schema && final(indents)@ == next.indents
                && final(model)._sections.len() == final(indents).len(),
            Err(failure) => r is Err && r->Err_0@ == failure,
        },
{
    let ghost state = Loading { schema: model@, indents: indents@ };
    let ghost wanted = load_line(state, line@);
    let width = count_leading(line, CharClass::Whitespace);
    let is_section = width < line.len() && line[width] == '$';
    let ghost content = without_leading(line@, CharClass::Whitespace);
    assert(content.len() > 0 ==> content[0] == line@[width as int]);
    if is_section {
        let rest = slice(line, width + 1, line.len());
        assert(rest@ =~= content.skip(1));
        let name = trim(&rest);
        let section = if ends_with_char(&name, '?') {
            let bare = slice(&name, 0, name.len() - 1);
            assert(bare@ =~= name@.drop_last());
            KModelSection::Optional(to_string(&bare))
        } else {
            KModelSection::Required(to_string(&name))
        };
        assert((section.name(), section.required()) == section_header(content.skip(1)));
        close_sections(model, indents, width);
        model.push_section(section);
        indents.push(width);
        assert(wanted is Ok && model@ == wanted->Ok_0.schema && indents@ == wanted->Ok_0.indents);
        assert(model@.open.len() == model._sections@.len());
        Ok(())
    } else {
        match declaration_of(line) {
            Some((key, text)) => {
                let kind = if ends_with_char(&text, '?') {
                    let bare = slice(&text, 0, text.len() - 1);
                    assert(bare@ =~= text@.drop_last());
                    match type_of_chars(&bare) {
                        Some(kind) => Some(KType::Optional(Box::new(kind))),
                        None => None,
                    }
                } else {
                    type_of_chars(&text)
                };
                assert(kind == declared_type(text@));
                match kind {
                    Some(kind) => {
                        close_sections(model, indents, width);
                        model.attr(KItemType::Property(to_string(&key), kind));
                        assert(wanted is Ok && model@ == wanted->Ok_0.schema && indents@
                            == wanted->Ok_0.indents);
                        assert(model@.open.len() == model._sections@.len());
                        Ok(())
                    },
                    None => {
                        assert(wanted == Err::<Loading, Failure>(Failure::MalformedArrayType));
                        Err(KsonError::MalformedArrayType)
                    },
                }
            },
            None => {
                assert(wanted == Ok::<Loading, Failure>(state));
                Ok(())
            },
        }
    }
}

/// Closes the sections that a line at `width` closes.
fn close_sections(model: &mut KModel, indents: &mut Vec<usize>, width: usize)
    requires
        old(model)._sections.len() == old(indents).len(),
    ensures
        final(model)@.nodes == old(model)@.nodes,
        final(model)@.open == old(model)@.open.take(kept(old(indents)@, width) as int),
        final(indents)@ == old(indents)@.take(kept(old(indents)@, width) as int),
        final(model)._sections.len() == final(indents).len(),
{
    let ghost open = model@.open;
    let n = close(indents, width);
    model._sections.truncate(n);
    assert(model@.open =~= open.take(n as int));
}

/// Reads a schema from its text. The sections that the last line leaves open
/// are still open in the schema returned.
pub fn read(text: &str) -> (r: Result<KModel, KsonError>)
    ensures
        match loaded(text@) {
            Ok(state) => r is Ok && r->Ok_0@ == state.schema,
            Err(failure) => r is Err && r->Err_0@ == failure,
        },
{
    let chars = to_chars(text);
    let all = lines(&chars);
    let mut model = KModel::new(Vec::new());
    let mut indents: Vec<usize> = Vec::new();
    let ghost start = Loading {
        schema: Schema { nodes: Seq::empty(), open: Seq::empty() },
        indents: Seq::empty(),
    };
    assert(schema_nodes(Seq::<KItemType>::empty()) =~= Seq::empty());
    assert(model@ == start.schema);
    assert(rows(all@).skip(0) =~= rows(all@));
    let mut i: usize = 0;
    while i < all.len()
        invariant
            i <= all.len(),
            rows(all@) == lines_of(text@),
            model._sections.len() == indents.len(),
            start == (Loading {
                schema: Schema { nodes: Seq::empty(), open: Seq::empty() },
                indents: Seq::empty(),
            }),
            load_lines(start, rows(all@)) == load_lines(
                Loading { schema: model@, indents: indents@ },
                rows(all@).skip(i as int),
            ),
        decreases all.len() - i,
    {
        assert(rows(all@).skip(i as int)[0] == all@[i as int]@);
        assert(rows(all@).skip(i as int).skip(1) =~= rows(all@).skip(i + 1));
        match load(&mut model, &mut indents, &all[i]) {
            Ok(()) => {},
            Err(e) => {
                return Err(e);
            },
        }
        i += 1;
    }
    Ok(model)
}

} // verus!
