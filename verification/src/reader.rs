//! The document parser.
//!
//! A document is read line by line, from top to bottom. Each line is a
//! directive, a comment, a section header, a property, or nothing of note.
//! The parser keeps the document built so far, the schema that is in force,
//! and the warnings given. What it needs from outside (the texts of schema
//! files and the values of environment variables) is handed to it as plain
//! values in a `Host`.

use vstd::prelude::*;
use crate::error::{Failure, KsonError, Warning};
use crate::kmodel::{
    lemma_schema_nodes, property_kind, schema_node, schema_nodes, schema_of,
    section_property_kind, KItemType, KModel, KType, SchemaNode,
};
use crate::kson::{
    find_section, find_value, lemma_well_formed_kept, nodes, property_value, section_nodes,
    Document, KSONItem, Node, KSON,
};
use crate::text::{
    count_leading, find, first_index, has_prefix, indent_of, lines, lines_of, names, rows, slice,
    starts_with, strip_leading, strip_trailing, to_chars, to_string, trim, trimmed,
    without_leading, without_trailing, CharClass,
};
use crate::validate::{array_groups, validate, verdict};

verus! {

/// A named text: a file with its contents, or a variable with its value.
#[derive(Debug, PartialEq, Eq)]
pub struct Entry {
    pub name: String,
    pub value: String,
}

/// The text of the first entry with this name.
pub open spec fn value_of(entries: Seq<Entry>, name: Seq<char>) -> Option<Seq<char>>
    decreases entries.len(),
{
    if entries.len() == 0 {
        None
    } else if entries[0].name@ == name {
        Some(entries[0].value@)
    } else {
        value_of(entries.skip(1), name)
    }
}

/// The text of the first entry with this name.
pub fn lookup<'a>(entries: &'a Vec<Entry>, name: &str) -> (r: Option<&'a str>)
    ensures
        match r {
            Some(value) => value_of(entries@, name@) == Some(value@),
            None => value_of(entries@, name@) is None,
        },
{
    let mut i: usize = 0;
    assert(entries@.skip(0) =~= entries@);
    while i < entries.len()
        invariant
            i <= entries.len(),
            value_of(entries@, name@) == value_of(entries@.skip(i as int), name@),
        decreases entries.len() - i,
    {
        assert(entries@.skip(i as int).skip(1) =~= entries@.skip(i + 1));
        if entries[i].name.as_str().eq(name) {
            return Some(entries[i].value.as_str());
        }
        i += 1;
    }
    None
}

/// What a compile is given from outside the document.
#[derive(Debug)]
pub struct Host {
    /// The schema files that can be loaded: path and contents.
    pub files: Vec<Entry>,
    /// The environment: name and value of each variable.
    pub variables: Vec<Entry>,
    /// Whether an environment file was found and read into `variables`.
    pub env_file_found: bool,
}

/// The schema in the file at `path`.
pub open spec fn schema_at(files: Seq<Entry>, path: Seq<char>) -> Result<Seq<SchemaNode>, Failure> {
    match value_of(files, path) {
        Some(text) => schema_of(text),
        None => Err(Failure::SchemaNotFound(path)),
    }
}

/// Loads the schema in the file at `path`.
pub fn load_schema(files: &Vec<Entry>, path: &str) -> (r: Result<KModel, KsonError>)
    ensures
        match schema_at(files@, path@) {
            Ok(schema) => r is Ok && r->Ok_0@.nodes == schema,
            Err(failure) => r is Err && r->Err_0@ == failure,
        },
{
    match lookup(files, path) {
        Some(text) => crate::kmodel::read(text),
        None => Err(KsonError::SchemaNotFound(String::from_str(path))),
    }
}

/// The paths of the schema files that the `@model` lines among `lines` name,
/// in order.
pub open spec fn named_models(lines: Seq<Seq<char>>) -> Seq<Seq<char>>
    decreases lines.len(),
{
    if lines.len() == 0 {
        Seq::empty()
    } else if has_prefix(lines.last(), "@model"@) {
        named_models(lines.drop_last()).push(directive_argument(lines.last().skip(6), true))
    } else {
        named_models(lines.drop_last())
    }
}

/// The argument of a directive: what follows the directive's name, without
/// the white space around it, without round brackets around that, and, for a
/// path, without double quotes inside the brackets.
pub open spec fn directive_argument(rest: Seq<char>, path: bool) -> Seq<char> {
    let bare = without_trailing(
        without_leading(trimmed(rest), CharClass::Only('(')),
        CharClass::Only(')'),
    );
    if path {
        without_trailing(without_leading(bare, CharClass::Only('"')), CharClass::Only('"'))
    } else {
        bare
    }
}

/// The key and the value of a property line: what stands before the first
/// `=` and what stands behind it, each without the white space around it.
pub open spec fn assignment(line: Seq<char>) -> Option<(Seq<char>, Seq<char>)> {
    let i = first_index(line, '=') as int;
    if i < line.len() {
        Some((trimmed(line.take(i)), trimmed(line.skip(i + 1))))
    } else {
        None
    }
}

/// The value that a property gets: a value that is the name of a declared
/// environment variable becomes the variable's value in double quotes.
pub open spec fn resolved(
    value: Seq<char>,
    declared: Seq<Seq<char>>,
    variables: Seq<Entry>,
) -> Result<Seq<char>, Failure> {
    if declared.contains(value) {
        match value_of(variables, value) {
            Some(text) => Ok("\""@ + text + "\""@),
            None => Err(Failure::MissingEnvironmentVariable(value)),
        }
    } else {
        Ok(value)
    }
}

/// The type that a schema gives to the property `key`: the type declared in
/// the schema section named like the innermost open section, or at the top
/// level of the schema where no section is open.
pub open spec fn expected_kind(
    schema: Seq<SchemaNode>,
    open: Seq<Seq<char>>,
    key: Seq<char>,
) -> Option<KType> {
    if open.len() > 0 {
        section_property_kind(schema, open.last(), key)
    } else {
        property_kind(schema, key)
    }
}

/// The state of the parser between two lines.
pub struct Parsing {
    pub doc: Document,
    /// The schema in force, if any.
    pub schema: Option<Seq<SchemaNode>>,
    /// The warnings given so far, in order.
    pub warnings: Seq<Warning>,
    /// Whether the use of `Any` has been warned of.
    pub warned: bool,
}

/// The state after a property line at `width`.
///
/// The line closes the sections opened at `width` or further in. The value
/// is resolved. Where a schema is in force and gives the key a type, the value
/// must pass the validator; a value accepted as `Any` is warned of once.
/// The property is then placed in the innermost open section.
pub open spec fn with_property(
    state: Parsing,
    key: Seq<char>,
    value: Seq<char>,
    width: usize,
    variables: Seq<Entry>,
) -> Result<Parsing, Failure> {
    let doc = state.doc.closed_to(width);
    match resolved(value, doc.env_vars, variables) {
        Err(failure) => Err(failure),
        Ok(text) => {
            let done = doc.with_node(Node::Property { key, value: text });
            let kind = match state.schema {
                Some(schema) => expected_kind(schema, doc.open, key),
                None => None,
            };
            match kind {
                None => Ok(Parsing { doc: done, ..state }),
                Some(kind) => match verdict(key, kind, text, array_groups(text)) {
                    Err(failure) => Err(failure),
                    Ok(any) => Ok(
                        Parsing {
                            doc: done,
                            warnings: if any && !state.warned {
                                state.warnings.push(Warning::AnyTypeUsed)
                            } else {
                                state.warnings
                            },
                            warned: state.warned || any,
                            ..state
                        },
                    ),
                },
            }
        },
    }
}

/// The state after a line that is no `@model` directive.
pub open spec fn with_line(state: Parsing, line: Seq<char>, variables: Seq<Entry>) -> Result<
    Parsing,
    Failure,
> {
    let width = indent_of(line) as usize;
    let content = without_leading(line, CharClass::Whitespace);
    if has_prefix(line, "@env"@) {
        let name = directive_argument(line.skip(4), false);
        if value_of(variables, name) is Some {
            Ok(
                Parsing {
                    doc: Document { env_vars: state.doc.env_vars.push(name), ..state.doc },
                    ..state
                },
            )
        } else {
            Err(Failure::MissingEnvironmentVariable(name))
        }
    } else if content.len() > 0 && content[0] == '#' {
        Ok(state)
    } else if content.len() > 0 && content[0] == '$' {
        Ok(
            Parsing {
                doc: state.doc.closed_to(width).with_section(trimmed(content.skip(1)), width),
                ..state
            },
        )
    } else {
        match assignment(line) {
            Some((key, value)) => with_property(state, key, value, width, variables),
            None => Ok(state),
        }
    }
}

/// The state after one more line.
///
/// A line that begins with `@model` puts the schema of the named file in
/// force. Before any other line the schema of the file given from outside,
/// if one is given, is put in force. A line that begins with `@env` declares
/// a variable, which must have a value. A line whose first character after
/// its indentation is `#` is a comment. One whose first such character is `$`
/// opens a section, after closing those opened at its width or further in.
/// One with a `=` is a property. Any other line is passed over.
pub open spec fn parse_line(
    state: Parsing,
    line: Seq<char>,
    external: Option<Seq<char>>,
    files: Seq<Entry>,
    variables: Seq<Entry>,
) -> Result<Parsing, Failure> {
    if has_prefix(line, "@model"@) {
        match schema_at(files, directive_argument(line.skip(6), true)) {
            Ok(schema) => Ok(Parsing { schema: Some(schema), ..state }),
            Err(failure) => Err(failure),
        }
    } else {
        match external {
            Some(path) => match schema_at(files, path) {
                Ok(schema) => with_line(Parsing { schema: Some(schema), ..state }, line, variables),
                Err(failure) => Err(failure),
            },
            None => with_line(state, line, variables),
        }
    }
}

/// The state after all of `lines`, or the failure of the first line that
/// fails.
pub open spec fn parse_lines(
    state: Parsing,
    lines: Seq<Seq<char>>,
    external: Option<Seq<char>>,
    files: Seq<Entry>,
    variables: Seq<Entry>,
) -> Result<Parsing, Failure>
    decreases lines.len(),
{
    if lines.len() == 0 {
        Ok(state)
    } else {
        match parse_line(state, lines[0], external, files, variables) {
            Ok(next) => parse_lines(next, lines.skip(1), external, files, variables),
            Err(failure) => Err(failure),
        }
    }
}

/// The first required property among `entries` that `forest` lacks.
pub open spec fn first_missing_property(
    entries: Seq<SchemaNode>,
    forest: Seq<Node>,
    scope: Option<Seq<char>>,
) -> Option<Failure>
    decreases entries.len(),
{
    if entries.len() == 0 {
        None
    } else {
        match entries[0] {
            SchemaNode::Property { key, kind } if kind.required() && property_value(forest, key)
                is None => Some(Failure::RequiredPropertyMissing(key, scope)),
            _ => first_missing_property(entries.skip(1), forest, scope),
        }
    }
}

/// What the document `forest` lacks of one entry of a schema. A required
/// property must stand at the top level. A required section must stand at
/// the top level; a section that does, required or not, must hold the
/// required properties declared inside it.
pub open spec fn missing_of(entry: SchemaNode, forest: Seq<Node>) -> Option<Failure> {
    match entry {
        SchemaNode::Property { key, kind } => if kind.required() && property_value(forest, key)
            is None {
            Some(Failure::RequiredPropertyMissing(key, None))
        } else {
            None
        },
        SchemaNode::Section { name, required, children } => match section_nodes(forest, name) {
            Some(inside) => first_missing_property(children, inside, Some(name)),
            None => if required {
                Some(Failure::RequiredSectionMissing(name))
            } else {
                None
            },
        },
    }
}

/// The first thing that the document `forest` lacks of what `schema`
/// requires, in the order of the schema.
pub open spec fn first_missing(schema: Seq<SchemaNode>, forest: Seq<Node>) -> Option<Failure>
    decreases schema.len(),
{
    if schema.len() == 0 {
        None
    } else {
        match missing_of(schema[0], forest) {
            Some(failure) => Some(failure),
            None => first_missing(schema.skip(1), forest),
        }
    }
}

/// What a compile gives: the document, the names declared as environment
/// variables, and the warnings.
pub struct Outcome {
    pub forest: Seq<Node>,
    pub env_vars: Seq<Seq<char>>,
    pub warnings: Seq<Warning>,
}

/// The state before the first line.
pub open spec fn initial(env_file_found: bool) -> Parsing {
    Parsing {
        doc: Document {
            forest: Seq::empty(),
            open: Seq::empty(),
            indents: Seq::empty(),
            env_vars: Seq::empty(),
        },
        schema: None,
        warnings: if env_file_found {
            Seq::empty()
        } else {
            seq![Warning::MissingEnvFile]
        },
        warned: false,
    }
}

/// What the state after the last line gives: the document, unless it lacks
/// something that the schema in force requires.
pub open spec fn finished(end: Parsing) -> Result<Outcome, Failure> {
    let missing = match end.schema {
        Some(schema) => first_missing(schema, end.doc.forest),
        None => None,
    };
    match missing {
        Some(failure) => Err(failure),
        None => Ok(
            Outcome {
                forest: end.doc.forest,
                env_vars: end.doc.env_vars,
                warnings: end.warnings,
            },
        ),
    }
}

/// What compiling `text` gives.
pub open spec fn parsed(
    text: Seq<char>,
    external: Option<Seq<char>>,
    files: Seq<Entry>,
    variables: Seq<Entry>,
    env_file_found: bool,
) -> Result<Outcome, Failure> {
    match parse_lines(initial(env_file_found), lines_of(text), external, files, variables) {
        Ok(end) => finished(end),
        Err(failure) => Err(failure),
    }
}

/// What compiling the document in the file at `path` gives.
pub open spec fn parsed_file(
    path: Seq<char>,
    external: Option<Seq<char>>,
    files: Seq<Entry>,
    variables: Seq<Entry>,
    env_file_found: bool,
) -> Result<Outcome, Failure> {
    match value_of(files, path) {
        Some(text) => parsed(text, external, files, variables, env_file_found),
        None => Err(Failure::DocumentNotFound(path)),
    }
}

/// How often `warning` stands among `warnings`.
pub open spec fn occurrences(warnings: Seq<Warning>, warning: Warning) -> nat
    decreases warnings.len(),
{
    if warnings.len() == 0 {
        0
    } else {
        occurrences(warnings.drop_last(), warning) + if warnings.last() == warning {
            1nat
        } else {
            0nat
        }
    }
}

/// The warning of `Any` has been given once where the state says that it has
/// been given, and not at all where it says that it has not.
pub open spec fn warned_once(state: Parsing) -> bool {
    occurrences(state.warnings, Warning::AnyTypeUsed) == if state.warned {
        1nat
    } else {
        0nat
    }
}

/// A line keeps the stack of open sections well formed, and gives the
/// warning of `Any` at most where it has not been given before.
pub proof fn lemma_parse_line_keeps(
    state: Parsing,
    line: Seq<char>,
    external: Option<Seq<char>>,
    files: Seq<Entry>,
    variables: Seq<Entry>,
)
    requires
        state.doc.well_formed(),
        warned_once(state),
    ensures
        parse_line(state, line, external, files, variables) matches Ok(next)
            ==> next.doc.well_formed() && warned_once(next),
{
    let width = indent_of(line) as usize;
    lemma_well_formed_kept(state.doc, Seq::empty(), width);
    match parse_line(state, line, external, files, variables) {
        Ok(next) => {
            if next.warnings != state.warnings {
                assert(next.warnings.drop_last() =~= state.warnings);
            }
        },
        Err(_) => {},
    }
}

/// Every line of a document keeps the stack of open sections well formed
/// and the warning of `Any` given at most once.
pub proof fn lemma_parse_lines_keep(
    state: Parsing,
    lines: Seq<Seq<char>>,
    external: Option<Seq<char>>,
    files: Seq<Entry>,
    variables: Seq<Entry>,
)
    requires
        state.doc.well_formed(),
        warned_once(state),
    ensures
        parse_lines(state, lines, external, files, variables) matches Ok(end)
            ==> end.doc.well_formed() && warned_once(end),
    decreases lines.len(),
{
    if lines.len() > 0 {
        lemma_parse_line_keeps(state, lines[0], external, files, variables);
        match parse_line(state, lines[0], external, files, variables) {
            Ok(next) => lemma_parse_lines_keep(next, lines.skip(1), external, files, variables),
            Err(_) => {},
        }
    }
}

/// However often a document uses the type `Any`, a compile warns of it at
/// most once.
pub proof fn lemma_any_warned_at_most_once(
    text: Seq<char>,
    external: Option<Seq<char>>,
    files: Seq<Entry>,
    variables: Seq<Entry>,
    env_file_found: bool,
)
    ensures
        parsed(text, external, files, variables, env_file_found) matches Ok(outcome)
            ==> occurrences(outcome.warnings, Warning::AnyTypeUsed) <= 1,
{
    let start = initial(env_file_found);
    assert(warned_once(start)) by {
        if !env_file_found {
            assert(start.warnings.len() == 1);
            assert(start.warnings.last() == Warning::MissingEnvFile);
            assert(occurrences(start.warnings.drop_last(), Warning::AnyTypeUsed) == 0);
        }
    }
    lemma_parse_lines_keep(start, lines_of(text), external, files, variables);
}

/// The path behind an optional reference to it.
pub open spec fn path_of(external: Option<&String>) -> Option<Seq<char>> {
    match external {
        Some(path) => Some(path@),
        None => None,
    }
}

/// The result of a compile.
#[derive(Debug)]
pub struct Compiled {
    /// The nodes at the top level of the document.
    pub properties: Vec<KSONItem>,
    /// The names declared as environment variables.
    pub env_vars: Vec<String>,
    /// The warnings given, in order.
    pub warnings: Vec<Warning>,
}

impl View for Compiled {
    type V = Outcome;

    open spec fn view(&self) -> Outcome {
        Outcome {
            forest: nodes(self.properties@),
            env_vars: names(self.env_vars@),
            warnings: self.warnings@,
        }
    }
}

fn directive_argument_of(line: &Vec<char>, from: usize, path: bool) -> (r: Vec<char>)
    requires
        from <= line.len(),
    ensures
        r@ == directive_argument(line@.skip(from as int), path),
{
    let rest = slice(line, from, line.len());
    assert(rest@ =~= line@.skip(from as int));
    let inner = trim(&rest);
    let inner = strip_leading(&inner, CharClass::Only('('));
    let inner = strip_trailing(&inner, CharClass::Only(')'));
    if path {
        let inner = strip_leading(&inner, CharClass::Only('"'));
        strip_trailing(&inner, CharClass::Only('"'))
    } else {
        inner
    }
}

fn assignment_of(line: &Vec<char>) -> (r: Option<(Vec<char>, Vec<char>)>)
    ensures
        match r {
            Some((key, value)) => assignment(line@) == Some((key@, value@)),
            None => assignment(line@) is None,
        },
{
    let i = find(line, '=');
    if i < line.len() {
        let left = slice(line, 0, i);
        let right = slice(line, i + 1, line.len());
        assert(left@ =~= line@.take(i as int));
        assert(right@ =~= line@.skip(i + 1));
        Some((trim(&left), trim(&right)))
    } else {
        None
    }
}

/// The paths of the schema files that a document names with `@model`, in
/// the order of its lines. These are the files that a compile of the document
/// may ask for, beside one given from outside.
pub fn model_paths(text: &str) -> (paths: Vec<String>)
    ensures
        names(paths@) == named_models(lines_of(text@)),
{
    let chars = to_chars(text);
    let all = lines(&chars);
    let mut paths: Vec<String> = Vec::new();
    let mut i: usize = 0;
    assert(rows(all@).take(0) =~= Seq::<Seq<char>>::empty());
    assert(names(paths@) =~= Seq::<Seq<char>>::empty());
    while i < all.len()
        invariant
            i <= all.len(),
            rows(all@) == lines_of(text@),
            names(paths@) == named_models(rows(all@).take(i as int)),
        decreases all.len() - i,
    {
        let ghost before = names(paths@);
        assert(rows(all@).take(i + 1).drop_last() =~= rows(all@).take(i as int));
        assert(rows(all@).take(i + 1).last() == all@[i as int]@);
        if starts_with(&all[i], "@model") {
            assert(all@[i as int]@.len() >= 6) by {
                reveal_strlit("@model");
            }
            let path = to_string(&directive_argument_of(&all[i], 6, true));
            paths.push(path);
            assert(names(paths@) =~= before.push(path@));
        }
        i += 1;
    }
    assert(rows(all@).take(i as int) =~= rows(all@));
    paths
}

/// Splits a property line into its key and its value.
pub fn parse_property_line(line: &str) -> (r: Option<(String, String)>)
    ensures
        match r {
            Some((key, value)) => assignment(line@) == Some((key@, value@)),
            None => assignment(line@) is None,
        },
{
    let chars = to_chars(line);
    match assignment_of(&chars) {
        Some((key, value)) => Some((to_string(&key), to_string(&value))),
        None => None,
    }
}

/// Whether `name` is among `list`.
fn is_declared(list: &Vec<String>, name: &str) -> (r: bool)
    ensures
        r == names(list@).contains(name@),
{
    let mut i: usize = 0;
    while i < list.len()
        invariant
            i <= list.len(),
            forall|j: int| 0 <= j < i ==> names(list@)[j] != name@,
        decreases list.len() - i,
    {
        if list[i].as_str().eq(name) {
            assert(names(list@)[i as int] == name@);
            return true;
        }
        i += 1;
    }
    false
}

fn resolve(value: String, declared: &Vec<String>, variables: &Vec<Entry>) -> (r: Result<
    String,
    KsonError,
>)
    ensures
        match resolved(value@, names(declared@), variables@) {
            Ok(text) => r is Ok && r->Ok_0@ == text,
            Err(failure) => r is Err && r->Err_0@ == failure,
        },
{
    if is_declared(declared, value.as_str()) {
        match lookup(variables, value.as_str()) {
            Some(text) => {
                let mut quoted = String::from_str("\"");
                quoted.append(text);
                quoted.append("\"");
                Ok(quoted)
            },
            None => Err(KsonError::MissingEnvironmentVariable(value)),
        }
    } else {
        Ok(value)
    }
}

/// The parser between two lines.
struct Reader {
    kson: KSON,
    model: Option<KModel>,
    /// Whether `model` is the schema of the file given from outside.
    external_in_force: bool,
    warnings: Vec<Warning>,
    warned: bool,
}

impl View for Reader {
    type V = Parsing;

    closed spec fn view(&self) -> Parsing {
        Parsing {
            doc: self.kson@,
            schema: match self.model {
                Some(model) => Some(model@.nodes),
                None => None,
            },
            warnings: self.warnings@,
            warned: self.warned,
        }
    }
}

impl Reader {
    /// The stacks of the builder go together, and a schema marked as the
    /// one given from outside is that schema.
    closed spec fn consistent(&self, external: Option<Seq<char>>, files: Seq<Entry>) -> bool {
        &&& self.kson@.open.len() == self.kson@.indents.len()
        &&& self.external_in_force ==> external is Some && self.model is Some && schema_at(
            files,
            external->0,
        ) == Ok::<Seq<SchemaNode>, Failure>(self.model->0@.nodes)
    }

    fn new(env_file_found: bool) -> (reader: Reader)
        ensures
            reader@ == initial(env_file_found),
            forall|external: Option<Seq<char>>, files: Seq<Entry>|
                reader.consistent(external, files),
    {
        let mut warnings: Vec<Warning> = Vec::new();
        if !env_file_found {
            warnings.push(Warning::MissingEnvFile);
        }
        let reader = Reader {
            kson: KSON::new(Vec::new()),
            model: None,
            external_in_force: false,
            warnings,
            warned: false,
        };
        assert(nodes(Seq::<KSONItem>::empty()) =~= Seq::empty());
        assert(reader@.warnings =~= initial(env_file_found).warnings);
        assert(reader@.doc == initial(env_file_found).doc);
        reader
    }

    /// The type that the schema in force gives to `key` at the place where
    /// the builder stands.
    fn expected(&self, key: &str) -> (r: Option<&KType>)
        ensures
            match self@.schema {
                Some(schema) => match r {
                    Some(kind) => expected_kind(schema, self@.doc.open, key@) == Some(*kind),
                    None => expected_kind(schema, self@.doc.open, key@) is None,
                },
                None => r is None,
            },
    {
        match &self.model {
            Some(model) => match self.kson.last_section() {
                Some(section) => model.get_section_property(section, key),
                None => model.get_property(key),
            },
            None => None,
        }
    }

    fn property(&mut self, key: Vec<char>, value: Vec<char>, width: usize, host: &Host) -> (r:
        Result<(), KsonError>)
        requires
            old(self)@.doc.open.len() == old(self)@.doc.indents.len(),
        ensures
            final(self).model == old(self).model,
            final(self).external_in_force == old(self).external_in_force,
            match with_property(old(self)@, key@, value@, width, host.variables@) {
                Ok(next) => r is Ok && final(self)@ == next && final(self)@.doc.open.len()
                    == final(self)@.doc.indents.len(),
                Err(failure) => r is Err && r->Err_0@ == failure,
            },
    {
        let ghost state = self@;
        let ghost wanted = with_property(state, key@, value@, width, host.variables@);
        self.kson.close_sections(width);
        let key = to_string(&key);
        let text = match resolve(to_string(&value), &self.kson.env_vars, &host.variables) {
            Ok(text) => text,
            Err(e) => {
                return Err(e);
            },
        };
        let any = match self.expected(key.as_str()) {
            Some(kind) => match validate(key.as_str(), kind, text.as_str()) {
                Ok(any) => any,
                Err(e) => {
                    return Err(e);
                },
            },
            None => false,
        };
        self.kson.attr(KSONItem::Property(key, text));
        if any && !self.warned {
            self.warnings.push(Warning::AnyTypeUsed);
        }
        self.warned = self.warned || any;
        assert(wanted is Ok && self@ == wanted->Ok_0);
        Ok(())
    }

    fn line(&mut self, line: &Vec<char>, host: &Host) -> (r: Result<(), KsonError>)
        requires
            old(self)@.doc.open.len() == old(self)@.doc.indents.len(),
        ensures
            final(self).model == old(self).model,
            final(self).external_in_force == old(self).external_in_force,
            match with_line(old(self)@, line@, host.variables@) {
                Ok(next) => r is Ok && final(self)@ == next && final(self)@.doc.open.len()
                    == final(self)@.doc.indents.len(),
                Err(failure) => r is Err && r->Err_0@ == failure,
            },
    {
        let ghost state = self@;
        let ghost wanted = with_line(state, line@, host.variables@);
        let width = count_leading(line, CharClass::Whitespace);
        let ghost content = without_leading(line@, CharClass::Whitespace);
        assert(content.len() > 0 ==> content[0] == line@[width as int]);
        if starts_with(line, "@env") {
            assert(line@.len() >= 4) by {
                reveal_strlit("@env");
            }
            let name = to_string(&directive_argument_of(line, 4, false));
            if lookup(&host.variables, name.as_str()).is_some() {
                let ghost declared = self@.doc.env_vars;
                self.kson.env_vars.push(name);
                assert(self@.doc.env_vars =~= declared.push(name@));
                assert(wanted is Ok && self@ == wanted->Ok_0);
                Ok(())
            } else {
                Err(KsonError::MissingEnvironmentVariable(name))
            }
        } else if width < line.len() && line[width] == '#' {
            Ok(())
        } else if width < line.len() && line[width] == '$' {
            let rest = slice(line, width + 1, line.len());
            assert(rest@ =~= content.skip(1));
            let name = to_string(&trim(&rest));
            self.kson.close_sections(width);
            self.kson.push_section(name.as_str(), width);
            assert(wanted is Ok && self@ == wanted->Ok_0);
            Ok(())
        } else {
            match assignment_of(line) {
                Some((key, value)) => self.property(key, value, width, host),
                None => Ok(()),
            }
        }
    }

    fn feed(&mut self, line: &Vec<char>, external: Option<&String>, host: &Host) -> (r: Result<
        (),
        KsonError,
    >)
        requires
            old(self).consistent(path_of(external), host.files@),
        ensures
            match parse_line(
                old(self)@,
                line@,
                path_of(external),
                host.files@,
                host.variables@,
            ) {
                Ok(next) => r is Ok && final(self)@ == next && final(self).consistent(
                    path_of(external),
                    host.files@,
                ),
                Err(failure) => r is Err && r->Err_0@ == failure,
            },
    {
        if starts_with(line, "@model") {
            assert(line@.len() >= 6) by {
                reveal_strlit("@model");
            }
            let path = to_string(&directive_argument_of(line, 6, true));
            match load_schema(&host.files, path.as_str()) {
                Ok(model) => {
                    self.model = Some(model);
                    self.external_in_force = false;
                    Ok(())
                },
                Err(e) => Err(e),
            }
        } else {
            if let Some(path) = external {
                if !self.external_in_force {
                    match load_schema(&host.files, path.as_str()) {
                        Ok(model) => {
                            self.model = Some(model);
                            self.external_in_force = true;
                        },
                        Err(e) => {
                            return Err(e);
                        },
                    }
                }
            }
            self.line(line, host)
        }
    }

    fn finish(self) -> (r: Result<Compiled, KsonError>)
        ensures
            match finished(self@) {
                Ok(outcome) => r is Ok && r->Ok_0@ == outcome,
                Err(failure) => r is Err && r->Err_0@ == failure,
            },
    {
        if let Some(model) = &self.model {
            match require_complete(&model.properties, &self.kson.properties) {
                Ok(()) => {},
                Err(e) => {
                    return Err(e);
                },
            }
        }
        Ok(
            Compiled {
                properties: self.kson.properties,
                env_vars: self.kson.env_vars,
                warnings: self.warnings,
            },
        )
    }
}

fn require_properties(entries: &Vec<KItemType>, items: &Vec<KSONItem>, scope: Option<&str>) -> (r:
    Result<(), KsonError>)
    ensures
        match first_missing_property(
            schema_nodes(entries@),
            nodes(items@),
            match scope {
                Some(name) => Some(name@),
                None => None,
            },
        ) {
            Some(failure) => r is Err && r->Err_0@ == failure,
            None => r is Ok,
        },
{
    let ghost schema = schema_nodes(entries@);
    proof {
        lemma_schema_nodes(entries@);
        assert(schema.skip(0) =~= schema);
    }
    let ghost place = match scope {
        Some(name) => Some(name@),
        None => None,
    };
    let mut i: usize = 0;
    while i < entries.len()
        invariant
            i <= entries.len(),
            schema == schema_nodes(entries@),
            schema.len() == entries.len(),
            forall|j: int| 0 <= j < schema.len() ==> #[trigger] schema[j] == schema_node(entries@[j]),
            place == match scope {
                Some(name) => Some(name@),
                None => None::<Seq<char>>,
            },
            first_missing_property(schema, nodes(items@), place) == first_missing_property(
                schema.skip(i as int),
                nodes(items@),
                place,
            ),
        decreases entries.len() - i,
    {
        assert(schema.skip(i as int)[0] == schema[i as int]);
        assert(schema.skip(i as int).skip(1) =~= schema.skip(i + 1));
        if let KItemType::Property(key, kind) = &entries[i] {
            if kind.is_required() && find_value(items, key.as_str()).is_none() {
                return Err(
                    KsonError::RequiredPropertyMissing(
                        key.clone(),
                        match scope {
                            Some(name) => Some(String::from_str(name)),
                            None => None,
                        },
                    ),
                );
            }
        }
        i += 1;
    }
    Ok(())
}

/// Holds a document against what a schema requires of it.
pub fn require_complete(schema: &Vec<KItemType>, items: &Vec<KSONItem>) -> (r: Result<
    (),
    KsonError,
>)
    ensures
        match first_missing(schema_nodes(schema@), nodes(items@)) {
            Some(failure) => r is Err && r->Err_0@ == failure,
            None => r is Ok,
        },
{
    let ghost entries = schema_nodes(schema@);
    proof {
        lemma_schema_nodes(schema@);
        assert(entries.skip(0) =~= entries);
    }
    let mut i: usize = 0;
    while i < schema.len()
        invariant
            i <= schema.len(),
            entries == schema_nodes(schema@),
            entries.len() == schema.len(),
            forall|j: int|
                0 <= j < entries.len() ==> #[trigger] entries[j] == schema_node(schema@[j]),
            first_missing(entries, nodes(items@)) == first_missing(
                entries.skip(i as int),
                nodes(items@),
            ),
        decreases schema.len() - i,
    {
        assert(entries.skip(i as int)[0] == entries[i as int]);
        assert(entries.skip(i as int).skip(1) =~= entries.skip(i + 1));
        match &schema[i] {
            KItemType::Section(section, inside) => {
                let name = section.to_string();
                match find_section(items, name.as_str()) {
                    Some(children) => {
                        match require_properties(inside, children, Some(name.as_str())) {
                            Ok(()) => {},
                            Err(e) => {
                                return Err(e);
                            },
                        }
                    },
                    None => {
                        if section.is_required() {
                            return Err(KsonError::RequiredSectionMissing(name));
                        }
                    },
                }
            },
            KItemType::Property(key, kind) => {
                if kind.is_required() && find_value(items, key.as_str()).is_none() {
                    return Err(KsonError::RequiredPropertyMissing(key.clone(), None));
                }
            },
        }
        i += 1;
    }
    Ok(())
}

/// Compiles a document: reads `text` line by line, holds each property
/// against the schema in force, and at the end holds the document against
/// what that schema requires. `kmodel_file` is the path of a schema given
/// from outside the document.
pub fn read(text: &str, kmodel_file: Option<&String>, host: &Host) -> (r: Result<
    Compiled,
    KsonError,
>)
    ensures
        match parsed(
            text@,
            path_of(kmodel_file),
            host.files@,
            host.variables@,
            host.env_file_found,
        ) {
            Ok(outcome) => r is Ok && r->Ok_0@ == outcome,
            Err(failure) => r is Err && r->Err_0@ == failure,
        },
{
    let chars = to_chars(text);
    let all = lines(&chars);
    let mut reader = Reader::new(host.env_file_found);
    let ghost start = reader@;
    assert(rows(all@).skip(0) =~= rows(all@));
    let mut i: usize = 0;
    while i < all.len()
        invariant
            i <= all.len(),
            rows(all@) == lines_of(text@),
            start == initial(host.env_file_found),
            reader.consistent(path_of(kmodel_file), host.files@),
            parse_lines(start, rows(all@), path_of(kmodel_file), host.files@, host.variables@)
                == parse_lines(
                reader@,
                rows(all@).skip(i as int),
                path_of(kmodel_file),
                host.files@,
                host.variables@,
            ),
        decreases all.len() - i,
    {
        assert(rows(all@).skip(i as int)[0] == all@[i as int]@);
        assert(rows(all@).skip(i as int).skip(1) =~= rows(all@).skip(i + 1));
        match reader.feed(&all[i], kmodel_file, host) {
            Ok(()) => {},
            Err(e) => {
                return Err(e);
            },
        }
        i += 1;
    }
    reader.finish()
}

/// Compiles the document in the file at `file_path`, one of the files of
/// `host`.
pub fn read_file(file_path: &str, kmodel_file: Option<&String>, host: &Host) -> (r: Result<
    Compiled,
    KsonError,
>)
    ensures
        match parsed_file(
            file_path@,
            path_of(kmodel_file),
            host.files@,
            host.variables@,
            host.env_file_found,
        ) {
            Ok(outcome) => r is Ok && r->Ok_0@ == outcome,
            Err(failure) => r is Err && r->Err_0@ == failure,
        },
{
    match lookup(&host.files, file_path) {
        Some(text) => read(text, kmodel_file, host),
        None => Err(KsonError::DocumentNotFound(String::from_str(file_path))),
    }
}

} // verus!
