//! The version of the project, as its package file states it.

use vstd::prelude::*;

verus! {

/// What the `toml` crate finds in `document`: the string under `key` in the
/// table `table` at the top of the document. `None` where `document` does
/// not parse as a `toml::Value`, or where `Value::get` finds no such table
/// or key, or where `Value::as_str` finds no string there.
pub uninterp spec fn toml_string(
    document: Seq<char>,
    table: Seq<char>,
    key: Seq<char>,
) -> Option<Seq<char>>;

/// Parses `document` as a `toml::Value`, steps into `table` and then to `key`
/// with `Value::get`, and reads the string there with `Value::as_str`. The
/// result is the named result `toml_string`; nothing more is claimed of it.
#[verifier::external_body]
fn toml_string_at(document: &str, table: &str, key: &str) -> (found: Option<String>)
    ensures
        match found {
            Some(text) => toml_string(document@, table@, key@) == Some(text@),
            None => toml_string(document@, table@, key@) is None,
        },
{
    let value = document.parse::<toml::Value>().ok()?;
    value.get(table)?.get(key)?.as_str().map(|text| text.to_string())
}

/// The version that a package file states: the string `version` in its
/// table `package`.
pub open spec fn stated_version(package_file: Seq<char>) -> Option<Seq<char>> {
    toml_string(package_file, "package"@, "version"@)
}

/// Reads the version from the text of a package file.
pub fn get_project_version(package_file: &str) -> (version: Option<String>)
    ensures
        match version {
            Some(text) => stated_version(package_file@) == Some(text@),
            None => stated_version(package_file@) is None,
        },
{
    toml_string_at(package_file, "package", "version")
}

} // verus!
