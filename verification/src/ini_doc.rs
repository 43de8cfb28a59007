//! INI documents, held by the `ini` crate.
//!
//! The contents of a document are modelled as the values that each key has in the
//! first section of each name (the section `None` is the general section): a finite map
//! from (section, key) to the non-empty list of values, in order. This is what the
//! document's getters read and its setters change.
use vstd::prelude::*;

use ini::{Ini, ParseError, ParseOption};

verus! {

#[verifier::external_type_specification]
#[verifier::external_body]
pub struct ExIni(Ini);

#[verifier::external_type_specification]
#[verifier::external_body]
pub struct ExParseError(ParseError);

/// The values per section and key of an INI document.
pub type IniEntries = Map<(Option<Seq<char>>, Seq<char>), Seq<Seq<char>>>;

/// The values per section and key that a document holds.
pub uninterp spec fn ini_entries(ini: Ini) -> IniEntries;

/// The contents that parsing `text` without quotes or escapes gives, or `None` when the
/// text is not a valid document.
pub uninterp spec fn ini_parsed(text: Seq<char>) -> Option<IniEntries>;

/// A document without values.
pub open spec fn no_entries() -> IniEntries {
    Map::empty()
}

/// The values of `key` in section `section`.
pub open spec fn values_of(e: IniEntries, section: Option<Seq<char>>, key: Seq<char>) -> Seq<Seq<char>> {
    if e.dom().contains((section, key)) {
        e[(section, key)]
    } else {
        seq![]
    }
}

/// The first value of `key` in section `section`.
pub open spec fn first_value(e: IniEntries, section: Option<Seq<char>>, key: Seq<char>) -> Option<Seq<char>> {
    if values_of(e, section, key).len() > 0 {
        Some(values_of(e, section, key)[0])
    } else {
        None
    }
}

/// The view of an optional section name.
pub open spec fn section_view(s: Option<&str>) -> Option<Seq<char>> {
    match s {
        Some(t) => Some(t@),
        None => None,
    }
}

/// An empty document (`Ini::new`): only an empty general section.
#[verifier::external_body]
pub fn ini_new() -> (r: Ini)
    ensures
        ini_entries(r) == no_entries(),
{
    Ini::new()
}

/// Parses a document with `Ini::load_from_str_opt`, quotes and escapes disabled.
#[verifier::external_body]
pub fn ini_parse(text: &str) -> (r: Result<Ini, ParseError>)
    ensures
        r matches Ok(i) ==> ini_parsed(text@) == Some(ini_entries(i)),
        r is Err ==> ini_parsed(text@) is None,
{
    Ini::load_from_str_opt(
        text,
        ParseOption { enabled_escape: false, enabled_quote: false, ..ParseOption::default() },
    )
}

/// The first value of `key` in the first section named `section` (`Ini::get_from`).
#[verifier::external_body]
pub fn ini_get(ini: &Ini, section: Option<&str>, key: &str) -> (r: Option<String>)
    ensures
        r matches Some(v) ==> first_value(ini_entries(*ini), section_view(section), key@) == Some(v@),
        r is None ==> first_value(ini_entries(*ini), section_view(section), key@) is None,
{
    ini.get_from(section, key).map(|v| v.to_string())
}

/// All values of `key` in the first section named `section`, in order
/// (`Ini::section`, then `Properties::get_all`).
#[verifier::external_body]
pub fn ini_get_all(ini: &Ini, section: Option<&str>, key: &str) -> (r: Vec<String>)
    ensures
        r@.len() == values_of(ini_entries(*ini), section_view(section), key@).len(),
        forall|i: int|
            0 <= i < r@.len() ==> #[trigger] r@[i]@ == values_of(
                ini_entries(*ini),
                section_view(section),
                key@,
            )[i],
{
    match ini.section(section) {
        Some(p) => p.get_all(key).map(|v| v.to_string()).collect(),
        None => Vec::new(),
    }
}

/// Replaces all values of `key` in the first section named `section` by `value`,
/// adding the section when there is none (`Ini::set_to`).
#[verifier::external_body]
pub fn ini_set(ini: &mut Ini, section: Option<&str>, key: &str, value: &str)
    ensures
        ini_entries(*final(ini)) == ini_entries(*old(ini)).insert((section_view(section), key@), seq![value@]),
{
    ini.set_to(section, key.to_string(), value.to_string());
}

/// Appends `value` to the values of `key` in the first section named `section`, adding
/// the section when there is none (`SectionSetter::add`).
#[verifier::external_body]
pub fn ini_add(ini: &mut Ini, section: Option<&str>, key: &str, value: &str)
    ensures
        ini_entries(*final(ini)) == ini_entries(*old(ini)).insert(
            (section_view(section), key@),
            values_of(ini_entries(*old(ini)), section_view(section), key@).push(value@),
        ),
{
    ini.with_section(section).add(key, value);
}

/// Removes all values of `key` in the first section named `section`, and returns the
/// first of them (`Ini::delete_from`).
#[verifier::external_body]
pub fn ini_delete(ini: &mut Ini, section: Option<&str>, key: &str) -> (r: Option<String>)
    ensures
        r matches Some(v) ==> first_value(ini_entries(*old(ini)), section_view(section), key@) == Some(v@),
        r is None ==> first_value(ini_entries(*old(ini)), section_view(section), key@) is None,
        ini_entries(*final(ini)) == ini_entries(*old(ini)).remove((section_view(section), key@)),
{
    ini.delete_from(section, key)
}

} // verus!
