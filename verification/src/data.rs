//! The additional data beside the schedule: the place on earth for which
//! solar times are asked.

use ini::{Ini, ParseError, Properties};
use vstd::prelude::*;

verus! {

/// An INI document as rust-ini holds it.
#[verifier::external_type_specification]
#[verifier::external_body]
pub struct ExIni(Ini);

/// The keys and values of one section of an INI document.
#[verifier::external_type_specification]
#[verifier::external_body]
pub struct ExProperties(Properties);

/// rust-ini's account of why a text is no INI document.
#[verifier::external_type_specification]
#[verifier::external_body]
pub struct ExParseError(ParseError);

/// What rust-ini reads out of a text: nothing where it refuses the text,
/// else what a lookup finds in the document that it makes of the text.
pub uninterp spec fn ini_document(text: Seq<char>) -> Option<Map<Seq<char>, Map<Seq<char>, Seq<char>>>>;

/// What a lookup finds in an INI document: for the name of each section
/// that the document has, what a lookup finds in the section of that name.
pub uninterp spec fn ini_sections(document: Ini) -> Map<Seq<char>, Map<Seq<char>, Seq<char>>>;

/// What a lookup finds in a section: for each key that the section has,
/// the value that the section gives for it.
pub uninterp spec fn section_values(section: Properties) -> Map<Seq<char>, Seq<char>>;

/// rust-ini's `Ini::load_from_str`: reads a text as an INI document, or
/// refuses it. What it makes of a text depends on the text alone.
pub assume_specification[ Ini::load_from_str ](buf: &str) -> (r: Result<Ini, ParseError>)
    ensures
        r matches Ok(document) ==> ini_document(buf@) == Some(ini_sections(document)),
        r is Err ==> ini_document(buf@) is None,
;

/// rust-ini's `Ini::section`, asked for a section by name: the section of
/// that name, if the document has one.
#[verifier::external_body]
fn section_named<'a>(document: &'a Ini, name: &str) -> (r: Option<&'a Properties>)
    ensures
        r is Some <==> ini_sections(*document).contains_key(name@),
        r matches Some(section) ==> section_values(*section) == ini_sections(*document)[name@],
{
    document.section(Some(name))
}

/// rust-ini's `Properties::get`: the value that the section gives for the
/// key, if it has the key.
#[verifier::external_body]
fn value_of<'a>(section: &'a Properties, key: &str) -> (r: Option<&'a str>)
    ensures
        r is Some <==> section_values(*section).contains_key(key@),
        r matches Some(value) ==> value@ == section_values(*section)[key@],
{
    section.get(key)
}

/// Why the additional data could not be had.
#[derive(Clone, Copy, Debug, PartialEq, Eq, Structural, Hash)]
pub enum DataError {
    /// The text is no INI document.
    Unreadable,
    /// The document has no section called `General`.
    NoGeneralSection,
    /// The section `General` has no key `latitude`.
    NoLatitude,
    /// The section `General` has no key `longitude`.
    NoLongitude,
}

/// The place on earth for which solar times are asked: latitude and
/// longitude, each as it is written in the additional data.
#[derive(Clone, Debug)]
pub struct AdditionalData {
    pub lat: String,
    pub lng: String,
}

/// The latitude and longitude that a document gives in its section
/// `General`, or the first thing that is missing.
pub open spec fn general_place(sections: Map<Seq<char>, Map<Seq<char>, Seq<char>>>) -> Result<
    (Seq<char>, Seq<char>),
    DataError,
> {
    if !sections.contains_key("General"@) {
        Err(DataError::NoGeneralSection)
    } else if !sections["General"@].contains_key("latitude"@) {
        Err(DataError::NoLatitude)
    } else if !sections["General"@].contains_key("longitude"@) {
        Err(DataError::NoLongitude)
    } else {
        Ok((sections["General"@]["latitude"@], sections["General"@]["longitude"@]))
    }
}

/// The latitude and longitude that the text of the additional data gives.
pub open spec fn text_place(text: Seq<char>) -> Result<(Seq<char>, Seq<char>), DataError> {
    match ini_document(text) {
        None => Err(DataError::Unreadable),
        Some(sections) => general_place(sections),
    }
}

/// Takes latitude and longitude from the section `General` of a document.
pub fn place_in_document(document: &Ini) -> (r: Result<AdditionalData, DataError>)
    ensures
        match general_place(ini_sections(*document)) {
            Ok(place) => r matches Ok(data) && data.lat@ == place.0 && data.lng@ == place.1,
            Err(e) => r == Err::<AdditionalData, DataError>(e),
        },
{
    let general = match section_named(document, "General") {
        Some(section) => section,
        None => {
            return Err(DataError::NoGeneralSection);
        },
    };
    let lat = match value_of(general, "latitude") {
        Some(value) => value,
        None => {
            return Err(DataError::NoLatitude);
        },
    };
    let lng = match value_of(general, "longitude") {
        Some(value) => value,
        None => {
            return Err(DataError::NoLongitude);
        },
    };
    Ok(AdditionalData { lat: lat.to_owned(), lng: lng.to_owned() })
}

/// Reads the additional data from the text of its file: an INI document
/// whose section `General` gives `latitude` and `longitude`.
pub fn parse_data(text: &str) -> (r: Result<AdditionalData, DataError>)
    ensures
        match text_place(text@) {
            Ok(place) => r matches Ok(data) && data.lat@ == place.0 && data.lng@ == place.1,
            Err(e) => r == Err::<AdditionalData, DataError>(e),
        },
{
    match Ini::load_from_str(text) {
        Ok(document) => place_in_document(&document),
        Err(_) => Err(DataError::Unreadable),
    }
}

} // verus!
