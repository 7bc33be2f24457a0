//! Per-page configuration: two optional string fields, read from a small TOML
//! document through the external TOML parser.

use vstd::prelude::*;

verus! {

/// A page's resolved configuration: an optional theme reference and an
/// optional template reference.
#[derive(Debug)]
pub struct PageToml {
    pub theme: Option<String>,
    pub template: Option<String>,
}

impl View for PageToml {
    type V = (Option<Seq<char>>, Option<Seq<char>>);

    open spec fn view(&self) -> (Option<Seq<char>>, Option<Seq<char>>) {
        (self.theme.deep_view(), self.template.deep_view())
    }
}

impl PageToml {
    /// A configuration with neither field set.
    pub fn empty() -> (r: Self)
        ensures
            r@ == (Option::<Seq<char>>::None, Option::<Seq<char>>::None),
    {
        PageToml { theme: None, template: None }
    }
}

/// What the TOML parser yields for a document: `None` when the text is not a
/// valid document with optional string keys `theme` and `template`, otherwise
/// the two fields.
pub uninterp spec fn toml_page_config(s: Seq<char>) -> Option<(Option<Seq<char>>, Option<Seq<char>>)>;

/// Relies on `toml::from_str::<toml::Table>`: parsing a TOML document is a
/// function of the text alone. A document whose `theme` or `template` key is
/// present but not a string is rejected, as a typed deserialization would
/// reject it.
#[verifier::external_body]
pub(crate) fn parse_page_toml(text: &str) -> (r: Option<PageToml>)
    ensures
        match r {
            Some(c) => toml_page_config(text@) == Some(c@),
            None => toml_page_config(text@) is None,
        },
{
    let table: toml::Table = match toml::from_str(text) {
        Ok(t) => t,
        Err(_) => return None,
    };
    let theme = match table.get("theme") {
        None => None,
        Some(toml::Value::String(s)) => Some(s.clone()),
        Some(_) => return None,
    };
    let template = match table.get("template") {
        None => None,
        Some(toml::Value::String(s)) => Some(s.clone()),
        Some(_) => return None,
    };
    Some(PageToml { theme, template })
}

} // verus!
