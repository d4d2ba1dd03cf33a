use vstd::prelude::*;

verus! {

/// The details of one license: its text and what the list says about it.
#[derive(Debug, PartialEq)]
pub struct LicenseDetails {
    pub is_deprecated_license_id: bool,
    pub license_text: String,
    pub standard_license_header_template: Option<String>,
    pub standard_license_template: String,
    pub name: String,
    pub license_id: String,
    pub cross_ref: Vec<CrossRef>,
    pub see_also: Vec<String>,
    pub is_osi_approved: bool,
    pub is_fsf_libre: Option<bool>,
    pub license_text_html: String,
}

/// A place on the web that holds the license, and what a check of it found.
#[derive(Debug, PartialEq)]
pub struct CrossRef {
    pub match_: String,
    pub url: String,
    pub is_valid: bool,
    pub is_live: bool,
    pub timestamp: String,
    pub is_way_back_link: bool,
    pub order: u32,
}

/// The text that `textwrap::fill` makes of `text` for a line width of
/// `width` columns.
pub uninterp spec fn filled(text: Seq<char>, width: usize) -> Seq<char>;

/// `textwrap::fill` with a plain width: the result is the text filled for
/// that width, a function of the text and the width alone.
#[verifier::external_body]
fn fill(text: &str, width: usize) -> (wrapped: String)
    ensures
        wrapped@ == filled(text@, width),
{
    textwrap::fill(text, width)
}

impl LicenseDetails {
    /// The text of the license as it is to be shown: filled for a line
    /// width of `width` columns where a width is given, and as the list has
    /// it where none is.
    pub fn text(&self, width: Option<usize>) -> (text: String)
        ensures
            text@ == match width {
                Some(columns) => filled(self.license_text@, columns),
                None => self.license_text@,
            },
    {
        match width {
            Some(columns) => fill(self.license_text.as_str(), columns),
            None => self.license_text.clone(),
        }
    }
}

} // verus!
