//! Language tags, compared by their canonical text.

use crate::text::optional_text;
use vstd::prelude::*;
use vstd::string::*;

verus! {

/// The language consulted when the requested one has no template.
pub const DEFAULT_LANGUAGE: &'static str = "en";

/// The canonical text of the language tag that `input` spells, as the
/// `language-tags` crate writes it; `None` where `input` is no language tag.
pub uninterp spec fn language_tag_canonical(input: Seq<char>) -> Option<Seq<char>>;

/// Calls `language_tags::LanguageTag::parse` on `input` and, where that
/// succeeds, takes the tag's text with `LanguageTag::as_str`.
/// The contract only gives the outcome its name, `language_tag_canonical`.
#[verifier::external_body]
fn canonical_form(input: &str) -> (res: Option<String>)
    ensures
        optional_text(res) == language_tag_canonical(input@),
{
    match language_tags::LanguageTag::parse(input) {
        Ok(tag) => Some(tag.as_str().to_string()),
        Err(_) => None,
    }
}

/// A language tag. Two tags are the same language exactly when their texts
/// are equal: no tag stands in for another.
#[derive(Debug)]
pub struct LanguageTag {
    text: String,
}

impl View for LanguageTag {
    type V = Seq<char>;

    closed spec fn view(&self) -> Seq<char> {
        self.text@
    }
}

/// The view of an optional tag.
pub open spec fn tag_text(tag: Option<LanguageTag>) -> Option<Seq<char>> {
    match tag {
        Some(t) => Some(t@),
        None => None,
    }
}

impl LanguageTag {
    /// Reads a language tag; `None` where `input` is not one.
    pub fn parse(input: &str) -> (res: Option<LanguageTag>)
        ensures
            tag_text(res) == language_tag_canonical(input@),
    {
        match canonical_form(input) {
            Some(text) => Some(LanguageTag { text }),
            None => None,
        }
    }

    /// The tag of the default language, if the default's text is a tag.
    pub fn fallback() -> (res: Option<LanguageTag>)
        ensures
            tag_text(res) == language_tag_canonical(DEFAULT_LANGUAGE@),
    {
        LanguageTag::parse(DEFAULT_LANGUAGE)
    }

    /// The tag's canonical text.
    pub fn as_str(&self) -> (res: &str)
        ensures
            res@ == self@,
    {
        self.text.as_str()
    }

    /// Whether two tags are the same language.
    pub fn same(&self, other: &LanguageTag) -> (res: bool)
        ensures
            res == (self@ == other@),
    {
        self.text == other.text
    }

    /// A copy of the tag.
    pub fn duplicate(&self) -> (res: LanguageTag)
        ensures
            res@ == self@,
    {
        LanguageTag { text: self.text.clone() }
    }
}

} // verus!
