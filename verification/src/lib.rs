//! Runtime localization: a string table resolved by identifier and language
//! with one fallback language, and positional placeholder substitution.

use crate::config::Settings;
use crate::format::formatted;
use crate::language::{language_tag_canonical, DEFAULT_LANGUAGE};
use crate::table::{resolve, StringTable};
use crate::text::texts;
use vstd::prelude::*;
use vstd::string::*;

pub mod config;
pub mod decimal;
pub mod format;
pub mod language;
pub mod table;
pub mod text;

verus! {

/// What the error of a failed resolution says.
pub const NOT_FOUND_MESSAGE: &'static str = "String not found";

/// No template resolves for the identifier, in the requested language or
/// in the default one.
#[derive(Debug)]
pub struct NotFound {
    /// The identifier that was asked for.
    pub id: String,
}

impl NotFound {
    /// The text of the error.
    pub fn message(&self) -> (res: String)
        ensures
            res@ == NOT_FOUND_MESSAGE@,
    {
        String::from_str(NOT_FOUND_MESSAGE)
    }
}

/// The template that `id` resolves to in the language of the settings,
/// with the default language as the fallback.
pub open spec fn localized(table: &StringTable, settings: &Settings, id: Seq<char>) -> Option<
    Seq<char>,
> {
    resolve(table@, id, settings.language@, language_tag_canonical(DEFAULT_LANGUAGE@))
}

/// Localizes `id` in the language of the settings: the resolved template,
/// unchanged, or `NotFound` with the identifier where none resolves.
pub fn localize(table: &StringTable, settings: &Settings, id: &str) -> (res: Result<
    String,
    NotFound,
>)
    ensures
        match res {
            Ok(text) => localized(table, settings, id@) == Some(text@),
            Err(e) => localized(table, settings, id@) is None && e.id@ == id@,
        },
{
    match table.get(id, &settings.language) {
        Some(value) => Ok(value),
        None => Err(NotFound { id: String::from_str(id) }),
    }
}

/// Localizes `id` in the language of the settings and substitutes `args`
/// for the placeholders of the resolved template.
pub fn localize_format(
    table: &StringTable,
    settings: &Settings,
    id: &str,
    args: &[String],
) -> (res: Result<String, NotFound>)
    ensures
        match res {
            Ok(text) => {
                &&& localized(table, settings, id@) matches Some(template)
                &&& text@ == formatted(template, texts(args@))
            },
            Err(e) => localized(table, settings, id@) is None && e.id@ == id@,
        },
{
    match localize(table, settings, id) {
        Ok(preformat) => Ok(crate::format::format(preformat.as_str(), args)),
        Err(e) => Err(e),
    }
}

} // verus!
