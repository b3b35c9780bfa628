//! Settings, the errors of loading, and the choice of the folder that holds
//! the configuration documents.

use crate::language::LanguageTag;
use vstd::prelude::*;
use vstd::string::*;

verus! {

/// The folder of the configuration documents, beside the running program.
pub const LOCAL_ROOT: &'static str = "Configs";

/// The folder of the configuration documents, two levels up.
pub const OUTER_ROOT: &'static str = "../../Configs";

/// What the error says when neither folder exists.
pub const MISSING_ROOT_MESSAGE: &'static str = "Configs folder not found";

/// What an error of no known cause says.
pub const UNKNOWN_MESSAGE: &'static str = "Unknown load config error";

/// Why a configuration document could not be loaded.
#[derive(Debug)]
pub enum LoadConfigError {
    /// The document, or the folder it lies in, could not be read.
    FileNotFound(String),
    /// The document does not have the expected shape.
    ParseFailure(String),
    /// Anything else.
    Unknown,
}

impl LoadConfigError {
    /// The text of the error: the cause's own words where there is a cause.
    pub open spec fn message_text(&self) -> Seq<char> {
        match self {
            LoadConfigError::FileNotFound(m) => m@,
            LoadConfigError::ParseFailure(m) => m@,
            LoadConfigError::Unknown => UNKNOWN_MESSAGE@,
        }
    }

    /// The text of the error.
    pub fn message(&self) -> (res: String)
        ensures
            res@ == self.message_text(),
    {
        match self {
            LoadConfigError::FileNotFound(m) => m.clone(),
            LoadConfigError::ParseFailure(m) => m.clone(),
            LoadConfigError::Unknown => String::from_str(UNKNOWN_MESSAGE),
        }
    }
}

/// The settings of a request: the language it wants.
#[derive(Debug)]
pub struct Settings {
    pub language: LanguageTag,
}

/// The folder that `get_config_path_root` picks: the local one where it
/// exists, else the outer one where that exists, else none.
pub open spec fn chosen_root(local_exists: bool, outer_exists: bool) -> Option<Seq<char>> {
    if local_exists {
        Some(LOCAL_ROOT@)
    } else if outer_exists {
        Some(OUTER_ROOT@)
    } else {
        None
    }
}

/// Picks the folder of the configuration documents, given which of the two
/// candidates exist. Fails, as for a missing file, where neither does.
pub fn get_config_path_root(local_exists: bool, outer_exists: bool) -> (res: Result<
    String,
    LoadConfigError,
>)
    ensures
        match res {
            Ok(root) => chosen_root(local_exists, outer_exists) == Some(root@),
            Err(e) => {
                &&& chosen_root(local_exists, outer_exists) is None
                &&& e matches LoadConfigError::FileNotFound(m)
                &&& m@ == MISSING_ROOT_MESSAGE@
            },
        },
{
    if local_exists {
        Ok(String::from_str(LOCAL_ROOT))
    } else if outer_exists {
        Ok(String::from_str(OUTER_ROOT))
    } else {
        Err(LoadConfigError::FileNotFound(String::from_str(MISSING_ROOT_MESSAGE)))
    }
}

} // verus!
