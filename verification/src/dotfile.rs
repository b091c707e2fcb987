//! The configuration file, as far as the library reads it.

use crate::error::AppError;
use vstd::prelude::*;

verus! {

/// Where the audio files are.
#[derive(Debug, PartialEq, Eq)]
pub struct LibrarySubSchema {
    pub root: String,
}

/// General settings.
#[derive(Debug, PartialEq, Eq)]
pub struct GeneralSubSchema {
    pub use_mpd: bool,
}

/// Where the playback daemon listens.
#[derive(Debug, PartialEq, Eq)]
pub struct MpdSubSchema {
    pub addr: String,
    pub port: u16,
}

/// What the configuration file holds.
#[derive(Debug, PartialEq, Eq)]
pub struct DotfileSchema {
    pub general: GeneralSubSchema,
    pub library: Option<LibrarySubSchema>,
    pub mpd: Option<MpdSubSchema>,
}

impl DotfileSchema {
    /// The root directory of the library. A configuration without a
    /// library is a bad one.
    pub fn library_root(&self) -> (r: Result<String, AppError>)
        ensures
            match self.library {
                Some(library) => r matches Ok(root) && root@ == library.root@,
                None => r == Err::<String, AppError>(AppError::BadConfig),
            },
    {
        match &self.library {
            Some(library) => Ok(library.root.clone()),
            None => Err(AppError::BadConfig),
        }
    }
}

} // verus!
