//! What can go wrong while a test suite is generated.

use vstd::prelude::*;

verus! {

/// Why a configuration is refused.
#[derive(Clone, Copy, Debug, PartialEq, Eq, Structural)]
pub enum ConfigError {
    /// `#` is there, but no attribute list follows it.
    MissingAttributes,
    /// `async` is there, but no attribute was given.
    AsyncWithoutAttributes,
    /// `for` is there, but no extension list follows it.
    MissingExtensions,
    /// The keyword `in` is missing before the path.
    MissingIn,
    /// No path follows the keyword `in`.
    MissingPath,
    /// `as` is there, but no module name follows it.
    MissingModule,
    /// `=>` is missing before the function to call.
    MissingArrow,
    /// No function to call follows `=>`.
    MissingFunction,
}

/// Why no test suite was generated.
#[derive(Debug, PartialEq, Eq)]
pub enum Error {
    /// The configuration is malformed.
    Configuration(ConfigError),
    /// The root is no directory.
    InvalidRoot,
    /// An entry on disk is neither a regular file nor a directory.
    UnsupportedEntry { name: String },
    /// A stem lacks the file of one of the extensions asked for.
    MissingExpectedFile { stem: String, extension: String },
    /// A file of the tree is not among the files of its directory.
    MissingFile { name: String },
}

/// An [`Error`] with its texts as sequences of characters.
pub ghost enum ErrorView {
    Configuration(ConfigError),
    InvalidRoot,
    UnsupportedEntry { name: Seq<char> },
    MissingExpectedFile { stem: Seq<char>, extension: Seq<char> },
    MissingFile { name: Seq<char> },
}

impl View for Error {
    type V = ErrorView;

    open spec fn view(&self) -> ErrorView {
        match self {
            Error::Configuration(e) => ErrorView::Configuration(*e),
            Error::InvalidRoot => ErrorView::InvalidRoot,
            Error::UnsupportedEntry { name } => ErrorView::UnsupportedEntry { name: name@ },
            Error::MissingExpectedFile { stem, extension } => ErrorView::MissingExpectedFile {
                stem: stem@,
                extension: extension@,
            },
            Error::MissingFile { name } => ErrorView::MissingFile { name: name@ },
        }
    }
}

} // verus!
