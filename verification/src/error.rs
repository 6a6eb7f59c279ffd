use vstd::prelude::*;

verus! {

/// Why an operation of the library failed.
#[derive(Debug, Clone, PartialEq, Eq)]
pub enum Error {
    /// "Unable to find the movie container"
    NoMovieContainer,
    /// "Unable to get cover image"
    NoCoverImage,
    /// "Unable to get release date"
    NoReleaseDate,
    /// "Unable to get quality"
    NoQuality,
    /// "unable to get details"
    MissingDetails,
    /// "Unable to get url"
    NoUrl,
    /// "Unknown to get all movie details"
    IncompleteDetails,
    /// "Failed to execute request for the movie"
    RequestFailed,
    /// "No cookie found"
    NoCookie,
    /// "Index out of range"
    IndexOutOfRange,
    /// "Failed to parse character to digit"
    NotADigit,
    /// A one-character number that is not a decimal digit.
    InvalidDigit,
    /// "Unable to send woolty request"
    WoolySendFailed,
    /// A CSS selector that does not parse.
    InvalidSelector,
    /// A regular expression that does not compile.
    InvalidPattern,
    /// A response body that is not valid UTF-8.
    InvalidUtf8,
    /// "Failed to get the final link"
    FinalLinkFailed,
    /// "Unknown error occurred"
    Unknown,
    /// "Unable to get redirect url"
    NoRedirect,
    /// An error reported by the transfer, with its text.
    Transport(String),
}

} // verus!
