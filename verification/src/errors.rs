//! The closed set of failures the pipeline records: file persistence
//! failures, parse failures, and page-level scrape failures. Each renders to
//! the exact text persisted in the failed-pages file.

use vstd::prelude::*;

verus! {

/// A failure attributed to one article, one file or one page.
pub enum GalnetError {
    /// Reading or writing one on-disk record failed.
    FileError { filename: String, cause: String },
    /// A selector could not be built, a page had no articles, or an article
    /// block was missing a required field.
    ParserError { cause: String },
    /// Fetching or scraping one page failed as a whole.
    ScraperError { url: String, cause: String },
}

/// The rendered text of an error, as recorded for a failed page.
pub open spec fn spec_error_text(e: &GalnetError) -> Seq<char> {
    match e {
        GalnetError::FileError { filename, cause } => "Error while scraping from \""@ + filename@
            + "\": "@ + cause@,
        GalnetError::ParserError { cause } => "Error while parsing: "@ + cause@,
        GalnetError::ScraperError { url, cause } => "Error while scraping from \""@ + url@
            + "\": "@ + cause@,
    }
}

impl GalnetError {
    /// Renders the error to the text recorded for a failed page.
    pub fn to_string(&self) -> (r: String)
        ensures
            r@ == spec_error_text(self),
    {
        match self {
            GalnetError::FileError { filename, cause } => "Error while scraping from \""
                .to_owned()
                .concat(filename.as_str())
                .concat("\": ")
                .concat(cause.as_str()),
            GalnetError::ParserError { cause } => "Error while parsing: ".to_owned().concat(
                cause.as_str(),
            ),
            GalnetError::ScraperError { url, cause } => "Error while scraping from \""
                .to_owned()
                .concat(url.as_str())
                .concat("\": ")
                .concat(cause.as_str()),
        }
    }
}

} // verus!
