//! Error values shared by the site-specific parsers.

use vstd::prelude::*;

verus! {

/// What went wrong while turning a fetched page into structured records.
#[derive(Debug, Clone)]
pub enum Error {
    /// An HTML selector was malformed, or a required element was missing.
    ParseHtmlSelector(String),
}

impl Error {
    /// The human-readable detail carried by the error.
    pub fn detail(&self) -> (m: &String)
        ensures
            m@ == self.detail_view(),
    {
        match self {
            Error::ParseHtmlSelector(m) => m,
        }
    }

    pub open spec fn detail_view(&self) -> Seq<char> {
        match self {
            Error::ParseHtmlSelector(m) => m@,
        }
    }
}

} // verus!
