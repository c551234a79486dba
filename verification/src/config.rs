//! What a run is asked to do.

use crate::util::{
    collected, header_entries, is_web_url, outcome_fits, parse_raw_headers, url_is_ok, verdicts,
    RequestHeaders, ASSURED_ROOM,
};
use vstd::prelude::*;

verus! {

/// Where the source map is, and how to ask for it.
#[derive(Debug, PartialEq, Eq)]
pub struct Config {
    /// The location of the source map: a web address or a local path.
    pub uri: String,
    /// The proxy to fetch through.
    pub proxy: Option<String>,
    /// Raw `Name: value` headers to send along.
    pub headers: Vec<String>,
}

impl Config {
    /// Whether the source map is fetched from the web. Otherwise it is read
    /// from the local path that `uri` is then taken for.
    pub fn is_remote(&self) -> (remote: bool)
        ensures
            remote == is_web_url(self.uri@),
    {
        url_is_ok(self.uri.as_str())
    }

    /// The headers of the request, built from the raw ones.
    pub fn request_headers(&self) -> (headers: RequestHeaders)
        ensures
            headers.outcomes@.len() == self.headers@.len(),
            forall|i: int|
                0 <= i < self.headers@.len() ==> outcome_fits(
                    self.headers@[i]@,
                    #[trigger] headers.outcomes@[i],
                ),
            self.headers@.len() <= ASSURED_ROOM ==> headers.outcomes@ == verdicts(self.headers@),
            header_entries(headers.map) == collected(self.headers@, headers.outcomes@),
    {
        parse_raw_headers(self.headers.as_slice())
    }
}

/// A run: where the source map is, and where its files go.
#[derive(Debug, PartialEq, Eq)]
pub struct Cli {
    pub config: Config,
    /// The directory under which the files are written.
    pub output: String,
}

} // verus!
