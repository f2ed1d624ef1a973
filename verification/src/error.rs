//! The crate-level error taxonomy. Variants that in a running program carry
//! an I/O, HTTP or feed library error hold that error's message text here,
//! so that the type stays plain data.

use vstd::prelude::*;

use crate::options::QueryError;

verus! {

/// Everything that can go wrong around a dump run.
#[derive(Debug, Clone, PartialEq, Eq)]
pub enum RssDumpError {
    /// A file-system or I/O failure, by message.
    TokioIo(String),
    NotEnoughFreeSpace { required: u64, available: u64 },
    /// A feed-library failure, by message.
    Rss(String),
    /// A number that should have been a count or a size was malformed.
    ParseInt(String),
    OutputIsDirectory(String),
    OutputDirIsNotReadable(String),
    OutputDirIsNotWritable(String),
    Query(QueryError),
    /// An HTTP-client failure, by message.
    Reqwest(String),
    RssChannelBuilder(String),
}

impl From<QueryError> for RssDumpError {
    fn from(error: QueryError) -> (r: Self) {
        RssDumpError::Query(error)
    }
}

impl vstd::std_specs::convert::FromSpecImpl<QueryError> for RssDumpError {
    open spec fn obeys_from_spec() -> bool {
        true
    }

    open spec fn from_spec(error: QueryError) -> Self {
        RssDumpError::Query(error)
    }
}

impl From<String> for RssDumpError {
    fn from(error: String) -> (r: Self) {
        RssDumpError::RssChannelBuilder(error)
    }
}

impl vstd::std_specs::convert::FromSpecImpl<String> for RssDumpError {
    open spec fn obeys_from_spec() -> bool {
        true
    }

    open spec fn from_spec(error: String) -> Self {
        RssDumpError::RssChannelBuilder(error)
    }
}

} // verus!
