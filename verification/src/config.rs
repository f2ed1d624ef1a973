//! Run configuration: the output location, the concurrency limit, the feed
//! reference and the retry timeout. File-system probes (does the output
//! exist, what are its permission bits) are performed by the caller and
//! handed in as plain values.

use vstd::prelude::*;

use crate::error::RssDumpError;
use crate::utils::{is_path_readable, is_path_writable, mode_readable, mode_writable};

verus! {

/// Configuration of one dump run.
#[derive(Debug, Clone)]
pub struct DumpConfig {
    pub output: String,
    pub n_downloads: usize,
    pub timeout: usize,
    pub feed: String,
    pub output_is_file: bool,
}

impl DumpConfig {
    /// A configuration whose output location is a directory.
    pub fn new_output_is_dir(
        output_path: &str,
        n_downloads: usize,
        feed: &str,
        timeout: usize,
    ) -> (c: Self)
        ensures
            c.output@ == output_path@,
            c.n_downloads == n_downloads,
            c.feed@ == feed@,
            c.timeout == timeout,
            !c.output_is_file,
    {
        DumpConfig {
            output: output_path.to_owned(),
            n_downloads,
            feed: feed.to_owned(),
            timeout,
            output_is_file: false,
        }
    }

    /// A configuration whose output location is a file. `output_is_directory`
    /// reports the caller's probe of the path; a directory there is an error.
    pub fn new_output_is_file(
        output_path: &str,
        n_downloads: usize,
        feed: &str,
        timeout: usize,
        output_is_directory: bool,
    ) -> (r: Result<Self, RssDumpError>)
        ensures
            output_is_directory ==> (r matches Err(RssDumpError::OutputIsDirectory(p)) && p@
                == output_path@),
            !output_is_directory ==> (r matches Ok(c) && c.output@ == output_path@
                && c.n_downloads == n_downloads && c.feed@ == feed@ && c.timeout == timeout
                && c.output_is_file),
    {
        if output_is_directory {
            Err(RssDumpError::OutputIsDirectory(output_path.to_owned()))
        } else {
            Ok(DumpConfig {
                output: output_path.to_owned(),
                n_downloads,
                feed: feed.to_owned(),
                timeout,
                output_is_file: true,
            })
        }
    }

    /// Whether the output directory's probed permission mode grants read
    /// access.
    pub fn is_output_dir_read(&self, mode: u32) -> (r: bool)
        ensures
            r == mode_readable(mode),
    {
        is_path_readable(mode)
    }

    /// Whether the output directory's probed permission mode grants write
    /// access.
    pub fn is_output_dir_write(&self, mode: u32) -> (r: bool)
        ensures
            r == mode_writable(mode),
    {
        is_path_writable(mode)
    }

    /// The output location, for display.
    pub fn get_output_display(&self) -> (r: String)
        ensures
            r@ == self.output@,
    {
        self.output.clone()
    }

    /// The output location.
    pub fn get_output(&self) -> (r: &str)
        ensures
            r@ == self.output@,
    {
        self.output.as_str()
    }

    /// The concurrency limit for downloads.
    pub fn get_n_downloads(&self) -> (r: usize)
        ensures
            r == self.n_downloads,
    {
        self.n_downloads
    }

    /// The feed reference this run was asked to dump.
    pub fn get_feed(&self) -> (r: &str)
        ensures
            r@ == self.feed@,
    {
        self.feed.as_str()
    }
}

} // verus!
