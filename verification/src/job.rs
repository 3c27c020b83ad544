//! What one run is asked to do.

use crate::precheck::CompressionMode;
use crate::text::{push_text, text_of};
use vstd::prelude::*;

verus! {

/// The settings of one run. They do not change while it lasts.
#[derive(Debug)]
pub struct MergeJob {
    /// The directory that holds the source archives.
    pub input: String,
    /// The directory for the merged archive; empty for the default.
    pub outdir: String,
    /// The name of the merged archive, without `.zip`.
    pub out: String,
    /// The glob pattern that a source archive's name must match.
    pub filter: String,
    /// Whether entries are stored without compression.
    pub store: bool,
    /// The size of the copy buffer in MiB.
    pub chunk: usize,
    /// Whether every entry goes under a folder named after its archive.
    pub prefix_by_zip: bool,
    /// The size of the parts to split the merged archive into; empty for no
    /// split.
    pub split: String,
    /// Whether the merged archive is removed once it is split.
    pub rm_after_split: bool,
}

/// The directory for the merged archive: the one asked for, or the input
/// directory's path with `_output` behind it.
pub open spec fn output_dir_text(input: Seq<char>, outdir: Seq<char>) -> Seq<char> {
    if outdir.len() == 0 {
        input + "_output"@
    } else {
        outdir
    }
}

/// The number of bytes in a copy buffer of `chunk` MiB; a buffer of zero
/// MiB is made one MiB.
pub open spec fn buffer_bytes(chunk: nat) -> nat {
    if chunk == 0 {
        0x10_0000
    } else {
        chunk * 0x10_0000
    }
}

impl MergeJob {
    /// The directory for the merged archive.
    pub fn output_dir(&self) -> (dir: String)
        ensures
            dir@ == output_dir_text(self.input@, self.outdir@),
    {
        let mut out: Vec<char> = Vec::new();
        if self.outdir.as_str().is_empty() {
            push_text(&mut out, self.input.as_str());
            push_text(&mut out, "_output");
        } else {
            push_text(&mut out, self.outdir.as_str());
        }
        text_of(&out)
    }

    /// The file name of the merged archive: its name and `.zip`.
    pub fn output_file_name(&self) -> (name: String)
        ensures
            name@ == self.out@ + ".zip"@,
    {
        let mut out: Vec<char> = Vec::new();
        push_text(&mut out, self.out.as_str());
        push_text(&mut out, ".zip");
        text_of(&out)
    }

    /// How entries are written to the destination.
    pub fn mode(&self) -> (mode: CompressionMode)
        ensures
            mode == if self.store {
                CompressionMode::Store
            } else {
                CompressionMode::Deflate
            },
    {
        CompressionMode::from_store_flag(self.store)
    }

    /// The number of bytes in the copy buffer, or `None` where it does not
    /// fit the machine's address range.
    pub fn buffer_len(&self) -> (len: Option<usize>)
        ensures
            len is Some <==> buffer_bytes(self.chunk as nat) <= usize::MAX,
            len matches Some(n) ==> n == buffer_bytes(self.chunk as nat),
    {
        let chunk: usize = if self.chunk == 0 {
            1
        } else {
            self.chunk
        };
        chunk.checked_mul(0x10_0000)
    }

    /// Whether the merged archive is split into parts.
    pub fn wants_split(&self) -> (b: bool)
        ensures
            b == (self.split@.len() > 0),
    {
        !self.split.as_str().is_empty()
    }
}

} // verus!
