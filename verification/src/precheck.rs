//! The check, made before anything is written, that the destination volume
//! has room for the merged archive.

use crate::error::MergeError;
use crate::format::{human, human_text};
use crate::text::{push_text, text_of};
use crate::totals::SizeTotals;
use vstd::prelude::*;

verus! {

/// How entries are written to the destination.
#[derive(Clone, Copy, Debug, PartialEq, Eq, Structural)]
pub enum CompressionMode {
    /// Entries are stored as they are.
    Store,
    /// Entries are compressed again.
    Deflate,
}

/// What is known of the free space on the destination volume.
#[derive(Clone, Copy, Debug, PartialEq, Eq, Structural)]
pub enum FreeSpace {
    /// The volume has this many bytes free.
    Known(u64),
    /// The system could not tell.
    Unknown,
}

/// The space that the merge may need, in ten-thousandths of a byte.
///
/// Stored entries take their size and 5% for the container. Compressed
/// entries are taken to need a quarter more than they take in their source
/// archives, but never more than their contents, and 10% on top of that.
pub open spec fn required_scaled(totals: SizeTotals, mode: CompressionMode) -> nat {
    match mode {
        CompressionMode::Store => (totals.overall_uncompressed_total * 10500) as nat,
        CompressionMode::Deflate => {
            let grown = totals.overall_compressed_total * 125;
            let cap = totals.overall_uncompressed_total * 100;
            if grown > cap {
                (cap * 110) as nat
            } else {
                (grown * 110) as nat
            }
        },
    }
}

/// The space that the merge may need, in whole bytes, rounded up.
pub open spec fn required_bytes(totals: SizeTotals, mode: CompressionMode) -> nat {
    (required_scaled(totals, mode) + 9999) / 10000
}

/// Whether the merge may start: the free space is unknown, or the space
/// needed does not exceed it.
pub open spec fn space_suffices(totals: SizeTotals, mode: CompressionMode, free: FreeSpace) -> bool {
    match free {
        FreeSpace::Known(available) => required_scaled(totals, mode) <= available * 10000,
        FreeSpace::Unknown => true,
    }
}

/// The name of the mode in messages.
pub open spec fn mode_label(mode: CompressionMode) -> Seq<char> {
    match mode {
        CompressionMode::Store => "store (no compression)"@,
        CompressionMode::Deflate => "deflate (recompression)"@,
    }
}

/// The message that reports too little free space in `dir`.
pub open spec fn space_message_text(
    dir: Seq<char>,
    required: u64,
    available: u64,
    mode: CompressionMode,
) -> Seq<char> {
    "ERROR: Not enough free space in "@ + dir + ". Need ~"@ + human_text(required as nat)
        + " (mode="@ + mode_label(mode) + "), free "@ + human_text(available as nat) + "."@
}

/// Comparing the space needed with a whole number of free bytes gives the
/// same answer before and after rounding up to whole bytes.
pub proof fn lemma_rounding_keeps_verdict(totals: SizeTotals, mode: CompressionMode, available: u64)
    ensures
        space_suffices(totals, mode, FreeSpace::Known(available)) <==> required_bytes(totals, mode)
            <= available,
{
}

/// The space that the merge may need, in ten-thousandths of a byte.
fn scaled_need(totals: &SizeTotals, mode: CompressionMode) -> (n: u128)
    ensures
        n == required_scaled(*totals, mode),
        n <= 0xffff_ffff_ffff_ffff * 13750,
{
    match mode {
        CompressionMode::Store => (totals.overall_uncompressed_total as u128) * 10500,
        CompressionMode::Deflate => {
            let grown: u128 = (totals.overall_compressed_total as u128) * 125;
            let cap: u128 = (totals.overall_uncompressed_total as u128) * 100;
            if grown > cap {
                cap * 110
            } else {
                grown * 110
            }
        },
    }
}

/// The space that the merge may need, in whole bytes, rounded up. A need
/// beyond 64 bits is given as the largest 64-bit number.
pub fn required_space(totals: &SizeTotals, mode: CompressionMode) -> (need: u64)
    ensures
        need == if required_bytes(*totals, mode) > u64::MAX {
            u64::MAX as nat
        } else {
            required_bytes(*totals, mode)
        },
{
    let bytes: u128 = (scaled_need(totals, mode) + 9999) / 10000;
    if bytes > u64::MAX as u128 {
        u64::MAX
    } else {
        bytes as u64
    }
}

/// Decides whether the merge may start.
///
/// With the free space unknown the check is passed over. With a known
/// amount the merge is refused exactly when it may need more; the error
/// carries the need, in whole bytes, and what is free.
pub fn disk_precheck(totals: &SizeTotals, mode: CompressionMode, free: FreeSpace) -> (r: Result<
    (),
    MergeError,
>)
    ensures
        r is Ok <==> space_suffices(*totals, mode, free),
        r is Err ==> free is Known && r == Err::<(), MergeError>(
            MergeError::InsufficientSpace {
                required: if required_bytes(*totals, mode) > u64::MAX {
                    u64::MAX
                } else {
                    required_bytes(*totals, mode) as u64
                },
                available: free->Known_0,
            },
        ),
{
    match free {
        FreeSpace::Unknown => Ok(()),
        FreeSpace::Known(available) => {
            let need = scaled_need(totals, mode);
            if need > (available as u128) * 10000 {
                Err(
                    MergeError::InsufficientSpace {
                        required: required_space(totals, mode),
                        available,
                    },
                )
            } else {
                Ok(())
            }
        },
    }
}

/// The message that reports too little free space in `dir`, with the need
/// and the free space in binary units.
pub fn space_message(dir: &str, required: u64, available: u64, mode: CompressionMode) -> (line:
    String)
    ensures
        line@ == space_message_text(dir@, required, available, mode),
{
    let mut out: Vec<char> = Vec::new();
    push_text(&mut out, "ERROR: Not enough free space in ");
    push_text(&mut out, dir);
    push_text(&mut out, ". Need ~");
    push_text(&mut out, human(required).as_str());
    push_text(&mut out, " (mode=");
    push_text(&mut out, mode.label());
    push_text(&mut out, "), free ");
    push_text(&mut out, human(available).as_str());
    push_text(&mut out, ".");
    text_of(&out)
}

impl FreeSpace {
    /// Reads the answer of a free-space query that reports zero where it
    /// cannot tell: zero is taken as unknown.
    pub fn from_query(bytes: u64) -> (free: FreeSpace)
        ensures
            free == if bytes == 0 {
                FreeSpace::Unknown
            } else {
                FreeSpace::Known(bytes)
            },
    {
        if bytes == 0 {
            FreeSpace::Unknown
        } else {
            FreeSpace::Known(bytes)
        }
    }
}

impl CompressionMode {
    /// The mode that the `store` switch selects.
    pub fn from_store_flag(store: bool) -> (mode: CompressionMode)
        ensures
            mode == if store {
                CompressionMode::Store
            } else {
                CompressionMode::Deflate
            },
    {
        if store {
            CompressionMode::Store
        } else {
            CompressionMode::Deflate
        }
    }

    /// The name of the mode in messages.
    pub fn label(&self) -> (s: &'static str)
        ensures
            s@ == mode_label(*self),
    {
        match self {
            CompressionMode::Store => "store (no compression)",
            CompressionMode::Deflate => "deflate (recompression)",
        }
    }
}

} // verus!
