//! Decoding the three parallel per-frame streams into typed records.
//!
//! Each stream is a sequence of 8-byte little-endian unsigned words,
//! one per physical page frame, index = frame number.  The three
//! streams are read in lockstep; a tail past the shortest stream is
//! dropped silently.  A flag word with a bit outside the known
//! vocabulary aborts the whole decode.

use vstd::bytes::spec_u64_from_le_bytes;
use vstd::bytes::u64_from_le_bytes;
use vstd::prelude::*;
use vstd::slice::slice_subrange;

use crate::flags::PageFlags;
use crate::flags::valid_bits;

verus! {

/// One record per physical page frame.
#[derive(Clone, Copy, PartialEq, Eq, Structural, Debug)]
pub struct Page {
    /// Number of page-table mappings referencing this frame.
    pub times_mapped: u64,
    /// Inode of the owning control group, 0 if none.
    pub cgroup_inode: u64,
    /// The frame's page-state flags.
    pub flags: PageFlags,
}

/// A flag word whose bit pattern falls outside the known vocabulary:
/// the offending pattern and the frame index at which it occurred.
#[derive(Clone, Copy, PartialEq, Eq, Structural, Debug)]
pub struct DecodeError {
    /// The raw flag word that failed validation.
    pub bits: u64,
    /// The frame index (physical frame number) it was read at.
    pub pfn: usize,
}

impl DecodeError {
    /// The rendering of this error: the offending pattern as a binary
    /// literal and the frame index it was read at.
    pub open spec fn message_chars(self) -> Seq<char> {
        "wrong flags: "@ + crate::text::binary_literal_chars(self.bits as nat) + " at PFN "@
            + crate::text::decimal_chars(self.pfn as nat)
    }

    /// Render the error message.
    pub fn message(self) -> (r: String)
        ensures
            r@ == self.message_chars(),
    {
        let mut r = String::from_str("wrong flags: ");
        r.append(crate::text::binary_literal_string(self.bits).as_str());
        r.append(" at PFN ");
        r.append(crate::text::decimal_string(self.pfn as u64).as_str());
        proof {
            assert(r@ =~= self.message_chars());
        }
        r
    }
}

/// The number of whole 8-byte records the three buffers describe: the
/// minimum of the three buffer-derived counts.
pub open spec fn record_count(counts: Seq<u8>, cgroups: Seq<u8>, flags: Seq<u8>) -> int {
    vstd::math::min(
        counts.len() as int / 8,
        vstd::math::min(cgroups.len() as int / 8, flags.len() as int / 8),
    )
}

/// The `i`-th 8-byte little-endian word of a buffer.
pub open spec fn word_at(buf: Seq<u8>, i: int) -> u64 {
    spec_u64_from_le_bytes(buf.subrange(8 * i, 8 * i + 8))
}

/// The record the three buffers describe at frame index `i`.
pub open spec fn record_at(counts: Seq<u8>, cgroups: Seq<u8>, flags: Seq<u8>, i: int) -> Page {
    Page {
        times_mapped: word_at(counts, i),
        cgroup_inode: word_at(cgroups, i),
        flags: PageFlags { bits: word_at(flags, i) },
    }
}

/// The whole record sequence the three buffers describe.
pub open spec fn records_of(counts: Seq<u8>, cgroups: Seq<u8>, flags: Seq<u8>) -> Seq<Page> {
    Seq::new(
        record_count(counts, cgroups, flags) as nat,
        |i: int| record_at(counts, cgroups, flags, i),
    )
}

/// Read the `i`-th 8-byte little-endian word of `buf`.
fn read_word(buf: &[u8], i: usize) -> (r: u64)
    requires
        8 * i + 8 <= buf@.len(),
    ensures
        r == word_at(buf@, i as int),
{
    let len: usize = buf.len();
    assert(8 * i + 8 <= len);
    let chunk = slice_subrange(buf, 8 * i, 8 * i + 8);
    u64_from_le_bytes(chunk)
}

/// Decode the three buffers into one record per frame, in ascending
/// frame order.
///
/// Succeeds if and only if every flag word of the first
/// `record_count` frames lies entirely within the known vocabulary; on
/// failure the error names the first offending word and its frame
/// index, and no records are returned.
pub fn decode_records(counts: &[u8], cgroups: &[u8], flags: &[u8]) -> (r: Result<
    Vec<Page>,
    DecodeError,
>)
    ensures
        ({
            let n = record_count(counts@, cgroups@, flags@);
            match r {
                Ok(pages) => {
                    &&& pages@.len() == n
                    &&& pages@ == records_of(counts@, cgroups@, flags@)
                    &&& forall|i: int|
                        0 <= i < n ==> pages@[i] == record_at(counts@, cgroups@, flags@, i)
                    &&& forall|i: int| 0 <= i < n ==> valid_bits(word_at(flags@, i))
                },
                Err(e) => {
                    &&& 0 <= e.pfn < n
                    &&& e.bits == word_at(flags@, e.pfn as int)
                    &&& !valid_bits(e.bits)
                    &&& forall|i: int| 0 <= i < e.pfn ==> valid_bits(word_at(flags@, i))
                },
            }
        }),
{
    let n1: usize = counts.len() / 8;
    let n2: usize = cgroups.len() / 8;
    let n3: usize = flags.len() / 8;
    let mut n: usize = n1;
    if n2 < n {
        n = n2;
    }
    if n3 < n {
        n = n3;
    }
    assert(n == record_count(counts@, cgroups@, flags@));
    let mut pages: Vec<Page> = Vec::new();
    let mut i: usize = 0;
    while i < n
        invariant
            0 <= i <= n,
            n == record_count(counts@, cgroups@, flags@),
            8 * n <= counts@.len(),
            8 * n <= cgroups@.len(),
            8 * n <= flags@.len(),
            pages@.len() == i,
            forall|j: int| 0 <= j < i ==> pages@[j] == record_at(counts@, cgroups@, flags@, j),
            forall|j: int| 0 <= j < i ==> valid_bits(word_at(flags@, j)),
        decreases n - i,
    {
        let times_mapped = read_word(counts, i);
        let cgroup_inode = read_word(cgroups, i);
        let flag_bits = read_word(flags, i);
        match PageFlags::from_bits(flag_bits) {
            Some(f) => {
                pages.push(
                    Page { times_mapped, cgroup_inode, flags: f },
                );
            },
            None => {
                return Err(DecodeError { bits: flag_bits, pfn: i });
            },
        }
        i = i + 1;
    }
    proof {
        assert(pages@ =~= records_of(counts@, cgroups@, flags@));
    }
    Ok(pages)
}

} // verus!
