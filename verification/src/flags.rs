//! The fixed vocabulary of page-state flag bits and the bitset type
//! built over it.
//!
//! The vocabulary is a sparse assignment of names to bit positions in a
//! 64-bit word, fixed at build time.  A raw flag word is valid exactly
//! when every set bit is one of the named positions.

use vstd::prelude::*;

verus! {

pub const LOCKED: u64 = 1u64 << 0;

pub const ERROR: u64 = 1u64 << 1;

pub const REFERENCED: u64 = 1u64 << 2;

pub const UPTODATE: u64 = 1u64 << 3;

pub const DIRTY: u64 = 1u64 << 4;

pub const LRU: u64 = 1u64 << 5;

pub const ACTIVE: u64 = 1u64 << 6;

pub const SLAB: u64 = 1u64 << 7;

pub const WRITEBACK: u64 = 1u64 << 8;

pub const RECLAIM: u64 = 1u64 << 9;

pub const BUDDY: u64 = 1u64 << 10;

pub const MMAP: u64 = 1u64 << 11;

pub const ANON: u64 = 1u64 << 12;

pub const SWAPCACHE: u64 = 1u64 << 13;

pub const SWAPBACKED: u64 = 1u64 << 14;

pub const COMPOUND_HEAD: u64 = 1u64 << 15;

pub const COMPOUND_TAIL: u64 = 1u64 << 16;

pub const HUGE: u64 = 1u64 << 17;

pub const UNEVICTABLE: u64 = 1u64 << 18;

pub const HWPOISON: u64 = 1u64 << 19;

/// The reserved "no physical page behind this slot" indicator.
pub const NOPAGE: u64 = 1u64 << 20;

pub const KSM: u64 = 1u64 << 21;

pub const THP: u64 = 1u64 << 22;

pub const BALLOON: u64 = 1u64 << 23;

pub const ZERO_PAGE: u64 = 1u64 << 24;

pub const IDLE: u64 = 1u64 << 25;

pub const KPF_PGTABLE: u64 = 1u64 << 26;

pub const RESERVED: u64 = 1u64 << 32;

pub const MLOCKED: u64 = 1u64 << 33;

pub const MAPPEDTODISK: u64 = 1u64 << 34;

pub const PRIVATE: u64 = 1u64 << 35;

pub const PRIVATE_2: u64 = 1u64 << 36;

pub const OWNER_PRIVATE: u64 = 1u64 << 37;

pub const ARCH: u64 = 1u64 << 38;

pub const UNCACHED: u64 = 1u64 << 39;

pub const SOFTDIRTY: u64 = 1u64 << 40;

pub const READAHEAD: u64 = 1u64 << 48;

pub const SLOB_FREE: u64 = 1u64 << 49;

pub const SLUB_FROZEN: u64 = 1u64 << 50;

pub const SLUB_DEBUG: u64 = 1u64 << 51;

pub const FILE: u64 = 1u64 << 61;

pub const SWAP: u64 = 1u64 << 62;

pub const MMAP_EXCLUSIVE: u64 = 1u64 << 63;

/// Every named bit position, OR-ed together: the whole vocabulary.
pub const KNOWN_MASK: u64 = LOCKED | ERROR | REFERENCED | UPTODATE | DIRTY | LRU | ACTIVE | SLAB
    | WRITEBACK | RECLAIM | BUDDY | MMAP | ANON | SWAPCACHE | SWAPBACKED | COMPOUND_HEAD
    | COMPOUND_TAIL | HUGE | UNEVICTABLE | HWPOISON | NOPAGE | KSM | THP | BALLOON | ZERO_PAGE
    | IDLE | KPF_PGTABLE | RESERVED | MLOCKED | MAPPEDTODISK | PRIVATE | PRIVATE_2
    | OWNER_PRIVATE | ARCH | UNCACHED | SOFTDIRTY | READAHEAD | SLOB_FREE | SLUB_FROZEN
    | SLUB_DEBUG | FILE | SWAP | MMAP_EXCLUSIVE;

/// A raw flag word is valid when every set bit is in the vocabulary.
pub open spec fn valid_bits(bits: u64) -> bool {
    bits & !KNOWN_MASK == 0
}

/// Is every set bit of `bits` in the known vocabulary?
pub fn is_valid(bits: u64) -> (r: bool)
    ensures
        r == valid_bits(bits),
{
    bits & !KNOWN_MASK == 0
}

/// A set of page-state flags: a 64-bit word whose set bits all lie in
/// the known vocabulary whenever it was obtained through [`PageFlags::from_bits`].
#[derive(Clone, Copy, PartialEq, Eq, Structural, Hash, Debug)]
pub struct PageFlags {
    pub bits: u64,
}

impl PageFlags {
    /// The raw bit pattern carried by this flag set.
    pub open spec fn spec_bits(self) -> u64 {
        self.bits
    }

    /// What decoding a raw word yields: the flag set exactly when
    /// every set bit is in the known vocabulary, nothing otherwise.
    pub open spec fn spec_from_bits(bits: u64) -> Option<PageFlags> {
        if valid_bits(bits) {
            Some(PageFlags { bits })
        } else {
            None
        }
    }

    /// Decode a raw word, accepting it exactly when every set bit is in
    /// the known vocabulary; re-encoding an accepted word with
    /// [`PageFlags::bits`] yields the identical bit pattern.
    pub fn from_bits(bits: u64) -> (r: Option<PageFlags>)
        ensures
            r == PageFlags::spec_from_bits(bits),
    {
        if bits & !KNOWN_MASK == 0 {
            Some(PageFlags { bits })
        } else {
            None
        }
    }

    /// Re-encode the flag set as its raw bit pattern.
    pub fn bits(self) -> (r: u64)
        ensures
            r == self.bits,
    {
        self.bits
    }

    /// The empty flag set.
    pub fn empty() -> (r: PageFlags)
        ensures
            r.bits == 0,
    {
        PageFlags { bits: 0 }
    }

    /// Does this flag set share any bit with `mask`?
    pub fn intersects(self, mask: u64) -> (r: bool)
        ensures
            r == (self.bits & mask != 0),
    {
        self.bits & mask != 0
    }

    /// The set of flags standing in either of the two sets.
    pub fn union(self, other: PageFlags) -> (r: PageFlags)
        ensures
            r.bits == self.bits | other.bits,
    {
        PageFlags { bits: self.bits | other.bits }
    }

    /// Does this flag set contain every bit of `mask`?
    pub fn contains(self, mask: u64) -> (r: bool)
        ensures
            r == (self.bits & mask == mask),
    {
        self.bits & mask == mask
    }

    /// Render the flag set: the names of its named set bits in
    /// ascending bit order joined with `" | "`, or `"(empty)"` when
    /// none is set.
    pub fn describe(self) -> (r: String)
        ensures
            r@ == describe_chars(self.bits),
    {
        let mut r = String::new();
        let mut count: usize = 0;
        let mut i: u64 = 0;
        while i < 64
            invariant
                0 <= i <= 64,
                count == set_names(self.bits, i as int).len(),
                count <= i,
                r@ == join_names(set_names(self.bits, i as int)),
            decreases 64 - i,
        {
            let ghost names = set_names(self.bits, i as int);
            if (self.bits >> i) & 1u64 == 1u64 {
                match bit_name_str(i) {
                    Some(name) => {
                        proof {
                            assert(set_names(self.bits, i + 1) == names.push(
                                bit_name(i as int),
                            ));
                        }
                        if count > 0 {
                            r.append(" | ");
                            r.append(name);
                            proof {
                                assert(names.push(bit_name(i as int)).drop_last() =~= names);
                                assert(r@ =~= join_names(set_names(self.bits, i + 1)));
                            }
                        } else {
                            r.append(name);
                            proof {
                                assert(r@ =~= join_names(set_names(self.bits, i + 1)));
                            }
                        }
                        count = count + 1;
                    },
                    None => {
                        proof {
                            assert(set_names(self.bits, i + 1) == names);
                        }
                    },
                }
            } else {
                proof {
                    assert(set_names(self.bits, i + 1) == names);
                }
            }
            i = i + 1;
        }
        if count == 0 {
            proof {
                assert(set_names(self.bits, 64) =~= Seq::<Seq<char>>::empty());
            }
            String::from_str("(empty)")
        } else {
            proof {
                assert(set_names(self.bits, 64) != Seq::<Seq<char>>::empty());
            }
            r
        }
    }
}

/// Is bit position `i` one of the named positions of the vocabulary?
pub open spec fn bit_is_named(i: int) -> bool {
    (0 <= i <= 26) || (32 <= i <= 40) || (48 <= i <= 51) || (61 <= i <= 63)
}

/// The name of bit position `i`, empty for an unnamed position.
pub open spec fn bit_name(i: int) -> Seq<char> {
    if i == 0 {
        "LOCKED"@
    } else if i == 1 {
        "ERROR"@
    } else if i == 2 {
        "REFERENCED"@
    } else if i == 3 {
        "UPTODATE"@
    } else if i == 4 {
        "DIRTY"@
    } else if i == 5 {
        "LRU"@
    } else if i == 6 {
        "ACTIVE"@
    } else if i == 7 {
        "SLAB"@
    } else if i == 8 {
        "WRITEBACK"@
    } else if i == 9 {
        "RECLAIM"@
    } else if i == 10 {
        "BUDDY"@
    } else if i == 11 {
        "MMAP"@
    } else if i == 12 {
        "ANON"@
    } else if i == 13 {
        "SWAPCACHE"@
    } else if i == 14 {
        "SWAPBACKED"@
    } else if i == 15 {
        "COMPOUND_HEAD"@
    } else if i == 16 {
        "COMPOUND_TAIL"@
    } else if i == 17 {
        "HUGE"@
    } else if i == 18 {
        "UNEVICTABLE"@
    } else if i == 19 {
        "HWPOISON"@
    } else if i == 20 {
        "NOPAGE"@
    } else if i == 21 {
        "KSM"@
    } else if i == 22 {
        "THP"@
    } else if i == 23 {
        "BALLOON"@
    } else if i == 24 {
        "ZERO_PAGE"@
    } else if i == 25 {
        "IDLE"@
    } else if i == 26 {
        "KPF_PGTABLE"@
    } else if i == 32 {
        "RESERVED"@
    } else if i == 33 {
        "MLOCKED"@
    } else if i == 34 {
        "MAPPEDTODISK"@
    } else if i == 35 {
        "PRIVATE"@
    } else if i == 36 {
        "PRIVATE_2"@
    } else if i == 37 {
        "OWNER_PRIVATE"@
    } else if i == 38 {
        "ARCH"@
    } else if i == 39 {
        "UNCACHED"@
    } else if i == 40 {
        "SOFTDIRTY"@
    } else if i == 48 {
        "READAHEAD"@
    } else if i == 49 {
        "SLOB_FREE"@
    } else if i == 50 {
        "SLUB_FROZEN"@
    } else if i == 51 {
        "SLUB_DEBUG"@
    } else if i == 61 {
        "FILE"@
    } else if i == 62 {
        "SWAP"@
    } else if i == 63 {
        "MMAP_EXCLUSIVE"@
    } else {
        Seq::empty()
    }
}

/// The names of the named set bits of `bits` below position `hi`, in
/// ascending bit order.
pub open spec fn set_names(bits: u64, hi: int) -> Seq<Seq<char>>
    decreases hi,
{
    if hi <= 0 {
        Seq::empty()
    } else if (bits >> ((hi - 1) as u64)) & 1u64 == 1u64 && bit_is_named(hi - 1) {
        set_names(bits, hi - 1).push(bit_name(hi - 1))
    } else {
        set_names(bits, hi - 1)
    }
}

/// The names joined with `" | "` between each two.
pub open spec fn join_names(names: Seq<Seq<char>>) -> Seq<char>
    decreases names.len(),
{
    if names.len() == 0 {
        Seq::empty()
    } else if names.len() == 1 {
        names[0]
    } else {
        join_names(names.drop_last()) + " | "@ + names.last()
    }
}

/// The deterministic rendering of a flag word: the names of its named
/// set bits in ascending bit order, joined with `" | "`, or
/// `"(empty)"` when none is set.
pub open spec fn describe_chars(bits: u64) -> Seq<char> {
    if set_names(bits, 64) == Seq::<Seq<char>>::empty() {
        "(empty)"@
    } else {
        join_names(set_names(bits, 64))
    }
}

/// The name of bit position `i`, if the position is named.
fn bit_name_str(i: u64) -> (r: Option<&'static str>)
    ensures
        match r {
            Some(s) => bit_is_named(i as int) && s@ == bit_name(i as int),
            None => !bit_is_named(i as int),
        },
{
    match i {
        0 => Some("LOCKED"),
        1 => Some("ERROR"),
        2 => Some("REFERENCED"),
        3 => Some("UPTODATE"),
        4 => Some("DIRTY"),
        5 => Some("LRU"),
        6 => Some("ACTIVE"),
        7 => Some("SLAB"),
        8 => Some("WRITEBACK"),
        9 => Some("RECLAIM"),
        10 => Some("BUDDY"),
        11 => Some("MMAP"),
        12 => Some("ANON"),
        13 => Some("SWAPCACHE"),
        14 => Some("SWAPBACKED"),
        15 => Some("COMPOUND_HEAD"),
        16 => Some("COMPOUND_TAIL"),
        17 => Some("HUGE"),
        18 => Some("UNEVICTABLE"),
        19 => Some("HWPOISON"),
        20 => Some("NOPAGE"),
        21 => Some("KSM"),
        22 => Some("THP"),
        23 => Some("BALLOON"),
        24 => Some("ZERO_PAGE"),
        25 => Some("IDLE"),
        26 => Some("KPF_PGTABLE"),
        32 => Some("RESERVED"),
        33 => Some("MLOCKED"),
        34 => Some("MAPPEDTODISK"),
        35 => Some("PRIVATE"),
        36 => Some("PRIVATE_2"),
        37 => Some("OWNER_PRIVATE"),
        38 => Some("ARCH"),
        39 => Some("UNCACHED"),
        40 => Some("SOFTDIRTY"),
        48 => Some("READAHEAD"),
        49 => Some("SLOB_FREE"),
        50 => Some("SLUB_FROZEN"),
        51 => Some("SLUB_DEBUG"),
        61 => Some("FILE"),
        62 => Some("SWAP"),
        63 => Some("MMAP_EXCLUSIVE"),
        _ => None,
    }
}

/// The mask and the named positions agree: a bit position is set in
/// [`KNOWN_MASK`] exactly when it is named.  A word is therefore valid
/// exactly when every one of its set bits is a named position.
pub proof fn lemma_vocabulary_bits(bits: u64)
    ensures
        forall|i: u64| i < 64 ==> (((KNOWN_MASK >> i) & 1u64 == 1u64) <==> bit_is_named(i as int)),
        valid_bits(bits) ==> forall|i: u64|
            i < 64 && ((bits >> i) & 1u64 == 1u64) ==> bit_is_named(i as int),
{
    assert forall|i: u64| i < 64 implies (((KNOWN_MASK >> i) & 1u64 == 1u64) <==> bit_is_named(
        i as int,
    )) by {
        assert((i < 64 && ((KNOWN_MASK >> i) & 1u64 == 1u64)) <==> (i <= 26 || (32 <= i && i <= 40)
            || (48 <= i && i <= 51) || (61 <= i && i <= 63))) by (bit_vector);
    }
    if valid_bits(bits) {
        assert forall|i: u64| i < 64 && ((bits >> i) & 1u64 == 1u64) implies bit_is_named(
            i as int,
        ) by {
            assert(bits & !KNOWN_MASK == 0 && i < 64 && ((bits >> i) & 1u64 == 1u64) ==> ((
            KNOWN_MASK >> i) & 1u64 == 1u64)) by (bit_vector);
        }
    }
}

/// Decoding a word made only of known-vocabulary bits succeeds, and
/// re-encoding what it yields gives the identical bit pattern; a word
/// with any bit outside the vocabulary decodes to nothing.
pub proof fn lemma_round_trip(bits: u64)
    ensures
        valid_bits(bits) ==> (PageFlags::spec_from_bits(bits) matches Some(f) && f.spec_bits()
            == bits),
        !valid_bits(bits) ==> PageFlags::spec_from_bits(bits) is None,
{
}

} // verus!
