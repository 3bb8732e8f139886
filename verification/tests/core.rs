use pagestats::aggregate::group_pages;
use pagestats::aggregate::rank_groups;
use pagestats::aggregate::report;
use pagestats::aggregate::summarize;
use pagestats::aggregate::top_groups;
use pagestats::aggregate::total_present;
use pagestats::aggregate::FlagGroup;
use pagestats::decode::decode_records;
use pagestats::decode::DecodeError;
use pagestats::decode::Page;
use pagestats::flags::PageFlags;
use pagestats::flags::ANON;
use pagestats::flags::DIRTY;
use pagestats::flags::KNOWN_MASK;
use pagestats::flags::LOCKED;
use pagestats::flags::LRU;
use pagestats::flags::MMAP;
use pagestats::flags::NOPAGE;
use pagestats::flags::SLAB;
use pagestats::text::binary_literal_string;
use pagestats::text::decimal_string;

fn le_bytes(words: &[u64]) -> Vec<u8> {
    let mut out = Vec::new();
    for w in words {
        out.extend_from_slice(&w.to_le_bytes());
    }
    out
}

fn page(flags_bits: u64) -> Page {
    Page {
        times_mapped: 0,
        cgroup_inode: 0,
        flags: PageFlags { bits: flags_bits },
    }
}

#[test]
fn round_trip_known_bits() {
    for bits in [
        0u64,
        LOCKED,
        LOCKED | DIRTY,
        NOPAGE,
        ANON | MMAP | LRU,
        KNOWN_MASK,
    ] {
        let decoded = PageFlags::from_bits(bits).expect("known bits must decode");
        assert_eq!(decoded.bits(), bits);
    }
}

#[test]
fn rejection_of_unknown_bits() {
    for bits in [1u64 << 27, 1 << 31, 1 << 41, 1 << 47, 1 << 52, 1 << 60] {
        assert!(PageFlags::from_bits(bits).is_none());
        assert!(PageFlags::from_bits(bits | LOCKED).is_none());
    }
}

#[test]
fn decode_basic_values() {
    let counts = le_bytes(&[3, 0x0102030405060708]);
    let cgroups = le_bytes(&[7, 42]);
    let flags = le_bytes(&[LOCKED | DIRTY, 0]);
    let pages = decode_records(&counts, &cgroups, &flags).unwrap();
    assert_eq!(pages.len(), 2);
    assert_eq!(pages[0].times_mapped, 3);
    assert_eq!(pages[0].cgroup_inode, 7);
    assert_eq!(pages[0].flags.bits(), LOCKED | DIRTY);
    assert_eq!(pages[1].times_mapped, 0x0102030405060708);
    assert_eq!(pages[1].cgroup_inode, 42);
    assert_eq!(pages[1].flags.bits(), 0);
}

#[test]
fn decode_truncates_to_shortest_buffer() {
    let counts = le_bytes(&[1, 2, 3, 4, 5]);
    let cgroups = le_bytes(&[10, 20, 30, 40, 50, 60, 70]);
    let flags = le_bytes(&[0, DIRTY, SLAB]);
    assert_eq!(counts.len(), 8 * 5);
    assert_eq!(cgroups.len(), 8 * 7);
    assert_eq!(flags.len(), 8 * 3);
    let pages = decode_records(&counts, &cgroups, &flags).unwrap();
    assert_eq!(pages.len(), 3);
    for i in 0..3 {
        assert_eq!(pages[i].times_mapped, [1, 2, 3][i]);
        assert_eq!(pages[i].cgroup_inode, [10, 20, 30][i]);
        assert_eq!(pages[i].flags.bits(), [0, DIRTY, SLAB][i]);
    }
}

#[test]
fn decode_partial_trailing_record_dropped() {
    let mut counts = le_bytes(&[1]);
    counts.extend_from_slice(&[0xff; 5]);
    let cgroups = le_bytes(&[2, 3]);
    let flags = le_bytes(&[0, 0]);
    let pages = decode_records(&counts, &cgroups, &flags).unwrap();
    assert_eq!(pages.len(), 1);
    assert_eq!(pages[0].times_mapped, 1);
}

#[test]
fn decode_fails_on_unknown_bit() {
    let bad = 1u64 << 27;
    let counts = le_bytes(&[0, 0, 0]);
    let cgroups = le_bytes(&[0, 0, 0]);
    let flags = le_bytes(&[LOCKED, bad, 0]);
    let err = decode_records(&counts, &cgroups, &flags).unwrap_err();
    assert_eq!(err.pfn, 1);
    assert_eq!(err.bits, bad);
}

#[test]
fn decode_error_names_first_offender() {
    let counts = le_bytes(&[0, 0, 0]);
    let cgroups = le_bytes(&[0, 0, 0]);
    let flags = le_bytes(&[1 << 30, 1 << 27, 0]);
    let err = decode_records(&counts, &cgroups, &flags).unwrap_err();
    assert_eq!(err.pfn, 0);
    assert_eq!(err.bits, 1 << 30);
}

#[test]
fn decode_error_message_rendering() {
    let err = DecodeError {
        bits: 1 << 27,
        pfn: 5,
    };
    assert_eq!(
        err.message(),
        format!("wrong flags: {:#b} at PFN {}", 1u64 << 27, 5)
    );
}

#[test]
fn grouping_counts_sum_to_record_count() {
    let pages = vec![
        page(LOCKED),
        page(DIRTY),
        page(LOCKED),
        page(0),
        page(LOCKED),
        page(DIRTY),
    ];
    let groups = group_pages(&pages);
    assert_eq!(groups.len(), 3);
    let sum: usize = groups.iter().map(|g| g.count).sum();
    assert_eq!(sum, pages.len());
    for g in &groups {
        let expected = pages
            .iter()
            .filter(|p| p.flags.bits() == g.flags.bits())
            .count();
        assert_eq!(g.count, expected);
    }
    for p in &pages {
        assert!(groups.iter().any(|g| g.flags == p.flags));
    }
}

#[test]
fn ranking_is_non_increasing() {
    let pages = vec![
        page(LOCKED),
        page(DIRTY),
        page(DIRTY),
        page(SLAB),
        page(SLAB),
        page(SLAB),
    ];
    let ranked = rank_groups(group_pages(&pages));
    assert_eq!(ranked.len(), 3);
    for w in ranked.windows(2) {
        assert!(w[0].count >= w[1].count);
    }
    assert_eq!(ranked[0].flags.bits(), SLAB);
    assert_eq!(ranked[0].count, 3);
    assert_eq!(ranked[1].flags.bits(), DIRTY);
    assert_eq!(ranked[1].count, 2);
    assert_eq!(ranked[2].flags.bits(), LOCKED);
    assert_eq!(ranked[2].count, 1);
}

#[test]
fn reporting_never_exceeds_fifteen_groups() {
    // 20 distinct single-bit combinations, with multiplicity i + 1 for
    // the i-th so the ranking is fully determined.
    let named_bits: Vec<u64> = (0..27).map(|i| 1u64 << i).collect();
    let mut pages = Vec::new();
    for (i, bits) in named_bits.iter().take(20).enumerate() {
        for _ in 0..=i {
            pages.push(page(*bits));
        }
    }
    let groups = group_pages(&pages);
    assert_eq!(groups.len(), 20);
    let top = top_groups(&rank_groups(groups));
    assert_eq!(top.len(), 15);
    for w in top.windows(2) {
        assert!(w[0].count >= w[1].count);
    }
    assert_eq!(top[0].count, 20);
    assert_eq!(top[14].count, 6);
}

#[test]
fn total_excludes_absent_pages() {
    let pages = vec![page(NOPAGE), page(LOCKED), page(NOPAGE), page(0)];
    assert_eq!(total_present(&pages), 2);
    // The absent pages still count toward their own group.
    let groups = group_pages(&pages);
    let nopage_group = groups
        .iter()
        .find(|g| g.flags.bits() == NOPAGE)
        .expect("absent pages form a group");
    assert_eq!(nopage_group.count, 2);
}

#[test]
fn scenario_three_of_a_kind_and_one_other() {
    let a = LOCKED | DIRTY;
    let b = SLAB;
    let pages = vec![page(a), page(a), page(b), page(a)];
    let summary = summarize(&pages);
    assert_eq!(summary.top.len(), 2);
    assert_eq!(summary.top[0].flags.bits(), a);
    assert_eq!(summary.top[0].count, 3);
    assert_eq!(summary.top[1].flags.bits(), b);
    assert_eq!(summary.top[1].count, 1);
    assert_eq!(summary.total, 4);
}

#[test]
fn scenario_lone_absent_page() {
    let counts = le_bytes(&[0]);
    let cgroups = le_bytes(&[0]);
    let flags = le_bytes(&[1u64 << 20]);
    let summary = report(&counts, &cgroups, &flags).expect("the absent bit is valid");
    assert_eq!(summary.total, 0);
    assert_eq!(summary.top.len(), 1);
    assert_eq!(summary.top[0].flags.bits(), 1u64 << 20);
    assert_eq!(summary.top[0].count, 1);
}

#[test]
fn report_propagates_decode_failure() {
    let counts = le_bytes(&[0]);
    let cgroups = le_bytes(&[0]);
    let flags = le_bytes(&[1u64 << 59]);
    let err = report(&counts, &cgroups, &flags).unwrap_err();
    assert_eq!(err.bits, 1 << 59);
    assert_eq!(err.pfn, 0);
}

#[test]
fn empty_input_gives_empty_summary() {
    let summary = report(&[], &[], &[]).unwrap();
    assert_eq!(summary.top.len(), 0);
    assert_eq!(summary.total, 0);
}

#[test]
fn flag_set_operations() {
    let f = PageFlags::from_bits(LOCKED | DIRTY).unwrap();
    assert!(f.intersects(DIRTY));
    assert!(f.intersects(DIRTY | SLAB));
    assert!(!f.intersects(SLAB));
    assert!(f.contains(LOCKED | DIRTY));
    assert!(!f.contains(LOCKED | SLAB));
    assert_eq!(PageFlags::empty().bits(), 0);
    assert_eq!(f, PageFlags::from_bits(DIRTY | LOCKED).unwrap());
    assert_ne!(f, PageFlags::empty());
}

#[test]
fn validity_check_matches_vocabulary() {
    assert!(pagestats::flags::is_valid(0));
    assert!(pagestats::flags::is_valid(KNOWN_MASK));
    assert!(pagestats::flags::is_valid(LOCKED | NOPAGE));
    assert!(!pagestats::flags::is_valid(1 << 27));
    assert!(!pagestats::flags::is_valid(KNOWN_MASK | 1 << 41));
}

#[test]
fn union_of_flag_sets() {
    let a = PageFlags::from_bits(LOCKED).unwrap();
    let b = PageFlags::from_bits(DIRTY | SLAB).unwrap();
    assert_eq!(a.union(b).bits(), LOCKED | DIRTY | SLAB);
    assert_eq!(a.union(a), a);
}

#[test]
fn group_equality_is_structural() {
    let g1 = FlagGroup {
        flags: PageFlags { bits: LOCKED },
        count: 2,
    };
    let g2 = FlagGroup {
        flags: PageFlags { bits: LOCKED },
        count: 2,
    };
    assert_eq!(g1, g2);
}

#[test]
fn decimal_rendering() {
    assert_eq!(decimal_string(0), "0");
    assert_eq!(decimal_string(7), "7");
    assert_eq!(decimal_string(12345), "12345");
    assert_eq!(decimal_string(u64::MAX), "18446744073709551615");
}

#[test]
fn binary_rendering() {
    assert_eq!(binary_literal_string(0), "0b0");
    assert_eq!(binary_literal_string(1), "0b1");
    assert_eq!(binary_literal_string(20), "0b10100");
    assert_eq!(binary_literal_string(1 << 27), format!("{:#b}", 1u64 << 27));
}

#[test]
fn describe_rendering() {
    assert_eq!(PageFlags::empty().describe(), "(empty)");
    assert_eq!(PageFlags { bits: LOCKED }.describe(), "LOCKED");
    assert_eq!(
        PageFlags {
            bits: LOCKED | DIRTY
        }
        .describe(),
        "LOCKED | DIRTY"
    );
    assert_eq!(PageFlags { bits: NOPAGE }.describe(), "NOPAGE");
    assert_eq!(
        PageFlags {
            bits: ANON | MMAP | (1 << 63)
        }
        .describe(),
        "MMAP | ANON | MMAP_EXCLUSIVE"
    );
}
