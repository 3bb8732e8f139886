//! Grouping decoded records by exact flag combination, ranking the
//! groups by size, and computing the total of frames with a backing
//! page.

use vstd::multiset::Multiset;
use vstd::prelude::*;

use crate::decode::DecodeError;
use crate::decode::Page;
use crate::flags::NOPAGE;
use crate::flags::PageFlags;

verus! {

/// All frames sharing one exact flag combination, with their count.
#[derive(Clone, Copy, PartialEq, Eq, Structural, Debug)]
pub struct FlagGroup {
    /// The flag combination shared by every frame of the group.
    pub flags: PageFlags,
    /// How many frames carry exactly these flags.
    pub count: usize,
}

/// How many records of `pages` carry exactly the flags `f`.
pub open spec fn count_matching(pages: Seq<Page>, f: PageFlags) -> int {
    pages.filter(|p: Page| p.flags == f).len() as int
}

/// The sum of the group counts.
pub open spec fn total_count(groups: Seq<FlagGroup>) -> int
    decreases groups.len(),
{
    if groups.len() == 0 {
        0
    } else {
        total_count(groups.drop_last()) + groups.last().count
    }
}

/// Appending one record raises by one the matching count of its own
/// flags and leaves every other count unchanged.
pub proof fn lemma_count_matching_push(pages: Seq<Page>, p: Page, f: PageFlags)
    ensures
        count_matching(pages.push(p), f) == count_matching(pages, f) + (if p.flags == f {
            1int
        } else {
            0int
        }),
{
    reveal(Seq::filter);
    assert(pages.push(p).drop_last() =~= pages);
}

/// A positive matching count means some record carries the flags, and
/// conversely.
pub proof fn lemma_count_matching_exists(pages: Seq<Page>, f: PageFlags)
    ensures
        count_matching(pages, f) > 0 <==> exists|i: int|
            0 <= i < pages.len() && #[trigger] pages[i].flags == f,
        count_matching(pages, f) <= pages.len(),
    decreases pages.len(),
{
    reveal(Seq::filter);
    if pages.len() > 0 {
        lemma_count_matching_exists(pages.drop_last(), f);
        assert(pages.drop_last().push(pages.last()) =~= pages);
        lemma_count_matching_push(pages.drop_last(), pages.last(), f);
        if pages.last().flags == f {
            assert(pages[pages.len() - 1].flags == f);
        } else if count_matching(pages, f) > 0 {
            let i = choose|i: int|
                0 <= i < pages.drop_last().len() && #[trigger] pages.drop_last()[i].flags == f;
            assert(pages[i].flags == f);
        } else {
            assert forall|i: int| 0 <= i < pages.len() implies #[trigger] pages[i].flags != f by {
                if i < pages.len() - 1 {
                    assert(pages.drop_last()[i].flags != f);
                }
            }
        }
    }
}

/// Replacing one group changes the sum by the difference of the two
/// counts.
pub proof fn lemma_total_count_update(groups: Seq<FlagGroup>, j: int, g: FlagGroup)
    requires
        0 <= j < groups.len(),
    ensures
        total_count(groups.update(j, g)) == total_count(groups) - groups[j].count + g.count,
    decreases groups.len(),
{
    if j == groups.len() - 1 {
        assert(groups.update(j, g).drop_last() =~= groups.drop_last());
        assert(groups.update(j, g).last() == g);
    } else {
        assert(groups.update(j, g).drop_last() =~= groups.drop_last().update(j, g));
        assert(groups.update(j, g).last() == groups.last());
        lemma_total_count_update(groups.drop_last(), j, g);
    }
}

/// Appending one group adds its count to the sum.
pub proof fn lemma_total_count_push(groups: Seq<FlagGroup>, g: FlagGroup)
    ensures
        total_count(groups.push(g)) == total_count(groups) + g.count,
{
    assert(groups.push(g).drop_last() =~= groups);
}

/// The index of the group carrying flags `f`, if one is there.
fn find_group(groups: &Vec<FlagGroup>, f: PageFlags) -> (r: Option<usize>)
    ensures
        match r {
            Some(j) => j < groups@.len() && groups@[j as int].flags == f,
            None => forall|k: int| 0 <= k < groups@.len() ==> (#[trigger] groups@[k]).flags != f,
        },
{
    let mut j: usize = 0;
    while j < groups.len()
        invariant
            0 <= j <= groups@.len(),
            forall|k: int| 0 <= k < j ==> (#[trigger] groups@[k]).flags != f,
        decreases groups@.len() - j,
    {
        if groups[j].flags == f {
            return Some(j);
        }
        j = j + 1;
    }
    None
}

/// Partition the records by exact equality of their flags.
///
/// Every record belongs to exactly one group: the groups carry
/// pairwise distinct flag combinations, each group's count is the
/// number of records with exactly its flags, every record's flags
/// appear in some group, and the group counts sum to the record count.
pub fn group_pages(pages: &Vec<Page>) -> (groups: Vec<FlagGroup>)
    ensures
        forall|k1: int, k2: int|
            0 <= k1 < k2 < groups@.len() ==> groups@[k1].flags != groups@[k2].flags,
        forall|k: int|
            0 <= k < groups@.len() ==> (#[trigger] groups@[k]).count == count_matching(
                pages@,
                groups@[k].flags,
            ) && groups@[k].count > 0,
        forall|i: int| #![trigger pages@[i]]
            0 <= i < pages@.len() ==> exists|k: int|
                0 <= k < groups@.len() && (#[trigger] groups@[k]).flags == pages@[i].flags,
        total_count(groups@) == pages@.len(),
{
    let mut groups: Vec<FlagGroup> = Vec::new();
    let n: usize = pages.len();
    let mut i: usize = 0;
    while i < n
        invariant
            0 <= i <= n,
            n == pages@.len(),
            forall|k1: int, k2: int|
                0 <= k1 < k2 < groups@.len() ==> groups@[k1].flags != groups@[k2].flags,
            forall|k: int|
                0 <= k < groups@.len() ==> (#[trigger] groups@[k]).count == count_matching(
                    pages@.take(i as int),
                    groups@[k].flags,
                ) && groups@[k].count > 0,
            forall|i2: int| #![trigger pages@[i2]]
                0 <= i2 < i ==> exists|k: int|
                    0 <= k < groups@.len() && (#[trigger] groups@[k]).flags == pages@[i2].flags,
            total_count(groups@) == i,
        decreases n - i,
    {
        let p = pages[i];
        let ghost prefix = pages@.take(i as int);
        proof {
            assert(pages@.take(i + 1) =~= prefix.push(p));
        }
        match find_group(&groups, p.flags) {
            Some(j) => {
                let ghost old_groups = groups@;
                proof {
                    lemma_count_matching_exists(prefix, p.flags);
                }
                let c = groups[j].count;
                assert(c <= i);
                let g = FlagGroup { flags: p.flags, count: c + 1 };
                groups.set(j, g);
                proof {
                    lemma_total_count_update(old_groups, j as int, g);
                    assert forall|k: int| 0 <= k < groups@.len() implies (#[trigger] groups@[k]).count
                        == count_matching(pages@.take(i + 1), groups@[k].flags) && groups@[k].count
                        > 0 by {
                        lemma_count_matching_push(prefix, p, groups@[k].flags);
                        if k != j {
                            assert(groups@[k] == old_groups[k]);
                            assert(old_groups[j as int].flags == p.flags);
                        }
                    }
                    assert forall|i2: int| #![trigger pages@[i2]] 0 <= i2 < i + 1 implies exists|k: int|
                        0 <= k < groups@.len() && (#[trigger] groups@[k]).flags
                            == pages@[i2].flags by {
                        if i2 < i {
                            let k0 = choose|k: int|
                                0 <= k < old_groups.len() && (#[trigger] old_groups[k]).flags
                                    == pages@[i2].flags;
                            assert(groups@[k0].flags == pages@[i2].flags);
                        } else {
                            assert(groups@[j as int].flags == pages@[i2].flags);
                        }
                    }
                }
            },
            None => {
                let ghost old_groups = groups@;
                let g = FlagGroup { flags: p.flags, count: 1 };
                groups.push(g);
                proof {
                    lemma_total_count_push(old_groups, g);
                    assert forall|k: int| 0 <= k < groups@.len() implies (#[trigger] groups@[k]).count
                        == count_matching(pages@.take(i + 1), groups@[k].flags) && groups@[k].count
                        > 0 by {
                        lemma_count_matching_push(prefix, p, groups@[k].flags);
                        if k < old_groups.len() {
                            assert(groups@[k] == old_groups[k]);
                            assert(old_groups[k].flags != p.flags);
                        } else {
                            assert(groups@[k] == g);
                            lemma_count_matching_exists(prefix, p.flags);
                        }
                    }
                    assert forall|i2: int| #![trigger pages@[i2]] 0 <= i2 < i + 1 implies exists|k: int|
                        0 <= k < groups@.len() && (#[trigger] groups@[k]).flags
                            == pages@[i2].flags by {
                        if i2 < i {
                            let k0 = choose|k: int|
                                0 <= k < old_groups.len() && (#[trigger] old_groups[k]).flags
                                    == pages@[i2].flags;
                            assert(groups@[k0].flags == pages@[i2].flags);
                        } else {
                            assert(groups@[old_groups.len() as int].flags == pages@[i2].flags);
                        }
                    }
                }
            },
        }
        i = i + 1;
        proof {
            assert(pages@.take(n as int) =~= pages@);
        }
    }
    proof {
        assert(pages@.take(n as int) =~= pages@);
    }
    groups
}

/// At most this many groups are reported after ranking.
pub const TOP_GROUP_LIMIT: usize = 15;

/// The index of a group with the largest count.
fn find_max(groups: &Vec<FlagGroup>) -> (m: usize)
    requires
        groups@.len() > 0,
    ensures
        m < groups@.len(),
        forall|k: int| 0 <= k < groups@.len() ==> (#[trigger] groups@[k]).count <= groups@[
            m as int].count,
{
    let mut m: usize = 0;
    let mut j: usize = 1;
    while j < groups.len()
        invariant
            0 <= m < j <= groups@.len(),
            forall|k: int| 0 <= k < j ==> (#[trigger] groups@[k]).count <= groups@[m as int].count,
        decreases groups@.len() - j,
    {
        if groups[j].count > groups[m].count {
            m = j;
        }
        j = j + 1;
    }
    m
}

/// Sort the groups by descending frame count.
///
/// The result carries exactly the given groups (as a multiset) with
/// counts non-increasing from the first entry to the last; the order
/// among groups of equal count is left open.
pub fn rank_groups(groups: Vec<FlagGroup>) -> (r: Vec<FlagGroup>)
    ensures
        r@.len() == groups@.len(),
        r@.to_multiset() == groups@.to_multiset(),
        forall|k1: int, k2: int|
            0 <= k1 <= k2 < r@.len() ==> (#[trigger] r@[k1]).count >= (#[trigger] r@[k2]).count,
{
    broadcast use vstd::multiset::group_multiset_axioms;

    let mut rest = groups;
    let mut out: Vec<FlagGroup> = Vec::new();
    proof {
        out@.to_multiset_ensures();
        vstd::multiset::lemma_multiset_empty_len(out@.to_multiset());
        assert(out@.to_multiset() =~= Multiset::<FlagGroup>::empty());
        assert(out@.to_multiset().add(rest@.to_multiset()) =~= groups@.to_multiset());
    }
    while rest.len() > 0
        invariant
            out@.len() + rest@.len() == groups@.len(),
            out@.to_multiset().add(rest@.to_multiset()) == groups@.to_multiset(),
            forall|k1: int, k2: int|
                0 <= k1 <= k2 < out@.len() ==> (#[trigger] out@[k1]).count >= (#[trigger] out@[
                    k2]).count,
            forall|j: int|
                0 <= j < rest@.len() && out@.len() > 0 ==> (#[trigger] rest@[j]).count <= out@[
                    out@.len() - 1].count,
        decreases rest@.len(),
    {
        let m = find_max(&rest);
        let ghost old_rest = rest@;
        let ghost old_out = out@;
        let g = rest.remove(m);
        out.push(g);
        proof {
            old_rest.to_multiset_ensures();
            old_out.to_multiset_ensures();
            old_rest.remove_ensures(m as int);
            assert(old_rest.contains(g));
            assert(out@.to_multiset() =~= old_out.to_multiset().insert(g));
            assert(rest@.to_multiset() =~= old_rest.to_multiset().remove(g));
            assert(out@.to_multiset().add(rest@.to_multiset()) =~= old_out.to_multiset().add(
                old_rest.to_multiset(),
            ));
            if old_out.len() > 0 {
                assert(g.count <= old_out[old_out.len() - 1].count);
            }
        }
    }
    proof {
        rest@.to_multiset_ensures();
        vstd::multiset::lemma_multiset_empty_len(rest@.to_multiset());
        assert(rest@.to_multiset() =~= Multiset::<FlagGroup>::empty());
        assert(out@.to_multiset().add(rest@.to_multiset()) =~= out@.to_multiset());
        out@.to_multiset_ensures();
    }
    out
}

/// The first `TOP_GROUP_LIMIT` entries of the ranked listing; a
/// shorter listing is returned whole.
pub fn top_groups(ranked: &Vec<FlagGroup>) -> (r: Vec<FlagGroup>)
    ensures
        r@ == ranked@.take(vstd::math::min(TOP_GROUP_LIMIT as int, ranked@.len() as int)),
{
    let mut limit: usize = TOP_GROUP_LIMIT;
    if ranked.len() < limit {
        limit = ranked.len();
    }
    let mut r: Vec<FlagGroup> = Vec::new();
    let mut i: usize = 0;
    while i < limit
        invariant
            0 <= i <= limit <= ranked@.len(),
            limit == vstd::math::min(TOP_GROUP_LIMIT as int, ranked@.len() as int),
            r@ == ranked@.take(i as int),
        decreases limit - i,
    {
        let g = ranked[i];
        r.push(g);
        proof {
            assert(r@ =~= ranked@.take(i + 1));
        }
        i = i + 1;
    }
    r
}

/// Does a physical page stand behind this record's slot?
pub open spec fn has_backing(p: Page) -> bool {
    p.flags.bits & NOPAGE == 0
}

/// How many records of `pages` have a backing physical page.
pub open spec fn present_count(pages: Seq<Page>) -> int {
    pages.filter(|p: Page| has_backing(p)).len() as int
}

/// Appending a record with a backing page raises the present count by
/// one; appending one without leaves it unchanged.
pub proof fn lemma_present_count_push(pages: Seq<Page>, p: Page)
    ensures
        present_count(pages.push(p)) == present_count(pages) + (if has_backing(p) {
            1int
        } else {
            0int
        }),
{
    reveal(Seq::filter);
    assert(pages.push(p).drop_last() =~= pages);
}

/// Count the frames whose flags do not include the "page absent"
/// indicator: holes in the physical address space are excluded.
pub fn total_present(pages: &Vec<Page>) -> (t: usize)
    ensures
        t == present_count(pages@),
{
    let n: usize = pages.len();
    let mut t: usize = 0;
    let mut i: usize = 0;
    while i < n
        invariant
            0 <= i <= n,
            n == pages@.len(),
            t == present_count(pages@.take(i as int)),
            t <= i,
        decreases n - i,
    {
        let ghost prefix = pages@.take(i as int);
        proof {
            assert(pages@.take(i + 1) =~= prefix.push(pages@[i as int]));
            lemma_present_count_push(prefix, pages@[i as int]);
            prefix.lemma_filter_len(|p: Page| has_backing(p));
        }
        if !pages[i].flags.intersects(NOPAGE) {
            t = t + 1;
        }
        i = i + 1;
    }
    proof {
        assert(pages@.take(n as int) =~= pages@);
    }
    t
}

/// The set of flag combinations occurring in `pages`.
pub open spec fn flags_of(pages: Seq<Page>) -> Set<PageFlags> {
    pages.map_values(|p: Page| p.flags).to_set()
}

/// How many distinct flag combinations occur in `pages`.
pub open spec fn distinct_flag_count(pages: Seq<Page>) -> int {
    flags_of(pages).len() as int
}

/// Does the listing carry a group with flags `f`?
pub open spec fn listed(top: Seq<FlagGroup>, f: PageFlags) -> bool {
    exists|k: int| 0 <= k < top.len() && (#[trigger] top[k]).flags == f
}

/// The ranked report: the leading groups and the grand total.
#[derive(Debug)]
pub struct Summary {
    /// The groups with the largest frame counts, largest first, at
    /// most [`TOP_GROUP_LIMIT`] of them.
    pub top: Vec<FlagGroup>,
    /// The count of frames with a backing physical page.
    pub total: usize,
}

/// Group the records by exact flag combination, rank the groups by
/// descending frame count, keep the first [`TOP_GROUP_LIMIT`] of them,
/// and count the frames with a backing physical page.
///
/// The listing holds one group per flag combination (the first
/// `TOP_GROUP_LIMIT` of them when more exist), each with the exact
/// number of records carrying its flags; counts are non-increasing
/// down the listing, and every combination left out of a full listing
/// has a count no larger than the last listed one.  The total counts
/// every record, listed or not, whose flags lack the "page absent"
/// bit.
pub fn summarize(pages: &Vec<Page>) -> (s: Summary)
    ensures
        s.total == present_count(pages@),
        s.top@.len() == vstd::math::min(TOP_GROUP_LIMIT as int, distinct_flag_count(pages@)),
        forall|k: int|
            0 <= k < s.top@.len() ==> (#[trigger] s.top@[k]).count == count_matching(
                pages@,
                s.top@[k].flags,
            ) && s.top@[k].count > 0,
        forall|k: int| 0 <= k < s.top@.len() ==> flags_of(pages@).contains(
            (#[trigger] s.top@[k]).flags,
        ),
        forall|k1: int, k2: int|
            0 <= k1 < k2 < s.top@.len() ==> s.top@[k1].flags != s.top@[k2].flags,
        forall|k1: int, k2: int|
            0 <= k1 <= k2 < s.top@.len() ==> (#[trigger] s.top@[k1]).count >= (#[trigger] s.top@[
                k2]).count,
        forall|f: PageFlags|
            #[trigger] flags_of(pages@).contains(f) && !listed(s.top@, f) ==> s.top@.len()
                == TOP_GROUP_LIMIT && count_matching(pages@, f) <= s.top@[
                TOP_GROUP_LIMIT - 1].count,
{
    broadcast use vstd::multiset::group_multiset_axioms;
    broadcast use vstd::set::group_set_axioms;

    let groups = group_pages(pages);
    let ranked = rank_groups(groups);
    let top = top_groups(&ranked);
    let total = total_present(pages);
    proof {
        let gseq = groups@;
        let rseq = ranked@;
        let tseq = top@;

        // Every ranked entry is one of the groups.
        assert forall|k: int| 0 <= k < rseq.len() implies exists|j: int|
            0 <= j < gseq.len() && gseq[j] == #[trigger] rseq[k] by {
            rseq.to_multiset_ensures();
            gseq.to_multiset_ensures();
            assert(rseq.contains(rseq[k]));
            assert(gseq.to_multiset().count(rseq[k]) > 0);
            assert(gseq.contains(rseq[k]));
        }

        // The groups are pairwise distinct, so the ranked entries are too.
        assert(gseq.no_duplicates()) by {
            assert forall|j1: int, j2: int|
                0 <= j1 < gseq.len() && 0 <= j2 < gseq.len() && j1 != j2 implies gseq[j1]
                != gseq[j2] by {
                assert(gseq[j1].flags != gseq[j2].flags);
            }
        }
        gseq.lemma_multiset_has_no_duplicates();
        rseq.lemma_multiset_has_no_duplicates_conv();

        assert forall|k1: int, k2: int| 0 <= k1 < k2 < rseq.len() implies rseq[k1].flags
            != rseq[k2].flags by {
            let j1 = choose|j: int| 0 <= j < gseq.len() && gseq[j] == rseq[k1];
            let j2 = choose|j: int| 0 <= j < gseq.len() && gseq[j] == rseq[k2];
            assert(rseq[k1] != rseq[k2]);
            if j1 != j2 {
                assert(gseq[j1].flags != gseq[j2].flags);
            }
        }

        // The flags of the groups are exactly the flags of the records.
        let gflags = gseq.map_values(|g: FlagGroup| g.flags);
        assert(gflags.no_duplicates());
        gflags.unique_seq_to_set();
        assert(gflags.to_set() =~= flags_of(pages@)) by {
            let pflags = pages@.map_values(|p: Page| p.flags);
            assert forall|f: PageFlags| gflags.to_set().contains(f) implies flags_of(
                pages@,
            ).contains(f) by {
                let j = choose|j: int| 0 <= j < gflags.len() && gflags[j] == f;
                assert(gseq[j].count == count_matching(pages@, f));
                lemma_count_matching_exists(pages@, f);
                let i = choose|i: int| 0 <= i < pages@.len() && #[trigger] pages@[i].flags == f;
                assert(pflags[i] == f);
                assert(pflags.contains(f));
            }
            assert forall|f: PageFlags| flags_of(pages@).contains(f) implies gflags.to_set()
                .contains(f) by {
                assert(pflags.contains(f));
                let i = choose|i: int| 0 <= i < pflags.len() && #[trigger] pflags[i] == f;
                assert(pages@[i].flags == f);
                let k = choose|k: int|
                    0 <= k < gseq.len() && (#[trigger] gseq[k]).flags == pages@[i].flags;
                assert(gflags[k] == f);
                assert(gflags.contains(f));
            }
        }
        assert(gseq.len() == distinct_flag_count(pages@));
        assert(tseq.len() == vstd::math::min(TOP_GROUP_LIMIT as int, distinct_flag_count(pages@)));

        // Each listed group is one of the groups, so its count is exact.
        assert forall|k: int| 0 <= k < tseq.len() implies (#[trigger] tseq[k]).count
            == count_matching(pages@, tseq[k].flags) && tseq[k].count > 0 && flags_of(
            pages@,
        ).contains(tseq[k].flags) by {
            assert(tseq[k] == rseq[k]);
            let j = choose|j: int| 0 <= j < gseq.len() && gseq[j] == rseq[k];
            assert(gflags[j] == tseq[k].flags);
            assert(gflags.contains(tseq[k].flags));
            assert(gflags.to_set().contains(tseq[k].flags));
        }

        // A combination left out of a full listing ranks below the last
        // listed group.
        assert forall|f: PageFlags|
            #[trigger] flags_of(pages@).contains(f) && !listed(tseq, f) implies tseq.len()
            == TOP_GROUP_LIMIT && count_matching(pages@, f) <= tseq[TOP_GROUP_LIMIT - 1].count by {
            assert(gflags.to_set().contains(f));
            let j = choose|j: int| 0 <= j < gflags.len() && gflags[j] == f;
            let g = gseq[j];
            rseq.to_multiset_ensures();
            gseq.to_multiset_ensures();
            assert(gseq.contains(g));
            assert(rseq.to_multiset().count(g) > 0);
            assert(rseq.contains(g));
            let idx = choose|i: int| 0 <= i < rseq.len() && rseq[i] == g;
            if idx < tseq.len() {
                assert(tseq[idx].flags == f);
                assert(listed(tseq, f));
            }
            assert(idx >= tseq.len());
            assert(tseq.len() == TOP_GROUP_LIMIT);
            assert(rseq[TOP_GROUP_LIMIT - 1].count >= rseq[idx].count);
            assert(tseq[TOP_GROUP_LIMIT - 1] == rseq[TOP_GROUP_LIMIT - 1]);
        }
    }
    Summary { top, total }
}

/// Decode the three buffers and summarize the records they describe:
/// the whole pipeline in one call.
///
/// Succeeds if and only if every flag word lies within the known
/// vocabulary; the summary then holds of the decoded record sequence
/// exactly as [`summarize`] states it of its input.
pub fn report(counts: &[u8], cgroups: &[u8], flags: &[u8]) -> (r: Result<Summary, DecodeError>)
    ensures
        ({
            let pages = crate::decode::records_of(counts@, cgroups@, flags@);
            let n = crate::decode::record_count(counts@, cgroups@, flags@);
            match r {
                Ok(s) => {
                    &&& forall|i: int|
                        0 <= i < n ==> crate::flags::valid_bits(crate::decode::word_at(flags@, i))
                    &&& s.total == present_count(pages)
                    &&& s.top@.len() == vstd::math::min(
                        TOP_GROUP_LIMIT as int,
                        distinct_flag_count(pages),
                    )
                    &&& forall|k: int|
                        0 <= k < s.top@.len() ==> (#[trigger] s.top@[k]).count == count_matching(
                            pages,
                            s.top@[k].flags,
                        ) && s.top@[k].count > 0
                    &&& forall|k1: int, k2: int|
                        0 <= k1 < k2 < s.top@.len() ==> s.top@[k1].flags != s.top@[k2].flags
                    &&& forall|k1: int, k2: int|
                        0 <= k1 <= k2 < s.top@.len() ==> (#[trigger] s.top@[k1]).count >= (
                        #[trigger] s.top@[k2]).count
                    &&& forall|f: PageFlags|
                        #[trigger] flags_of(pages).contains(f) && !listed(s.top@, f)
                            ==> s.top@.len() == TOP_GROUP_LIMIT && count_matching(pages, f)
                            <= s.top@[TOP_GROUP_LIMIT - 1].count
                },
                Err(e) => {
                    &&& 0 <= e.pfn < n
                    &&& e.bits == crate::decode::word_at(flags@, e.pfn as int)
                    &&& !crate::flags::valid_bits(e.bits)
                },
            }
        }),
{
    match crate::decode::decode_records(counts, cgroups, flags) {
        Ok(pages) => Ok(summarize(&pages)),
        Err(e) => Err(e),
    }
}

/// A record whose flags include the "page absent" bit never moves the
/// total of backed frames, yet raises the count of its own flag group
/// like any other record.
pub proof fn lemma_total_exclusion(pages: Seq<Page>, p: Page)
    requires
        p.flags.bits & NOPAGE != 0,
    ensures
        present_count(pages.push(p)) == present_count(pages),
        count_matching(pages.push(p), p.flags) == count_matching(pages, p.flags) + 1,
{
    lemma_present_count_push(pages, p);
    lemma_count_matching_push(pages, p, p.flags);
}

} // verus!
