//! The repository report: contributors ranked by commits and split by the
//! origin classification.

use vstd::prelude::*;
use crate::analysis::{ContributorAnalysis, Ratio, is_likely_from_china, likely_origin};
use crate::ranking::{rank_descending, ranked};

verus! {

/// How many contributors of each group a report lists by name.
pub const TOP_LISTED: usize = 10;

/// The contributors of a repository split by the origin classification.
pub struct ContributorsReport {
    pub total_contributors: usize,
    pub china_contributors_count: usize,
    pub non_china_contributors_count: usize,
    pub total_commits: usize,
    pub china_commits: usize,
    pub non_china_commits: usize,
    /// The classified contributors with the most commits, most first.
    pub top_china_contributors: Vec<ContributorAnalysis>,
    /// The other contributors with the most commits, most first.
    pub top_non_china_contributors: Vec<ContributorAnalysis>,
}

/// The analyses whose classification is `origin`, in order.
pub open spec fn with_origin(s: Seq<ContributorAnalysis>, origin: bool) -> Seq<ContributorAnalysis>
    decreases s.len(),
{
    if s.len() == 0 {
        Seq::empty()
    } else if likely_origin(s.last()) == origin {
        with_origin(s.drop_last(), origin).push(s.last())
    } else {
        with_origin(s.drop_last(), origin)
    }
}

/// Sum of the commit counts of the analyses.
pub open spec fn commits_sum(s: Seq<ContributorAnalysis>) -> nat
    decreases s.len(),
{
    if s.len() == 0 {
        0
    } else {
        commits_sum(s.drop_last()) + s.last().commits_count as nat
    }
}

/// Every analysis agrees with its histograms.
pub open spec fn all_wf(s: Seq<ContributorAnalysis>) -> bool {
    forall|i: int| 0 <= i < s.len() ==> (#[trigger] s[i]).wf()
}

/// The first `TOP_LISTED` items of `s`, or all of them.
pub open spec fn top_of(s: Seq<ContributorAnalysis>) -> Seq<ContributorAnalysis> {
    if s.len() <= TOP_LISTED { s } else { s.take(TOP_LISTED as int) }
}

proof fn lemma_commits_sum_perm(s: Seq<ContributorAnalysis>)
    ensures
        commits_sum(ranked(s)) == commits_sum(s),
{
    crate::ranking::lemma_ranked_properties(s);
    lemma_commits_sum_multiset(ranked(s), s);
}

proof fn lemma_commits_sum_multiset(a: Seq<ContributorAnalysis>, b: Seq<ContributorAnalysis>)
    requires
        a.to_multiset() == b.to_multiset(),
    ensures
        commits_sum(a) == commits_sum(b),
    decreases a.len(),
{
    broadcast use vstd::seq_lib::group_to_multiset_ensures;

    if a.len() == 0 {
        assert(b.to_multiset().len() == 0);
        assert(b.len() == 0);
    } else {
        let x = a.last();
        assert(a =~= a.drop_last().push(x));
        assert(b.to_multiset().contains(x));
        assert(b.contains(x));
        let i = choose|i: int| 0 <= i < b.len() && b[i] == x;
        let rest = b.remove(i);
        assert(b =~= rest.insert(i, x));
        assert(a.drop_last().to_multiset() =~= rest.to_multiset());
        lemma_commits_sum_multiset(a.drop_last(), rest);
        lemma_commits_sum_insert(rest, i, x);
    }
}

proof fn lemma_commits_sum_insert(s: Seq<ContributorAnalysis>, i: int, x: ContributorAnalysis)
    requires
        0 <= i <= s.len(),
    ensures
        commits_sum(s.insert(i, x)) == commits_sum(s) + x.commits_count,
    decreases s.len(),
{
    if i == s.len() {
        assert(s.insert(i, x) =~= s.push(x));
        assert(s.push(x).drop_last() =~= s);
    } else {
        lemma_commits_sum_insert(s.drop_last(), i, x);
        assert(s.insert(i, x).drop_last() =~= s.drop_last().insert(i, x));
        assert(s.insert(i, x).last() == s.last());
    }
}

proof fn lemma_split_sums(s: Seq<ContributorAnalysis>)
    ensures
        commits_sum(with_origin(s, true)) + commits_sum(with_origin(s, false)) == commits_sum(s),
        with_origin(s, true).len() + with_origin(s, false).len() == s.len(),
    decreases s.len(),
{
    if s.len() > 0 {
        lemma_split_sums(s.drop_last());
        lemma_with_origin_push(s.drop_last(), s.last(), true);
        lemma_with_origin_push(s.drop_last(), s.last(), false);
        assert(s =~= s.drop_last().push(s.last()));
    }
}

impl ContributorsReport {
    /// The share of classified contributors among all.
    pub fn china_share(&self) -> (r: Ratio)
        ensures
            r.numerator == self.china_contributors_count,
            r.denominator == self.total_contributors,
    {
        Ratio { numerator: self.china_contributors_count, denominator: self.total_contributors }
    }

    /// The share of the classified contributors' commits among all commits.
    pub fn china_commit_share(&self) -> (r: Ratio)
        ensures
            r.numerator == self.china_commits,
            r.denominator == self.total_commits,
    {
        Ratio { numerator: self.china_commits, denominator: self.total_commits }
    }
}

/// Ranks the analyses by commits, most first, splits them by the origin
/// classification, and counts contributors and commits of each group.
pub fn generate_contributors_report(analyses: Vec<ContributorAnalysis>) -> (r: ContributorsReport)
    requires
        all_wf(analyses@),
        commits_sum(analyses@) <= usize::MAX,
    ensures
        ({
            let all = ranked(analyses@);
            let china = with_origin(all, true);
            let other = with_origin(all, false);
            &&& r.total_contributors == analyses@.len()
            &&& r.china_contributors_count == china.len()
            &&& r.non_china_contributors_count == other.len()
            &&& r.china_commits == commits_sum(china)
            &&& r.non_china_commits == commits_sum(other)
            &&& r.total_commits == commits_sum(analyses@)
            &&& r.top_china_contributors@ == top_of(china)
            &&& r.top_non_china_contributors@ == top_of(other)
        }),
{
    let ghost input = analyses@;
    let sorted = rank_descending(analyses);
    let ghost all = sorted@;
    proof {
        crate::ranking::lemma_ranked_properties(input);
        lemma_commits_sum_perm(input);
        lemma_split_sums(all);
        assert(all_wf(all)) by {
            broadcast use vstd::seq_lib::group_to_multiset_ensures;

            assert forall|i: int| 0 <= i < all.len() implies (#[trigger] all[i]).wf() by {
                assert(all.to_multiset().contains(all[i]));
                assert(input.contains(all[i]));
            }
        }
    }
    let total = sorted.len();
    let mut china: Vec<ContributorAnalysis> = Vec::new();
    let mut other: Vec<ContributorAnalysis> = Vec::new();
    let mut china_commits: usize = 0;
    let mut other_commits: usize = 0;
    for a in it: sorted
        invariant
            it.seq() == all,
            all_wf(all),
            commits_sum(with_origin(all, true)) + commits_sum(with_origin(all, false)) <= usize::MAX,
            china@ == with_origin(all.take(it.index() as int), true),
            other@ == with_origin(all.take(it.index() as int), false),
            china_commits == commits_sum(china@),
            other_commits == commits_sum(other@),
    {
        let ghost k = it.index() as int;
        proof {
            assert(all.take(k + 1) =~= all.take(k).push(a));
            lemma_prefix_sums(all, k + 1);
            lemma_with_origin_push(all.take(k), a, true);
            lemma_with_origin_push(all.take(k), a, false);
        }
        if is_likely_from_china(&a) {
            china_commits = china_commits + a.commits_count;
            china.push(a);
        } else {
            other_commits = other_commits + a.commits_count;
            other.push(a);
        }
    }
    proof {
        assert(all.take(all.len() as int) =~= all);
    }
    let china_count = china.len();
    let other_count = other.len();
    china.truncate(TOP_LISTED);
    other.truncate(TOP_LISTED);
    proof {
        assert(china@ =~= top_of(with_origin(all, true)));
        assert(other@ =~= top_of(with_origin(all, false)));
    }
    ContributorsReport {
        total_contributors: total,
        china_contributors_count: china_count,
        non_china_contributors_count: other_count,
        total_commits: china_commits + other_commits,
        china_commits,
        non_china_commits: other_commits,
        top_china_contributors: china,
        top_non_china_contributors: other,
    }
}

proof fn lemma_with_origin_push(t: Seq<ContributorAnalysis>, x: ContributorAnalysis, origin: bool)
    ensures
        with_origin(t.push(x), origin) == if likely_origin(x) == origin {
            with_origin(t, origin).push(x)
        } else {
            with_origin(t, origin)
        },
        commits_sum(with_origin(t, origin).push(x)) == commits_sum(with_origin(t, origin)) + x.commits_count,
{
    assert(t.push(x).drop_last() =~= t);
    assert(with_origin(t, origin).push(x).drop_last() =~= with_origin(t, origin));
}

proof fn lemma_prefix_sums(s: Seq<ContributorAnalysis>, k: int)
    requires
        0 <= k <= s.len(),
    ensures
        commits_sum(with_origin(s.take(k), true)) <= commits_sum(with_origin(s, true)),
        commits_sum(with_origin(s.take(k), false)) <= commits_sum(with_origin(s, false)),
    decreases s.len() - k,
{
    if k < s.len() {
        lemma_prefix_sums(s, k + 1);
        assert(s.take(k + 1) =~= s.take(k).push(s[k]));
        lemma_with_origin_push(s.take(k), s[k], true);
        lemma_with_origin_push(s.take(k), s[k], false);
    } else {
        assert(s.take(k) =~= s);
    }
}

} // verus!
