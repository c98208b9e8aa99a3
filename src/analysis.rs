//! Origin inference: commit samples fold into an offset-label histogram and
//! an hour-of-day histogram, from which a probability and a classification
//! follow.

use vstd::prelude::*;
use crate::ranking::Ranked;
use crate::timezone::{is_china_timezone, is_target_label};

verus! {

/// First local hour of the working-hours window.
pub const WORKING_HOURS_START: usize = 9;

/// Last local hour of the working-hours window, included.
pub const WORKING_HOURS_END: usize = 18;

/// One commit time: the local hour of day as the commit's own offset gives
/// it, and the offset label as recorded.
pub struct CommitSample {
    pub hour: u32,
    pub offset: String,
}

/// One bucket of the offset-label histogram.
pub struct TimezoneCount {
    pub label: String,
    pub count: usize,
}

/// A fraction, numerator over denominator.
pub struct Ratio {
    pub numerator: usize,
    pub denominator: usize,
}

/// The inference result for one contributor.
pub struct ContributorAnalysis {
    pub login: String,
    pub name: Option<String>,
    pub email: Option<String>,
    pub commits_count: usize,
    /// Offset labels with their sample counts, in order of first appearance.
    pub timezone_stats: Vec<TimezoneCount>,
    /// Samples whose offset label is one of the target labels.
    pub china_timezone_commits: usize,
    /// The most frequent label; the first met among equally frequent ones.
    pub common_timezone: String,
    /// Sample counts by local hour, one bucket per hour of the day.
    pub commit_hours: Vec<usize>,
}

impl Ranked for ContributorAnalysis {
    open spec fn rank(&self) -> int {
        self.commits_count as int
    }

    fn rank_of(&self) -> (r: i128) {
        self.commits_count as i128
    }
}

/// A sample whose hour is an hour of the day.
pub open spec fn valid_samples(samples: Seq<CommitSample>) -> bool {
    forall|i: int| 0 <= i < samples.len() ==> (#[trigger] samples[i]).hour < 24
}

/// Number of samples that carry the label `label`.
pub open spec fn label_count(samples: Seq<CommitSample>, label: Seq<char>) -> nat
    decreases samples.len(),
{
    if samples.len() == 0 {
        0
    } else {
        label_count(samples.drop_last(), label) + if samples.last().offset@ == label { 1nat } else { 0nat }
    }
}

/// Number of samples at local hour `h`.
pub open spec fn hour_count(samples: Seq<CommitSample>, h: int) -> nat
    decreases samples.len(),
{
    if samples.len() == 0 {
        0
    } else {
        hour_count(samples.drop_last(), h) + if samples.last().hour == h { 1nat } else { 0nat }
    }
}

/// Number of samples whose label is one of the target labels.
pub open spec fn target_count(samples: Seq<CommitSample>) -> nat
    decreases samples.len(),
{
    if samples.len() == 0 {
        0
    } else {
        target_count(samples.drop_last()) + if is_target_label(samples.last().offset@) { 1nat } else { 0nat }
    }
}

/// The position of the bucket for `label`, or -1.
pub open spec fn find_label(h: Seq<TimezoneCount>, label: Seq<char>) -> int
    decreases h.len(),
{
    if h.len() == 0 {
        -1
    } else if h.last().label@ == label {
        h.len() - 1
    } else {
        find_label(h.drop_last(), label)
    }
}

/// The offset-label histogram of `samples`: one bucket per distinct label,
/// in order of first appearance.
pub open spec fn label_histogram(samples: Seq<CommitSample>) -> Seq<(Seq<char>, nat)>
    decreases samples.len(),
{
    if samples.len() == 0 {
        Seq::empty()
    } else {
        let h = label_histogram(samples.drop_last());
        let x = samples.last().offset@;
        let p = histogram_position(h, x);
        if p >= 0 {
            h.update(p, (x, h[p].1 + 1))
        } else {
            h.push((x, 1nat))
        }
    }
}

/// The position of `label` in a histogram given as pairs, or -1.
pub open spec fn histogram_position(h: Seq<(Seq<char>, nat)>, label: Seq<char>) -> int
    decreases h.len(),
{
    if h.len() == 0 {
        -1
    } else if h.last().0 == label {
        h.len() - 1
    } else {
        histogram_position(h.drop_last(), label)
    }
}

/// The histogram buckets as pairs of label and count.
pub open spec fn buckets(h: Seq<TimezoneCount>) -> Seq<(Seq<char>, nat)> {
    h.map_values(|b: TimezoneCount| (b.label@, b.count as nat))
}

/// Sum of the counts of a histogram given as pairs.
pub open spec fn bucket_sum(h: Seq<(Seq<char>, nat)>) -> nat
    decreases h.len(),
{
    if h.len() == 0 {
        0
    } else {
        bucket_sum(h.drop_last()) + h.last().1
    }
}

/// Sum of `v[lo..hi]`.
pub open spec fn range_sum(v: Seq<usize>, lo: int, hi: int) -> nat
    decreases hi - lo,
{
    if hi <= lo {
        0
    } else {
        range_sum(v, lo, hi - 1) + v[hi - 1] as nat
    }
}

/// The index of the first bucket with the largest count.
pub open spec fn dominant_index(h: Seq<(Seq<char>, nat)>) -> int
    decreases h.len(),
{
    if h.len() <= 1 {
        0
    } else {
        let d = dominant_index(h.drop_last());
        if h.last().1 > h[d].1 { h.len() - 1 } else { d }
    }
}

/// Offset-membership signal: more than seven tenths of the samples carry a
/// target label.
pub open spec fn membership_signal(a: ContributorAnalysis) -> bool {
    10 * a.china_timezone_commits > 7 * a.commits_count
}

/// Dominant-offset signal: the most frequent label is one of the target labels.
pub open spec fn dominant_signal(a: ContributorAnalysis) -> bool {
    is_target_label(a.common_timezone@)
}

/// Working-hours signal: more than six tenths of the samples fall within
/// the working-hours window.
pub open spec fn working_hours_signal(a: ContributorAnalysis) -> bool {
    let total = range_sum(a.commit_hours@, 0, a.commit_hours@.len() as int);
    let working = range_sum(a.commit_hours@, WORKING_HOURS_START as int, WORKING_HOURS_END as int + 1);
    total > 0 && 10 * working > 6 * total
}

/// The classification: without samples it is false; otherwise any one of
/// the three signals suffices.
pub open spec fn likely_origin(a: ContributorAnalysis) -> bool {
    a.commits_count > 0 && (membership_signal(a) || dominant_signal(a) || working_hours_signal(a))
}

impl ContributorAnalysis {
    /// The histograms agree with the sample count, as an analysis of
    /// samples makes them.
    pub open spec fn wf(&self) -> bool {
        &&& self.commit_hours@.len() == 24
        &&& range_sum(self.commit_hours@, 0, 24) == self.commits_count
        &&& bucket_sum(buckets(self.timezone_stats@)) == self.commits_count
        &&& self.china_timezone_commits <= self.commits_count
    }

    /// The offset-membership ratio: target-labelled samples over all samples.
    pub fn china_probability(&self) -> (r: Ratio)
        ensures
            r.numerator == self.china_timezone_commits,
            r.denominator == self.commits_count,
            self.wf() ==> r.numerator <= r.denominator,
    {
        Ratio { numerator: self.china_timezone_commits, denominator: self.commits_count }
    }
}

proof fn lemma_bucket_sum_bump(h: Seq<(Seq<char>, nat)>, p: int, label: Seq<char>)
    requires
        0 <= p < h.len(),
    ensures
        bucket_sum(h.update(p, (label, h[p].1 + 1))) == bucket_sum(h) + 1,
    decreases h.len(),
{
    let u = h.update(p, (label, h[p].1 + 1));
    if p == h.len() - 1 {
        assert(u.drop_last() =~= h.drop_last());
    } else {
        lemma_bucket_sum_bump(h.drop_last(), p, label);
        assert(u.drop_last() =~= h.drop_last().update(p, (label, h[p].1 + 1)));
    }
}

proof fn lemma_bucket_le_sum(h: Seq<(Seq<char>, nat)>, p: int)
    requires
        0 <= p < h.len(),
    ensures
        h[p].1 <= bucket_sum(h),
    decreases h.len(),
{
    if p < h.len() - 1 {
        lemma_bucket_le_sum(h.drop_last(), p);
    }
}

proof fn lemma_range_sum_bump(v: Seq<usize>, k: int, lo: int, hi: int)
    requires
        0 <= k < v.len(),
        0 <= lo,
        hi <= v.len(),
        v[k] < usize::MAX,
    ensures
        range_sum(v.update(k, (v[k] + 1) as usize), lo, hi)
            == range_sum(v, lo, hi) + if lo <= k < hi { 1nat } else { 0nat },
    decreases hi - lo,
{
    if hi > lo {
        lemma_range_sum_bump(v, k, lo, hi - 1);
    }
}

proof fn lemma_range_sum_split(v: Seq<usize>, lo: int, mid: int, hi: int)
    requires
        lo <= mid <= hi,
    ensures
        range_sum(v, lo, hi) == range_sum(v, lo, mid) + range_sum(v, mid, hi),
    decreases hi - mid,
{
    if hi > mid {
        lemma_range_sum_split(v, lo, mid, hi - 1);
    }
}

proof fn lemma_range_sum_zero(v: Seq<usize>, lo: int, hi: int)
    requires
        forall|i: int| lo <= i < hi ==> v[i] == 0,
    ensures
        range_sum(v, lo, hi) == 0,
    decreases hi - lo,
{
    if hi > lo {
        lemma_range_sum_zero(v, lo, hi - 1);
    }
}

proof fn lemma_histogram_position(h: Seq<TimezoneCount>, label: Seq<char>)
    ensures
        histogram_position(buckets(h), label) == find_label(h, label),
        -1 <= find_label(h, label) < h.len(),
        find_label(h, label) >= 0 ==> h[find_label(h, label)].label@ == label,
        find_label(h, label) < 0 ==> forall|i: int| 0 <= i < h.len() ==> h[i].label@ != label,
    decreases h.len(),
{
    if h.len() > 0 {
        lemma_histogram_position(h.drop_last(), label);
        assert(buckets(h).drop_last() =~= buckets(h.drop_last()));
        if find_label(h, label) < 0 {
            assert forall|i: int| 0 <= i < h.len() implies h[i].label@ != label by {
                if i < h.len() - 1 {
                    assert(h.drop_last()[i] == h[i]);
                }
            }
        }
    }
}

/// The offset-label histogram of the samples, in order of first appearance.
pub fn timezone_histogram(samples: &Vec<CommitSample>) -> (r: Vec<TimezoneCount>)
    ensures
        buckets(r@) == label_histogram(samples@),
        bucket_sum(buckets(r@)) == samples@.len(),
        forall|i: int| 0 <= i < r@.len() ==> (#[trigger] r@[i]).count == label_count(samples@, r@[i].label@),
{
    let mut r: Vec<TimezoneCount> = Vec::new();
    let mut i: usize = 0;
    while i < samples.len()
        invariant
            i <= samples@.len(),
            buckets(r@) == label_histogram(samples@.take(i as int)),
            bucket_sum(buckets(r@)) == i,
        decreases samples@.len() - i,
    {
        let label = &samples[i].offset;
        let found = bucket_position(&r, label);
        let ghost prev = samples@.take(i as int);
        proof {
            assert(samples@.take(i + 1).drop_last() =~= prev);
            lemma_histogram_position(r@, label@);
        }
        if let Some(p) = found {
            proof {
                lemma_bucket_le_sum(buckets(r@), p as int);
                lemma_bucket_sum_bump(buckets(r@), p as int, label@);
            }
            let n = r[p].count;
            r[p].count = n + 1;
            assert(buckets(r@) =~= label_histogram(samples@.take(i + 1)));
        } else {
            r.push(TimezoneCount { label: label.clone(), count: 1 });
            assert(buckets(r@) =~= label_histogram(samples@.take(i + 1)));
            assert(buckets(r@).drop_last() =~= label_histogram(prev));
        }
        i = i + 1;
    }
    assert(samples@.take(samples@.len() as int) =~= samples@);
    proof {
        lemma_label_histogram_counts(samples@);
        assert forall|i: int| 0 <= i < r@.len() implies (#[trigger] r@[i]).count == label_count(
            samples@,
            r@[i].label@,
        ) by {
            assert(buckets(r@)[i] == label_histogram(samples@)[i]);
        }
    }
    r
}

fn bucket_position(h: &Vec<TimezoneCount>, label: &String) -> (r: Option<usize>)
    ensures
        match r {
            Some(p) => p as int == find_label(h@, label@),
            None => find_label(h@, label@) < 0,
        },
{
    let mut i: usize = h.len();
    assert(h@.take(i as int) =~= h@);
    while i > 0
        invariant
            i <= h@.len(),
            find_label(h@, label@) == find_label(h@.take(i as int), label@),
        decreases i,
    {
        assert(h@.take(i as int).drop_last() =~= h@.take(i - 1));
        if h[i - 1].label == *label {
            return Some(i - 1);
        }
        i = i - 1;
    }
    None
}

/// Sample counts by local hour, one bucket per hour of the day.
pub fn hour_histogram(samples: &Vec<CommitSample>) -> (r: Vec<usize>)
    requires
        valid_samples(samples@),
    ensures
        r@.len() == 24,
        forall|h: int| 0 <= h < 24 ==> r@[h] == hour_count(samples@, h),
        range_sum(r@, 0, 24) == samples@.len(),
{
    let mut r: Vec<usize> = vec![0usize; 24];
    proof {
        lemma_range_sum_zero(r@, 0, 24);
    }
    let mut i: usize = 0;
    while i < samples.len()
        invariant
            i <= samples@.len(),
            valid_samples(samples@),
            r@.len() == 24,
            forall|h: int| 0 <= h < 24 ==> r@[h] == hour_count(samples@.take(i as int), h),
            range_sum(r@, 0, 24) == i,
        decreases samples@.len() - i,
    {
        let h = samples[i].hour as usize;
        proof {
            assert(samples@[i as int].hour < 24);
            assert(samples@.take(i + 1).drop_last() =~= samples@.take(i as int));
            assert(r@[h as int] <= range_sum(r@, 0, 24)) by {
                lemma_range_sum_split(r@, 0, h as int, 24);
                lemma_range_sum_split(r@, h as int, h + 1, 24);
                assert(range_sum(r@, h as int, h + 1) == r@[h as int]) by {
                    assert(range_sum(r@, h as int, h as int) == 0);
                }
            }
            lemma_range_sum_bump(r@, h as int, 0, 24);
        }
        let n = r[h];
        r.set(h, n + 1);
        i = i + 1;
    }
    assert(samples@.take(samples@.len() as int) =~= samples@);
    r
}

/// Number of samples whose offset label is one of the target labels.
pub fn target_samples(samples: &Vec<CommitSample>) -> (r: usize)
    ensures
        r == target_count(samples@),
        r <= samples@.len(),
{
    let mut r: usize = 0;
    let mut i: usize = 0;
    while i < samples.len()
        invariant
            i <= samples@.len(),
            r == target_count(samples@.take(i as int)),
            r <= i,
        decreases samples@.len() - i,
    {
        proof {
            assert(samples@.take(i + 1).drop_last() =~= samples@.take(i as int));
        }
        if is_china_timezone(samples[i].offset.as_str()) {
            r = r + 1;
        }
        i = i + 1;
    }
    assert(samples@.take(samples@.len() as int) =~= samples@);
    r
}

/// The first bucket with the largest count, and no earlier bucket has as
/// large a count.
pub proof fn lemma_dominant_index(h: Seq<(Seq<char>, nat)>)
    requires
        h.len() > 0,
    ensures
        0 <= dominant_index(h) < h.len(),
        forall|i: int| 0 <= i < h.len() ==> (#[trigger] h[i]).1 <= h[dominant_index(h)].1,
        forall|i: int| 0 <= i < dominant_index(h) ==> (#[trigger] h[i]).1 < h[dominant_index(h)].1,
    decreases h.len(),
{
    if h.len() > 1 {
        let t = h.drop_last();
        lemma_dominant_index(t);
        assert forall|i: int| 0 <= i < h.len() - 1 implies h[i] == t[i] by {}
    }
}

/// The position of the most frequent label; the first of equally frequent ones.
pub fn dominant_position(h: &Vec<TimezoneCount>) -> (r: usize)
    requires
        h@.len() > 0,
    ensures
        r as int == dominant_index(buckets(h@)),
        r < h@.len(),
        forall|i: int| 0 <= i < h@.len() ==> h@[i].count <= h@[r as int].count,
        forall|i: int| 0 <= i < r ==> h@[i].count < h@[r as int].count,
{
    let mut d: usize = 0;
    let mut i: usize = 1;
    while i < h.len()
        invariant
            1 <= i <= h@.len(),
            d as int == dominant_index(buckets(h@).take(i as int)),
            d < i,
        decreases h@.len() - i,
    {
        proof {
            assert(buckets(h@).take(i + 1).drop_last() =~= buckets(h@).take(i as int));
        }
        if h[i].count > h[d].count {
            d = i;
        }
        i = i + 1;
    }
    proof {
        assert(buckets(h@).take(h@.len() as int) =~= buckets(h@));
        lemma_dominant_index(buckets(h@));
        assert forall|i: int| 0 <= i < h@.len() implies buckets(h@)[i].1 == h@[i].count as nat by {}
    }
    d
}

/// Who a contributor is, as the commit history names them.
pub struct AuthorInfo {
    pub login: String,
    pub name: Option<String>,
    pub email: Option<String>,
}

/// Folds the commit samples of one contributor into an analysis; `None`
/// where there are no samples.
pub fn analyze_contributor_timezone(author: AuthorInfo, author_email: &str, commits: Vec<CommitSample>) -> (r:
    Option<ContributorAnalysis>)
    requires
        valid_samples(commits@),
    ensures
        commits@.len() == 0 <==> r is None,
        r matches Some(a) ==> {
            &&& describes(a, commits@)
            &&& a.login == author.login
            &&& a.name == author.name
            &&& a.email matches Some(e) && e@ == author_email@
        },
{
    if commits.len() == 0 {
        return None;
    }
    let timezone_stats = timezone_histogram(&commits);
    let commit_hours = hour_histogram(&commits);
    let china_timezone_commits = target_samples(&commits);
    proof {
        assert(label_histogram(commits@).len() > 0) by {
            assert(commits@.len() > 0);
        }
    }
    let d = dominant_position(&timezone_stats);
    let common_timezone = timezone_stats[d].label.clone();
    Some(ContributorAnalysis {
        login: author.login,
        name: author.name,
        email: Some(String::from_str(author_email)),
        commits_count: commits.len(),
        timezone_stats,
        china_timezone_commits,
        common_timezone,
        commit_hours,
    })
}

fn sum_range(v: &Vec<usize>, lo: usize, hi: usize) -> (r: u128)
    requires
        lo <= hi <= v@.len(),
        range_sum(v@, 0, v@.len() as int) <= usize::MAX,
    ensures
        r == range_sum(v@, lo as int, hi as int),
        r <= usize::MAX,
{
    proof {
        lemma_range_sum_split(v@, 0, lo as int, v@.len() as int);
        lemma_range_sum_split(v@, lo as int, hi as int, v@.len() as int);
    }
    let mut r: u128 = 0;
    let mut i: usize = lo;
    while i < hi
        invariant
            lo <= i <= hi <= v@.len(),
            range_sum(v@, 0, v@.len() as int) <= usize::MAX,
            r == range_sum(v@, lo as int, i as int),
        decreases hi - i,
    {
        proof {
            lemma_range_sum_split(v@, 0, lo as int, v@.len() as int);
            lemma_range_sum_split(v@, lo as int, i + 1, v@.len() as int);
        }
        r = r + v[i] as u128;
        i = i + 1;
    }
    r
}

/// Whether the contributor likely comes from the target region: never
/// without samples; otherwise when more than seven tenths of the samples
/// carry a target label, or the most frequent label is one, or more than
/// six tenths of the samples fall within the working-hours window.
pub fn is_likely_from_china(analysis: &ContributorAnalysis) -> (r: bool)
    requires
        analysis.wf(),
    ensures
        r == likely_origin(*analysis),
{
    if analysis.commits_count == 0 {
        return false;
    }
    if 10 * (analysis.china_timezone_commits as u128) > 7 * (analysis.commits_count as u128) {
        return true;
    }
    if is_china_timezone(analysis.common_timezone.as_str()) {
        return true;
    }
    let total = sum_range(&analysis.commit_hours, 0, analysis.commit_hours.len());
    let working = sum_range(&analysis.commit_hours, WORKING_HOURS_START, WORKING_HOURS_END + 1);
    total > 0 && 10 * working > 6 * total
}

/// `a` is the analysis of `samples`: its counts, histograms and dominant
/// label are those of the samples.
pub open spec fn describes(a: ContributorAnalysis, samples: Seq<CommitSample>) -> bool {
    &&& a.wf()
    &&& a.commits_count == samples.len()
    &&& buckets(a.timezone_stats@) == label_histogram(samples)
    &&& a.china_timezone_commits == target_count(samples)
    &&& a.common_timezone@ == label_histogram(samples)[dominant_index(label_histogram(samples))].0
    &&& forall|h: int| 0 <= h < 24 ==> a.commit_hours@[h] == hour_count(samples, h)
}

/// Number of samples whose local hour lies in `lo..hi`.
pub open spec fn window_count(samples: Seq<CommitSample>, lo: int, hi: int) -> nat
    decreases samples.len(),
{
    if samples.len() == 0 {
        0
    } else {
        window_count(samples.drop_last(), lo, hi) + if lo <= samples.last().hour < hi { 1nat } else { 0nat }
    }
}

proof fn lemma_window_step(samples: Seq<CommitSample>, lo: int, hi: int)
    requires
        lo < hi,
    ensures
        window_count(samples, lo, hi) == window_count(samples, lo, hi - 1) + hour_count(samples, hi - 1),
    decreases samples.len(),
{
    if samples.len() > 0 {
        lemma_window_step(samples.drop_last(), lo, hi);
    }
}

proof fn lemma_range_is_window(v: Seq<usize>, samples: Seq<CommitSample>, lo: int, hi: int)
    requires
        0 <= lo,
        hi <= v.len(),
        forall|h: int| lo <= h < hi ==> v[h] == hour_count(samples, h),
    ensures
        range_sum(v, lo, hi) == window_count(samples, lo, hi),
    decreases hi - lo,
{
    if hi > lo {
        lemma_range_is_window(v, samples, lo, hi - 1);
        lemma_window_step(samples, lo, hi);
    } else {
        lemma_window_empty(samples, lo, hi);
    }
}

proof fn lemma_window_empty(samples: Seq<CommitSample>, lo: int, hi: int)
    requires
        hi <= lo,
    ensures
        window_count(samples, lo, hi) == 0,
    decreases samples.len(),
{
    if samples.len() > 0 {
        lemma_window_empty(samples.drop_last(), lo, hi);
    }
}

proof fn lemma_no_target(samples: Seq<CommitSample>)
    requires
        forall|i: int| 0 <= i < samples.len() ==> !is_target_label(#[trigger] samples[i].offset@),
    ensures
        target_count(samples) == 0,
    decreases samples.len(),
{
    if samples.len() > 0 {
        let t = samples.drop_last();
        assert forall|i: int| 0 <= i < t.len() implies !is_target_label(#[trigger] t[i].offset@) by {
            assert(t[i] == samples[i]);
        }
        lemma_no_target(t);
        assert(samples.last() == samples[samples.len() - 1]);
    }
}

/// The reported probability is the offset-membership ratio of the samples,
/// whichever signal decides the classification: its numerator is the number
/// of target-labelled samples and its denominator the number of samples, so
/// it lies between zero and one.
pub proof fn law_probability_is_membership_ratio(a: ContributorAnalysis, samples: Seq<CommitSample>)
    requires
        describes(a, samples),
    ensures
        a.china_timezone_commits == target_count(samples),
        a.commits_count == samples.len(),
        0 <= a.china_timezone_commits <= a.commits_count,
{
}

/// More than seven tenths of the samples with a target label always
/// classify the contributor as likely from the target region.
pub proof fn law_membership_above_threshold_classifies(a: ContributorAnalysis, samples: Seq<CommitSample>)
    requires
        describes(a, samples),
        10 * target_count(samples) > 7 * samples.len(),
    ensures
        likely_origin(a),
{
}

/// Samples that carry no target label but of which more than six tenths
/// fall within the working hours classify the contributor as likely from
/// the target region, with a probability of zero.
pub proof fn law_working_hours_alone_classifies(a: ContributorAnalysis, samples: Seq<CommitSample>)
    requires
        describes(a, samples),
        forall|i: int| 0 <= i < samples.len() ==> !is_target_label(#[trigger] samples[i].offset@),
        10 * window_count(samples, WORKING_HOURS_START as int, WORKING_HOURS_END as int + 1) > 6 * samples.len(),
    ensures
        a.china_timezone_commits == 0,
        likely_origin(a),
{
    lemma_no_target(samples);
    lemma_range_is_window(a.commit_hours@, samples, WORKING_HOURS_START as int, WORKING_HOURS_END as int + 1);
    assert(samples.len() > 0);
}

proof fn lemma_position_pairs(h: Seq<(Seq<char>, nat)>, label: Seq<char>)
    ensures
        -1 <= histogram_position(h, label) < h.len(),
        histogram_position(h, label) >= 0 ==> h[histogram_position(h, label)].0 == label,
        histogram_position(h, label) < 0 ==> forall|i: int| 0 <= i < h.len() ==> h[i].0 != label,
    decreases h.len(),
{
    if h.len() > 0 {
        lemma_position_pairs(h.drop_last(), label);
        if histogram_position(h, label) < 0 {
            assert forall|i: int| 0 <= i < h.len() implies h[i].0 != label by {
                if i < h.len() - 1 {
                    assert(h.drop_last()[i] == h[i]);
                }
            }
        }
    }
}

proof fn lemma_position_same_labels(h: Seq<(Seq<char>, nat)>, g: Seq<(Seq<char>, nat)>, label: Seq<char>)
    requires
        h.len() == g.len(),
        forall|i: int| 0 <= i < h.len() ==> h[i].0 == g[i].0,
    ensures
        histogram_position(h, label) == histogram_position(g, label),
    decreases h.len(),
{
    if h.len() > 0 {
        lemma_position_same_labels(h.drop_last(), g.drop_last(), label);
    }
}

/// The offset-label histogram has one bucket per distinct label; each
/// bucket counts exactly the samples with its label, at least one; a label
/// without a bucket has no samples.
pub proof fn lemma_label_histogram_counts(samples: Seq<CommitSample>)
    ensures
        forall|i: int, j: int|
            0 <= i < j < label_histogram(samples).len() ==> label_histogram(samples)[i].0
                != label_histogram(samples)[j].0,
        forall|i: int|
            0 <= i < label_histogram(samples).len() ==> (#[trigger] label_histogram(samples)[i]).1 == label_count(
                samples,
                label_histogram(samples)[i].0,
            ) && label_histogram(samples)[i].1 > 0,
        forall|l: Seq<char>|
            histogram_position(label_histogram(samples), l) < 0 ==> #[trigger] label_count(samples, l) == 0,
    decreases samples.len(),
{
    if samples.len() > 0 {
        let s = samples.drop_last();
        let x = samples.last().offset@;
        let h = label_histogram(s);
        let g = label_histogram(samples);
        lemma_label_histogram_counts(s);
        lemma_position_pairs(h, x);
        let p = histogram_position(h, x);
        if p >= 0 {
            assert(g == h.update(p, (x, h[p].1 + 1)));
            assert forall|l: Seq<char>| histogram_position(g, l) < 0 implies #[trigger] label_count(samples, l) == 0 by {
                lemma_position_same_labels(h, g, l);
                assert(histogram_position(h, l) < 0);
                assert(label_count(s, l) == 0);
                assert(l != x);
            }
        } else {
            assert(g == h.push((x, 1nat)));
            assert forall|l: Seq<char>| histogram_position(g, l) < 0 implies #[trigger] label_count(samples, l) == 0 by {
                assert(g.drop_last() =~= h);
                assert(l != x);
                assert(histogram_position(g, l) == histogram_position(h, l));
                assert(label_count(s, l) == 0);
            }
            assert(label_count(s, x) == 0);
        }
        assert forall|i: int| 0 <= i < g.len() implies (#[trigger] g[i]).1 == label_count(samples, g[i].0) && g[i].1 > 0 by {
            if i < h.len() && i != p {
                assert(g[i] == h[i]);
                assert(h[i].0 != x);
            }
        }
    }
}

proof fn lemma_window_all_hours(samples: Seq<CommitSample>)
    requires
        valid_samples(samples),
    ensures
        window_count(samples, 0, 24) == samples.len(),
    decreases samples.len(),
{
    if samples.len() > 0 {
        let t = samples.drop_last();
        assert(valid_samples(t)) by {
            assert forall|i: int| 0 <= i < t.len() implies (#[trigger] t[i]).hour < 24 by {
                assert(t[i] == samples[i]);
            }
        }
        lemma_window_all_hours(t);
        assert(samples[samples.len() - 1].hour < 24);
    }
}

proof fn lemma_label_histogram_sum(samples: Seq<CommitSample>)
    ensures
        bucket_sum(label_histogram(samples)) == samples.len(),
    decreases samples.len(),
{
    if samples.len() > 0 {
        let s = samples.drop_last();
        let h = label_histogram(s);
        let x = samples.last().offset@;
        lemma_label_histogram_sum(s);
        lemma_position_pairs(h, x);
        let p = histogram_position(h, x);
        if p >= 0 {
            lemma_bucket_sum_bump(h, p, x);
        } else {
            assert(h.push((x, 1nat)).drop_last() =~= h);
        }
    }
}

/// Every sample adds exactly one to each histogram: the offset-label counts
/// and the hour-of-day counts both sum to the number of samples.
pub proof fn law_histograms_sum_to_sample_count(samples: Seq<CommitSample>)
    requires
        valid_samples(samples),
    ensures
        bucket_sum(label_histogram(samples)) == samples.len(),
        window_count(samples, 0, 24) == samples.len(),
        forall|v: Seq<usize>|
            v.len() == 24 && (forall|h: int| 0 <= h < 24 ==> v[h] == hour_count(samples, h)) ==> #[trigger] range_sum(
                v,
                0,
                24,
            ) == samples.len(),
{
    lemma_label_histogram_sum(samples);
    lemma_window_all_hours(samples);
    assert forall|v: Seq<usize>|
        v.len() == 24 && (forall|h: int| 0 <= h < 24 ==> v[h] == hour_count(samples, h)) implies #[trigger] range_sum(
        v,
        0,
        24,
    ) == samples.len() by {
        lemma_range_is_window(v, samples, 0, 24);
    }
}

} // verus!
