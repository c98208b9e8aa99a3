//! The paginated contributor fetcher: walks a cursor-paginated commit
//! listing page by page, sums the commits of each author, and stops at the
//! last page, at the page cap, or at the first transport failure, keeping
//! what it has summed so far.
//!
//! The fetcher itself performs no I/O: the caller asks it which page to
//! request next, performs the request, and hands the response back.

use vstd::prelude::*;
use crate::ranking::{Ranked, rank_descending, ranked, is_rank_descending};

verus! {

/// Number of records asked for per page.
pub const DEFAULT_PAGE_SIZE: u32 = 100;

/// Hard cap on the number of pages walked for one repository.
pub const DEFAULT_MAX_PAGES: u32 = 100;

/// A contributor of a repository with its number of commits.
pub struct Contributor {
    pub id: i64,
    pub login: String,
    pub avatar_url: String,
    pub contributions: i32,
}

impl Ranked for Contributor {
    open spec fn rank(&self) -> int {
        self.contributions as int
    }

    fn rank_of(&self) -> (r: i128) {
        self.contributions as i128
    }
}

/// The author of one listed commit, as the listing reports it.
pub struct CommitAuthor {
    pub id: i64,
    pub login: String,
    pub avatar_url: String,
}

/// One page of the commit listing: one entry per commit, `None` where the
/// commit has no linked account.
pub struct CommitPage {
    pub authors: Vec<Option<CommitAuthor>>,
    pub has_next_page: bool,
}

/// Why a page could not be had.
pub enum TransportError {
    /// The request did not complete.
    Network,
    /// The service refused the request for exhausted quota; the quota left
    /// and the time at which it resets, as far as the response gave them.
    RateLimited { remaining: Option<u64>, reset: Option<i64> },
    /// Any other non-success status.
    BadStatus(u16),
    /// The page body could not be read as a commit listing.
    Malformed,
}

/// How a fetch ended.
pub enum FetchStatus {
    /// A page announced no next page, or the page cap was reached.
    Done,
    /// A request failed; the totals hold the pages before it.
    Aborted(TransportError),
}

/// The request the caller is to perform next.
pub struct PageRequest {
    pub page: u32,
    pub per_page: u32,
}

/// What a finished fetch hands back: the contributors by commit count,
/// highest first, and how the fetch ended.
pub struct FetchResult {
    pub contributors: Vec<Contributor>,
    pub status: FetchStatus,
}

/// The position of the entry for `id` in `cs`, or -1.
pub open spec fn find_id(cs: Seq<Contributor>, id: i64) -> int
    decreases cs.len(),
{
    if cs.len() == 0 {
        -1
    } else if cs.last().id == id {
        cs.len() - 1
    } else {
        find_id(cs.drop_last(), id)
    }
}

/// No two entries share an identity.
pub open spec fn ids_unique(cs: Seq<Contributor>) -> bool {
    forall|i: int, j: int| 0 <= i < j < cs.len() ==> cs[i].id != cs[j].id
}

/// `cs` after counting one more commit of `a`: the entry of `a` gains one,
/// or a new entry with one commit is appended.
pub open spec fn tally_author(cs: Seq<Contributor>, a: Option<CommitAuthor>) -> Seq<Contributor> {
    match a {
        None => cs,
        Some(a) => {
            let p = find_id(cs, a.id);
            if p >= 0 {
                cs.update(p, Contributor { contributions: (cs[p].contributions + 1) as i32, ..cs[p] })
            } else {
                cs.push(Contributor { id: a.id, login: a.login, avatar_url: a.avatar_url, contributions: 1 })
            }
        },
    }
}

/// `cs` after counting the commits of `authors`, in order.
pub open spec fn tally(cs: Seq<Contributor>, authors: Seq<Option<CommitAuthor>>) -> Seq<Contributor>
    decreases authors.len(),
{
    if authors.len() == 0 {
        cs
    } else {
        tally_author(tally(cs, authors.drop_last()), authors.last())
    }
}

/// The commits counted for `id` in `cs`.
pub open spec fn total_of(cs: Seq<Contributor>, id: i64) -> int {
    let p = find_id(cs, id);
    if p >= 0 { cs[p].contributions as int } else { 0 }
}

/// The number of commits of `id` in `authors`.
pub open spec fn commits_of(authors: Seq<Option<CommitAuthor>>, id: i64) -> int
    decreases authors.len(),
{
    if authors.len() == 0 {
        0
    } else {
        commits_of(authors.drop_last(), id) + match authors.last() {
            Some(a) => if a.id == id { 1int } else { 0int },
            None => 0int,
        }
    }
}

/// The fetcher's state as a mathematical value.
pub ghost struct FetchState {
    pub next_page: int,
    pub max_pages: int,
    pub per_page: int,
    pub contributors: Seq<Contributor>,
    pub recorded: int,
    pub status: Option<FetchStatus>,
}

/// The state in which a fetch begins.
pub open spec fn initial_state(max_pages: int, per_page: int) -> FetchState {
    FetchState {
        next_page: 1,
        max_pages,
        per_page,
        contributors: Seq::empty(),
        recorded: 0,
        status: if max_pages == 0 { Some(FetchStatus::Done) } else { None },
    }
}

/// The state after one response. A finished fetch ignores further responses.
pub open spec fn step(s: FetchState, response: Result<CommitPage, TransportError>) -> FetchState {
    if s.status is Some {
        s
    } else {
        match response {
            Err(e) => FetchState { status: Some(FetchStatus::Aborted(e)), ..s },
            Ok(page) => {
                let counted = FetchState {
                    contributors: tally(s.contributors, page.authors@),
                    recorded: s.recorded + page.authors@.len(),
                    ..s
                };
                if !page.has_next_page || s.next_page >= s.max_pages {
                    FetchState { status: Some(FetchStatus::Done), ..counted }
                } else {
                    FetchState { next_page: s.next_page + 1, ..counted }
                }
            },
        }
    }
}

/// The state after a sequence of responses, in order.
pub open spec fn run(s: FetchState, responses: Seq<Result<CommitPage, TransportError>>) -> FetchState
    decreases responses.len(),
{
    if responses.len() == 0 {
        s
    } else {
        step(run(s, responses.drop_last()), responses.last())
    }
}

/// Walks the commit listing of one repository.
pub struct ContributorFetcher {
    next_page: u32,
    max_pages: u32,
    per_page: u32,
    contributors: Vec<Contributor>,
    recorded: u64,
    status: Option<FetchStatus>,
}

impl ContributorFetcher {
    pub closed spec fn view(&self) -> FetchState {
        FetchState {
            next_page: self.next_page as int,
            max_pages: self.max_pages as int,
            per_page: self.per_page as int,
            contributors: self.contributors@,
            recorded: self.recorded as int,
            status: self.status,
        }
    }

    /// Identities are unique, every count lies between one and the number
    /// of records seen, and a running fetch has a page left under the cap.
    pub closed spec fn wf(&self) -> bool {
        &&& ids_unique(self.contributors@)
        &&& self.recorded <= i32::MAX
        &&& forall|i: int| 0 <= i < self.contributors@.len() ==>
                1 <= #[trigger] self.contributors@[i].contributions <= self.recorded
        &&& (self.status is None ==> 1 <= self.next_page <= self.max_pages)
    }

    /// A fetch that walks at most `max_pages` pages of `per_page` records.
    pub fn new(max_pages: u32, per_page: u32) -> (r: Self)
        ensures
            r.wf(),
            r.view() == initial_state(max_pages as int, per_page as int),
    {
        ContributorFetcher {
            next_page: 1,
            max_pages,
            per_page,
            contributors: Vec::new(),
            recorded: 0,
            status: if max_pages == 0 { Some(FetchStatus::Done) } else { None },
        }
    }

    /// Whether the fetch has ended.
    pub fn is_finished(&self) -> (r: bool)
        ensures
            r == (self.view().status is Some),
    {
        self.status.is_some()
    }

    /// The number of records counted so far, with or without an author.
    pub fn recorded(&self) -> (r: u64)
        ensures
            r as int == self.view().recorded,
    {
        self.recorded
    }

    /// The page to request next, while the fetch runs.
    pub fn next_request(&self) -> (r: Option<PageRequest>)
        ensures
            match r {
                None => self.view().status is Some,
                Some(q) => self.view().status is None && q.page as int == self.view().next_page
                    && q.per_page as int == self.view().per_page,
            },
    {
        if self.status.is_some() {
            None
        } else {
            Some(PageRequest { page: self.next_page, per_page: self.per_page })
        }
    }

    /// Counts one response: a page adds its commits, the last page or the
    /// page cap ends the fetch, a failure aborts it with what was counted
    /// before.
    pub fn handle_response(&mut self, response: Result<CommitPage, TransportError>)
        requires
            old(self).wf(),
            response matches Ok(page) ==> old(self).view().recorded + page.authors@.len() <= i32::MAX,
        ensures
            final(self).wf(),
            final(self).view() == step(old(self).view(), response),
    {
        if self.status.is_some() {
            return;
        }
        match response {
            Err(e) => {
                self.status = Some(FetchStatus::Aborted(e));
            },
            Ok(page) => {
                let has_next = page.has_next_page;
                self.count_page(page.authors);
                if !has_next || self.next_page >= self.max_pages {
                    self.status = Some(FetchStatus::Done);
                } else {
                    self.next_page = self.next_page + 1;
                }
            },
        }
    }

    fn count_page(&mut self, authors: Vec<Option<CommitAuthor>>)
        requires
            old(self).wf(),
            old(self).status is None,
            old(self).recorded + authors@.len() <= i32::MAX,
        ensures
            final(self).wf(),
            final(self).view() == (FetchState {
                contributors: tally(old(self).view().contributors, authors@),
                recorded: old(self).view().recorded + authors@.len(),
                ..old(self).view()
            }),
    {
        let ghost start = self.contributors@;
        let ghost start_recorded = self.recorded;
        let ghost all = authors@;
        for a in it: authors
            invariant
                it.seq() == all,
                start_recorded + all.len() <= i32::MAX,
                self.wf(),
                self.status is None,
                self.next_page == old(self).next_page,
                self.max_pages == old(self).max_pages,
                self.per_page == old(self).per_page,
                self.recorded == start_recorded + it.index(),
                self.contributors@ == tally(start, all.take(it.index() as int)),
        {
            proof {
                assert(all.take(it.index() + 1).drop_last() =~= all.take(it.index() as int));
            }
            self.count_author(a);
        }
        proof {
            assert(all.take(all.len() as int) =~= all);
        }
    }

    fn count_author(&mut self, a: Option<CommitAuthor>)
        requires
            old(self).wf(),
            old(self).status is None,
            old(self).recorded < i32::MAX,
        ensures
            final(self).wf(),
            final(self).view() == (FetchState {
                contributors: tally_author(old(self).view().contributors, a),
                recorded: old(self).view().recorded + 1,
                ..old(self).view()
            }),
    {
        match a {
            None => {},
            Some(a) => {
                let p = self.position(a.id);
                proof {
                    lemma_find_id(self.contributors@, a.id);
                }
                match p {
                    Some(p) => {
                        let n = self.contributors[p].contributions;
                        self.contributors[p].contributions = n + 1;
                    },
                    None => {
                        self.contributors.push(
                            Contributor { id: a.id, login: a.login, avatar_url: a.avatar_url, contributions: 1 },
                        );
                    },
                }
            },
        }
        self.recorded = self.recorded + 1;
    }

    fn position(&self, id: i64) -> (r: Option<usize>)
        ensures
            match r {
                Some(p) => p < self.contributors@.len() && self.contributors@[p as int].id == id,
                None => forall|i: int| 0 <= i < self.contributors@.len() ==> self.contributors@[i].id != id,
            },
    {
        let mut i: usize = 0;
        while i < self.contributors.len()
            invariant
                i <= self.contributors@.len(),
                forall|j: int| 0 <= j < i ==> self.contributors@[j].id != id,
            decreases self.contributors@.len() - i,
        {
            if self.contributors[i].id == id {
                return Some(i);
            }
            i = i + 1;
        }
        None
    }

    /// Ends the fetch: the contributors by commit count, highest first,
    /// equal counts in the order in which they were first met.
    pub fn finish(self) -> (r: FetchResult)
        requires
            self.view().status is Some,
        ensures
            r.contributors@ == ranked(self.view().contributors),
            is_rank_descending(r.contributors@),
            r.contributors@.to_multiset() == self.view().contributors.to_multiset(),
            r.contributors@.len() == self.view().contributors.len(),
            Some(r.status) == self.view().status,
    {
        let status = match self.status {
            Some(s) => s,
            None => FetchStatus::Done,
        };
        proof {
            crate::ranking::lemma_ranked_properties(self.contributors@);
        }
        FetchResult { contributors: rank_descending(self.contributors), status }
    }
}

/// `find_id` finds the entry of an identity where there is one, and finds
/// nothing where there is none.
pub proof fn lemma_find_id(cs: Seq<Contributor>, id: i64)
    ensures
        -1 <= find_id(cs, id) < cs.len(),
        find_id(cs, id) >= 0 ==> cs[find_id(cs, id)].id == id,
        find_id(cs, id) < 0 <==> forall|i: int| 0 <= i < cs.len() ==> cs[i].id != id,
        ids_unique(cs) ==> forall|i: int| 0 <= i < cs.len() && cs[i].id == id ==> i == find_id(cs, id),
    decreases cs.len(),
{
    if cs.len() > 0 {
        let t = cs.drop_last();
        lemma_find_id(t, id);
        if cs.last().id != id {
            assert forall|i: int| 0 <= i < cs.len() && cs[i].id == id implies i < t.len() by {}
            if find_id(t, id) < 0 {
                assert forall|i: int| 0 <= i < cs.len() implies cs[i].id != id by {
                    if i < t.len() {
                        assert(t[i] == cs[i]);
                    }
                }
            }
        }
    }
}

/// All commit entries of `pages`, page after page.
pub open spec fn all_authors(pages: Seq<CommitPage>) -> Seq<Option<CommitAuthor>>
    decreases pages.len(),
{
    if pages.len() == 0 {
        Seq::empty()
    } else {
        all_authors(pages.drop_last()) + pages.last().authors@
    }
}

/// Each page as a successful response.
pub open spec fn as_responses(pages: Seq<CommitPage>) -> Seq<Result<CommitPage, TransportError>> {
    pages.map_values(|p: CommitPage| Ok(p))
}

/// Pages that a fetch capped at `max_pages` counts in full: there are no
/// more of them than the cap, and each but the last announces a next page.
pub open spec fn walkable(pages: Seq<CommitPage>, max_pages: int) -> bool {
    &&& pages.len() <= max_pages
    &&& forall|i: int| 0 <= i < pages.len() - 1 ==> (#[trigger] pages[i]).has_next_page
}

proof fn lemma_tally_concat(cs: Seq<Contributor>, a: Seq<Option<CommitAuthor>>, b: Seq<Option<CommitAuthor>>)
    ensures
        tally(cs, a + b) == tally(tally(cs, a), b),
    decreases b.len(),
{
    if b.len() == 0 {
        assert(a + b =~= a);
    } else {
        lemma_tally_concat(cs, a, b.drop_last());
        assert((a + b).drop_last() =~= a + b.drop_last());
        assert((a + b).last() == b.last());
    }
}

proof fn lemma_commits_bounded(a: Seq<Option<CommitAuthor>>, id: i64)
    ensures
        0 <= commits_of(a, id) <= a.len(),
    decreases a.len(),
{
    if a.len() > 0 {
        lemma_commits_bounded(a.drop_last(), id);
    }
}

/// Counting keeps identities unique, and the count of each identity grows
/// by exactly its number of commits among the counted entries.
pub proof fn lemma_tally_totals(cs: Seq<Contributor>, a: Seq<Option<CommitAuthor>>, id: i64)
    requires
        ids_unique(cs),
        total_of(cs, id) + commits_of(a, id) <= i32::MAX,
    ensures
        ids_unique(tally(cs, a)),
        total_of(tally(cs, a), id) == total_of(cs, id) + commits_of(a, id),
    decreases a.len(),
{
    if a.len() > 0 {
        let t = a.drop_last();
        assert(commits_of(a, id) == commits_of(t, id) + match a.last() {
            Some(x) => if x.id == id { 1int } else { 0int },
            None => 0int,
        });
        lemma_tally_totals(cs, t, id);
        let before = tally(cs, t);
        let after = tally(cs, a);
        match a.last() {
            None => {},
            Some(x) => {
                lemma_find_id(before, x.id);
                lemma_find_id(before, id);
                let p = find_id(before, x.id);
                if p < 0 {
                    assert(after.drop_last() =~= before);
                    assert(after.last().id == x.id);
                    assert(ids_unique(after)) by {
                        assert forall|i: int, j: int| 0 <= i < j < after.len() implies after[i].id != after[j].id by {
                            if j == after.len() - 1 {
                                assert(after[i] == before[i]);
                            } else {
                                assert(after[i] == before[i] && after[j] == before[j]);
                            }
                        }
                    }
                } else {
                    assert(ids_unique(after)) by {
                        assert forall|i: int, j: int| 0 <= i < j < after.len() implies after[i].id != after[j].id by {
                            assert(after[i].id == before[i].id && after[j].id == before[j].id);
                        }
                    }
                    lemma_find_id(after, id);
                    if x.id == id {
                        assert(after[p].id == id);
                    } else {
                        let q = find_id(before, id);
                        if q >= 0 {
                            assert(after[q].id == id);
                            assert(after[q] == before[q]);
                        } else {
                            assert forall|i: int| 0 <= i < after.len() implies after[i].id != id by {
                                assert(after[i].id == before[i].id);
                            }
                        }
                    }
                }
            },
        }
    }
}

/// The state after a run of pages that are all counted.
proof fn lemma_run_walkable(max_pages: int, per_page: int, pages: Seq<CommitPage>)
    requires
        walkable(pages, max_pages),
        max_pages > 0,
    ensures
        run(initial_state(max_pages, per_page), as_responses(pages)).contributors
            == tally(Seq::empty(), all_authors(pages)),
        run(initial_state(max_pages, per_page), as_responses(pages)).max_pages == max_pages,
        pages.len() > 0 && pages.last().has_next_page && pages.len() < max_pages ==>
            run(initial_state(max_pages, per_page), as_responses(pages)).status is None
            && run(initial_state(max_pages, per_page), as_responses(pages)).next_page == pages.len() + 1,
        pages.len() == 0 ==> run(initial_state(max_pages, per_page), as_responses(pages))
            == initial_state(max_pages, per_page),
    decreases pages.len(),
{
    if pages.len() > 0 {
        let t = pages.drop_last();
        assert(as_responses(pages).drop_last() =~= as_responses(t));
        assert(walkable(t, max_pages)) by {
            assert forall|i: int| 0 <= i < t.len() - 1 implies (#[trigger] t[i]).has_next_page by {
                assert(t[i] == pages[i]);
            }
        }
        lemma_run_walkable(max_pages, per_page, t);
        if t.len() > 0 {
            assert(t.last() == pages[t.len() - 1]);
            assert(pages[t.len() - 1].has_next_page);
        }
        assert(as_responses(pages).last() == Ok::<CommitPage, TransportError>(pages.last()));
        let prev = run(initial_state(max_pages, per_page), as_responses(t));
        assert(run(initial_state(max_pages, per_page), as_responses(pages)) == step(prev, Ok(pages.last())));
        if pages.last().has_next_page && pages.len() < max_pages {
            assert(prev.status is None);
            assert(prev.next_page == t.len() + 1);
        }
        lemma_tally_concat(Seq::empty(), all_authors(t), pages.last().authors@);
        assert(pages.last() == pages[pages.len() - 1]);
    }
}

/// Splitting the same commits into pages differently leaves the counted
/// contributors unchanged: one page of the commits gives the same entries,
/// in the same order with the same counts, as any split of them.
pub proof fn law_totals_ignore_page_split(
    max_pages: int,
    per_page: int,
    p: Seq<CommitPage>,
    q: Seq<CommitPage>,
)
    requires
        max_pages > 0,
        walkable(p, max_pages),
        walkable(q, max_pages),
        all_authors(p) == all_authors(q),
    ensures
        run(initial_state(max_pages, per_page), as_responses(p)).contributors
            == run(initial_state(max_pages, per_page), as_responses(q)).contributors,
{
    lemma_run_walkable(max_pages, per_page, p);
    lemma_run_walkable(max_pages, per_page, q);
}

proof fn lemma_commits_insert(s: Seq<Option<CommitAuthor>>, i: int, x: Option<CommitAuthor>, id: i64)
    requires
        0 <= i <= s.len(),
    ensures
        commits_of(s.insert(i, x), id) == commits_of(s, id) + commits_of(seq![x], id),
    decreases s.len(),
{
    assert(seq![x].drop_last() =~= Seq::<Option<CommitAuthor>>::empty());
    assert(seq![x].last() == x);
    assert(commits_of(seq![x], id) == commits_of(Seq::<Option<CommitAuthor>>::empty(), id) + match x {
        Some(a) => if a.id == id { 1int } else { 0int },
        None => 0int,
    });
    if i == s.len() {
        assert(s.insert(i, x) =~= s.push(x));
        assert(s.push(x).drop_last() =~= s);
    } else {
        lemma_commits_insert(s.drop_last(), i, x, id);
        assert(s.insert(i, x).drop_last() =~= s.drop_last().insert(i, x));
        assert(s.insert(i, x).last() == s.last());
    }
}

proof fn lemma_commits_permutation(a: Seq<Option<CommitAuthor>>, b: Seq<Option<CommitAuthor>>, id: i64)
    requires
        a.to_multiset() == b.to_multiset(),
    ensures
        commits_of(a, id) == commits_of(b, id),
    decreases a.len(),
{
    broadcast use vstd::seq_lib::group_to_multiset_ensures;

    if a.len() == 0 {
        assert(b.to_multiset().len() == 0);
        assert(b.len() == 0);
    } else {
        let x = a.last();
        assert(a =~= a.drop_last().push(x));
        assert(b.to_multiset().contains(x));
        assert(b.contains(x));
        let i = choose|i: int| 0 <= i < b.len() && b[i] == x;
        let rest = b.remove(i);
        assert(b =~= rest.insert(i, x));
        assert(a.drop_last().to_multiset() =~= rest.to_multiset());
        lemma_commits_permutation(a.drop_last(), rest, id);
        lemma_commits_insert(rest, i, x, id);
        lemma_commits_insert(a.drop_last(), a.len() - 1, x, id);
        assert(a.drop_last().insert(a.len() - 1, x) =~= a);
    }
}

/// Neither the order of the pages nor the order of the commits in them
/// changes any identity's total: walks whose commits are the same up to
/// order count each identity as often, namely its number of commits.
pub proof fn law_totals_ignore_record_order(
    max_pages: int,
    per_page: int,
    p: Seq<CommitPage>,
    q: Seq<CommitPage>,
    id: i64,
)
    requires
        max_pages > 0,
        walkable(p, max_pages),
        walkable(q, max_pages),
        all_authors(p).to_multiset() == all_authors(q).to_multiset(),
        all_authors(p).len() <= i32::MAX,
    ensures
        total_of(run(initial_state(max_pages, per_page), as_responses(p)).contributors, id)
            == total_of(run(initial_state(max_pages, per_page), as_responses(q)).contributors, id),
        total_of(run(initial_state(max_pages, per_page), as_responses(p)).contributors, id)
            == commits_of(all_authors(p), id),
{
    lemma_run_walkable(max_pages, per_page, p);
    lemma_run_walkable(max_pages, per_page, q);
    lemma_commits_permutation(all_authors(p), all_authors(q), id);
    lemma_commits_bounded(all_authors(p), id);
    lemma_commits_bounded(all_authors(q), id);
    lemma_find_id(Seq::<Contributor>::empty(), id);
    lemma_tally_totals(Seq::empty(), all_authors(p), id);
    lemma_tally_totals(Seq::empty(), all_authors(q), id);
}

/// A failed request after some pages ends the fetch as aborted with that
/// failure, a rate-limit refusal with its quota and reset time, and keeps
/// exactly what the earlier pages counted.
pub proof fn law_abort_keeps_earlier_pages(
    max_pages: int,
    per_page: int,
    pages: Seq<CommitPage>,
    e: TransportError,
)
    requires
        walkable(pages, max_pages),
        pages.len() < max_pages,
        pages.len() > 0 ==> pages.last().has_next_page,
    ensures
        ({
            let end = run(initial_state(max_pages, per_page), as_responses(pages).push(Err(e)));
            &&& end.status == Some(FetchStatus::Aborted(e))
            &&& end.contributors == tally(Seq::empty(), all_authors(pages))
        }),
{
    lemma_run_walkable(max_pages, per_page, pages);
    assert(as_responses(pages).push(Err(e)).drop_last() =~= as_responses(pages));
}

} // verus!
