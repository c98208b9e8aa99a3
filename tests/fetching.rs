use github_handler::fetcher::{
    CommitAuthor, CommitPage, Contributor, ContributorFetcher, FetchResult, FetchStatus, TransportError,
};

fn author(id: i64) -> Option<CommitAuthor> {
    Some(CommitAuthor { id, login: format!("user{}", id), avatar_url: format!("https://avatars/{}", id) })
}

fn page(ids: &[i64], has_next_page: bool) -> CommitPage {
    CommitPage { authors: ids.iter().map(|&i| author(i)).collect(), has_next_page }
}

/// Drives a fetcher over the responses in order, checking the page numbers it asks for.
fn drive(max_pages: u32, responses: Vec<Result<CommitPage, TransportError>>) -> FetchResult {
    let mut f = ContributorFetcher::new(max_pages, 100);
    let mut expected_page = 1;
    for r in responses {
        if f.is_finished() {
            break;
        }
        let req = f.next_request().expect("running fetch asks for a page");
        assert_eq!(req.page, expected_page);
        assert_eq!(req.per_page, 100);
        f.handle_response(r);
        expected_page += 1;
    }
    assert!(f.is_finished());
    assert!(f.next_request().is_none());
    f.finish()
}

fn totals(cs: &[Contributor]) -> Vec<(i64, i32)> {
    let mut v: Vec<(i64, i32)> = cs.iter().map(|c| (c.id, c.contributions)).collect();
    v.sort();
    v
}

fn records(n: usize) -> Vec<i64> {
    (0..n).map(|i| (i % 7) as i64).collect()
}

#[test]
fn one_page_or_two_give_the_same_totals() {
    let all = records(150);
    let one = drive(10, vec![Ok(page(&all, false))]);
    let two = drive(10, vec![Ok(page(&all[..100], true)), Ok(page(&all[100..], false))]);
    assert!(matches!(one.status, FetchStatus::Done));
    assert!(matches!(two.status, FetchStatus::Done));
    assert_eq!(totals(&one.contributors), totals(&two.contributors));
    assert_eq!(one.contributors.iter().map(|c| c.contributions).sum::<i32>(), 150);
}

#[test]
fn page_order_does_not_change_totals() {
    let a = [1, 2, 2, 3];
    let b = [3, 3, 4];
    let ab = drive(10, vec![Ok(page(&a, true)), Ok(page(&b, false))]);
    let ba = drive(10, vec![Ok(page(&b, true)), Ok(page(&a, false))]);
    assert_eq!(totals(&ab.contributors), totals(&ba.contributors));
    assert_eq!(totals(&ab.contributors), vec![(1, 1), (2, 2), (3, 3), (4, 1)]);
}

#[test]
fn rate_limit_on_third_page_keeps_first_two() {
    let first = [1, 1, 2];
    let second = [2, 3];
    let rejected = TransportError::RateLimited { remaining: Some(0), reset: Some(1_700_000_000) };
    let mut responses = vec![Ok(page(&first, true)), Ok(page(&second, true)), Err(rejected)];
    for _ in 3..10 {
        responses.push(Ok(page(&[9], true)));
    }
    let r = drive(10, responses);
    match r.status {
        FetchStatus::Aborted(TransportError::RateLimited { remaining, reset }) => {
            assert_eq!(remaining, Some(0));
            assert_eq!(reset, Some(1_700_000_000));
        },
        _ => panic!("expected a rate-limit abort"),
    }
    assert_eq!(totals(&r.contributors), vec![(1, 2), (2, 2), (3, 1)]);
}

#[test]
fn other_failures_abort_with_partial_totals() {
    for e in [TransportError::Network, TransportError::BadStatus(500), TransportError::Malformed] {
        let r = drive(10, vec![Ok(page(&[5, 5], true)), Err(e)]);
        assert!(matches!(r.status, FetchStatus::Aborted(_)));
        assert_eq!(totals(&r.contributors), vec![(5, 2)]);
    }
    let r = drive(10, vec![Err(TransportError::BadStatus(404))]);
    assert!(matches!(r.status, FetchStatus::Aborted(TransportError::BadStatus(404))));
    assert!(r.contributors.is_empty());
}

#[test]
fn result_is_sorted_by_count_with_ties_in_first_seen_order() {
    let r = drive(10, vec![Ok(page(&[7, 3, 3, 8, 7, 9, 3], false))]);
    let got: Vec<(i64, i32)> = r.contributors.iter().map(|c| (c.id, c.contributions)).collect();
    assert_eq!(got, vec![(3, 3), (7, 2), (8, 1), (9, 1)]);
    assert_eq!(r.contributors[0].login, "user3");
    assert_eq!(r.contributors[0].avatar_url, "https://avatars/3");
}

#[test]
fn commits_without_account_are_not_counted() {
    let p = CommitPage { authors: vec![None, author(1), None], has_next_page: false };
    let r = drive(10, vec![Ok(p)]);
    assert_eq!(totals(&r.contributors), vec![(1, 1)]);
}

#[test]
fn empty_page_with_next_link_does_not_end_the_walk() {
    let r = drive(10, vec![Ok(page(&[1], true)), Ok(page(&[], true)), Ok(page(&[2], false))]);
    assert!(matches!(r.status, FetchStatus::Done));
    assert_eq!(totals(&r.contributors), vec![(1, 1), (2, 1)]);
}

#[test]
fn empty_last_page_ends_the_walk() {
    let r = drive(10, vec![Ok(page(&[1], true)), Ok(page(&[], false)), Ok(page(&[2], false))]);
    assert!(matches!(r.status, FetchStatus::Done));
    assert_eq!(totals(&r.contributors), vec![(1, 1)]);
}

#[test]
fn rate_limit_after_empty_pages_is_reported() {
    let rejected = TransportError::RateLimited { remaining: Some(0), reset: Some(42) };
    let r = drive(10, vec![Ok(page(&[], true)), Ok(page(&[4], true)), Err(rejected), Ok(page(&[5], false))]);
    match r.status {
        FetchStatus::Aborted(TransportError::RateLimited { remaining, reset }) => {
            assert_eq!((remaining, reset), (Some(0), Some(42)));
        },
        _ => panic!("expected a rate-limit abort"),
    }
    assert_eq!(totals(&r.contributors), vec![(4, 1)]);
}

#[test]
fn shuffled_records_give_the_same_totals() {
    let x = drive(10, vec![Ok(page(&[1, 2, 3, 1], true)), Ok(page(&[2, 1], false))]);
    let y = drive(10, vec![Ok(page(&[1, 1], true)), Ok(page(&[], true)), Ok(page(&[2, 3, 2, 1], false))]);
    assert_eq!(totals(&x.contributors), totals(&y.contributors));
    assert_eq!(totals(&x.contributors), vec![(1, 3), (2, 2), (3, 1)]);
}

#[test]
fn page_cap_ends_the_walk() {
    let responses: Vec<_> = (0..5).map(|i| Ok(page(&[i], true))).collect();
    let r = drive(3, responses);
    assert!(matches!(r.status, FetchStatus::Done));
    assert_eq!(totals(&r.contributors), vec![(0, 1), (1, 1), (2, 1)]);
}

#[test]
fn zero_page_cap_fetches_nothing() {
    let f = ContributorFetcher::new(0, 100);
    assert!(f.is_finished());
    assert!(f.next_request().is_none());
    let r = f.finish();
    assert!(r.contributors.is_empty());
    assert!(matches!(r.status, FetchStatus::Done));
}

#[test]
fn recorded_counts_every_entry() {
    let mut f = ContributorFetcher::new(5, 100);
    f.handle_response(Ok(CommitPage { authors: vec![None, author(1), author(1)], has_next_page: true }));
    assert_eq!(f.recorded(), 3);
    assert!(!f.is_finished());
    assert_eq!(f.next_request().map(|r| r.page), Some(2));
}
