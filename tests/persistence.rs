use github_handler::ingest::{
    concurrency_limit, contributor_outcome, identity_for, plan_repository, BatchSummary, ContributorIngest,
    ContributorOutcome,
    GitHubUser, RepoPlan, TaskOutcome, TaskTally,
};
use github_handler::fetcher::{Contributor, TransportError};
use github_handler::store::{plan_contribution_write, ContributionWrite};

#[test]
fn first_contribution_is_inserted() {
    assert_eq!(plan_contribution_write(None, 12), ContributionWrite::Insert { contributions: 12 });
}

#[test]
fn same_contribution_twice_is_a_no_op() {
    let first = plan_contribution_write(None, 12);
    assert_eq!(first, ContributionWrite::Insert { contributions: 12 });
    assert_eq!(plan_contribution_write(Some(12), 12), ContributionWrite::Unchanged);
}

#[test]
fn different_contribution_replaces() {
    assert_eq!(plan_contribution_write(Some(12), 5), ContributionWrite::Update { from: 12, to: 5 });
    assert_eq!(plan_contribution_write(Some(5), 12), ContributionWrite::Update { from: 5, to: 12 });
}

#[test]
fn many_stored_contributors_skip_fetching() {
    assert_eq!(plan_repository(Some(101)), RepoPlan::UseStored);
    assert_eq!(plan_repository(Some(100)), RepoPlan::FetchRemote);
    assert_eq!(plan_repository(Some(0)), RepoPlan::FetchRemote);
    assert_eq!(plan_repository(None), RepoPlan::FetchRemote);
}

#[test]
fn concurrency_is_at_least_one() {
    assert_eq!(concurrency_limit(None), 1);
    assert_eq!(concurrency_limit(Some(0)), 1);
    assert_eq!(concurrency_limit(Some(4)), 4);
}

fn contributor() -> Contributor {
    Contributor { id: 77, login: "octo".to_string(), avatar_url: "https://a/77".to_string(), contributions: 9 }
}

#[test]
fn missing_profile_gets_a_stand_in() {
    let u = identity_for(&contributor(), Err(TransportError::BadStatus(404)));
    assert_eq!(u.id, 77);
    assert_eq!(u.login, "octo");
    assert_eq!(u.avatar_url.as_deref(), Some("https://a/77"));
    assert!(u.name.is_none() && u.email.is_none() && u.company.is_none() && u.location.is_none());
    assert!(u.bio.is_none() && u.public_repos.is_none() && u.followers.is_none() && u.following.is_none());
    assert!(u.created_at.is_none() && u.updated_at.is_none());
}

#[test]
fn fetched_profile_is_kept() {
    let profile = GitHubUser {
        id: 77,
        login: "octo".to_string(),
        avatar_url: None,
        name: Some("Octo Cat".to_string()),
        email: None,
        company: Some("Hub".to_string()),
        location: Some("Sea".to_string()),
        bio: None,
        public_repos: Some(3),
        followers: Some(10),
        following: Some(1),
        created_at: None,
        updated_at: None,
    };
    let u = identity_for(&contributor(), Ok(profile));
    assert_eq!(u.name.as_deref(), Some("Octo Cat"));
    assert_eq!(u.company.as_deref(), Some("Hub"));
    assert_eq!(u.avatar_url, None);
    assert_eq!(u.followers, Some(10));
}

#[test]
fn contributor_outcomes_are_tallied() {
    let mut t = TaskTally::new();
    t.record(contributor_outcome(true, true));
    t.record(contributor_outcome(false, true));
    t.record(contributor_outcome(true, false));
    t.record(contributor_outcome(false, false));
    assert_eq!(t, TaskTally { stored: 1, stand_ins: 1, failed: 2 });
    assert_eq!(contributor_outcome(false, true), ContributorOutcome::StoredStandIn);
}

#[test]
fn batch_counts_each_outcome() {
    let mut b = BatchSummary::new();
    b.record(TaskOutcome::Processed);
    b.record(TaskOutcome::Processed);
    b.record(TaskOutcome::Skipped);
    b.record(TaskOutcome::Failed);
    assert_eq!(b, BatchSummary { processed: 2, skipped: 1, failed: 1 });
}

fn contributors() -> Vec<Contributor> {
    (1..=4)
        .map(|i| Contributor {
            id: i,
            login: format!("c{}", i),
            avatar_url: format!("https://a/{}", i),
            contributions: (10 * i) as i32,
        })
        .collect()
}

#[test]
fn ingest_survives_each_kind_of_failure() {
    let mut ingest = ContributorIngest::new(contributors());
    let mut seen = Vec::new();
    let mut step = 0;
    while let Some(c) = ingest.current() {
        seen.push(c.login.clone());
        let (id, login) = (c.id, c.login.clone());
        let profile = if step == 1 { Err(TransportError::Network) } else { Ok(stand_alone_profile(id, &login)) };
        let user = ingest.profile_fetched(profile);
        assert_eq!(user.id, id);
        assert_eq!(user.login, login);
        let user_id = if step == 2 { None } else { Some(100 + step) };
        match ingest.user_stored(user_id) {
            Some((uid, contributions)) => {
                assert_eq!(uid, 100 + step);
                assert_eq!(contributions, (10 * id) as i32);
                ingest.contribution_stored(step != 3);
            }
            None => assert_eq!(step, 2),
        }
        step += 1;
    }
    assert_eq!(seen, vec!["c1", "c2", "c3", "c4"]);
    assert_eq!(*ingest.outcomes(), TaskTally { stored: 1, stand_ins: 1, failed: 2 });
}

#[test]
fn ingest_of_nothing_is_done_at_once() {
    let ingest = ContributorIngest::new(Vec::new());
    assert!(ingest.current().is_none());
    assert_eq!(*ingest.outcomes(), TaskTally { stored: 0, stand_ins: 0, failed: 0 });
}

fn stand_alone_profile(id: i64, login: &str) -> GitHubUser {
    GitHubUser {
        id,
        login: login.to_string(),
        avatar_url: None,
        name: Some(format!("{} name", login)),
        email: None,
        company: None,
        location: None,
        bio: None,
        public_repos: None,
        followers: None,
        following: None,
        created_at: None,
        updated_at: None,
    }
}
