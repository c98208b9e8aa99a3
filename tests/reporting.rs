use github_handler::analysis::{analyze_contributor_timezone, AuthorInfo, CommitSample, ContributorAnalysis};
use github_handler::report::generate_contributors_report;

fn analysis(login: &str, offset: &str, hour: u32, commits: usize) -> ContributorAnalysis {
    let samples = (0..commits).map(|_| CommitSample { hour, offset: offset.to_string() }).collect();
    let author = AuthorInfo { login: login.to_string(), name: None, email: None };
    analyze_contributor_timezone(author, "x@example.com", samples).expect("samples given")
}

#[test]
fn report_splits_and_counts() {
    let analyses = vec![
        analysis("a", "+08:00", 22, 3),
        analysis("b", "-05:00", 22, 10),
        analysis("c", "+0800", 3, 7),
        analysis("d", "-05:00", 10, 2),
    ];
    let r = generate_contributors_report(analyses);
    assert_eq!(r.total_contributors, 4);
    assert_eq!(r.china_contributors_count, 3);
    assert_eq!(r.non_china_contributors_count, 1);
    assert_eq!(r.total_commits, 22);
    assert_eq!(r.china_commits, 12);
    assert_eq!(r.non_china_commits, 10);
    let china: Vec<&str> = r.top_china_contributors.iter().map(|a| a.login.as_str()).collect();
    assert_eq!(china, vec!["c", "a", "d"]);
    let other: Vec<&str> = r.top_non_china_contributors.iter().map(|a| a.login.as_str()).collect();
    assert_eq!(other, vec!["b"]);
    let share = r.china_share();
    assert_eq!((share.numerator, share.denominator), (3, 4));
    let commit_share = r.china_commit_share();
    assert_eq!((commit_share.numerator, commit_share.denominator), (12, 22));
}

#[test]
fn report_lists_at_most_ten_per_group() {
    let analyses: Vec<ContributorAnalysis> =
        (0..13).map(|i| analysis(&format!("u{}", i), "+08:00", 22, i + 1)).collect();
    let r = generate_contributors_report(analyses);
    assert_eq!(r.china_contributors_count, 13);
    assert_eq!(r.top_china_contributors.len(), 10);
    assert_eq!(r.top_china_contributors[0].login, "u12");
    assert_eq!(r.top_china_contributors[9].login, "u3");
    assert!(r.top_non_china_contributors.is_empty());
}

#[test]
fn empty_report() {
    let r = generate_contributors_report(Vec::new());
    assert_eq!(r.total_contributors, 0);
    assert_eq!(r.total_commits, 0);
    assert!(r.top_china_contributors.is_empty());
}
