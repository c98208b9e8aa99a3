use github_handler::analysis::{
    analyze_contributor_timezone, is_likely_from_china, AuthorInfo, CommitSample, ContributorAnalysis,
};
use github_handler::timezone::{is_china_timezone, parse_timezone_offset};

fn sample(hour: u32, offset: &str) -> CommitSample {
    CommitSample { hour, offset: offset.to_string() }
}

fn author() -> AuthorInfo {
    AuthorInfo { login: "dev".to_string(), name: Some("Dev".to_string()), email: None }
}

fn analyze(samples: Vec<CommitSample>) -> ContributorAnalysis {
    analyze_contributor_timezone(author(), "dev@example.com", samples).expect("samples given")
}

#[test]
fn target_labels_are_recognised() {
    assert!(is_china_timezone("+0800"));
    assert!(is_china_timezone("+08:00"));
    assert!(is_china_timezone("CST"));
    assert!(is_china_timezone("Asia/Shanghai"));
    assert!(!is_china_timezone("UTC+08:00 (local)"));
    assert!(!is_china_timezone("CST6CDT"));
    assert!(!is_china_timezone("Asia/Shanghai "));
    assert!(!is_china_timezone("+0900"));
    assert!(!is_china_timezone("-05:00"));
    assert!(!is_china_timezone(""));
    assert!(!is_china_timezone("Unknown"));
}

#[test]
fn offsets_parse_to_seconds_east() {
    assert_eq!(parse_timezone_offset("+0800"), Some(28800));
    assert_eq!(parse_timezone_offset("+08:00"), Some(28800));
    assert_eq!(parse_timezone_offset("-05:30"), Some(-19800));
    assert_eq!(parse_timezone_offset("-0000"), Some(0));
    assert_eq!(parse_timezone_offset("CST"), Some(28800));
    assert_eq!(parse_timezone_offset("Asia/Shanghai"), Some(28800));
    assert_eq!(parse_timezone_offset("Asia/Beijing"), Some(28800));
}

#[test]
fn offsets_out_of_range_or_malformed_are_rejected() {
    assert_eq!(parse_timezone_offset("+2400"), None);
    assert_eq!(parse_timezone_offset("+9999"), None);
    assert_eq!(parse_timezone_offset("+08x0"), None);
    assert_eq!(parse_timezone_offset("+080"), None);
    assert_eq!(parse_timezone_offset("0800"), None);
    assert_eq!(parse_timezone_offset("UTC"), None);
    assert_eq!(parse_timezone_offset(""), None);
}

#[test]
fn no_samples_means_no_analysis() {
    assert!(analyze_contributor_timezone(author(), "dev@example.com", Vec::new()).is_none());
}

#[test]
fn histograms_sum_to_sample_count() {
    let a = analyze(vec![sample(10, "+08:00"), sample(23, "-05:00"), sample(10, "+08:00"), sample(0, "Z")]);
    assert_eq!(a.commits_count, 4);
    assert_eq!(a.commit_hours.len(), 24);
    assert_eq!(a.commit_hours.iter().sum::<usize>(), 4);
    assert_eq!(a.commit_hours[10], 2);
    assert_eq!(a.commit_hours[23], 1);
    assert_eq!(a.commit_hours[0], 1);
    let labels: Vec<(&str, usize)> = a.timezone_stats.iter().map(|b| (b.label.as_str(), b.count)).collect();
    assert_eq!(labels, vec![("+08:00", 2), ("-05:00", 1), ("Z", 1)]);
    assert_eq!(a.common_timezone, "+08:00");
    assert_eq!(a.login, "dev");
    assert_eq!(a.name.as_deref(), Some("Dev"));
    assert_eq!(a.email.as_deref(), Some("dev@example.com"));
}

#[test]
fn dominant_offset_ties_go_to_first_met() {
    let a = analyze(vec![sample(3, "-07:00"), sample(4, "+01:00"), sample(5, "+01:00"), sample(6, "-07:00")]);
    assert_eq!(a.common_timezone, "-07:00");
}

#[test]
fn eight_of_ten_target_offsets_classify_true() {
    let mut samples = Vec::new();
    for _ in 0..8 {
        samples.push(sample(22, "+0800"));
    }
    samples.push(sample(2, "-0700"));
    samples.push(sample(3, "-0700"));
    let a = analyze(samples);
    let p = a.china_probability();
    assert_eq!((p.numerator, p.denominator), (8, 10));
    assert!(is_likely_from_china(&a));
}

#[test]
fn dominant_target_offset_classifies_at_seven_tenths() {
    let mut samples = Vec::new();
    for _ in 0..7 {
        samples.push(sample(22, "+0800"));
    }
    for _ in 0..3 {
        samples.push(sample(2, "-0700"));
    }
    let a = analyze(samples);
    let p = a.china_probability();
    assert_eq!((p.numerator, p.denominator), (7, 10));
    assert_eq!(a.common_timezone, "+0800");
    assert!(is_likely_from_china(&a));
}

#[test]
fn target_share_below_threshold_without_other_signals_is_false() {
    let mut samples = Vec::new();
    for _ in 0..3 {
        samples.push(sample(22, "+08:00"));
    }
    for _ in 0..4 {
        samples.push(sample(2, "-07:00"));
    }
    let a = analyze(samples);
    assert_eq!(a.china_timezone_commits, 3);
    assert_eq!(a.common_timezone, "-07:00");
    assert!(!is_likely_from_china(&a));
}

#[test]
fn working_hours_alone_classify_true_with_zero_probability() {
    let mut samples = Vec::new();
    for h in [9u32, 10, 11, 12, 14, 16, 18] {
        samples.push(sample(h, "-05:00"));
    }
    for h in [2u32, 21, 23] {
        samples.push(sample(h, "-05:00"));
    }
    let a = analyze(samples);
    let p = a.china_probability();
    assert_eq!((p.numerator, p.denominator), (0, 10));
    assert!(is_likely_from_china(&a));
}

#[test]
fn six_of_ten_in_working_hours_is_not_enough() {
    let mut samples = Vec::new();
    for h in [9u32, 10, 11, 12, 17, 18] {
        samples.push(sample(h, "-05:00"));
    }
    for h in [8u32, 19, 21, 23] {
        samples.push(sample(h, "-05:00"));
    }
    let a = analyze(samples);
    assert!(!is_likely_from_china(&a));
}

#[test]
fn labels_containing_a_target_label_do_not_count() {
    let a = analyze(vec![sample(2, "CST6CDT"), sample(3, "CST6CDT"), sample(4, "-06:00")]);
    assert_eq!(a.china_timezone_commits, 0);
    assert_eq!(a.common_timezone, "CST6CDT");
    assert!(!is_likely_from_china(&a));
}

#[test]
fn analysis_without_samples_is_never_classified() {
    let a = ContributorAnalysis {
        login: "ghost".to_string(),
        name: None,
        email: None,
        commits_count: 0,
        timezone_stats: Vec::new(),
        china_timezone_commits: 0,
        common_timezone: "CST".to_string(),
        commit_hours: vec![0; 24],
    };
    assert!(!is_likely_from_china(&a));
}
