use github_handler::gitlog::{author_info_from_log, commits_from_log, emails_from_shortlog};

#[test]
fn commit_log_lines_become_samples() {
    let out = "2024-01-15T10:30:00+08:00\n2024-01-16T23:05:00-05:00\n\nnot a date\n2024-02-01T08:00:00+00:00\n";
    let samples = commits_from_log(out);
    let got: Vec<(u32, &str)> = samples.iter().map(|s| (s.hour, s.offset.as_str())).collect();
    assert_eq!(got, vec![(10, "+08:00"), (23, "-05:00"), (8, "+00:00")]);
}

#[test]
fn commit_hour_is_local_to_the_offset() {
    let samples = commits_from_log("  2024-03-10T01:15:00+09:00  ");
    assert_eq!(samples.len(), 1);
    assert_eq!(samples[0].hour, 1);
    assert_eq!(samples[0].offset, "+09:00");
}

#[test]
fn empty_log_gives_no_samples() {
    assert!(commits_from_log("").is_empty());
    assert!(commits_from_log("\n\n").is_empty());
}

#[test]
fn author_info_reads_name_and_email() {
    let info = author_info_from_log("Jane Doe|jane@example.org\n", "jane@example.org");
    assert_eq!(info.login, "jane");
    assert_eq!(info.name.as_deref(), Some("Jane Doe"));
    assert_eq!(info.email.as_deref(), Some("jane@example.org"));
}

#[test]
fn author_info_without_fields_keeps_the_address() {
    let info = author_info_from_log("\n", "nobody");
    assert_eq!(info.login, "nobody");
    assert_eq!(info.name, None);
    assert_eq!(info.email.as_deref(), Some("nobody"));
}

#[test]
fn shortlog_lines_give_addresses() {
    let out = "   42\tJane Doe <jane@example.org>\n    7\tBob < bob@example.com >\n    1\tNo Mail\n    2\tOdd >x< \n";
    let emails = emails_from_shortlog(out);
    assert_eq!(emails, vec!["jane@example.org".to_string(), "bob@example.com".to_string()]);
}

#[test]
fn unicode_white_space_is_trimmed() {
    let info = author_info_from_log("\u{3000}Jane|jane@example.org\u{a0}\n", "jane@example.org");
    assert_eq!(info.name.as_deref(), Some("Jane"));
    assert_eq!(info.email.as_deref(), Some("jane@example.org"));
}
