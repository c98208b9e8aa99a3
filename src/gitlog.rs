//! Reading the output of the version-control tool: commit timestamps with
//! their offset labels, the author of a commit, and the contributor emails
//! of a short log.

use vstd::prelude::*;
use crate::analysis::{AuthorInfo, CommitSample, valid_samples};
use crate::text::{
    chars_of, find_char, first_index, split_chars, split_on, string_of, trim_bounds, trimmed, views,
};

verus! {

/// The local hour of day of a timestamp read as relaxed RFC 3339 with an
/// offset, in that offset; `None` where it does not read as one.
pub uninterp spec fn timestamp_local_hour(s: Seq<char>) -> Option<u32>;

/// Relies on chrono's `FromStr for DateTime<FixedOffset>` (relaxed RFC 3339)
/// and on `Timelike::hour` of the result, the local hour from 0 to 23.
#[verifier::external_body]
fn local_hour(s: &str) -> (r: Option<u32>)
    ensures
        r == timestamp_local_hour(s@),
        r matches Some(h) ==> h < 24,
{
    s.parse::<chrono::DateTime<chrono::FixedOffset>>().ok().map(|dt| chrono::Timelike::hour(&dt))
}

/// The last position of a sign character in `s`, or -1.
pub open spec fn last_sign_index(s: Seq<char>) -> int
    decreases s.len(),
{
    if s.len() == 0 {
        -1
    } else if s.last() == '+' || s.last() == '-' {
        s.len() - 1
    } else {
        last_sign_index(s.drop_last())
    }
}

/// The offset label of a timestamp line: the text from its last sign on;
/// else `Z` where the line holds one; else `Unknown`.
pub open spec fn offset_label(line: Seq<char>) -> Seq<char> {
    let p = last_sign_index(line);
    if p >= 0 {
        line.skip(p)
    } else if first_index(line, 'Z') >= 0 {
        seq!['Z']
    } else {
        seq!['U', 'n', 'k', 'n', 'o', 'w', 'n']
    }
}

/// The samples that the lines give: one for each non-empty line that reads
/// as a timestamp, as (local hour, offset label).
pub open spec fn samples_of_lines(lines: Seq<Seq<char>>) -> Seq<(u32, Seq<char>)>
    decreases lines.len(),
{
    if lines.len() == 0 {
        Seq::empty()
    } else {
        let prev = samples_of_lines(lines.drop_last());
        let l = lines.last();
        if l.len() > 0 && timestamp_local_hour(l) is Some {
            prev.push((timestamp_local_hour(l)->0, offset_label(l)))
        } else {
            prev
        }
    }
}

/// The samples as pairs of local hour and offset label.
pub open spec fn sample_views(s: Seq<CommitSample>) -> Seq<(u32, Seq<char>)> {
    s.map_values(|c: CommitSample| (c.hour, c.offset@))
}

/// The lines of a tool's output, trimmed as a whole first.
pub open spec fn output_lines(out: Seq<char>) -> Seq<Seq<char>> {
    split_on(trimmed(out), '\n')
}

fn offset_label_of(line: &Vec<char>) -> (r: String)
    ensures
        r@ == offset_label(line@),
{
    let mut i: usize = line.len();
    assert(line@.take(i as int) =~= line@);
    while i > 0
        invariant
            i <= line@.len(),
            last_sign_index(line@) == last_sign_index(line@.take(i as int)),
        decreases i,
    {
        assert(line@.take(i as int).drop_last() =~= line@.take(i - 1));
        if line[i - 1] == '+' || line[i - 1] == '-' {
            let r = string_of(line, i - 1, line.len());
            assert(r@ =~= line@.skip(i - 1));
            return r;
        }
        i = i - 1;
    }
    assert(line@.take(0) =~= Seq::<char>::empty());
    if find_char(line, 'Z').is_some() {
        let z = vec!['Z'];
        let r = string_of(&z, 0, 1);
        assert(r@ =~= seq!['Z']);
        r
    } else {
        let u = vec!['U', 'n', 'k', 'n', 'o', 'w', 'n'];
        let r = string_of(&u, 0, 7);
        assert(r@ =~= seq!['U', 'n', 'k', 'n', 'o', 'w', 'n']);
        r
    }
}

/// The commit samples in the output of a log listing one ISO 8601 author
/// date per line.
pub fn commits_from_log(stdout: &str) -> (r: Vec<CommitSample>)
    ensures
        sample_views(r@) == samples_of_lines(output_lines(stdout@)),
        valid_samples(r@),
{
    let chars = chars_of(stdout);
    let (a, b) = trim_bounds(&chars, 0, chars.len());
    assert(chars@.subrange(0, chars@.len() as int) =~= stdout@);
    let lines = split_chars(&chars, a, b, '\n');
    let ghost all = views(lines@);
    let mut r: Vec<CommitSample> = Vec::new();
    let mut i: usize = 0;
    while i < lines.len()
        invariant
            i <= lines@.len(),
            all == views(lines@),
            all == output_lines(stdout@),
            sample_views(r@) == samples_of_lines(all.take(i as int)),
            valid_samples(r@),
        decreases lines@.len() - i,
    {
        let line = &lines[i];
        assert(all.take(i + 1).drop_last() =~= all.take(i as int));
        assert(all.take(i + 1).last() == line@);
        if line.len() > 0 {
            let text = string_of(line, 0, line.len());
            assert(line@.subrange(0, line@.len() as int) =~= line@);
            match local_hour(text.as_str()) {
                Some(hour) => {
                    let offset = offset_label_of(line);
                    r.push(CommitSample { hour, offset });
                    assert(sample_views(r@) =~= samples_of_lines(all.take(i + 1)));
                },
                None => {},
            }
        }
        i = i + 1;
    }
    assert(all.take(lines@.len() as int) =~= all);
    r
}

/// The text before the first `@` of an address, or all of it.
pub open spec fn local_part(email: Seq<char>) -> Seq<char> {
    split_on(email, '@')[0]
}

/// The author described by the output of a log listing `name|email` for
/// one commit, with `author_email` the address the log was asked about.
pub fn author_info_from_log(stdout: &str, author_email: &str) -> (r: AuthorInfo)
    ensures
        r.login@ == local_part(author_email@),
        ({
            let parts = split_on(trimmed(stdout@), '|');
            if parts.len() >= 2 {
                &&& r.name matches Some(n) && n@ == parts[0]
                &&& r.email matches Some(e) && e@ == parts[1]
            } else {
                &&& r.name is None
                &&& r.email matches Some(e) && e@ == author_email@
            }
        }),
{
    let email_chars = chars_of(author_email);
    let email_parts = split_chars(&email_chars, 0, email_chars.len(), '@');
    assert(email_chars@.subrange(0, email_chars@.len() as int) =~= author_email@);
    proof {
        crate::text::lemma_split_on_nonempty(author_email@, '@');
    }
    let first = &email_parts[0];
    let login = string_of(first, 0, first.len());
    assert(first@.subrange(0, first@.len() as int) =~= first@);

    let chars = chars_of(stdout);
    let (a, b) = trim_bounds(&chars, 0, chars.len());
    assert(chars@.subrange(0, chars@.len() as int) =~= stdout@);
    let parts = split_chars(&chars, a, b, '|');
    if parts.len() >= 2 {
        let n = &parts[0];
        let e = &parts[1];
        assert(n@.subrange(0, n@.len() as int) =~= n@);
        assert(e@.subrange(0, e@.len() as int) =~= e@);
        AuthorInfo {
            login,
            name: Some(string_of(n, 0, n.len())),
            email: Some(string_of(e, 0, e.len())),
        }
    } else {
        AuthorInfo { login, name: None, email: Some(String::from_str(author_email)) }
    }
}

/// The address between the first `<` and the first `>` of a short-log line,
/// trimmed; `None` where the line lacks either or has them the wrong way
/// round.
pub open spec fn email_of_line(line: Seq<char>) -> Option<Seq<char>> {
    let lt = first_index(line, '<');
    let gt = first_index(line, '>');
    if lt >= 0 && gt > lt {
        Some(trimmed(line.subrange(lt + 1, gt)))
    } else {
        None
    }
}

/// The addresses of the lines, in order.
pub open spec fn emails_of_lines(lines: Seq<Seq<char>>) -> Seq<Seq<char>>
    decreases lines.len(),
{
    if lines.len() == 0 {
        Seq::empty()
    } else {
        let prev = emails_of_lines(lines.drop_last());
        match email_of_line(lines.last()) {
            Some(e) => prev.push(e),
            None => prev,
        }
    }
}

/// The views of a sequence of strings.
pub open spec fn string_views(v: Seq<String>) -> Seq<Seq<char>> {
    v.map_values(|x: String| x@)
}

/// The contributor addresses in the output of a short log that lists
/// `count name <email>` per line.
pub fn emails_from_shortlog(stdout: &str) -> (r: Vec<String>)
    ensures
        string_views(r@) == emails_of_lines(output_lines(stdout@)),
{
    let chars = chars_of(stdout);
    let (a, b) = trim_bounds(&chars, 0, chars.len());
    assert(chars@.subrange(0, chars@.len() as int) =~= stdout@);
    let lines = split_chars(&chars, a, b, '\n');
    let ghost all = views(lines@);
    let mut r: Vec<String> = Vec::new();
    let mut i: usize = 0;
    while i < lines.len()
        invariant
            i <= lines@.len(),
            all == views(lines@),
            all == output_lines(stdout@),
            string_views(r@) == emails_of_lines(all.take(i as int)),
        decreases lines@.len() - i,
    {
        let line = &lines[i];
        assert(all.take(i + 1).drop_last() =~= all.take(i as int));
        assert(all.take(i + 1).last() == line@);
        match (find_char(line, '<'), find_char(line, '>')) {
            (Some(lt), Some(gt)) => {
                if gt > lt {
                    let (x, y) = trim_bounds(line, lt + 1, gt);
                    r.push(string_of(line, x, y));
                    assert(string_views(r@) =~= emails_of_lines(all.take(i + 1)));
                }
            },
            _ => {},
        }
        i = i + 1;
    }
    assert(all.take(lines@.len() as int) =~= all);
    r
}

} // verus!
