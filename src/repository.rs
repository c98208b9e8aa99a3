//! Naming a hosted repository: its owner and name from a URL or a path, and
//! its identifier among the registered repositories.

use vstd::prelude::*;
use crate::gitlog::string_views;
use crate::text::{chars_of, contains, occurs_in, split_chars, split_on, string_of, views};

verus! {

/// The path segments of an absolute URL: `None` where the text does not
/// parse as one, no segments where it cannot serve as a base.
pub uninterp spec fn url_path_segments(s: Seq<char>) -> Option<Seq<Seq<char>>>;

/// Relies on `url::Url::parse` and `Url::path_segments`: the segments of the
/// parsed URL's path, split at `/`.
#[verifier::external_body]
fn path_segments_of_url(s: &str) -> (r: Option<Vec<String>>)
    ensures
        match r {
            None => url_path_segments(s@) is None,
            Some(v) => url_path_segments(s@) == Some(string_views(v@)),
        },
{
    url::Url::parse(s).ok().map(|u| u.path_segments().map(|p| p.map(String::from).collect()).unwrap_or_default())
}

/// `s` without any number of trailing `.git`, as `trim_end_matches(".git")`.
pub open spec fn strip_git_suffix(s: Seq<char>) -> Seq<char>
    decreases s.len(),
{
    if s.len() >= 4 && s.skip(s.len() - 4) == seq!['.', 'g', 'i', 't'] {
        strip_git_suffix(s.take(s.len() - 4))
    } else {
        s
    }
}

/// Owner and name from the first two segments of a URL path.
pub open spec fn repo_of_segments(segs: Seq<Seq<char>>) -> Option<(Seq<char>, Seq<char>)> {
    if segs.len() >= 2 {
        Some((segs[0], strip_git_suffix(segs[1])))
    } else {
        None
    }
}

/// Owner and name from the last two `/`-separated pieces of a path.
pub open spec fn repo_of_path(s: Seq<char>) -> Option<(Seq<char>, Seq<char>)> {
    let parts = split_on(s, '/');
    if parts.len() >= 2 {
        Some((parts[parts.len() - 2], strip_git_suffix(parts[parts.len() - 1])))
    } else {
        None
    }
}

/// Owner and name of the repository that `s` names, as a URL or else as an
/// `owner/name` path.
pub open spec fn repo_of_url(s: Seq<char>) -> Option<(Seq<char>, Seq<char>)> {
    match url_path_segments(s) {
        Some(segs) => repo_of_segments(segs),
        None => repo_of_path(s),
    }
}

/// The views of an owner and name pair.
pub open spec fn pair_view(p: Option<(String, String)>) -> Option<(Seq<char>, Seq<char>)> {
    match p {
        Some((a, b)) => Some((a@, b@)),
        None => None,
    }
}

fn strip_git(v: &Vec<char>) -> (r: String)
    ensures
        r@ == strip_git_suffix(v@),
{
    let mut end: usize = v.len();
    assert(v@.take(end as int) =~= v@);
    while end >= 4 && v[end - 4] == '.' && v[end - 3] == 'g' && v[end - 2] == 'i' && v[end - 1] == 't'
        invariant
            end <= v@.len(),
            strip_git_suffix(v@) == strip_git_suffix(v@.take(end as int)),
        decreases end,
    {
        let ghost t = v@.take(end as int);
        assert(t.skip(t.len() - 4) =~= seq!['.', 'g', 'i', 't']);
        assert(t.take(t.len() - 4) =~= v@.take(end - 4));
        end = end - 4;
    }
    let ghost t = v@.take(end as int);
    if end >= 4 {
        assert(t.skip(t.len() - 4) != seq!['.', 'g', 'i', 't']) by {
            if t.skip(t.len() - 4) == seq!['.', 'g', 'i', 't'] {
                assert(t.skip(t.len() - 4)[0] == v@[end - 4]);
                assert(t.skip(t.len() - 4)[1] == v@[end - 3]);
                assert(t.skip(t.len() - 4)[2] == v@[end - 2]);
                assert(t.skip(t.len() - 4)[3] == v@[end - 1]);
            }
        }
    }
    let r = string_of(v, 0, end);
    assert(r@ =~= t);
    r
}

/// Owner and name from URL path segments: the first segment and the
/// second without its `.git` suffix.
pub fn repo_from_segments(segments: &Vec<String>) -> (r: Option<(String, String)>)
    ensures
        pair_view(r) == repo_of_segments(string_views(segments@)),
{
    if segments.len() < 2 {
        return None;
    }
    let owner = segments[0].clone();
    let name_chars = chars_of(segments[1].as_str());
    let name = strip_git(&name_chars);
    Some((owner, name))
}

/// Owner and name from an `owner/name` path: the last two pieces, the
/// second without its `.git` suffix.
pub fn repo_from_path(path: &str) -> (r: Option<(String, String)>)
    ensures
        pair_view(r) == repo_of_path(path@),
{
    let chars = chars_of(path);
    let parts = split_chars(&chars, 0, chars.len(), '/');
    assert(chars@.subrange(0, chars@.len() as int) =~= path@);
    let n = parts.len();
    if n < 2 {
        return None;
    }
    let o = &parts[n - 2];
    let owner = string_of(o, 0, o.len());
    assert(o@.subrange(0, o@.len() as int) =~= o@);
    let name = strip_git(&parts[n - 1]);
    assert(views(parts@)[n - 2] == o@);
    Some((owner, name))
}

/// Owner and name of the repository that `repo_url` names: from the path
/// of an absolute URL, or else from an `owner/name` path.
pub fn parse_github_repo_url(repo_url: &str) -> (r: Option<(String, String)>)
    ensures
        pair_view(r) == repo_of_url(repo_url@),
{
    match path_segments_of_url(repo_url) {
        Some(segments) => repo_from_segments(&segments),
        None => repo_from_path(repo_url),
    }
}

/// A registered repository.
pub struct Program {
    pub id: i32,
    pub name: String,
    pub github_url: Option<String>,
}

/// `owner/name` as characters.
pub open spec fn owner_slash_name(owner: Seq<char>, name: Seq<char>) -> Seq<char> {
    owner.push('/') + name
}

/// Whether the repository's URL holds `owner/name`.
pub open spec fn url_names(p: Program, owner: Seq<char>, name: Seq<char>) -> bool {
    p.github_url matches Some(u) && occurs_in(u@, owner_slash_name(owner, name))
}

/// The first position in `ps` whose element satisfies `f`, or -1.
pub open spec fn first_program(ps: Seq<Program>, f: spec_fn(Program) -> bool) -> int
    decreases ps.len(),
{
    if ps.len() == 0 {
        -1
    } else if first_program(ps.drop_last(), f) >= 0 {
        first_program(ps.drop_last(), f)
    } else if f(ps.last()) {
        ps.len() - 1
    } else {
        -1
    }
}

/// Selects the repositories whose URL holds `owner/name`.
pub open spec fn url_filter(owner: Seq<char>, name: Seq<char>) -> spec_fn(Program) -> bool {
    |p: Program| url_names(p, owner, name)
}

/// Selects the repositories called `name`.
pub open spec fn name_filter(name: Seq<char>) -> spec_fn(Program) -> bool {
    |p: Program| p.name@ == name
}

/// The identifier of the repository `owner/name`: the first whose URL holds
/// `owner/name`, else the first called `name`.
pub open spec fn repository_id_of(ps: Seq<Program>, owner: Seq<char>, name: Seq<char>) -> Option<i32> {
    let by_url = first_program(ps, url_filter(owner, name));
    let by_name = first_program(ps, name_filter(name));
    if by_url >= 0 {
        Some(ps[by_url].id)
    } else if by_name >= 0 {
        Some(ps[by_name].id)
    } else {
        None
    }
}

proof fn lemma_first_program_step(ps: Seq<Program>, f: spec_fn(Program) -> bool, i: int)
    requires
        0 <= i < ps.len(),
        first_program(ps.take(i), f) < 0,
    ensures
        first_program(ps.take(i + 1), f) == if f(ps[i]) { i } else { -1 },
{
    assert(ps.take(i + 1).drop_last() =~= ps.take(i));
}

proof fn lemma_first_program_prefix(ps: Seq<Program>, f: spec_fn(Program) -> bool, k: int)
    requires
        0 <= k <= ps.len(),
        first_program(ps.take(k), f) >= 0,
    ensures
        first_program(ps, f) == first_program(ps.take(k), f),
    decreases ps.len() - k,
{
    if k < ps.len() {
        assert(ps.take(k + 1).drop_last() =~= ps.take(k));
        lemma_first_program_prefix(ps, f, k + 1);
    } else {
        assert(ps.take(k) =~= ps);
    }
}

/// The identifier of the registered repository `owner/name`: the first whose
/// URL holds `owner/name`, else the first called `name`; `None` if neither.
pub fn find_repository_id(programs: &Vec<Program>, owner: &str, repo: &str) -> (r: Option<i32>)
    ensures
        r == repository_id_of(programs@, owner@, repo@),
{
    let ghost ps = programs@;
    let ghost by_url = url_filter(owner@, repo@);
    let ghost by_name = name_filter(repo@);
    let mut pattern = chars_of(owner);
    pattern.push('/');
    let repo_chars = chars_of(repo);
    let mut k: usize = 0;
    while k < repo_chars.len()
        invariant
            k <= repo_chars@.len(),
            pattern@ == owner@.push('/') + repo_chars@.take(k as int),
        decreases repo_chars@.len() - k,
    {
        pattern.push(repo_chars[k]);
        assert(pattern@ =~= owner@.push('/') + repo_chars@.take(k + 1));
        k = k + 1;
    }
    assert(repo_chars@.take(k as int) =~= repo@);
    let mut i: usize = 0;
    assert(ps.take(0) =~= Seq::<Program>::empty());
    while i < programs.len()
        invariant
            i <= ps.len(),
            ps == programs@,
            pattern@ == owner_slash_name(owner@, repo@),
            first_program(ps.take(i as int), by_url) < 0,
            by_url == url_filter(owner@, repo@),
        decreases ps.len() - i,
    {
        proof {
            lemma_first_program_step(ps, by_url, i as int);
        }
        match &programs[i].github_url {
            Some(u) => {
                let uc = chars_of(u.as_str());
                if contains(&uc, &pattern) {
                    proof {
                        assert(by_url(ps[i as int]));
                        lemma_first_program_prefix(ps, by_url, i + 1);
                    }
                    return Some(programs[i].id);
                }
            },
            None => {},
        }
        i = i + 1;
    }
    assert(ps.take(i as int) =~= ps);
    let repo_name = String::from_str(repo);
    let mut j: usize = 0;
    while j < programs.len()
        invariant
            j <= ps.len(),
            ps == programs@,
            first_program(ps, by_url) < 0,
            first_program(ps.take(j as int), by_name) < 0,
            repo_name@ == repo@,
            by_url == url_filter(owner@, repo@),
            by_name == name_filter(repo@),
        decreases ps.len() - j,
    {
        proof {
            lemma_first_program_step(ps, by_name, j as int);
        }
        if programs[j].name == repo_name {
            proof {
                assert(by_name(ps[j as int]));
                lemma_first_program_prefix(ps, by_name, j + 1);
            }
            return Some(programs[j].id);
        }
        j = j + 1;
    }
    assert(ps.take(j as int) =~= ps);
    None
}

} // verus!
