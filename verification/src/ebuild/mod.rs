//! Ebuilds (PMS 6 and 7): where they are, the EAPI they declare, and the functions they
//! may call.
pub mod handler;

use crate::eapi::{Eapi, EapiError, eapi_number, eapi_of};
use crate::error::Error;
use crate::package::cpv::{CPV, CpvView};
use crate::package::version::version_text;
use crate::repository::Repository;
use crate::text::{
    content_lines,
    append_str, chars_of, end_before, find_char, is_alnum, is_alnum_char, is_unicode_ws, lemma_end_before,
    push_char, string_from, texts, trim, trim_ws,
};
use vstd::prelude::*;

verus! {

/// `a` joined with the relative path `b` as `PathBuf::push` does: a `/` between them
/// unless `a` is empty or ends with one.
pub open spec fn path_join(a: Seq<char>, b: Seq<char>) -> Seq<char> {
    if a.len() == 0 || a.last() == '/' {
        a + b
    } else {
        a + seq!['/'] + b
    }
}

/// The package's name and full version, `PF` (PMS 11.1).
pub open spec fn pf_text(c: CpvView) -> Seq<char> {
    c.package + seq!['-'] + version_text(c.version)
}

/// The path of the ebuild `<location>/<category>/<package>/<pf>.ebuild`.
pub open spec fn ebuild_path(location: Seq<char>, category: Seq<char>, package: Seq<char>, pf: Seq<char>) -> Seq<char> {
    path_join(path_join(path_join(location, category), package), pf + ".ebuild"@)
}

/// A line that is blank or a comment.
pub open spec fn is_blank_or_comment(line: Seq<char>) -> bool {
    trim_ws(line).len() == 0 || trim_ws(line)[0] == '#'
}

/// The first line that is neither blank nor a comment.
pub open spec fn first_code_line(lines: Seq<Seq<char>>) -> Option<Seq<char>>
    decreases lines.len(),
{
    if lines.len() == 0 {
        None
    } else if !is_blank_or_comment(lines[0]) {
        Some(lines[0])
    } else {
        first_code_line(lines.drop_first())
    }
}

/// A space or a tab.
pub open spec fn is_blank(c: char) -> bool {
    c == ' ' || c == '\t'
}

/// The characters of an EAPI value: `[A-Za-z0-9+_.-]`.
pub open spec fn is_eapi_char(c: char) -> bool {
    is_alnum(c) || c == '+' || c == '_' || c == '.' || c == '-'
}

/// The end of the run of characters `p` from `i`.
pub open spec fn run_end(s: Seq<char>, i: int, value: bool) -> int
    decreases s.len() - i,
{
    if 0 <= i < s.len() && (if value {
        is_eapi_char(s[i])
    } else {
        is_blank(s[i])
    }) {
        run_end(s, i + 1, value)
    } else {
        i
    }
}

/// What may follow an EAPI value: blanks to the end, or blanks and a `#` comment.
pub open spec fn trailing_ok(s: Seq<char>, i: int) -> bool {
    let k = run_end(s, i, false);
    k >= s.len() || (k > i && s[k] == '#' && forall|j: int| k <= j < s.len() ==> s[j] != '\n')
}

/// The value of an EAPI declaration (PMS 7.3.1) on `line`: blanks, `EAPI=`, the value
/// in matching single, double or no quotes, and blanks or a comment.
pub open spec fn eapi_declaration(line: Seq<char>) -> Option<Seq<char>> {
    let i = run_end(line, 0, false);
    let j = i + 5;
    if !(j <= line.len() && line.subrange(i, j) == "EAPI="@) {
        None
    } else if j < line.len() && (line[j] == '\'' || line[j] == '"') && run_end(line, j + 1, true) < line.len()
        && line[run_end(line, j + 1, true)] == line[j] && trailing_ok(line, run_end(line, j + 1, true) + 1) {
        Some(line.subrange(j + 1, run_end(line, j + 1, true)))
    } else if trailing_ok(line, run_end(line, j, true)) {
        Some(line.subrange(j, run_end(line, j, true)))
    } else {
        None
    }
}

/// The EAPI an ebuild declares in its first line that is neither blank nor a comment;
/// EAPI 0 where there is none or it is empty. An unrecognized value is the error.
pub open spec fn content_eapi(content: Seq<char>) -> Result<Eapi, Seq<char>> {
    match first_code_line(content_lines(content)) {
        None => Ok(Eapi::Zero),
        Some(line) => match eapi_declaration(line) {
            None => Ok(Eapi::Zero),
            Some(v) => if v.len() == 0 {
                Ok(Eapi::Zero)
            } else {
                match eapi_number(v) {
                    Some(n) => Ok(eapi_of(n)),
                    None => Err(v),
                }
            },
        },
    }
}

/// Errors of loading an ebuild.
#[derive(Debug)]
pub enum EbuildError {
    /// The declared EAPI is not recognized.
    Eapi(EapiError),
    /// The EAPI is not supported for ebuilds.
    UnsupportedEapi(Eapi),
    /// An internal error.
    Internal(Error),
    /// The ebuild could not be read.
    Io { path: String, message: String },
}

impl EbuildError {
    /// Returns the description of this error.
    pub fn to_string(&self) -> (r: String)
        ensures
            match self {
                EbuildError::Eapi(EapiError::Unrecognized(v)) => r@ == "unrecognized EAPI '"@ + v@ + "'"@,
                EbuildError::UnsupportedEapi(e) => r@ == "unsupported EAPI '"@ + crate::eapi::eapi_text(*e) + "'"@,
                EbuildError::Internal(_) => r@ == "internal ebuild error"@,
                EbuildError::Io { path, .. } => r@ == "unable to read ebuild "@ + path@,
            },
    {
        match self {
            EbuildError::Eapi(e) => e.to_string(),
            EbuildError::UnsupportedEapi(e) => {
                let mut s = "unsupported EAPI '".to_owned();
                append_str(&mut s, e.as_str());
                append_str(&mut s, "'");
                s
            },
            EbuildError::Internal(_) => "internal ebuild error".to_owned(),
            EbuildError::Io { path, .. } => {
                let mut s = "unable to read ebuild ".to_owned();
                append_str(&mut s, path.as_str());
                s
            },
        }
    }
}

/// An ebuild of a package in a repository, with the EAPI it declares. See PMS 6 and 7.
#[derive(Debug)]
pub struct Ebuild<'r> {
    pub path: String,
    pub eapi: Eapi,
    pub cpv: &'r CPV,
    pub repo: &'r Repository,
}

/// Appends `b` to the path `a` as `PathBuf::push` does for a relative `b`.
pub fn push_path(a: &mut String, b: &str)
    ensures
        final(a)@ == path_join(old(a)@, b@),
{
    let v = chars_of(a.as_str());
    if v.len() > 0 && v[v.len() - 1] != '/' {
        push_char(a, '/');
    }
    append_str(a, b);
}

/// Returns `true` if `c` is an EAPI character (`value`) or a blank.
fn is_run_char(c: char, value: bool) -> (r: bool)
    ensures
        r == if value {
            is_eapi_char(c)
        } else {
            is_blank(c)
        },
{
    if value {
        is_alnum_char(c) || c == '+' || c == '_' || c == '.' || c == '-'
    } else {
        c == ' ' || c == '\t'
    }
}

/// Returns the end of the run of EAPI characters (`value`) or of blanks from `i`.
fn run_end_exec(v: &Vec<char>, i: usize, value: bool) -> (k: usize)
    requires
        i <= v.len(),
    ensures
        k == run_end(v@, i as int, value),
        i <= k <= v.len(),
{
    let mut k = i;
    while k < v.len() && is_run_char(v[k], value)
        invariant
            i <= k <= v.len(),
            run_end(v@, i as int, value) == run_end(v@, k as int, value),
        decreases v.len() - k,
    {
        k += 1;
    }
    k
}

/// Returns `true` if blanks to the end, or blanks and a `#` comment, follow `i`.
fn trailing_ok_exec(v: &Vec<char>, i: usize) -> (r: bool)
    requires
        i <= v.len(),
    ensures
        r == trailing_ok(v@, i as int),
{
    let k = run_end_exec(v, i, false);
    if k >= v.len() {
        return true;
    }
    if !(k > i && v[k] == '#') {
        return false;
    }
    let mut j = k;
    while j < v.len()
        invariant
            k <= j <= v.len(),
            k == run_end(v@, i as int, false),
            k < v.len(),
            k > i && v@[k as int] == '#',
            forall|x: int| k <= x < j ==> v@[x] != '\n',
        decreases v.len() - j,
    {
        if v[j] == '\n' {
            return false;
        }
        j += 1;
    }
    true
}

/// Returns `true` if the line is blank or a comment.
fn is_blank_or_comment_exec(line: &str) -> (r: bool)
    ensures
        r == is_blank_or_comment(line@),
{
    let t = crate::text::trim(line);
    let v = chars_of(t.as_str());
    v.len() == 0 || v[0] == '#'
}

impl<'r> Ebuild<'r> {
    /// Returns the path of the ebuild of `cpv` in `repo`:
    /// `<location>/<category>/<package>/<pf>.ebuild`.
    pub fn path_of(cpv: &CPV, repo: &Repository) -> (r: String)
        ensures
            r@ == ebuild_path(repo@.location, cpv@.category, cpv@.package, pf_text(cpv@)),
    {
        let mut path = repo.location().to_owned();
        push_path(&mut path, cpv.category().as_str());
        push_path(&mut path, cpv.package().as_str());
        let mut file = cpv.pf();
        append_str(&mut file, ".ebuild");
        push_path(&mut path, file.as_str());
        path
    }

    /// Creates the ebuild of `cpv` in `repo` from the `content` of its file: the EAPI it
    /// declares must be recognized and supported for ebuilds.
    pub fn new(cpv: &'r CPV, repo: &'r Repository, content: &str) -> (r: Result<Self, EbuildError>)
        ensures
            match content_eapi(content@) {
                Err(v) => r matches Err(EbuildError::Eapi(EapiError::Unrecognized(x))) && x@ == v,
                Ok(e) => if e@ == 7 || e@ == 8 {
                    r matches Ok(eb) && eb.eapi == e && eb.path@ == ebuild_path(
                        repo@.location,
                        cpv@.category,
                        cpv@.package,
                        pf_text(cpv@),
                    ) && eb.cpv == cpv && eb.repo == repo
                } else {
                    r matches Err(EbuildError::UnsupportedEapi(x)) && x == e
                },
            },
    {
        let path = Self::path_of(cpv, repo);
        let eapi = match Self::parse_eapi(content) {
            Ok(e) => e,
            Err(e) => return Err(EbuildError::Eapi(e)),
        };
        if !eapi.is_supported_for_ebuilds() {
            return Err(EbuildError::UnsupportedEapi(eapi));
        }
        Ok(Ebuild { path, eapi, cpv, repo })
    }

    /// Reads the EAPI from the content of an ebuild: the declaration on the first line
    /// that is neither blank nor a comment; EAPI 0 where there is none or it is empty.
    pub fn parse_eapi(content: &str) -> (r: Result<Eapi, EapiError>)
        ensures
            match content_eapi(content@) {
                Ok(e) => r == Ok::<Eapi, EapiError>(e),
                Err(v) => r matches Err(EapiError::Unrecognized(x)) && x@ == v,
            },
    {
        let v = chars_of(content);
        let n = v.len();
        let mut i: usize = 0;
        assert(v@.skip(0) =~= v@);
        while i < n
            invariant
                0 <= i <= n == v@.len(),
                v@ == content@,
                first_code_line(content_lines(content@)) == first_code_line(content_lines(v@.skip(i as int))),
            decreases n - i,
        {
            let ghost rest = v@.skip(i as int);
            let k = find_char(&v, i, n, '\n');
            proof {
                lemma_end_before(rest, '\n');
                assert(v@.subrange(i as int, n as int) =~= rest);
            }
            let mut end = k;
            if k < n && k > i && v[k - 1] == '\r' {
                end = k - 1;
            }
            let line = string_from(&v, i, end);
            proof {
                let kk = end_before(rest, '\n');
                assert(kk == k - i);
                let raw = rest.take(kk);
                assert(raw =~= v@.subrange(i as int, k as int));
                if k < n {
                    assert(rest.skip(kk + 1) =~= v@.skip(k + 1));
                    if raw.len() > 0 && raw.last() == '\r' {
                        assert(raw.drop_last() =~= line@);
                    } else {
                        assert(raw =~= line@);
                    }
                } else {
                    assert(rest =~= line@);
                }
            }
            if !is_blank_or_comment_exec(line.as_str()) {
                proof {
                    assert(content_lines(rest)[0] == line@);
                }
                return Self::eapi_of_line(line.as_str());
            }
            if k >= n {
                proof {
                    assert(content_lines(rest) =~= seq![line@]);
                    assert(content_lines(rest).drop_first() =~= Seq::<Seq<char>>::empty());
                    assert(first_code_line(Seq::<Seq<char>>::empty()) is None);
                }
                return Ok(Eapi::Zero);
            }
            proof {
                assert(content_lines(rest).drop_first() =~= content_lines(v@.skip(k + 1)));
            }
            i = k + 1;
        }
        proof {
            assert(v@.skip(i as int) =~= Seq::<char>::empty());
        }
        Ok(Eapi::Zero)
    }

    /// Reads the EAPI from the first line of an ebuild that is neither blank nor a comment.
    fn eapi_of_line(line: &str) -> (r: Result<Eapi, EapiError>)
        ensures
            match eapi_declaration(line@) {
                None => r == Ok::<Eapi, EapiError>(Eapi::Zero),
                Some(v) => if v.len() == 0 {
                    r == Ok::<Eapi, EapiError>(Eapi::Zero)
                } else {
                    match eapi_number(v) {
                        Some(n) => r == Ok::<Eapi, EapiError>(eapi_of(n)),
                        None => r matches Err(EapiError::Unrecognized(x)) && x@ == v,
                    }
                },
            },
    {
        match Self::parse_eapi_declaration(line) {
            None => Ok(Eapi::Zero),
            Some(value) => if value.as_str().is_empty() {
                Ok(Eapi::Zero)
            } else {
                match Eapi::new(value.as_str()) {
                    Ok(e) => {
                        assert(eapi_of(e@) == e);
                        Ok(e)
                    },
                    Err(e) => Err(e),
                }
            },
        }
    }

    /// Returns the value of the EAPI declaration (PMS 7.3.1) on `line`, if it is one.
    pub fn parse_eapi_declaration(line: &str) -> (r: Option<String>)
        ensures
            match eapi_declaration(line@) {
                Some(v) => r matches Some(x) && x@ == v,
                None => r is None,
            },
    {
        let v = chars_of(line);
        let n = v.len();
        let i = run_end_exec(&v, 0, false);
        proof {
            reveal_strlit("EAPI=");
        }
        if !(n - i >= 5 && v[i] == 'E' && v[i + 1] == 'A' && v[i + 2] == 'P' && v[i + 3] == 'I' && v[i + 4] == '=') {
            proof {
                let j = i + 5;
                if j <= n {
                    if v@.subrange(i as int, j as int) == "EAPI="@ {
                        assert(v@.subrange(i as int, j as int)[0] == 'E');
                        assert(v@.subrange(i as int, j as int)[1] == 'A');
                        assert(v@.subrange(i as int, j as int)[2] == 'P');
                        assert(v@.subrange(i as int, j as int)[3] == 'I');
                        assert(v@.subrange(i as int, j as int)[4] == '=');
                    }
                }
            }
            return None;
        }
        let j = i + 5;
        assert(v@.subrange(i as int, j as int) =~= "EAPI="@);
        if j < n && (v[j] == '\'' || v[j] == '"') {
            let k = run_end_exec(&v, j + 1, true);
            if k < n && v[k] == v[j] && trailing_ok_exec(&v, k + 1) {
                return Some(string_from(&v, j + 1, k));
            }
        }
        let k = run_end_exec(&v, j, true);
        if trailing_ok_exec(&v, k) {
            Some(string_from(&v, j, k))
        } else {
            None
        }
    }

    /// Returns the path of the ebuild.
    pub fn to_string(&self) -> (r: String)
        ensures
            r@ == self.path@,
    {
        self.path.clone()
    }
}

impl<'r> PartialEq for Ebuild<'r> {
    fn eq(&self, other: &Self) -> (r: bool) {
        self.path == other.path
    }
}

impl<'r> vstd::std_specs::cmp::PartialEqSpecImpl for Ebuild<'r> {
    open spec fn obeys_eq_spec() -> bool {
        true
    }

    open spec fn eq_spec(&self, other: &Self) -> bool {
        self.path@ == other.path@
    }
}

/// A metadata line split at its first `=`, both sides trimmed; `None` without a `=`.
pub open spec fn metadata_pair(line: Seq<char>) -> Option<(Seq<char>, Seq<char>)> {
    let k = end_before(line, '=');
    if k < line.len() {
        Some((trim_ws(line.take(k)), trim_ws(line.skip(k + 1))))
    } else {
        None
    }
}

/// The first of `lines` without a `=`, if any.
pub open spec fn first_invalid_metadata_line(lines: Seq<Seq<char>>) -> Option<int>
    decreases lines.len(),
{
    if lines.len() == 0 {
        None
    } else {
        match first_invalid_metadata_line(lines.drop_last()) {
            Some(i) => Some(i),
            None => if metadata_pair(lines.last()) is None {
                Some(lines.len() - 1)
            } else {
                None
            },
        }
    }
}

/// Splits the lines that an ebuild process sends for its metadata, `KEY=value` each, at
/// their first `=` and trims both sides; fails at the first line without a `=`.
pub fn metadata_lines(lines: &Vec<String>) -> (r: Result<Vec<(String, String)>, Error>)
    ensures
        match first_invalid_metadata_line(texts(lines@)) {
            Some(i) => r matches Err(e) && e.text() == "invalid metadata line: "@ + lines@[i]@,
            None => r matches Ok(v) && v@.len() == lines@.len() && forall|j: int|
                0 <= j < lines@.len() ==> metadata_pair(lines@[j]@) == Some(
                    ((#[trigger] v@[j]).0@, v@[j].1@),
                ),
        },
{
    let ghost ls = texts(lines@);
    let mut out: Vec<(String, String)> = Vec::new();
    let mut i: usize = 0;
    while i < lines.len()
        invariant
            0 <= i <= lines@.len(),
            ls == texts(lines@),
            first_invalid_metadata_line(ls.subrange(0, i as int)) is None,
            out@.len() == i,
            forall|j: int| 0 <= j < i ==> metadata_pair(lines@[j]@) == Some(((#[trigger] out@[j]).0@, out@[j].1@)),
        decreases lines.len() - i,
    {
        let ghost sub = ls.subrange(0, i + 1);
        assert(sub.drop_last() =~= ls.subrange(0, i as int));
        assert(sub.last() == lines@[i as int]@);
        let v = chars_of(lines[i].as_str());
        let k = find_char(&v, 0, v.len(), '=');
        assert(v@.subrange(0, v@.len() as int) == v@);
        if k == v.len() {
            proof {
                lemma_invalid_line_stays(ls, i as int);
            }
            let mut m = String::new();
            append_str(&mut m, "invalid metadata line: ");
            append_str(&mut m, lines[i].as_str());
            return Err(Error::from_string(m));
        }
        let key_raw = string_from(&v, 0, k);
        let value_raw = string_from(&v, k + 1, v.len());
        assert(key_raw@ =~= v@.take(k as int));
        assert(value_raw@ =~= v@.skip(k + 1));
        let key = trim(key_raw.as_str());
        let value = trim(value_raw.as_str());
        out.push((key, value));
        i += 1;
    }
    assert(ls.subrange(0, i as int) =~= ls);
    Ok(out)
}

/// A line without `=` stays the first invalid one when more lines follow.
proof fn lemma_invalid_line_stays(ls: Seq<Seq<char>>, i: int)
    requires
        0 <= i < ls.len(),
        first_invalid_metadata_line(ls.subrange(0, i)) is None,
        metadata_pair(ls[i]) is None,
    ensures
        first_invalid_metadata_line(ls) == Some(i),
    decreases ls.len(),
{
    if ls.len() > i + 1 {
        assert(ls.drop_last().subrange(0, i) =~= ls.subrange(0, i));
        assert(ls.drop_last()[i] == ls[i]);
        lemma_invalid_line_stays(ls.drop_last(), i);
    } else {
        assert(ls.drop_last() =~= ls.subrange(0, i));
    }
}


} // verus!
