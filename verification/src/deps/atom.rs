//! Package atoms (PMS 8.3), e.g. `>=sys-libs/glibc-2.41-r10:2.2::gentoo[cet,clang]`.
pub mod constraints;
pub mod grammar;
pub mod key;
pub mod usedep;

use crate::error::Error;
use crate::grammar::{NameKind, is_name_range};
use crate::package::cpv::{CPV, CpvView};
use crate::package::names::{CatName, PkgName, is_category_name, is_package_name};
use crate::package::version::{PackageVersion, version_text, version_wf};
use crate::repository::{RepoName, is_repo_name};
use crate::text::{append_str, chars_of, end_before, find_char, lemma_end_before, push_char};
use constraints::{
    ConstraintView, SlotConstraint, SlotConstraintView, VersionConstraint, constraint_matches,
    operator_text, slot_constraint_text, slot_constraint_wf,
};
use grammar::{
    all_use_deps, deps_start, head_of, is_atom_shape, is_atom_text, is_slot_lex_range, is_wildcard_main,
    main_of, op_code, op_len, repo_of, simple_shape, slot_of, tail_of, tail_shape, uses_shape,
    uses_text, version_split, version_split_range, versioned_body, versioned_shape,
};
use key::{atom_key, kind_key};
use usedep::{UseDep, UseDepView, use_dep_text, use_dep_wf};
use vstd::prelude::*;

verus! {

/// Model of the package selection of an atom.
pub enum AtomKindView {
    /// `cat/pkg`, where `None` stands for `*`.
    Basic(Option<Seq<char>>, Option<Seq<char>>),
    /// An operator, `cat/pkg-version` and, for the wildcard operator, `*`.
    Versioned(Seq<char>, Seq<char>, ConstraintView),
}

/// Model of an atom.
pub struct AtomView {
    pub kind: AtomKindView,
    pub slot: Option<SlotConstraintView>,
    pub repo: Option<Seq<char>>,
    pub use_deps: Seq<UseDepView>,
}

/// A name, or `*` for none.
pub open spec fn star_or(o: Option<Seq<char>>) -> Seq<char> {
    match o {
        Some(s) => s,
        None => seq!['*'],
    }
}

/// Text of the package selection.
pub open spec fn kind_text(k: AtomKindView) -> Seq<char> {
    match k {
        AtomKindView::Basic(c, p) => star_or(c) + seq!['/'] + star_or(p),
        AtomKindView::Versioned(c, p, v) => operator_text(v.0) + c + seq!['/'] + p + seq!['-']
            + version_text(v.1) + if v.0 == 1 {
            seq!['*']
        } else {
            Seq::empty()
        },
    }
}

/// The package selection holds valid names and a valid version.
pub open spec fn kind_wf(k: AtomKindView) -> bool {
    match k {
        AtomKindView::Basic(c, p) => (c matches Some(x) ==> is_category_name(x)) && (p matches Some(
            x,
        ) ==> is_package_name(x)),
        AtomKindView::Versioned(c, p, v) => is_category_name(c) && is_package_name(p) && v.0 <= 6
            && version_wf(v.1),
    }
}

/// USE dependencies joined by commas.
pub open spec fn join_use_deps(d: Seq<UseDepView>) -> Seq<char>
    decreases d.len(),
{
    if d.len() == 0 {
        Seq::empty()
    } else if d.len() == 1 {
        use_dep_text(d[0])
    } else {
        join_use_deps(d.drop_last()) + seq![','] + use_dep_text(d.last())
    }
}

/// Text of the slot and repository parts: `:slot` and `::repo`, each if present.
pub open spec fn tail_text(slot: Option<Seq<char>>, repo: Option<Seq<char>>) -> Seq<char> {
    (match slot {
        Some(s) => seq![':'] + s,
        None => Seq::empty(),
    }) + match repo {
        Some(r) => seq![':', ':'] + r,
        None => Seq::empty(),
    }
}

/// Text of the USE dependencies: `[a,b]`, or nothing where there are none.
pub open spec fn uses_part_text(d: Seq<UseDepView>) -> Seq<char> {
    if d.len() == 0 {
        Seq::empty()
    } else {
        seq!['['] + join_use_deps(d) + seq![']']
    }
}

/// Text of an atom.
pub open spec fn atom_text(a: AtomView) -> Seq<char> {
    kind_text(a.kind) + tail_text(
        match a.slot {
            Some(c) => Some(slot_constraint_text(c)),
            None => None,
        },
        a.repo,
    ) + uses_part_text(a.use_deps)
}

/// A well-formed atom.
pub open spec fn atom_wf(a: AtomView) -> bool {
    &&& kind_wf(a.kind)
    &&& a.slot matches Some(c) ==> slot_constraint_wf(c)
    &&& a.repo matches Some(r) ==> is_repo_name(r)
    &&& forall|i: int| 0 <= i < a.use_deps.len() ==> use_dep_wf(#[trigger] a.use_deps[i])
}

/// The atom selects the package `c`.
pub open spec fn atom_matches(a: AtomView, c: CpvView) -> bool {
    match a.kind {
        AtomKindView::Basic(cat, pkg) => (cat matches Some(x) ==> x == c.category) && (
        pkg matches Some(x) ==> x == c.package),
        AtomKindView::Versioned(cat, pkg, v) => cat == c.category && pkg == c.package
            && constraint_matches(v, c.version),
    }
}

/// The qualified name `cat/pkg` of an atom, with `*` for wildcards.
pub open spec fn atom_qualified_name(a: AtomView) -> Seq<char> {
    match a.kind {
        AtomKindView::Basic(c, p) => star_or(c) + seq!['/'] + star_or(p),
        AtomKindView::Versioned(c, p, _) => c + seq!['/'] + p,
    }
}

/// The result of reading one part of an atom.
enum Outcome<T> {
    Done(T),
    BadShape,
    BadPart,
}

/// The package selection of an atom.
#[derive(Debug, Clone)]
enum AtomKind {
    Basic { category: Option<CatName>, package: Option<PkgName> },
    Versioned { category: CatName, package: PkgName, constraint: VersionConstraint },
}

impl View for AtomKind {
    type V = AtomKindView;

    closed spec fn view(&self) -> AtomKindView {
        match self {
            AtomKind::Basic { category, package } => AtomKindView::Basic(
                match category {
                    Some(c) => Some(c@),
                    None => None,
                },
                match package {
                    Some(p) => Some(p@),
                    None => None,
                },
            ),
            AtomKind::Versioned { category, package, constraint } => AtomKindView::Versioned(
                category@,
                package@,
                constraint@,
            ),
        }
    }
}

/// Returns `true` if `v[from..to]` is the single character `*`.
fn is_star(v: &Vec<char>, from: usize, to: usize) -> (r: bool)
    requires
        from <= to <= v.len(),
    ensures
        r == (v@.subrange(from as int, to as int) == seq!['*']),
{
    let r = to > from && to - from == 1 && v[from] == '*';
    proof {
        let s = v@.subrange(from as int, to as int);
        if s.len() == 1 {
            assert(s[0] == v@[from as int]);
            if v@[from as int] == '*' {
                assert(s =~= seq!['*']);
            }
        }
    }
    r
}

/// Reads a main part without operator, `cat/pkg`, from `v[from..to]`.
fn parse_simple(v: &Vec<char>, from: usize, to: usize) -> (r: Outcome<AtomKind>)
    requires
        from <= to <= v.len(),
        op_len(v@.subrange(from as int, to as int)) == 0,
    ensures
        r is BadShape <==> !simple_shape(v@.subrange(from as int, to as int)),
        r is Done <==> simple_shape(v@.subrange(from as int, to as int)) && ({
            let m = v@.subrange(from as int, to as int);
            let p = m.skip(end_before(m, '/') + 1);
            p == seq!['*'] || is_package_name(p)
        }),
        r matches Outcome::Done(k) ==> kind_wf(k@) && kind_text(k@) == v@.subrange(
            from as int,
            to as int,
        ),
{
    let ghost m = v@.subrange(from as int, to as int);
    let c = find_char(v, from, to, '/');
    proof {
        lemma_end_before(m, '/');
    }
    if c == to {
        return Outcome::BadShape;
    }
    assert(m.take(c - from) == v@.subrange(from as int, c as int));
    assert(m.skip(c - from + 1) == v@.subrange(c + 1, to as int));
    let category = if is_star(v, from, c) {
        None
    } else {
        match CatName::from_range(v, from, c) {
            Some(x) => Some(x),
            None => {
                return Outcome::BadShape;
            },
        }
    };
    let package = if is_star(v, c + 1, to) {
        None
    } else {
        if !is_name_range(NameKind::Package, v, c + 1, to) {
            return Outcome::BadShape;
        }
        match PkgName::from_range(v, c + 1, to) {
            Some(x) => Some(x),
            None => {
                return Outcome::BadPart;
            },
        }
    };
    let k = AtomKind::Basic { category, package };
    proof {
        assert(m =~= v@.subrange(from as int, c as int) + seq!['/'] + v@.subrange(
            c + 1,
            to as int,
        ));
    }
    Outcome::Done(k)
}

/// Length of the operator at the start of `v[from..to]`.
fn op_len_range(v: &Vec<char>, from: usize, to: usize) -> (r: usize)
    requires
        from <= to <= v.len(),
    ensures
        r == op_len(v@.subrange(from as int, to as int)),
{
    let ghost m = v@.subrange(from as int, to as int);
    if to - from >= 1 {
        assert(m[0] == v@[from as int]);
    }
    if to - from >= 2 {
        assert(m[1] == v@[from + 1]);
    }
    if to - from >= 2 && (v[from] == '<' || v[from] == '>') && v[from + 1] == '=' {
        2
    } else if to - from >= 1 && (v[from] == '=' || v[from] == '~' || v[from] == '<' || v[from]
        == '>') {
        1
    } else {
        0
    }
}

/// Operator code of the main part `v[from..to]`, which starts with an operator.
fn op_code_range(v: &Vec<char>, from: usize, to: usize) -> (r: u8)
    requires
        from <= to <= v.len(),
        op_len(v@.subrange(from as int, to as int)) > 0,
    ensures
        r == op_code(v@.subrange(from as int, to as int)),
        r <= 6,
        r == 1 <==> is_wildcard_main(v@.subrange(from as int, to as int)),
{
    let ghost m = v@.subrange(from as int, to as int);
    assert(m[0] == v@[from as int]);
    assert(m.last() == v@[to - 1]);
    if to - from >= 2 {
        assert(m[1] == v@[from + 1]);
    }
    let ol = op_len_range(v, from, to);
    if to - from >= 2 && v[from] == '=' && v[to - 1] == '*' {
        1
    } else if ol == 2 {
        if v[from] == '>' {
            4
        } else {
            6
        }
    } else if v[from] == '=' {
        0
    } else if v[from] == '~' {
        2
    } else if v[from] == '>' {
        3
    } else {
        5
    }
}

/// The range of the `cat/pkg-version` body of the main part `v[from..to]`.
fn versioned_body_range(v: &Vec<char>, from: usize, to: usize) -> (r: (u8, usize, usize))
    requires
        from <= to <= v.len(),
        op_len(v@.subrange(from as int, to as int)) > 0,
    ensures
        r.0 == op_code(v@.subrange(from as int, to as int)),
        r.0 <= 6,
        from <= r.1 <= r.2 <= to,
        v@.subrange(r.1 as int, r.2 as int) == versioned_body(v@.subrange(from as int, to as int)),
        v@.subrange(from as int, to as int) == operator_text(r.0) + v@.subrange(r.1 as int, r.2 as int)
            + if r.0 == 1 {
            seq!['*']
        } else {
            Seq::<char>::empty()
        },
{
    let ghost m = v@.subrange(from as int, to as int);
    let op = op_code_range(v, from, to);
    let ol = op_len_range(v, from, to);
    assert(m[0] == v@[from as int]);
    if to - from >= 2 {
        assert(m[1] == v@[from + 1]);
    }
    if op == 1 {
        assert(m.last() == v@[to - 1]);
        assert(m =~= seq!['='] + v@.subrange(from + 1, to - 1) + seq!['*']);
        (op, from + 1, to - 1)
    } else {
        assert(operator_text(op) =~= m.take(ol as int));
        assert(m =~= m.take(ol as int) + v@.subrange(from + ol, to as int));
        (op, from + ol, to)
    }
}

/// The text `cat/pkg-version` assembled from its parts.
proof fn lemma_body_text(b: Seq<char>, c: int, k: int)
    requires
        0 <= c < b.len(),
        b[c] == '/',
        0 <= k < b.len() - c - 1,
        b.skip(c + 1)[k] == '-',
    ensures
        b == b.take(c) + seq!['/'] + b.skip(c + 1).take(k) + seq!['-'] + b.skip(c + 1).skip(k + 1),
{
    assert(b =~= b.take(c) + seq!['/'] + b.skip(c + 1).take(k) + seq!['-'] + b.skip(c + 1).skip(
        k + 1,
    ));
}

/// Reads a main part with operator, e.g. `>=cat/pkg-1.2`, from `v[from..to]`.
#[verifier::rlimit(100)]
#[verifier::spinoff_prover]
fn parse_versioned(v: &Vec<char>, from: usize, to: usize) -> (r: Outcome<AtomKind>)
    requires
        from <= to <= v.len(),
        op_len(v@.subrange(from as int, to as int)) > 0,
    ensures
        r is BadShape <==> !versioned_shape(v@.subrange(from as int, to as int)),
        r is Done <==> versioned_shape(v@.subrange(from as int, to as int)) && ({
            let b = versioned_body(v@.subrange(from as int, to as int));
            let r = b.skip(end_before(b, '/') + 1);
            is_package_name(r.take(version_split(r)->0))
        }),
        r matches Outcome::Done(k) ==> kind_wf(k@) && kind_text(k@) == v@.subrange(
            from as int,
            to as int,
        ),
{
    let (op, bs, be) = versioned_body_range(v, from, to);
    let ghost b = v@.subrange(bs as int, be as int);
    let c = find_char(v, bs, be, '/');
    proof {
        lemma_end_before(b, '/');
    }
    if c == be {
        return Outcome::BadShape;
    }
    assert(b.take(c - bs) == v@.subrange(bs as int, c as int));
    assert(b.skip(c - bs + 1) == v@.subrange(c + 1, be as int));
    let category = match CatName::from_range(v, bs, c) {
        Some(x) => x,
        None => {
            return Outcome::BadShape;
        },
    };
    let k = match version_split_range(v, c + 1, be) {
        Some(k) => k,
        None => {
            return Outcome::BadShape;
        },
    };
    let ghost rest = v@.subrange(c + 1, be as int);
    assert(rest.take(k - c - 1) == v@.subrange(c + 1, k as int));
    assert(rest.skip(k - c) == v@.subrange(k + 1, be as int));
    let package = match PkgName::from_range(v, c + 1, k) {
        Some(x) => x,
        None => {
            return Outcome::BadPart;
        },
    };
    let version = match PackageVersion::parse(v, k + 1, be) {
        Some(x) => x,
        None => {
            return Outcome::BadShape;
        },
    };
    let constraint = VersionConstraint::from_code(op, version);
    proof {
        lemma_body_text(b, c - bs, k - c - 1);
    }
    Outcome::Done(AtomKind::Versioned { category, package, constraint })
}

/// Reads the tail `v[from..to]` (empty, or starting at the first `:` of the head): the
/// ranges of the slot restriction and of the repository.
fn parse_tail(v: &Vec<char>, from: usize, to: usize) -> (r: Option<
    (Option<(usize, usize)>, Option<(usize, usize)>),
>)
    requires
        from <= to <= v.len(),
        from < to ==> v@[from as int] == ':',
    ensures
        r is Some <==> tail_shape(v@.subrange(from as int, to as int)),
        r matches Some((sl, rp)) ==> {
            &&& match slot_of(v@.subrange(from as int, to as int)) {
                Some(x) => sl matches Some((a, b)) && from <= a <= b <= to && v@.subrange(
                    a as int,
                    b as int,
                ) == x,
                None => sl is None,
            }
            &&& match repo_of(v@.subrange(from as int, to as int)) {
                Some(x) => rp matches Some((a, b)) && from <= a <= b <= to && v@.subrange(
                    a as int,
                    b as int,
                ) == x,
                None => rp is None,
            }
            &&& v@.subrange(from as int, to as int) == tail_text(
                slot_of(v@.subrange(from as int, to as int)),
                repo_of(v@.subrange(from as int, to as int)),
            )
        },
{
    let ghost t = v@.subrange(from as int, to as int);
    if from == to {
        assert(t =~= tail_text(None, None));
        return Some((None, None));
    }
    assert(t[0] == v@[from as int]);
    if to - from >= 2 && v[from + 1] == ':' {
        assert(t[1] == v@[from + 1]);
        assert(t.skip(2) == v@.subrange(from + 2, to as int));
        if is_name_range(NameKind::Repository, v, from + 2, to) {
            assert(t =~= tail_text(None, Some(t.skip(2))));
            return Some((None, Some((from + 2, to))));
        }
        return None;
    }
    if to - from >= 2 {
        assert(t[1] == v@[from + 1]);
    }
    let ghost r = t.skip(1);
    assert(r == v@.subrange(from + 1, to as int));
    let e = find_char(v, from + 1, to, ':');
    proof {
        lemma_end_before(r, ':');
    }
    assert(r.take(e - from - 1) == v@.subrange(from + 1, e as int));
    if !is_slot_lex_range(v, from + 1, e) {
        return None;
    }
    if e == to {
        assert(t =~= tail_text(Some(r.take(e - from - 1)), None));
        return Some((Some((from + 1, e)), None));
    }
    if to - e < 2 || v[e + 1] != ':' {
        assert(to - e >= 2 ==> r[e - from] == v@[e + 1]);
        return None;
    }
    assert(r[e - from] == v@[e + 1]);
    assert(r.skip(e - from + 1) == v@.subrange(e + 2, to as int));
    if !is_name_range(NameKind::Repository, v, e + 2, to) {
        return None;
    }
    assert(v@[e as int] == ':');
    assert(t =~= tail_text(Some(r.take(e - from - 1)), Some(r.skip(e - from + 1))));
    Some((Some((from + 1, e)), Some((e + 2, to))))
}

/// Reads the comma separated USE dependencies of `v[from..to]`.
fn parse_use_deps(v: &Vec<char>, from: usize, to: usize) -> (r: Option<Vec<UseDep>>)
    requires
        from <= to <= v.len(),
    ensures
        r is Some <==> all_use_deps(v@.subrange(from as int, to as int)),
        r matches Some(ds) ==> ds@.len() > 0 && join_use_deps(ds@.map_values(|d: UseDep| d@))
            == v@.subrange(from as int, to as int) && forall|i: int|
            0 <= i < ds@.len() ==> use_dep_wf(#[trigger] ds@[i]@),
{
    let mut ds: Vec<UseDep> = Vec::new();
    let mut start = from;
    loop
        invariant
            from <= start <= to <= v.len(),
            all_use_deps(v@.subrange(from as int, to as int)) == all_use_deps(
                v@.subrange(start as int, to as int),
            ),
            ds@.len() == 0 ==> start == from,
            ds@.len() > 0 ==> v@.subrange(from as int, start as int) == join_use_deps(
                ds@.map_values(|d: UseDep| d@),
            ) + seq![','],
            forall|i: int| 0 <= i < ds@.len() ==> use_dep_wf(#[trigger] ds@[i]@),
        decreases to - start,
    {
        let ghost x = v@.subrange(start as int, to as int);
        let k = find_char(v, start, to, ',');
        proof {
            lemma_end_before(x, ',');
        }
        assert(x.take(k - start) == v@.subrange(start as int, k as int));
        let d = match UseDep::from_range(v, start, k) {
            Ok(d) => d,
            Err(_) => {
                return None;
            },
        };
        let ghost before = ds@.map_values(|d: UseDep| d@);
        let ghost dv = d@;
        ds.push(d);
        proof {
            let after = ds@.map_values(|d: UseDep| d@);
            assert(after =~= before.push(dv));
            if before.len() == 0 {
                assert(join_use_deps(after) == use_dep_text(dv));
            } else {
                assert(after.drop_last() =~= before);
                assert(join_use_deps(after) == join_use_deps(before) + seq![','] + use_dep_text(
                    dv,
                ));
            }
            assert(v@.subrange(from as int, k as int) =~= join_use_deps(after));
        }
        if k == to {
            return Some(ds);
        }
        assert(x.skip(k - start + 1) == v@.subrange(k + 1, to as int));
        assert(v@[k as int] == ',');
        assert(v@.subrange(from as int, k + 1) =~= v@.subrange(from as int, k as int) + seq![',']);
        start = k + 1;
    }
}

/// A package atom: a selection of packages by name, version, slot, repository and
/// USE flags.
#[derive(Debug, Clone)]
pub struct Atom {
    kind: AtomKind,
    slot: Option<SlotConstraint>,
    repo: Option<RepoName>,
    use_deps: Vec<UseDep>,
}

impl View for Atom {
    type V = AtomView;

    closed spec fn view(&self) -> AtomView {
        AtomView {
            kind: self.kind@,
            slot: match self.slot {
                Some(c) => Some(c@),
                None => None,
            },
            repo: match self.repo {
                Some(r) => Some(r@),
                None => None,
            },
            use_deps: self.use_deps@.map_values(|d: UseDep| d@),
        }
    }
}

impl Atom {
    /// Parses an atom from `atom`.
    pub fn new(atom: &str) -> (r: Result<Self, Error>)
        ensures
            r is Ok <==> is_atom_text(atom@),
            r matches Ok(a) ==> atom_wf(a@) && atom_text(a@) == atom@,
            r matches Err(e) ==> e.text() == if is_atom_shape(atom@) {
                "unable to parse atom '"@ + atom@ + "'"@
            } else {
                "'"@ + atom@ + "' is not a valid atom"@
            },
    {
        let v = chars_of(atom);
        assert(v@.subrange(0, v@.len() as int) == v@);
        match Self::parse(&v) {
            Outcome::Done(a) => Ok(a),
            Outcome::BadShape => {
                proof {
                    reveal_strlit("'");
                }
                let mut m = String::new();
                push_char(&mut m, '\'');
                append_str(&mut m, atom);
                append_str(&mut m, "' is not a valid atom");
                Err(Error::from_string(m))
            },
            Outcome::BadPart => {
                let mut m = String::new();
                append_str(&mut m, "unable to parse atom '");
                append_str(&mut m, atom);
                push_char(&mut m, '\'');
                proof {
                    reveal_strlit("'");
                }
                Err(Error::from_string(m))
            },
        }
    }

    /// Parses an atom from all of `v`.
    fn parse(v: &Vec<char>) -> (r: Outcome<Self>)
        ensures
            r is BadShape <==> !is_atom_shape(v@),
            r is Done <==> is_atom_text(v@),
            r matches Outcome::Done(a) ==> atom_wf(a@) && atom_text(a@) == v@,
    {
        let n = v.len();
        let ghost s = v@;
        assert(s == v@.subrange(0, n as int));
        let b = find_char(v, 0, n, '[');
        proof {
            lemma_end_before(s, '[');
        }
        assert(head_of(s) == v@.subrange(0, b as int));
        let ghost h = v@.subrange(0, b as int);
        let c = find_char(v, 0, b, ':');
        proof {
            lemma_end_before(h, ':');
        }
        assert(main_of(h) == v@.subrange(0, c as int));
        assert(tail_of(h) == v@.subrange(c as int, b as int));
        let uses_ok = b == n || (n - b >= 2 && v[n - 1] == ']' && find_char(v, b + 1, n - 1, '\n')
            == n - 1);
        assert(uses_ok == uses_shape(s)) by {
            if n - b >= 2 {
                assert(s.subrange(b + 1, n - 1) == v@.subrange(b + 1, n - 1));
            }
        }
        let tail = parse_tail(v, c, b);
        let ol = op_len_range(v, 0, c);
        let main = if ol > 0 {
            parse_versioned(v, 0, c)
        } else {
            parse_simple(v, 0, c)
        };
        if !uses_ok || tail.is_none() {
            return Outcome::BadShape;
        }
        let kind = match main {
            Outcome::Done(k) => k,
            Outcome::BadShape => {
                return Outcome::BadShape;
            },
            Outcome::BadPart => {
                return Outcome::BadPart;
            },
        };
        let (sl, rp) = tail.unwrap();
        let ghost t = v@.subrange(c as int, b as int);
        let slot = match sl {
            Some((x, y)) => match SlotConstraint::from_range(v, x, y) {
                Ok(k) => Some(k),
                Err(_) => {
                    return Outcome::BadPart;
                },
            },
            None => None,
        };
        let repo = match rp {
            Some((x, y)) => match RepoName::from_range(v, x, y) {
                Some(k) => Some(k),
                None => {
                    return Outcome::BadPart;
                },
            },
            None => None,
        };
        let use_deps = if b < n {
            assert(uses_text(s) == v@.subrange(b + 1, n - 1));
            match parse_use_deps(v, b + 1, n - 1) {
                Some(ds) => ds,
                None => {
                    return Outcome::BadPart;
                },
            }
        } else {
            Vec::new()
        };
        let a = Atom { kind, slot, repo, use_deps };
        proof {
            let av = a@;
            assert(tail_text(
                match av.slot {
                    Some(x) => Some(slot_constraint_text(x)),
                    None => None,
                },
                av.repo,
            ) == t);
            if b < n {
                assert(v@[b as int] == '[');
                assert(s =~= h + (seq!['['] + v@.subrange(b + 1, n - 1) + seq![']']));
            } else {
                assert(av.use_deps.len() == 0);
                assert(s =~= h);
            }
            assert(h =~= v@.subrange(0, c as int) + t);
            assert(forall|i: int| 0 <= i < av.use_deps.len() ==> use_dep_wf(#[trigger] av.use_deps[i])) by {
                assert(forall|i: int| 0 <= i < av.use_deps.len() ==> av.use_deps[i] == a.use_deps@[i]@);
            }
        }
        Outcome::Done(a)
    }

    /// Returns the qualified name `category/package`, with `*` for a wildcard part.
    pub fn qualified_name(&self) -> (r: String)
        ensures
            r@ == atom_qualified_name(self@),
    {
        let mut s = String::new();
        match &self.kind {
            AtomKind::Basic { category, package } => {
                match category {
                    Some(c) => append_str(&mut s, c.as_str()),
                    None => push_char(&mut s, '*'),
                }
                push_char(&mut s, '/');
                match package {
                    Some(p) => append_str(&mut s, p.as_str()),
                    None => push_char(&mut s, '*'),
                }
            },
            AtomKind::Versioned { category, package, .. } => {
                append_str(&mut s, category.as_str());
                push_char(&mut s, '/');
                append_str(&mut s, package.as_str());
            },
        }
        s
    }

    /// Returns the category, or `None` for a wildcard category.
    pub fn category(&self) -> (r: Option<&CatName>)
        ensures
            match self@.kind {
                AtomKindView::Basic(c, _) => match c {
                    Some(x) => r matches Some(y) && y@ == x,
                    None => r is None,
                },
                AtomKindView::Versioned(c, _, _) => r matches Some(y) && y@ == c,
            },
    {
        match &self.kind {
            AtomKind::Basic { category, .. } => match category {
                Some(c) => Some(c),
                None => None,
            },
            AtomKind::Versioned { category, .. } => Some(category),
        }
    }

    /// Returns the package name, or `None` for a wildcard package.
    pub fn package(&self) -> (r: Option<&PkgName>)
        ensures
            match self@.kind {
                AtomKindView::Basic(_, p) => match p {
                    Some(x) => r matches Some(y) && y@ == x,
                    None => r is None,
                },
                AtomKindView::Versioned(_, p, _) => r matches Some(y) && y@ == p,
            },
    {
        match &self.kind {
            AtomKind::Basic { package, .. } => match package {
                Some(p) => Some(p),
                None => None,
            },
            AtomKind::Versioned { package, .. } => Some(package),
        }
    }

    /// Returns the version constraint, if any.
    pub fn version_constraint(&self) -> (r: Option<&VersionConstraint>)
        ensures
            match self@.kind {
                AtomKindView::Basic(..) => r is None,
                AtomKindView::Versioned(_, _, k) => r matches Some(y) && y@ == k,
            },
    {
        match &self.kind {
            AtomKind::Basic { .. } => None,
            AtomKind::Versioned { constraint, .. } => Some(constraint),
        }
    }

    /// Returns the repository restriction, if any.
    pub fn repo(&self) -> (r: Option<&RepoName>)
        ensures
            match self@.repo {
                Some(x) => r matches Some(y) && y@ == x,
                None => r is None,
            },
    {
        match &self.repo {
            Some(x) => Some(x),
            None => None,
        }
    }

    /// Returns the slot restriction, if any.
    pub fn slot(&self) -> (r: Option<&SlotConstraint>)
        ensures
            match self@.slot {
                Some(x) => r matches Some(y) && y@ == x,
                None => r is None,
            },
    {
        match &self.slot {
            Some(x) => Some(x),
            None => None,
        }
    }

    /// Returns the USE dependencies.
    pub fn use_deps(&self) -> (r: &Vec<UseDep>)
        ensures
            r@.map_values(|d: UseDep| d@) == self@.use_deps,
    {
        &self.use_deps
    }

    /// Returns `true` if this atom selects the package `cpv`.
    pub fn matches(&self, cpv: &CPV) -> (r: bool)
        ensures
            r == atom_matches(self@, cpv@),
    {
        match &self.kind {
            AtomKind::Basic { category, package } => {
                let c = match category {
                    Some(x) => *x == *cpv.category(),
                    None => true,
                };
                let p = match package {
                    Some(x) => *x == *cpv.package(),
                    None => true,
                };
                c && p
            },
            AtomKind::Versioned { category, package, constraint } => *category == *cpv.category()
                && *package == *cpv.package() && constraint.matches(cpv.version()),
        }
    }

    /// Returns the text of the package selection.
    fn kind_string(&self) -> (r: String)
        ensures
            r@ == kind_text(self@.kind),
    {
        let mut s = String::new();
        match &self.kind {
            AtomKind::Basic { .. } => {
                let q = self.qualified_name();
                append_str(&mut s, q.as_str());
            },
            AtomKind::Versioned { category, package, constraint } => {
                append_str(&mut s, constraint.operator());
                append_str(&mut s, category.as_str());
                push_char(&mut s, '/');
                append_str(&mut s, package.as_str());
                push_char(&mut s, '-');
                let ver = constraint.version().to_string();
                append_str(&mut s, ver.as_str());
                if constraint.is_wildcard() {
                    push_char(&mut s, '*');
                }
            },
        }
        s
    }

    /// Returns the package selection with its version in canonical form.
    fn kind_key_string(&self) -> (r: String)
        ensures
            r@ == kind_key(self@.kind),
    {
        let mut s = String::new();
        match &self.kind {
            AtomKind::Basic { .. } => {
                let q = self.qualified_name();
                append_str(&mut s, q.as_str());
            },
            AtomKind::Versioned { category, package, constraint } => {
                append_str(&mut s, constraint.operator());
                append_str(&mut s, category.as_str());
                push_char(&mut s, '/');
                append_str(&mut s, package.as_str());
                push_char(&mut s, '-');
                let ver = constraint.version().hash_key();
                append_str(&mut s, ver.as_str());
                if constraint.is_wildcard() {
                    push_char(&mut s, '*');
                }
            },
        }
        s
    }

    /// Returns the key that identifies this atom: its text with the version in canonical
    /// form.
    pub fn key_string(&self) -> (r: String)
        ensures
            r@ == atom_key(self@),
    {
        let mut s = self.kind_key_string();
        self.push_tail(&mut s);
        self.push_use_deps(&mut s);
        s
    }

    /// Appends the slot and repository parts to `s`.
    fn push_tail(&self, s: &mut String)
        ensures
            final(s)@ == old(s)@ + tail_text(
                match self@.slot {
                    Some(c) => Some(slot_constraint_text(c)),
                    None => None,
                },
                self@.repo,
            ),
    {
        let ghost start = s@;
        if let Some(slot) = &self.slot {
            push_char(s, ':');
            let t = slot.to_string();
            append_str(s, t.as_str());
        }
        let ghost mid = s@;
        if let Some(repo) = &self.repo {
            push_char(s, ':');
            push_char(s, ':');
            append_str(s, repo.as_str());
        }
        proof {
            let so = match self@.slot {
                Some(c) => Some(slot_constraint_text(c)),
                None => None,
            };
            assert(s@ =~= start + tail_text(so, self@.repo));
        }
    }

    /// Appends the USE dependencies part to `s`.
    fn push_use_deps(&self, s: &mut String)
        ensures
            final(s)@ == old(s)@ + uses_part_text(self@.use_deps),
    {
        let ghost kt = s@;
        let n = self.use_deps.len();
        if n == 0 {
            assert(s@ =~= kt + uses_part_text(self@.use_deps));
            return;
        }
        push_char(s, '[');
        let mut i: usize = 0;
        while i < n
            invariant
                0 <= i <= n == self.use_deps@.len(),
                n > 0,
                s@ == kt + seq!['['] + join_use_deps(
                    self.use_deps@.subrange(0, i as int).map_values(|d: UseDep| d@),
                ),
            decreases n - i,
        {
            let ghost before = self.use_deps@.subrange(0, i as int).map_values(|d: UseDep| d@);
            if i > 0 {
                push_char(s, ',');
            }
            let t = self.use_deps[i].to_string();
            append_str(s, t.as_str());
            proof {
                let after = self.use_deps@.subrange(0, i + 1).map_values(|d: UseDep| d@);
                assert(after.drop_last() =~= before);
                assert(after.last() == self.use_deps@[i as int]@);
                assert(s@ =~= kt + seq!['['] + join_use_deps(after));
            }
            i += 1;
        }
        push_char(s, ']');
        assert(self.use_deps@.subrange(0, n as int) == self.use_deps@);
    }

    /// Returns a copy of this atom.
    pub fn copy(&self) -> (r: Self)
        ensures
            r@ == self@,
    {
        let kind = match &self.kind {
            AtomKind::Basic { category, package } => AtomKind::Basic {
                category: match category {
                    Some(c) => Some(c.copy()),
                    None => None,
                },
                package: match package {
                    Some(p) => Some(p.copy()),
                    None => None,
                },
            },
            AtomKind::Versioned { category, package, constraint } => AtomKind::Versioned {
                category: category.copy(),
                package: package.copy(),
                constraint: constraint.copy(),
            },
        };
        let slot = match &self.slot {
            Some(c) => Some(c.copy()),
            None => None,
        };
        let repo = match &self.repo {
            Some(x) => Some(x.copy()),
            None => None,
        };
        let mut use_deps: Vec<UseDep> = Vec::new();
        let mut i: usize = 0;
        while i < self.use_deps.len()
            invariant
                0 <= i <= self.use_deps@.len(),
                use_deps@.map_values(|d: UseDep| d@) =~= self.use_deps@.subrange(0, i as int).map_values(
                    |d: UseDep| d@,
                ),
            decreases self.use_deps.len() - i,
        {
            let ghost before = use_deps@;
            use_deps.push(self.use_deps[i].copy());
            proof {
                assert(use_deps@.map_values(|d: UseDep| d@) =~= before.map_values(|d: UseDep| d@).push(
                    self.use_deps@[i as int]@,
                ));
                assert(self.use_deps@.subrange(0, i + 1).map_values(|d: UseDep| d@) =~= self.use_deps@.subrange(
                    0,
                    i as int,
                ).map_values(|d: UseDep| d@).push(self.use_deps@[i as int]@));
            }
            i += 1;
        }
        assert(self.use_deps@.subrange(0, i as int) =~= self.use_deps@);
        Atom { kind, slot, repo, use_deps }
    }

    /// Returns the text of this atom.
    pub fn to_string(&self) -> (r: String)
        ensures
            r@ == atom_text(self@),
    {
        let mut s = self.kind_string();
        self.push_tail(&mut s);
        self.push_use_deps(&mut s);
        s
    }
}

impl Default for Atom {
    /// The atom `*/*`, which selects every package.
    fn default() -> (r: Self)
        ensures
            r@ == (AtomView {
                kind: AtomKindView::Basic(None, None),
                slot: None,
                repo: None,
                use_deps: Seq::empty(),
            }),
    {
        let a = Atom {
            kind: AtomKind::Basic { category: None, package: None },
            slot: None,
            repo: None,
            use_deps: Vec::new(),
        };
        assert(a@.use_deps =~= Seq::<UseDepView>::empty());
        a
    }
}

} // verus!
