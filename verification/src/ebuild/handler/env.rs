//! The environment of an ebuild process.
use crate::ebuild::Ebuild;
use crate::ebuild::handler::EbuildPhase;
use crate::ebuild::handler::phase_name;
use crate::eapi::bash_version_of;
use crate::error::Error;
use crate::makenv::{EnvView, MakeEnv, words_of};
use crate::makenv::value::{EnvValue, defs_view};
use crate::makenv::name::EnvVarName;
use crate::package::version::{version_pv, version_text};
use crate::text::{join_words, str_eq, texts};
use vstd::prelude::*;

verus! {

/// `shlex::try_join`: the words quoted for a POSIX shell where needed and joined by single
/// spaces.
pub uninterp spec fn shlex_joined(words: Seq<Seq<char>>) -> Seq<char>;

/// Some word holds a nul character.
pub open spec fn has_nul(words: Seq<Seq<char>>) -> bool {
    exists|i: int, j: int| 0 <= i < words.len() && 0 <= j < words[i].len() && words[i][j] == '\0'
}

/// Joins `words` into one shell-quoted string with `shlex::try_join`, which fails exactly
/// when a word holds a nul character.
#[verifier::external_body]
fn shlex_try_join(words: &Vec<String>) -> (r: Option<String>)
    ensures
        r is None <==> has_nul(texts(words@)),
        r matches Some(s) ==> s@ == shlex_joined(texts(words@)),
{
    shlex::try_join(words.iter().map(|w| w.as_str())).ok()
}

/// The variables that are removed so that they do not reach the ebuild environment:
/// those that break the ebuild process or bash, those the ebuild sets, long ones, and
/// configuration of the package manager.
pub open spec fn env_unset_names() -> Seq<Seq<char>> {
    seq![
        "GZIP"@,
        "BZIP"@,
        "BZIP2"@,
        "CDPATH"@,
        "GREP_OPTIONS"@,
        "GREP_COLOR"@,
        "GLOBIGNORE"@,
        "DEPEND"@,
        "RDEPEND"@,
        "PDEPEND"@,
        "SRC_URI"@,
        "BDEPEND"@,
        "IDEPEND"@,
        "INFOPATH"@,
        "MANPATH"@,
        "USER"@,
        "GLOBSORT"@,
        "HISTFILE"@,
        "POSIXLY_CORRECT"@,
        "ACCEPT_CHOSTS"@,
        "ACCEPT_KEYWORDS"@,
        "ACCEPT_PROPERTIES"@,
        "ACCEPT_RESTRICT"@,
        "AUTOCLEAN"@,
        "BINPKG_COMPRESS"@,
        "BINPKG_COMPRESS_FLAGS"@,
        "CLEAN_DELAY"@,
        "COLLISION_IGNORE"@,
        "CONFIG_PROTECT"@,
        "CONFIG_PROTECT_MASK"@,
        "EGENCACHE_DEFAULT_OPTS"@,
        "EMERGE_DEFAULT_OPTS"@,
        "EMERGE_LOG_DIR"@,
        "EMERGE_WARNING_DELAY"@,
        "FETCHCOMMAND"@,
        "FETCHCOMMAND_FTP"@,
        "FETCHCOMMAND_HTTP"@,
        "FETCHCOMMAND_HTTPS"@,
        "FETCHCOMMAND_RSYNC"@,
        "FETCHCOMMAND_SFTP"@,
        "FETCHCOMMAND_SSH"@,
        "GENTOO_MIRRORS"@,
        "NOCONFMEM"@,
        "O"@,
        "PORTAGE_BACKGROUND"@,
        "PORTAGE_BACKGROUND_UNMERGE"@,
        "PORTAGE_BINHOST"@,
        "PORTAGE_BINPKG_FORMAT"@,
        "PORTAGE_BUILDDIR_LOCKED"@,
        "PORTAGE_CHECKSUM_FILTER"@,
        "PORTAGE_ELOG_CLASSES"@,
        "PORTAGE_ELOG_MAILFROM"@,
        "PORTAGE_ELOG_MAILSUBJECT"@,
        "PORTAGE_ELOG_MAILURI"@,
        "PORTAGE_ELOG_SYSTEM"@,
        "PORTAGE_FETCH_CHECKSUM_TRY_MIRRORS"@,
        "PORTAGE_FETCH_RESUME_MIN_SIZE"@,
        "PORTAGE_GPG_DIR"@,
        "PORTAGE_GPG_KEY"@,
        "PORTAGE_GPG_SIGNING_COMMAND"@,
        "PORTAGE_IONICE_COMMAND"@,
        "PORTAGE_PACKAGE_EMPTY_ABORT"@,
        "PORTAGE_REPO_DUPLICATE_WARN"@,
        "PORTAGE_RO_DISTDIRS"@,
        "PORTAGE_RSYNC_EXTRA_OPTS"@,
        "PORTAGE_RSYNC_OPTS"@,
        "PORTAGE_RSYNC_RETRIES"@,
        "PORTAGE_SSH_OPTS"@,
        "PORTAGE_SYNC_STALE"@,
        "PORTAGE_TRUST_HELPER"@,
        "PORTAGE_USE"@,
        "PORTAGE_LOG_FILTER_FILE_CMD"@,
        "PORTAGE_LOGDIR"@,
        "PORTAGE_LOGDIR_CLEAN"@,
        "QUICKPKG_DEFAULT_OPTS"@,
        "REPOMAN_DEFAULT_OPTS"@,
        "RESUMECOMMAND"@,
        "RESUMECOMMAND_FTP"@,
        "RESUMECOMMAND_HTTP"@,
        "RESUMECOMMAND_HTTPS"@,
        "RESUMECOMMAND_RSYNC"@,
        "RESUMECOMMAND_SFTP"@,
        "RESUMECOMMAND_SSH"@,
        "UNINSTALL_IGNORE"@,
        "USE_EXPAND_HIDDEN"@,
        "USE_ORDER"@,
        "__PORTAGE_HELPER"@,
        "SYNC"@
    ]
}

/// The variables that this process sets itself and never takes from configuration.
pub open spec fn env_internal_names() -> Seq<Seq<char>> {
    seq![
        "A"@,
        "AA"@,
        "BASH_FUNC____in_portage_iuse%%"@,
        "BDEPEND"@,
        "BROOT"@,
        "CATEGORY"@,
        "DEPEND"@,
        "DESCRIPTION"@,
        "DOCS"@,
        "EAPI"@,
        "EBUILD_FORCE_TEST"@,
        "EBUILD_PHASE"@,
        "EBUILD_PHASE_FUNC"@,
        "EBUILD_SKIP_MANIFEST"@,
        "ED"@,
        "EMERGE_FROM"@,
        "EPREFIX"@,
        "EROOT"@,
        "HOMEPAGE"@,
        "IDEPEND"@,
        "INHERITED"@,
        "IUSE"@,
        "IUSE_EFFECTIVE"@,
        "KEYWORDS"@,
        "LICENSE"@,
        "MERGE_TYPE"@,
        "PDEPEND"@,
        "PF"@,
        "PKGUSE"@,
        "PORTAGE_BACKGROUND"@,
        "PORTAGE_BACKGROUND_UNMERGE"@,
        "PORTAGE_BUILDDIR_LOCKED"@,
        "PORTAGE_BUILT_USE"@,
        "PORTAGE_CONFIGROOT"@,
        "PORTAGE_EXPLICIT_INHERIT"@,
        "PORTAGE_INTERNAL_CALLER"@,
        "PORTAGE_IUSE"@,
        "PORTAGE_NONFATAL"@,
        "PORTAGE_PIPE_FD"@,
        "PORTAGE_REPO_NAME"@,
        "PORTAGE_USE"@,
        "PROPERTIES"@,
        "RDEPEND"@,
        "REPOSITORY"@,
        "REQUIRED_USE"@,
        "RESTRICT"@,
        "ROOT"@,
        "SANDBOX_LOG"@,
        "SLOT"@,
        "SRC_URI"@,
        "_"@
    ]
}

/// A variable of the make configuration may enter the ebuild environment: it does not
/// start with `__` and is neither removed nor internal.
pub open spec fn env_var_allowed(name: Seq<char>) -> bool {
    &&& !(name.len() >= 2 && name[0] == '_' && name[1] == '_')
    &&& !env_unset_names().contains(name)
    &&& !env_internal_names().contains(name)
}

/// Position of the variable `name` in `env`.
pub open spec fn entry_index(env: Seq<(Seq<char>, Seq<char>)>, name: Seq<char>) -> Option<int>
    decreases env.len(),
{
    if env.len() == 0 {
        None
    } else {
        match entry_index(env.drop_last(), name) {
            Some(i) => Some(i),
            None => if env.last().0 == name {
                Some(env.len() - 1)
            } else {
                None
            },
        }
    }
}

/// `env` with `name` set to `value`: in place where it is set, else appended.
pub open spec fn set_entry(env: Seq<(Seq<char>, Seq<char>)>, name: Seq<char>, value: Seq<char>) -> Seq<
    (Seq<char>, Seq<char>),
> {
    match entry_index(env, name) {
        Some(i) => env.update(i, (name, value)),
        None => env.push((name, value)),
    }
}

/// `env` without `name`.
pub open spec fn unset_entry(env: Seq<(Seq<char>, Seq<char>)>, name: Seq<char>) -> Seq<(Seq<char>, Seq<char>)> {
    match entry_index(env, name) {
        Some(i) => env.remove(i),
        None => env,
    }
}

/// `env` with the `entries` set in order.
pub open spec fn set_entries(env: Seq<(Seq<char>, Seq<char>)>, entries: Seq<(Seq<char>, Seq<char>)>) -> Seq<
    (Seq<char>, Seq<char>),
>
    decreases entries.len(),
{
    if entries.len() == 0 {
        env
    } else {
        let before = set_entries(env, entries.drop_last());
        set_entry(before, entries.last().0, entries.last().1)
    }
}

/// `env` without the `names`, removed in order.
pub open spec fn unset_entries(env: Seq<(Seq<char>, Seq<char>)>, names: Seq<Seq<char>>) -> Seq<(Seq<char>, Seq<char>)>
    decreases names.len(),
{
    if names.len() == 0 {
        env
    } else {
        unset_entry(unset_entries(env, names.drop_last()), names.last())
    }
}

/// The allowed variables of a make environment with their words joined by spaces.
pub open spec fn allowed_entries(make: EnvView) -> Seq<(Seq<char>, Seq<char>)>
    decreases make.len(),
{
    if make.len() == 0 {
        Seq::empty()
    } else if env_var_allowed(make.last().0) {
        allowed_entries(make.drop_last()).push((make.last().0, join_words(make.last().1)))
    } else {
        allowed_entries(make.drop_last())
    }
}

/// The variables this process sets for a phase: the eclass locations, the bash version
/// of the EAPI, harmless bash start files, the debug flag and the package variables of
/// PMS 11.1.
pub open spec fn fixed_entries(
    repo_paths: Seq<char>,
    bash: Seq<char>,
    cpv: crate::package::cpv::CpvView,
    path: Seq<char>,
    phase: Seq<char>,
) -> Seq<(Seq<char>, Seq<char>)> {
    seq![
        ("PORTAGE_ECLASS_LOCATIONS"@, repo_paths),
        ("BASH_COMPAT"@, bash),
        ("BASHRC"@, "/dev/null"@),
        ("BASH_ENV"@, "/dev/null"@),
        ("EBUILD_DEBUG"@, "0"@),
        ("P"@, cpv.package + seq!['-'] + version_pv(cpv.version)),
        ("PF"@, cpv.package + seq!['-'] + version_text(cpv.version)),
        ("PN"@, cpv.package),
        ("CATEGORY"@, cpv.category),
        ("PV"@, version_pv(cpv.version)),
        ("PR"@, seq!['r'] + match cpv.version.revision {
            Some(x) => x,
            None => seq!['0'],
        }),
        ("PVR"@, version_text(cpv.version)),
        ("EBUILD"@, path),
        ("EBUILD_PHASE"@, phase),
    ]
}

/// The environment of an ebuild process: the allowed make variables, then the fixed
/// ones, without the variables the make configuration names in `ENV_UNSET`.
pub open spec fn ebuild_env(make: EnvView, fixed: Seq<(Seq<char>, Seq<char>)>) -> Seq<(Seq<char>, Seq<char>)> {
    unset_entries(set_entries(Seq::empty(), allowed_entries(make) + fixed), words_of(make, "ENV_UNSET"@))
}

/// Returns `true` if `name` is one of `names`.
fn contains_name(names: &[&str], name: &str) -> (r: bool)
    ensures
        r == names@.map_values(|x: &str| x@).contains(name@),
{
    let ghost all = names@.map_values(|x: &str| x@);
    let mut i: usize = 0;
    while i < names.len()
        invariant
            0 <= i <= names@.len(),
            all == names@.map_values(|x: &str| x@),
            forall|j: int| 0 <= j < i ==> all[j] != name@,
        decreases names.len() - i,
    {
        if str_eq(names[i], name) {
            assert(all[i as int] == name@);
            return true;
        }
        i += 1;
    }
    false
}

/// The variables of an ebuild process, each set once.
#[derive(Debug)]
pub struct EbuildEnv {
    vars: Vec<(String, String)>,
}

impl View for EbuildEnv {
    type V = Seq<(Seq<char>, Seq<char>)>;

    closed spec fn view(&self) -> Seq<(Seq<char>, Seq<char>)> {
        self.vars@.map_values(|p: (String, String)| (p.0@, p.1@))
    }
}

impl EbuildEnv {
    /// Returns `true` if the make variable `name` may enter the ebuild environment.
    pub fn filter_var(name: &str) -> (r: bool)
        ensures
            r == env_var_allowed(name@),
    {
        let unset = [
        "GZIP",
        "BZIP",
        "BZIP2",
        "CDPATH",
        "GREP_OPTIONS",
        "GREP_COLOR",
        "GLOBIGNORE",
        "DEPEND",
        "RDEPEND",
        "PDEPEND",
        "SRC_URI",
        "BDEPEND",
        "IDEPEND",
        "INFOPATH",
        "MANPATH",
        "USER",
        "GLOBSORT",
        "HISTFILE",
        "POSIXLY_CORRECT",
        "ACCEPT_CHOSTS",
        "ACCEPT_KEYWORDS",
        "ACCEPT_PROPERTIES",
        "ACCEPT_RESTRICT",
        "AUTOCLEAN",
        "BINPKG_COMPRESS",
        "BINPKG_COMPRESS_FLAGS",
        "CLEAN_DELAY",
        "COLLISION_IGNORE",
        "CONFIG_PROTECT",
        "CONFIG_PROTECT_MASK",
        "EGENCACHE_DEFAULT_OPTS",
        "EMERGE_DEFAULT_OPTS",
        "EMERGE_LOG_DIR",
        "EMERGE_WARNING_DELAY",
        "FETCHCOMMAND",
        "FETCHCOMMAND_FTP",
        "FETCHCOMMAND_HTTP",
        "FETCHCOMMAND_HTTPS",
        "FETCHCOMMAND_RSYNC",
        "FETCHCOMMAND_SFTP",
        "FETCHCOMMAND_SSH",
        "GENTOO_MIRRORS",
        "NOCONFMEM",
        "O",
        "PORTAGE_BACKGROUND",
        "PORTAGE_BACKGROUND_UNMERGE",
        "PORTAGE_BINHOST",
        "PORTAGE_BINPKG_FORMAT",
        "PORTAGE_BUILDDIR_LOCKED",
        "PORTAGE_CHECKSUM_FILTER",
        "PORTAGE_ELOG_CLASSES",
        "PORTAGE_ELOG_MAILFROM",
        "PORTAGE_ELOG_MAILSUBJECT",
        "PORTAGE_ELOG_MAILURI",
        "PORTAGE_ELOG_SYSTEM",
        "PORTAGE_FETCH_CHECKSUM_TRY_MIRRORS",
        "PORTAGE_FETCH_RESUME_MIN_SIZE",
        "PORTAGE_GPG_DIR",
        "PORTAGE_GPG_KEY",
        "PORTAGE_GPG_SIGNING_COMMAND",
        "PORTAGE_IONICE_COMMAND",
        "PORTAGE_PACKAGE_EMPTY_ABORT",
        "PORTAGE_REPO_DUPLICATE_WARN",
        "PORTAGE_RO_DISTDIRS",
        "PORTAGE_RSYNC_EXTRA_OPTS",
        "PORTAGE_RSYNC_OPTS",
        "PORTAGE_RSYNC_RETRIES",
        "PORTAGE_SSH_OPTS",
        "PORTAGE_SYNC_STALE",
        "PORTAGE_TRUST_HELPER",
        "PORTAGE_USE",
        "PORTAGE_LOG_FILTER_FILE_CMD",
        "PORTAGE_LOGDIR",
        "PORTAGE_LOGDIR_CLEAN",
        "QUICKPKG_DEFAULT_OPTS",
        "REPOMAN_DEFAULT_OPTS",
        "RESUMECOMMAND",
        "RESUMECOMMAND_FTP",
        "RESUMECOMMAND_HTTP",
        "RESUMECOMMAND_HTTPS",
        "RESUMECOMMAND_RSYNC",
        "RESUMECOMMAND_SFTP",
        "RESUMECOMMAND_SSH",
        "UNINSTALL_IGNORE",
        "USE_EXPAND_HIDDEN",
        "USE_ORDER",
        "__PORTAGE_HELPER",
        "SYNC"
        ];
        let internals = [
        "A",
        "AA",
        "BASH_FUNC____in_portage_iuse%%",
        "BDEPEND",
        "BROOT",
        "CATEGORY",
        "DEPEND",
        "DESCRIPTION",
        "DOCS",
        "EAPI",
        "EBUILD_FORCE_TEST",
        "EBUILD_PHASE",
        "EBUILD_PHASE_FUNC",
        "EBUILD_SKIP_MANIFEST",
        "ED",
        "EMERGE_FROM",
        "EPREFIX",
        "EROOT",
        "HOMEPAGE",
        "IDEPEND",
        "INHERITED",
        "IUSE",
        "IUSE_EFFECTIVE",
        "KEYWORDS",
        "LICENSE",
        "MERGE_TYPE",
        "PDEPEND",
        "PF",
        "PKGUSE",
        "PORTAGE_BACKGROUND",
        "PORTAGE_BACKGROUND_UNMERGE",
        "PORTAGE_BUILDDIR_LOCKED",
        "PORTAGE_BUILT_USE",
        "PORTAGE_CONFIGROOT",
        "PORTAGE_EXPLICIT_INHERIT",
        "PORTAGE_INTERNAL_CALLER",
        "PORTAGE_IUSE",
        "PORTAGE_NONFATAL",
        "PORTAGE_PIPE_FD",
        "PORTAGE_REPO_NAME",
        "PORTAGE_USE",
        "PROPERTIES",
        "RDEPEND",
        "REPOSITORY",
        "REQUIRED_USE",
        "RESTRICT",
        "ROOT",
        "SANDBOX_LOG",
        "SLOT",
        "SRC_URI",
        "_"
        ];
        assert(unset@.map_values(|x: &str| x@) =~= env_unset_names());
        assert(internals@.map_values(|x: &str| x@) =~= env_internal_names());
        let v = crate::text::chars_of(name);
        if v.len() >= 2 && v[0] == '_' && v[1] == '_' {
            return false;
        }
        if contains_name(unset.as_slice(), name) {
            return false;
        }
        !contains_name(internals.as_slice(), name)
    }

    /// Returns the position of the variable `name`.
    fn find(&self, name: &str) -> (r: Option<usize>)
        ensures
            match r {
                Some(k) => entry_index(self@, name@) == Some(k as int) && k < self@.len(),
                None => entry_index(self@, name@) is None,
            },
    {
        let ghost all = self@;
        let mut i: usize = 0;
        while i < self.vars.len()
            invariant
                0 <= i <= self.vars@.len(),
                all == self@,
                entry_index(all.subrange(0, i as int), name@) is None,
            decreases self.vars.len() - i,
        {
            let ghost sub = all.subrange(0, i + 1);
            assert(sub.drop_last() =~= all.subrange(0, i as int));
            assert(all[i as int] == (self.vars@[i as int].0@, self.vars@[i as int].1@));
            if str_eq(self.vars[i].0.as_str(), name) {
                proof {
                    lemma_entry_index_prefix(all, name@, i + 1);
                }
                return Some(i);
            }
            i += 1;
        }
        assert(all.subrange(0, i as int) =~= all);
        None
    }

    /// Sets `name` to `value`.
    fn set(&mut self, name: String, value: String)
        ensures
            final(self)@ == set_entry(old(self)@, name@, value@),
            distinct_names(old(self)@) ==> distinct_names(final(self)@),
    {
        proof {
            if distinct_names(self@) {
                lemma_set_entry_distinct(self@, name@, value@);
            }
        }
        match self.find(name.as_str()) {
            Some(i) => {
                let ghost before = self@;
                let ghost entry = (name@, value@);
                self.vars.set(i, (name, value));
                assert(self@ =~= before.update(i as int, entry));
            },
            None => {
                let ghost before = self@;
                let ghost entry = (name@, value@);
                self.vars.push((name, value));
                assert(self@ =~= before.push(entry));
            },
        }
    }

    /// Removes `name`.
    fn unset(&mut self, name: &str)
        ensures
            final(self)@ == unset_entry(old(self)@, name@),
            distinct_names(old(self)@) ==> distinct_names(final(self)@),
    {
        proof {
            if distinct_names(self@) {
                lemma_unset_entry_distinct(self@, name@);
            }
        }
        match self.find(name) {
            Some(i) => {
                let ghost before = self@;
                self.vars.remove(i);
                assert(self@ =~= before.remove(i as int));
            },
            None => {},
        }
    }

    /// Builds the environment of the ebuild process of `phase`: the make variables that
    /// are allowed, then the fixed variables of the phase, without the variables that the
    /// make configuration names in `ENV_UNSET`. Fails where an eclass location holds a
    /// nul character and cannot be quoted for the shell.
    pub fn new(ebuild: &Ebuild, phase: &EbuildPhase, make_env: &MakeEnv) -> (r: Result<Self, Error>)
        ensures
            ({
                let locations = ebuild.repo@.eclass_locations;
                if has_nul(locations) {
                    r is Err
                } else {
                    r matches Ok(env) && env@ == ebuild_env(
                        make_env@,
                        fixed_entries(
                            shlex_joined(locations),
                            bash_version_of(ebuild.eapi),
                            ebuild.cpv@,
                            ebuild.path@,
                            phase_name(*phase),
                        ),
                    ) && distinct_names(env@)
                }
            }),
    {
        let repo_paths = match shlex_try_join(ebuild.repo.eclass_locations()) {
            Some(s) => s,
            None => return Err(Error::new("unable to escape repo paths")),
        };
        Ok(Self::with_repo_paths(ebuild, phase, make_env, repo_paths))
    }

    /// Builds the environment of the ebuild process of `phase` where `repo_paths` is the
    /// shell-quoted list of eclass locations: the make variables that are allowed, then the
    /// fixed variables of the phase, without the variables that the make configuration
    /// names in `ENV_UNSET`. Each variable is set once.
    pub fn with_repo_paths(ebuild: &Ebuild, phase: &EbuildPhase, make_env: &MakeEnv, repo_paths: String) -> (r: Self)
        ensures
            r@ == ebuild_env(
                make_env@,
                fixed_entries(repo_paths@, bash_version_of(ebuild.eapi), ebuild.cpv@, ebuild.path@, phase_name(*phase)),
            ),
            distinct_names(r@),
    {
        let ghost paths = repo_paths@;
        let mut env = EbuildEnv { vars: Vec::new() };
        assert(env@ =~= Seq::<(Seq<char>, Seq<char>)>::empty());
        let vars = make_env.vars();
        let ghost make = make_env@;
        let mut i: usize = 0;
        while i < vars.len()
            invariant
                0 <= i <= vars@.len(),
                defs_view(vars@) == make,
                env@ == set_entries(Seq::empty(), allowed_entries(make.subrange(0, i as int))),
            decreases vars.len() - i,
        {
            let ghost sub = make.subrange(0, i + 1);
            assert(sub.drop_last() =~= make.subrange(0, i as int));
            assert(sub.last() == (vars@[i as int].0@, vars@[i as int].1@));
            if Self::filter_var(vars[i].0.as_str()) {
                let ghost prev = allowed_entries(make.subrange(0, i as int));
                let ghost x = (vars@[i as int].0@, join_words(vars@[i as int].1@));
                assert(allowed_entries(sub) == prev.push(x));
                assert(prev.push(x).drop_last() =~= prev);
                env.set(vars[i].0.as_str().to_owned(), vars[i].1.to_string());
            }
            i += 1;
        }
        assert(make.subrange(0, i as int) =~= make);
        let fixed: Vec<(String, String)> = vec![
            ("PORTAGE_ECLASS_LOCATIONS".to_owned(), repo_paths),
            ("BASH_COMPAT".to_owned(), ebuild.eapi.supported_bash_version().to_owned()),
            ("BASHRC".to_owned(), "/dev/null".to_owned()),
            ("BASH_ENV".to_owned(), "/dev/null".to_owned()),
            ("EBUILD_DEBUG".to_owned(), "0".to_owned()),
            ("P".to_owned(), ebuild.cpv.p()),
            ("PF".to_owned(), ebuild.cpv.pf()),
            ("PN".to_owned(), ebuild.cpv.pn().to_owned()),
            ("CATEGORY".to_owned(), ebuild.cpv.category().as_str().to_owned()),
            ("PV".to_owned(), ebuild.cpv.pv()),
            ("PR".to_owned(), ebuild.cpv.pr()),
            ("PVR".to_owned(), ebuild.cpv.pvr()),
            ("EBUILD".to_owned(), ebuild.path.clone()),
            ("EBUILD_PHASE".to_owned(), phase.to_string()),
        ];
        let ghost fixed_view = fixed@.map_values(|p: (String, String)| (p.0@, p.1@));
        let ghost allowed = allowed_entries(make);
        let mut k: usize = 0;
        while k < fixed.len()
            invariant
                0 <= k <= fixed@.len(),
                fixed_view == fixed@.map_values(|p: (String, String)| (p.0@, p.1@)),
                env@ == set_entries(Seq::empty(), allowed + fixed_view.subrange(0, k as int)),
            decreases fixed.len() - k,
        {
            let ghost all = allowed + fixed_view.subrange(0, k + 1);
            assert(all.drop_last() =~= allowed + fixed_view.subrange(0, k as int));
            assert(all.last() == (fixed@[k as int].0@, fixed@[k as int].1@));
            env.set(fixed[k].0.clone(), fixed[k].1.clone());
            k += 1;
        }
        assert(fixed_view.subrange(0, k as int) =~= fixed_view);
        assert(fixed_view =~= fixed_entries(
            paths,
            bash_version_of(ebuild.eapi),
            ebuild.cpv@,
            ebuild.path@,
            phase_name(*phase),
        ));
        let ghost set_all = env@;
        assert(set_all == set_entries(Seq::empty(), allowed_entries(make) + fixed_view));
        match make_env.get("ENV_UNSET") {
            Some(value) => {
                let names = value.iter();
                let mut j: usize = 0;
                while j < names.len()
                    invariant
                        0 <= j <= names@.len(),
                        env@ == unset_entries(set_all, texts(names@).subrange(0, j as int)),
                    decreases names.len() - j,
                {
                    let ghost sub = texts(names@).subrange(0, j + 1);
                    assert(sub.drop_last() =~= texts(names@).subrange(0, j as int));
                    assert(sub.last() == names@[j as int]@);
                    env.unset(names[j].as_str());
                    j += 1;
                }
                assert(texts(names@).subrange(0, j as int) =~= texts(names@));
            },
            None => {
                assert(words_of(make, "ENV_UNSET"@) =~= Seq::<Seq<char>>::empty());
            },
        }
        proof {
            lemma_ebuild_env_distinct(make, fixed_view);
        }
        env
    }

    /// Returns the variables with their values.
    pub fn vars(&self) -> (r: &Vec<(String, String)>)
        ensures
            r@.map_values(|p: (String, String)| (p.0@, p.1@)) == self@,
    {
        &self.vars
    }

    /// Returns the value of the variable `name`.
    pub fn get(&self, name: &str) -> (r: Option<&str>)
        ensures
            match entry_index(self@, name@) {
                Some(i) => r matches Some(v) && v@ == self@[i].1,
                None => r is None,
            },
    {
        match self.find(name) {
            Some(i) => {
                assert(self@[i as int] == (self.vars@[i as int].0@, self.vars@[i as int].1@));
                Some(self.vars[i].1.as_str())
            },
            None => None,
        }
    }
}

/// A name found in a prefix is found at the same position in the whole list.
proof fn lemma_entry_index_prefix(all: Seq<(Seq<char>, Seq<char>)>, name: Seq<char>, k: int)
    requires
        0 <= k <= all.len(),
        entry_index(all.subrange(0, k), name) is Some,
    ensures
        entry_index(all, name) == entry_index(all.subrange(0, k), name),
    decreases all.len() - k,
{
    if k < all.len() {
        let sub = all.subrange(0, k + 1);
        assert(sub.drop_last() =~= all.subrange(0, k));
        lemma_entry_index_prefix(all, name, k + 1);
    } else {
        assert(all.subrange(0, k) =~= all);
    }
}

/// Every variable name of `env` occurs once.
pub open spec fn distinct_names(env: Seq<(Seq<char>, Seq<char>)>) -> bool {
    forall|i: int, j: int| 0 <= i < j < env.len() ==> #[trigger] env[i].0 != #[trigger] env[j].0
}

/// What `entry_index` finds: the first position that holds `name`, and `None` exactly
/// where no position does.
proof fn lemma_entry_index(env: Seq<(Seq<char>, Seq<char>)>, name: Seq<char>)
    ensures
        entry_index(env, name) matches Some(i) ==> 0 <= i < env.len() && env[i].0 == name,
        entry_index(env, name) is None ==> forall|k: int| 0 <= k < env.len() ==> #[trigger] env[k].0 != name,
    decreases env.len(),
{
    if env.len() > 0 {
        lemma_entry_index(env.drop_last(), name);
        assert forall|k: int| 0 <= k < env.len() - 1 implies env.drop_last()[k] == env[k] by {}
    }
}

/// Setting a variable keeps each name once.
proof fn lemma_set_entry_distinct(env: Seq<(Seq<char>, Seq<char>)>, name: Seq<char>, value: Seq<char>)
    requires
        distinct_names(env),
    ensures
        distinct_names(set_entry(env, name, value)),
{
    lemma_entry_index(env, name);
    let r = set_entry(env, name, value);
    match entry_index(env, name) {
        Some(i) => {
            assert forall|a: int, b: int| 0 <= a < b < r.len() implies #[trigger] r[a].0 != #[trigger] r[b].0 by {
                assert(r[a].0 == env[a].0);
                assert(r[b].0 == env[b].0);
            }
        },
        None => {
            assert forall|a: int, b: int| 0 <= a < b < r.len() implies #[trigger] r[a].0 != #[trigger] r[b].0 by {
                if b < env.len() {
                    assert(r[a] == env[a] && r[b] == env[b]);
                } else {
                    assert(r[a] == env[a]);
                }
            }
        },
    }
}

/// Removing a variable keeps each name once.
proof fn lemma_unset_entry_distinct(env: Seq<(Seq<char>, Seq<char>)>, name: Seq<char>)
    requires
        distinct_names(env),
    ensures
        distinct_names(unset_entry(env, name)),
{
    lemma_entry_index(env, name);
    match entry_index(env, name) {
        Some(i) => {
            let r = env.remove(i);
            assert forall|a: int, b: int| 0 <= a < b < r.len() implies #[trigger] r[a].0 != #[trigger] r[b].0 by {
                let a2 = if a < i { a } else { a + 1 };
                let b2 = if b < i { b } else { b + 1 };
                assert(r[a] == env[a2] && r[b] == env[b2]);
            }
        },
        None => {},
    }
}

/// Setting variables in turn keeps each name once.
proof fn lemma_set_entries_distinct(env: Seq<(Seq<char>, Seq<char>)>, entries: Seq<(Seq<char>, Seq<char>)>)
    requires
        distinct_names(env),
    ensures
        distinct_names(set_entries(env, entries)),
    decreases entries.len(),
{
    if entries.len() > 0 {
        lemma_set_entries_distinct(env, entries.drop_last());
        lemma_set_entry_distinct(set_entries(env, entries.drop_last()), entries.last().0, entries.last().1);
    }
}

/// Removing variables in turn keeps each name once.
proof fn lemma_unset_entries_distinct(env: Seq<(Seq<char>, Seq<char>)>, names: Seq<Seq<char>>)
    requires
        distinct_names(env),
    ensures
        distinct_names(unset_entries(env, names)),
    decreases names.len(),
{
    if names.len() > 0 {
        lemma_unset_entries_distinct(env, names.drop_last());
        lemma_unset_entry_distinct(unset_entries(env, names.drop_last()), names.last());
    }
}

/// In the environment of an ebuild process each variable is set once, whatever the make
/// configuration and the fixed variables.
pub proof fn lemma_ebuild_env_distinct(make: EnvView, fixed: Seq<(Seq<char>, Seq<char>)>)
    ensures
        distinct_names(ebuild_env(make, fixed)),
{
    let empty = Seq::<(Seq<char>, Seq<char>)>::empty();
    lemma_set_entries_distinct(empty, allowed_entries(make) + fixed);
    lemma_unset_entries_distinct(set_entries(empty, allowed_entries(make) + fixed), words_of(make, "ENV_UNSET"@));
}

} // verus!
