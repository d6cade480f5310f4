//! Handling of the requests of the ebuild process.
pub mod env;
pub mod error;
pub mod functions;
pub mod prot;

use crate::eapi::{Eapi, bash_version_of};
use crate::ebuild::Ebuild;
use crate::error::Error;
use crate::makenv::MakeEnv;
use crate::package::cpv::CpvView;
use crate::package::version::version_pv;
use crate::repository::{RepositoryView, eclass_index};
use crate::text::{join_words, str_eq};
use env::{EbuildEnv, ebuild_env, fixed_entries, has_nul, shlex_joined};
use error::{FuncCallError, FuncCallErrorView, PhaseErrorView, PhaseExecutionError};
use functions::version::{
    opt_view, ver_cut, ver_cut_result, ver_rs, ver_rs_result, ver_test, ver_test_accepts, ver_test_reply,
};
use functions::{debug_print, die, resolve_eclass};
use prot::func::{FuncCall, string_views};
use prot::{ChildMessage, ChildMessageView, FuncType, ParentMessage, ParentMessageView, child_message_of, parent_message_text};
use vstd::prelude::*;
use vstd::utf8::{decode_utf8, encode_utf8, valid_utf8};

verus! {

/// The ebuild phases that are run.
#[derive(Debug, Clone, Copy, PartialEq, Eq, Structural)]
pub enum EbuildPhase {
    Depend,
}

/// The name of a phase.
pub open spec fn phase_name(p: EbuildPhase) -> Seq<char> {
    match p {
        EbuildPhase::Depend => "depend"@,
    }
}

impl EbuildPhase {
    /// Returns the name of this phase.
    pub fn as_str(&self) -> (r: &'static str)
        ensures
            r@ == phase_name(*self),
    {
        match self {
            EbuildPhase::Depend => "depend",
        }
    }

    /// Returns the name of this phase as an owned string.
    pub fn to_string(&self) -> (r: String)
        ensures
            r@ == phase_name(*self),
    {
        self.as_str().to_owned()
    }
}

/// The result of a test of `has`, `hasv` or `hasq`: `None` without arguments, else whether
/// the first argument is among the others.
pub open spec fn has_result(args: Seq<Seq<char>>) -> Option<bool> {
    if args.len() == 0 {
        None
    } else {
        Some(args.skip(1).contains(args[0]))
    }
}

/// The model of an answer to a request.
pub open spec fn reply_view(r: Result<ParentMessage, PhaseExecutionError>) -> Result<ParentMessageView, PhaseErrorView> {
    match r {
        Ok(m) => Ok(m@),
        Err(e) => Err(e@),
    }
}

/// The call of function `func` with `args` has invalid arguments.
pub open spec fn invalid_args(func: u8, args: Seq<Seq<char>>, r: Result<ParentMessageView, PhaseErrorView>) -> bool {
    r matches Err(PhaseErrorView::FuncCall(FuncCallErrorView::InvalidArgs(f, a, _))) && f == func && a == args
}

/// The call of function `func` with `args` has invalid arguments, for the reason `msg`.
pub open spec fn invalid_args_with(
    func: u8,
    args: Seq<Seq<char>>,
    msg: Seq<char>,
    r: Result<ParentMessageView, PhaseErrorView>,
) -> bool {
    r == Err::<ParentMessageView, PhaseErrorView>(
        PhaseErrorView::FuncCall(FuncCallErrorView::InvalidArgs(func, args, msg)),
    )
}

/// The answer `r` to a call of function `func` with `args` from the ebuild of `cpv` in
/// `repo` with EAPI `eapi`:
/// `__resolve_eclass name` gives the eclass path; `debug-print` succeeds; `die [-n]`
/// ends the ebuild (or only fails with `-n`); `has`, `hasv` and `hasq` test whether the
/// first argument is among the others (`hasv` and `hasq` only before EAPI 8); `ver_cut`,
/// `ver_rs` and `ver_test` are the version functions, with the package's version where
/// none is given.
pub open spec fn request_reply(
    eapi: Eapi,
    cpv: CpvView,
    repo: RepositoryView,
    func: u8,
    args: Seq<Seq<char>>,
    r: Result<ParentMessageView, PhaseErrorView>,
) -> bool {
    let pv = version_pv(cpv.version);
    if func == 0 {
        if args.len() == 1 {
            match eclass_index(repo.eclasses, args[0]) {
                Some(i) => r == Ok::<ParentMessageView, PhaseErrorView>((0u8, Some(repo.eclasses[i].1))),
                None => r == Err::<ParentMessageView, PhaseErrorView>(
                    PhaseErrorView::FuncCall(FuncCallErrorView::EclassNotFound(args[0], repo.name)),
                ),
            }
        } else {
            invalid_args_with(0, args, "expected one argument"@, r)
        }
    } else if func == 1 {
        r == Ok::<ParentMessageView, PhaseErrorView>((0u8, None))
    } else if func == 2 {
        if args.len() > 0 && args[0] == "-n"@ {
            r == Ok::<ParentMessageView, PhaseErrorView>((1u8, None))
        } else {
            r == Ok::<ParentMessageView, PhaseErrorView>((2u8, Some(join_words(args))))
        }
    } else if func == 3 || ((func == 4 || func == 5) && eapi@ < 8) {
        match has_result(args) {
            None => invalid_args_with(func, args, "expected a word and one or more values"@, r),
            Some(b) => r == Ok::<ParentMessageView, PhaseErrorView>(
                if !b {
                    (1u8, None)
                } else if func == 4 {
                    (0u8, Some(args[0]))
                } else {
                    (0u8, None)
                },
            ),
        }
    } else if func == 4 || func == 5 {
        r == Err::<ParentMessageView, PhaseErrorView>(PhaseErrorView::FuncCall(FuncCallErrorView::Unsupported(func, eapi)))
    } else if func == 6 {
        if args.len() == 1 || args.len() == 2 {
            match ver_cut_result(pv, args[0], if args.len() == 2 { Some(args[1]) } else { None }) {
                Some(m) => r == Ok::<ParentMessageView, PhaseErrorView>(m),
                None => invalid_args(6, args, r),
            }
        } else {
            invalid_args_with(6, args, "expected a range and optional version"@, r)
        }
    } else if func == 7 {
        match ver_rs_result(pv, args) {
            Some(m) => r == Ok::<ParentMessageView, PhaseErrorView>(m),
            None => invalid_args(7, args, r),
        }
    } else {
        if args.len() == 2 || args.len() == 3 {
            let v1 = if args.len() == 3 { Some(args[0]) } else { None };
            let op = args[args.len() - 2];
            let v2 = args[args.len() - 1];
            if ver_test_accepts(v1, op, v2) {
                r matches Ok(m) && ver_test_reply(cpv.version, v1, op, v2, m)
            } else {
                invalid_args(8, args, r)
            }
        } else {
            invalid_args_with(8, args, "expected an optional version, operator, and version"@, r)
        }
    }
}

/// What to do with a message of the ebuild process: send a reply (and stop, with the
/// message, where the ebuild died), or keep the data.
#[derive(Debug)]
pub enum MessageOutcome {
    Reply { bytes: Vec<u8>, die: Option<String> },
    Data(String),
}

/// Wraps a failed function call in an error of invalid arguments.
fn map_invalid_args(func: FuncType, args: Vec<String>, result: Result<ParentMessage, Error>) -> (r: Result<
    ParentMessage,
    PhaseExecutionError,
>)
    ensures
        match result {
            Ok(m) => r matches Ok(x) && x@ == m@,
            Err(e) => reply_view(r) == Err::<ParentMessageView, PhaseErrorView>(
                PhaseErrorView::FuncCall(FuncCallErrorView::InvalidArgs(func@, string_views(args@), e.text())),
            ),
        },
{
    match result {
        Ok(m) => Ok(m),
        Err(source) => Err(PhaseExecutionError::FuncCall(FuncCallError::InvalidArgs { func, args, source })),
    }
}

/// Returns `true` if `word` is one of `values`.
fn contains_word(values: &[String], word: &String) -> (r: bool)
    ensures
        r == values@.map_values(|a: String| a@).contains(word@),
{
    let ghost all = values@.map_values(|a: String| a@);
    let mut i: usize = 0;
    while i < values.len()
        invariant
            0 <= i <= values@.len(),
            all == values@.map_values(|a: String| a@),
            forall|j: int| 0 <= j < i ==> all[j] != word@,
        decreases values.len() - i,
    {
        if str_eq(values[i].as_str(), word.as_str()) {
            assert(all[i as int] == word@);
            return true;
        }
        i += 1;
    }
    false
}

/// Runs an ebuild phase: answers the function calls of the ebuild process and collects
/// the data it sends.
pub struct EbuildPhaseHandler<'a> {
    pub ebuild: &'a Ebuild<'a>,
    pub phase: EbuildPhase,
    pub env: EbuildEnv,
}

impl<'a> EbuildPhaseHandler<'a> {
    /// Creates the handler of `phase` for `ebuild`, with the environment built from
    /// `make_env`.
    pub fn new(ebuild: &'a Ebuild<'a>, phase: EbuildPhase, make_env: &MakeEnv) -> (r: Result<Self, Error>)
        ensures
            ({
                let locations = ebuild.repo@.eclass_locations;
                if has_nul(locations) {
                    r is Err
                } else {
                    r matches Ok(h) && h.ebuild == ebuild && h.phase == phase && h.env@ == ebuild_env(
                        make_env@,
                        fixed_entries(
                            shlex_joined(locations),
                            bash_version_of(ebuild.eapi),
                            ebuild.cpv@,
                            ebuild.path@,
                            phase_name(phase),
                        ),
                    )
                }
            }),
    {
        let env = match EbuildEnv::new(ebuild, &phase, make_env) {
            Ok(e) => e,
            Err(e) => return Err(e),
        };
        Ok(EbuildPhaseHandler { ebuild, phase, env })
    }

    /// Answers a call of an ebuild function.
    pub fn handle_request(&self, call: FuncCall) -> (r: Result<ParentMessage, PhaseExecutionError>)
        ensures
            request_reply(
                self.ebuild.eapi,
                self.ebuild.cpv@,
                self.ebuild.repo@,
                call.func@,
                string_views(call.args@),
                reply_view(r),
            ),
    {
        let FuncCall { func, args } = call;
        let ghost av = string_views(args@);
        let n = args.len();
        match func {
            FuncType::ResolveEclass => {
                if n == 1 {
                    resolve_eclass(args[0].as_str(), self.ebuild.repo)
                } else {
                    map_invalid_args(func, args, Err(Error::new("expected one argument")))
                }
            },
            FuncType::DebugPrint => Ok(debug_print(args.as_slice())),
            FuncType::Die => {
                if n > 0 && str_eq(args[0].as_str(), "-n") {
                    let rest = vstd::slice::slice_subrange(args.as_slice(), 1, n);
                    Ok(die(rest, false))
                } else {
                    assert(args@.map_values(|a: String| a@) =~= av);
                    Ok(die(args.as_slice(), true))
                }
            },
            FuncType::Has | FuncType::HasV | FuncType::HasQ => {
                if !matches!(func, FuncType::Has) && !self.ebuild.eapi.supports_hasv() {
                    return Err(PhaseExecutionError::FuncCall(FuncCallError::Unsupported { func, eapi: self.ebuild.eapi }));
                }
                if n == 0 {
                    return map_invalid_args(func, args, Err(Error::new("expected a word and one or more values")));
                }
                let rest = vstd::slice::slice_subrange(args.as_slice(), 1, n);
                assert(rest@.map_values(|a: String| a@) =~= av.skip(1));
                if contains_word(rest, &args[0]) {
                    match func {
                        FuncType::HasV => Ok(ParentMessage::Success(Some(args[0].clone()))),
                        _ => Ok(ParentMessage::Success(None)),
                    }
                } else {
                    Ok(ParentMessage::Failure(None))
                }
            },
            FuncType::VerCut => {
                let result = if n == 1 {
                    ver_cut(self.ebuild.cpv, args[0].as_str(), None)
                } else if n == 2 {
                    ver_cut(self.ebuild.cpv, args[0].as_str(), Some(args[1].as_str()))
                } else {
                    Err(Error::new("expected a range and optional version"))
                };
                map_invalid_args(func, args, result)
            },
            FuncType::VerRs => {
                assert(args@.map_values(|a: String| a@) =~= av);
                let result = ver_rs(self.ebuild.cpv, args.as_slice());
                map_invalid_args(func, args, result)
            },
            FuncType::VerTest => {
                let result = if n == 2 {
                    ver_test(self.ebuild.cpv, None, args[0].as_str(), args[1].as_str())
                } else if n == 3 {
                    ver_test(self.ebuild.cpv, Some(args[0].as_str()), args[1].as_str(), args[2].as_str())
                } else {
                    Err(Error::new("expected an optional version, operator, and version"))
                };
                map_invalid_args(func, args, result)
            },
        }
    }

    /// Handles one message of the ebuild process, the bytes before its `\4`: a function
    /// call is answered with the bytes of the reply, data is kept.
    pub fn handle_message(&self, bytes: &[u8]) -> (r: Result<MessageOutcome, PhaseExecutionError>)
        ensures
            !valid_utf8(bytes@) ==> r is Err,
            valid_utf8(bytes@) ==> match child_message_of(decode_utf8(bytes@)) {
                Err(e) => r matches Err(PhaseExecutionError::Protocol(x)) && x@ == e,
                Ok(m) => message_handled(self.ebuild.eapi, self.ebuild.cpv@, self.ebuild.repo@, m, r),
            },
    {
        let message = match ChildMessage::from_bytes(bytes) {
            Ok(m) => m,
            Err(e) => return Err(PhaseExecutionError::Protocol(e)),
        };
        let ghost mview = message@;
        match message {
            ChildMessage::Call(call) => {
                let ghost f = call.func@;
                let ghost args = string_views(call.args@);
                assert(mview == ChildMessageView::Call(f, args));
                let reply = self.handle_request(call);
                let ghost rv = reply_view(reply);
                let out = match reply {
                    Ok(m) => {
                        let ghost mv = m@;
                        let stop = match &m {
                            ParentMessage::Die(t) => Some(t.clone()),
                            _ => None,
                        };
                        let bytes = m.into_bytes();
                        Ok(MessageOutcome::Reply { bytes, die: stop })
                    },
                    Err(e) => Err(e),
                };
                assert(message_handled(self.ebuild.eapi, self.ebuild.cpv@, self.ebuild.repo@, mview, out)) by {
                    assert(request_reply(self.ebuild.eapi, self.ebuild.cpv@, self.ebuild.repo@, f, args, rv)
                        && outcome_of_reply(rv, out));
                    assert(mview->Call_0 == f && mview->Call_1 == args);
                }
                out
            },
            ChildMessage::Data(d) => {
                Ok(MessageOutcome::Data(d))
            },
        }
    }
}

/// `r` is how the message `msg` is handled: a call is answered as [`request_reply`]
/// says, data is kept.
pub open spec fn message_handled(
    eapi: Eapi,
    cpv: CpvView,
    repo: RepositoryView,
    msg: ChildMessageView,
    r: Result<MessageOutcome, PhaseExecutionError>,
) -> bool {
    match msg {
        ChildMessageView::Call(f, args) => exists|reply: Result<ParentMessageView, PhaseErrorView>|
            #[trigger] request_reply(eapi, cpv, repo, f, args, reply) && outcome_of_reply(reply, r),
        ChildMessageView::Data(d) => r matches Ok(MessageOutcome::Data(x)) && x@ == d,
    }
}

/// `r` is what a reply gives: its bytes, and the message where the ebuild died; or its
/// error.
pub open spec fn outcome_of_reply(reply: Result<ParentMessageView, PhaseErrorView>, r: Result<MessageOutcome, PhaseExecutionError>) -> bool {
    match reply {
        Ok(m) => r matches Ok(MessageOutcome::Reply { bytes: b, die: stop }) && b@ == encode_utf8(parent_message_text(m))
            && (stop is Some <==> m.0 == 2) && (stop matches Some(t) ==> m.1 == Some(t@)),
        Err(e) => r matches Err(x) && x@ == e,
    }
}

} // verus!
