//! Errors of answering the ebuild process.
use super::prot::func::{func_name, string_views};
use super::prot::{FuncType, ProtocolError, protocol_error_text};
use crate::eapi::{Eapi, eapi_text};
use crate::error::Error;
use crate::text::append_str;
use vstd::prelude::*;

verus! {

/// `format!("{:?}", words)`: the words in Rust's debug form, e.g. `["a", "b"]`.
pub uninterp spec fn debug_words(words: Seq<Seq<char>>) -> Seq<char>;

/// Writes `words` in Rust's debug form with `format!("{:?}", ..)`: brackets around the
/// quoted and escaped words, separated by `, `.
#[verifier::external_body]
fn format_debug_words(words: &Vec<String>) -> (r: String)
    ensures
        r@ == debug_words(string_views(words@)),
{
    format!("{:?}", words)
}

/// Model of an error of a function call.
pub enum FuncCallErrorView {
    InvalidArgs(u8, Seq<Seq<char>>, Seq<char>),
    EclassNotFound(Seq<char>, Seq<char>),
    Unsupported(u8, Eapi),
}

/// Errors of a call of an ebuild function.
#[derive(Debug)]
pub enum FuncCallError {
    /// The arguments do not fit the function.
    InvalidArgs { func: FuncType, args: Vec<String>, source: Error },
    /// No eclass of that name is found in the repository or its masters.
    EclassNotFound { name: String, repository: String },
    /// The function does not exist in the ebuild's EAPI.
    Unsupported { func: FuncType, eapi: Eapi },
}

impl View for FuncCallError {
    type V = FuncCallErrorView;

    open spec fn view(&self) -> FuncCallErrorView {
        match self {
            FuncCallError::InvalidArgs { func, args, source } => FuncCallErrorView::InvalidArgs(
                func@,
                string_views(args@),
                source.text(),
            ),
            FuncCallError::EclassNotFound { name, repository } => FuncCallErrorView::EclassNotFound(name@, repository@),
            FuncCallError::Unsupported { func, eapi } => FuncCallErrorView::Unsupported(func@, *eapi),
        }
    }
}

/// The description of an error of a function call.
pub open spec fn func_call_error_text(e: FuncCallErrorView) -> Seq<char> {
    match e {
        FuncCallErrorView::InvalidArgs(f, args, _) => "invalid arguments for function '"@ + func_name(f) + "': "@
            + debug_words(args),
        FuncCallErrorView::EclassNotFound(name, repo) => "eclass '"@ + name + "' not found in "@ + repo
            + " or its masters"@,
        FuncCallErrorView::Unsupported(f, eapi) => "function '"@ + func_name(f) + "' is unsupported for EAPI '"@
            + eapi_text(eapi) + "'"@,
    }
}

impl FuncCallError {
    /// Returns the description of this error.
    pub fn to_string(&self) -> (r: String)
        ensures
            r@ == func_call_error_text(self@),
    {
        match self {
            FuncCallError::InvalidArgs { func, args, .. } => {
                let mut s = "invalid arguments for function '".to_owned();
                append_str(&mut s, func.name());
                append_str(&mut s, "': ");
                append_str(&mut s, format_debug_words(args).as_str());
                s
            },
            FuncCallError::EclassNotFound { name, repository } => {
                let mut s = "eclass '".to_owned();
                append_str(&mut s, name.as_str());
                append_str(&mut s, "' not found in ");
                append_str(&mut s, repository.as_str());
                append_str(&mut s, " or its masters");
                s
            },
            FuncCallError::Unsupported { func, eapi } => {
                let mut s = "function '".to_owned();
                append_str(&mut s, func.name());
                append_str(&mut s, "' is unsupported for EAPI '");
                append_str(&mut s, eapi.as_str());
                append_str(&mut s, "'");
                s
            },
        }
    }
}

/// Errors of running an ebuild phase.
#[derive(Debug)]
pub enum PhaseExecutionError {
    /// A function call of the ebuild failed.
    FuncCall(FuncCallError),
    /// The ebuild process sent an invalid message.
    Protocol(ProtocolError),
    /// The channel to the ebuild process failed.
    Ipc(Error),
    /// The ebuild called `die`.
    Die(String),
    /// The ebuild process exited with the given status.
    NonZeroExit(String),
    /// Starting or waiting for the ebuild process failed.
    Lifecycle(Error),
    /// An internal error.
    Invariant(Error),
}

/// Model of an error of an ebuild phase: the function call error, or the description.
pub enum PhaseErrorView {
    FuncCall(FuncCallErrorView),
    Other(Seq<char>),
}

impl View for PhaseExecutionError {
    type V = PhaseErrorView;

    open spec fn view(&self) -> PhaseErrorView {
        match self {
            PhaseExecutionError::FuncCall(e) => PhaseErrorView::FuncCall(e@),
            PhaseExecutionError::Protocol(e) => PhaseErrorView::Other(protocol_error_text(e@)),
            PhaseExecutionError::Ipc(e) => PhaseErrorView::Other(e.text()),
            PhaseExecutionError::Die(m) => PhaseErrorView::Other("ebuild died: "@ + m@),
            PhaseExecutionError::NonZeroExit(s) => PhaseErrorView::Other(
                "ebuild process exited with non-zero status: "@ + s@,
            ),
            PhaseExecutionError::Lifecycle(_) => PhaseErrorView::Other("ebuild process failed"@),
            PhaseExecutionError::Invariant(_) => PhaseErrorView::Other("ebuild process failed"@),
        }
    }
}

impl PhaseExecutionError {
    /// Returns the description of this error.
    pub fn to_string(&self) -> (r: String)
        ensures
            r@ == match self@ {
                PhaseErrorView::FuncCall(e) => func_call_error_text(e),
                PhaseErrorView::Other(t) => t,
            },
    {
        match self {
            PhaseExecutionError::FuncCall(e) => e.to_string(),
            PhaseExecutionError::Protocol(e) => e.to_string(),
            PhaseExecutionError::Ipc(e) => e.to_string(),
            PhaseExecutionError::Die(m) => {
                let mut s = "ebuild died: ".to_owned();
                append_str(&mut s, m.as_str());
                s
            },
            PhaseExecutionError::NonZeroExit(status) => {
                let mut s = "ebuild process exited with non-zero status: ".to_owned();
                append_str(&mut s, status.as_str());
                s
            },
            PhaseExecutionError::Lifecycle(_) => "ebuild process failed".to_owned(),
            PhaseExecutionError::Invariant(_) => "ebuild process failed".to_owned(),
        }
    }
}

} // verus!
