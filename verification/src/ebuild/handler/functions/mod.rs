//! The ebuild functions that are answered by this process.
pub mod version;

use super::error::{FuncCallError, FuncCallErrorView, PhaseErrorView, PhaseExecutionError};
use super::prot::ParentMessage;
use super::prot::func::string_views;
use crate::repository::{Repository, eclass_index};
use crate::text::{join_strings, join_words, texts};
use vstd::prelude::*;

verus! {

/// `debug-print`: the words are only logged; the reply is success.
pub fn debug_print(args: &[String]) -> (r: ParentMessage)
    ensures
        r@ == (0u8, None::<Seq<char>>),
{
    ParentMessage::Success(None)
}

/// `die`: a fatal call ends the ebuild with the words as message; a non-fatal one
/// (`die -n`) only fails.
pub fn die(args: &[String], fatal: bool) -> (r: ParentMessage)
    ensures
        r@ == if fatal {
            (2u8, Some(join_words(args@.map_values(|a: String| a@))))
        } else {
            (1u8, None::<Seq<char>>)
        },
{
    if fatal {
        assert(texts(args@) =~= args@.map_values(|a: String| a@));
        ParentMessage::Die(join_strings(args))
    } else {
        ParentMessage::Failure(None)
    }
}

/// `__resolve_eclass`: the path of the eclass `name` of `repository`.
pub fn resolve_eclass(name: &str, repository: &Repository) -> (r: Result<ParentMessage, PhaseExecutionError>)
    ensures
        match eclass_index(repository@.eclasses, name@) {
            Some(i) => r matches Ok(m) && m@ == (0u8, Some(repository@.eclasses[i].1)),
            None => r matches Err(e) && e@ == PhaseErrorView::FuncCall(
                FuncCallErrorView::EclassNotFound(name@, repository@.name),
            ),
        },
{
    match repository.eclass(name) {
        Some(eclass) => Ok(ParentMessage::Success(Some(eclass.path().to_owned()))),
        None => Err(PhaseExecutionError::FuncCall(
            FuncCallError::EclassNotFound { name: name.to_owned(), repository: repository.to_string() },
        )),
    }
}

} // verus!
