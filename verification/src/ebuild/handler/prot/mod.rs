//! The protocol between this process and the ebuild process.
//!
//! Messages from the ebuild process are text terminated by `\4`: function calls start with
//! `FN` and data messages with `DATA`; their fields are separated by `\0`. For example
//! `FN\0ver_test\06.0\0-gt\05.0` asks for `ver_test 6.0 -gt 5.0`, and
//! `DATA\0IUSE=static-libs tcpd usbip` carries a variable.
pub mod func;

use crate::text::{append_str, first_index, push_char};
use crate::text::join_words;
use func::{FuncCall, func_code_of, func_name, string_views};
use vstd::prelude::*;
use vstd::utf8::{decode_utf8, encode_utf8, valid_utf8};
use vstd::string::StrSliceExecFns;

pub use func::FuncType;

verus! {

#[verifier::external_type_specification]
#[verifier::external_body]
pub struct ExUtf8Error(core::str::Utf8Error);

/// Decodes `bytes` as UTF-8 with `core::str::from_utf8`, which succeeds exactly on valid
/// UTF-8 and then yields the characters the bytes encode.
#[verifier::external_body]
fn decode_utf8_bytes(bytes: &[u8]) -> (r: Result<String, core::str::Utf8Error>)
    ensures
        r is Ok <==> valid_utf8(bytes@),
        r matches Ok(s) ==> s@ == decode_utf8(bytes@),
{
    match core::str::from_utf8(bytes) {
        Ok(s) => Ok(s.to_owned()),
        Err(e) => Err(e),
    }
}

/// Model of a protocol error.
pub enum ProtocolErrorView {
    InvalidUtf8,
    InvalidRequest(Seq<char>),
    MissingFunction,
    UnknownFunction(Seq<char>),
}

/// Errors caused by invalid messages from the ebuild process.
#[derive(Debug)]
pub enum ProtocolError {
    InvalidUtf8(core::str::Utf8Error),
    InvalidRequest(String),
    MissingFunction,
    UnknownFunction { func: String },
}

impl View for ProtocolError {
    type V = ProtocolErrorView;

    open spec fn view(&self) -> ProtocolErrorView {
        match self {
            ProtocolError::InvalidUtf8(_) => ProtocolErrorView::InvalidUtf8,
            ProtocolError::InvalidRequest(r) => ProtocolErrorView::InvalidRequest(r@),
            ProtocolError::MissingFunction => ProtocolErrorView::MissingFunction,
            ProtocolError::UnknownFunction { func } => ProtocolErrorView::UnknownFunction(func@),
        }
    }
}

/// Text of a protocol error.
pub open spec fn protocol_error_text(e: ProtocolErrorView) -> Seq<char> {
    match e {
        ProtocolErrorView::InvalidUtf8 => "invalid UTF-8 in IPC request"@,
        ProtocolErrorView::InvalidRequest(r) => "invalid IPC request: "@ + r,
        ProtocolErrorView::MissingFunction => "missing function identifier in IPC request"@,
        ProtocolErrorView::UnknownFunction(f) => "unknown ebuild function '"@ + f + "'"@,
    }
}

impl ProtocolError {
    /// Returns the description of this error.
    pub fn to_string(&self) -> (r: String)
        ensures
            r@ == protocol_error_text(self@),
    {
        match self {
            ProtocolError::InvalidUtf8(_) => "invalid UTF-8 in IPC request".to_owned(),
            ProtocolError::InvalidRequest(r) => {
                let mut s = "invalid IPC request: ".to_owned();
                append_str(&mut s, r.as_str());
                s
            },
            ProtocolError::MissingFunction => "missing function identifier in IPC request".to_owned(),
            ProtocolError::UnknownFunction { func } => {
                let mut s = "unknown ebuild function '".to_owned();
                append_str(&mut s, func.as_str());
                append_str(&mut s, "'");
                s
            },
        }
    }
}

/// The fields of `s` separated by `c`: one more than there are separators.
pub open spec fn split_fields(s: Seq<char>, c: char) -> Seq<Seq<char>>
    decreases s.len(),
{
    match first_index(s, c) {
        Some(k) => if 0 <= k < s.len() {
            seq![s.take(k)] + split_fields(s.skip(k + 1), c)
        } else {
            seq![s]
        },
        None => seq![s],
    }
}

/// Model of a message from the ebuild process.
pub enum ChildMessageView {
    Call(u8, Seq<Seq<char>>),
    Data(Seq<char>),
}

/// The message of the decoded text `msg`, or the error it gives.
pub open spec fn child_message_of(msg: Seq<char>) -> Result<ChildMessageView, ProtocolErrorView> {
    let parts = split_fields(msg, '\0');
    if parts[0] == "FN"@ {
        if parts.len() < 2 || parts[1].len() == 0 {
            Err(ProtocolErrorView::MissingFunction)
        } else {
            match func_code_of(parts[1]) {
                Some(code) => Ok(ChildMessageView::Call(code, parts.skip(2))),
                None => Err(ProtocolErrorView::UnknownFunction(parts[1])),
            }
        }
    } else if parts[0] == "DATA"@ {
        Ok(ChildMessageView::Data(join_words(parts.skip(1))))
    } else {
        Err(ProtocolErrorView::InvalidRequest(msg))
    }
}

/// Splits `s` at every `c`.
fn split_string(s: &str, c: char) -> (r: Vec<String>)
    ensures
        string_views(r@) == split_fields(s@, c),
{
    let v = crate::text::chars_of(s);
    let mut out: Vec<String> = Vec::new();
    let mut start: usize = 0;
    let n = v.len();
    assert(v@.subrange(0, n as int) == v@);
    assert(string_views(out@) =~= Seq::<Seq<char>>::empty());
    assert(split_fields(s@, c) =~= string_views(out@) + split_fields(v@.subrange(0, n as int), c));
    loop
        invariant
            0 <= start <= n == v@.len(),
            v@ == s@,
            split_fields(s@, c) == string_views(out@) + split_fields(v@.subrange(start as int, n as int), c),
        decreases n - start,
    {
        let ghost rest = v@.subrange(start as int, n as int);
        let k = crate::text::find_char(&v, start, n, c);
        proof {
            crate::text::lemma_first_index(rest, c);
        }
        let part = crate::text::string_from(&v, start, k);
        let ghost before = out@;
        out.push(part);
        proof {
            assert(string_views(out@) =~= string_views(before).push(v@.subrange(start as int, k as int)));
        }
        if k == n {
            proof {
                crate::text::lemma_first_index_none(rest, c);
                assert(split_fields(rest, c) == seq![rest]);
                assert(split_fields(s@, c) =~= string_views(out@));
            }
            return out;
        }
        proof {
            crate::text::lemma_first_index_unique(rest, c, k - start);
            assert(rest.take(k - start) == v@.subrange(start as int, k as int));
            assert(rest.skip(k - start + 1) == v@.subrange(k + 1, n as int));
            assert(split_fields(s@, c) =~= string_views(out@) + split_fields(v@.subrange(k + 1, n as int), c));
        }
        start = k + 1;
    }
}

/// A message from the ebuild process: a function call or data.
#[derive(Debug, PartialEq, Eq)]
pub enum ChildMessage {
    Call(FuncCall),
    Data(String),
}

impl View for ChildMessage {
    type V = ChildMessageView;

    open spec fn view(&self) -> ChildMessageView {
        match self {
            ChildMessage::Call(c) => ChildMessageView::Call(c.func@, string_views(c.args@)),
            ChildMessage::Data(d) => ChildMessageView::Data(d@),
        }
    }
}

impl ChildMessage {
    /// Reads a message from the bytes received from the ebuild process, without the
    /// terminating `\4`.
    pub fn from_bytes(bytes: &[u8]) -> (r: Result<Self, ProtocolError>)
        ensures
            !valid_utf8(bytes@) ==> (r matches Err(e) && e@ == ProtocolErrorView::InvalidUtf8),
            valid_utf8(bytes@) ==> match child_message_of(decode_utf8(bytes@)) {
                Ok(m) => (r matches Ok(x) && x@ == m),
                Err(e) => (r matches Err(x) && x@ == e),
            },
    {
        let msg = match decode_utf8_bytes(bytes) {
            Ok(s) => s,
            Err(e) => {
                return Err(ProtocolError::InvalidUtf8(e));
            },
        };
        let parts = split_string(msg.as_str(), '\0');
        let ghost pv = split_fields(msg@, '\0');
        assert(pv.len() >= 1) by {
            reveal_with_fuel(split_fields, 2);
        }
        assert(string_views(parts@)[0] == parts@[0]@);
        if crate::text::str_eq(parts[0].as_str(), "FN") {
            if parts.len() < 2 || parts[1].as_str().is_empty() {
                return Err(ProtocolError::MissingFunction);
            }
            assert(string_views(parts@)[1] == parts@[1]@);
            let mut args: Vec<&str> = Vec::new();
            let mut i: usize = 2;
            while i < parts.len()
                invariant
                    2 <= i <= parts@.len(),
                    args@.map_values(|a: &str| a@) == string_views(parts@).subrange(2, i as int),
                decreases parts.len() - i,
            {
                let ghost before = args@;
                args.push(parts[i].as_str());
                proof {
                    assert(args@.map_values(|a: &str| a@) =~= before.map_values(|a: &str| a@).push(parts@[i as int]@));
                    assert(string_views(parts@).subrange(2, i + 1) =~= string_views(parts@).subrange(2, i as int).push(parts@[i as int]@));
                }
                i += 1;
            }
            assert(string_views(parts@).subrange(2, i as int) == pv.skip(2));
            match FuncCall::from_raw(parts[1].as_str(), args.as_slice()) {
                Ok(c) => Ok(ChildMessage::Call(c)),
                Err(e) => Err(e),
            }
        } else if crate::text::str_eq(parts[0].as_str(), "DATA") {
            let mut data = String::new();
            let mut i: usize = 1;
            while i < parts.len()
                invariant
                    1 <= i <= parts@.len(),
                    data@ == join_words(string_views(parts@).subrange(1, i as int)),
                decreases parts.len() - i,
            {
                if i > 1 {
                    push_char(&mut data, ' ');
                }
                append_str(&mut data, parts[i].as_str());
                proof {
                    let sub = string_views(parts@).subrange(1, i + 1);
                    assert(sub.drop_last() =~= string_views(parts@).subrange(1, i as int));
                    assert(sub.last() == parts@[i as int]@);
                    assert(data@ =~= join_words(sub));
                }
                i += 1;
            }
            assert(string_views(parts@).subrange(1, i as int) == pv.skip(1));
            Ok(ChildMessage::Data(data))
        } else {
            Err(ProtocolError::InvalidRequest(msg))
        }
    }

    /// Returns the text of this message: the call with its arguments, or the data.
    pub fn to_string(&self) -> (r: String)
        ensures
            r@ == match self@ {
                ChildMessageView::Call(f, args) => func_name(f) + seq![' '] + join_words(args),
                ChildMessageView::Data(d) => d,
            },
    {
        match self {
            ChildMessage::Call(c) => c.to_string(),
            ChildMessage::Data(d) => d.clone(),
        }
    }
}

/// Model of a reply to the ebuild process: 0 `Success`, 1 `Failure`, 2 `Die`, with the text.
pub type ParentMessageView = (u8, Option<Seq<char>>);

/// Text of a reply: `OK`, `ERR` (each with an optional message) or `DIE`.
pub open spec fn parent_message_text(m: ParentMessageView) -> Seq<char> {
    if m.0 == 2 {
        "DIE"@
    } else {
        (if m.0 == 0 {
            "OK"@
        } else {
            "ERR"@
        }) + match m.1 {
            Some(t) => seq![' '] + t,
            None => Seq::empty(),
        }
    }
}

/// A reply to a message of the ebuild process: `Ok` returns 0, `Err` returns 1, and `Die`
/// ends the ebuild process.
#[derive(Debug, PartialEq, Eq)]
pub enum ParentMessage {
    Success(Option<String>),
    Failure(Option<String>),
    Die(String),
}

impl View for ParentMessage {
    type V = ParentMessageView;

    open spec fn view(&self) -> ParentMessageView {
        match self {
            ParentMessage::Success(t) => (0, match t {
                Some(s) => Some(s@),
                None => None,
            }),
            ParentMessage::Failure(t) => (1, match t {
                Some(s) => Some(s@),
                None => None,
            }),
            ParentMessage::Die(t) => (2, Some(t@)),
        }
    }
}

impl ParentMessage {
    /// `Success` for `true`, `Failure` for `false`, without a message.
    pub fn from_bool(value: bool) -> (r: Self)
        ensures
            r@ == (if value { 0u8 } else { 1u8 }, None::<Seq<char>>),
    {
        if value {
            ParentMessage::Success(None)
        } else {
            ParentMessage::Failure(None)
        }
    }

    /// Returns the text of this reply.
    pub fn to_string(&self) -> (r: String)
        ensures
            r@ == parent_message_text(self@),
    {
        let (head, text) = match self {
            ParentMessage::Success(t) => ("OK", t),
            ParentMessage::Failure(t) => ("ERR", t),
            ParentMessage::Die(_) => {
                return "DIE".to_owned();
            },
        };
        let mut s = head.to_owned();
        if let Some(t) = text {
            push_char(&mut s, ' ');
            append_str(&mut s, t.as_str());
        }
        s
    }

    /// Encodes this reply as UTF-8, without the framing delimiter.
    pub fn into_bytes(self) -> (r: Vec<u8>)
        ensures
            r@ == encode_utf8(parent_message_text(self@)),
    {
        let s = self.to_string();
        s.as_str().as_bytes_vec()
    }
}

} // verus!
