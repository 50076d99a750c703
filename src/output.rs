use vstd::prelude::*;
use vstd::utf8::encode_utf8;
use vstd::string::StringExecFns;
use crate::frame::{encode_frame, frame, Message, ValidMessage};

verus! {

/// The kinds of I/O failure that diagnostics name.
#[derive(Clone, Copy, Debug, PartialEq, Eq, Structural)]
pub enum ErrorKind {
    NotFound,
    PermissionDenied,
    AlreadyExists,
    InvalidInput,
    InvalidData,
    TimedOut,
    UnexpectedEof,
    Other,
}

/// The words that name each kind of failure.
pub open spec fn kind_text(k: ErrorKind) -> Seq<char> {
    match k {
        ErrorKind::NotFound => "Not found"@,
        ErrorKind::PermissionDenied => "Permission denied"@,
        ErrorKind::AlreadyExists => "File exists"@,
        ErrorKind::InvalidInput => "Invalid input"@,
        ErrorKind::InvalidData => "Invalid data"@,
        ErrorKind::TimedOut => "Timeout"@,
        ErrorKind::UnexpectedEof => "unexpected EOF"@,
        ErrorKind::Other => "Unknown error"@,
    }
}

impl ErrorKind {
    pub fn ek_str(&self) -> (r: &'static str)
        ensures
            r@ == kind_text(*self),
    {
        match self {
            ErrorKind::NotFound => "Not found",
            ErrorKind::PermissionDenied => "Permission denied",
            ErrorKind::AlreadyExists => "File exists",
            ErrorKind::InvalidInput => "Invalid input",
            ErrorKind::InvalidData => "Invalid data",
            ErrorKind::TimedOut => "Timeout",
            ErrorKind::UnexpectedEof => "unexpected EOF",
            ErrorKind::Other => "Unknown error",
        }
    }
}

/// The reply channel: builds the frames written to standard output, in the
/// host's byte order.
pub struct Stout {
    pub big_endian: bool,
}

impl Stout {
    /// The frame that reports `text` followed by the name of `kind`.
    pub fn error(&self, text: &str, kind: ErrorKind) -> (r: Vec<u8>)
        ensures
            r@ == frame(encode_utf8(text@ + kind_text(kind)), self.big_endian),
    {
        let st = text.to_owned().concat(kind.ek_str());
        self.try_write(st)
    }

    /// The frame that reports `text` followed by `data`.
    pub fn info(&self, text: &str, data: &str) -> (r: Vec<u8>)
        ensures
            r@ == frame(encode_utf8(text@ + data@), self.big_endian),
    {
        let st = text.to_owned().concat(data);
        self.try_write(st)
    }

    /// The frame that carries `st`.
    pub fn try_write(&self, st: String) -> (r: Vec<u8>)
        ensures
            r@ == frame(encode_utf8(st@), self.big_endian),
    {
        encode_frame(st.as_str(), self.big_endian)
    }
}

impl ValidMessage {
    /// The frame that carries the message's text.
    pub fn to_stdout(&self, out: &Stout) -> (r: Vec<u8>)
        ensures
            r@ == frame(encode_utf8(self.content@), out.big_endian),
    {
        encode_frame(self.content.as_str(), out.big_endian)
    }
}

impl Message {
    /// The frame that carries a valid message's text; nothing for the others.
    pub fn to_stdout(&self, out: &Stout) -> (r: Option<Vec<u8>>)
        ensures
            self is Valid <==> r is Some,
            self is Valid ==> r->0@ == frame(encode_utf8(self->Valid_0.content@), out.big_endian),
    {
        match self {
            Message::Valid(x) => Some(x.to_stdout(out)),
            _ => None,
        }
    }
}

} // verus!
