use vstd::prelude::*;

verus! {

/// What went wrong while reading or writing a class file.
#[derive(Clone, Copy, Debug, PartialEq, Eq, Structural)]
pub enum ErrorKind {
    /// Fewer bytes were left than a field needs.
    TruncatedInput,
    /// The first four bytes are not the class-file signature.
    InvalidMagic,
    /// A constant-pool entry starts with a tag byte of no known shape.
    UnknownConstantTag(u8),
    /// A text constant does not hold valid UTF-8.
    InvalidEncoding,
    /// The fast scanner would read past the end of the buffer.
    IndexOutOfRange,
    /// A length or count does not fit its field on the wire.
    SizeOverflow,
    /// A cached value was asked for before it was loaded.
    Missing,
    /// Any other failure, described by its message alone.
    Other,
}

/// The error every fallible operation of the library reports: its kind, and
/// a message that names what was being read or written.
#[derive(Debug)]
pub struct MessageError {
    pub kind: ErrorKind,
    pub msg: String,
}

/// The result type of the library's fallible operations.
pub type Result<T> = core::result::Result<T, MessageError>;

impl MessageError {
    /// An error described by `msg` alone.
    pub fn new(msg: &str) -> (r: MessageError)
        ensures
            r.kind == ErrorKind::Other,
            r.msg@ == msg@,
    {
        MessageError { kind: ErrorKind::Other, msg: msg.to_owned() }
    }

    /// An error of the given kind, raised while handling `msg`.
    pub fn with_kind(kind: ErrorKind, msg: &str) -> (r: MessageError)
        ensures
            r.kind == kind,
            r.msg@ == msg@,
    {
        MessageError { kind, msg: msg.to_owned() }
    }

    /// The message, for display.
    pub fn message(&self) -> (r: String)
        ensures
            r@ == self.msg@,
    {
        self.msg.clone()
    }
}

impl Clone for MessageError {
    fn clone(&self) -> (r: Self)
        ensures
            r == *self,
    {
        MessageError { kind: self.kind, msg: self.msg.clone() }
    }
}

/// `r` is the error form of `s`: the same value, or an error of the same kind.
pub open spec fn same_outcome<T>(r: Result<T>, s: core::result::Result<T, ErrorKind>) -> bool {
    match s {
        Ok(v) => r == Ok::<T, MessageError>(v),
        Err(e) => r is Err && r->Err_0.kind == e,
    }
}

/// Attaching a message to a result whose error is a bare kind.
pub trait ToResult<T>: Sized {
    /// The same result, the error (if any) now carrying `msg`.
    fn with_message(self, msg: &str) -> Result<T>;
}

impl<T> ToResult<T> for core::result::Result<T, ErrorKind> {
    fn with_message(self, msg: &str) -> (r: Result<T>)
        ensures
            same_outcome(r, self),
    {
        match self {
            Ok(v) => Ok(v),
            Err(e) => Err(MessageError::with_kind(e, msg)),
        }
    }
}

} // verus!
