use vstd::prelude::*;

verus! {

/// Makes std::io::Error usable as an opaque field type; nothing is assumed of
/// its contents, which are only carried through.
#[verifier::external_type_specification]
#[verifier::external_body]
pub struct ExIoError(std::io::Error);

/// The three ways in which decoding or encoding can fail.
#[derive(Debug)]
pub enum ImageError {
    /// The byte stream, or the buffer handed to the encoder, breaks the format.
    FormatError(String),
    /// The stream is well formed but uses a variant that is not handled.
    UnsupportedError(String),
    /// The underlying byte source or sink failed.
    IoError(std::io::Error),
}

/// The kind of an error, without its message.
#[derive(Debug, Clone, Copy, PartialEq, Eq, Structural)]
pub enum ErrorKind {
    Format,
    Unsupported,
    Io,
}

impl ImageError {
    pub open spec fn kind(&self) -> ErrorKind {
        match self {
            ImageError::FormatError(_) => ErrorKind::Format,
            ImageError::UnsupportedError(_) => ErrorKind::Unsupported,
            ImageError::IoError(_) => ErrorKind::Io,
        }
    }
}

impl From<std::io::Error> for ImageError {
    fn from(err: std::io::Error) -> (r: ImageError)
        ensures
            r.kind() == ErrorKind::Io,
    {
        ImageError::IoError(err)
    }
}

impl vstd::std_specs::convert::FromSpecImpl<std::io::Error> for ImageError {
    open spec fn obeys_from_spec() -> bool {
        true
    }

    open spec fn from_spec(err: std::io::Error) -> ImageError {
        ImageError::IoError(err)
    }
}

/// `r` is the value that `spec` gives, or an error of the kind that `spec` gives.
pub open spec fn agrees<T>(r: Result<T, ImageError>, spec: Result<T, ErrorKind>) -> bool {
    match r {
        Ok(v) => spec == Ok::<T, ErrorKind>(v),
        Err(e) => spec == Err::<T, ErrorKind>(e.kind()),
    }
}

/// As `agrees`, for a vector and the sequence that it holds.
pub open spec fn agrees_vec<T>(r: Result<Vec<T>, ImageError>, spec: Result<Seq<T>, ErrorKind>) -> bool {
    match r {
        Ok(v) => spec == Ok::<Seq<T>, ErrorKind>(v@),
        Err(e) => spec == Err::<Seq<T>, ErrorKind>(e.kind()),
    }
}

/// A format error with the given message.
pub fn format_error(msg: &str) -> (r: ImageError)
    ensures
        r.kind() == ErrorKind::Format,
{
    ImageError::FormatError(msg.to_string())
}

/// An unsupported-variant error with the given message.
pub fn unsupported_error(msg: &str) -> (r: ImageError)
    ensures
        r.kind() == ErrorKind::Unsupported,
{
    ImageError::UnsupportedError(msg.to_string())
}

} // verus!
