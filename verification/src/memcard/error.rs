use vstd::prelude::*;

use crate::util::{decimal, push_decimal};

verus! {

/// Opaque handle on the standard library's I/O error, carried by
/// [`MemcardError::Io`].
#[verifier::external_type_specification]
#[verifier::external_body]
pub struct ExIoError(std::io::Error);

/// Everything that can go wrong while reading a memory card.
#[derive(Debug)]
pub enum MemcardError {
    Io(std::io::Error),
    InvalidMagic,
    InvalidVersion,
    InvalidRootdirCluster,
    InvalidType,
    UnsupportedPageLen(u16),
    UnsupportedPagesPerCluster(u16),
    UnsupportedPagesPerBlock(u16),
    UnsupportedClustersTotal(u32),
    Ecc,
    FreeClusterAllocated,
    FilenameInvalidCharacters,
    FilenameIsEmpty,
    FilenameIsntNullterminated,
    StringDecodeFailed,
    IconSysBadSubtitleOffset,
    SaveIconInvalidVertexCount,
}

/// An "unexpected end of file" error, as `read_exact` reports it when the
/// input runs out.
///
/// Calls `std::io::Error::new` with `std::io::ErrorKind::UnexpectedEof` and
/// the message that `read_exact` gives on a slice. Nothing is stated of the
/// value: it is only carried through.
#[verifier::external_body]
pub(crate) fn unexpected_eof() -> std::io::Error {
    std::io::Error::new(std::io::ErrorKind::UnexpectedEof, "failed to fill whole buffer")
}

/// The message of an I/O error.
///
/// Calls `ToString::to_string` (through `Display`) on the error. What the
/// message says depends on the error's kind and payload, which are opaque
/// here, so nothing is stated of it.
#[verifier::external_body]
fn io_error_text(e: &std::io::Error) -> String {
    e.to_string()
}

/// The sentence that tells an "only standard 8MB cards" limit.
pub open spec fn unsupported_text(what: Seq<char>, v: nat, unit: Seq<char>) -> Seq<char> {
    what + "'"@ + decimal(v) + "'"@ + unit
        + ". Only standard 8MB cards are supported at the moment."@
}

/// The message of every error but [`MemcardError::Io`], whose message is
/// the I/O error's own.
pub open spec fn error_text(e: MemcardError) -> Seq<char> {
    match e {
        MemcardError::Io(_) => Seq::empty(),
        MemcardError::InvalidMagic => "Invalid magic. Is this really a PS2 memory card, and is it formatted?"@,
        MemcardError::InvalidVersion => "Unknown file system version."@,
        MemcardError::InvalidRootdirCluster => "Unexpected value for rootdir cluster"@,
        MemcardError::InvalidType => "Invalid memcard type. Should be '2'."@,
        MemcardError::UnsupportedPageLen(v) => unsupported_text("Unsupported page length "@, v as nat, ""@),
        MemcardError::UnsupportedPagesPerCluster(v) => unsupported_text(
            "Unsupported pages per cluster "@,
            v as nat,
            ""@,
        ),
        MemcardError::UnsupportedPagesPerBlock(v) => unsupported_text(
            "Unsupported pages per block "@,
            v as nat,
            ""@,
        ),
        MemcardError::UnsupportedClustersTotal(v) => unsupported_text(
            "Unsupported memcard size "@,
            v as nat,
            " clusters"@,
        ),
        MemcardError::Ecc => "Bad ECC. Is the card corrupted?"@,
        MemcardError::FreeClusterAllocated => "Entry contains a cluster that is marked free"@,
        MemcardError::FilenameInvalidCharacters => "Filename contains invalid characters."@,
        MemcardError::FilenameIsEmpty => "Filename is empty."@,
        MemcardError::FilenameIsntNullterminated => "Filename isn't null-terminated."@,
        MemcardError::StringDecodeFailed => "Couldn't decode string."@,
        MemcardError::IconSysBadSubtitleOffset => "icon.sys subtitle offset is bad."@,
        MemcardError::SaveIconInvalidVertexCount => "Save icon vertex count isn't a multiple of 3."@,
    }
}

fn unsupported_message(what: &str, v: u32, unit: &str) -> (s: String)
    ensures
        s@ == unsupported_text(what@, v as nat, unit@),
{
    let mut s = String::new();
    s.append(what);
    proof {
        reveal_strlit("'");
        reveal_strlit(". Only standard 8MB cards are supported at the moment.");
    }
    s.append("'");
    push_decimal(&mut s, v);
    s.append("'");
    s.append(unit);
    s.append(". Only standard 8MB cards are supported at the moment.");
    assert(s@ =~= unsupported_text(what@, v as nat, unit@));
    s
}

impl MemcardError {
    /// The error's message, for people. For [`MemcardError::Io`] it is the
    /// I/O error's own message.
    pub fn to_string(&self) -> (s: String)
        ensures
            !(self is Io) ==> s@ == error_text(*self),
    {
        let text: &str = match self {
            MemcardError::Io(e) => return io_error_text(e),
            MemcardError::UnsupportedPageLen(v) => {
                return unsupported_message("Unsupported page length ", *v as u32, "");
            },
            MemcardError::UnsupportedPagesPerCluster(v) => {
                return unsupported_message("Unsupported pages per cluster ", *v as u32, "");
            },
            MemcardError::UnsupportedPagesPerBlock(v) => {
                return unsupported_message("Unsupported pages per block ", *v as u32, "");
            },
            MemcardError::UnsupportedClustersTotal(v) => {
                return unsupported_message("Unsupported memcard size ", *v, " clusters");
            },
            MemcardError::InvalidMagic => "Invalid magic. Is this really a PS2 memory card, and is it formatted?",
            MemcardError::InvalidVersion => "Unknown file system version.",
            MemcardError::InvalidRootdirCluster => "Unexpected value for rootdir cluster",
            MemcardError::InvalidType => "Invalid memcard type. Should be '2'.",
            MemcardError::Ecc => "Bad ECC. Is the card corrupted?",
            MemcardError::FreeClusterAllocated => "Entry contains a cluster that is marked free",
            MemcardError::FilenameInvalidCharacters => "Filename contains invalid characters.",
            MemcardError::FilenameIsEmpty => "Filename is empty.",
            MemcardError::FilenameIsntNullterminated => "Filename isn't null-terminated.",
            MemcardError::StringDecodeFailed => "Couldn't decode string.",
            MemcardError::IconSysBadSubtitleOffset => "icon.sys subtitle offset is bad.",
            MemcardError::SaveIconInvalidVertexCount => "Save icon vertex count isn't a multiple of 3.",
        };
        text.to_string()
    }
}

impl From<std::io::Error> for MemcardError {
    fn from(source: std::io::Error) -> (e: Self) {
        MemcardError::Io(source)
    }
}

impl vstd::std_specs::convert::FromSpecImpl<std::io::Error> for MemcardError {
    open spec fn obeys_from_spec() -> bool {
        true
    }

    open spec fn from_spec(source: std::io::Error) -> Self {
        MemcardError::Io(source)
    }
}

} // verus!
