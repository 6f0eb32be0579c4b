//! The error kinds shared by every part of the library.

use vstd::prelude::*;
use vstd::string::*;

verus! {

/// Why an operation of this library failed.
#[derive(Debug, Clone, Copy, PartialEq, Eq, Structural)]
pub enum UnpackError {
    /// An index file breaks the format: bad magic, a count or an offset that
    /// does not fit the file, a repeated node id, a parent chain that loops,
    /// a record larger than its unpacked size, or no package name.
    MalformedIdx,
    /// The installation has no `res_packages` directory.
    MissingPackages,
    /// No numbered build directory with an index directory was found.
    NoBuild,
    /// The index directory that was named does not exist.
    MissingIdxDir,
    /// A path names no node of the directory tree.
    UnknownPath,
    /// A record points outside its package file.
    OutOfBounds,
    /// Fewer bytes could be read from a package than the record asks for.
    IoRead,
    /// An output file or directory could not be written.
    IoWrite,
    /// A payload is no valid DEFLATE stream, or does not unpack to the size
    /// that its record gives.
    Decompress,
    /// A search pattern is no valid regular expression.
    InvalidPattern,
    /// A text catalog breaks the format: bad magic, a table that does not lie
    /// inside the file, or a text longer than its entry says.
    MalformedCatalog,
    /// The texts of a catalog were asked for before the catalog was decoded.
    NotDecoded,
    /// The native parameter converter could not be loaded or called.
    Ffi,
}

/// The result of a fallible operation of this library.
pub type UnpackResult<T> = Result<T, UnpackError>;

impl UnpackError {
    /// The text shown to a user for each kind of failure.
    pub open spec fn text(self) -> Seq<char> {
        match self {
            UnpackError::MalformedIdx => "malformed index file"@,
            UnpackError::MissingPackages => "res_packages directory not found"@,
            UnpackError::NoBuild => "no build with an idx directory found"@,
            UnpackError::MissingIdxDir => "idx directory not found"@,
            UnpackError::UnknownPath => "no such path in the directory tree"@,
            UnpackError::OutOfBounds => "record lies outside its package file"@,
            UnpackError::IoRead => "package file could not be read"@,
            UnpackError::IoWrite => "output could not be written"@,
            UnpackError::Decompress => "payload could not be decompressed"@,
            UnpackError::InvalidPattern => "invalid search pattern"@,
            UnpackError::MalformedCatalog => "malformed text catalog"@,
            UnpackError::NotDecoded => "text catalog is not decoded yet"@,
            UnpackError::Ffi => "native converter failed"@,
        }
    }

    /// Renders the error for a user.
    pub fn message(&self) -> (s: String)
        ensures
            s@ == self.text(),
    {
        match self {
            UnpackError::MalformedIdx => String::from_str("malformed index file"),
            UnpackError::MissingPackages => String::from_str("res_packages directory not found"),
            UnpackError::NoBuild => String::from_str("no build with an idx directory found"),
            UnpackError::MissingIdxDir => String::from_str("idx directory not found"),
            UnpackError::UnknownPath => String::from_str("no such path in the directory tree"),
            UnpackError::OutOfBounds => String::from_str("record lies outside its package file"),
            UnpackError::IoRead => String::from_str("package file could not be read"),
            UnpackError::IoWrite => String::from_str("output could not be written"),
            UnpackError::Decompress => String::from_str("payload could not be decompressed"),
            UnpackError::InvalidPattern => String::from_str("invalid search pattern"),
            UnpackError::MalformedCatalog => String::from_str("malformed text catalog"),
            UnpackError::NotDecoded => String::from_str("text catalog is not decoded yet"),
            UnpackError::Ffi => String::from_str("native converter failed"),
        }
    }
}

} // verus!
