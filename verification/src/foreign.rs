//! Declarations of the standard and outside types that the library carries
//! without looking inside: paths, and I/O, SQLite, JSON and bincode
//! errors, travel through the library's error values and reports unopened.

use vstd::prelude::*;

verus! {

/// `std::path::PathBuf`, carried through as a file location.
#[verifier::external_type_specification]
#[verifier::external_body]
pub struct ExPathBuf(std::path::PathBuf);

/// `std::io::Error`, carried through as the cause of a failed file or
/// network operation.
#[verifier::external_type_specification]
#[verifier::external_body]
pub struct ExIoError(std::io::Error);

/// `rusqlite::Error`, carried through as the cause of a failed SQLite
/// operation.
#[verifier::external_type_specification]
#[verifier::external_body]
pub struct ExSqliteError(rusqlite::Error);

/// `simd_json::Error`, carried through as the cause of a manifest that
/// could not be decoded.
#[verifier::external_type_specification]
#[verifier::external_body]
pub struct ExSimdJsonError(simd_json::Error);

/// `camino::Utf8PathBuf`, carried through as a UTF-8 file location.
#[verifier::external_type_specification]
#[verifier::external_body]
pub struct ExUtf8PathBuf(camino::Utf8PathBuf);

/// `serde_json::Error`, carried through as the cause of a tag payload that
/// could not be decoded.
#[verifier::external_type_specification]
#[verifier::external_body]
pub struct ExSerdeJsonError(serde_json::Error);

/// `bincode::ErrorKind`, carried through (boxed, as `bincode::Error`) as
/// the cause of a popularity file that could not be encoded or decoded.
#[verifier::external_type_specification]
#[verifier::external_body]
pub struct ExBincodeErrorKind(bincode::ErrorKind);

} // verus!
