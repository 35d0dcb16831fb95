//! File formats and option bags of the SQL file-I/O surface.
//!
//! What a query names — a path and an options object — resolves here to a
//! [`FileFormat`] and [`ReadOptions`] / [`WriteOptions`]; the file reading and
//! writing itself happens at the edge of the program.
use vstd::prelude::*;
use vstd::utf8::encode_utf8;

use crate::error::Error;
use crate::f64bits::whole_value;
use crate::ir::{ascii_case_eq, eq_ignore_ascii_case};
use crate::read_options::ReadOptions;
use crate::value::{str_eq, Value};

verus! {

/// Supported on-disk tabular formats.
#[derive(Debug, Clone, Copy, PartialEq, Eq, Structural)]
pub enum FileFormat {
    /// Comma-separated values.
    Csv,
    /// Tab-separated values.
    Tsv,
    /// Newline-delimited JSON objects.
    Jsonl,
    /// A single JSON document: an array of rows, or one object.
    Json,
}

/// Everything needed to open a file reader: the path as written in the
/// query, the format inferred from its extension, and the reader options.
#[derive(Debug, Clone)]
pub struct FileSource {
    pub path: String,
    pub format: FileFormat,
    pub options: ReadOptions,
}

/// What std's `Path::extension` finds in a path (without the dot), as text.
pub uninterp spec fn path_extension(path: Seq<char>) -> Option<Seq<char>>;

/// What std's `Path::file_stem` finds in a path, as text.
pub uninterp spec fn path_file_stem(path: Seq<char>) -> Option<Seq<char>>;

/// `Path::extension`: the extension of the path's file name, if any.
#[verifier::external_body]
fn extension_of(path: &str) -> (r: Option<String>)
    ensures
        match path_extension(path@) {
            Some(e) => r matches Some(s) && s@ == e,
            None => r is None,
        },
{
    std::path::Path::new(path).extension().and_then(|e| e.to_str()).map(|e| e.to_string())
}

/// `Path::file_stem`: the path's file name without its extension, if any.
#[verifier::external_body]
fn file_stem_of(path: &str) -> (r: Option<String>)
    ensures
        match path_file_stem(path@) {
            Some(e) => r matches Some(s) && s@ == e,
            None => r is None,
        },
{
    std::path::Path::new(path).file_stem().and_then(|e| e.to_str()).map(|e| e.to_string())
}

/// The format an extension names, compared ignoring ASCII case.
pub open spec fn format_of_extension(ext: Seq<char>) -> Option<FileFormat> {
    let b = encode_utf8(ext);
    if ascii_case_eq(b, encode_utf8("csv"@)) {
        Some(FileFormat::Csv)
    } else if ascii_case_eq(b, encode_utf8("tsv"@)) {
        Some(FileFormat::Tsv)
    } else if ascii_case_eq(b, encode_utf8("jsonl"@)) || ascii_case_eq(b, encode_utf8("ndjson"@)) {
        Some(FileFormat::Jsonl)
    } else if ascii_case_eq(b, encode_utf8("json"@)) {
        Some(FileFormat::Json)
    } else {
        None
    }
}

/// The format a path names by its extension.
pub open spec fn format_of_path(path: Seq<char>) -> Option<FileFormat> {
    match path_extension(path) {
        Some(e) => format_of_extension(e),
        None => None,
    }
}

/// Infers the file format from a path's extension (`csv`, `tsv`,
/// `jsonl`/`ndjson`, `json`, in any ASCII case).
pub fn infer_format(path: &str) -> (r: Option<FileFormat>)
    ensures
        r == format_of_path(path@),
{
    match extension_of(path) {
        Some(e) => format_of_ext(e.as_str()),
        None => None,
    }
}

/// The format an extension names (`csv`, `tsv`, `jsonl`/`ndjson`, `json`,
/// in any ASCII case), if any.
pub fn format_of_ext(e: &str) -> (r: Option<FileFormat>)
    ensures
        r == format_of_extension(e@),
{
    if eq_ignore_ascii_case(e, "csv") {
        Some(FileFormat::Csv)
    } else if eq_ignore_ascii_case(e, "tsv") {
        Some(FileFormat::Tsv)
    } else if eq_ignore_ascii_case(e, "jsonl") || eq_ignore_ascii_case(e, "ndjson") {
        Some(FileFormat::Jsonl)
    } else if eq_ignore_ascii_case(e, "json") {
        Some(FileFormat::Json)
    } else {
        None
    }
}

/// Returns true when `path` has a recognized tabular file extension.
pub fn looks_like_file(path: &str) -> (r: bool)
    ensures
        r == format_of_path(path@) is Some,
{
    infer_format(path).is_some()
}

/// Default alias for a file path: the filename stem (`test.csv` → `test`),
/// or `file` when there is none.
pub fn default_alias(path: &str) -> (r: String)
    ensures
        match path_file_stem(path@) {
            Some(s) => r@ == s,
            None => r@ == "file"@,
        },
{
    match file_stem_of(path) {
        Some(s) => s,
        None => String::from_str("file"),
    }
}

/// The name of the builtin that reads a format.
pub open spec fn read_builtin_name(format: FileFormat) -> Seq<char> {
    match format {
        FileFormat::Csv | FileFormat::Tsv => "read_csv"@,
        FileFormat::Jsonl => "read_jsonl"@,
        FileFormat::Json => "read_json"@,
    }
}

/// The name of the builtin that writes a format.
pub open spec fn write_builtin_name(format: FileFormat) -> Seq<char> {
    match format {
        FileFormat::Csv | FileFormat::Tsv => "write_csv"@,
        FileFormat::Jsonl => "write_jsonl"@,
        FileFormat::Json => "write_json"@,
    }
}

/// Builtin name for reading `format`.
pub fn read_builtin(format: FileFormat) -> (r: &'static str)
    ensures
        r@ == read_builtin_name(format),
{
    match format {
        FileFormat::Csv | FileFormat::Tsv => "read_csv",
        FileFormat::Jsonl => "read_jsonl",
        FileFormat::Json => "read_json",
    }
}

/// Builtin name for writing `format`.
pub fn write_builtin(format: FileFormat) -> (r: &'static str)
    ensures
        r@ == write_builtin_name(format),
{
    match format {
        FileFormat::Csv | FileFormat::Tsv => "write_csv",
        FileFormat::Jsonl => "write_jsonl",
        FileFormat::Json => "write_json",
    }
}

} // verus!
