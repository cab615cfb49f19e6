use vstd::prelude::*;

use crate::text::str_eq;

verus! {

/// Where files of one kind live, which extensions they take (in order of preference), and the
/// program that opens them.
#[derive(Debug, Clone)]
pub struct FileHandler {
    pub folder: String,
    pub extension: Vec<String>,
    pub opener: String,
}

/// The paths of the two databases and the handlers of the four kinds of files.
#[derive(Debug, Clone)]
pub struct Config {
    pub database: String,
    pub journal_db: String,
    pub pdf: FileHandler,
    pub comment: FileHandler,
    pub temp_pdf: FileHandler,
    pub temp_bib: FileHandler,
}

/// The four kinds of files.
#[derive(Debug, Clone, Copy, PartialEq, Eq, Structural)]
pub enum FileKind {
    Pdf,
    Comment,
    TempPdf,
    TempBib,
}

/// Why a file type was refused.
#[derive(Debug, Clone, Copy, PartialEq, Eq, Structural)]
pub enum FileError {
    /// A temporary type was asked for where a stored file is named.
    UseTemp,
    /// A stored type was asked for where a temporary file is searched for.
    NotTemp,
    /// The type is not known.
    WrongType,
}

/// The kind of a stored file named by type: "pdf" or "comment".
pub open spec fn stored_kind(t: Seq<char>) -> Result<FileKind, FileError> {
    if t == "pdf"@ {
        Ok(FileKind::Pdf)
    } else if t == "comment"@ {
        Ok(FileKind::Comment)
    } else if t == "bib"@ || t == "temp_bib"@ || t == "temp_pdf"@ {
        Err(FileError::UseTemp)
    } else {
        Err(FileError::WrongType)
    }
}

/// The kind of a temporary file named by type: "bib" or "temp_bib", or "temp_pdf".
pub open spec fn temp_kind_of(t: Seq<char>) -> Result<FileKind, FileError> {
    if t == "bib"@ || t == "temp_bib"@ {
        Ok(FileKind::TempBib)
    } else if t == "temp_pdf"@ {
        Ok(FileKind::TempPdf)
    } else if t == "pdf"@ || t == "comment"@ {
        Err(FileError::NotTemp)
    } else {
        Err(FileError::WrongType)
    }
}

pub fn file_kind(file_type: &str) -> (r: Result<FileKind, FileError>)
    ensures
        r == stored_kind(file_type@),
{
    if str_eq(file_type, "pdf") {
        Ok(FileKind::Pdf)
    } else if str_eq(file_type, "comment") {
        Ok(FileKind::Comment)
    } else if str_eq(file_type, "bib") || str_eq(file_type, "temp_bib") || str_eq(
        file_type,
        "temp_pdf",
    ) {
        Err(FileError::UseTemp)
    } else {
        Err(FileError::WrongType)
    }
}

pub fn temp_kind(file_type: &str) -> (r: Result<FileKind, FileError>)
    ensures
        r == temp_kind_of(file_type@),
{
    if str_eq(file_type, "bib") || str_eq(file_type, "temp_bib") {
        Ok(FileKind::TempBib)
    } else if str_eq(file_type, "temp_pdf") {
        Ok(FileKind::TempPdf)
    } else if str_eq(file_type, "pdf") || str_eq(file_type, "comment") {
        Err(FileError::NotTemp)
    } else {
        Err(FileError::WrongType)
    }
}

impl Config {
    /// The handler of a kind of file.
    pub fn handler(&self, kind: FileKind) -> (r: &FileHandler)
        ensures
            kind == FileKind::Pdf ==> *r == self.pdf,
            kind == FileKind::Comment ==> *r == self.comment,
            kind == FileKind::TempPdf ==> *r == self.temp_pdf,
            kind == FileKind::TempBib ==> *r == self.temp_bib,
    {
        match kind {
            FileKind::Pdf => &self.pdf,
            FileKind::Comment => &self.comment,
            FileKind::TempPdf => &self.temp_pdf,
            FileKind::TempBib => &self.temp_bib,
        }
    }
}

} // verus!
