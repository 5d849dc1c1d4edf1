//! PDF document records and the pure checks on PDF files: path
//! sanitation and the file-signature test.  Opening and reading the file
//! itself is I/O and stays with the host binary, which hands the bytes
//! and the path string in.

use vstd::prelude::*;

use crate::text::{
    eq_ignore_case, last_index_of, lemma_last_index_of_is, lemma_last_index_of_none, name_eq,
};

verus! {

/// Metadata extracted from a PDF file.
#[derive(Clone, Debug)]
pub struct PDFMetadata {
    pub title: Option<String>,
    pub author: Option<String>,
    pub subject: Option<String>,
    pub keywords: Option<Vec<String>>,
    pub creation_date: Option<String>,
    pub modification_date: Option<String>,
    pub producer: Option<String>,
    pub page_count: u32,
    pub file_size: u64,
}

/// A PDF document record as the reader application stores it.
#[derive(Clone, Debug)]
pub struct PDFDocument {
    pub id: String,
    pub title: String,
    pub file_path: String,
    pub file_name: String,
    pub file_size: u64,
    pub total_pages: u32,
    pub metadata: PDFMetadata,
}

/// Why a path was rejected.
#[derive(Clone, Copy, Debug, PartialEq, Eq, Structural)]
pub enum PdfPathError {
    /// The path's file name holds no extension.
    NoExtension,
    /// The path's file name has an extension, but not `pdf`.
    NotPdf,
}

impl PdfPathError {
    /// A human-readable description of the error.
    pub open spec fn message_view(&self) -> Seq<char> {
        match *self {
            PdfPathError::NoExtension => "file has no extension"@,
            PdfPathError::NotPdf => "file is not a PDF"@,
        }
    }

    /// A human-readable description of the error.
    pub fn message(&self) -> (r: String)
        ensures
            r@ == self.message_view(),
    {
        match self {
            PdfPathError::NoExtension => "file has no extension".to_owned(),
            PdfPathError::NotPdf => "file is not a PDF".to_owned(),
        }
    }
}

/// The file name of a path: what follows its last `/`, or the whole
/// path when it has none.
pub open spec fn file_name_of(s: Seq<char>) -> Seq<char> {
    match last_index_of(s, '/') {
        Some(k) => s.subrange(k + 1, s.len() as int),
        None => s,
    }
}

/// The extension of a path: what follows the last `.` of its file name,
/// provided that dot is not the file name's first character (a name
/// like `.profile` has no extension; a name like `notes.` has the empty
/// one).
pub open spec fn extension_of(s: Seq<char>) -> Option<Seq<char>> {
    let f = file_name_of(s);
    match last_index_of(f, '.') {
        Some(d) => if d > 0 {
            Some(f.subrange(d + 1, f.len() as int))
        } else {
            None
        },
        None => None,
    }
}

/// A path names a PDF file when its file name's extension is `pdf`, up
/// to case.
pub open spec fn is_pdf_path(s: Seq<char>) -> bool {
    extension_of(s) matches Some(e) && name_eq(e, "pdf"@)
}

/// The five signature bytes every PDF file starts with: `%PDF-`.
pub open spec fn pdf_signature() -> Seq<u8> {
    seq![37u8, 80u8, 68u8, 70u8, 45u8]
}

/// Pure checks on PDF files.
pub struct PDFHandler;

impl PDFHandler {
    /// Accept a path exactly when its file name's extension is `pdf`,
    /// up to case, handing the path back unchanged; reject anything
    /// else, telling a file name without any extension apart from one
    /// with a different extension.
    #[verifier::rlimit(60)]
    pub fn sanitize_file_path(file_path: &str) -> (r: Result<String, PdfPathError>)
        ensures
            match r {
                Ok(p) => is_pdf_path(file_path@) && p@ == file_path@,
                Err(e) => !is_pdf_path(file_path@) && e == (
                if extension_of(file_path@) is Some {
                    PdfPathError::NotPdf
                } else {
                    PdfPathError::NoExtension
                }),
            },
    {
        let n = file_path.unicode_len();
        // Walk back over the file name, to the start or to a separator.
        let mut fs: usize = n;
        while fs > 0 && file_path.get_char(fs - 1) != '/'
            invariant
                fs <= n,
                n == file_path@.len(),
                forall|t: int| fs <= t < n ==> file_path@[t] != '/',
            decreases fs,
        {
            fs -= 1;
        }
        let ghost fname = file_name_of(file_path@);
        proof {
            if fs > 0 {
                lemma_last_index_of_is(file_path@, '/', fs - 1);
            } else {
                lemma_last_index_of_none(file_path@, '/');
                assert(file_path@.subrange(0, n as int) =~= file_path@);
            }
            assert(fname =~= file_path@.subrange(fs as int, n as int));
            assert(forall|t: int| 0 <= t < fname.len() ==> fname[t] == file_path@[fs + t]);
        }
        // Walk back over the extension, to the file name's start or to
        // its last dot.
        let mut d: usize = n;
        while d > fs && file_path.get_char(d - 1) != '.'
            invariant
                fs <= d <= n,
                n == file_path@.len(),
                forall|t: int| d <= t < n ==> file_path@[t] != '.',
            decreases d,
        {
            d -= 1;
        }
        if d == fs || d - 1 == fs {
            // The file name has no dot at all, or only a leading one:
            // either way it carries no extension.
            proof {
                if d == fs {
                    assert(forall|t: int| 0 <= t < fname.len() ==> fname[t] != '.');
                    lemma_last_index_of_none(fname, '.');
                } else {
                    assert(fname[0] == '.');
                    assert(forall|t: int| 0 < t < fname.len() ==> fname[t] != '.');
                    lemma_last_index_of_is(fname, '.', 0);
                }
                assert(extension_of(file_path@) is None);
            }
            return Err(PdfPathError::NoExtension);
        }
        proof {
            assert(fname[d - 1 - fs] == '.');
            assert(forall|t: int| d - fs <= t < fname.len() ==> fname[t] != '.');
            lemma_last_index_of_is(fname, '.', d - 1 - fs);
        }
        let ext = file_path.substring_char(d, n);
        proof {
            assert(ext@ =~= fname.subrange(d - fs, fname.len() as int));
            assert(extension_of(file_path@) == Some(ext@));
        }
        if eq_ignore_case(ext, "pdf") {
            Ok(file_path.to_owned())
        } else {
            Err(PdfPathError::NotPdf)
        }
    }

    /// Whether the bytes start with the PDF file signature `%PDF-`.
    pub fn has_pdf_signature(data: &Vec<u8>) -> (r: bool)
        ensures
            r == (data@.len() >= 5 && data@.subrange(0, 5) == pdf_signature()),
    {
        if data.len() >= 5 {
            let ok = data[0] == 37 && data[1] == 80 && data[2] == 68 && data[3] == 70 && data[4]
                == 45;
            proof {
                if ok {
                    assert(data@.subrange(0, 5) =~= pdf_signature());
                } else {
                    assert(data@.subrange(0, 5) != pdf_signature()) by {
                        if data@.subrange(0, 5) == pdf_signature() {
                            assert(data@[0] == 37 && data@[1] == 80 && data@[2] == 68 && data@[3]
                                == 70 && data@[4] == 45) by {
                                assert(data@.subrange(0, 5)[0] == data@[0]);
                                assert(data@.subrange(0, 5)[1] == data@[1]);
                                assert(data@.subrange(0, 5)[2] == data@[2]);
                                assert(data@.subrange(0, 5)[3] == data@[3]);
                                assert(data@.subrange(0, 5)[4] == data@[4]);
                            }
                        }
                    }
                }
            }
            ok
        } else {
            false
        }
    }
}

} // verus!
