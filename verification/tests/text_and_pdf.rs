//! Case folding, substring matching, the embedding prompt, and the pure
//! PDF checks.

use genius_reads::pdf::{PDFHandler, PdfPathError};
use genius_reads::text::{contains_ignore_case, embedding_text, eq_ignore_case};

#[test]
fn equality_ignores_ascii_case_only() {
    assert!(eq_ignore_case("Backpropagation", "backPROPagation"));
    assert!(eq_ignore_case("", ""));
    assert!(!eq_ignore_case("Backpropagation", "Backpropagation "));
    assert!(!eq_ignore_case("abc", "abd"));
    assert!(!eq_ignore_case("abc", "ab"));
    // Digits and punctuation must match exactly.
    assert!(eq_ignore_case("C-3PO!", "c-3po!"));
    assert!(!eq_ignore_case("C-3PO", "C-4PO"));
}

#[test]
fn substring_search_ignores_case() {
    assert!(contains_ignore_case("Deep Learning", "LEARN"));
    assert!(contains_ignore_case("Deep Learning", ""));
    assert!(contains_ignore_case("Deep Learning", "deep learning"));
    assert!(!contains_ignore_case("Deep Learning", "shallow"));
    assert!(!contains_ignore_case("ab", "abc"));
}

#[test]
fn embedding_prompt_joins_name_and_description() {
    let t = embedding_text("Backpropagation", "computes gradients");
    assert_eq!(t, "Backpropagation: computes gradients");
    assert_eq!(embedding_text("", ""), ": ");
}

#[test]
fn sanitize_accepts_pdf_paths_up_to_case() {
    assert_eq!(
        PDFHandler::sanitize_file_path("/books/test.pdf"),
        Ok("/books/test.pdf".to_string())
    );
    assert_eq!(
        PDFHandler::sanitize_file_path("C:/reads/PAPER.PDF"),
        Ok("C:/reads/PAPER.PDF".to_string())
    );
    // A hidden file may still carry an extension after its leading dot.
    assert_eq!(
        PDFHandler::sanitize_file_path("/books/.archived.pdf"),
        Ok("/books/.archived.pdf".to_string())
    );
}

#[test]
fn sanitize_rejects_non_pdf_paths() {
    assert_eq!(
        PDFHandler::sanitize_file_path("/books/test.txt"),
        Err(PdfPathError::NotPdf)
    );
    assert_eq!(
        PDFHandler::sanitize_file_path("/books/notes"),
        Err(PdfPathError::NoExtension)
    );
    assert_eq!(PDFHandler::sanitize_file_path(""), Err(PdfPathError::NoExtension));
    // The extension is taken from the file name alone: a dot in a
    // directory gives none, and neither does a file name that is only
    // a leading dot.
    assert_eq!(
        PDFHandler::sanitize_file_path("shelf.v2/notes"),
        Err(PdfPathError::NoExtension)
    );
    assert_eq!(
        PDFHandler::sanitize_file_path("/books/.pdf"),
        Err(PdfPathError::NoExtension)
    );
    // A trailing dot is an empty extension, not a missing one.
    assert_eq!(
        PDFHandler::sanitize_file_path("/books/notes."),
        Err(PdfPathError::NotPdf)
    );
    assert_eq!(PdfPathError::NotPdf.message(), "file is not a PDF");
    assert_eq!(PdfPathError::NoExtension.message(), "file has no extension");
}

#[test]
fn pdf_signature_is_checked_on_the_first_bytes() {
    assert!(PDFHandler::has_pdf_signature(&b"%PDF-1.4\n".to_vec()));
    assert!(!PDFHandler::has_pdf_signature(&b"This is not a PDF".to_vec()));
    assert!(!PDFHandler::has_pdf_signature(&b"%PDF".to_vec()));
    assert!(!PDFHandler::has_pdf_signature(&Vec::new()));
}
