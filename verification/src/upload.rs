//! Document upload support: deciding how a file is read from its extension
//! and framing the extracted text for the prompt. Reading the file itself
//! (plain text, PDF or Word extraction) is the surrounding application's
//! business.

use vstd::prelude::*;
use vstd::string::*;
use crate::text::str_eq;

verus! {

/// How an uploaded file is read.
#[derive(Clone, Copy, PartialEq, Eq, Structural, Debug)]
pub enum UploadKind {
    /// Read as plain text.
    PlainText,
    /// Extracted from a PDF.
    Pdf,
    /// Extracted from a Word document.
    Docx,
    /// No extractor for this extension.
    Unsupported,
}

/// The reader a lowercased file extension selects.
pub open spec fn classify_spec(ext: Seq<char>) -> UploadKind {
    if ext == "txt"@ || ext == "md"@ || ext == "rs"@ || ext == "js"@ || ext == "py"@ || ext
        == "json"@ || ext == "html"@ || ext == "css"@ || ext == "cpp"@ || ext == "h"@ {
        UploadKind::PlainText
    } else if ext == "pdf"@ {
        UploadKind::Pdf
    } else if ext == "docx"@ {
        UploadKind::Docx
    } else {
        UploadKind::Unsupported
    }
}

/// Decides how a file with this (lowercased) extension is read.
pub fn classify_extension(ext: &str) -> (k: UploadKind)
    ensures
        k == classify_spec(ext@),
{
    if str_eq(ext, "txt") || str_eq(ext, "md") || str_eq(ext, "rs") || str_eq(ext, "js") || str_eq(
        ext,
        "py",
    ) || str_eq(ext, "json") || str_eq(ext, "html") || str_eq(ext, "css") || str_eq(ext, "cpp")
        || str_eq(ext, "h") {
        UploadKind::PlainText
    } else if str_eq(ext, "pdf") {
        UploadKind::Pdf
    } else if str_eq(ext, "docx") {
        UploadKind::Docx
    } else {
        UploadKind::Unsupported
    }
}

/// The framed form of an extracted document, as it is handed to the model.
pub open spec fn wrapped_document(name: Seq<char>, content: Seq<char>) -> Seq<char> {
    "\n[DOKUMENTUM: "@ + name + "]\n"@ + content + "\n[DOKUMENTUM VÉGE]"@
}

/// Frames an extracted document with its file name.
pub fn wrap_document(file_name: &str, content: &str) -> (r: String)
    ensures
        r@ == wrapped_document(file_name@, content@),
{
    let mut r = String::from_str("\n[DOKUMENTUM: ");
    r.append(file_name);
    r.append("]\n");
    r.append(content);
    r.append("\n[DOKUMENTUM VÉGE]");
    proof {
        assert(r@ =~= wrapped_document(file_name@, content@));
    }
    r
}

/// The error text for an extension nothing can read.
pub open spec fn unsupported_text(ext: Seq<char>) -> Seq<char> {
    "A(z) ."@ + ext + " formátumot még nem tanítottad meg nekem!"@
}

/// The error message for an extension nothing can read.
pub fn unsupported_message(ext: &str) -> (r: String)
    ensures
        r@ == unsupported_text(ext@),
{
    let mut r = String::from_str("A(z) .");
    r.append(ext);
    r.append(" formátumot még nem tanítottad meg nekem!");
    proof {
        assert(r@ =~= unsupported_text(ext@));
    }
    r
}

} // verus!
