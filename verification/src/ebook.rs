//! The compute side of document reading: turning chapter HTML into plain
//! text, and naming extracted image files. Opening the container and
//! walking its resources is I/O and happens outside the library.

use vstd::prelude::*;
use vstd::string::*;

use crate::checkpoint::{sanitize_name, sanitized_of};
use crate::errors::SummaryError;
use crate::text::str_eq;

verus! {

broadcast use vstd::string::group_string_axioms;

/// The plain text that rendering the HTML `bytes` at line width `width`
/// yields, or `None` when the renderer rejects the input. The result
/// depends on the bytes and the width alone.
pub uninterp spec fn rendered_text_of(bytes: Seq<u8>, width: int) -> Option<Seq<char>>;

/// Relies on `html2text::from_read`: renders an HTML document as plain
/// text wrapped to `width` columns. The renderer guards its own layout
/// invariants with internal assertions; no input is known to reach them,
/// and the errors it does return come back as `Err` here.
#[verifier::external_body]
fn render_html(bytes: &Vec<u8>, width: usize) -> (r: Result<String, SummaryError>)
    ensures
        r is Ok <==> rendered_text_of(bytes@, width as int) is Some,
        r is Ok ==> Some(r->Ok_0@) == rendered_text_of(bytes@, width as int),
{
    match html2text::from_read(bytes.as_slice(), width) {
        Ok(text) => Ok(text),
        Err(_) => Err(SummaryError::Encoding),
    }
}

/// The line width chapters are rendered at: wide enough that the renderer
/// never wraps a paragraph.
pub const CHAPTER_RENDER_WIDTH: usize = 100000;

/// Renders each chapter's HTML as plain text, in chapter order. An error
/// names the first chapter that failed to render.
pub fn extract_chapter_texts(chapters_html: &Vec<Vec<u8>>) -> (r: Result<Vec<String>, SummaryError>)
    ensures
        r is Ok ==> r->Ok_0@.len() == chapters_html@.len(),
        r is Ok ==> forall|i: int|
            0 <= i < chapters_html@.len() ==> Some(#[trigger] r->Ok_0@[i]@) == rendered_text_of(
                chapters_html@[i]@,
                CHAPTER_RENDER_WIDTH as int,
            ),
        r is Err ==> exists|i: int|
            0 <= i < chapters_html@.len() && rendered_text_of(
                #[trigger] chapters_html@[i]@,
                CHAPTER_RENDER_WIDTH as int,
            ) is None,
{
    let mut out: Vec<String> = Vec::new();
    let mut i: usize = 0;
    while i < chapters_html.len()
        invariant
            i <= chapters_html@.len(),
            out@.len() == i,
            forall|j: int| 0 <= j < i ==> Some(#[trigger] out@[j]@) == rendered_text_of(
                chapters_html@[j]@,
                CHAPTER_RENDER_WIDTH as int,
            ),
        decreases chapters_html@.len() - i,
    {
        match render_html(&chapters_html[i], CHAPTER_RENDER_WIDTH) {
            Ok(text) => {
                out.push(text);
            },
            Err(e) => {
                return Err(e);
            },
        }
        i = i + 1;
    }
    Ok(out)
}

/// The file extension chosen for an extracted image's media type; an
/// unknown type gets a plain binary extension.
pub open spec fn extension_for(mime: Seq<char>) -> Seq<char> {
    if mime == "image/jpeg"@ {
        "jpg"@
    } else if mime == "image/png"@ {
        "png"@
    } else if mime == "image/gif"@ {
        "gif"@
    } else if mime == "image/svg+xml"@ {
        "svg"@
    } else {
        "bin"@
    }
}

/// The file name an extracted image is saved under: its resource path
/// made filesystem-safe, with an extension chosen from its media type.
pub fn image_file_name(resource_path: &str, mime: &str) -> (r: String)
    ensures
        r@ == sanitized_of(resource_path@) + "."@ + extension_for(mime@),
{
    proof {
        reveal_strlit("image/jpeg");
        reveal_strlit("image/png");
        reveal_strlit("image/gif");
        reveal_strlit("image/svg+xml");
        assert("image/jpeg"@.len() == 10);
        assert("image/png"@.len() == 9);
        assert("image/gif"@.len() == 9);
        assert("image/svg+xml"@.len() == 13);
        assert("image/png"@[6] == 'p' && "image/gif"@[6] == 'g');
    }
    let mut out = sanitize_name(resource_path);
    out.append(".");
    if str_eq(mime, "image/jpeg") {
        out.append("jpg");
    } else if str_eq(mime, "image/png") {
        out.append("png");
    } else if str_eq(mime, "image/gif") {
        out.append("gif");
    } else if str_eq(mime, "image/svg+xml") {
        out.append("svg");
    } else {
        out.append("bin");
    }
    out
}

} // verus!
