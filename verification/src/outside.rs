//! Trusted items: the calls this library makes into std functions that vstd
//! leaves unspecified, and into the outside crates it uses. Each contract
//! here is believed by Verus without proof.

use sha2::Digest;
use vstd::prelude::*;

verus! {

/// What `str::to_lowercase` returns for a character sequence (full Unicode
/// lowercase mapping, not locale dependent).
pub uninterp spec fn unicode_lowercase(s: Seq<char>) -> Seq<char>;

/// The ASCII lowercase of a character: `A`..=`Z` become `a`..=`z`, every
/// other character is unchanged.
pub open spec fn ascii_lower_char(c: char) -> char {
    if 65 <= (c as u32) <= 90 {
        ((c as u32) + 32) as char
    } else {
        c
    }
}

/// Every character of `s` is ASCII.
pub open spec fn all_ascii(s: Seq<char>) -> bool {
    forall|i: int| 0 <= i < s.len() ==> (#[trigger] s[i] as u32) < 128
}

/// Calls `str::to_lowercase`. Claimed: the result is the Unicode lowercase
/// mapping of the argument, which depends on the argument alone; on ASCII
/// text that mapping lowercases `A`..=`Z` and leaves the rest unchanged
/// (as `to_ascii_lowercase`, whose documentation points to `to_lowercase`
/// for the same on non-ASCII text).
#[verifier::external_body]
pub(crate) fn lowercase(s: &str) -> (r: String)
    ensures
        r@ == unicode_lowercase(s@),
        all_ascii(s@) ==> r@ == s@.map_values(|c: char| ascii_lower_char(c)),
{
    s.to_lowercase()
}

/// The SHA-256 digest of a byte sequence.
pub uninterp spec fn sha256(data: Seq<u8>) -> Seq<u8>;

/// Calls `sha2::Sha256` (new, update, finalize) on the bytes. Claimed: the
/// result is the SHA-256 digest of the argument, a function of the bytes
/// alone, and it is 32 bytes long (the output type is a 32-byte array).
#[verifier::external_body]
pub(crate) fn sha256_digest(data: &[u8]) -> (d: Vec<u8>)
    ensures
        d@ == sha256(data@),
        d@.len() == 32,
{
    let mut hasher = sha2::Sha256::new();
    hasher.update(data);
    hasher.finalize().to_vec()
}

/// What `String::from_utf8_lossy` yields for a byte sequence: its UTF-8
/// decoding with each invalid sequence replaced by U+FFFD.
pub uninterp spec fn utf8_lossy(bytes: Seq<u8>) -> Seq<char>;

/// Calls `String::from_utf8_lossy`. Claimed: the result is named by
/// `utf8_lossy` of the bytes, and, as its documentation states, valid UTF-8
/// comes back decoded unchanged.
#[verifier::external_body]
pub(crate) fn decode_utf8_lossy(bytes: &[u8]) -> (s: String)
    ensures
        s@ == utf8_lossy(bytes@),
        vstd::utf8::valid_utf8(bytes@) ==> s@ == vstd::utf8::decode_utf8(bytes@),
{
    String::from_utf8_lossy(bytes).into_owned()
}

/// What `pdf_extract::extract_text_from_mem` does with the bytes of a PDF:
/// nothing where it panics (the crate panics on some malformed documents,
/// such as a page without a MediaBox), else the extracted text or the
/// error's display text.
pub uninterp spec fn pdf_text_outcome(bytes: Seq<u8>) -> Option<Result<Seq<char>, Seq<char>>>;

/// Calls `pdf_extract::extract_text_from_mem`, on bytes where it returns.
/// Claimed: the outcome (text, or the error converted with `to_string`) is a
/// function of the bytes alone.
#[verifier::external_body]
pub(crate) fn extract_pdf_text(bytes: &[u8]) -> (r: Result<String, String>)
    requires
        pdf_text_outcome(bytes@) is Some,
    ensures
        match (r, pdf_text_outcome(bytes@)) {
            (Ok(t), Some(Ok(u))) => t@ == u,
            (Err(m), Some(Err(u))) => m@ == u,
            _ => false,
        },
{
    match pdf_extract::extract_text_from_mem(bytes) {
        Ok(t) => Ok(t),
        Err(e) => Err(e.to_string()),
    }
}

/// An EPUB document opened on an in-memory copy of its bytes. Verus refuses
/// a declaration of `epub::doc::EpubDoc` (its reader parameter is bounded by
/// `Read + Seek`), so the document is held in a private field.
#[verifier::external_body]
pub struct EpubBook {
    doc: epub::doc::EpubDoc<std::io::Cursor<Vec<u8>>>,
}

/// What the chapters of an open EPUB document hold, in spine order: the
/// chapter's text, or nothing where `get_current_str` finds no resource for it.
pub uninterp spec fn epub_chapters(doc: EpubBook) -> Seq<Option<Seq<char>>>;

/// The spine index that an open EPUB document is positioned at.
pub uninterp spec fn epub_position(doc: EpubBook) -> nat;

/// What `EpubDoc::from_reader` does with the bytes of an EPUB file: nothing
/// where it panics (its `expect` on a root-file path without a parent), else
/// the chapters of the document it opens, or the error's display text.
pub uninterp spec fn epub_open_outcome(bytes: Seq<u8>) -> Option<Result<Seq<Option<Seq<char>>>, Seq<char>>>;

/// Calls `epub::doc::EpubDoc::from_reader` on an in-memory cursor, on bytes
/// where it returns. Claimed: the outcome is a function of the bytes alone,
/// and an opened document starts at spine index 0 (the constructor sets
/// `current: 0`).
#[verifier::external_body]
pub(crate) fn epub_open(bytes: Vec<u8>) -> (r: Result<EpubBook, String>)
    requires
        epub_open_outcome(bytes@) is Some,
    ensures
        match (r, epub_open_outcome(bytes@)) {
            (Ok(doc), Some(Ok(chapters))) => epub_chapters(doc) == chapters && epub_position(doc) == 0,
            (Err(m), Some(Err(u))) => m@ == u,
            _ => false,
        },
{
    match epub::doc::EpubDoc::from_reader(std::io::Cursor::new(bytes)) {
        Ok(doc) => Ok(EpubBook { doc }),
        Err(e) => Err(e.to_string()),
    }
}

/// The chapter at a spine index, nothing past the end.
pub open spec fn chapter_at(chapters: Seq<Option<Seq<char>>>, i: nat) -> Option<Seq<char>> {
    if i < chapters.len() {
        chapters[i as int]
    } else {
        None
    }
}

/// The text of an optional string.
pub open spec fn opt_string_view(o: Option<String>) -> Option<Seq<char>> {
    match o {
        Some(s) => Some(s@),
        None => None,
    }
}

/// Calls `EpubDoc::get_current_str` and keeps the content (dropping the mime
/// type). Claimed: it returns the chapter at the current spine index, and
/// neither the chapters nor the position change.
#[verifier::external_body]
pub(crate) fn epub_current_text(doc: &mut EpubBook) -> (r: Option<String>)
    ensures
        opt_string_view(r) == chapter_at(epub_chapters(*old(doc)), epub_position(*old(doc))),
        epub_chapters(*final(doc)) == epub_chapters(*old(doc)),
        epub_position(*final(doc)) == epub_position(*old(doc)),
{
    doc.doc.get_current_str().map(|(content, _mime)| content)
}

/// Calls `EpubDoc::go_next`. Claimed, as its source shows: it moves to the
/// next spine index and returns true when one exists, and otherwise returns
/// false and stays; the chapters do not change.
#[verifier::external_body]
pub(crate) fn epub_go_next(doc: &mut EpubBook) -> (moved: bool)
    ensures
        moved == (epub_position(*old(doc)) + 1 < epub_chapters(*old(doc)).len()),
        epub_position(*final(doc)) == if moved {
            epub_position(*old(doc)) + 1
        } else {
            epub_position(*old(doc))
        },
        epub_chapters(*final(doc)) == epub_chapters(*old(doc)),
{
    doc.doc.go_next()
}

/// What `Path::extension` (then `OsStr::to_str`) yields for a path: the part
/// of its file name after the last dot, when there is one.
pub uninterp spec fn path_extension(path: Seq<char>) -> Option<Seq<char>>;

/// Index of the last `c` in `s`, or -1 when there is none.
pub open spec fn last_index_of(s: Seq<char>, c: char) -> int
    decreases s.len(),
{
    if s.len() == 0 {
        -1
    } else if s.last() == c {
        s.len() - 1
    } else {
        last_index_of(s.drop_last(), c)
    }
}

/// The text of a path after its last `/`.
pub open spec fn final_segment(path: Seq<char>) -> Seq<char> {
    path.skip(last_index_of(path, '/') + 1)
}

/// A path whose file name is plainly the text after its last `/`: that text
/// is neither empty, `.` nor `..`, and the path holds no `\` or `:` (which
/// some platforms read as separators or prefixes).
pub open spec fn plain_file_path(path: Seq<char>) -> bool {
    let seg = final_segment(path);
    &&& seg.len() > 0
    &&& seg != seq!['.']
    &&& seg != seq!['.', '.']
    &&& !path.contains('\\')
    &&& !path.contains(':')
}

/// The extension of a file name by the rule `Path::extension` documents:
/// none without a dot, none when the only dot leads the name, otherwise the
/// text after the last dot.
pub open spec fn file_name_extension(name: Seq<char>) -> Option<Seq<char>> {
    let k = last_index_of(name, '.');
    if k <= 0 {
        None
    } else {
        Some(name.skip(k + 1))
    }
}

/// Calls `std::path::Path::extension` on a path given as text and converts
/// the result back to text (always possible for a path made from a `str`).
/// Claimed: the result is a function of the path alone, and for a plain
/// file path it is the documented extension of the text after the last `/`.
#[verifier::external_body]
pub(crate) fn extension_of(path: &str) -> (r: Option<String>)
    ensures
        opt_string_view(r) == path_extension(path@),
        plain_file_path(path@) ==> opt_string_view(r) == file_name_extension(final_segment(path@)),
{
    std::path::Path::new(path).extension().and_then(|e| e.to_str()).map(|e| e.to_string())
}

} // verus!
