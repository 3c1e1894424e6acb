//! Turning text and documents into the word list that playback steps through.

use vstd::prelude::*;

use crate::outside::{
    all_ascii, ascii_lower_char, file_name_extension, final_segment, plain_file_path,
    decode_utf8_lossy, epub_chapters, epub_current_text, epub_go_next, epub_open,
    epub_open_outcome, epub_position, extension_of, extract_pdf_text, lowercase, opt_string_view,
    path_extension, pdf_text_outcome, sha256, sha256_digest, unicode_lowercase, utf8_lossy,
};
use crate::text::{chars_of, is_white_space, is_whitespace_char, string_from_range};

verus! {

/// An unfinished word as a word list: itself, or nothing when it is empty.
pub open spec fn flush(cur: Seq<char>) -> Seq<Seq<char>> {
    if cur.len() > 0 {
        seq![cur]
    } else {
        Seq::empty()
    }
}

/// The words still to come when `cur` holds the characters of an unfinished
/// word and `s` is the rest of the text: maximal runs of characters that are
/// not White_Space, in order.
pub open spec fn split_ws_from(s: Seq<char>, cur: Seq<char>) -> Seq<Seq<char>>
    decreases s.len(),
{
    if s.len() == 0 {
        flush(cur)
    } else if is_white_space(s[0]) {
        flush(cur) + split_ws_from(s.drop_first(), Seq::empty())
    } else {
        split_ws_from(s.drop_first(), cur.push(s[0]))
    }
}

/// The words of a text: its maximal runs of non-White_Space characters.
pub open spec fn words_of(s: Seq<char>) -> Seq<Seq<char>> {
    split_ws_from(s, Seq::empty())
}

/// The character sequences of a list of strings.
pub open spec fn strings_view(v: Seq<String>) -> Seq<Seq<char>> {
    v.map_values(|w: String| w@)
}

/// Splits text into words at Unicode White_Space, dropping empty words.
pub fn tokenize(text: &str) -> (words: Vec<String>)
    ensures
        strings_view(words@) == words_of(text@),
{
    let cs = chars_of(text);
    let n = cs.len();
    let mut words: Vec<String> = Vec::new();
    let mut start: usize = 0;
    let mut i: usize = 0;
    proof {
        assert(cs@.skip(0) == cs@);
        assert(cs@.subrange(0, 0) == Seq::<char>::empty());
        assert(strings_view(words@) == Seq::<Seq<char>>::empty());
        assert(Seq::<Seq<char>>::empty() + words_of(text@) == words_of(text@));
    }
    while i < n
        invariant
            n == cs@.len(),
            cs@ == text@,
            start <= i <= n,
            forall|j: int| start <= j < i ==> !is_white_space(#[trigger] cs@[j]),
            strings_view(words@) + split_ws_from(cs@.skip(i as int), cs@.subrange(start as int, i as int))
                == words_of(text@),
        decreases n - i,
    {
        let c = cs[i];
        let ghost rest = cs@.skip(i as int);
        let ghost cur = cs@.subrange(start as int, i as int);
        assert(rest[0] == c);
        assert(rest.drop_first() == cs@.skip(i + 1));
        if is_whitespace_char(c) {
            if start < i {
                let w = string_from_range(&cs, start, i);
                proof {
                    assert(strings_view(words@.push(w)) == strings_view(words@).push(cur));
                    assert(seq![cur] + split_ws_from(cs@.skip(i + 1), Seq::empty())
                        == split_ws_from(cs@.skip(i + 1), Seq::empty()).insert(0, cur));
                    assert(strings_view(words@).push(cur) + split_ws_from(cs@.skip(i + 1), Seq::empty())
                        == strings_view(words@) + (seq![cur] + split_ws_from(cs@.skip(i + 1), Seq::empty())));
                }
                words.push(w);
            } else {
                assert(Seq::<Seq<char>>::empty() + split_ws_from(cs@.skip(i + 1), Seq::empty())
                    == split_ws_from(cs@.skip(i + 1), Seq::empty()));
            }
            i = i + 1;
            start = i;
            assert(cs@.subrange(start as int, i as int) == Seq::<char>::empty());
        } else {
            assert(cur.push(c) == cs@.subrange(start as int, i + 1));
            i = i + 1;
        }
    }
    let ghost cur = cs@.subrange(start as int, n as int);
    assert(cs@.skip(n as int).len() == 0);
    if start < n {
        let w = string_from_range(&cs, start, n);
        assert(strings_view(words@.push(w)) == strings_view(words@).push(cur));
        assert(strings_view(words@).push(cur) == strings_view(words@) + seq![cur]);
        words.push(w);
    } else {
        assert(strings_view(words@) + Seq::<Seq<char>>::empty() == strings_view(words@));
    }
    words
}

/// The state of the HTML stripper after a prefix of its input.
pub struct StripState {
    pub in_tag: bool,
    pub in_skip: bool,
    pub tag: Seq<char>,
    pub out: Seq<char>,
}

/// The stripper's state before any input.
pub open spec fn strip_init() -> StripState {
    StripState { in_tag: false, in_skip: false, tag: Seq::empty(), out: Seq::empty() }
}

/// `s` with leading White_Space removed.
pub open spec fn trim_start_ws(s: Seq<char>) -> Seq<char>
    decreases s.len(),
{
    if s.len() > 0 && is_white_space(s[0]) {
        trim_start_ws(s.drop_first())
    } else {
        s
    }
}

/// `s` with trailing White_Space removed.
pub open spec fn trim_end_ws(s: Seq<char>) -> Seq<char>
    decreases s.len(),
{
    if s.len() > 0 && is_white_space(s.last()) {
        trim_end_ws(s.drop_last())
    } else {
        s
    }
}

/// `s` with White_Space removed at both ends, as `str::trim` does.
pub open spec fn trim_ws(s: Seq<char>) -> Seq<char> {
    trim_end_ws(trim_start_ws(s))
}

/// `p` is a prefix of `s`.
pub open spec fn has_prefix(s: Seq<char>, p: Seq<char>) -> bool {
    p.len() <= s.len() && s.take(p.len() as int) == p
}

pub open spec fn head_word() -> Seq<char> { seq!['h', 'e', 'a', 'd'] }
pub open spec fn script_word() -> Seq<char> { seq!['s', 'c', 'r', 'i', 'p', 't'] }
pub open spec fn style_word() -> Seq<char> { seq!['s', 't', 'y', 'l', 'e'] }
pub open spec fn end_head_word() -> Seq<char> { seq!['/', 'h', 'e', 'a', 'd'] }
pub open spec fn end_script_word() -> Seq<char> { seq!['/', 's', 'c', 'r', 'i', 'p', 't'] }
pub open spec fn end_style_word() -> Seq<char> { seq!['/', 's', 't', 'y', 'l', 'e'] }

/// The tag text, trimmed and lowercased, names `head`, `script` or `style`.
pub open spec fn opens_skip_block(tag: Seq<char>) -> bool {
    let t = unicode_lowercase(trim_ws(tag));
    has_prefix(t, head_word()) || has_prefix(t, script_word()) || has_prefix(t, style_word())
}

/// The tag text, trimmed and lowercased, closes `head`, `script` or `style`.
pub open spec fn closes_skip_block(tag: Seq<char>) -> bool {
    let t = unicode_lowercase(trim_ws(tag));
    has_prefix(t, end_head_word()) || has_prefix(t, end_script_word()) || has_prefix(
        t,
        end_style_word(),
    )
}

/// One character of input to the HTML stripper. `<` opens a tag, `>` ends
/// one: a tag that opens a head, script or style block starts skipping, one
/// that closes such a block stops it, and outside a skipped block every tag
/// becomes one space. Other characters are collected into the tag while
/// inside one, copied to the output outside skipped blocks, and dropped
/// otherwise.
pub open spec fn strip_step(st: StripState, c: char) -> StripState {
    if c == '<' {
        StripState { in_tag: true, tag: Seq::empty(), ..st }
    } else if c == '>' {
        let skip1 = if opens_skip_block(st.tag) { true } else { st.in_skip };
        let skip2 = if closes_skip_block(st.tag) { false } else { skip1 };
        StripState {
            in_tag: false,
            in_skip: skip2,
            tag: Seq::empty(),
            out: if !skip2 { st.out.push(' ') } else { st.out },
        }
    } else if st.in_tag {
        StripState { tag: st.tag.push(c), ..st }
    } else if !st.in_skip {
        StripState { out: st.out.push(c), ..st }
    } else {
        st
    }
}

/// The stripper's state after reading all of `s`.
pub open spec fn strip_run(s: Seq<char>) -> StripState
    decreases s.len(),
{
    if s.len() == 0 {
        strip_init()
    } else {
        strip_step(strip_run(s.drop_last()), s.last())
    }
}

/// The text of an HTML fragment with its tags replaced by spaces and the
/// contents of head, script and style blocks removed.
pub open spec fn stripped_html(s: Seq<char>) -> Seq<char> {
    strip_run(s).out
}

/// Index of the first character of `cs` that is not White_Space (or its length).
fn first_non_ws(cs: &Vec<char>) -> (a: usize)
    ensures
        a <= cs@.len(),
        trim_start_ws(cs@) == cs@.skip(a as int),
{
    let n = cs.len();
    let mut a: usize = 0;
    proof {
        assert(cs@.skip(0) == cs@);
    }
    while a < n && is_whitespace_char(cs[a])
        invariant
            n == cs@.len(),
            a <= n,
            trim_start_ws(cs@) == trim_start_ws(cs@.skip(a as int)),
        decreases n - a,
    {
        assert(cs@.skip(a as int).drop_first() == cs@.skip(a + 1));
        a = a + 1;
    }
    a
}

/// `cs[..b]` minus trailing White_Space, as an end index.
fn last_non_ws_end(cs: &Vec<char>, a: usize) -> (b: usize)
    requires
        a <= cs@.len(),
    ensures
        a <= b <= cs@.len(),
        trim_end_ws(cs@.skip(a as int)) == cs@.subrange(a as int, b as int),
{
    let mut b: usize = cs.len();
    proof {
        assert(cs@.subrange(a as int, b as int) == cs@.skip(a as int));
    }
    while b > a && is_whitespace_char(cs[b - 1])
        invariant
            a <= b <= cs@.len(),
            trim_end_ws(cs@.skip(a as int)) == trim_end_ws(cs@.subrange(a as int, b as int)),
        decreases b - a,
    {
        assert(cs@.subrange(a as int, b as int).drop_last() == cs@.subrange(a as int, b - 1));
        b = b - 1;
    }
    b
}

/// `p` is a prefix of `s` (executable).
fn starts_with_chars(s: &Vec<char>, p: &Vec<char>) -> (r: bool)
    ensures
        r == has_prefix(s@, p@),
{
    if p.len() > s.len() {
        return false;
    }
    let mut i: usize = 0;
    while i < p.len()
        invariant
            p@.len() <= s@.len(),
            i <= p@.len(),
            forall|j: int| 0 <= j < i ==> s@[j] == p@[j],
        decreases p.len() - i,
    {
        if s[i] != p[i] {
            assert(s@.take(p@.len() as int)[i as int] != p@[i as int]);
            return false;
        }
        i = i + 1;
    }
    assert(s@.take(p@.len() as int) == p@);
    true
}

/// Classifies the text of a tag: (opens a skipped block, closes one).
fn classify_tag(tag: &Vec<char>) -> (r: (bool, bool))
    ensures
        r.0 == opens_skip_block(tag@),
        r.1 == closes_skip_block(tag@),
{
    let a = first_non_ws(tag);
    let b = last_non_ws_end(tag, a);
    let trimmed = string_from_range(tag, a, b);
    assert(trimmed@ == trim_ws(tag@));
    let low = lowercase(trimmed.as_str());
    let lc = chars_of(low.as_str());
    let head = vec!['h', 'e', 'a', 'd'];
    let script = vec!['s', 'c', 'r', 'i', 'p', 't'];
    let style = vec!['s', 't', 'y', 'l', 'e'];
    let end_head = vec!['/', 'h', 'e', 'a', 'd'];
    let end_script = vec!['/', 's', 'c', 'r', 'i', 'p', 't'];
    let end_style = vec!['/', 's', 't', 'y', 'l', 'e'];
    assert(head@ == head_word());
    assert(script@ == script_word());
    assert(style@ == style_word());
    assert(end_head@ == end_head_word());
    assert(end_script@ == end_script_word());
    assert(end_style@ == end_style_word());
    let opens = starts_with_chars(&lc, &head) || starts_with_chars(&lc, &script)
        || starts_with_chars(&lc, &style);
    let closes = starts_with_chars(&lc, &end_head) || starts_with_chars(&lc, &end_script)
        || starts_with_chars(&lc, &end_style);
    (opens, closes)
}

/// Strips HTML tags with a character-by-character state machine: tags become
/// spaces, and the contents of head, script and style blocks are dropped.
pub fn strip_html(html: &str) -> (text: String)
    ensures
        text@ == stripped_html(html@),
{
    let cs = chars_of(html);
    let n = cs.len();
    let mut out: Vec<char> = Vec::new();
    let mut in_tag = false;
    let mut in_skip = false;
    let mut tag: Vec<char> = Vec::new();
    let mut i: usize = 0;
    proof {
        assert(cs@.take(0) == Seq::<char>::empty());
    }
    while i < n
        invariant
            n == cs@.len(),
            cs@ == html@,
            i <= n,
            strip_run(cs@.take(i as int)) == (StripState {
                in_tag: in_tag,
                in_skip: in_skip,
                tag: tag@,
                out: out@,
            }),
        decreases n - i,
    {
        let c = cs[i];
        proof {
            assert(cs@.take(i + 1).drop_last() == cs@.take(i as int));
            assert(cs@.take(i + 1).last() == c);
        }
        if c == '<' {
            in_tag = true;
            tag = Vec::new();
        } else if c == '>' {
            let (opens, closes) = classify_tag(&tag);
            if opens {
                in_skip = true;
            }
            if closes {
                in_skip = false;
            }
            in_tag = false;
            tag = Vec::new();
            if !in_skip {
                out.push(' ');
            }
        } else if in_tag {
            tag.push(c);
        } else if !in_skip {
            out.push(c);
        }
        i = i + 1;
    }
    assert(cs@.take(n as int) == cs@);
    string_from_range(&out, 0, out.len())
}


/// The lowercase hexadecimal digit for a value below 16.
pub open spec fn hex_char(d: u8) -> char {
    if d < 10 {
        (d + 48) as char
    } else {
        (d + 87) as char
    }
}

/// Lowercase hexadecimal text of a byte sequence, two digits per byte.
pub open spec fn hex_lower(bytes: Seq<u8>) -> Seq<char>
    decreases bytes.len(),
{
    if bytes.len() == 0 {
        Seq::empty()
    } else {
        hex_lower(bytes.drop_last()) + seq![
            hex_char(bytes.last() / 16),
            hex_char(bytes.last() % 16),
        ]
    }
}

proof fn lemma_hex_lower_len(bytes: Seq<u8>)
    ensures
        hex_lower(bytes).len() == 2 * bytes.len(),
    decreases bytes.len(),
{
    if bytes.len() > 0 {
        lemma_hex_lower_len(bytes.drop_last());
    }
}

fn hex_digit(d: u8) -> (c: char)
    requires
        d < 16,
    ensures
        c == hex_char(d),
{
    if d < 10 {
        (d + 48) as char
    } else {
        (d + 87) as char
    }
}

/// SHA-256 of the raw bytes, as 64 lowercase hexadecimal characters.
pub fn hash_file_bytes(bytes: &[u8]) -> (h: String)
    ensures
        h@ == hex_lower(sha256(bytes@)),
        h@.len() == 64,
{
    let d = sha256_digest(bytes);
    let mut out: Vec<char> = Vec::new();
    let n = d.len();
    let mut i: usize = 0;
    proof {
        assert(d@.take(0) == Seq::<u8>::empty());
    }
    while i < n
        invariant
            n == d@.len(),
            i <= n,
            out@ == hex_lower(d@.take(i as int)),
        decreases n - i,
    {
        let b = d[i];
        out.push(hex_digit(b / 16));
        out.push(hex_digit(b % 16));
        proof {
            assert(d@.take(i + 1).drop_last() == d@.take(i as int));
            assert(d@.take(i + 1).last() == b);
            assert(out@ == hex_lower(d@.take(i as int)) + seq![hex_char(b / 16), hex_char(b % 16)]);
        }
        i = i + 1;
    }
    proof {
        assert(d@.take(n as int) == d@);
        lemma_hex_lower_len(d@);
    }
    string_from_range(&out, 0, out.len())
}

/// Why a document could not be turned into words.
#[derive(Clone, Debug, PartialEq)]
pub enum ParseError {
    /// The file's extension (lowercased) is not txt, epub or pdf.
    UnsupportedFormat { extension: String },
    /// A text file held no words.
    EmptyText,
    /// The EPUB crate could not open the archive; its error text.
    EpubOpen { reason: String },
    /// An EPUB held no words.
    EmptyEpub,
    /// The PDF crate could not extract text; its error text.
    PdfExtract { reason: String },
    /// A PDF held no words (no text layer).
    ImageOnlyPdf,
}

/// A parse error with its texts as character sequences.
pub enum ParseErrorView {
    UnsupportedFormat(Seq<char>),
    EmptyText,
    EpubOpen(Seq<char>),
    EmptyEpub,
    PdfExtract(Seq<char>),
    ImageOnlyPdf,
}

impl View for ParseError {
    type V = ParseErrorView;

    open spec fn view(&self) -> ParseErrorView {
        match self {
            ParseError::UnsupportedFormat { extension } => ParseErrorView::UnsupportedFormat(extension@),
            ParseError::EmptyText => ParseErrorView::EmptyText,
            ParseError::EpubOpen { reason } => ParseErrorView::EpubOpen(reason@),
            ParseError::EmptyEpub => ParseErrorView::EmptyEpub,
            ParseError::PdfExtract { reason } => ParseErrorView::PdfExtract(reason@),
            ParseError::ImageOnlyPdf => ParseErrorView::ImageOnlyPdf,
        }
    }
}

/// The user-facing message of a parse error.
pub open spec fn parse_error_message(e: ParseErrorView) -> Seq<char> {
    match e {
        ParseErrorView::UnsupportedFormat(extension) => "Unsupported file format: ."@ + extension,
        ParseErrorView::EmptyText => "The text file appears to be empty."@,
        ParseErrorView::EpubOpen(reason) => "EPUB parse error: "@ + reason,
        ParseErrorView::EmptyEpub => "EPUB appears to be empty or could not be read."@,
        ParseErrorView::PdfExtract(reason) => "PDF parse error: "@ + reason,
        ParseErrorView::ImageOnlyPdf => "This PDF contains only images — no text layer found. Try a PDF with selectable text, or paste the text directly."@,
    }
}

/// A string holding the characters of `a` followed by those of `b`.
fn concat_str(a: &str, b: &str) -> (s: String)
    ensures
        s@ == a@ + b@,
{
    let ca = chars_of(a);
    let cb = chars_of(b);
    let mut all = ca;
    let mut i: usize = 0;
    while i < cb.len()
        invariant
            i <= cb@.len(),
            all@ == a@ + cb@.take(i as int),
        decreases cb.len() - i,
    {
        all.push(cb[i]);
        assert(cb@.take(i + 1) == cb@.take(i as int).push(cb@[i as int]));
        i = i + 1;
    }
    assert(cb@.take(cb@.len() as int) == cb@);
    string_from_range(&all, 0, all.len())
}

impl ParseError {
    /// The user-facing message (the text the error displays as).
    pub fn message(&self) -> (m: String)
        ensures
            m@ == parse_error_message(self@),
    {
        proof {
            reveal_strlit("");
            assert(forall|x: Seq<char>| x + ""@ == x);
        }
        match self {
            ParseError::UnsupportedFormat { extension } => concat_str("Unsupported file format: .", extension.as_str()),
            ParseError::EmptyText => concat_str("The text file appears to be empty.", ""),
            ParseError::EpubOpen { reason } => concat_str("EPUB parse error: ", reason.as_str()),
            ParseError::EmptyEpub => concat_str("EPUB appears to be empty or could not be read.", ""),
            ParseError::PdfExtract { reason } => concat_str("PDF parse error: ", reason.as_str()),
            ParseError::ImageOnlyPdf => concat_str("This PDF contains only images — no text layer found. Try a PDF with selectable text, or paste the text directly.", ""),
        }
    }
}

/// The words of a text, or `empty` when it has none.
pub open spec fn words_or(text: Seq<char>, empty: ParseErrorView) -> Result<Seq<Seq<char>>, ParseErrorView> {
    if words_of(text).len() == 0 {
        Err(empty)
    } else {
        Ok(words_of(text))
    }
}

/// A parse outcome with the words taken as character sequences.
pub open spec fn words_result_view(r: Result<Vec<String>, ParseError>) -> Result<Seq<Seq<char>>, ParseErrorView> {
    match r {
        Ok(w) => Ok(strings_view(w@)),
        Err(e) => Err(e@),
    }
}

fn words_or_error(text: &str, empty: ParseError) -> (r: Result<Vec<String>, ParseError>)
    ensures
        words_result_view(r) == words_or(text@, empty@),
{
    let words = tokenize(text);
    if words.len() == 0 {
        Err(empty)
    } else {
        Ok(words)
    }
}

/// The words of the decoded text of a plain-text file; an error when it has none.
pub fn text_words(text: &str) -> (r: Result<Vec<String>, ParseError>)
    ensures
        words_result_view(r) == words_or(text@, ParseErrorView::EmptyText),
{
    words_or_error(text, ParseError::EmptyText)
}

/// Parses the bytes of a plain-text file: lossy UTF-8 decoding, then words.
pub fn parse_txt(bytes: &[u8]) -> (r: Result<Vec<String>, ParseError>)
    ensures
        words_result_view(r) == words_or(utf8_lossy(bytes@), ParseErrorView::EmptyText),
{
    let text = decode_utf8_lossy(bytes);
    text_words(text.as_str())
}

/// The outcome of PDF text extraction as character sequences.
pub open spec fn pdf_outcome_view(r: Result<String, String>) -> Result<Seq<char>, Seq<char>> {
    match r {
        Ok(t) => Ok(t@),
        Err(m) => Err(m@),
    }
}

/// The words of a PDF given the outcome of its text extraction.
pub open spec fn pdf_words_spec(extracted: Result<Seq<char>, Seq<char>>) -> Result<Seq<Seq<char>>, ParseErrorView> {
    match extracted {
        Err(m) => Err(ParseErrorView::PdfExtract(m)),
        Ok(t) => words_or(t, ParseErrorView::ImageOnlyPdf),
    }
}

/// The words of a PDF given the outcome of its text extraction (the text,
/// or the extractor's error text).
pub fn pdf_words(extracted: Result<String, String>) -> (r: Result<Vec<String>, ParseError>)
    ensures
        words_result_view(r) == pdf_words_spec(pdf_outcome_view(extracted)),
{
    match extracted {
        Err(m) => Err(ParseError::PdfExtract { reason: m }),
        Ok(t) => words_or_error(t.as_str(), ParseError::ImageOnlyPdf),
    }
}

/// Parses the bytes of a PDF: text extraction, then words.
pub fn parse_pdf(bytes: &[u8]) -> (r: Result<Vec<String>, ParseError>)
    requires
        pdf_text_outcome(bytes@) is Some,
    ensures
        words_result_view(r) == pdf_words_spec(pdf_text_outcome(bytes@)->Some_0),
{
    let extracted = extract_pdf_text(bytes);
    pdf_words(extracted)
}


/// The text gathered from an EPUB's chapters in spine order: each chapter's
/// HTML stripped of tags, with one space before every chapter after the
/// first; chapters without content add nothing.
pub open spec fn epub_text(chapters: Seq<Option<Seq<char>>>) -> Seq<char>
    decreases chapters.len(),
{
    if chapters.len() == 0 {
        Seq::empty()
    } else {
        let prev = epub_text(chapters.drop_last());
        match chapters.last() {
            None => prev,
            Some(c) => if chapters.len() == 1 {
                stripped_html(c)
            } else {
                prev.push(' ') + stripped_html(c)
            },
        }
    }
}

/// The chapter contents of a list of optional strings, as character sequences.
pub open spec fn chapters_view(v: Seq<Option<String>>) -> Seq<Option<Seq<char>>> {
    v.map_values(|o: Option<String>| opt_string_view(o))
}

/// The words of an EPUB given its chapters in spine order.
pub fn epub_words(chapters: &Vec<Option<String>>) -> (r: Result<Vec<String>, ParseError>)
    ensures
        words_result_view(r) == words_or(epub_text(chapters_view(chapters@)), ParseErrorView::EmptyEpub),
{
    let ghost chs = chapters_view(chapters@);
    let n = chapters.len();
    let mut acc: Vec<char> = Vec::new();
    let mut i: usize = 0;
    proof {
        assert(chs.take(0) == Seq::<Option<Seq<char>>>::empty());
    }
    while i < n
        invariant
            n == chapters@.len(),
            chs == chapters_view(chapters@),
            i <= n,
            acc@ == epub_text(chs.take(i as int)),
        decreases n - i,
    {
        proof {
            assert(chs.take(i + 1).drop_last() == chs.take(i as int));
            assert(chs.take(i + 1).last() == opt_string_view(chapters@[i as int]));
        }
        match &chapters[i] {
            None => {},
            Some(html) => {
                let stripped = strip_html(html.as_str());
                let sc = chars_of(stripped.as_str());
                if i > 0 {
                    acc.push(' ');
                }
                let ghost before = acc@;
                let mut j: usize = 0;
                while j < sc.len()
                    invariant
                        j <= sc@.len(),
                        acc@ == before + sc@.take(j as int),
                    decreases sc.len() - j,
                {
                    acc.push(sc[j]);
                    assert(sc@.take(j + 1) == sc@.take(j as int).push(sc@[j as int]));
                    j = j + 1;
                }
                proof {
                    assert(sc@.take(sc@.len() as int) == sc@);
                    if i == 0 {
                        assert(epub_text(chs.take(0)) == Seq::<char>::empty());
                        assert(Seq::<char>::empty() + sc@ == sc@);
                    }
                }
            },
        }
        i = i + 1;
    }
    assert(chs.take(n as int) == chs);
    let text = string_from_range(&acc, 0, acc.len());
    assert(acc@.subrange(0, acc@.len() as int) == acc@);
    assert(text@ == epub_text(chs));
    words_or_error(text.as_str(), ParseError::EmptyEpub)
}

/// The words of an EPUB file given what opening its bytes yields.
pub open spec fn epub_words_spec(opened: Result<Seq<Option<Seq<char>>>, Seq<char>>) -> Result<Seq<Seq<char>>, ParseErrorView> {
    match opened {
        Err(m) => Err(ParseErrorView::EpubOpen(m)),
        Ok(chs) => words_or(epub_text(chs), ParseErrorView::EmptyEpub),
    }
}

/// Parses the bytes of an EPUB: opens the archive, reads every chapter in
/// spine order, strips their HTML and splits the text into words.
pub fn parse_epub(bytes: Vec<u8>) -> (r: Result<Vec<String>, ParseError>)
    requires
        epub_open_outcome(bytes@) is Some,
    ensures
        words_result_view(r) == epub_words_spec(epub_open_outcome(bytes@)->Some_0),
{
    let opened = epub_open(bytes);
    let mut doc = match opened {
        Err(m) => {
            return Err(ParseError::EpubOpen { reason: m });
        },
        Ok(doc) => doc,
    };
    let ghost chs = epub_chapters(doc);
    let mut chapters: Vec<Option<String>> = Vec::new();
    let first = epub_current_text(&mut doc);
    chapters.push(first);
    proof {
        if chs.len() > 0 {
            assert(chapters_view(chapters@) == chs.take(1));
        } else {
            assert(chapters_view(chapters@) == seq![Option::<Seq<char>>::None]);
        }
    }
    while epub_go_next(&mut doc)
        invariant
            epub_chapters(doc) == chs,
            chs.len() > 0 ==> epub_position(doc) < chs.len() && chapters_view(chapters@) == chs.take(
                epub_position(doc) + 1int,
            ),
            chs.len() == 0 ==> epub_position(doc) == 0 && chapters_view(chapters@) == seq![
                Option::<Seq<char>>::None,
            ],
        decreases chs.len() - epub_position(doc),
    {
        let c = epub_current_text(&mut doc);
        let ghost p = epub_position(doc);
        proof {
            assert(chapters_view(chapters@.push(c)) == chapters_view(chapters@).push(opt_string_view(c)));
            assert(chs.take(p + 1int) == chs.take(p as int).push(chs[p as int]));
        }
        chapters.push(c);
    }
    proof {
        if chs.len() > 0 {
            assert(chs.take(chs.len() as int) == chs);
        } else {
            let one = seq![Option::<Seq<char>>::None];
            assert(one.drop_last() == Seq::<Option<Seq<char>>>::empty());
            assert(one.last() == Option::<Seq<char>>::None);
            assert(epub_text(one.drop_last()) == Seq::<char>::empty());
            assert(epub_text(one) == Seq::<char>::empty());
            assert(epub_text(chs) == Seq::<char>::empty());
        }
    }
    epub_words(&chapters)
}

/// The document formats that can be read.
#[derive(Clone, Copy, Debug, PartialEq, Eq, Structural)]
pub enum FileFormat {
    Txt,
    Epub,
    Pdf,
}

pub open spec fn txt_word() -> Seq<char> { seq!['t', 'x', 't'] }
pub open spec fn epub_word() -> Seq<char> { seq!['e', 'p', 'u', 'b'] }
pub open spec fn pdf_word() -> Seq<char> { seq!['p', 'd', 'f'] }

/// The lowercased extension of a path, empty when it has none.
pub open spec fn extension_key(path: Seq<char>) -> Seq<char> {
    unicode_lowercase(
        match path_extension(path) {
            Some(e) => e,
            None => Seq::empty(),
        },
    )
}

/// The extension text of a plain file path by the documented rule, empty
/// when it has none.
pub open spec fn plain_extension(path: Seq<char>) -> Seq<char> {
    match file_name_extension(final_segment(path)) {
        Some(e) => e,
        None => Seq::empty(),
    }
}

/// The format a lowercased extension names.
pub open spec fn format_of(key: Seq<char>) -> Option<FileFormat> {
    if key == txt_word() {
        Some(FileFormat::Txt)
    } else if key == epub_word() {
        Some(FileFormat::Epub)
    } else if key == pdf_word() {
        Some(FileFormat::Pdf)
    } else {
        None
    }
}

fn chars_equal(a: &Vec<char>, b: &Vec<char>) -> (r: bool)
    ensures
        r == (a@ == b@),
{
    if a.len() != b.len() {
        return false;
    }
    let mut i: usize = 0;
    while i < a.len()
        invariant
            a@.len() == b@.len(),
            i <= a@.len(),
            forall|j: int| 0 <= j < i ==> a@[j] == b@[j],
        decreases a.len() - i,
    {
        if a[i] != b[i] {
            return false;
        }
        i = i + 1;
    }
    assert(a@ == b@);
    true
}

/// Decides the format of a file from its path's extension, case-insensitively;
/// any extension but txt, epub and pdf is refused before the file is read.
pub fn detect_format(path: &str) -> (r: Result<FileFormat, ParseError>)
    ensures
        match format_of(extension_key(path@)) {
            Some(f) => r == Ok::<FileFormat, ParseError>(f),
            None => r is Err && r->Err_0@ == ParseErrorView::UnsupportedFormat(extension_key(path@)),
        },
        plain_file_path(path@) && all_ascii(plain_extension(path@)) ==> extension_key(path@)
            == plain_extension(path@).map_values(|c: char| ascii_lower_char(c)),
{
    let ext = match extension_of(path) {
        Some(e) => e,
        None => String::new(),
    };
    let key = lowercase(ext.as_str());
    let kc = chars_of(key.as_str());
    let txt = vec!['t', 'x', 't'];
    let epub = vec!['e', 'p', 'u', 'b'];
    let pdf = vec!['p', 'd', 'f'];
    assert(txt@ == txt_word());
    assert(epub@ == epub_word());
    assert(pdf@ == pdf_word());
    if chars_equal(&kc, &txt) {
        Ok(FileFormat::Txt)
    } else if chars_equal(&kc, &epub) {
        Ok(FileFormat::Epub)
    } else if chars_equal(&kc, &pdf) {
        Ok(FileFormat::Pdf)
    } else {
        Err(ParseError::UnsupportedFormat { extension: key })
    }
}

/// The words of a document of the given format, from its bytes.
pub open spec fn document_words(format: FileFormat, bytes: Seq<u8>) -> Result<Seq<Seq<char>>, ParseErrorView> {
    match format {
        FileFormat::Txt => words_or(utf8_lossy(bytes), ParseErrorView::EmptyText),
        FileFormat::Epub => epub_words_spec(epub_open_outcome(bytes)->Some_0),
        FileFormat::Pdf => pdf_words_spec(pdf_text_outcome(bytes)->Some_0),
    }
}

/// The reader of the format returns on these bytes (the EPUB and PDF crates
/// panic on some malformed files; plain text is always read).
pub open spec fn document_readable(format: FileFormat, bytes: Seq<u8>) -> bool {
    match format {
        FileFormat::Txt => true,
        FileFormat::Epub => epub_open_outcome(bytes) is Some,
        FileFormat::Pdf => pdf_text_outcome(bytes) is Some,
    }
}

/// Parses a document's bytes in the given format. On success returns the
/// words and the SHA-256 of the bytes (lowercase hex).
pub fn parse_document(format: FileFormat, bytes: Vec<u8>) -> (r: Result<(Vec<String>, String), ParseError>)
    requires
        document_readable(format, bytes@),
    ensures
        match (r, document_words(format, bytes@)) {
            (Ok((w, h)), Ok(ws)) => strings_view(w@) == ws && h@ == hex_lower(sha256(bytes@)),
            (Err(e), Err(ev)) => e@ == ev,
            _ => false,
        },
{
    let hash = hash_file_bytes(bytes.as_slice());
    let words = match format {
        FileFormat::Txt => parse_txt(bytes.as_slice()),
        FileFormat::Epub => parse_epub(bytes),
        FileFormat::Pdf => parse_pdf(bytes.as_slice()),
    };
    match words {
        Ok(w) => Ok((w, hash)),
        Err(e) => Err(e),
    }
}

} // verus!
