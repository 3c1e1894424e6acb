//! Session records: what survives an app restart (reading position and
//! settings for the last text) and the per-file reading history rows, with
//! the conversions to and from the integer columns they are stored in.

use vstd::prelude::*;
use vstd::string::StringSliceAdditionalSpecFns;
use vstd::utf8::{decode_utf8, encode_utf8, is_char_boundary};

use crate::text::{chars_of, string_from_range};

verus! {

/// Session data that survives an app restart. Words are not stored; they are
/// parsed again and matched by `text_hash`.
#[derive(Clone, Debug, PartialEq)]
pub struct SessionData {
    pub text_hash: String,
    pub word_index: u64,
    pub wpm: u32,
    pub words_per_group: u32,
}

/// A session record with its hash as a character sequence.
pub struct SessionView {
    pub text_hash: Seq<char>,
    pub word_index: u64,
    pub wpm: u32,
    pub words_per_group: u32,
}

impl View for SessionData {
    type V = SessionView;

    open spec fn view(&self) -> SessionView {
        SessionView {
            text_hash: self.text_hash@,
            word_index: self.word_index,
            wpm: self.wpm,
            words_per_group: self.words_per_group,
        }
    }
}

/// The decimal digit for a value below 10.
pub open spec fn digit_char(d: nat) -> char {
    (d + 48) as char
}

/// The decimal notation of a natural number, without leading zeros.
pub open spec fn decimal(n: nat) -> Seq<char>
    decreases n,
{
    if n < 10 {
        seq![digit_char(n)]
    } else {
        decimal(n / 10).push(digit_char(n % 10))
    }
}

/// Appends the decimal notation of `n` to `out`.
fn push_decimal(n: usize, out: &mut Vec<char>)
    ensures
        final(out)@ == old(out)@ + decimal(n as nat),
    decreases n,
{
    if n >= 10 {
        push_decimal(n / 10, out);
    }
    let d = (n % 10) as u8;
    out.push((d + 48) as char);
    assert(old(out)@ + decimal(n as nat) == old(out)@ + decimal((n / 10) as nat) + seq![digit_char((n % 10) as nat)]
        || n < 10);
}

/// The number of UTF-8 bytes of the text kept in a text hash: the first 64,
/// or all of them when there are fewer.
pub open spec fn hash_cut(s: Seq<char>) -> int {
    let len = encode_utf8(s).len() as int;
    if len < 64 {
        len
    } else {
        64
    }
}

/// The text hash is defined: the cut falls on a character boundary (else the
/// byte slicing it performs would panic).
pub open spec fn text_hash_defined(s: Seq<char>) -> bool {
    is_char_boundary(encode_utf8(s), hash_cut(s))
}

/// The identity of a text used to match a stored session: the text's first
/// (at most) 64 UTF-8 bytes, a `-`, and its byte length in decimal.
pub open spec fn text_hash(s: Seq<char>) -> Seq<char> {
    decode_utf8(encode_utf8(s).take(hash_cut(s))).push('-') + decimal(
        encode_utf8(s).len(),
    )
}

/// Whether `compute_text_hash` is defined on this text (it slices the text at
/// byte min(len, 64), which must be a character boundary).
pub fn can_hash_text(text: &str) -> (r: bool)
    ensures
        r == text_hash_defined(text@),
{
    let len = text.as_bytes().len();
    let cut = if len < 64 {
        len
    } else {
        64
    };
    text.is_char_boundary(cut)
}

impl SessionData {
    /// Computes a stable hash for text identity checking on resume: the
    /// first 64 bytes of the text, a dash, and the text's byte length.
    pub fn compute_text_hash(text: &str) -> (h: String)
        requires
            text_hash_defined(text@),
        ensures
            h@ == text_hash(text@),
    {
        broadcast use vstd::utf8::encode_utf8_decode_utf8;

        let len = text.as_bytes().len();
        let cut = if len < 64 {
            len
        } else {
            64
        };
        let (prefix, _rest) = text.split_at(cut);
        proof {
            assert(prefix.spec_bytes() == encode_utf8(prefix@));
            assert(decode_utf8(encode_utf8(prefix@)) == prefix@);
        }
        let mut out = chars_of(prefix);
        out.push('-');
        push_decimal(len, &mut out);
        string_from_range(&out, 0, out.len())
    }
}


impl SessionData {
    /// The values stored for a session: the hash and the three integers as
    /// 64-bit signed columns (`as` casts, as the database layer binds them).
    pub fn to_columns(&self) -> (c: (String, i64, i64, i64))
        ensures
            c.0@ == self.text_hash@,
            c.1 == self.word_index as i64,
            c.2 == self.wpm as i64,
            c.3 == self.words_per_group as i64,
    {
        (self.text_hash.clone(), self.word_index as i64, self.wpm as i64, self.words_per_group as i64)
    }

    /// A session rebuilt from its stored columns (`as` casts back to the
    /// field types).
    pub fn from_columns(text_hash: String, word_index: i64, wpm: i64, words_per_group: i64) -> (s: SessionData)
        ensures
            s.text_hash == text_hash,
            s.word_index == word_index as u64,
            s.wpm == wpm as u32,
            s.words_per_group == words_per_group as u32,
    {
        SessionData {
            text_hash,
            word_index: word_index as u64,
            wpm: wpm as u32,
            words_per_group: words_per_group as u32,
        }
    }
}

/// One row of the per-file reading history.
#[derive(Clone, Debug)]
pub struct FileSessionRow {
    pub file_hash: String,
    pub file_name: String,
    pub file_path: String,
    pub word_index: u64,
    pub total_words: u64,
    pub wpm: u32,
    pub words_per_group: u32,
    pub opened_at: i64,
    pub updated_at: i64,
}

/// The integer columns of a history row, in table order: word_index,
/// total_words, wpm, words_per_group, opened_at, updated_at.
pub struct RowColumns {
    pub word_index: i64,
    pub total_words: i64,
    pub wpm: i64,
    pub words_per_group: i64,
    pub opened_at: i64,
    pub updated_at: i64,
}

impl FileSessionRow {
    /// The integer columns this row is stored as (`as` casts to i64).
    pub fn to_columns(&self) -> (c: RowColumns)
        ensures
            c.word_index == self.word_index as i64,
            c.total_words == self.total_words as i64,
            c.wpm == self.wpm as i64,
            c.words_per_group == self.words_per_group as i64,
            c.opened_at == self.opened_at,
            c.updated_at == self.updated_at,
    {
        RowColumns {
            word_index: self.word_index as i64,
            total_words: self.total_words as i64,
            wpm: self.wpm as i64,
            words_per_group: self.words_per_group as i64,
            opened_at: self.opened_at,
            updated_at: self.updated_at,
        }
    }

    /// A row rebuilt from its text columns and integer columns (`as` casts
    /// back to the field types).
    pub fn from_columns(file_hash: String, file_name: String, file_path: String, c: RowColumns) -> (r: FileSessionRow)
        ensures
            r.file_hash == file_hash,
            r.file_name == file_name,
            r.file_path == file_path,
            r.word_index == c.word_index as u64,
            r.total_words == c.total_words as u64,
            r.wpm == c.wpm as u32,
            r.words_per_group == c.words_per_group as u32,
            r.opened_at == c.opened_at,
            r.updated_at == c.updated_at,
    {
        FileSessionRow {
            file_hash,
            file_name,
            file_path,
            word_index: c.word_index as u64,
            total_words: c.total_words as u64,
            wpm: c.wpm as u32,
            words_per_group: c.words_per_group as u32,
            opened_at: c.opened_at,
            updated_at: c.updated_at,
        }
    }
}

} // verus!
