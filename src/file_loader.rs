//! What a loaded file becomes: its format, told by the extension of its
//! path, its text, decoded from its bytes, and the document parsed from it.
//! Reading the file is left to the caller.

use vstd::prelude::*;
use vstd::string::StringExecFns;
use vstd::utf8::{decode_utf8, valid_utf8};
use crate::document::DocumentModel;
use crate::parser::{parsed_from, ParserEngine};
use crate::text::{chars_of, copy_range, push_char, string_of};

verus! {

/// The format of a file.
#[derive(Debug, PartialEq)]
pub enum FileFormat {
    /// Plain text.
    Txt,
    /// Any other extension, in lower case; such files are read as plain text
    /// too.
    Other(String),
}

/// The position of the last `c` in `s`, or -1 when there is none.
pub open spec fn last_index_of(s: Seq<char>, c: char) -> int
    decreases s.len(),
{
    if s.len() == 0 {
        -1
    } else if s.last() == c {
        s.len() - 1
    } else {
        last_index_of(s.drop_last(), c)
    }
}

/// The last part of the path `p` between slashes that is neither empty nor
/// `.`; empty when there is none.
pub open spec fn final_component(p: Seq<char>) -> Seq<char>
    decreases p.len(),
    via final_component_decreases
{
    let i = last_index_of(p, '/');
    let seg = p.subrange(i + 1, p.len() as int);
    if seg.len() > 0 && seg != seq!['.'] {
        seg
    } else if i < 0 {
        Seq::empty()
    } else {
        final_component(p.take(i))
    }
}

proof fn lemma_last_index_bounds(s: Seq<char>, c: char)
    ensures
        -1 <= last_index_of(s, c) < s.len(),
    decreases s.len(),
{
    if s.len() > 0 {
        lemma_last_index_bounds(s.drop_last(), c);
    }
}

#[via_fn]
proof fn final_component_decreases(p: Seq<char>) {
    lemma_last_index_bounds(p, '/');
}

/// The file name of the path `p`, as `Path::file_name` gives it: none when
/// the path has no final component or ends in `..`.
pub open spec fn file_name_of(p: Seq<char>) -> Option<Seq<char>> {
    let f = final_component(p);
    if f.len() == 0 || f == seq!['.', '.'] {
        None
    } else {
        Some(f)
    }
}

/// The extension of the path `p`, as `Path::extension` gives it: what
/// follows the last `.` of the file name, when that `.` is not its first
/// character.
pub open spec fn extension_of(p: Seq<char>) -> Option<Seq<char>> {
    match file_name_of(p) {
        None => None,
        Some(name) => {
            let d = last_index_of(name, '.');
            if d <= 0 {
                None
            } else {
                Some(name.skip(d + 1))
            }
        },
    }
}

/// `e` is `txt` in any mix of ASCII upper and lower case.
pub open spec fn is_txt(e: Seq<char>) -> bool {
    &&& e.len() == 3
    &&& (e[0] == 't' || e[0] == 'T')
    &&& (e[1] == 'x' || e[1] == 'X')
    &&& (e[2] == 't' || e[2] == 'T')
}

/// What `str::to_lowercase` makes of `s`.
pub uninterp spec fn lower_of(s: Seq<char>) -> Seq<char>;

/// Relies on `str::to_lowercase`: the lowercase mapping of `s`, which
/// depends on its characters alone.
#[verifier::external_body]
fn to_lowercase(s: &str) -> (r: String)
    ensures
        r@ == lower_of(s@),
{
    s.to_lowercase()
}

/// `f` is the format of the path `p`: plain text for a `.txt` extension in
/// any case and for a path without extension, else the extension in lower
/// case.
pub open spec fn format_of(p: Seq<char>, f: FileFormat) -> bool {
    match extension_of(p) {
        None => f is Txt,
        Some(e) => if is_txt(e) {
            f is Txt
        } else {
            f matches FileFormat::Other(x) && x@ == lower_of(e)
        },
    }
}

/// The text of `bytes`: their UTF-8 decoding when they are valid UTF-8, else
/// one character for each byte, of that code point.
pub open spec fn decoded_text(bytes: Seq<u8>) -> Seq<char> {
    if valid_utf8(bytes) {
        decode_utf8(bytes)
    } else {
        bytes.map_values(|b: u8| b as char)
    }
}

/// Relies on `std::str::from_utf8`: accepts exactly the valid UTF-8 byte
/// strings, and then holds the characters they encode.
#[verifier::external_body]
fn utf8_text(bytes: &[u8]) -> (r: Option<String>)
    ensures
        r is Some <==> valid_utf8(bytes@),
        r matches Some(s) ==> s@ == decode_utf8(bytes@),
{
    std::str::from_utf8(bytes).ok().map(|s| s.to_string())
}

/// The position of the last `c` in `v[..end]`.
fn last_index(v: &Vec<char>, end: usize, c: char) -> (r: Option<usize>)
    requires
        end <= v.len(),
    ensures
        r is None <==> last_index_of(v@.take(end as int), c) == -1,
        r matches Some(k) ==> k == last_index_of(v@.take(end as int), c) && k < end,
{
    let mut j: usize = end;
    while j > 0
        invariant
            j <= end <= v.len(),
            last_index_of(v@.take(end as int), c) == last_index_of(v@.take(j as int), c),
        decreases j,
    {
        assert(v@.take(j as int).drop_last() =~= v@.take(j - 1));
        if v[j - 1] == c {
            return Some(j - 1);
        }
        j = j - 1;
    }
    None
}

/// The last part of `path` between slashes that is neither empty nor `.`.
fn final_part(path: &Vec<char>) -> (r: Vec<char>)
    ensures
        r@ == final_component(path@),
{
    let mut end: usize = path.len();
    assert(path@.take(end as int) =~= path@);
    loop
        invariant
            end <= path.len(),
            final_component(path@) == final_component(path@.take(end as int)),
        decreases end,
    {
        let found = last_index(path, end, '/');
        let start: usize = match found {
            Some(i) => i + 1,
            None => 0,
        };
        let seg = copy_range(path, start, end);
        assert(seg@ =~= path@.take(end as int).subrange(start as int, end as int));
        if seg.len() > 0 && !(seg.len() == 1 && seg[0] == '.') {
            assert(seg@ != seq!['.']);
            return seg;
        }
        assert(seg@.len() == 0 || seg@ =~= seq!['.']);
        match found {
            None => {
                return Vec::new();
            },
            Some(i) => {
                assert(path@.take(end as int).take(i as int) =~= path@.take(i as int));
                end = i;
            },
        }
    }
}

/// Reads files, decoding their bytes and parsing their text.
pub struct FileLoader;

impl FileLoader {
    pub fn new() -> FileLoader {
        FileLoader
    }

    /// The extension of `path`, when it has one.
    fn extension(path: &Vec<char>) -> (r: Option<Vec<char>>)
        ensures
            r is None <==> extension_of(path@) is None,
            r matches Some(e) ==> extension_of(path@) == Some(e@),
    {
        let name = final_part(path);
        if name.len() == 0 || (name.len() == 2 && name[0] == '.' && name[1] == '.') {
            assert(name@.len() == 0 || name@ =~= seq!['.', '.']);
            return None;
        }
        assert(name@ != seq!['.', '.']);
        assert(name@.take(name.len() as int) =~= name@);
        match last_index(&name, name.len(), '.') {
            Some(d) if d > 0 => {
                let e = copy_range(&name, d + 1, name.len());
                assert(e@ =~= name@.skip(d + 1));
                Some(e)
            },
            _ => None,
        }
    }

    /// The format of the file at `file_path`, told by its extension.
    pub fn detect_format(file_path: &str) -> (r: FileFormat)
        ensures
            format_of(file_path@, r),
    {
        let path = chars_of(file_path);
        match Self::extension(&path) {
            None => FileFormat::Txt,
            Some(e) => {
                if e.len() == 3 && (e[0] == 't' || e[0] == 'T') && (e[1] == 'x' || e[1] == 'X') && (
                e[2] == 't' || e[2] == 'T') {
                    FileFormat::Txt
                } else {
                    let s = string_of(&e);
                    FileFormat::Other(to_lowercase(s.as_str()))
                }
            },
        }
    }

    /// The text of a file's bytes: UTF-8 when they are valid UTF-8, else one
    /// character per byte. Decoding never fails.
    pub fn decode_text(bytes: &[u8]) -> (r: String)
        ensures
            r@ == decoded_text(bytes@),
    {
        match utf8_text(bytes) {
            Some(s) => s,
            None => {
                let mut s = String::new();
                let mut i: usize = 0;
                while i < bytes.len()
                    invariant
                        i <= bytes.len(),
                        s@ == bytes@.take(i as int).map_values(|b: u8| b as char),
                    decreases bytes.len() - i,
                {
                    push_char(&mut s, bytes[i] as char);
                    i = i + 1;
                    assert(s@ =~= bytes@.take(i as int).map_values(|b: u8| b as char));
                }
                assert(bytes@.take(bytes.len() as int) =~= bytes@);
                s
            },
        }
    }

    /// The document in a file at `file_path` whose bytes are `bytes`: every
    /// format is read as plain text, decoded and parsed.
    pub fn load_and_parse_document(&self, file_path: &str, bytes: &[u8]) -> (r: DocumentModel)
        ensures
            parsed_from(r, decoded_text(bytes@)),
    {
        let content = match Self::detect_format(file_path) {
            FileFormat::Txt => Self::decode_text(bytes),
            FileFormat::Other(_) => Self::decode_text(bytes),
        };
        let mut parser = ParserEngine::new();
        parser.parse_txt(content.as_str())
    }
}

} // verus!
