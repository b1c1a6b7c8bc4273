//! The remote manifest index: one line per manifest, the logical name
//! followed by a fixed-width descriptor suffix that embeds a content
//! hash.
use vstd::prelude::*;

verus! {

use crate::text::lines_of;
use crate::text::split_lines;
use vstd::string::StrSliceExecFns;
use vstd::utf8::decode_utf8;
use vstd::utf8::encode_utf8;
use vstd::utf8::valid_utf8;

/// The width of the descriptor suffix on every index line.
pub const DESCRIPTOR_WIDTH: usize = 26;

/// The error type of the LZMA codec.
#[verifier::external_type_specification]
#[verifier::external_body]
pub struct ExLzmaError(lzma_rs::error::Error);

/// What an LZMA stream decompresses to, with the codec's default
/// options.
pub uninterp spec fn lzma_plain(data: Seq<u8>) -> Seq<u8>;

/// Whether a byte sequence is a well-formed LZMA stream that the codec
/// decompresses, with its default options.
pub uninterp spec fn lzma_ok(data: Seq<u8>) -> bool;

/// Relies on lzma_rs::lzma_decompress: with default options, both
/// whether decompression succeeds and what it yields are functions of
/// the compressed bytes alone.
#[verifier::external_body]
fn lzma_decompress_bytes(data: &[u8]) -> (r: Result<Vec<u8>, lzma_rs::error::Error>)
    ensures
        (r is Ok) == lzma_ok(data@),
        r matches Ok(v) ==> v@ == lzma_plain(data@),
{
    let mut cursor = std::io::Cursor::new(data);
    let mut out: Vec<u8> = Vec::new();
    match lzma_rs::lzma_decompress(&mut cursor, &mut out) {
        Ok(()) => Ok(out),
        Err(e) => Err(e),
    }
}

/// Relies on String::from_utf8: it succeeds exactly on valid UTF-8,
/// and then the text's encoding is the input bytes and the text is what
/// vstd's decoder gives on those bytes.
#[verifier::external_body]
fn utf8_decode(bytes: Vec<u8>) -> (r: Option<String>)
    ensures
        (r is Some) == valid_utf8(bytes@),
        r matches Some(s) ==> encode_utf8(s@) == bytes@ && s@ == decode_utf8(bytes@),
{
    match String::from_utf8(bytes) {
        Ok(s) => Some(s),
        Err(_) => None,
    }
}

/// Why an index blob was rejected.
#[derive(Debug)]
pub enum IndexError {
    /// The blob is not a valid LZMA stream.
    Compression,
    /// The decompressed bytes are not valid UTF-8 text.
    Encoding,
    /// An index line is shorter than the descriptor suffix; the line is
    /// carried for reporting.
    LineTooShort { line: String },
}

/// The logical name and full line of one well-formed index line: the
/// name is the line with the descriptor suffix stripped.
pub open spec fn entry_of(line: Seq<char>) -> (Seq<char>, Seq<char>) {
    (line.take(line.len() - DESCRIPTOR_WIDTH as int), line)
}

/// Every line carries at least the descriptor suffix.
pub open spec fn lines_well_formed(lines: Seq<Seq<char>>) -> bool {
    forall|j: int| 0 <= j < lines.len() ==> (#[trigger] lines[j]).len() >= DESCRIPTOR_WIDTH
}

/// The entries of a well-formed line list, in line order.
pub open spec fn entries_of(lines: Seq<Seq<char>>) -> Seq<(Seq<char>, Seq<char>)> {
    lines.map_values(|l: Seq<char>| entry_of(l))
}

/// The full line recorded for the first entry with a logical name, when
/// there is one.
pub open spec fn index_lookup(entries: Seq<(Seq<char>, Seq<char>)>, name: Seq<char>) -> Option<
    Seq<char>,
>
    decreases entries.len(),
{
    if entries.len() == 0 {
        Option::None
    } else if entries[0].0 == name {
        Option::Some(entries[0].1)
    } else {
        index_lookup(entries.drop_first(), name)
    }
}

/// The manifest index: logical manifest name to the full index line the
/// name came from, in line order.
#[derive(Debug)]
pub struct IndexMap {
    entries: Vec<(String, String)>,
}

impl View for IndexMap {
    type V = Seq<(Seq<char>, Seq<char>)>;

    closed spec fn view(&self) -> Seq<(Seq<char>, Seq<char>)> {
        self.entries@.map_values(|e: (String, String)| (e.0@, e.1@))
    }
}

impl IndexMap {
    /// The full index line recorded for a logical manifest name, when
    /// the index has one.
    pub fn get(&self, name: &str) -> (r: Option<&String>)
        ensures
            match r {
                Option::Some(line) => index_lookup(self@, name@) == Option::Some(line@),
                Option::None => index_lookup(self@, name@) == Option::<Seq<char>>::None,
            },
    {
        let n = self.entries.len();
        let mut i: usize = 0;
        proof {
            assert(self@.skip(0) =~= self@);
        }
        while i < n
            invariant
                n == self.entries.len(),
                i <= n,
                self@.len() == n,
                forall|j: int|
                    0 <= j < n ==> self@[j] == ((#[trigger] self.entries@[j]).0@, self.entries@[j].1@),
                index_lookup(self@, name@) == index_lookup(self@.skip(i as int), name@),
            decreases n - i,
        {
            proof {
                assert(self@.skip(i as int)[0] == self@[i as int]);
                assert(self@.skip(i as int).drop_first() =~= self@.skip(i + 1));
            }
            if crate::text::str_eq(self.entries[i].0.as_str(), name) {
                return Option::Some(&self.entries[i].1);
            }
            i = i + 1;
        }
        proof {
            assert(self@.skip(i as int).len() == 0);
        }
        Option::None
    }

    /// How many entries the index holds.
    pub fn len(&self) -> (r: usize)
        ensures
            r == self@.len(),
    {
        self.entries.len()
    }

    /// One entry by position: its logical name and full line.
    pub fn entry(&self, i: usize) -> (r: &(String, String))
        requires
            i < self@.len(),
        ensures
            (r.0@, r.1@) == self@[i as int],
    {
        &self.entries[i]
    }
}

/// Builds the index from its lines: each line's logical name is the
/// line with the fixed-width descriptor suffix stripped; a line shorter
/// than the suffix is malformed and rejects the whole index.
pub fn parse_index_lines(lines: &Vec<String>) -> (r: Result<IndexMap, IndexError>)
    ensures
        match r {
            Ok(m) => lines_well_formed(lines.deep_view()) && m@ == entries_of(lines.deep_view()),
            Err(e) => !lines_well_formed(lines.deep_view()) && (e matches IndexError::LineTooShort{
                line,
            } && exists|j: int|
                0 <= j < lines.deep_view().len() && (#[trigger] lines.deep_view()[j]).len()
                    < DESCRIPTOR_WIDTH && line@ == lines.deep_view()[j]),
        },
{
    let n = lines.len();
    let ghost lv = lines.deep_view();
    let mut entries: Vec<(String, String)> = Vec::new();
    let mut i: usize = 0;
    proof {
        assert(entries@.map_values(|e: (String, String)| (e.0@, e.1@)) =~= entries_of(
            lv.take(0),
        ));
    }
    while i < n
        invariant
            n == lines.len(),
            i <= n,
            lv == lines.deep_view(),
            lv.len() == n,
            forall|j: int| 0 <= j < n ==> lv[j] == (#[trigger] lines@[j])@,
            forall|j: int| 0 <= j < i ==> (#[trigger] lv[j]).len() >= DESCRIPTOR_WIDTH,
            entries@.map_values(|e: (String, String)| (e.0@, e.1@)) == entries_of(
                lv.take(i as int),
            ),
        decreases n - i,
    {
        let line = &lines[i];
        let len = line.as_str().unicode_len();
        if len < DESCRIPTOR_WIDTH {
            return Result::Err(IndexError::LineTooShort { line: line.clone() });
        }
        let name = line.as_str().substring_char(0, len - DESCRIPTOR_WIDTH);
        let ghost pre = entries@.map_values(|e: (String, String)| (e.0@, e.1@));
        entries.push((name.to_owned(), line.clone()));
        proof {
            assert(name@ =~= lv[i as int].take(lv[i as int].len() - DESCRIPTOR_WIDTH as int));
            assert(entries@.map_values(|e: (String, String)| (e.0@, e.1@)) =~= pre.push(
                entry_of(lv[i as int]),
            ));
            assert(lv.take(i + 1) =~= lv.take(i as int).push(lv[i as int]));
            assert(entries_of(lv.take(i + 1)) =~= entries_of(lv.take(i as int)).push(
                entry_of(lv[i as int]),
            ));
        }
        i = i + 1;
    }
    proof {
        assert(lv.take(n as int) =~= lv);
    }
    Result::Ok(IndexMap { entries })
}

/// Parses the compressed remote index blob: decompresses it, decodes
/// the text, splits it into lines, and derives the logical-name mapping
/// from the fixed-width line convention.  It succeeds exactly when the
/// blob is a well-formed LZMA stream, the decompressed bytes are valid
/// UTF-8, and every line carries at least the descriptor suffix; each
/// error variant names the stage that failed.
pub fn parse(data: &[u8]) -> (r: Result<IndexMap, IndexError>)
    ensures
        (r is Ok) == (lzma_ok(data@) && valid_utf8(lzma_plain(data@)) && lines_well_formed(
            lines_of(decode_utf8(lzma_plain(data@))),
        )),
        match r {
            Ok(m) => m@ == entries_of(lines_of(decode_utf8(lzma_plain(data@)))),
            Err(e) => match e {
                IndexError::Compression => !lzma_ok(data@),
                IndexError::Encoding => lzma_ok(data@) && !valid_utf8(lzma_plain(data@)),
                IndexError::LineTooShort { line } => {
                    let lines = lines_of(decode_utf8(lzma_plain(data@)));
                    &&& lzma_ok(data@)
                    &&& valid_utf8(lzma_plain(data@))
                    &&& !lines_well_formed(lines)
                    &&& exists|j: int|
                        0 <= j < lines.len() && (#[trigger] lines[j]).len() < DESCRIPTOR_WIDTH
                            && line@ == lines[j]
                },
            },
        },
{
    let decompressed = match lzma_decompress_bytes(data) {
        Ok(v) => v,
        Err(_) => {
            return Result::Err(IndexError::Compression);
        },
    };
    let text = match utf8_decode(decompressed) {
        Some(s) => s,
        None => {
            return Result::Err(IndexError::Encoding);
        },
    };
    let lines = split_lines(text.as_str());
    parse_index_lines(&lines)
}

} // verus!
