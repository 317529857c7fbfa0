use crate::parse::{parse_records, ParseError};
use crate::record::Record;
use vstd::prelude::*;

verus! {

/// The text that the windows-1252 decoder yields for a byte sequence: one
/// character per byte, according to the encoding's fixed 256-entry table.
pub uninterp spec fn win1252_of(bytes: Seq<u8>) -> Seq<char>;

/// Relies on encoding_rs's WINDOWS_1252 decoder (`decode_without_bom_handling`):
/// windows-1252 is a single-byte encoding whose table defines all 256 bytes,
/// so decoding is total, yields exactly one character per byte, and maps
/// ASCII bytes to themselves.
#[verifier::external_body]
fn decode_windows1252(bytes: &[u8]) -> (r: String)
    ensures
        r@ == win1252_of(bytes@),
        r@.len() == bytes@.len(),
        forall|i: int| 0 <= i < bytes@.len() && bytes@[i] < 0x80 ==> r@[i] == bytes@[i] as char,
{
    let (text, _had_errors) = encoding_rs::WINDOWS_1252.decode_without_bom_handling(bytes);
    text.into_owned()
}

/// Decodes a windows-1252 byte stream and parses its rows into records.
/// Succeeds exactly when every decoded row is well-formed; the first
/// malformed row aborts the batch.
pub fn records_from_windows1252(bytes: &[u8]) -> (r: Result<Vec<Record>, ParseError>)
    ensures
        r is Ok <==> (forall|i: int|
            0 <= i < crate::parse::input_rows(win1252_of(bytes@)).len()
                ==> crate::parse::row_ok(#[trigger] crate::parse::input_rows(win1252_of(bytes@))[i])),
        r matches Ok(recs) ==> recs@.len() == crate::parse::input_rows(win1252_of(bytes@)).len()
            && forall|i: int|
            0 <= i < recs@.len() ==> crate::parse::is_parsed_record(
                crate::parse::input_rows(win1252_of(bytes@))[i],
                #[trigger] recs@[i],
            ),
        r matches Err(e) ==> e.row < crate::parse::input_rows(win1252_of(bytes@)).len()
            && !crate::parse::row_ok(crate::parse::input_rows(win1252_of(bytes@))[e.row as int])
            && e.error == crate::parse::row_error(
            crate::parse::input_rows(win1252_of(bytes@))[e.row as int],
        ),
{
    let text = decode_windows1252(bytes);
    parse_records(text.as_str())
}

/// The bytes that the windows-1252 encoder yields for a text, with
/// unmappable characters replaced according to the encoder's replacement
/// policy.
pub uninterp spec fn win1252_encoding_of(text: Seq<char>) -> Seq<u8>;

/// Relies on encoding_rs's WINDOWS_1252 encoder (`encode`): the encoding is
/// ASCII-compatible, so a text of ASCII characters encodes to exactly its
/// own scalar values, one byte per character.
#[verifier::external_body]
fn encode_windows1252(text: &str) -> (r: Vec<u8>)
    ensures
        r@ == win1252_encoding_of(text@),
        (forall|i: int| 0 <= i < text@.len() ==> (text@[i] as u32) < 0x80) ==> r@.len()
            == text@.len() && (forall|i: int|
            0 <= i < text@.len() ==> (r@[i] as u32) == (text@[i] as u32)),
{
    let (bytes, _encoding, _had_unmappable) = encoding_rs::WINDOWS_1252.encode(text);
    bytes.into_owned()
}

/// One output line of the report in the legacy encoding: the record's
/// display line and a line feed, encoded as windows-1252 bytes.
pub fn encoded_report_line(rec: &Record) -> (r: Vec<u8>)
    ensures
        r@ == win1252_encoding_of(crate::record::rendered(*rec) + seq!['\n']),
{
    let mut line = rec.render();
    line.append("\n");
    proof {
        reveal_strlit("\n");
        assert(line@ =~= crate::record::rendered(*rec) + seq!['\n']);
    }
    encode_windows1252(line.as_str())
}

} // verus!
