//! The boundary with the document codec: its types, and the calls that turn a
//! document into bytes and bytes into a document.

use vstd::prelude::*;
use bson::{Bson, Document};

verus! {

#[verifier::external_type_specification]
#[verifier::external_body]
pub struct ExDocument(bson::Document);

#[verifier::external_type_specification]
#[verifier::external_body]
pub struct ExBson(bson::Bson);

#[verifier::external_type_specification]
#[verifier::external_body]
pub struct ExDeError(bson::de::Error);

#[verifier::external_type_specification]
#[verifier::external_body]
pub struct ExSerError(bson::ser::Error);

/// The document the document codec reads from the front of `bytes`, with how
/// many bytes it takes, or `None` where that read fails.
pub uninterp spec fn doc_read(bytes: Seq<u8>) -> Option<(Document, int)>;

/// Relies on bson's `Document::from_reader`, run on a cursor over `b[pos..]`: the
/// outcome depends on those bytes alone; the cursor's position afterwards is the
/// number of bytes taken; a read takes a four-byte length, refuses lengths under
/// five, and cannot go past the end of the slice.
#[verifier::external_body]
pub(crate) fn read_document(b: &[u8], pos: usize) -> (r: Result<(Document, usize), bson::de::Error>)
    requires
        pos <= b@.len(),
    ensures
        r is Ok <==> doc_read(b@.subrange(pos as int, b@.len() as int)) is Some,
        r matches Ok((d, n)) ==> doc_read(b@.subrange(pos as int, b@.len() as int)) == Some(
            (d, n as int),
        ),
        r matches Ok((_, n)) ==> 5 <= n <= b@.len() - pos,
{
    let mut cursor = std::io::Cursor::new(&b[pos..]);
    match Document::from_reader(&mut cursor) {
        Ok(d) => Ok((d, cursor.position() as usize)),
        Err(e) => Err(e),
    }
}

/// The bytes the document codec encodes a document to, or `None` where it
/// refuses the document.
pub uninterp spec fn doc_encoding(d: Document) -> Option<Seq<u8>>;

/// The encodings of several documents laid end to end, or `None` where one of
/// them is refused.
pub open spec fn docs_encoding(ds: Seq<&Document>) -> Option<Seq<u8>>
    decreases ds.len(),
{
    if ds.len() == 0 {
        Some(Seq::empty())
    } else {
        match docs_encoding(ds.drop_last()) {
            Some(a) => match doc_encoding(*ds.last()) {
                Some(b) => Some(a + b),
                None => None,
            },
            None => None,
        }
    }
}

/// The encoding of an optional document: nothing where it is absent.
pub open spec fn opt_encoding(o: Option<&Document>) -> Option<Seq<u8>> {
    match o {
        Some(d) => doc_encoding(*d),
        None => Some(Seq::empty()),
    }
}

/// Once a prefix of the documents is refused, so is the whole run.
pub proof fn lemma_docs_encoding_refused(ds: Seq<&Document>, i: int)
    requires
        0 <= i <= ds.len(),
        docs_encoding(ds.subrange(0, i)) is None,
    ensures
        docs_encoding(ds) is None,
    decreases ds.len() - i,
{
    if i == ds.len() {
        assert(ds.subrange(0, i) =~= ds);
    } else {
        assert(ds.subrange(0, i + 1).drop_last() =~= ds.subrange(0, i));
        lemma_docs_encoding_refused(ds, i + 1);
    }
}

/// Relies on `bson::to_vec` for a `Document`: the outcome depends on the
/// document alone, and an encoding holds at least the four length bytes and the
/// terminating zero.
#[verifier::external_body]
pub(crate) fn encode_document(doc: &Document) -> (r: Result<Vec<u8>, bson::ser::Error>)
    ensures
        r is Ok <==> doc_encoding(*doc) is Some,
        r matches Ok(v) ==> doc_encoding(*doc) == Some(v@),
        r matches Ok(v) ==> v@.len() >= 5,
{
    bson::to_vec(doc)
}

/// Relies on `bson::Document::new`: an empty document, which encodes to its
/// length, five, and the terminating zero.
#[verifier::external_body]
pub(crate) fn new_document() -> (r: Document)
    ensures
        doc_encoding(r) == Some(seq![5u8, 0u8, 0u8, 0u8, 0u8]),
{
    Document::new()
}

/// The document `d` with `key` set to `v`.
pub uninterp spec fn doc_inserted(d: Document, key: Seq<char>, v: Bson) -> Document;

/// Relies on `bson::Document::insert`: sets `key` to `val`; the document after
/// depends on the document before, the key and the value alone.
#[verifier::external_body]
pub(crate) fn insert_value(doc: &mut Document, key: &str, val: Bson)
    ensures
        *final(doc) == doc_inserted(*old(doc), key@, val),
{
    doc.insert(key, val);
}

/// The string value that a string converts to.
pub uninterp spec fn bson_of_str(s: Seq<char>) -> Bson;

/// Relies on `impl From<&str> for Bson`: the string value of `s`, which depends
/// on `s` alone.
#[verifier::external_body]
pub(crate) fn bson_string(s: &str) -> (r: Bson)
    ensures
        r == bson_of_str(s@),
{
    Bson::from(s)
}

/// The 32-bit integer under `key` in `d`, if that is what it holds.
pub uninterp spec fn doc_get_i32(d: Document, key: Seq<char>) -> Option<i32>;

/// Relies on `bson::Document::get_i32`: the value under `key` where it is a
/// 32-bit integer; the answer depends on the document and the key alone.
#[verifier::external_body]
pub(crate) fn get_i32(doc: &Document, key: &str) -> (r: Option<i32>)
    ensures
        r == doc_get_i32(*doc, key@),
{
    doc.get_i32(key).ok()
}

} // verus!
