use bson::{Bson, Document};
use mongodb_wire::client::{count_of, first_document, Client};
use mongodb_wire::msg::{
    BuildError, DecodeError, Message, MsgHeader, OpCode, OpDelete, OpGetMore, OpInsert,
    OpKillCursors, OpQuery, OpReply, OpUpdate,
};

fn le32_at(b: &[u8], at: usize) -> i32 {
    i32::from_le_bytes([b[at], b[at + 1], b[at + 2], b[at + 3]])
}

fn reply_bytes(nret: i32, cursor_id: i64, docs: &[u8]) -> Vec<u8> {
    let mut b = Vec::new();
    b.extend_from_slice(&((36 + docs.len()) as i32).to_le_bytes());
    b.extend_from_slice(&0i32.to_le_bytes());
    b.extend_from_slice(&0i32.to_le_bytes());
    b.extend_from_slice(&1i32.to_le_bytes());
    b.extend_from_slice(&0i32.to_le_bytes());
    b.extend_from_slice(&cursor_id.to_le_bytes());
    b.extend_from_slice(&0i32.to_le_bytes());
    b.extend_from_slice(&nret.to_le_bytes());
    b.extend_from_slice(docs);
    b
}

fn doc_bytes(doc: &Document) -> Vec<u8> {
    let mut v = Vec::new();
    doc.to_writer(&mut v).unwrap();
    v
}

#[test]
fn kill_cursors_two_ids_is_forty_bytes() {
    let mut msg = OpKillCursors::new(vec![7, 42]);
    assert_eq!(msg.len(), 40);
    let mut buf = Vec::new();
    msg.encode(&mut buf);
    assert_eq!(buf.len(), 40);
    assert_eq!(le32_at(&buf, 0), 40);
    assert_eq!(le32_at(&buf, 12), 2007);
    assert_eq!(le32_at(&buf, 20), 2);
    assert_eq!(&buf[24..32], &7i64.to_le_bytes());
    assert_eq!(&buf[32..40], &42i64.to_le_bytes());
}

#[test]
fn kill_cursors_reserved_bits_are_written() {
    let mut msg = OpKillCursors::new(vec![]);
    msg.set_reserved_bits(9);
    let mut buf = Vec::new();
    msg.encode(&mut buf);
    assert_eq!(buf.len(), 24);
    assert_eq!(le32_at(&buf, 16), 9);
}

#[test]
fn query_scenario_length() {
    let empty = Document::new();
    let mut msg = OpQuery::new("test.users", &empty, None).unwrap();
    msg.set_nret(1);
    let expected = 16 + 4 + 11 + 4 + 4 + 5;
    assert_eq!(msg.len(), expected);
    let mut buf = Vec::new();
    msg.encode(&mut buf);
    assert_eq!(buf.len() as i32, expected);
    let header = MsgHeader::decode(&buf).unwrap();
    let mut h = header;
    assert_eq!(h.get_id(), 0);
    assert_eq!(le32_at(&buf, 0), expected);
    assert_eq!(le32_at(&buf, 12), 2004);
    assert_eq!(&buf[20..30], b"test.users");
    assert_eq!(buf[30], 0);
    assert_eq!(le32_at(&buf, 31), 0);
    assert_eq!(le32_at(&buf, 35), 1);
}

#[test]
fn query_with_selector_and_flags() {
    let mut q = Document::new();
    q.insert("foo", "bar");
    let mut sel = Document::new();
    sel.insert("_id", 1i32);
    let mut msg = OpQuery::new("db_name.collection_name", &q, Some(&sel)).unwrap();
    msg.set_flags(4);
    msg.set_nskip(3);
    let mut buf = Vec::new();
    msg.encode(&mut buf);
    let q_len = doc_bytes(&q).len();
    let s_len = doc_bytes(&sel).len();
    assert_eq!(buf.len(), 16 + 4 + 24 + 8 + q_len + s_len);
    assert_eq!(le32_at(&buf, 0) as usize, buf.len());
    assert_eq!(le32_at(&buf, 16), 4);
    assert_eq!(le32_at(&buf, 44), 3);
    assert_eq!(&buf[52..52 + q_len], &doc_bytes(&q)[..]);
    assert_eq!(&buf[52 + q_len..], &doc_bytes(&sel)[..]);
}

#[test]
fn query_from_encoded_payloads() {
    let mut msg = OpQuery::from_encoded("a.b", vec![1, 2, 3], Some(vec![4])).unwrap();
    let mut buf = Vec::new();
    msg.encode(&mut buf);
    assert_eq!(buf.len(), 29 + 3 + 3 + 1);
    assert_eq!(&buf[buf.len() - 4..], &[1, 2, 3, 4]);
}

#[test]
fn namespace_with_nul_is_refused() {
    let empty = Document::new();
    assert!(matches!(OpQuery::new("a\0b", &empty, None), Err(BuildError::NulInNamespace)));
    assert!(matches!(OpDelete::new("a\0b", &empty), Err(BuildError::NulInNamespace)));
    assert!(matches!(OpGetMore::new("\0", 1, 1), Err(BuildError::NulInNamespace)));
    assert!(matches!(OpInsert::from_encoded("x\0", vec![]), Err(BuildError::NulInNamespace)));
    assert!(matches!(
        OpUpdate::new("\0.c", &empty, &empty),
        Err(BuildError::NulInNamespace)
    ));
}

#[test]
fn insert_many_documents_in_one_frame() {
    let mut a = Document::new();
    a.insert("x", 1i32);
    let mut b = Document::new();
    b.insert("y", "z");
    let mut msg = OpInsert::new("db.c", &vec![&a, &b]).unwrap();
    msg.set_flags(1);
    let mut buf = Vec::new();
    msg.encode(&mut buf);
    let ab = [doc_bytes(&a), doc_bytes(&b)].concat();
    assert_eq!(buf.len(), 21 + 4 + ab.len());
    assert_eq!(le32_at(&buf, 0) as usize, buf.len());
    assert_eq!(le32_at(&buf, 12), 2002);
    assert_eq!(le32_at(&buf, 16), 1);
    assert_eq!(&buf[25..], &ab[..]);
}

#[test]
fn update_layout() {
    let mut sel = Document::new();
    sel.insert("x", 1i32);
    let mut ops = Document::new();
    ops.insert("y", 2i32);
    let mut msg = OpUpdate::new("db.c", &sel, &ops).unwrap();
    msg.set_flags(2);
    let mut buf = Vec::new();
    msg.encode(&mut buf);
    let sb = doc_bytes(&sel);
    let ob = doc_bytes(&ops);
    assert_eq!(buf.len(), 25 + 4 + sb.len() + ob.len());
    assert_eq!(msg.len() as usize, buf.len());
    assert_eq!(le32_at(&buf, 12), 2001);
    assert_eq!(le32_at(&buf, 16), 0);
    assert_eq!(&buf[20..25], b"db.c\0");
    assert_eq!(le32_at(&buf, 25), 2);
    assert_eq!(&buf[29..29 + sb.len()], &sb[..]);
    assert_eq!(&buf[29 + sb.len()..], &ob[..]);
}

#[test]
fn delete_layout() {
    let sel = Document::new();
    let mut msg = OpDelete::new("db.c", &sel).unwrap();
    let mut buf = Vec::new();
    msg.encode(&mut buf);
    assert_eq!(buf.len(), 25 + 4 + 5);
    assert_eq!(le32_at(&buf, 0), 34);
    assert_eq!(le32_at(&buf, 12), 2006);
    assert_eq!(&buf[20..25], b"db.c\0");
}

#[test]
fn get_more_layout() {
    let mut msg = OpGetMore::new("db.c", 77, 10).unwrap();
    let mut buf = Vec::new();
    msg.encode(&mut buf);
    assert_eq!(buf.len(), 33 + 4);
    assert_eq!(le32_at(&buf, 0), 37);
    assert_eq!(le32_at(&buf, 12), 2005);
    assert_eq!(le32_at(&buf, 25), 10);
    assert_eq!(&buf[29..37], &77i64.to_le_bytes());
}

#[test]
fn every_frame_states_its_own_length() {
    let empty = Document::new();
    let mut bufs: Vec<Vec<u8>> = Vec::new();
    let mut b = Vec::new();
    OpQuery::new("d.c", &empty, Some(&empty)).unwrap().encode(&mut b);
    bufs.push(b);
    let mut b = Vec::new();
    OpInsert::new("d.c", &vec![&empty]).unwrap().encode(&mut b);
    bufs.push(b);
    let mut b = Vec::new();
    OpUpdate::new("d.c", &empty, &empty).unwrap().encode(&mut b);
    bufs.push(b);
    let mut b = Vec::new();
    OpDelete::new("d.c", &empty).unwrap().encode(&mut b);
    bufs.push(b);
    let mut b = Vec::new();
    OpGetMore::new("d.c", 1, 2).unwrap().encode(&mut b);
    bufs.push(b);
    let mut b = Vec::new();
    OpKillCursors::new(vec![1, 2, 3]).encode(&mut b);
    bufs.push(b);
    for b in bufs {
        let mut h = MsgHeader::decode(&b).unwrap();
        assert_eq!(le32_at(&b, 0) as usize, b.len());
        h.set_id(5);
        assert_eq!(h.get_id(), 5);
    }
}

#[test]
fn opcodes_round_trip() {
    let all = [
        OpCode::OP_REPLY,
        OpCode::OP_UPDATE,
        OpCode::OP_INSERT,
        OpCode::RESERVED,
        OpCode::OP_QUERY,
        OpCode::OP_GET_MORE,
        OpCode::OP_DELETE,
        OpCode::OP_KILL_CURSORS,
    ];
    let codes = [1, 2001, 2002, 2003, 2004, 2005, 2006, 2007];
    for (op, code) in all.iter().zip(codes.iter()) {
        assert_eq!(op.to_i32(), *code);
        assert_eq!(OpCode::from_i32(*code), *op);
    }
    assert_eq!(OpCode::from_i32(2010), OpCode::Unknown(2010));
    assert_eq!(OpCode::Unknown(2010).to_i32(), 2010);
}

#[test]
fn header_round_trip() {
    let mut h = MsgHeader::new(OpCode::OP_QUERY);
    h.set_len(99);
    h.set_id(7);
    let mut buf = Vec::new();
    h.write_to(&mut buf);
    assert_eq!(buf.len(), 16);
    let mut back = MsgHeader::decode(&buf).unwrap();
    assert_eq!(back.get_id(), 7);
    let mut again = Vec::new();
    back.write_to(&mut again);
    assert_eq!(again, buf);
    assert!(matches!(MsgHeader::decode(&buf[..15]), Err(DecodeError::ShortRead)));
}

#[test]
fn reply_with_no_documents() {
    let b = reply_bytes(0, 5, &[]);
    let (reply, end) = OpReply::decode(&b).unwrap();
    assert_eq!(reply.docs.len(), 0);
    assert_eq!(reply.docs().len(), 0);
    assert_eq!(reply.cursor_id(), 5);
    assert_eq!(end, 36);
    assert!(first_document(reply).is_none());
}

#[test]
fn reply_missing_a_declared_document_fails() {
    let one = doc_bytes(&Document::new());
    let b = reply_bytes(2, 0, &one);
    assert!(OpReply::decode(&b).is_err());
    assert!(matches!(OpReply::decode(&b), Err(DecodeError::ImplausibleCount)));
    let mut tail = one.clone();
    tail.extend_from_slice(&[1, 0, 0, 0, 0]);
    let b = reply_bytes(2, 0, &tail);
    assert!(matches!(OpReply::decode(&b), Err(DecodeError::Document(_))));
}

#[test]
fn reply_reads_exactly_the_declared_documents() {
    let mut a = Document::new();
    a.insert("n", 3i32);
    let mut b = Document::new();
    b.insert("s", "t");
    let mut docs = [doc_bytes(&a), doc_bytes(&b)].concat();
    let consumed = 36 + docs.len();
    docs.extend_from_slice(&[9, 9, 9]);
    let bytes = reply_bytes(2, 0, &docs);
    let (reply, end) = OpReply::decode(&bytes).unwrap();
    assert_eq!(end, consumed);
    assert_eq!(reply.docs.len(), 2);
    assert_eq!(reply.docs[1], b);
    let (one, end1) = OpReply::decode(&reply_bytes(1, 0, &docs)).unwrap();
    assert_eq!(end1, 36 + doc_bytes(&a).len());
    assert_eq!(first_document(one), Some(a.clone()));
    assert_eq!(count_of(reply), Some(3));
}

#[test]
fn reply_errors() {
    assert!(matches!(OpReply::decode(&[0u8; 35]), Err(DecodeError::ShortRead)));
    let neg = reply_bytes(-1, 0, &[]);
    assert!(matches!(OpReply::decode(&neg), Err(DecodeError::NegativeCount)));
    let mut wrong = reply_bytes(0, 0, &[]);
    wrong[12..16].copy_from_slice(&2004i32.to_le_bytes());
    assert!(matches!(OpReply::decode(&wrong), Err(DecodeError::UnexpectedOpcode(2004))));
}

#[test]
fn collection_builds_requests_for_its_namespace() {
    let client = Client::new_with(3u8);
    assert_eq!(client.connection, 3);
    let coll = client.db("db_name").coll("collection_name");
    let mut doc = Document::new();
    doc.insert("foo", "bar");
    let mut buf = Vec::new();
    coll.insert(&mut doc).unwrap().encode(&mut buf);
    assert_eq!(&buf[20..44], b"db_name.collection_name\0");
    let mut buf = Vec::new();
    coll.find_one(&doc).unwrap().encode(&mut buf);
    assert_eq!(le32_at(&buf, 12), 2004);
    assert_eq!(le32_at(&buf, 48), 1);
    let mut buf = Vec::new();
    coll.count().unwrap().encode(&mut buf);
    let mut expected = Document::new();
    expected.insert("count", "collection_name");
    assert_eq!(&buf[52..], &doc_bytes(&expected)[..]);
    let mut buf = Vec::new();
    coll.find_and_modify(Bson::Int32(1), Bson::Int32(2)).unwrap().encode(&mut buf);
    assert_eq!(le32_at(&buf, 0) as usize, buf.len());
    let mut buf = Vec::new();
    coll.insert_bulk(&vec![&doc, &doc]).unwrap().encode(&mut buf);
    assert_eq!(buf.len(), 21 + 23 + 2 * doc_bytes(&doc).len());
    let mut buf = Vec::new();
    coll.command(&doc).unwrap().encode(&mut buf);
    assert_eq!(le32_at(&buf, 0) as usize, buf.len());
}

#[test]
fn find_and_modify_sends_the_command_document_in_key_order() {
    let coll = Client::new_with(()).db("d").coll("c");
    let mut buf = Vec::new();
    coll.find_and_modify(Bson::Int32(1), Bson::String("u".to_string()))
        .unwrap()
        .encode(&mut buf);
    let mut expected = Document::new();
    expected.insert("findAndModify", "c");
    expected.insert("query", Bson::Int32(1));
    expected.insert("update", Bson::String("u".to_string()));
    assert_eq!(&buf[20..24], b"d.c\0");
    assert_eq!(le32_at(&buf, 24), 0);
    assert_eq!(le32_at(&buf, 28), 1);
    assert_eq!(&buf[32..], &doc_bytes(&expected)[..]);
}

#[test]
fn count_of_needs_an_integer_n() {
    let mut d = Document::new();
    d.insert("n", "three");
    let b = reply_bytes(1, 0, &doc_bytes(&d));
    let (reply, _) = OpReply::decode(&b).unwrap();
    assert_eq!(count_of(reply), None);
    let (empty, _) = OpReply::decode(&reply_bytes(0, 0, &[])).unwrap();
    assert_eq!(count_of(empty), None);
}

#[test]
fn reply_documents_come_back_in_order() {
    let mut a = Document::new();
    a.insert("i", 0i32);
    let mut b = Document::new();
    b.insert("i", 1i32);
    let mut c = Document::new();
    c.insert("i", 2i32);
    let docs = [doc_bytes(&a), doc_bytes(&b), doc_bytes(&c)].concat();
    let (reply, end) = OpReply::decode(&reply_bytes(3, 0, &docs)).unwrap();
    assert_eq!(end, 36 + docs.len());
    assert_eq!(reply.into_docs(), vec![a, b, c]);
}
