//! Protocol frames: operation codes, the common header, the outbound messages
//! and the reply decoder.

use vstd::prelude::*;
use vstd::utf8::encode_utf8;
use bson::Document;
use crate::doc::{
    doc_encoding, doc_read, docs_encoding, encode_document, lemma_docs_encoding_refused,
    opt_encoding, read_document,
};
use crate::wire::{
    add_len, append_bytes, contains_nul, has_nul, le32, le64, lemma_le32_injective, push_i32,
    push_i64, read_i32_at, read_i64_at, MAX_FRAME,
};

verus! {

/// The kind of a protocol frame, with its integer wire value.
#[allow(non_camel_case_types)]
#[derive(Clone, Copy, Debug, PartialEq, Eq, Structural)]
pub enum OpCode {
    OP_REPLY,
    OP_UPDATE,
    OP_INSERT,
    RESERVED,
    OP_QUERY,
    OP_GET_MORE,
    OP_DELETE,
    OP_KILL_CURSORS,
    /// A code this codec does not model, kept as read.
    Unknown(i32),
}

/// The wire value of an operation code.
pub open spec fn code_of(op: OpCode) -> i32 {
    match op {
        OpCode::OP_REPLY => 1,
        OpCode::OP_UPDATE => 2001,
        OpCode::OP_INSERT => 2002,
        OpCode::RESERVED => 2003,
        OpCode::OP_QUERY => 2004,
        OpCode::OP_GET_MORE => 2005,
        OpCode::OP_DELETE => 2006,
        OpCode::OP_KILL_CURSORS => 2007,
        OpCode::Unknown(n) => n,
    }
}

/// The operation code a wire value stands for.
pub open spec fn op_of(n: i32) -> OpCode {
    if n == 1 {
        OpCode::OP_REPLY
    } else if n == 2001 {
        OpCode::OP_UPDATE
    } else if n == 2002 {
        OpCode::OP_INSERT
    } else if n == 2003 {
        OpCode::RESERVED
    } else if n == 2004 {
        OpCode::OP_QUERY
    } else if n == 2005 {
        OpCode::OP_GET_MORE
    } else if n == 2006 {
        OpCode::OP_DELETE
    } else if n == 2007 {
        OpCode::OP_KILL_CURSORS
    } else {
        OpCode::Unknown(n)
    }
}

impl OpCode {
    pub fn from_i32(n: i32) -> (r: OpCode)
        ensures
            r == op_of(n),
    {
        match n {
            1 => OpCode::OP_REPLY,
            2001 => OpCode::OP_UPDATE,
            2002 => OpCode::OP_INSERT,
            2003 => OpCode::RESERVED,
            2004 => OpCode::OP_QUERY,
            2005 => OpCode::OP_GET_MORE,
            2006 => OpCode::OP_DELETE,
            2007 => OpCode::OP_KILL_CURSORS,
            _ => OpCode::Unknown(n),
        }
    }

    pub fn to_i32(&self) -> (r: i32)
        ensures
            r == code_of(*self),
    {
        match self {
            OpCode::OP_REPLY => 1,
            OpCode::OP_UPDATE => 2001,
            OpCode::OP_INSERT => 2002,
            OpCode::RESERVED => 2003,
            OpCode::OP_QUERY => 2004,
            OpCode::OP_GET_MORE => 2005,
            OpCode::OP_DELETE => 2006,
            OpCode::OP_KILL_CURSORS => 2007,
            OpCode::Unknown(n) => *n,
        }
    }
}

/// Every named operation code comes back as itself from its wire value, and a
/// wire value read into a code gives the same wire value back.
pub proof fn law_opcode_round_trip(op: OpCode, n: i32)
    ensures
        !(op is Unknown) ==> op_of(code_of(op)) == op,
        code_of(op_of(n)) == n,
{
}

/// The 16-byte preamble of every frame.
#[derive(Clone, Copy, Debug)]
pub struct MsgHeader {
    len: i32,
    id: i32,
    resp_to: i32,
    opcode: OpCode,
}

/// The four header fields in wire order.
pub open spec fn header_bytes(h: MsgHeader) -> Seq<u8> {
    le32(h.spec_len()) + le32(h.spec_id()) + le32(h.spec_resp_to()) + le32(code_of(h.spec_opcode()))
}

pub proof fn lemma_header_bytes(h: MsgHeader)
    ensures
        header_bytes(h).len() == 16,
        header_bytes(h).subrange(0, 4) == le32(h.spec_len()),
{
    assert(header_bytes(h).subrange(0, 4) =~= le32(h.spec_len()));
}

/// A failure to read a frame.
#[derive(Debug)]
pub enum DecodeError {
    /// The bytes end before the frame's fixed fields do.
    ShortRead,
    /// The header names another operation than the one being read.
    UnexpectedOpcode(i32),
    /// The reply declares a negative number of documents.
    NegativeCount,
    /// The reply declares more documents than the remaining bytes can hold.
    ImplausibleCount,
    /// A document of the reply could not be decoded.
    Document(bson::de::Error),
}

impl MsgHeader {
    pub closed spec fn spec_len(&self) -> i32 {
        self.len
    }

    pub closed spec fn spec_id(&self) -> i32 {
        self.id
    }

    pub closed spec fn spec_resp_to(&self) -> i32 {
        self.resp_to
    }

    pub closed spec fn spec_opcode(&self) -> OpCode {
        self.opcode
    }

    pub fn new(opcode: OpCode) -> (r: MsgHeader)
        ensures
            r.spec_len() == 0,
            r.spec_id() == 0,
            r.spec_resp_to() == 0,
            r.spec_opcode() == opcode,
    {
        MsgHeader { len: 0, id: 0, resp_to: 0, opcode }
    }

    /// Appends the header's four fields to `buf`.
    pub fn write_to(&self, buf: &mut Vec<u8>)
        ensures
            final(buf)@ == old(buf)@ + header_bytes(*self),
    {
        push_i32(buf, self.len);
        push_i32(buf, self.id);
        push_i32(buf, self.resp_to);
        push_i32(buf, self.opcode.to_i32());
        assert(final(buf)@ =~= old(buf)@ + header_bytes(*self));
    }

    pub fn set_id(&mut self, id: i32)
        ensures
            final(self).spec_id() == id,
            final(self).spec_len() == old(self).spec_len(),
            final(self).spec_resp_to() == old(self).spec_resp_to(),
            final(self).spec_opcode() == old(self).spec_opcode(),
    {
        self.id = id;
    }

    pub fn get_id(&mut self) -> (r: i32)
        ensures
            r == old(self).spec_id(),
            *final(self) == *old(self),
    {
        self.id
    }

    pub fn set_len(&mut self, val: i32)
        ensures
            final(self).spec_len() == val,
            final(self).spec_id() == old(self).spec_id(),
            final(self).spec_resp_to() == old(self).spec_resp_to(),
            final(self).spec_opcode() == old(self).spec_opcode(),
    {
        self.len = val;
    }

    /// Reads a header from the start of `b`.
    pub fn decode(b: &[u8]) -> (r: Result<MsgHeader, DecodeError>)
        ensures
            r is Ok <==> b@.len() >= 16,
            r matches Ok(h) ==> header_bytes(h) == b@.subrange(0, 16),
            r matches Ok(h) ==> forall|n: i32|
                #[trigger] le32(n) == b@.subrange(12, 16) ==> h.spec_opcode() == op_of(n),
    {
        if b.len() < 16 {
            return Err(DecodeError::ShortRead);
        }
        let len = read_i32_at(b, 0);
        let id = read_i32_at(b, 4);
        let resp_to = read_i32_at(b, 8);
        let code = read_i32_at(b, 12);
        let h = MsgHeader { len, id, resp_to, opcode: OpCode::from_i32(code) };
        assert forall|n: i32| #[trigger] le32(n) == b@.subrange(12, 16) implies h.opcode == op_of(
            n,
        ) by {
            lemma_le32_injective(n, code);
        }
        assert(b@.subrange(0, 16) =~= b@.subrange(0, 4) + b@.subrange(4, 8) + b@.subrange(8, 12)
            + b@.subrange(12, 16));
        Ok(h)
    }
}

/// A failure to build an outbound message.
#[derive(Debug)]
pub enum BuildError {
    /// The namespace holds a zero byte.
    NulInNamespace,
    /// The frame would be longer than its 32-bit length field can say.
    TooLarge,
    /// The document codec refused a document.
    Document(bson::ser::Error),
}

/// A header as a fresh message carries it: its length, zero ids and its code.
pub open spec fn fresh_header(len: nat, op: OpCode) -> Seq<u8> {
    le32(len as i32) + le32(0) + le32(0) + le32(code_of(op))
}

/// A frame whose body opens with one integer field and the zero-terminated
/// namespace.
pub open spec fn ns_frame(header: Seq<u8>, lead: i32, ns: Seq<u8>, tail: Seq<u8>) -> Seq<u8> {
    header + le32(lead) + ns + seq![0u8] + tail
}

pub proof fn lemma_ns_frame(header: Seq<u8>, lead: i32, ns: Seq<u8>, tail: Seq<u8>)
    requires
        header.len() == 16,
    ensures
        ns_frame(header, lead, ns, tail).len() == 21 + ns.len() + tail.len(),
        ns_frame(header, lead, ns, tail).subrange(0, 4) == header.subrange(0, 4),
        ns_frame(header, lead, ns, tail).subrange(20, (20 + ns.len()) as int) == ns,
        ns_frame(header, lead, ns, tail)[(20 + ns.len()) as int] == 0u8,
{
    let f = ns_frame(header, lead, ns, tail);
    assert(f.subrange(0, 4) =~= header.subrange(0, 4));
    assert(f.subrange(20, (20 + ns.len()) as int) =~= ns);
}

/// A fresh query frame on namespace `ns` over the encoded query `q` and field
/// selector `sel`.
pub open spec fn query_frame(ns: Seq<u8>, nskip: i32, nret: i32, q: Seq<u8>, sel: Seq<u8>) -> Seq<
    u8,
> {
    ns_frame(
        fresh_header(29 + ns.len() + q.len() + sel.len(), OpCode::OP_QUERY),
        0,
        ns,
        le32(nskip) + le32(nret) + q + sel,
    )
}

pub proof fn lemma_query_nret(ns: Seq<u8>, nskip: i32, nret: i32, nret2: i32, q: Seq<u8>, sel: Seq<
    u8,
>)
    ensures
        splice4(query_frame(ns, nskip, nret, q, sel), 25 + ns.len(), le32(nret2)) == query_frame(
            ns,
            nskip,
            nret2,
            q,
            sel,
        ),
{
    assert(splice4(query_frame(ns, nskip, nret, q, sel), 25 + ns.len(), le32(nret2))
        =~= query_frame(ns, nskip, nret2, q, sel));
}

/// A fresh insert frame on namespace `ns` over the encoded documents `docs`.
pub open spec fn insert_frame(ns: Seq<u8>, docs: Seq<u8>) -> Seq<u8> {
    ns_frame(fresh_header(21 + ns.len() + docs.len(), OpCode::OP_INSERT), 0, ns, docs)
}

/// A fresh update frame on namespace `ns` over the encoded selector and update.
pub open spec fn update_frame(ns: Seq<u8>, sel: Seq<u8>, ops: Seq<u8>) -> Seq<u8> {
    ns_frame(
        fresh_header(25 + ns.len() + sel.len() + ops.len(), OpCode::OP_UPDATE),
        0,
        ns,
        le32(0) + sel + ops,
    )
}

/// A fresh delete frame on namespace `ns` over the encoded selector.
pub open spec fn delete_frame(ns: Seq<u8>, sel: Seq<u8>) -> Seq<u8> {
    ns_frame(fresh_header(25 + ns.len() + sel.len(), OpCode::OP_DELETE), 0, ns, le32(0) + sel)
}

/// The bytes of an optional payload: none where it is absent.
pub open spec fn opt_bytes(o: Option<Vec<u8>>) -> Seq<u8> {
    match o {
        Some(v) => v@,
        None => Seq::empty(),
    }
}

/// The cursor ids of a kill-cursors frame, eight little-endian bytes each.
pub open spec fn ids_bytes(s: Seq<i64>) -> Seq<u8>
    decreases s.len(),
{
    if s.len() == 0 {
        Seq::empty()
    } else {
        ids_bytes(s.drop_last()) + le64(s.last())
    }
}

pub proof fn lemma_ids_bytes_len(s: Seq<i64>)
    ensures
        ids_bytes(s).len() == 8 * s.len(),
    decreases s.len(),
{
    if s.len() > 0 {
        lemma_ids_bytes_len(s.drop_last());
    }
}

/// An outbound frame: it knows its exact length before it is written, and
/// appends its bytes to a buffer.
pub trait Message: Sized {
    /// The message is consistent: its header carries its length and its code.
    spec fn wf(&self) -> bool;

    /// The bytes of the whole frame, header included.
    spec fn wire(&self) -> Seq<u8>;

    /// The namespace bytes, for the kinds that carry one.
    spec fn namespace(&self) -> Option<Seq<u8>>;

    /// Each frame states its length first, fits the length field, and carries
    /// its namespace right after the first body field, ended by one zero byte.
    proof fn lemma_frame(&self)
        requires
            self.wf(),
        ensures
            16 <= self.wire().len() <= MAX_FRAME,
            self.wire().subrange(0, 4) == le32(self.wire().len() as i32),
            self.namespace() matches Some(ns) ==> {
                &&& !has_nul(ns)
                &&& 20 + ns.len() < self.wire().len()
                &&& self.wire().subrange(20, (20 + ns.len()) as int) == ns
                &&& self.wire()[(20 + ns.len()) as int] == 0u8
            },
    ;

    /// The total length of the frame, computed from its fields.
    fn len(&self) -> (r: i32)
        requires
            self.wf(),
        ensures
            r as int == self.wire().len(),
    ;

    /// Fixes the header's length and appends the frame to `buf`.
    fn encode(&mut self, buf: &mut Vec<u8>)
        requires
            old(self).wf(),
        ensures
            *final(self) == *old(self),
            final(buf)@ == old(buf)@ + old(self).wire(),
    ;
}

/// The namespace's bytes, refused where they hold a zero byte.
fn namespace_bytes(name_space: &str) -> (r: Result<Vec<u8>, BuildError>)
    ensures
        r is Ok <==> !has_nul(encode_utf8(name_space@)),
        r matches Err(e) ==> e is NulInNamespace,
        r matches Ok(v) ==> v@ == encode_utf8(name_space@),
{
    let mut v: Vec<u8> = Vec::new();
    append_bytes(&mut v, name_space.as_bytes());
    if contains_nul(v.as_slice()) {
        Err(BuildError::NulInNamespace)
    } else {
        Ok(v)
    }
}

/// A request to close server-side cursors.
pub struct OpKillCursors {
    header: MsgHeader,
    reserved_bits: i32,
    ncursor_ids: i32,
    cursor_ids: Vec<i64>,
}

/// The largest number of cursor ids one frame can carry.
pub const MAX_CURSOR_IDS: usize = 268_435_452;

impl OpKillCursors {
    pub fn new(cursor_ids: Vec<i64>) -> (r: OpKillCursors)
        requires
            cursor_ids@.len() <= MAX_CURSOR_IDS,
        ensures
            r.wf(),
            r.wire() == fresh_header(24 + 8 * cursor_ids@.len(), OpCode::OP_KILL_CURSORS) + le32(0)
                + le32(cursor_ids@.len() as i32) + ids_bytes(cursor_ids@),
    {
        proof {
            lemma_ids_bytes_len(cursor_ids@);
        }
        let len = 24 + 8 * cursor_ids.len();
        let mut msg = OpKillCursors {
            header: MsgHeader::new(OpCode::OP_KILL_CURSORS),
            reserved_bits: 0,
            ncursor_ids: cursor_ids.len() as i32,
            cursor_ids,
        };
        msg.header.set_len(len as i32);
        msg
    }

    pub fn set_reserved_bits(&mut self, reserved_bits: i32)
        requires
            old(self).wf(),
        ensures
            final(self).wf(),
            final(self).wire().len() == old(self).wire().len(),
            final(self).wire() == old(self).wire().subrange(0, 16) + le32(reserved_bits) + old(
                self,
            ).wire().subrange(20, old(self).wire().len() as int),
    {
        self.reserved_bits = reserved_bits;
        proof {
            lemma_ids_bytes_len(self.cursor_ids@);
        }
        assert(final(self).wire() =~= old(self).wire().subrange(0, 16) + le32(reserved_bits) + old(
            self,
        ).wire().subrange(20, old(self).wire().len() as int));
    }
}

impl Message for OpKillCursors {
    closed spec fn wf(&self) -> bool {
        &&& self.header.opcode == OpCode::OP_KILL_CURSORS
        &&& self.ncursor_ids as int == self.cursor_ids@.len()
        &&& self.cursor_ids@.len() <= MAX_CURSOR_IDS
        &&& self.header.len as int == 24 + 8 * self.cursor_ids@.len()
    }

    closed spec fn wire(&self) -> Seq<u8> {
        header_bytes(self.header) + le32(self.reserved_bits) + le32(self.ncursor_ids) + ids_bytes(
            self.cursor_ids@,
        )
    }

    closed spec fn namespace(&self) -> Option<Seq<u8>> {
        None
    }

    proof fn lemma_frame(&self) {
        lemma_ids_bytes_len(self.cursor_ids@);
        lemma_header_bytes(self.header);
        assert(self.wire().subrange(0, 4) =~= le32(self.header.len));
    }

    fn len(&self) -> (r: i32) {
        proof {
            lemma_ids_bytes_len(self.cursor_ids@);
            lemma_header_bytes(self.header);
        }
        (24 + 8 * self.cursor_ids.len()) as i32
    }

    fn encode(&mut self, buf: &mut Vec<u8>) {
        proof {
            lemma_ids_bytes_len(self.cursor_ids@);
            lemma_header_bytes(self.header);
        }
        let n = self.len();
        self.header.set_len(n);
        assert(self.header == old(self).header);
        self.header.write_to(buf);
        push_i32(buf, self.reserved_bits);
        push_i32(buf, self.ncursor_ids);
        let ghost mid = buf@;
        let mut i: usize = 0;
        while i < self.cursor_ids.len()
            invariant
                i <= self.cursor_ids@.len(),
                buf@ == mid + ids_bytes(self.cursor_ids@.subrange(0, i as int)),
            decreases self.cursor_ids@.len() - i,
        {
            push_i64(buf, self.cursor_ids[i]);
            i = i + 1;
            assert(self.cursor_ids@.subrange(0, i as int).drop_last() =~= self.cursor_ids@.subrange(
                0,
                i - 1,
            ));
        }
        assert(self.cursor_ids@.subrange(0, i as int) =~= self.cursor_ids@);
        assert(buf@ =~= old(buf)@ + old(self).wire());
    }
}

/// `w` with the four bytes at `at` replaced by `b`.
pub open spec fn splice4(w: Seq<u8>, at: nat, b: Seq<u8>) -> Seq<u8> {
    w.subrange(0, at as int) + b + w.subrange(at + 4int, w.len() as int)
}

/// A query, answered by one reply.
pub struct OpQuery {
    header: MsgHeader,
    flags: i32,
    name_space: Vec<u8>,
    nskip: i32,
    nret: i32,
    query: Vec<u8>,
    ret_field_selector: Option<Vec<u8>>,
}

impl OpQuery {
    /// A query over already encoded documents, skipping and returning nothing
    /// by default.
    pub fn from_encoded(name_space: &str, query: Vec<u8>, ret_field_selector: Option<Vec<u8>>) -> (r:
        Result<OpQuery, BuildError>)
        ensures
            r matches Err(BuildError::NulInNamespace) <==> has_nul(encode_utf8(name_space@)),
            r matches Err(BuildError::TooLarge) <==> !has_nul(encode_utf8(name_space@)) && 29 + encode_utf8(
                name_space@,
            ).len() + query@.len() + opt_bytes(ret_field_selector).len() > MAX_FRAME,
            !(r matches Err(BuildError::Document(_))),
            r matches Ok(m) ==> {
                &&& m.wf()
                &&& m.namespace() == Some(encode_utf8(name_space@))
                &&& m.wire() == ns_frame(
                    fresh_header(
                        29 + encode_utf8(name_space@).len() + query@.len() + opt_bytes(
                            ret_field_selector,
                        ).len(),
                        OpCode::OP_QUERY,
                    ),
                    0,
                    encode_utf8(name_space@),
                    le32(0) + le32(0) + query@ + opt_bytes(ret_field_selector),
                )
            },
    {
        let ns = match namespace_bytes(name_space) {
            Ok(v) => v,
            Err(e) => return Err(e),
        };
        let sel_len: usize = match &ret_field_selector {
            Some(v) => v.len(),
            None => 0,
        };
        let total = match add_len(29, ns.len()) {
            Some(t) => t,
            None => return Err(BuildError::TooLarge),
        };
        let total = match add_len(total, query.len()) {
            Some(t) => t,
            None => return Err(BuildError::TooLarge),
        };
        let total = match add_len(total, sel_len) {
            Some(t) => t,
            None => return Err(BuildError::TooLarge),
        };
        let mut header = MsgHeader::new(OpCode::OP_QUERY);
        header.set_len(total as i32);
        let msg = OpQuery {
            header,
            flags: 0,
            name_space: ns,
            nskip: 0,
            nret: 0,
            query,
            ret_field_selector,
        };
        proof {
            lemma_ns_frame(header_bytes(msg.header), msg.flags, msg.name_space@, msg.tail());
        }
        Ok(msg)
    }

    /// A query for `query`, with an optional selector of the returned fields.
    pub fn new(name_space: &str, query: &Document, ret_field_selector: Option<&Document>) -> (r:
        Result<OpQuery, BuildError>)
        ensures
            r matches Err(BuildError::NulInNamespace) <==> has_nul(encode_utf8(name_space@)),
            r matches Err(BuildError::Document(_)) <==> !has_nul(encode_utf8(name_space@)) && (
            doc_encoding(*query) is None || opt_encoding(ret_field_selector) is None),
            r matches Err(BuildError::TooLarge) <==> !has_nul(encode_utf8(name_space@))
                && doc_encoding(*query) is Some && opt_encoding(ret_field_selector) is Some && 29
                + encode_utf8(name_space@).len() + doc_encoding(*query)->Some_0.len() + opt_encoding(
                ret_field_selector,
            )->Some_0.len() > MAX_FRAME,
            r matches Ok(m) ==> {
                &&& m.wf()
                &&& m.namespace() == Some(encode_utf8(name_space@))
                &&& doc_encoding(*query) is Some
                &&& opt_encoding(ret_field_selector) is Some
                &&& m.wire() == query_frame(
                    encode_utf8(name_space@),
                    0,
                    0,
                    doc_encoding(*query)->Some_0,
                    opt_encoding(ret_field_selector)->Some_0,
                )
            },
    {
        if let Err(e) = namespace_bytes(name_space) {
            return Err(e);
        }
        let q = match encode_document(query) {
            Ok(v) => v,
            Err(e) => return Err(BuildError::Document(e)),
        };
        let sel = match ret_field_selector {
            Some(d) => match encode_document(d) {
                Ok(v) => Some(v),
                Err(e) => return Err(BuildError::Document(e)),
            },
            None => None,
        };
        assert(opt_encoding(ret_field_selector) == Some(opt_bytes(sel)));
        OpQuery::from_encoded(name_space, q, sel)
    }

    closed spec fn tail(&self) -> Seq<u8> {
        le32(self.nskip) + le32(self.nret) + self.query@ + opt_bytes(self.ret_field_selector)
    }

    pub fn set_flags(&mut self, flags: i32)
        requires
            old(self).wf(),
        ensures
            final(self).wf(),
            final(self).namespace() == old(self).namespace(),
            final(self).wire().len() == old(self).wire().len(),
            final(self).wire() == splice4(old(self).wire(), 16, le32(flags)),
    {
        proof {
            lemma_ns_frame(header_bytes(self.header), self.flags, self.name_space@, self.tail());
        }
        self.flags = flags;
        proof {
            lemma_ns_frame(header_bytes(self.header), self.flags, self.name_space@, self.tail());
        }
        assert(self.wire() =~= splice4(old(self).wire(), 16, le32(flags)));
    }

    /// Sets how many matching documents the server skips.
    pub fn set_nskip(&mut self, nskip: i32)
        requires
            old(self).wf(),
        ensures
            final(self).wf(),
            final(self).namespace() == old(self).namespace(),
            final(self).wire().len() == old(self).wire().len(),
            final(self).wire() == splice4(
                old(self).wire(),
                21 + old(self).namespace()->Some_0.len(),
                le32(nskip),
            ),
    {
        proof {
            lemma_ns_frame(header_bytes(self.header), self.flags, self.name_space@, self.tail());
        }
        self.nskip = nskip;
        proof {
            lemma_ns_frame(header_bytes(self.header), self.flags, self.name_space@, self.tail());
        }
        assert(self.wire() =~= splice4(old(self).wire(), 21 + self.name_space@.len(), le32(nskip)));
    }

    /// Sets how many documents the reply may hold.
    pub fn set_nret(&mut self, nret: i32)
        requires
            old(self).wf(),
        ensures
            final(self).wf(),
            final(self).namespace() == old(self).namespace(),
            final(self).wire().len() == old(self).wire().len(),
            final(self).wire() == splice4(
                old(self).wire(),
                25 + old(self).namespace()->Some_0.len(),
                le32(nret),
            ),
            final(self).wire().subrange(
                25 + old(self).namespace()->Some_0.len() as int,
                29 + old(self).namespace()->Some_0.len() as int,
            ) == le32(nret),
    {
        proof {
            lemma_ns_frame(header_bytes(self.header), self.flags, self.name_space@, self.tail());
        }
        self.nret = nret;
        proof {
            lemma_ns_frame(header_bytes(self.header), self.flags, self.name_space@, self.tail());
        }
        assert(self.wire() =~= splice4(old(self).wire(), 25 + self.name_space@.len(), le32(nret)));
        assert(self.wire().subrange(25 + self.name_space@.len() as int, 29 + self.name_space@.len() as int)
            =~= le32(nret));
    }
}

impl Message for OpQuery {
    closed spec fn wf(&self) -> bool {
        &&& self.header.opcode == OpCode::OP_QUERY
        &&& self.header.len as int == self.wire().len()
        &&& self.wire().len() <= MAX_FRAME
        &&& !has_nul(self.name_space@)
    }

    closed spec fn wire(&self) -> Seq<u8> {
        ns_frame(header_bytes(self.header), self.flags, self.name_space@, self.tail())
    }

    closed spec fn namespace(&self) -> Option<Seq<u8>> {
        Some(self.name_space@)
    }

    proof fn lemma_frame(&self) {
        lemma_header_bytes(self.header);
        lemma_ns_frame(header_bytes(self.header), self.flags, self.name_space@, self.tail());
    }

    fn len(&self) -> (r: i32) {
        proof {
            lemma_header_bytes(self.header);
            lemma_ns_frame(header_bytes(self.header), self.flags, self.name_space@, self.tail());
        }
        let sel_len: usize = match &self.ret_field_selector {
            Some(v) => v.len(),
            None => 0,
        };
        (29 + self.name_space.len() + self.query.len() + sel_len) as i32
    }

    fn encode(&mut self, buf: &mut Vec<u8>) {
        proof {
            lemma_header_bytes(self.header);
            lemma_ns_frame(header_bytes(self.header), self.flags, self.name_space@, self.tail());
        }
        let n = self.len();
        self.header.set_len(n);
        assert(self.header == old(self).header);
        self.header.write_to(buf);
        push_i32(buf, self.flags);
        append_bytes(buf, self.name_space.as_slice());
        buf.push(0u8);
        push_i32(buf, self.nskip);
        push_i32(buf, self.nret);
        append_bytes(buf, self.query.as_slice());
        match &self.ret_field_selector {
            Some(v) => append_bytes(buf, v.as_slice()),
            None => {},
        }
        assert(buf@ =~= old(buf)@ + old(self).wire());
    }
}

/// A request to insert documents; the server sends no reply.
pub struct OpInsert {
    header: MsgHeader,
    flags: i32,
    name_space: Vec<u8>,
    docs: Vec<u8>,
}

impl OpInsert {
    /// An insert of already encoded documents, laid end to end.
    pub fn from_encoded(name_space: &str, docs: Vec<u8>) -> (r: Result<OpInsert, BuildError>)
        ensures
            r matches Err(BuildError::NulInNamespace) <==> has_nul(encode_utf8(name_space@)),
            r matches Err(BuildError::TooLarge) <==> !has_nul(encode_utf8(name_space@)) && 21
                + encode_utf8(name_space@).len() + docs@.len() > MAX_FRAME,
            !(r matches Err(BuildError::Document(_))),
            r matches Ok(m) ==> {
                &&& m.wf()
                &&& m.namespace() == Some(encode_utf8(name_space@))
                &&& m.wire() == ns_frame(
                    fresh_header(21 + encode_utf8(name_space@).len() + docs@.len(), OpCode::OP_INSERT),
                    0,
                    encode_utf8(name_space@),
                    docs@,
                )
            },
    {
        let ns = match namespace_bytes(name_space) {
            Ok(v) => v,
            Err(e) => return Err(e),
        };
        let total = match add_len(21, ns.len()) {
            Some(t) => t,
            None => return Err(BuildError::TooLarge),
        };
        let total = match add_len(total, docs.len()) {
            Some(t) => t,
            None => return Err(BuildError::TooLarge),
        };
        let mut header = MsgHeader::new(OpCode::OP_INSERT);
        header.set_len(total as i32);
        let msg = OpInsert { header, name_space: ns, flags: 0, docs };
        proof {
            lemma_ns_frame(header_bytes(msg.header), 0, msg.name_space@, msg.tail());
        }
        Ok(msg)
    }

    /// An insert of `docs`, encoded one after the other in one frame.
    pub fn new(name_space: &str, docs: &Vec<&Document>) -> (r: Result<OpInsert, BuildError>)
        ensures
            r matches Err(BuildError::NulInNamespace) <==> has_nul(encode_utf8(name_space@)),
            r matches Err(BuildError::Document(_)) <==> !has_nul(encode_utf8(name_space@))
                && docs_encoding(docs@) is None,
            r matches Err(BuildError::TooLarge) <==> !has_nul(encode_utf8(name_space@))
                && docs_encoding(docs@) is Some && 21 + encode_utf8(name_space@).len()
                + docs_encoding(docs@)->Some_0.len() > MAX_FRAME,
            r matches Ok(m) ==> {
                &&& m.wf()
                &&& m.namespace() == Some(encode_utf8(name_space@))
                &&& docs_encoding(docs@) is Some
                &&& m.wire() == insert_frame(encode_utf8(name_space@), docs_encoding(docs@)->Some_0)
            },
    {
        if let Err(e) = namespace_bytes(name_space) {
            return Err(e);
        }
        let mut bytes: Vec<u8> = Vec::new();
        let mut i: usize = 0;
        while i < docs.len()
            invariant
                i <= docs@.len(),
                !has_nul(encode_utf8(name_space@)),
                docs_encoding(docs@.subrange(0, i as int)) == Some(bytes@),
            decreases docs@.len() - i,
        {
            assert(docs@.subrange(0, i + 1).drop_last() =~= docs@.subrange(0, i as int));
            let d = match encode_document(docs[i]) {
                Ok(v) => v,
                Err(e) => {
                    proof {
                        lemma_docs_encoding_refused(docs@, i + 1);
                    }
                    return Err(BuildError::Document(e));
                },
            };
            append_bytes(&mut bytes, d.as_slice());
            i = i + 1;
        }
        assert(docs@.subrange(0, i as int) =~= docs@);
        OpInsert::from_encoded(name_space, bytes)
    }

    closed spec fn tail(&self) -> Seq<u8> {
        self.docs@
    }

    pub fn set_flags(&mut self, flags: i32)
        requires
            old(self).wf(),
        ensures
            final(self).wf(),
            final(self).namespace() == old(self).namespace(),
            final(self).wire().len() == old(self).wire().len(),
            final(self).wire() == splice4(old(self).wire(), 16, le32(flags)),
    {
        proof {
            lemma_ns_frame(header_bytes(self.header), self.flags, self.name_space@, self.tail());
        }
        self.flags = flags;
        proof {
            lemma_ns_frame(header_bytes(self.header), self.flags, self.name_space@, self.tail());
        }
        assert(self.wire() =~= splice4(old(self).wire(), 16, le32(flags)));
    }
}

impl Message for OpInsert {
    closed spec fn wf(&self) -> bool {
        &&& self.header.opcode == OpCode::OP_INSERT
        &&& self.header.len as int == self.wire().len()
        &&& self.wire().len() <= MAX_FRAME
        &&& !has_nul(self.name_space@)
    }

    closed spec fn wire(&self) -> Seq<u8> {
        ns_frame(header_bytes(self.header), self.flags, self.name_space@, self.tail())
    }

    closed spec fn namespace(&self) -> Option<Seq<u8>> {
        Some(self.name_space@)
    }

    proof fn lemma_frame(&self) {
        lemma_header_bytes(self.header);
        lemma_ns_frame(header_bytes(self.header), self.flags, self.name_space@, self.tail());
    }

    fn len(&self) -> (r: i32) {
        proof {
            lemma_header_bytes(self.header);
            lemma_ns_frame(header_bytes(self.header), self.flags, self.name_space@, self.tail());
        }
        (21 + self.name_space.len() + self.docs.len()) as i32
    }

    fn encode(&mut self, buf: &mut Vec<u8>) {
        proof {
            lemma_header_bytes(self.header);
            lemma_ns_frame(header_bytes(self.header), self.flags, self.name_space@, self.tail());
        }
        let n = self.len();
        self.header.set_len(n);
        assert(self.header == old(self).header);
        self.header.write_to(buf);
        push_i32(buf, self.flags);
        append_bytes(buf, self.name_space.as_slice());
        buf.push(0u8);
        append_bytes(buf, self.docs.as_slice());
        assert(buf@ =~= old(buf)@ + old(self).wire());
    }
}

/// A request to update the documents a selector matches; the server sends no
/// reply.
pub struct OpUpdate {
    header: MsgHeader,
    reserved_bits: i32,
    name_space: Vec<u8>,
    flags: i32,
    selector: Vec<u8>,
    update_ops: Vec<u8>,
}

impl OpUpdate {
    /// An update from already encoded selector and update documents.
    pub fn from_encoded(name_space: &str, selector: Vec<u8>, update_ops: Vec<u8>) -> (r: Result<OpUpdate, BuildError>)
        ensures
            r matches Err(BuildError::NulInNamespace) <==> has_nul(encode_utf8(name_space@)),
            r matches Err(BuildError::TooLarge) <==> !has_nul(encode_utf8(name_space@)) && 25
                + encode_utf8(name_space@).len() + selector@.len() + update_ops@.len() > MAX_FRAME,
            !(r matches Err(BuildError::Document(_))),
            r matches Ok(m) ==> {
                &&& m.wf()
                &&& m.namespace() == Some(encode_utf8(name_space@))
                &&& m.wire() == ns_frame(
                    fresh_header(25 + encode_utf8(name_space@).len() + selector@.len() + update_ops@.len(), OpCode::OP_UPDATE),
                    0,
                    encode_utf8(name_space@),
                    le32(0) + selector@ + update_ops@,
                )
            },
    {
        let ns = match namespace_bytes(name_space) {
            Ok(v) => v,
            Err(e) => return Err(e),
        };
        let total = match add_len(25, ns.len()) {
            Some(t) => t,
            None => return Err(BuildError::TooLarge),
        };
        let total = match add_len(total, selector.len()) {
            Some(t) => t,
            None => return Err(BuildError::TooLarge),
        };
        let total = match add_len(total, update_ops.len()) {
            Some(t) => t,
            None => return Err(BuildError::TooLarge),
        };
        let mut header = MsgHeader::new(OpCode::OP_UPDATE);
        header.set_len(total as i32);
        let msg = OpUpdate { header, name_space: ns, reserved_bits: 0, flags: 0, selector, update_ops };
        proof {
            lemma_ns_frame(header_bytes(msg.header), 0, msg.name_space@, msg.tail());
        }
        Ok(msg)
    }

    /// An update of the documents `selector` matches by `update_ops`.
    pub fn new(name_space: &str, selector: &Document, update_ops: &Document) -> (r: Result<
        OpUpdate,
        BuildError,
    >)
        ensures
            r matches Err(BuildError::NulInNamespace) <==> has_nul(encode_utf8(name_space@)),
            r matches Err(BuildError::Document(_)) <==> !has_nul(encode_utf8(name_space@)) && (
            doc_encoding(*selector) is None || doc_encoding(*update_ops) is None),
            r matches Err(BuildError::TooLarge) <==> !has_nul(encode_utf8(name_space@))
                && doc_encoding(*selector) is Some && doc_encoding(*update_ops) is Some && 25
                + encode_utf8(name_space@).len() + doc_encoding(*selector)->Some_0.len()
                + doc_encoding(*update_ops)->Some_0.len() > MAX_FRAME,
            r matches Ok(m) ==> {
                &&& m.wf()
                &&& m.namespace() == Some(encode_utf8(name_space@))
                &&& doc_encoding(*selector) is Some
                &&& doc_encoding(*update_ops) is Some
                &&& m.wire() == update_frame(
                    encode_utf8(name_space@),
                    doc_encoding(*selector)->Some_0,
                    doc_encoding(*update_ops)->Some_0,
                )
            },
    {
        if let Err(e) = namespace_bytes(name_space) {
            return Err(e);
        }
        let sel = match encode_document(selector) {
            Ok(v) => v,
            Err(e) => return Err(BuildError::Document(e)),
        };
        let ops = match encode_document(update_ops) {
            Ok(v) => v,
            Err(e) => return Err(BuildError::Document(e)),
        };
        OpUpdate::from_encoded(name_space, sel, ops)
    }

    closed spec fn tail(&self) -> Seq<u8> {
        le32(self.flags) + self.selector@ + self.update_ops@
    }

    pub fn set_flags(&mut self, flags: i32)
        requires
            old(self).wf(),
        ensures
            final(self).wf(),
            final(self).namespace() == old(self).namespace(),
            final(self).wire().len() == old(self).wire().len(),
            final(self).wire() == splice4(old(self).wire(), 21 + old(self).namespace()->Some_0.len(), le32(flags)),
    {
        proof {
            lemma_ns_frame(header_bytes(self.header), self.reserved_bits, self.name_space@, self.tail());
        }
        self.flags = flags;
        proof {
            lemma_ns_frame(header_bytes(self.header), self.reserved_bits, self.name_space@, self.tail());
        }
        assert(self.wire() =~= splice4(old(self).wire(), 21 + self.name_space@.len(), le32(flags)));
    }
}

impl Message for OpUpdate {
    closed spec fn wf(&self) -> bool {
        &&& self.header.opcode == OpCode::OP_UPDATE
        &&& self.header.len as int == self.wire().len()
        &&& self.wire().len() <= MAX_FRAME
        &&& !has_nul(self.name_space@)
    }

    closed spec fn wire(&self) -> Seq<u8> {
        ns_frame(header_bytes(self.header), self.reserved_bits, self.name_space@, self.tail())
    }

    closed spec fn namespace(&self) -> Option<Seq<u8>> {
        Some(self.name_space@)
    }

    proof fn lemma_frame(&self) {
        lemma_header_bytes(self.header);
        lemma_ns_frame(header_bytes(self.header), self.reserved_bits, self.name_space@, self.tail());
    }

    fn len(&self) -> (r: i32) {
        proof {
            lemma_header_bytes(self.header);
            lemma_ns_frame(header_bytes(self.header), self.reserved_bits, self.name_space@, self.tail());
        }
        (25 + self.name_space.len() + self.selector.len() + self.update_ops.len()) as i32
    }

    fn encode(&mut self, buf: &mut Vec<u8>) {
        proof {
            lemma_header_bytes(self.header);
            lemma_ns_frame(header_bytes(self.header), self.reserved_bits, self.name_space@, self.tail());
        }
        let n = self.len();
        self.header.set_len(n);
        assert(self.header == old(self).header);
        self.header.write_to(buf);
        push_i32(buf, self.reserved_bits);
        append_bytes(buf, self.name_space.as_slice());
        buf.push(0u8);
        push_i32(buf, self.flags);
        append_bytes(buf, self.selector.as_slice());
        append_bytes(buf, self.update_ops.as_slice());
        assert(buf@ =~= old(buf)@ + old(self).wire());
    }
}

/// A request to delete the documents a selector matches; the server sends no
/// reply.
pub struct OpDelete {
    header: MsgHeader,
    reserved_bits: i32,
    name_space: Vec<u8>,
    flags: i32,
    selector: Vec<u8>,
}

impl OpDelete {
    /// A delete from an already encoded selector document.
    pub fn from_encoded(name_space: &str, selector: Vec<u8>) -> (r: Result<OpDelete, BuildError>)
        ensures
            r matches Err(BuildError::NulInNamespace) <==> has_nul(encode_utf8(name_space@)),
            r matches Err(BuildError::TooLarge) <==> !has_nul(encode_utf8(name_space@)) && 25
                + encode_utf8(name_space@).len() + selector@.len() > MAX_FRAME,
            !(r matches Err(BuildError::Document(_))),
            r matches Ok(m) ==> {
                &&& m.wf()
                &&& m.namespace() == Some(encode_utf8(name_space@))
                &&& m.wire() == ns_frame(
                    fresh_header(25 + encode_utf8(name_space@).len() + selector@.len(), OpCode::OP_DELETE),
                    0,
                    encode_utf8(name_space@),
                    le32(0) + selector@,
                )
            },
    {
        let ns = match namespace_bytes(name_space) {
            Ok(v) => v,
            Err(e) => return Err(e),
        };
        let total = match add_len(25, ns.len()) {
            Some(t) => t,
            None => return Err(BuildError::TooLarge),
        };
        let total = match add_len(total, selector.len()) {
            Some(t) => t,
            None => return Err(BuildError::TooLarge),
        };
        let mut header = MsgHeader::new(OpCode::OP_DELETE);
        header.set_len(total as i32);
        let msg = OpDelete { header, name_space: ns, reserved_bits: 0, flags: 0, selector };
        proof {
            lemma_ns_frame(header_bytes(msg.header), 0, msg.name_space@, msg.tail());
        }
        Ok(msg)
    }

    /// A delete of the documents `selector` matches.
    pub fn new(name_space: &str, selector: &Document) -> (r: Result<OpDelete, BuildError>)
        ensures
            r matches Err(BuildError::NulInNamespace) <==> has_nul(encode_utf8(name_space@)),
            r matches Err(BuildError::Document(_)) <==> !has_nul(encode_utf8(name_space@))
                && doc_encoding(*selector) is None,
            r matches Err(BuildError::TooLarge) <==> !has_nul(encode_utf8(name_space@))
                && doc_encoding(*selector) is Some && 25 + encode_utf8(name_space@).len()
                + doc_encoding(*selector)->Some_0.len() > MAX_FRAME,
            r matches Ok(m) ==> {
                &&& m.wf()
                &&& m.namespace() == Some(encode_utf8(name_space@))
                &&& doc_encoding(*selector) is Some
                &&& m.wire() == delete_frame(
                    encode_utf8(name_space@),
                    doc_encoding(*selector)->Some_0,
                )
            },
    {
        if let Err(e) = namespace_bytes(name_space) {
            return Err(e);
        }
        let sel = match encode_document(selector) {
            Ok(v) => v,
            Err(e) => return Err(BuildError::Document(e)),
        };
        OpDelete::from_encoded(name_space, sel)
    }

    closed spec fn tail(&self) -> Seq<u8> {
        le32(self.flags) + self.selector@
    }
}

impl Message for OpDelete {
    closed spec fn wf(&self) -> bool {
        &&& self.header.opcode == OpCode::OP_DELETE
        &&& self.header.len as int == self.wire().len()
        &&& self.wire().len() <= MAX_FRAME
        &&& !has_nul(self.name_space@)
    }

    closed spec fn wire(&self) -> Seq<u8> {
        ns_frame(header_bytes(self.header), self.reserved_bits, self.name_space@, self.tail())
    }

    closed spec fn namespace(&self) -> Option<Seq<u8>> {
        Some(self.name_space@)
    }

    proof fn lemma_frame(&self) {
        lemma_header_bytes(self.header);
        lemma_ns_frame(header_bytes(self.header), self.reserved_bits, self.name_space@, self.tail());
    }

    fn len(&self) -> (r: i32) {
        proof {
            lemma_header_bytes(self.header);
            lemma_ns_frame(header_bytes(self.header), self.reserved_bits, self.name_space@, self.tail());
        }
        (25 + self.name_space.len() + self.selector.len()) as i32
    }

    fn encode(&mut self, buf: &mut Vec<u8>) {
        proof {
            lemma_header_bytes(self.header);
            lemma_ns_frame(header_bytes(self.header), self.reserved_bits, self.name_space@, self.tail());
        }
        let n = self.len();
        self.header.set_len(n);
        assert(self.header == old(self).header);
        self.header.write_to(buf);
        push_i32(buf, self.reserved_bits);
        append_bytes(buf, self.name_space.as_slice());
        buf.push(0u8);
        push_i32(buf, self.flags);
        append_bytes(buf, self.selector.as_slice());
        assert(buf@ =~= old(buf)@ + old(self).wire());
    }
}

/// A request for the next batch of a cursor, answered by one reply.
pub struct OpGetMore {
    header: MsgHeader,
    reserved_bits: i32,
    name_space: Vec<u8>,
    nret: i32,
    cursor_id: i64,
}

impl OpGetMore {
    pub fn new(name_space: &str, cursor_id: i64, nret: i32) -> (r: Result<OpGetMore, BuildError>)
        ensures
            r matches Err(BuildError::NulInNamespace) <==> has_nul(encode_utf8(name_space@)),
            r matches Err(BuildError::TooLarge) <==> !has_nul(encode_utf8(name_space@)) && 33
                + encode_utf8(name_space@).len() > MAX_FRAME,
            !(r matches Err(BuildError::Document(_))),
            r matches Ok(m) ==> {
                &&& m.wf()
                &&& m.namespace() == Some(encode_utf8(name_space@))
                &&& m.wire() == ns_frame(
                    fresh_header(33 + encode_utf8(name_space@).len(), OpCode::OP_GET_MORE),
                    0,
                    encode_utf8(name_space@),
                    le32(nret) + le64(cursor_id),
                )
            },
    {
        let ns = match namespace_bytes(name_space) {
            Ok(v) => v,
            Err(e) => return Err(e),
        };
        let total = match add_len(33, ns.len()) {
            Some(t) => t,
            None => return Err(BuildError::TooLarge),
        };
        let mut header = MsgHeader::new(OpCode::OP_GET_MORE);
        header.set_len(total as i32);
        let msg = OpGetMore { header, reserved_bits: 0, name_space: ns, nret, cursor_id };
        proof {
            lemma_ns_frame(header_bytes(msg.header), 0, msg.name_space@, msg.tail());
        }
        Ok(msg)
    }

    closed spec fn tail(&self) -> Seq<u8> {
        le32(self.nret) + le64(self.cursor_id)
    }
}

impl Message for OpGetMore {
    closed spec fn wf(&self) -> bool {
        &&& self.header.opcode == OpCode::OP_GET_MORE
        &&& self.header.len as int == self.wire().len()
        &&& self.wire().len() <= MAX_FRAME
        &&& !has_nul(self.name_space@)
    }

    closed spec fn wire(&self) -> Seq<u8> {
        ns_frame(header_bytes(self.header), self.reserved_bits, self.name_space@, self.tail())
    }

    closed spec fn namespace(&self) -> Option<Seq<u8>> {
        Some(self.name_space@)
    }

    proof fn lemma_frame(&self) {
        lemma_header_bytes(self.header);
        lemma_ns_frame(header_bytes(self.header), self.reserved_bits, self.name_space@, self.tail());
    }

    fn len(&self) -> (r: i32) {
        proof {
            lemma_header_bytes(self.header);
            lemma_ns_frame(header_bytes(self.header), self.reserved_bits, self.name_space@, self.tail());
        }
        (33 + self.name_space.len()) as i32
    }

    fn encode(&mut self, buf: &mut Vec<u8>) {
        proof {
            lemma_header_bytes(self.header);
            lemma_ns_frame(header_bytes(self.header), self.reserved_bits, self.name_space@, self.tail());
        }
        let n = self.len();
        self.header.set_len(n);
        assert(self.header == old(self).header);
        self.header.write_to(buf);
        push_i32(buf, self.reserved_bits);
        append_bytes(buf, self.name_space.as_slice());
        buf.push(0u8);
        push_i32(buf, self.nret);
        push_i64(buf, self.cursor_id);
        assert(buf@ =~= old(buf)@ + old(self).wire());
    }
}

/// Reading back the header of an encoded frame gives, as its length field, the
/// number of bytes the frame took in the buffer.
pub proof fn law_header_length_round_trip<M: Message>(
    m: &M,
    before: Seq<u8>,
    after: Seq<u8>,
    h: MsgHeader,
)
    requires
        m.wf(),
        after == before + m.wire(),
        header_bytes(h) == after.subrange(before.len() as int, before.len() + 16int),
    ensures
        h.spec_len() as int == after.len() - before.len(),
{
    m.lemma_frame();
    lemma_header_bytes(h);
    assert(after.subrange(before.len() as int, before.len() + 4int) =~= m.wire().subrange(0, 4));
    assert(header_bytes(h).subrange(0, 4) =~= after.subrange(
        before.len() as int,
        before.len() + 4int,
    ));
    lemma_le32_injective(h.spec_len(), m.wire().len() as i32);
}

/// The length a message computes before it is written is the number of bytes
/// its encoding appends.
pub proof fn law_length_is_bytes_written<M: Message>(m: &M, before: Seq<u8>, after: Seq<u8>, n: i32)
    requires
        m.wf(),
        after == before + m.wire(),
        n as int == m.wire().len(),
    ensures
        n as int == after.len() - before.len(),
{
}

/// In the bytes of a message that carries a namespace, the namespace stands
/// unchanged after the first body field and is ended by exactly one zero byte:
/// it holds none itself.
pub proof fn law_namespace_terminated<M: Message>(m: &M, ns: Seq<u8>)
    requires
        m.wf(),
        m.namespace() == Some(ns),
    ensures
        !has_nul(ns),
        20 + ns.len() < m.wire().len(),
        m.wire().subrange(20, (20 + ns.len()) as int) == ns,
        m.wire()[(20 + ns.len()) as int] == 0u8,
        forall|i: int| 20 <= i < 20 + ns.len() ==> m.wire()[i] != 0u8,
{
    m.lemma_frame();
    assert forall|i: int| 20 <= i < 20 + ns.len() implies m.wire()[i] != 0u8 by {
        assert(m.wire()[i] == m.wire().subrange(20, (20 + ns.len()) as int)[i - 20]);
    }
}

/// The `k` documents read one after the other from `pos`, in order, with where
/// the last of them ends, or `None` where one of those reads fails.
pub open spec fn docs_read(b: Seq<u8>, pos: int, k: nat) -> Option<(Seq<Document>, int)>
    decreases k,
{
    if k == 0 {
        Some((Seq::empty(), pos))
    } else if 0 <= pos <= b.len() {
        match doc_read(b.subrange(pos, b.len() as int)) {
            Some((d, n)) => if 5 <= n && pos + n <= b.len() {
                match docs_read(b, pos + n, (k - 1) as nat) {
                    Some((ds, end)) => Some((seq![d] + ds, end)),
                    None => None,
                }
            } else {
                None
            },
            None => None,
        }
    } else {
        None
    }
}

/// Reading `k` documents one after the other gives exactly `k` documents, and
/// ends after at least five bytes for each, within the bytes there are.
pub proof fn law_docs_read_count(b: Seq<u8>, pos: int, k: nat)
    requires
        0 <= pos <= b.len(),
        docs_read(b, pos, k) is Some,
    ensures
        docs_read(b, pos, k)->Some_0.0.len() == k,
        pos + 5 * k <= docs_read(b, pos, k)->Some_0.1 <= b.len(),
    decreases k,
{
    if k > 0 {
        let (d, n) = doc_read(b.subrange(pos, b.len() as int))->Some_0;
        law_docs_read_count(b, pos + n, (k - 1) as nat);
    }
}

/// `rest`, once the documents `done` were read before it.
pub open spec fn after_docs(done: Seq<Document>, rest: Option<(Seq<Document>, int)>) -> Option<
    (Seq<Document>, int),
> {
    match rest {
        Some((ds, end)) => Some((done + ds, end)),
        None => None,
    }
}

/// The length of a reply's fixed part: header, flags, cursor id, starting
/// position and document count.
pub const REPLY_FIXED: usize = 36;

/// A server's answer to a query or get-more request.
pub struct OpReply {
    header: MsgHeader,
    flags: i32,
    cursor_id: i64,
    start: i32,
    nret: i32,
    pub docs: Vec<Document>,
}

impl OpReply {
    pub closed spec fn spec_header(&self) -> MsgHeader {
        self.header
    }

    pub closed spec fn spec_flags(&self) -> i32 {
        self.flags
    }

    pub closed spec fn spec_cursor_id(&self) -> i64 {
        self.cursor_id
    }

    pub closed spec fn spec_start(&self) -> i32 {
        self.start
    }

    pub closed spec fn spec_nret(&self) -> i32 {
        self.nret
    }

    pub closed spec fn spec_docs(&self) -> Seq<Document> {
        self.docs@
    }

    /// The documents of the reply.
    pub fn docs(&self) -> (r: &Vec<Document>)
        ensures
            r@ == self.spec_docs(),
    {
        &self.docs
    }

    /// The documents of the reply, taken out of it.
    pub fn into_docs(self) -> (r: Vec<Document>)
        ensures
            r@ == self.spec_docs(),
    {
        self.docs
    }

    /// The server's cursor for further batches.
    pub fn cursor_id(&self) -> (r: i64)
        ensures
            r == self.spec_cursor_id(),
    {
        self.cursor_id
    }

    /// Reads one reply from the start of `b`: its fixed fields, then exactly as
    /// many documents as it declares. Returns the reply and the position right
    /// after its last document.
    pub fn decode(b: &[u8]) -> (r: Result<(OpReply, usize), DecodeError>)
        ensures
            r matches Err(DecodeError::ShortRead) <==> b@.len() < 36,
            r matches Err(DecodeError::UnexpectedOpcode(c)) ==> b@.len() >= 36 && le32(c)
                == b@.subrange(12, 16) && c != 1,
            b@.len() >= 36 && b@.subrange(12, 16) != le32(1) ==> r is Err && r->Err_0 is UnexpectedOpcode,
            forall|k: i32|
                b@.len() >= 36 && b@.subrange(12, 16) == le32(1) && #[trigger] le32(k) == b@.subrange(32, 36)
                    ==> {
                    &&& (r matches Err(DecodeError::NegativeCount) <==> k < 0)
                    &&& (r matches Err(DecodeError::ImplausibleCount) <==> k >= 0 && 5 * k > b@.len()
                        - 36)
                    &&& (r matches Err(DecodeError::Document(_)) <==> k >= 0 && 5 * k <= b@.len() - 36
                        && docs_read(b@, 36, k as nat) is None)
                    &&& (r is Ok <==> k >= 0 && 5 * k <= b@.len() - 36 && docs_read(b@, 36, k as nat) is Some)
                },
            r matches Ok((m, end)) ==> {
                &&& header_bytes(m.spec_header()) == b@.subrange(0, 16)
                &&& m.spec_header().spec_opcode() == OpCode::OP_REPLY
                &&& le32(m.spec_flags()) == b@.subrange(16, 20)
                &&& le64(m.spec_cursor_id()) == b@.subrange(20, 28)
                &&& le32(m.spec_start()) == b@.subrange(28, 32)
                &&& le32(m.spec_nret()) == b@.subrange(32, 36)
                &&& m.spec_docs().len() == m.spec_nret()
                &&& docs_read(b@, 36, m.spec_nret() as nat) == Some((m.spec_docs(), end as int))
            },
    {
        if b.len() < REPLY_FIXED {
            return Err(DecodeError::ShortRead);
        }
        let header = match MsgHeader::decode(b) {
            Ok(h) => h,
            Err(e) => return Err(e),
        };
        assert(b@.subrange(0, 16).subrange(12, 16) =~= b@.subrange(12, 16));
        assert(header_bytes(header).subrange(12, 16) =~= le32(code_of(header.opcode)));
        let code = header.opcode.to_i32();
        if code != 1 {
            proof {
                if b@.subrange(12, 16) == le32(1) {
                    lemma_le32_injective(code, 1);
                }
            }
            return Err(DecodeError::UnexpectedOpcode(code));
        }
        let flags = read_i32_at(b, 16);
        let cursor_id = read_i64_at(b, 20);
        let start = read_i32_at(b, 28);
        let k = read_i32_at(b, 32);
        assert forall|k2: i32| le32(k2) == b@.subrange(32, 36) implies k2 == k by {
            lemma_le32_injective(k2, k);
        }
        if k < 0 {
            return Err(DecodeError::NegativeCount);
        }
        if k as usize > (b.len() - REPLY_FIXED) / 5 {
            return Err(DecodeError::ImplausibleCount);
        }
        let mut docs: Vec<Document> = Vec::new();
        let mut pos: usize = REPLY_FIXED;
        let mut i: i32 = 0;
        let len: usize = b.len();
        while i < k
            invariant
                len == b@.len(),
                b@.subrange(12, 16) == le32(1),
                le32(k) == b@.subrange(32, 36),
                5 * k <= b@.len() - 36,
                forall|k2: i32| #[trigger] le32(k2) == b@.subrange(32, 36) ==> k2 == k,
                0 <= i <= k,
                36 <= pos <= b@.len(),
                docs@.len() == i,
                docs_read(b@, 36, k as nat) == after_docs(docs@, docs_read(b@, pos as int, (k - i) as nat)),
            decreases k - i,
        {
            match read_document(b, pos) {
                Ok((d, n)) => {
                    let ghost before = docs@;
                    docs.push(d);
                    pos = pos + n;
                    i = i + 1;
                    proof {
                        if let Some((ds, end)) = docs_read(b@, pos as int, (k - i) as nat) {
                            assert(before + (seq![d] + ds) =~= docs@ + ds);
                        }
                    }
                },
                Err(e) => {
                    return Err(DecodeError::Document(e));
                },
            }
        }
        let reply = OpReply { header, flags, cursor_id, start, nret: k, docs };
        Ok((reply, pos))
    }
}

} // verus!
