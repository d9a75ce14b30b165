//! Collection-level operations. Each builds the one frame that the operation
//! sends; the operations that the protocol answers are read back by the
//! functions here that take the reply.

use vstd::prelude::*;
use vstd::string::StringExecFns;
use vstd::utf8::encode_utf8;
use bson::{Bson, Document};
use crate::doc::{
    bson_of_str, bson_string, doc_encoding, doc_get_i32, doc_inserted, docs_encoding, get_i32,
    insert_value, new_document,
};
use crate::msg::{
    insert_frame, lemma_query_nret, query_frame, BuildError, Message, OpInsert, OpQuery, OpReply,
};
use crate::wire::{has_nul, MAX_FRAME};

verus! {

/// A client over one connection.
pub struct Client<T> {
    pub connection: T,
}

impl<T> Client<T> {
    pub fn new_with(connection: T) -> (r: Client<T>)
        ensures
            r.connection == connection,
    {
        Client { connection }
    }

    pub fn db(&self, name: &str) -> (r: Database)
        ensures
            r.spec_name() == name@,
    {
        Database { name: String::from_str(name) }
    }
}

/// What building a command on namespace `ns` for document `d` gives: the
/// namespace and document errors, and otherwise a query for `d` that asks for
/// one document back, where the frame fits its length field.
pub open spec fn command_outcome(r: Result<OpQuery, BuildError>, ns: Seq<u8>, d: Document) -> bool {
    &&& (r matches Err(BuildError::NulInNamespace) <==> has_nul(ns))
    &&& (r matches Err(BuildError::Document(_)) <==> !has_nul(ns) && doc_encoding(d) is None)
    &&& (r matches Err(BuildError::TooLarge) <==> !has_nul(ns) && doc_encoding(d) is Some && 29
        + ns.len() + doc_encoding(d)->Some_0.len() > MAX_FRAME)
    &&& (r matches Ok(m) ==> {
        &&& m.wf()
        &&& m.namespace() == Some(ns)
        &&& doc_encoding(d) is Some
        &&& m.wire() == query_frame(ns, 0, 1, doc_encoding(d)->Some_0, Seq::empty())
    })
}

/// What building an insert on namespace `ns` for the encodings `enc` gives.
pub open spec fn insert_outcome(r: Result<OpInsert, BuildError>, ns: Seq<u8>, enc: Option<Seq<u8>>) -> bool {
    &&& (r matches Err(BuildError::NulInNamespace) <==> has_nul(ns))
    &&& (r matches Err(BuildError::Document(_)) <==> !has_nul(ns) && enc is None)
    &&& (r matches Err(BuildError::TooLarge) <==> !has_nul(ns) && enc is Some && 21 + ns.len()
        + enc->Some_0.len() > MAX_FRAME)
    &&& (r matches Ok(m) ==> {
        &&& m.wf()
        &&& m.namespace() == Some(ns)
        &&& enc is Some
        &&& m.wire() == insert_frame(ns, enc->Some_0)
    })
}

/// The `count` command document for collection `name`, built on `d0`.
pub open spec fn count_document(d0: Document, name: Seq<char>) -> Document {
    doc_inserted(d0, "count"@, bson_of_str(name))
}

/// The `findAndModify` command document for collection `name`, built on `d0`.
pub open spec fn find_and_modify_document(d0: Document, name: Seq<char>, query: Bson, update: Bson) -> Document {
    doc_inserted(
        doc_inserted(doc_inserted(d0, "findAndModify"@, bson_of_str(name)), "query"@, query),
        "update"@,
        update,
    )
}

/// A document that encodes as the empty document does.
pub open spec fn encodes_empty(d: Document) -> bool {
    doc_encoding(d) == Some(seq![5u8, 0u8, 0u8, 0u8, 0u8])
}

/// A database, known by its name.
pub struct Database {
    name: String,
}

impl Database {
    pub closed spec fn spec_name(&self) -> Seq<char> {
        self.name@
    }

    /// The collection `name` of this database.
    pub fn coll(&self, name: &str) -> (r: Collection)
        ensures
            r.spec_db_name() == self.spec_name(),
            r.spec_name() == name@,
            r.spec_name_space() == self.spec_name() + seq!['.'] + name@,
    {
        proof {
            reveal_strlit(".");
        }
        let name_space = self.name.clone().concat(".").concat(name);
        Collection { db_name: self.name.clone(), name: String::from_str(name), name_space }
    }
}

/// A collection, addressed by the namespace `<database>.<collection>`.
pub struct Collection {
    db_name: String,
    name: String,
    name_space: String,
}

/// The first document of a reply, if it holds any.
pub fn first_document(reply: OpReply) -> (r: Option<Document>)
    ensures
        r is None <==> reply.spec_docs().len() == 0,
        r matches Some(d) ==> d == reply.spec_docs()[0],
{
    let mut docs = reply.into_docs();
    if docs.len() == 0 {
        None
    } else {
        Some(docs.remove(0))
    }
}

impl Collection {
    pub closed spec fn spec_db_name(&self) -> Seq<char> {
        self.db_name@
    }

    pub closed spec fn spec_name(&self) -> Seq<char> {
        self.name@
    }

    pub closed spec fn spec_name_space(&self) -> Seq<char> {
        self.name_space@
    }

    /// A command: a query for `doc` that asks for one document back.
    pub fn command(&self, doc: &Document) -> (r: Result<OpQuery, BuildError>)
        ensures
            command_outcome(r, encode_utf8(self.spec_name_space()), *doc),
    {
        match OpQuery::new(self.name_space.as_str(), doc, None) {
            Ok(mut m) => {
                proof {
                    lemma_query_nret(
                        encode_utf8(self.spec_name_space()),
                        0,
                        0,
                        1,
                        doc_encoding(*doc)->Some_0,
                        Seq::empty(),
                    );
                }
                m.set_nret(1);
                Ok(m)
            },
            Err(e) => Err(e),
        }
    }

    /// The insert of one document; the server sends no reply.
    pub fn insert(&self, doc: &mut Document) -> (r: Result<OpInsert, BuildError>)
        ensures
            *final(doc) == *old(doc),
            insert_outcome(r, encode_utf8(self.spec_name_space()), doc_encoding(*old(doc))),
    {
        let docs: Vec<&Document> = vec![&*doc];
        proof {
            assert(docs@.drop_last() =~= Seq::<&Document>::empty());
            assert(docs_encoding(docs@.drop_last()) == Some(Seq::<u8>::empty()));
            if let Some(b) = doc_encoding(*doc) {
                assert(Seq::<u8>::empty() + b =~= b);
            }
            assert(docs_encoding(docs@) == doc_encoding(*doc));
        }
        OpInsert::new(self.name_space.as_str(), &docs)
    }

    /// The insert of several documents in one frame, in their order; the
    /// server sends no reply.
    pub fn insert_bulk(&self, docs: &Vec<&Document>) -> (r: Result<OpInsert, BuildError>)
        ensures
            insert_outcome(r, encode_utf8(self.spec_name_space()), docs_encoding(docs@)),
    {
        OpInsert::new(self.name_space.as_str(), docs)
    }

    /// The query for the first document that `selector` matches; its reply
    /// goes to `first_document`.
    pub fn find_one(&self, selector: &Document) -> (r: Result<OpQuery, BuildError>)
        ensures
            command_outcome(r, encode_utf8(self.spec_name_space()), *selector),
    {
        self.command(selector)
    }

    /// The `findAndModify` command for this collection; its reply goes to
    /// `first_document`.
    pub fn find_and_modify(&self, query: Bson, update: Bson) -> (r: Result<OpQuery, BuildError>)
        ensures
            exists|d0: Document|
                encodes_empty(d0) && command_outcome(
                    r,
                    encode_utf8(self.spec_name_space()),
                    #[trigger] find_and_modify_document(d0, self.spec_name(), query, update),
                ),
    {
        let mut doc = new_document();
        let ghost d0 = doc;
        insert_value(&mut doc, "findAndModify", bson_string(self.name.as_str()));
        insert_value(&mut doc, "query", query);
        insert_value(&mut doc, "update", update);
        let r = self.command(&doc);
        assert(encodes_empty(d0) && command_outcome(
            r,
            encode_utf8(self.spec_name_space()),
            find_and_modify_document(d0, self.spec_name(), query, update),
        ));
        r
    }

    /// The `count` command for this collection; its reply goes to `count_of`.
    pub fn count(&self) -> (r: Result<OpQuery, BuildError>)
        ensures
            exists|d0: Document|
                encodes_empty(d0) && command_outcome(
                    r,
                    encode_utf8(self.spec_name_space()),
                    #[trigger] count_document(d0, self.spec_name()),
                ),
    {
        let mut doc = new_document();
        let ghost d0 = doc;
        insert_value(&mut doc, "count", bson_string(self.name.as_str()));
        let r = self.command(&doc);
        assert(encodes_empty(d0) && command_outcome(
            r,
            encode_utf8(self.spec_name_space()),
            count_document(d0, self.spec_name()),
        ));
        r
    }
}

/// The count a `count` command's reply carries: the 32-bit integer `n` of its
/// first document, or `None` where the reply holds no documents or no such value.
pub fn count_of(reply: OpReply) -> (r: Option<i32>)
    ensures
        reply.spec_docs().len() == 0 ==> r is None,
        reply.spec_docs().len() > 0 ==> r == doc_get_i32(reply.spec_docs()[0], "n"@),
{
    match first_document(reply) {
        Some(d) => get_i32(&d, "n"),
        None => None,
    }
}

} // verus!
