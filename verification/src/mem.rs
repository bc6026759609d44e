//! The reference backend: an in-memory store proved against the storage
//! contract.
//!
//! A session holds the durable store as a vector of collections; an open
//! write transaction works on a deep copy, which `commit_tx` installs as the
//! new durable store and `rollback_tx` discards. Readers copy their snapshot
//! out of the durable store when the read scope opens, so they stay
//! consistent for their whole lifetime whatever commits later, and dropping
//! one mid-iteration frees everything it held.

use vstd::prelude::*;

use crate::error::Error;
use crate::storage::CollModel;
use crate::storage::ConnModel;
use crate::storage::DocModel;
use crate::storage::Document;
use crate::storage::IndexInfo;
use crate::storage::IndexKey;
use crate::storage::IndexModel;
use crate::storage::QueryPlan;
use crate::storage::ReaderModel;
use crate::storage::StorageConnection;
use crate::storage::StorageReader;
use crate::storage::TxModel;
use crate::storage::begin_read_post;
use crate::storage::begin_write_tx_post;
use crate::storage::clear_collection_post;
use crate::storage::coll_wf;
use crate::storage::colls_wf;
use crate::storage::commit_tx_post;
use crate::storage::conn_inv;
use crate::storage::create_collection_post;
use crate::storage::create_indexes_post;
use crate::storage::delete_post;
use crate::storage::doc_views;
use crate::storage::docs_of;
use crate::storage::drop_collection_post;
use crate::storage::drop_database_post;
use crate::storage::drop_index_post;
use crate::storage::has_coll;
use crate::storage::has_db;
use crate::storage::has_doc;
use crate::storage::has_index;
use crate::storage::index_views;
use crate::storage::insert_post;
use crate::storage::is_coll;
use crate::storage::is_first_dot;
use crate::storage::key_views;
use crate::storage::lemma_coll_at_is_the;
use crate::storage::list_collections_post;
use crate::storage::list_indexes_post;
use crate::storage::new_coll_model;
use crate::storage::not_in_db;
use crate::storage::ns_coll;
use crate::storage::ns_db;
use crate::storage::ns_dot;
use crate::storage::ns_splits;
use crate::storage::prepare_write_post;
use crate::storage::reader_inv;
use crate::storage::renamed_coll;
use crate::storage::rename_collection_post;
use crate::storage::rollback_tx_post;
use crate::storage::the_coll;
use crate::storage::the_doc;
use crate::storage::the_index;
use crate::storage::unique_colls;
use crate::storage::unique_docs;
use crate::storage::unique_indexes;
use crate::storage::unprepare_write_post;
use crate::storage::update_post;
use crate::storage::valid_keys;
use crate::storage::apply_indexes;
use crate::storage::apply_one_index;
use crate::storage::all_indexes;

use vstd::pervasive::VecAdditionalExecFns;
use vstd::string::StrSliceExecFns;

verus! {

/// One collection of the in-memory store.
struct Coll {
    db: String,
    coll: String,
    options: Vec<u8>,
    indexes: Vec<IndexInfo>,
    docs: Vec<Document>,
}

impl View for Coll {
    type V = CollModel;

    closed spec fn view(&self) -> CollModel {
        CollModel {
            db: self.db@,
            coll: self.coll@,
            options: self.options@,
            indexes: index_views(self.indexes@),
            docs: doc_views(self.docs@),
        }
    }
}

spec fn colls_view(v: Seq<Coll>) -> Seq<CollModel> {
    v.map_values(|c: Coll| c@)
}

// ---------------------------------------------------------------------------
// Small proof helpers
// ---------------------------------------------------------------------------
proof fn lemma_found_is_the_index(ixs: Seq<IndexModel>, name: Seq<char>, j: int)
    requires
        unique_indexes(ixs),
        0 <= j < ixs.len(),
        ixs[j].name == name,
    ensures
        has_index(ixs, name),
        the_index(ixs, name) == j,
{
    assert(has_index(ixs, name));
    let k = the_index(ixs, name);
    if j != k {
        assert(false);
    }
}

proof fn lemma_found_is_the_doc(ds: Seq<DocModel>, id: u64, j: int)
    requires
        unique_docs(ds),
        0 <= j < ds.len(),
        ds[j].id == id,
    ensures
        has_doc(ds, id),
        the_doc(ds, id) == j,
{
    assert(has_doc(ds, id));
    let k = the_doc(ds, id);
    if j != k {
        assert(false);
    }
}

// ---------------------------------------------------------------------------
// Copy helpers: deep copies with view equality
// ---------------------------------------------------------------------------
fn copy_bytes(v: &Vec<u8>) -> (r: Vec<u8>)
    ensures
        r@ == v@,
{
    let mut r: Vec<u8> = Vec::new();
    let mut i: usize = 0;
    while i < v.len()
        invariant
            i <= v.len(),
            r@ == v@.take(i as int),
        decreases v.len() - i,
    {
        r.push(v[i]);
        proof {
            assert(r@ =~= v@.take(i + 1));
        }
        i = i + 1;
    }
    proof {
        assert(v@.take(v@.len() as int) =~= v@);
    }
    r
}

fn copy_document(d: &Document) -> (r: Document)
    ensures
        r@ == d@,
{
    Document { id: d.id, body: copy_bytes(&d.body) }
}

fn copy_docs(v: &Vec<Document>) -> (r: Vec<Document>)
    ensures
        doc_views(r@) == doc_views(v@),
{
    let mut r: Vec<Document> = Vec::new();
    let mut i: usize = 0;
    while i < v.len()
        invariant
            i <= v.len(),
            r@.len() == i,
            forall|k: int| 0 <= k < i ==> (#[trigger] r@[k])@ == v@[k]@,
        decreases v.len() - i,
    {
        r.push(copy_document(&v[i]));
        i = i + 1;
    }
    proof {
        assert(doc_views(r@) =~= doc_views(v@));
    }
    r
}

fn copy_index_info(x: &IndexInfo) -> (r: IndexInfo)
    ensures
        r@ == x@,
{
    let mut ks: Vec<IndexKey> = Vec::new();
    let mut i: usize = 0;
    while i < x.keys.len()
        invariant
            i <= x.keys.len(),
            ks@.len() == i,
            forall|k: int| 0 <= k < i ==> (#[trigger] ks@[k])@ == x.keys@[k]@,
        decreases x.keys.len() - i,
    {
        let key = &x.keys[i];
        ks.push(IndexKey { field: key.field.clone(), direction: key.direction });
        i = i + 1;
    }
    let r = IndexInfo {
        db: x.db.clone(),
        coll: x.coll.clone(),
        name: x.name.clone(),
        keys: ks,
        options: copy_bytes(&x.options),
    };
    proof {
        assert(r@.keys =~= x@.keys);
        assert(r@ =~~= x@);
    }
    r
}

fn copy_indexes(v: &Vec<IndexInfo>) -> (r: Vec<IndexInfo>)
    ensures
        index_views(r@) == index_views(v@),
{
    let mut r: Vec<IndexInfo> = Vec::new();
    let mut i: usize = 0;
    while i < v.len()
        invariant
            i <= v.len(),
            r@.len() == i,
            forall|k: int| 0 <= k < i ==> (#[trigger] r@[k])@ == v@[k]@,
        decreases v.len() - i,
    {
        r.push(copy_index_info(&v[i]));
        i = i + 1;
    }
    proof {
        assert(index_views(r@) =~= index_views(v@));
    }
    r
}

fn copy_coll(c: &Coll) -> (r: Coll)
    ensures
        r@ == c@,
{
    let r = Coll {
        db: c.db.clone(),
        coll: c.coll.clone(),
        options: copy_bytes(&c.options),
        indexes: copy_indexes(&c.indexes),
        docs: copy_docs(&c.docs),
    };
    proof {
        assert(r@ =~~= c@);
    }
    r
}

fn copy_colls(v: &Vec<Coll>) -> (r: Vec<Coll>)
    ensures
        colls_view(r@) == colls_view(v@),
{
    let mut r: Vec<Coll> = Vec::new();
    let mut i: usize = 0;
    while i < v.len()
        invariant
            i <= v.len(),
            r@.len() == i,
            forall|k: int| 0 <= k < i ==> (#[trigger] r@[k])@ == v@[k]@,
        decreases v.len() - i,
    {
        r.push(copy_coll(&v[i]));
        i = i + 1;
    }
    proof {
        assert(colls_view(r@) =~= colls_view(v@));
    }
    r
}

// ---------------------------------------------------------------------------
// Comparison and lookup helpers
// ---------------------------------------------------------------------------
fn str_eq(a: &str, b: &str) -> (r: bool)
    ensures
        r == (a@ == b@),
{
    let sa = a.to_owned();
    let sb = b.to_owned();
    sa == sb
}

fn bytes_eq(a: &Vec<u8>, b: &Vec<u8>) -> (r: bool)
    ensures
        r == (a@ == b@),
{
    let mut i: usize = 0;
    if a.len() != b.len() {
        proof {
            assert(a@ != b@);
        }
        return false;
    }
    while i < a.len()
        invariant
            i <= a.len(),
            a@.len() == b@.len(),
            forall|k: int| 0 <= k < i ==> a@[k] == b@[k],
        decreases a.len() - i,
    {
        if a[i] != b[i] {
            proof {
                assert(a@ != b@);
            }
            return false;
        }
        i = i + 1;
    }
    proof {
        assert(a@ =~= b@);
    }
    true
}

fn find_coll(v: &Vec<Coll>, db: &str, coll: &str) -> (r: Option<usize>)
    ensures
        match r {
            Some(i) => i < v@.len() && is_coll(colls_view(v@)[i as int], db@, coll@),
            None => !has_coll(colls_view(v@), db@, coll@),
        },
{
    let dbo = db.to_owned();
    let co = coll.to_owned();
    let mut i: usize = 0;
    while i < v.len()
        invariant
            i <= v.len(),
            dbo@ == db@,
            co@ == coll@,
            forall|k: int| 0 <= k < i ==> !is_coll(#[trigger] colls_view(v@)[k], db@, coll@),
        decreases v.len() - i,
    {
        if v[i].db == dbo && v[i].coll == co {
            return Some(i);
        }
        i = i + 1;
    }
    None
}

fn find_index(v: &Vec<IndexInfo>, name: &str) -> (r: Option<usize>)
    ensures
        match r {
            Some(j) => j < v@.len() && index_views(v@)[j as int].name == name@,
            None => !has_index(index_views(v@), name@),
        },
{
    let no = name.to_owned();
    let mut j: usize = 0;
    while j < v.len()
        invariant
            j <= v.len(),
            no@ == name@,
            forall|k: int| 0 <= k < j ==> (#[trigger] index_views(v@)[k]).name != name@,
        decreases v.len() - j,
    {
        if v[j].name == no {
            return Some(j);
        }
        j = j + 1;
    }
    None
}

fn find_doc(v: &Vec<Document>, id: u64) -> (r: Option<usize>)
    ensures
        match r {
            Some(j) => j < v@.len() && doc_views(v@)[j as int].id == id,
            None => !has_doc(doc_views(v@), id),
        },
{
    let mut j: usize = 0;
    while j < v.len()
        invariant
            j <= v.len(),
            forall|k: int| 0 <= k < j ==> (#[trigger] doc_views(v@)[k]).id != id,
        decreases v.len() - j,
    {
        if v[j].id == id {
            return Some(j);
        }
        j = j + 1;
    }
    None
}

/// Split a full namespace `db.coll` at its first dot.
fn split_ns(s: &str) -> (r: Option<(String, String)>)
    ensures
        match r {
            Some(p) => ns_splits(s@) && p.0@ == ns_db(s@) && p.1@ == ns_coll(s@),
            None => !ns_splits(s@),
        },
{
    let n = s.unicode_len();
    let mut i: usize = 0;
    while i < n
        invariant
            i <= n,
            n == s@.len(),
            forall|k: int| 0 <= k < i ==> s@[k] != '.',
        decreases n - i,
    {
        if s.get_char(i) == '.' {
            proof {
                assert(is_first_dot(s@, i as int));
                lemma_first_dot_unique(s@, i as int);
            }
            let d = s.substring_char(0, i).to_owned();
            let c = s.substring_char(i + 1, n).to_owned();
            proof {
                assert(d@ =~= ns_db(s@));
                assert(c@ =~= ns_coll(s@));
            }
            return Some((d, c));
        }
        i = i + 1;
    }
    proof {
        assert(!ns_splits(s@)) by {
            if ns_splits(s@) {
                let k = choose|k: int| is_first_dot(s@, k);
                assert(s@[k] != '.');
            }
        }
    }
    None
}

proof fn lemma_first_dot_unique(s: Seq<char>, i: int)
    requires
        is_first_dot(s, i),
    ensures
        ns_splits(s),
        ns_dot(s) == i,
{
    assert(ns_splits(s));
    let j = ns_dot(s);
    assert(is_first_dot(s, j));
    if i < j {
        assert(s[i] != '.');
    }
    if j < i {
        assert(s[j] != '.');
    }
}

} // verus!

verus! {

// ---------------------------------------------------------------------------
// View algebra: how the model of a vector of collections follows its edits
// ---------------------------------------------------------------------------
proof fn lemma_remove_insert<T>(s: Seq<T>, i: int, x: T)
    requires
        0 <= i < s.len(),
    ensures
        s.remove(i).insert(i, x) == s.update(i, x),
{
    assert(s.remove(i).insert(i, x) =~= s.update(i, x));
}

proof fn lemma_cv_push(v: Seq<Coll>, c: Coll)
    ensures
        colls_view(v.push(c)) == colls_view(v).push(c@),
{
    assert(colls_view(v.push(c)) =~= colls_view(v).push(c@));
}

proof fn lemma_cv_remove(v: Seq<Coll>, i: int)
    requires
        0 <= i < v.len(),
    ensures
        colls_view(v.remove(i)) == colls_view(v).remove(i),
{
    assert(colls_view(v.remove(i)) =~= colls_view(v).remove(i));
}

proof fn lemma_cv_insert(v: Seq<Coll>, i: int, c: Coll)
    requires
        0 <= i <= v.len(),
    ensures
        colls_view(v.insert(i, c)) == colls_view(v).insert(i, c@),
{
    assert(colls_view(v.insert(i, c)) =~= colls_view(v).insert(i, c@));
}

proof fn lemma_iv_push(v: Seq<IndexInfo>, x: IndexInfo)
    ensures
        index_views(v.push(x)) == index_views(v).push(x@),
{
    assert(index_views(v.push(x)) =~= index_views(v).push(x@));
}

proof fn lemma_iv_remove(v: Seq<IndexInfo>, j: int)
    requires
        0 <= j < v.len(),
    ensures
        index_views(v.remove(j)) == index_views(v).remove(j),
{
    assert(index_views(v.remove(j)) =~= index_views(v).remove(j));
}

proof fn lemma_dv_push(v: Seq<Document>, d: Document)
    ensures
        doc_views(v.push(d)) == doc_views(v).push(d@),
{
    assert(doc_views(v.push(d)) =~= doc_views(v).push(d@));
}

proof fn lemma_dv_remove(v: Seq<Document>, j: int)
    requires
        0 <= j < v.len(),
    ensures
        doc_views(v.remove(j)) == doc_views(v).remove(j),
{
    assert(doc_views(v.remove(j)) =~= doc_views(v).remove(j));
}

proof fn lemma_dv_update(v: Seq<Document>, j: int, d: Document)
    requires
        0 <= j < v.len(),
    ensures
        doc_views(v.update(j, d)) == doc_views(v).update(j, d@),
{
    assert(doc_views(v.update(j, d)) =~= doc_views(v).update(j, d@));
}

// ---------------------------------------------------------------------------
// Well-formedness preservation
// ---------------------------------------------------------------------------
proof fn lemma_wf_remove(s: Seq<CollModel>, i: int)
    requires
        colls_wf(s),
        0 <= i < s.len(),
    ensures
        colls_wf(s.remove(i)),
{
    let t = s.remove(i);
    assert forall|a: int, b: int| 0 <= a < b < t.len() implies !((#[trigger] t[a]).db
        == (#[trigger] t[b]).db && t[a].coll == t[b].coll) by {
        let a0 = if a < i { a } else { a + 1 };
        let b0 = if b < i { b } else { b + 1 };
        assert(t[a] == s[a0]);
        assert(t[b] == s[b0]);
    }
    assert forall|k: int| 0 <= k < t.len() implies coll_wf(#[trigger] t[k]) by {
        let k0 = if k < i { k } else { k + 1 };
        assert(t[k] == s[k0]);
    }
}

proof fn lemma_wf_push_new(s: Seq<CollModel>, c: CollModel)
    requires
        colls_wf(s),
        coll_wf(c),
        !has_coll(s, c.db, c.coll),
    ensures
        colls_wf(s.push(c)),
{
    let t = s.push(c);
    assert forall|a: int, b: int| 0 <= a < b < t.len() implies !((#[trigger] t[a]).db
        == (#[trigger] t[b]).db && t[a].coll == t[b].coll) by {
        if b < s.len() {
            assert(t[a] == s[a] && t[b] == s[b]);
        } else {
            assert(t[b] == c);
            assert(t[a] == s[a]);
            assert(!is_coll(s[a], c.db, c.coll));
        }
    }
    assert forall|k: int| 0 <= k < t.len() implies coll_wf(#[trigger] t[k]) by {
        if k < s.len() {
            assert(t[k] == s[k]);
        }
    }
}

/// Replacing the collection at `i` keeps the store well formed, provided the
/// replacement is well formed and no other entry carries its name.
proof fn lemma_wf_update(s: Seq<CollModel>, i: int, c: CollModel)
    requires
        colls_wf(s),
        0 <= i < s.len(),
        coll_wf(c),
        forall|k: int| 0 <= k < s.len() && k != i ==> !is_coll(#[trigger] s[k], c.db, c.coll),
    ensures
        colls_wf(s.update(i, c)),
{
    let t = s.update(i, c);
    assert forall|a: int, b: int| 0 <= a < b < t.len() implies !((#[trigger] t[a]).db
        == (#[trigger] t[b]).db && t[a].coll == t[b].coll) by {
        if a != i && b != i {
            assert(t[a] == s[a] && t[b] == s[b]);
        } else if a == i {
            assert(t[a] == c && t[b] == s[b]);
        } else {
            assert(t[b] == c && t[a] == s[a]);
        }
    }
    assert forall|k: int| 0 <= k < t.len() implies coll_wf(#[trigger] t[k]) by {
        if k != i {
            assert(t[k] == s[k]);
        }
    }
}

// ---------------------------------------------------------------------------
// The reader
// ---------------------------------------------------------------------------
/// A reader over a private snapshot copied out of the durable store when the
/// read scope opened. Dropping it simply frees the snapshot.
pub struct MemReader {
    docs: Vec<Document>,
    pos: usize,
    keys: u64,
}

impl MemReader {
    #[verifier::type_invariant]
    spec fn ri(self) -> bool {
        &&& self.pos <= self.docs@.len()
        &&& self.keys as int <= self.pos as int
    }
}

impl View for MemReader {
    type V = ReaderModel;

    closed spec fn view(&self) -> ReaderModel {
        ReaderModel {
            docs: doc_views(self.docs@),
            pos: self.pos as int,
            keys: self.keys as int,
        }
    }
}

impl MemReader {
    /// Pull the next document of the snapshot. Unlike a backend over a
    /// fallible medium, this reader never yields an error: while documents
    /// remain, each pull yields the next one as `Ok` and counts one key
    /// examined; at the end it signals exhaustion and changes nothing.
    pub fn next_doc(&mut self) -> (r: Option<Result<Document, Error>>)
        ensures
            reader_inv(final(self)@),
            final(self)@.docs == old(self)@.docs,
            old(self)@.pos < old(self)@.docs.len() ==> (r matches Some(res) && res matches Ok(d)
                && d@ == old(self)@.docs[old(self)@.pos] && final(self)@.pos == old(self)@.pos + 1
                && final(self)@.keys == old(self)@.keys + 1),
            old(self)@.pos >= old(self)@.docs.len() ==> r is None && final(self)@ == old(self)@,
    {
        proof {
            use_type_invariant(&*self);
        }
        if self.pos < self.docs.len() {
            let d = copy_document(&self.docs[self.pos]);
            self.pos = self.pos + 1;
            self.keys = self.keys + 1;
            Some(Ok(d))
        } else {
            None
        }
    }

    /// The cumulative count of keys examined so far.
    pub fn get_total_keys_examined(&self) -> (r: u64)
        ensures
            r as int == self@.keys,
    {
        self.keys
    }

    /// Pull the reader dry: every remaining document of the snapshot, in
    /// order, each one yielded as `Ok`. A reader drained right after
    /// `begin_read` therefore hands back exactly the collection's committed
    /// documents.
    pub fn drain(&mut self) -> (out: Vec<Document>)
        ensures
            final(self)@.docs == old(self)@.docs,
            final(self)@.pos == old(self)@.docs.len(),
            doc_views(out@) == old(self)@.docs.skip(old(self)@.pos),
    {
        proof {
            use_type_invariant(&*self);
        }
        let ghost docs = self@.docs;
        let ghost p0 = self@.pos;
        let mut out: Vec<Document> = Vec::new();
        proof {
            assert(doc_views(out@) =~= docs.subrange(p0, self@.pos));
        }
        loop
            invariant
                self@.docs == docs,
                0 <= p0 <= self@.pos <= docs.len(),
                doc_views(out@) == docs.subrange(p0, self@.pos),
            ensures
                self@.docs == docs,
                self@.pos == docs.len(),
                doc_views(out@) == docs.subrange(p0, docs.len() as int),
            decreases docs.len() - self@.pos,
        {
            match self.next_doc() {
                None => {
                    break ;
                },
                Some(res) => match res {
                    Ok(d) => {
                        let ghost ov = out@;
                        out.push(d);
                        proof {
                            lemma_dv_push(ov, d);
                            assert(doc_views(out@) =~= docs.subrange(p0, self@.pos));
                        }
                    },
                    Err(_) => {
                        proof {
                            assert(false);
                        }
                        break ;
                    },
                },
            }
        }
        proof {
            assert(docs.subrange(p0, docs.len() as int) =~= docs.skip(p0));
        }
        out
    }
}

impl StorageReader for MemReader {
    open spec fn model(&self) -> ReaderModel {
        self@
    }

    fn next_doc(&mut self) -> (r: Option<Result<Document, Error>>) {
        self.next_doc()
    }

    fn get_total_keys_examined(&self) -> (r: u64) {
        self.keys
    }
}

// ---------------------------------------------------------------------------
// The connection
// ---------------------------------------------------------------------------
/// The write-transaction phase of a session.
enum TxPhase {
    NoTx,
    Open,
    Prepared { db: String, coll: String },
}

/// One in-memory storage session: the durable store, and — while a write
/// transaction is open — a working copy that `commit_tx` installs atomically.
pub struct MemConnection {
    colls: Vec<Coll>,
    work: Vec<Coll>,
    tx: TxPhase,
}

impl View for MemConnection {
    type V = ConnModel;

    closed spec fn view(&self) -> ConnModel {
        ConnModel {
            durable: colls_view(self.colls@),
            tx: match self.tx {
                TxPhase::NoTx => TxModel::NoTx,
                TxPhase::Open => TxModel::Open { work: colls_view(self.work@) },
                TxPhase::Prepared { db, coll } => TxModel::Prepared {
                    work: colls_view(self.work@),
                    db: db@,
                    coll: coll@,
                },
            },
        }
    }
}

impl MemConnection {
    /// A fresh session over an empty store, with no open transaction.
    pub fn new() -> (c: MemConnection)
        ensures
            conn_inv(c@),
            c@ == (ConnModel { durable: Seq::empty(), tx: TxModel::NoTx }),
    {
        let c = MemConnection { colls: Vec::new(), work: Vec::new(), tx: TxPhase::NoTx };
        proof {
            assert(c@ =~~= (ConnModel { durable: Seq::empty(), tx: TxModel::NoTx }));
        }
        c
    }
}

} // verus!

verus! {

/// No entry other than `i` carries the name of `s[i]`.
proof fn lemma_unique_no_other(s: Seq<CollModel>, i: int)
    requires
        unique_colls(s),
        0 <= i < s.len(),
    ensures
        forall|k: int|
            0 <= k < s.len() && k != i ==> !is_coll(#[trigger] s[k], s[i].db, s[i].coll),
{
    assert forall|k: int|
        0 <= k < s.len() && k != i implies !is_coll(#[trigger] s[k], s[i].db, s[i].coll) by {
        if k < i {
            assert(!(s[k].db == s[i].db && s[k].coll == s[i].coll));
        } else {
            assert(!(s[i].db == s[k].db && s[i].coll == s[k].coll));
        }
    }
}

proof fn lemma_unique_docs_push(ds: Seq<DocModel>, d: DocModel)
    requires
        unique_docs(ds),
        !has_doc(ds, d.id),
    ensures
        unique_docs(ds.push(d)),
{
    let t = ds.push(d);
    assert forall|a: int, b: int|
        0 <= a < b < t.len() implies (#[trigger] t[a]).id != (#[trigger] t[b]).id by {
        if b < ds.len() {
            assert(t[a] == ds[a] && t[b] == ds[b]);
        } else {
            assert(t[b] == d && t[a] == ds[a]);
            if ds[a].id == d.id {
                assert(has_doc(ds, d.id));
            }
        }
    }
}

proof fn lemma_unique_docs_update_same(ds: Seq<DocModel>, j: int, d: DocModel)
    requires
        unique_docs(ds),
        0 <= j < ds.len(),
        ds[j].id == d.id,
    ensures
        unique_docs(ds.update(j, d)),
{
    let t = ds.update(j, d);
    assert forall|a: int, b: int|
        0 <= a < b < t.len() implies (#[trigger] t[a]).id != (#[trigger] t[b]).id by {
        assert(t[a].id == ds[a].id && t[b].id == ds[b].id);
    }
}

proof fn lemma_unique_docs_remove(ds: Seq<DocModel>, j: int)
    requires
        unique_docs(ds),
        0 <= j < ds.len(),
    ensures
        unique_docs(ds.remove(j)),
{
    let t = ds.remove(j);
    assert forall|a: int, b: int|
        0 <= a < b < t.len() implies (#[trigger] t[a]).id != (#[trigger] t[b]).id by {
        let a0 = if a < j { a } else { a + 1 };
        let b0 = if b < j { b } else { b + 1 };
        assert(t[a] == ds[a0] && t[b] == ds[b0]);
    }
}

impl MemConnection {
    /// Creates the collection if absent, reporting whether it was created;
    /// re-creating it with identical options is accepted idempotently, with
    /// different options it is refused.
    pub fn create_collection(&mut self, db: &str, coll: &str, options: Vec<u8>) -> (r: Result<
        bool,
        Error,
    >)
        requires
            conn_inv(old(self)@),
        ensures
            conn_inv(final(self)@),
            create_collection_post(old(self)@, final(self)@, db@, coll@, options@, r),
    {
        if !(matches!(self.tx, TxPhase::NoTx)) {
            return Err(Error::Misc("schema operations are refused inside a write transaction"));
        }
        match find_coll(&self.colls, db, coll) {
            Some(i) => {
                proof {
                    lemma_coll_at_is_the(colls_view(self.colls@), db@, coll@, i as int);
                }
                if bytes_eq(&self.colls[i].options, &options) {
                    Ok(false)
                } else {
                    Err(Error::Misc("the collection exists with different options"))
                }
            },
            None => {
                let c = Coll {
                    db: db.to_owned(),
                    coll: coll.to_owned(),
                    options,
                    indexes: Vec::new(),
                    docs: Vec::new(),
                };
                proof {
                    assert(c@ =~~= new_coll_model(db@, coll@, c.options@));
                    lemma_cv_push(self.colls@, c);
                    lemma_wf_push_new(colls_view(self.colls@), c@);
                }
                self.colls.push(c);
                Ok(true)
            },
        }
    }

    /// A snapshot listing of all durable collections, in store order.
    pub fn list_collections(&mut self) -> (r: Result<Vec<(String, String, Vec<u8>)>, Error>)
        requires
            conn_inv(old(self)@),
        ensures
            conn_inv(final(self)@),
            list_collections_post(old(self)@, final(self)@, r),
    {
        let mut out: Vec<(String, String, Vec<u8>)> = Vec::new();
        let mut i: usize = 0;
        while i < self.colls.len()
            invariant
                i <= self.colls.len(),
                out@.len() == i,
                forall|k: int|
                    0 <= k < i ==> (#[trigger] out@[k]).0@ == colls_view(self.colls@)[k].db
                        && out@[k].1@ == colls_view(self.colls@)[k].coll && out@[k].2@
                        == colls_view(self.colls@)[k].options,
            decreases self.colls.len() - i,
        {
            let c = &self.colls[i];
            out.push((c.db.clone(), c.coll.clone(), copy_bytes(&c.options)));
            i = i + 1;
        }
        Ok(out)
    }

    /// Removes the collection and all its indexes, reporting whether it
    /// existed.
    pub fn drop_collection(&mut self, db: &str, coll: &str) -> (r: Result<bool, Error>)
        requires
            conn_inv(old(self)@),
        ensures
            conn_inv(final(self)@),
            drop_collection_post(old(self)@, final(self)@, db@, coll@, r),
    {
        if !(matches!(self.tx, TxPhase::NoTx)) {
            return Err(Error::Misc("schema operations are refused inside a write transaction"));
        }
        match find_coll(&self.colls, db, coll) {
            Some(i) => {
                proof {
                    lemma_coll_at_is_the(colls_view(self.colls@), db@, coll@, i as int);
                    lemma_cv_remove(self.colls@, i as int);
                    lemma_wf_remove(colls_view(self.colls@), i as int);
                }
                self.colls.remove(i);
                Ok(true)
            },
            None => Ok(false),
        }
    }

    /// Removes all documents of the collection but keeps it and its index
    /// definitions, reporting whether it existed.
    pub fn clear_collection(&mut self, db: &str, coll: &str) -> (r: Result<bool, Error>)
        requires
            conn_inv(old(self)@),
        ensures
            conn_inv(final(self)@),
            clear_collection_post(old(self)@, final(self)@, db@, coll@, r),
    {
        if !(matches!(self.tx, TxPhase::NoTx)) {
            return Err(Error::Misc("schema operations are refused inside a write transaction"));
        }
        let ghost pre = colls_view(self.colls@);
        match find_coll(&self.colls, db, coll) {
            Some(i) => {
                proof {
                    lemma_coll_at_is_the(pre, db@, coll@, i as int);
                }
                let mut c = self.colls.remove(i);
                c.docs = Vec::new();
                self.colls.insert(i, c);
                proof {
                    lemma_cv_remove(old(self).colls@, i as int);
                    lemma_cv_insert(old(self).colls@.remove(i as int), i as int, c);
                    lemma_remove_insert(pre, i as int, c@);
                    assert(c@ =~~= (CollModel { docs: Seq::empty(), ..pre[i as int] }));
                    lemma_unique_no_other(pre, i as int);
                    lemma_wf_update(pre, i as int, c@);
                }
                Ok(true)
            },
            None => Ok(false),
        }
    }

    /// Removes one index by name, reporting whether it existed.
    pub fn drop_index(&mut self, db: &str, coll: &str, name: &str) -> (r: Result<bool, Error>)
        requires
            conn_inv(old(self)@),
        ensures
            conn_inv(final(self)@),
            drop_index_post(old(self)@, final(self)@, db@, coll@, name@, r),
    {
        if !(matches!(self.tx, TxPhase::NoTx)) {
            return Err(Error::Misc("schema operations are refused inside a write transaction"));
        }
        let ghost pre = colls_view(self.colls@);
        match find_coll(&self.colls, db, coll) {
            Some(i) => {
                proof {
                    lemma_coll_at_is_the(pre, db@, coll@, i as int);
                }
                match find_index(&self.colls[i].indexes, name) {
                    Some(j) => {
                        proof {
                            lemma_found_is_the_index(pre[i as int].indexes, name@, j as int);
                        }
                        let mut c = self.colls.remove(i);
                        c.indexes.remove(j);
                        self.colls.insert(i, c);
                        proof {
                            lemma_cv_remove(old(self).colls@, i as int);
                            lemma_cv_insert(old(self).colls@.remove(i as int), i as int, c);
                            lemma_remove_insert(pre, i as int, c@);
                            lemma_iv_remove(old(self).colls@[i as int].indexes@, j as int);
                            assert(c@ =~~= (CollModel {
                                indexes: pre[i as int].indexes.remove(j as int),
                                ..pre[i as int]
                            }));
                            lemma_unique_no_other(pre, i as int);
                            assert(coll_wf(c@)) by {
                                let t = pre[i as int].indexes.remove(j as int);
                                assert forall|a: int, b: int|
                                    0 <= a < b < t.len() implies (#[trigger] t[a]).name != (
                                #[trigger] t[b]).name by {
                                    let a0 = if a < j { a } else { a + 1 };
                                    let b0 = if b < j { b } else { b + 1 };
                                    assert(t[a] == pre[i as int].indexes[a0]);
                                    assert(t[b] == pre[i as int].indexes[b0]);
                                }
                                assert forall|k: int|
                                    0 <= k < t.len() implies (#[trigger] t[k]).db == c@.db
                                        && t[k].coll == c@.coll by {
                                    let k0 = if k < j { k } else { k + 1 };
                                    assert(t[k] == pre[i as int].indexes[k0]);
                                }
                            }
                            lemma_wf_update(pre, i as int, c@);
                        }
                        Ok(true)
                    },
                    None => Ok(false),
                }
            },
            None => Ok(false),
        }
    }

    /// Opens the exclusive write transaction; the working store starts as a
    /// deep copy of the durable store.
    pub fn begin_write_tx(&mut self) -> (r: Result<(), Error>)
        requires
            conn_inv(old(self)@),
        ensures
            conn_inv(final(self)@),
            begin_write_tx_post(old(self)@, final(self)@, r),
    {
        if !(matches!(self.tx, TxPhase::NoTx)) {
            return Err(Error::Misc("a write transaction is already open"));
        }
        self.work = copy_colls(&self.colls);
        self.tx = TxPhase::Open;
        Ok(())
    }

    /// Selects the mutation target for subsequent `insert`/`update`/`delete`,
    /// creating the collection in the working store (with empty options) if
    /// it is not there yet. Refused without an open transaction or while
    /// another target is prepared.
    pub fn prepare_write(&mut self, db: &str, coll: &str) -> (r: Result<(), Error>)
        requires
            conn_inv(old(self)@),
        ensures
            conn_inv(final(self)@),
            prepare_write_post(old(self)@, final(self)@, db@, coll@, r),
    {
        match self.tx {
            TxPhase::Open => {},
            _ => {
                return Err(Error::Misc("no write transaction is open, or a target is prepared"));
            },
        }
        match find_coll(&self.work, db, coll) {
            Some(i) => {
                proof {
                    lemma_coll_at_is_the(colls_view(self.work@), db@, coll@, i as int);
                }
            },
            None => {
                let c = Coll {
                    db: db.to_owned(),
                    coll: coll.to_owned(),
                    options: Vec::new(),
                    indexes: Vec::new(),
                    docs: Vec::new(),
                };
                let ghost cm = c@;
                proof {
                    assert(cm =~~= new_coll_model(db@, coll@, Seq::empty()));
                    lemma_cv_push(self.work@, c);
                    lemma_wf_push_new(colls_view(self.work@), cm);
                }
                self.work.push(c);
                proof {
                    let w = colls_view(self.work@);
                    assert(is_coll(w[w.len() - 1], db@, coll@));
                }
            },
        }
        self.tx = TxPhase::Prepared { db: db.to_owned(), coll: coll.to_owned() };
        Ok(())
    }

    /// Clears the prepared target, keeping the transaction and its pending
    /// mutations, so a different target may be prepared.
    pub fn unprepare_write(&mut self) -> (r: Result<(), Error>)
        requires
            conn_inv(old(self)@),
        ensures
            conn_inv(final(self)@),
            unprepare_write_post(old(self)@, final(self)@, r),
    {
        match self.tx {
            TxPhase::Prepared { .. } => {},
            _ => {
                return Err(Error::Misc("no collection is prepared for writes"));
            },
        }
        self.tx = TxPhase::Open;
        Ok(())
    }

    /// Appends the document to the prepared collection; a duplicate key is
    /// refused and leaves the transaction unchanged.
    pub fn insert(&mut self, v: Document) -> (r: Result<(), Error>)
        requires
            conn_inv(old(self)@),
        ensures
            conn_inv(final(self)@),
            insert_post(old(self)@, final(self)@, v@, r),
    {
        let (dbs, cls) = match &self.tx {
            TxPhase::Prepared { db, coll } => (db.clone(), coll.clone()),
            _ => {
                return Err(Error::Misc("no collection is prepared for writes"));
            },
        };
        let ghost pre = colls_view(self.work@);
        match find_coll(&self.work, dbs.as_str(), cls.as_str()) {
            None => {
                proof {
                    assert(false);
                }
                Err(Error::Misc("the prepared collection is missing"))
            },
            Some(i) => {
                proof {
                    lemma_coll_at_is_the(pre, dbs@, cls@, i as int);
                }
                match find_doc(&self.work[i].docs, v.id) {
                    Some(_) => Err(Error::Misc("a document with this key already exists")),
                    None => {
                        let ghost dv = v@;
                        let mut c = self.work.remove(i);
                        c.docs.push(v);
                        self.work.insert(i, c);
                        proof {
                            lemma_cv_remove(old(self).work@, i as int);
                            lemma_cv_insert(old(self).work@.remove(i as int), i as int, c);
                            lemma_remove_insert(pre, i as int, c@);
                            lemma_dv_push(old(self).work@[i as int].docs@, v);
                            assert(c@ =~~= (CollModel {
                                docs: pre[i as int].docs.push(dv),
                                ..pre[i as int]
                            }));
                            lemma_unique_docs_push(pre[i as int].docs, dv);
                            lemma_unique_no_other(pre, i as int);
                            lemma_wf_update(pre, i as int, c@);
                            lemma_coll_at_is_the(
                                colls_view(self.work@),
                                dbs@,
                                cls@,
                                i as int,
                            );
                        }
                        Ok(())
                    },
                }
            },
        }
    }

    /// Replaces the stored document carrying the same key; a missing document
    /// is refused and leaves the transaction unchanged.
    pub fn update(&mut self, v: Document) -> (r: Result<(), Error>)
        requires
            conn_inv(old(self)@),
        ensures
            conn_inv(final(self)@),
            update_post(old(self)@, final(self)@, v@, r),
    {
        let (dbs, cls) = match &self.tx {
            TxPhase::Prepared { db, coll } => (db.clone(), coll.clone()),
            _ => {
                return Err(Error::Misc("no collection is prepared for writes"));
            },
        };
        let ghost pre = colls_view(self.work@);
        match find_coll(&self.work, dbs.as_str(), cls.as_str()) {
            None => {
                proof {
                    assert(false);
                }
                Err(Error::Misc("the prepared collection is missing"))
            },
            Some(i) => {
                proof {
                    lemma_coll_at_is_the(pre, dbs@, cls@, i as int);
                }
                match find_doc(&self.work[i].docs, v.id) {
                    None => Err(Error::Misc("no document carries this key")),
                    Some(j) => {
                        proof {
                            lemma_found_is_the_doc(pre[i as int].docs, v.id, j as int);
                        }
                        let ghost dv = v@;
                        let mut c = self.work.remove(i);
                        c.docs.set(j, v);
                        self.work.insert(i, c);
                        proof {
                            lemma_cv_remove(old(self).work@, i as int);
                            lemma_cv_insert(old(self).work@.remove(i as int), i as int, c);
                            lemma_remove_insert(pre, i as int, c@);
                            lemma_dv_update(old(self).work@[i as int].docs@, j as int, v);
                            assert(c@ =~~= (CollModel {
                                docs: pre[i as int].docs.update(j as int, dv),
                                ..pre[i as int]
                            }));
                            lemma_unique_docs_update_same(pre[i as int].docs, j as int, dv);
                            lemma_unique_no_other(pre, i as int);
                            lemma_wf_update(pre, i as int, c@);
                            lemma_coll_at_is_the(colls_view(self.work@), dbs@, cls@, i as int);
                        }
                        Ok(())
                    },
                }
            },
        }
    }

    /// Removes the stored document carrying the same key, reporting whether
    /// one existed.
    pub fn delete(&mut self, v: Document) -> (r: Result<bool, Error>)
        requires
            conn_inv(old(self)@),
        ensures
            conn_inv(final(self)@),
            delete_post(old(self)@, final(self)@, v@, r),
    {
        let (dbs, cls) = match &self.tx {
            TxPhase::Prepared { db, coll } => (db.clone(), coll.clone()),
            _ => {
                return Err(Error::Misc("no collection is prepared for writes"));
            },
        };
        let ghost pre = colls_view(self.work@);
        match find_coll(&self.work, dbs.as_str(), cls.as_str()) {
            None => {
                proof {
                    assert(false);
                }
                Err(Error::Misc("the prepared collection is missing"))
            },
            Some(i) => {
                proof {
                    lemma_coll_at_is_the(pre, dbs@, cls@, i as int);
                }
                match find_doc(&self.work[i].docs, v.id) {
                    None => Ok(false),
                    Some(j) => {
                        proof {
                            lemma_found_is_the_doc(pre[i as int].docs, v.id, j as int);
                        }
                        let mut c = self.work.remove(i);
                        c.docs.remove(j);
                        self.work.insert(i, c);
                        proof {
                            lemma_cv_remove(old(self).work@, i as int);
                            lemma_cv_insert(old(self).work@.remove(i as int), i as int, c);
                            lemma_remove_insert(pre, i as int, c@);
                            lemma_dv_remove(old(self).work@[i as int].docs@, j as int);
                            assert(c@ =~~= (CollModel {
                                docs: pre[i as int].docs.remove(j as int),
                                ..pre[i as int]
                            }));
                            lemma_unique_docs_remove(pre[i as int].docs, j as int);
                            lemma_unique_no_other(pre, i as int);
                            lemma_wf_update(pre, i as int, c@);
                            lemma_coll_at_is_the(colls_view(self.work@), dbs@, cls@, i as int);
                        }
                        Ok(true)
                    },
                }
            },
        }
    }

    /// Atomically publishes the working store as the new durable store and
    /// closes the transaction.
    pub fn commit_tx(&mut self) -> (r: Result<(), Error>)
        requires
            conn_inv(old(self)@),
        ensures
            conn_inv(final(self)@),
            commit_tx_post(old(self)@, final(self)@, r),
    {
        if matches!(self.tx, TxPhase::NoTx) {
            return Err(Error::Misc("no write transaction is open"));
        }
        core::mem::swap(&mut self.colls, &mut self.work);
        self.work = Vec::new();
        self.tx = TxPhase::NoTx;
        Ok(())
    }

    /// Discards the working store and closes the transaction; the durable
    /// store is exactly what it was before the transaction began.
    pub fn rollback_tx(&mut self) -> (r: Result<(), Error>)
        requires
            conn_inv(old(self)@),
        ensures
            conn_inv(final(self)@),
            rollback_tx_post(old(self)@, final(self)@, r),
    {
        if matches!(self.tx, TxPhase::NoTx) {
            return Err(Error::Misc("no write transaction is open"));
        }
        self.work = Vec::new();
        self.tx = TxPhase::NoTx;
        Ok(())
    }

    /// Opens a read scope over the durable store: the reader gets its own
    /// snapshot of the collection's documents and observes only committed
    /// data. The plan token is accepted and ignored; documents come in
    /// insertion order.
    pub fn begin_read(&mut self, db: &str, coll: &str, _plan: Option<QueryPlan>) -> (r: Result<
        MemReader,
        Error,
    >)
        requires
            conn_inv(old(self)@),
        ensures
            conn_inv(final(self)@),
            final(self)@ == old(self)@,
            r matches Ok(rd) && reader_inv(rd@) && begin_read_post(old(self)@, rd@, db@, coll@),
    {
        let docs = match find_coll(&self.colls, db, coll) {
            Some(i) => {
                proof {
                    lemma_coll_at_is_the(colls_view(self.colls@), db@, coll@, i as int);
                }
                copy_docs(&self.colls[i].docs)
            },
            None => Vec::new(),
        };
        let rd = MemReader { docs, pos: 0, keys: 0 };
        proof {
            assert(rd@.docs =~= docs_of(self@.durable, db@, coll@));
        }
        Ok(rd)
    }
}

} // verus!

verus! {

proof fn lemma_unique_indexes_push(ixs: Seq<IndexModel>, x: IndexModel)
    requires
        unique_indexes(ixs),
        !has_index(ixs, x.name),
    ensures
        unique_indexes(ixs.push(x)),
{
    let t = ixs.push(x);
    assert forall|a: int, b: int|
        0 <= a < b < t.len() implies (#[trigger] t[a]).name != (#[trigger] t[b]).name by {
        if b < ixs.len() {
            assert(t[a] == ixs[a] && t[b] == ixs[b]);
        } else {
            assert(t[b] == x && t[a] == ixs[a]);
            if ixs[a].name == x.name {
                assert(has_index(ixs, x.name));
            }
        }
    }
}

/// Dropping the rejected suffix: once a prefix of the batch is rejected, the
/// whole batch is.
proof fn lemma_apply_prefix_none(s: Seq<CollModel>, ds: Seq<IndexModel>, k: int)
    requires
        0 <= k <= ds.len(),
        apply_indexes(s, ds.take(k)) is None,
    ensures
        apply_indexes(s, ds) is None,
    decreases ds.len() - k,
{
    if k == ds.len() {
        assert(ds.take(k) =~= ds);
    } else {
        assert(ds.take(k + 1).drop_last() =~= ds.take(k));
        assert(ds.take(k + 1).len() == k + 1);
        assert(apply_indexes(s, ds.take(k + 1)) is None);
        lemma_apply_prefix_none(s, ds, k + 1);
    }
}

/// Filtering a well-formed store keeps it well formed, and every kept entry
/// is an entry of the original store.
proof fn lemma_wf_filter(s: Seq<CollModel>, pred: spec_fn(CollModel) -> bool)
    requires
        colls_wf(s),
    ensures
        colls_wf(s.filter(pred)),
        forall|j: int|
            0 <= j < s.filter(pred).len() ==> exists|k: int|
                0 <= k < s.len() && #[trigger] s.filter(pred)[j] == s[k],
    decreases s.len(),
{
    reveal(Seq::filter);
    if s.len() == 0 {
        assert(s.filter(pred) =~= Seq::<CollModel>::empty());
    } else {
        let t = s.drop_last();
        let last = s.last();
        assert(colls_wf(t)) by {
            assert(forall|k: int| 0 <= k < t.len() ==> t[k] == s[k]);
        }
        lemma_wf_filter(t, pred);
        let ft = t.filter(pred);
        if pred(last) {
            assert(s.filter(pred) == ft.push(last));
            assert(!has_coll(ft, last.db, last.coll)) by {
                if has_coll(ft, last.db, last.coll) {
                    let j = choose|j: int|
                        0 <= j < ft.len() && is_coll(#[trigger] ft[j], last.db, last.coll);
                    let k = choose|k: int| 0 <= k < t.len() && ft[j] == t[k];
                    assert(t[k] == s[k]);
                    assert(is_coll(s[k], s[s.len() - 1].db, s[s.len() - 1].coll));
                    assert(false);
                }
            }
            lemma_wf_push_new(ft, last);
            assert forall|j: int| 0 <= j < s.filter(pred).len() implies exists|k: int|
                0 <= k < s.len() && #[trigger] s.filter(pred)[j] == s[k] by {
                if j < ft.len() {
                    let k = choose|k: int| 0 <= k < t.len() && ft[j] == t[k];
                    assert(s.filter(pred)[j] == s[k]);
                } else {
                    assert(s.filter(pred)[j] == s[s.len() - 1]);
                }
            }
        } else {
            assert(s.filter(pred) == ft);
            assert forall|j: int| 0 <= j < s.filter(pred).len() implies exists|k: int|
                0 <= k < s.len() && #[trigger] s.filter(pred)[j] == s[k] by {
                let k = choose|k: int| 0 <= k < t.len() && ft[j] == t[k];
                assert(s.filter(pred)[j] == s[k]);
            }
        }
    }
}

fn valid_keys_exec(v: &Vec<IndexKey>) -> (r: bool)
    ensures
        r == valid_keys(key_views(v@)),
{
    if v.len() == 0 {
        return false;
    }
    let mut j: usize = 0;
    while j < v.len()
        invariant
            j <= v.len(),
            v@.len() > 0,
            forall|k: int|
                0 <= k < j ==> (#[trigger] key_views(v@)[k]).direction == 1 || key_views(
                    v@,
                )[k].direction == -1,
        decreases v.len() - j,
    {
        let d = v[j].direction;
        if !(d == 1 || d == -1) {
            proof {
                assert(key_views(v@)[j as int].direction == d as int);
            }
            return false;
        }
        j = j + 1;
    }
    true
}

fn keys_eq(a: &Vec<IndexKey>, b: &Vec<IndexKey>) -> (r: bool)
    ensures
        r == (key_views(a@) == key_views(b@)),
{
    if a.len() != b.len() {
        proof {
            assert(key_views(a@).len() != key_views(b@).len());
        }
        return false;
    }
    let mut j: usize = 0;
    while j < a.len()
        invariant
            j <= a.len(),
            a@.len() == b@.len(),
            forall|k: int| 0 <= k < j ==> key_views(a@)[k] == key_views(b@)[k],
        decreases a.len() - j,
    {
        let same_field = str_eq(a[j].field.as_str(), b[j].field.as_str());
        if !(same_field && a[j].direction == b[j].direction) {
            proof {
                assert(key_views(a@)[j as int] != key_views(b@)[j as int]);
            }
            return false;
        }
        proof {
            assert(key_views(a@)[j as int] =~= key_views(b@)[j as int]);
        }
        j = j + 1;
    }
    proof {
        assert(key_views(a@) =~= key_views(b@));
    }
    true
}

/// Give the collection at `i` a new name, moving its indexes with it.
fn rename_coll_at(v: &mut Vec<Coll>, i: usize, ndb: &str, ncl: &str)
    requires
        i < old(v)@.len(),
    ensures
        colls_view(final(v)@) == colls_view(old(v)@).update(
            i as int,
            renamed_coll(colls_view(old(v)@)[i as int], ndb@, ncl@),
        ),
{
    let ghost pre = colls_view(v@);
    let mut c = v.remove(i);
    let ghost cm = c@;
    let mut nix: Vec<IndexInfo> = Vec::new();
    let mut j: usize = 0;
    while j < c.indexes.len()
        invariant
            j <= c.indexes.len(),
            c@ == cm,
            nix@.len() == j,
            forall|k: int|
                0 <= k < j ==> (#[trigger] nix@[k])@ == (IndexModel {
                    db: ndb@,
                    coll: ncl@,
                    ..cm.indexes[k]
                }),
        decreases c.indexes.len() - j,
    {
        let mut y = copy_index_info(&c.indexes[j]);
        y.db = ndb.to_owned();
        y.coll = ncl.to_owned();
        proof {
            assert(y@ =~~= (IndexModel { db: ndb@, coll: ncl@, ..cm.indexes[j as int] }));
        }
        nix.push(y);
        j = j + 1;
    }
    c.db = ndb.to_owned();
    c.coll = ncl.to_owned();
    c.indexes = nix;
    let ghost cm2 = c@;
    v.insert(i, c);
    proof {
        assert(cm2.indexes =~= renamed_coll(pre[i as int], ndb@, ncl@).indexes);
        assert(cm2 =~~= renamed_coll(pre[i as int], ndb@, ncl@));
        lemma_cv_remove(old(v)@, i as int);
        lemma_cv_insert(old(v)@.remove(i as int), i as int, c);
        lemma_remove_insert(pre, i as int, cm2);
    }
}

impl MemConnection {
    /// A snapshot listing of every index of every durable collection, in
    /// store order.
    pub fn list_indexes(&mut self) -> (r: Result<Vec<IndexInfo>, Error>)
        requires
            conn_inv(old(self)@),
        ensures
            conn_inv(final(self)@),
            list_indexes_post(old(self)@, final(self)@, r),
    {
        let ghost cv = colls_view(self.colls@);
        let mut out: Vec<IndexInfo> = Vec::new();
        let mut i: usize = 0;
        proof {
            assert(cv.take(0) =~= Seq::<CollModel>::empty());
            assert(index_views(out@) =~= all_indexes(cv.take(0)));
        }
        while i < self.colls.len()
            invariant
                i <= self.colls.len(),
                cv == colls_view(self.colls@),
                index_views(out@) == all_indexes(cv.take(i as int)),
            decreases self.colls.len() - i,
        {
            let mut j: usize = 0;
            proof {
                assert(cv[i as int].indexes.take(0) =~= Seq::<IndexModel>::empty());
                assert(index_views(out@) + cv[i as int].indexes.take(0) =~= index_views(out@));
            }
            while j < self.colls[i].indexes.len()
                invariant
                    i < self.colls.len(),
                    j <= self.colls@[i as int].indexes@.len(),
                    cv == colls_view(self.colls@),
                    cv[i as int].indexes.len() == self.colls@[i as int].indexes@.len(),
                    index_views(out@) == all_indexes(cv.take(i as int)) + cv[i as int].indexes.take(
                        j as int,
                    ),
                decreases self.colls@[i as int].indexes@.len() - j,
            {
                let y = copy_index_info(&self.colls[i].indexes[j]);
                let ghost ov = out@;
                out.push(y);
                proof {
                    lemma_iv_push(ov, y);
                    assert(cv[i as int].indexes[j as int] == index_views(
                        self.colls@[i as int].indexes@,
                    )[j as int]);
                    assert(y@ == cv[i as int].indexes[j as int]);
                    assert(index_views(out@) =~= all_indexes(cv.take(i as int)) + cv[
                        i as int
                    ].indexes.take(j + 1));
                }
                j = j + 1;
            }
            proof {
                assert(cv[i as int].indexes.take(
                    self.colls@[i as int].indexes@.len() as int,
                ) =~= cv[i as int].indexes);
                assert(cv.take(i + 1).drop_last() =~= cv.take(i as int));
                assert(cv.take(i + 1).last() == cv[i as int]);
                assert(all_indexes(cv.take(i + 1)) == all_indexes(cv.take(i as int)) + cv[
                    i as int
                ].indexes);
            }
            i = i + 1;
        }
        proof {
            assert(cv.take(cv.len() as int) =~= cv);
        }
        Ok(out)
    }

    /// Removes every collection of `db`, reporting whether the database had
    /// any content.
    pub fn drop_database(&mut self, db: &str) -> (r: Result<bool, Error>)
        requires
            conn_inv(old(self)@),
        ensures
            conn_inv(final(self)@),
            drop_database_post(old(self)@, final(self)@, db@, r),
    {
        if !(matches!(self.tx, TxPhase::NoTx)) {
            return Err(Error::Misc("schema operations are refused inside a write transaction"));
        }
        let ghost cv = colls_view(self.colls@);
        let ghost pred = not_in_db(db@);
        let dbo = db.to_owned();
        let mut kept: Vec<Coll> = Vec::new();
        let mut found = false;
        let mut i: usize = 0;
        proof {
            reveal(Seq::filter);
            assert(cv.take(0) =~= Seq::<CollModel>::empty());
            assert(colls_view(kept@) =~= cv.take(0).filter(pred));
        }
        while i < self.colls.len()
            invariant
                i <= self.colls.len(),
                dbo@ == db@,
                pred == not_in_db(db@),
                cv == colls_view(self.colls@),
                colls_view(kept@) == cv.take(i as int).filter(pred),
                found == has_db(cv.take(i as int), db@),
            decreases self.colls.len() - i,
        {
            proof {
                reveal(Seq::filter);
                assert(cv.take(i + 1).drop_last() =~= cv.take(i as int));
                assert(cv.take(i + 1).last() == cv[i as int]);
            }
            if self.colls[i].db == dbo {
                found = true;
                proof {
                    assert(!pred(cv[i as int]));
                    assert(cv.take(i + 1)[i as int].db == db@);
                    assert(has_db(cv.take(i + 1), db@));
                    assert(cv.take(i + 1).filter(pred) == cv.take(i as int).filter(pred));
                }
            } else {
                kept.push(copy_coll(&self.colls[i]));
                proof {
                    assert(pred(cv[i as int]));
                    assert(cv.take(i + 1).filter(pred) == cv.take(i as int).filter(pred).push(
                        cv[i as int],
                    ));
                    assert(colls_view(kept@) =~= cv.take(i + 1).filter(pred));
                    assert(has_db(cv.take(i + 1), db@) == has_db(cv.take(i as int), db@)) by {
                        if has_db(cv.take(i + 1), db@) {
                            let k = choose|k: int|
                                0 <= k < cv.take(i + 1).len() && (#[trigger] cv.take(i + 1)[k]).db
                                    == db@;
                            assert(k != i);
                            assert(cv.take(i as int)[k].db == db@);
                        }
                        if has_db(cv.take(i as int), db@) {
                            let k = choose|k: int|
                                0 <= k < cv.take(i as int).len() && (#[trigger] cv.take(
                                    i as int,
                                )[k]).db == db@;
                            assert(cv.take(i + 1)[k].db == db@);
                        }
                    }
                }
            }
            i = i + 1;
        }
        self.colls = kept;
        proof {
            assert(cv.take(cv.len() as int) =~= cv);
            lemma_wf_filter(cv, pred);
        }
        Ok(found)
    }

    /// Renames a collection given full `db.coll` namespaces. When the target
    /// exists it is refused unless `drop_target` is set, in which case the
    /// target collection and its indexes are destroyed atomically with the
    /// rename; the reported flag says whether that happened.
    pub fn rename_collection(&mut self, old_name: &str, new_name: &str, drop_target: bool) -> (r:
        Result<bool, Error>)
        requires
            conn_inv(old(self)@),
        ensures
            conn_inv(final(self)@),
            rename_collection_post(
                old(self)@,
                final(self)@,
                old_name@,
                new_name@,
                drop_target,
                r,
            ),
    {
        if !(matches!(self.tx, TxPhase::NoTx)) {
            return Err(Error::Misc("schema operations are refused inside a write transaction"));
        }
        let o = match split_ns(old_name) {
            Some(p) => p,
            None => {
                return Err(Error::Misc("the source name is not a db.coll namespace"));
            },
        };
        let n = match split_ns(new_name) {
            Some(p) => p,
            None => {
                return Err(Error::Misc("the target name is not a db.coll namespace"));
            },
        };
        if str_eq(o.0.as_str(), n.0.as_str()) && str_eq(o.1.as_str(), n.1.as_str()) {
            return Err(Error::Misc("source and target are the same collection"));
        }
        let ghost pre = colls_view(self.colls@);
        let si = match find_coll(&self.colls, o.0.as_str(), o.1.as_str()) {
            Some(i) => i,
            None => {
                return Err(Error::Misc("the source collection does not exist"));
            },
        };
        let ghost odb = ns_db(old_name@);
        let ghost ocl = ns_coll(old_name@);
        let ghost ndb = ns_db(new_name@);
        let ghost ncl = ns_coll(new_name@);
        proof {
            lemma_coll_at_is_the(pre, odb, ocl, si as int);
        }
        match find_coll(&self.colls, n.0.as_str(), n.1.as_str()) {
            Some(ti) => {
                if !drop_target {
                    return Err(Error::Misc("the target collection already exists"));
                }
                proof {
                    lemma_coll_at_is_the(pre, ndb, ncl, ti as int);
                    assert(si != ti);
                    lemma_unique_no_other(pre, ti as int);
                    lemma_cv_remove(self.colls@, ti as int);
                    lemma_wf_remove(pre, ti as int);
                }
                self.colls.remove(ti);
                let si2 = if si < ti {
                    si
                } else {
                    si - 1
                };
                let ghost mid = pre.remove(ti as int);
                proof {
                    assert(mid[si2 as int] == pre[si as int]);
                }
                rename_coll_at(&mut self.colls, si2, n.0.as_str(), n.1.as_str());
                proof {
                    let rc = renamed_coll(pre[si as int], ndb, ncl);
                    assert(coll_wf(rc)) by {
                        lemma_renamed_wf(pre[si as int], ndb, ncl);
                    }
                    assert forall|k: int|
                        0 <= k < mid.len() && k != si2 as int implies !is_coll(
                        #[trigger] mid[k],
                        rc.db,
                        rc.coll,
                    ) by {
                        let k0 = if k < ti as int {
                            k
                        } else {
                            k + 1
                        };
                        assert(mid[k] == pre[k0]);
                    }
                    lemma_wf_update(mid, si2 as int, rc);
                }
                Ok(true)
            },
            None => {
                proof {
                    lemma_unique_no_other(pre, si as int);
                }
                rename_coll_at(&mut self.colls, si, n.0.as_str(), n.1.as_str());
                proof {
                    let rc = renamed_coll(pre[si as int], ndb, ncl);
                    assert(coll_wf(rc)) by {
                        lemma_renamed_wf(pre[si as int], ndb, ncl);
                    }
                    assert forall|k: int|
                        0 <= k < pre.len() && k != si as int implies !is_coll(
                        #[trigger] pre[k],
                        rc.db,
                        rc.coll,
                    ) by {
                        assert(!is_coll(pre[k], ndb, ncl));
                    }
                    lemma_wf_update(pre, si as int, rc);
                }
                Ok(false)
            },
        }
    }

    /// Creates a batch of indexes all-or-nothing: if any descriptor is
    /// rejected, no index from the batch persists. Each reported flag says
    /// whether that descriptor created a new index; re-issuing an identical
    /// definition reports `false`.
    pub fn create_indexes(&mut self, indexes: Vec<IndexInfo>) -> (r: Result<Vec<bool>, Error>)
        requires
            conn_inv(old(self)@),
        ensures
            conn_inv(final(self)@),
            create_indexes_post(old(self)@, final(self)@, index_views(indexes@), r),
    {
        if !(matches!(self.tx, TxPhase::NoTx)) {
            return Err(Error::Misc("schema operations are refused inside a write transaction"));
        }
        let ghost cv = colls_view(self.colls@);
        let ghost ds = index_views(indexes@);
        let mut work: Vec<Coll> = copy_colls(&self.colls);
        let mut flags: Vec<bool> = Vec::new();
        let mut k: usize = 0;
        proof {
            assert(ds.take(0) =~= Seq::<IndexModel>::empty());
            assert(flags@ =~= Seq::<bool>::empty());
            assert(apply_indexes(cv, ds.take(0)) == Some((cv, flags@)));
        }
        while k < indexes.len()
            invariant
                k <= indexes.len(),
                self == old(self),
                conn_inv(self@),
                self@.tx is NoTx,
                cv == colls_view(self.colls@),
                ds == index_views(indexes@),
                colls_wf(colls_view(work@)),
                apply_indexes(cv, ds.take(k as int)) == Some((colls_view(work@), flags@)),
                flags@.len() == k,
            decreases indexes.len() - k,
        {
            let ghost wv = colls_view(work@);
            let x = &indexes[k];
            proof {
                assert(ds[k as int] == x@);
                assert(ds.take(k + 1).drop_last() =~= ds.take(k as int));
                assert(ds.take(k + 1).last() == ds[k as int]);
                assert(ds.take(k + 1).len() == k + 1);
            }
            if !valid_keys_exec(&x.keys) {
                proof {
                    assert(apply_one_index(wv, x@) is None);
                    assert(apply_indexes(cv, ds.take(k + 1)) is None);
                    lemma_apply_prefix_none(cv, ds, k + 1);
                }
                return Err(Error::Misc("an index descriptor has an invalid key pattern"));
            }
            match find_coll(&work, x.db.as_str(), x.coll.as_str()) {
                None => {
                    proof {
                        assert(apply_one_index(wv, x@) is None);
                        assert(apply_indexes(cv, ds.take(k + 1)) is None);
                        lemma_apply_prefix_none(cv, ds, k + 1);
                    }
                    return Err(Error::Misc("an index names a collection that does not exist"));
                },
                Some(i) => {
                    proof {
                        lemma_coll_at_is_the(wv, x@.db, x@.coll, i as int);
                    }
                    match find_index(&work[i].indexes, x.name.as_str()) {
                        Some(j) => {
                            proof {
                                lemma_found_is_the_index(wv[i as int].indexes, x@.name, j as int);
                            }
                            let same = keys_eq(&work[i].indexes[j].keys, &x.keys) && bytes_eq(
                                &work[i].indexes[j].options,
                                &x.options,
                            );
                            if same {
                                flags.push(false);
                                proof {
                                    assert(apply_one_index(wv, x@) == Some((wv, false)));
                                    assert(apply_indexes(cv, ds.take(k + 1)) == Some(
                                        (wv, flags@),
                                    ));
                                }
                            } else {
                                proof {
                                    assert(apply_one_index(wv, x@) is None);
                                    assert(apply_indexes(cv, ds.take(k + 1)) is None);
                                    lemma_apply_prefix_none(cv, ds, k + 1);
                                }
                                return Err(
                                    Error::Misc(
                                        "an index with this name exists with a different definition",
                                    ),
                                );
                            }
                        },
                        None => {
                            let y = copy_index_info(x);
                            let ghost wvec = work@;
                            let mut c = work.remove(i);
                            let ghost ixs_pre = c.indexes@;
                            c.indexes.push(y);
                            work.insert(i, c);
                            flags.push(true);
                            proof {
                                lemma_cv_remove(wvec, i as int);
                                lemma_cv_insert(wvec.remove(i as int), i as int, c);
                                lemma_remove_insert(wv, i as int, c@);
                                lemma_iv_push(ixs_pre, y);
                                assert(index_views(ixs_pre) == wv[i as int].indexes);
                                assert(c@ =~~= (CollModel {
                                    indexes: wv[i as int].indexes.push(x@),
                                    ..wv[i as int]
                                }));
                                lemma_unique_indexes_push(wv[i as int].indexes, x@);
                                lemma_unique_no_other(wv, i as int);
                                lemma_wf_update(wv, i as int, c@);
                                assert(apply_one_index(wv, x@) == Some(
                                    (wv.update(i as int, c@), true),
                                ));
                                assert(apply_indexes(cv, ds.take(k + 1)) == Some(
                                    (colls_view(work@), flags@),
                                ));
                            }
                        },
                    }
                },
            }
            k = k + 1;
        }
        self.colls = work;
        proof {
            assert(ds.take(indexes@.len() as int) =~= ds);
        }
        Ok(flags)
    }
}

proof fn lemma_renamed_wf(c: CollModel, ndb: Seq<char>, ncl: Seq<char>)
    requires
        coll_wf(c),
    ensures
        coll_wf(renamed_coll(c, ndb, ncl)),
{
    let rc = renamed_coll(c, ndb, ncl);
    assert(rc.indexes.len() == c.indexes.len());
    assert forall|a: int, b: int|
        0 <= a < b < rc.indexes.len() implies (#[trigger] rc.indexes[a]).name != (
    #[trigger] rc.indexes[b]).name by {
        assert(rc.indexes[a].name == c.indexes[a].name);
        assert(rc.indexes[b].name == c.indexes[b].name);
    }
    assert forall|k: int|
        0 <= k < rc.indexes.len() implies (#[trigger] rc.indexes[k]).db == rc.db
            && rc.indexes[k].coll == rc.coll by {
        assert(rc.indexes[k] == (IndexModel { db: ndb, coll: ncl, ..c.indexes[k] }));
    }
}

} // verus!

verus! {

impl StorageConnection for MemConnection {
    type Reader = MemReader;

    open spec fn model(&self) -> ConnModel {
        self@
    }

    fn create_collection(&mut self, db: &str, coll: &str, options: Vec<u8>) -> (r: Result<
        bool,
        Error,
    >) {
        self.create_collection(db, coll, options)
    }

    fn list_collections(&mut self) -> (r: Result<Vec<(String, String, Vec<u8>)>, Error>) {
        self.list_collections()
    }

    fn list_indexes(&mut self) -> (r: Result<Vec<IndexInfo>, Error>) {
        self.list_indexes()
    }

    fn create_indexes(&mut self, indexes: Vec<IndexInfo>) -> (r: Result<Vec<bool>, Error>) {
        self.create_indexes(indexes)
    }

    fn rename_collection(&mut self, old_name: &str, new_name: &str, drop_target: bool) -> (r:
        Result<bool, Error>) {
        self.rename_collection(old_name, new_name, drop_target)
    }

    fn drop_collection(&mut self, db: &str, coll: &str) -> (r: Result<bool, Error>) {
        self.drop_collection(db, coll)
    }

    fn drop_index(&mut self, db: &str, coll: &str, name: &str) -> (r: Result<bool, Error>) {
        self.drop_index(db, coll, name)
    }

    fn drop_database(&mut self, db: &str) -> (r: Result<bool, Error>) {
        self.drop_database(db)
    }

    fn clear_collection(&mut self, db: &str, coll: &str) -> (r: Result<bool, Error>) {
        self.clear_collection(db, coll)
    }

    fn begin_write_tx(&mut self) -> (r: Result<(), Error>) {
        self.begin_write_tx()
    }

    fn prepare_write(&mut self, db: &str, coll: &str) -> (r: Result<(), Error>) {
        self.prepare_write(db, coll)
    }

    fn unprepare_write(&mut self) -> (r: Result<(), Error>) {
        self.unprepare_write()
    }

    fn insert(&mut self, v: Document) -> (r: Result<(), Error>) {
        self.insert(v)
    }

    fn update(&mut self, v: Document) -> (r: Result<(), Error>) {
        self.update(v)
    }

    fn delete(&mut self, v: Document) -> (r: Result<bool, Error>) {
        self.delete(v)
    }

    fn commit_tx(&mut self) -> (r: Result<(), Error>) {
        self.commit_tx()
    }

    fn rollback_tx(&mut self) -> (r: Result<(), Error>) {
        self.rollback_tx()
    }

    fn begin_read(&mut self, db: &str, coll: &str, plan: Option<QueryPlan>) -> (r: Result<
        MemReader,
        Error,
    >) {
        self.begin_read(db, coll, plan)
    }
}

} // verus!


