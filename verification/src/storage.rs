//! The storage-engine contract: data types, their mathematical models, and
//! the two traits every backend must implement.
//!
//! The semantics of each operation are stated once, as postcondition
//! predicates over [`ConnModel`] and [`ReaderModel`], and the trait contracts
//! bind every backend to them. The policy points the contract fixes are:
//! schema operations are rejected with a state error while a write
//! transaction is open; an index batch is applied all-or-nothing; a reader
//! observes only committed (durable) data, never the uncommitted writes of an
//! open transaction.

use vstd::prelude::*;

use crate::error::Error;

verus! {

// ---------------------------------------------------------------------------
// Exec data types
// ---------------------------------------------------------------------------
/// One stored record: a unique key within its collection, and an opaque,
/// already-encoded payload. The contract never inspects the payload; it
/// locates documents by `id` alone.
pub struct Document {
    pub id: u64,
    pub body: Vec<u8>,
}

/// One component of an index key pattern: a field name and a direction,
/// which is valid only as `1` (ascending) or `-1` (descending).
pub struct IndexKey {
    pub field: String,
    pub direction: i32,
}

/// Static metadata describing one index on one collection; unique per
/// `(db, coll, name)`. The key pattern is `keys`; `options` is an opaque,
/// already-encoded options payload.
pub struct IndexInfo {
    pub db: String,
    pub coll: String,
    pub name: String,
    pub keys: Vec<IndexKey>,
    pub options: Vec<u8>,
}

/// An opaque strategy token produced by an external planner. The contract
/// only passes it through to the backend; the reference backend ignores it
/// and returns documents in insertion order.
pub struct QueryPlan;

// ---------------------------------------------------------------------------
// Mathematical models
// ---------------------------------------------------------------------------
#[verifier::ext_equal]
pub struct DocModel {
    pub id: u64,
    pub body: Seq<u8>,
}

#[verifier::ext_equal]
pub struct IndexKeyModel {
    pub field: Seq<char>,
    pub direction: int,
}

#[verifier::ext_equal]
pub struct IndexModel {
    pub db: Seq<char>,
    pub coll: Seq<char>,
    pub name: Seq<char>,
    pub keys: Seq<IndexKeyModel>,
    pub options: Seq<u8>,
}

#[verifier::ext_equal]
pub struct CollModel {
    pub db: Seq<char>,
    pub coll: Seq<char>,
    pub options: Seq<u8>,
    pub indexes: Seq<IndexModel>,
    pub docs: Seq<DocModel>,
}

/// The write-transaction state of a session: no transaction, a transaction
/// whose working store is `work`, or one that additionally has a prepared
/// mutation target.
#[verifier::ext_equal]
pub enum TxModel {
    NoTx,
    Open { work: Seq<CollModel> },
    Prepared { work: Seq<CollModel>, db: Seq<char>, coll: Seq<char> },
}

/// The model of a whole session: the durable (committed) store, and the
/// transaction state with its uncommitted working store.
#[verifier::ext_equal]
pub struct ConnModel {
    pub durable: Seq<CollModel>,
    pub tx: TxModel,
}

/// The model of a reader: the snapshot it iterates, how far it has advanced,
/// and the diagnostic count of keys examined so far.
#[verifier::ext_equal]
pub struct ReaderModel {
    pub docs: Seq<DocModel>,
    pub pos: int,
    pub keys: int,
}

impl View for Document {
    type V = DocModel;

    open spec fn view(&self) -> DocModel {
        DocModel { id: self.id, body: self.body@ }
    }
}

impl View for IndexKey {
    type V = IndexKeyModel;

    open spec fn view(&self) -> IndexKeyModel {
        IndexKeyModel { field: self.field@, direction: self.direction as int }
    }
}

pub open spec fn key_views(v: Seq<IndexKey>) -> Seq<IndexKeyModel> {
    v.map_values(|k: IndexKey| k@)
}

impl View for IndexInfo {
    type V = IndexModel;

    open spec fn view(&self) -> IndexModel {
        IndexModel {
            db: self.db@,
            coll: self.coll@,
            name: self.name@,
            keys: key_views(self.keys@),
            options: self.options@,
        }
    }
}

pub open spec fn doc_views(v: Seq<Document>) -> Seq<DocModel> {
    v.map_values(|d: Document| d@)
}

pub open spec fn index_views(v: Seq<IndexInfo>) -> Seq<IndexModel> {
    v.map_values(|x: IndexInfo| x@)
}

// ---------------------------------------------------------------------------
// Store predicates
// ---------------------------------------------------------------------------
pub open spec fn is_coll(c: CollModel, db: Seq<char>, coll: Seq<char>) -> bool {
    c.db == db && c.coll == coll
}

pub open spec fn has_coll(s: Seq<CollModel>, db: Seq<char>, coll: Seq<char>) -> bool {
    exists|i: int| 0 <= i < s.len() && is_coll(#[trigger] s[i], db, coll)
}

/// The index of the collection `(db, coll)` in `s`; meaningful only when
/// `has_coll` holds and the store has no duplicate names.
pub open spec fn the_coll(s: Seq<CollModel>, db: Seq<char>, coll: Seq<char>) -> int {
    choose|i: int| 0 <= i < s.len() && is_coll(#[trigger] s[i], db, coll)
}

pub open spec fn has_db(s: Seq<CollModel>, db: Seq<char>) -> bool {
    exists|i: int| 0 <= i < s.len() && (#[trigger] s[i]).db == db
}

pub open spec fn has_index(ixs: Seq<IndexModel>, name: Seq<char>) -> bool {
    exists|j: int| 0 <= j < ixs.len() && (#[trigger] ixs[j]).name == name
}

pub open spec fn the_index(ixs: Seq<IndexModel>, name: Seq<char>) -> int {
    choose|j: int| 0 <= j < ixs.len() && (#[trigger] ixs[j]).name == name
}

pub open spec fn has_doc(ds: Seq<DocModel>, id: u64) -> bool {
    exists|j: int| 0 <= j < ds.len() && (#[trigger] ds[j]).id == id
}

pub open spec fn the_doc(ds: Seq<DocModel>, id: u64) -> int {
    choose|j: int| 0 <= j < ds.len() && (#[trigger] ds[j]).id == id
}

pub open spec fn unique_colls(s: Seq<CollModel>) -> bool {
    forall|i: int, j: int|
        0 <= i < j < s.len() ==> !((#[trigger] s[i]).db == (#[trigger] s[j]).db && s[i].coll
            == s[j].coll)
}

pub open spec fn unique_indexes(ixs: Seq<IndexModel>) -> bool {
    forall|i: int, j: int|
        0 <= i < j < ixs.len() ==> (#[trigger] ixs[i]).name != (#[trigger] ixs[j]).name
}

pub open spec fn unique_docs(ds: Seq<DocModel>) -> bool {
    forall|i: int, j: int|
        0 <= i < j < ds.len() ==> (#[trigger] ds[i]).id != (#[trigger] ds[j]).id
}

/// Well-formedness of one collection: index names and document keys are
/// unique, and every index records the collection that owns it.
pub open spec fn coll_wf(c: CollModel) -> bool {
    &&& unique_indexes(c.indexes)
    &&& unique_docs(c.docs)
    &&& forall|j: int|
        0 <= j < c.indexes.len() ==> (#[trigger] c.indexes[j]).db == c.db && c.indexes[j].coll
            == c.coll
}

pub open spec fn colls_wf(s: Seq<CollModel>) -> bool {
    &&& unique_colls(s)
    &&& forall|i: int| 0 <= i < s.len() ==> coll_wf(#[trigger] s[i])
}

/// The session invariant: the durable store is well formed, so is the working
/// store of an open transaction, and a prepared target always exists in the
/// working store.
pub open spec fn conn_inv(m: ConnModel) -> bool {
    &&& colls_wf(m.durable)
    &&& match m.tx {
        TxModel::NoTx => true,
        TxModel::Open { work } => colls_wf(work),
        TxModel::Prepared { work, db, coll } => colls_wf(work) && has_coll(work, db, coll),
    }
}

pub open spec fn reader_inv(m: ReaderModel) -> bool {
    &&& 0 <= m.pos <= m.docs.len()
    &&& 0 <= m.keys <= u64::MAX
}

/// A key pattern is valid when it is non-empty and every direction is `1` or
/// `-1`.
pub open spec fn valid_keys(ks: Seq<IndexKeyModel>) -> bool {
    &&& ks.len() > 0
    &&& forall|j: int|
        0 <= j < ks.len() ==> (#[trigger] ks[j]).direction == 1 || ks[j].direction == -1
}

pub open spec fn new_coll_model(db: Seq<char>, coll: Seq<char>, options: Seq<u8>) -> CollModel {
    CollModel { db, coll, options, indexes: Seq::empty(), docs: Seq::empty() }
}

/// The documents of collection `(db, coll)` in store `s`; a collection that
/// does not exist reads as empty.
pub open spec fn docs_of(s: Seq<CollModel>, db: Seq<char>, coll: Seq<char>) -> Seq<DocModel> {
    if has_coll(s, db, coll) {
        s[the_coll(s, db, coll)].docs
    } else {
        Seq::empty()
    }
}

/// All index descriptors of the store, collection by collection in store
/// order.
pub open spec fn all_indexes(s: Seq<CollModel>) -> Seq<IndexModel>
    decreases s.len(),
{
    if s.len() == 0 {
        Seq::empty()
    } else {
        all_indexes(s.drop_last()) + s.last().indexes
    }
}

/// In a store without duplicate names, any position holding `(db, coll)` is
/// the canonical one.
pub proof fn lemma_coll_at_is_the(s: Seq<CollModel>, db: Seq<char>, coll: Seq<char>, i: int)
    requires
        unique_colls(s),
        0 <= i < s.len(),
        is_coll(s[i], db, coll),
    ensures
        has_coll(s, db, coll),
        the_coll(s, db, coll) == i,
{
    assert(has_coll(s, db, coll));
    let j = the_coll(s, db, coll);
    assert(0 <= j < s.len() && is_coll(s[j], db, coll));
    if i != j {
        assert(false);
    }
}

// ---------------------------------------------------------------------------
// Namespace strings
// ---------------------------------------------------------------------------
/// `i` is the position of the first `.` in `s`.
pub open spec fn is_first_dot(s: Seq<char>, i: int) -> bool {
    &&& 0 <= i < s.len()
    &&& s[i] == '.'
    &&& forall|k: int| 0 <= k < i ==> s[k] != '.'
}

/// A full collection namespace splits as `db.coll` at its first dot.
pub open spec fn ns_splits(ns: Seq<char>) -> bool {
    exists|i: int| is_first_dot(ns, i)
}

pub open spec fn ns_dot(ns: Seq<char>) -> int {
    choose|i: int| is_first_dot(ns, i)
}

pub open spec fn ns_db(ns: Seq<char>) -> Seq<char> {
    ns.take(ns_dot(ns))
}

pub open spec fn ns_coll(ns: Seq<char>) -> Seq<char> {
    ns.skip(ns_dot(ns) + 1)
}

// ---------------------------------------------------------------------------
// Operation postconditions
// ---------------------------------------------------------------------------
/// A state or argument error: the operation was refused, with a `Misc` error.
pub open spec fn state_err<T>(r: Result<T, Error>) -> bool {
    r matches Err(e) && e is Misc
}

/// `create_collection`: refused while a transaction is open; re-creating an
/// existing collection with the same options reports `false` and changes
/// nothing; an existing collection with different options is an error; a new
/// collection is appended empty and `true` is reported.
pub open spec fn create_collection_post(
    pre: ConnModel,
    post: ConnModel,
    db: Seq<char>,
    coll: Seq<char>,
    options: Seq<u8>,
    r: Result<bool, Error>,
) -> bool {
    if !(pre.tx is NoTx) {
        state_err(r) && post == pre
    } else if has_coll(pre.durable, db, coll) {
        if pre.durable[the_coll(pre.durable, db, coll)].options == options {
            r matches Ok(b) && !b && post == pre
        } else {
            state_err(r) && post == pre
        }
    } else {
        &&& r matches Ok(b) && b
        &&& post.durable == pre.durable.push(new_coll_model(db, coll, options))
        &&& post.tx == pre.tx
    }
}

/// The listing reported by `list_collections` mirrors the durable store
/// entry for entry: name pair and options of each collection, in store order.
pub open spec fn listing_matches(l: Seq<(String, String, Vec<u8>)>, s: Seq<CollModel>) -> bool {
    &&& l.len() == s.len()
    &&& forall|i: int|
        0 <= i < s.len() ==> (#[trigger] l[i]).0@ == s[i].db && l[i].1@ == s[i].coll && l[i].2@
            == s[i].options
}

pub open spec fn list_collections_post(
    pre: ConnModel,
    post: ConnModel,
    r: Result<Vec<(String, String, Vec<u8>)>, Error>,
) -> bool {
    &&& post == pre
    &&& r matches Ok(l) && listing_matches(l@, pre.durable)
}

pub open spec fn list_indexes_post(
    pre: ConnModel,
    post: ConnModel,
    r: Result<Vec<IndexInfo>, Error>,
) -> bool {
    &&& post == pre
    &&& r matches Ok(l) && index_views(l@) == all_indexes(pre.durable)
}

/// One step of batch index creation. `None` is a rejection: an invalid key
/// pattern, a missing collection, or a name already carrying a different
/// definition. Re-issuing an identical definition is accepted idempotently
/// and reports `false`.
pub open spec fn apply_one_index(s: Seq<CollModel>, d: IndexModel) -> Option<
    (Seq<CollModel>, bool),
> {
    if !valid_keys(d.keys) || !has_coll(s, d.db, d.coll) {
        None
    } else {
        let i = the_coll(s, d.db, d.coll);
        let c = s[i];
        if has_index(c.indexes, d.name) {
            let e = c.indexes[the_index(c.indexes, d.name)];
            if e.keys == d.keys && e.options == d.options {
                Some((s, false))
            } else {
                None
            }
        } else {
            Some((s.update(i, CollModel { indexes: c.indexes.push(d), ..c }), true))
        }
    }
}

/// Batch index creation, applied descriptor by descriptor; `None` as soon as
/// one descriptor is rejected.
pub open spec fn apply_indexes(s: Seq<CollModel>, ds: Seq<IndexModel>) -> Option<
    (Seq<CollModel>, Seq<bool>),
>
    decreases ds.len(),
{
    if ds.len() == 0 {
        Some((s, Seq::empty()))
    } else {
        match apply_indexes(s, ds.drop_last()) {
            None => None,
            Some((s1, bs)) => match apply_one_index(s1, ds.last()) {
                None => None,
                Some((s2, b)) => Some((s2, bs.push(b))),
            },
        }
    }
}

/// `create_indexes` is all-or-nothing: if any descriptor of the batch is
/// rejected, the whole call fails and the store is unchanged; otherwise each
/// reported flag says whether that descriptor created a new index.
pub open spec fn create_indexes_post(
    pre: ConnModel,
    post: ConnModel,
    ds: Seq<IndexModel>,
    r: Result<Vec<bool>, Error>,
) -> bool {
    if !(pre.tx is NoTx) {
        state_err(r) && post == pre
    } else {
        match apply_indexes(pre.durable, ds) {
            Some((s2, flags)) => {
                &&& r matches Ok(v) && v@ == flags
                &&& post.durable == s2
                &&& post.tx == pre.tx
            },
            None => state_err(r) && post == pre,
        }
    }
}

/// The collection `c` under its new name, its indexes moved with it.
pub open spec fn renamed_coll(c: CollModel, ndb: Seq<char>, ncl: Seq<char>) -> CollModel {
    CollModel {
        db: ndb,
        coll: ncl,
        options: c.options,
        docs: c.docs,
        indexes: c.indexes.map_values(
            |ix: IndexModel| IndexModel { db: ndb, coll: ncl, ..ix },
        ),
    }
}

/// `rename_collection` takes full `db.coll` namespaces. It is refused while a
/// transaction is open, when a namespace does not split at a dot, when source
/// and target name the same collection, when the source is missing, or when
/// the target exists and `drop_target` is false. With `drop_target` true an
/// existing target (and its indexes) is destroyed atomically with the rename,
/// and the reported flag says whether that happened.
pub open spec fn rename_collection_post(
    pre: ConnModel,
    post: ConnModel,
    old_ns: Seq<char>,
    new_ns: Seq<char>,
    drop_target: bool,
    r: Result<bool, Error>,
) -> bool {
    if !(pre.tx is NoTx) || !ns_splits(old_ns) || !ns_splits(new_ns) {
        state_err(r) && post == pre
    } else {
        let odb = ns_db(old_ns);
        let ocl = ns_coll(old_ns);
        let ndb = ns_db(new_ns);
        let ncl = ns_coll(new_ns);
        if odb == ndb && ocl == ncl {
            state_err(r) && post == pre
        } else if !has_coll(pre.durable, odb, ocl) {
            state_err(r) && post == pre
        } else {
            let si = the_coll(pre.durable, odb, ocl);
            let renamed = renamed_coll(pre.durable[si], ndb, ncl);
            if has_coll(pre.durable, ndb, ncl) {
                if drop_target {
                    let ti = the_coll(pre.durable, ndb, ncl);
                    let si2 = if si < ti {
                        si
                    } else {
                        si - 1
                    };
                    &&& r matches Ok(b) && b
                    &&& post.durable == pre.durable.remove(ti).update(si2, renamed)
                    &&& post.tx == pre.tx
                } else {
                    state_err(r) && post == pre
                }
            } else {
                &&& r matches Ok(b) && !b
                &&& post.durable == pre.durable.update(si, renamed)
                &&& post.tx == pre.tx
            }
        }
    }
}

/// `drop_collection` removes the collection and all its indexes, reporting
/// whether it existed.
pub open spec fn drop_collection_post(
    pre: ConnModel,
    post: ConnModel,
    db: Seq<char>,
    coll: Seq<char>,
    r: Result<bool, Error>,
) -> bool {
    if !(pre.tx is NoTx) {
        state_err(r) && post == pre
    } else if has_coll(pre.durable, db, coll) {
        &&& r matches Ok(b) && b
        &&& post.durable == pre.durable.remove(the_coll(pre.durable, db, coll))
        &&& post.tx == pre.tx
    } else {
        r matches Ok(b) && !b && post == pre
    }
}

/// `drop_index` removes one index by name, reporting whether it existed.
pub open spec fn drop_index_post(
    pre: ConnModel,
    post: ConnModel,
    db: Seq<char>,
    coll: Seq<char>,
    name: Seq<char>,
    r: Result<bool, Error>,
) -> bool {
    if !(pre.tx is NoTx) {
        state_err(r) && post == pre
    } else if has_coll(pre.durable, db, coll) && has_index(
        pre.durable[the_coll(pre.durable, db, coll)].indexes,
        name,
    ) {
        let i = the_coll(pre.durable, db, coll);
        let c = pre.durable[i];
        &&& r matches Ok(b) && b
        &&& post.durable == pre.durable.update(
            i,
            CollModel { indexes: c.indexes.remove(the_index(c.indexes, name)), ..c },
        )
        &&& post.tx == pre.tx
    } else {
        r matches Ok(b) && !b && post == pre
    }
}

/// Keeping a collection when a whole database is dropped: it belongs to some
/// other database.
pub open spec fn not_in_db(db: Seq<char>) -> spec_fn(CollModel) -> bool {
    |c: CollModel| c.db != db
}

/// `drop_database` removes every collection of `db` (and their indexes),
/// reporting whether the database had any content.
pub open spec fn drop_database_post(
    pre: ConnModel,
    post: ConnModel,
    db: Seq<char>,
    r: Result<bool, Error>,
) -> bool {
    if !(pre.tx is NoTx) {
        state_err(r) && post == pre
    } else {
        &&& r matches Ok(b) && b == has_db(pre.durable, db)
        &&& post.durable == pre.durable.filter(not_in_db(db))
        &&& post.tx == pre.tx
    }
}

/// `clear_collection` removes all documents but keeps the collection and its
/// index definitions, reporting whether the collection existed.
pub open spec fn clear_collection_post(
    pre: ConnModel,
    post: ConnModel,
    db: Seq<char>,
    coll: Seq<char>,
    r: Result<bool, Error>,
) -> bool {
    if !(pre.tx is NoTx) {
        state_err(r) && post == pre
    } else if has_coll(pre.durable, db, coll) {
        let i = the_coll(pre.durable, db, coll);
        let c = pre.durable[i];
        &&& r matches Ok(b) && b
        &&& post.durable == pre.durable.update(i, CollModel { docs: Seq::empty(), ..c })
        &&& post.tx == pre.tx
    } else {
        r matches Ok(b) && !b && post == pre
    }
}

/// `begin_write_tx` opens the exclusive write transaction; its working store
/// starts as the durable store. A second open transaction is a state error.
pub open spec fn begin_write_tx_post(pre: ConnModel, post: ConnModel, r: Result<
    (),
    Error,
>) -> bool {
    if pre.tx is NoTx {
        &&& r matches Ok(_)
        &&& post.durable == pre.durable
        &&& post.tx == (TxModel::Open { work: pre.durable })
    } else {
        state_err(r) && post == pre
    }
}

/// The working store once `(db, coll)` is prepared: the target collection is
/// created empty (with empty options) if it is not there yet.
pub open spec fn prepared_work(work: Seq<CollModel>, db: Seq<char>, coll: Seq<char>) -> Seq<
    CollModel,
> {
    if has_coll(work, db, coll) {
        work
    } else {
        work.push(new_coll_model(db, coll, Seq::empty()))
    }
}

/// `prepare_write` selects the mutation target; it is a state error without
/// an open transaction or when a target is already prepared.
pub open spec fn prepare_write_post(
    pre: ConnModel,
    post: ConnModel,
    db: Seq<char>,
    coll: Seq<char>,
    r: Result<(), Error>,
) -> bool {
    match pre.tx {
        TxModel::Open { work } => {
            &&& r matches Ok(_)
            &&& post.durable == pre.durable
            &&& post.tx == (TxModel::Prepared { work: prepared_work(work, db, coll), db, coll })
        },
        _ => state_err(r) && post == pre,
    }
}

/// `unprepare_write` clears the prepared target, keeping the transaction and
/// its working store; a state error when nothing is prepared.
pub open spec fn unprepare_write_post(pre: ConnModel, post: ConnModel, r: Result<
    (),
    Error,
>) -> bool {
    match pre.tx {
        TxModel::Prepared { work, db, coll } => {
            &&& r matches Ok(_)
            &&& post.durable == pre.durable
            &&& post.tx == (TxModel::Open { work })
        },
        _ => state_err(r) && post == pre,
    }
}

/// `insert` appends the document to the prepared collection of the working
/// store; a duplicate key or a missing prepared target is a state error that
/// leaves the transaction unchanged.
pub open spec fn insert_post(pre: ConnModel, post: ConnModel, d: DocModel, r: Result<
    (),
    Error,
>) -> bool {
    match pre.tx {
        TxModel::Prepared { work, db, coll } => {
            if has_coll(work, db, coll) && !has_doc(work[the_coll(work, db, coll)].docs, d.id) {
                let i = the_coll(work, db, coll);
                let c = work[i];
                &&& r matches Ok(_)
                &&& post.durable == pre.durable
                &&& post.tx == (TxModel::Prepared {
                    work: work.update(i, CollModel { docs: c.docs.push(d), ..c }),
                    db,
                    coll,
                })
            } else {
                state_err(r) && post == pre
            }
        },
        _ => state_err(r) && post == pre,
    }
}

/// `update` replaces the stored document carrying the same key; a missing
/// document or a missing prepared target is a state error that leaves the
/// transaction unchanged.
pub open spec fn update_post(pre: ConnModel, post: ConnModel, d: DocModel, r: Result<
    (),
    Error,
>) -> bool {
    match pre.tx {
        TxModel::Prepared { work, db, coll } => {
            if has_coll(work, db, coll) && has_doc(work[the_coll(work, db, coll)].docs, d.id) {
                let i = the_coll(work, db, coll);
                let c = work[i];
                &&& r matches Ok(_)
                &&& post.durable == pre.durable
                &&& post.tx == (TxModel::Prepared {
                    work: work.update(
                        i,
                        CollModel { docs: c.docs.update(the_doc(c.docs, d.id), d), ..c },
                    ),
                    db,
                    coll,
                })
            } else {
                state_err(r) && post == pre
            }
        },
        _ => state_err(r) && post == pre,
    }
}

/// `delete` removes the stored document carrying the same key, reporting
/// whether one existed; a missing prepared target is a state error.
pub open spec fn delete_post(pre: ConnModel, post: ConnModel, d: DocModel, r: Result<
    bool,
    Error,
>) -> bool {
    match pre.tx {
        TxModel::Prepared { work, db, coll } => {
            if has_coll(work, db, coll) && has_doc(work[the_coll(work, db, coll)].docs, d.id) {
                let i = the_coll(work, db, coll);
                let c = work[i];
                &&& r matches Ok(b) && b
                &&& post.durable == pre.durable
                &&& post.tx == (TxModel::Prepared {
                    work: work.update(
                        i,
                        CollModel { docs: c.docs.remove(the_doc(c.docs, d.id)), ..c },
                    ),
                    db,
                    coll,
                })
            } else if has_coll(work, db, coll) {
                r matches Ok(b) && !b && post == pre
            } else {
                state_err(r) && post == pre
            }
        },
        _ => state_err(r) && post == pre,
    }
}

/// The working store of a transaction; the empty store when none is open.
pub open spec fn tx_work(t: TxModel) -> Seq<CollModel> {
    match t {
        TxModel::NoTx => Seq::empty(),
        TxModel::Open { work } => work,
        TxModel::Prepared { work, db, coll } => work,
    }
}

/// `commit_tx` atomically publishes the working store as the new durable
/// store; a state error without an open transaction.
pub open spec fn commit_tx_post(pre: ConnModel, post: ConnModel, r: Result<(), Error>) -> bool {
    match pre.tx {
        TxModel::NoTx => state_err(r) && post == pre,
        TxModel::Open { work } => {
            &&& r matches Ok(_)
            &&& post.durable == work
            &&& post.tx is NoTx
        },
        TxModel::Prepared { work, db, coll } => {
            &&& r matches Ok(_)
            &&& post.durable == work
            &&& post.tx is NoTx
        },
    }
}

/// `rollback_tx` discards the working store; the durable store is exactly
/// what it was before the transaction began. A state error without an open
/// transaction.
pub open spec fn rollback_tx_post(pre: ConnModel, post: ConnModel, r: Result<(), Error>) -> bool {
    if pre.tx is NoTx {
        state_err(r) && post == pre
    } else {
        &&& r matches Ok(_)
        &&& post.durable == pre.durable
        &&& post.tx is NoTx
    }
}

/// A fresh reader over `(db, coll)`: it will yield exactly the durable
/// documents of that collection (a missing collection reads as empty), has
/// examined no keys yet, and has not advanced.
pub open spec fn begin_read_post(
    m: ConnModel,
    rm: ReaderModel,
    db: Seq<char>,
    coll: Seq<char>,
) -> bool {
    &&& rm.docs == docs_of(m.durable, db, coll)
    &&& rm.pos == 0
    &&& rm.keys == 0
}

/// One pull on a reader: either the next document of the snapshot, or a
/// terminal error, or exhaustion. The snapshot never changes, and the keys-
/// examined counter never decreases.
pub open spec fn next_doc_post(pre: ReaderModel, post: ReaderModel, r: Option<
    Result<Document, Error>,
>) -> bool {
    &&& post.docs == pre.docs
    &&& post.keys >= pre.keys
    &&& match r {
        Some(res) => match res {
            Ok(d) => {
                &&& pre.pos < pre.docs.len()
                &&& d@ == pre.docs[pre.pos]
                &&& post.pos == pre.pos + 1
            },
            Err(_) => post.pos == post.docs.len(),
        },
        None => pre.pos == pre.docs.len() && post == pre,
    }
}

// ---------------------------------------------------------------------------
// The traits
// ---------------------------------------------------------------------------
/// A one-shot, forward-only producer of documents for one read scope, with a
/// monotonically non-decreasing diagnostic counter of keys examined. Dropping
/// a reader before exhaustion is legal and releases its resources.
pub trait StorageReader: Sized {
    /// The abstract state of the reader.
    spec fn model(&self) -> ReaderModel;

    /// Pull the next document. `None` signals exhaustion; an `Err` is
    /// terminal: no further valid items may be expected after it.
    fn next_doc(&mut self) -> (r: Option<Result<Document, Error>>)
        requires
            reader_inv(old(self).model()),
        ensures
            reader_inv(final(self).model()),
            next_doc_post(old(self).model(), final(self).model(), r),
    ;

    /// The cumulative count of index or collection keys examined while
    /// producing results so far; purely diagnostic.
    fn get_total_keys_examined(&self) -> (r: u64)
        requires
            reader_inv(self.model()),
        ensures
            r as int == self.model().keys,
    ;
}

/// One logical storage session: schema management, the exclusive write-
/// transaction protocol, and read scopes. Every backend must honor the
/// postcondition predicates of this trait identically.
pub trait StorageConnection: Sized {
    /// The reader type this backend hands out for read scopes.
    type Reader: StorageReader;

    /// The abstract state of the session.
    spec fn model(&self) -> ConnModel;

    fn create_collection(&mut self, db: &str, coll: &str, options: Vec<u8>) -> (r: Result<
        bool,
        Error,
    >)
        requires
            conn_inv(old(self).model()),
        ensures
            conn_inv(final(self).model()),
            create_collection_post(old(self).model(), final(self).model(), db@, coll@, options@, r),
    ;

    fn list_collections(&mut self) -> (r: Result<Vec<(String, String, Vec<u8>)>, Error>)
        requires
            conn_inv(old(self).model()),
        ensures
            conn_inv(final(self).model()),
            list_collections_post(old(self).model(), final(self).model(), r),
    ;

    fn list_indexes(&mut self) -> (r: Result<Vec<IndexInfo>, Error>)
        requires
            conn_inv(old(self).model()),
        ensures
            conn_inv(final(self).model()),
            list_indexes_post(old(self).model(), final(self).model(), r),
    ;

    fn create_indexes(&mut self, indexes: Vec<IndexInfo>) -> (r: Result<Vec<bool>, Error>)
        requires
            conn_inv(old(self).model()),
        ensures
            conn_inv(final(self).model()),
            create_indexes_post(
                old(self).model(),
                final(self).model(),
                index_views(indexes@),
                r,
            ),
    ;

    fn rename_collection(&mut self, old_name: &str, new_name: &str, drop_target: bool) -> (r:
        Result<bool, Error>)
        requires
            conn_inv(old(self).model()),
        ensures
            conn_inv(final(self).model()),
            rename_collection_post(
                old(self).model(),
                final(self).model(),
                old_name@,
                new_name@,
                drop_target,
                r,
            ),
    ;

    fn drop_collection(&mut self, db: &str, coll: &str) -> (r: Result<bool, Error>)
        requires
            conn_inv(old(self).model()),
        ensures
            conn_inv(final(self).model()),
            drop_collection_post(old(self).model(), final(self).model(), db@, coll@, r),
    ;

    fn drop_index(&mut self, db: &str, coll: &str, name: &str) -> (r: Result<bool, Error>)
        requires
            conn_inv(old(self).model()),
        ensures
            conn_inv(final(self).model()),
            drop_index_post(old(self).model(), final(self).model(), db@, coll@, name@, r),
    ;

    fn drop_database(&mut self, db: &str) -> (r: Result<bool, Error>)
        requires
            conn_inv(old(self).model()),
        ensures
            conn_inv(final(self).model()),
            drop_database_post(old(self).model(), final(self).model(), db@, r),
    ;

    fn clear_collection(&mut self, db: &str, coll: &str) -> (r: Result<bool, Error>)
        requires
            conn_inv(old(self).model()),
        ensures
            conn_inv(final(self).model()),
            clear_collection_post(old(self).model(), final(self).model(), db@, coll@, r),
    ;

    fn begin_write_tx(&mut self) -> (r: Result<(), Error>)
        requires
            conn_inv(old(self).model()),
        ensures
            conn_inv(final(self).model()),
            begin_write_tx_post(old(self).model(), final(self).model(), r),
    ;

    fn prepare_write(&mut self, db: &str, coll: &str) -> (r: Result<(), Error>)
        requires
            conn_inv(old(self).model()),
        ensures
            conn_inv(final(self).model()),
            prepare_write_post(old(self).model(), final(self).model(), db@, coll@, r),
    ;

    fn unprepare_write(&mut self) -> (r: Result<(), Error>)
        requires
            conn_inv(old(self).model()),
        ensures
            conn_inv(final(self).model()),
            unprepare_write_post(old(self).model(), final(self).model(), r),
    ;

    fn insert(&mut self, v: Document) -> (r: Result<(), Error>)
        requires
            conn_inv(old(self).model()),
        ensures
            conn_inv(final(self).model()),
            insert_post(old(self).model(), final(self).model(), v@, r),
    ;

    fn update(&mut self, v: Document) -> (r: Result<(), Error>)
        requires
            conn_inv(old(self).model()),
        ensures
            conn_inv(final(self).model()),
            update_post(old(self).model(), final(self).model(), v@, r),
    ;

    fn delete(&mut self, v: Document) -> (r: Result<bool, Error>)
        requires
            conn_inv(old(self).model()),
        ensures
            conn_inv(final(self).model()),
            delete_post(old(self).model(), final(self).model(), v@, r),
    ;

    fn commit_tx(&mut self) -> (r: Result<(), Error>)
        requires
            conn_inv(old(self).model()),
        ensures
            conn_inv(final(self).model()),
            commit_tx_post(old(self).model(), final(self).model(), r),
    ;

    fn rollback_tx(&mut self) -> (r: Result<(), Error>)
        requires
            conn_inv(old(self).model()),
        ensures
            conn_inv(final(self).model()),
            rollback_tx_post(old(self).model(), final(self).model(), r),
    ;

    /// Open a read scope over the durable store: the reader observes only
    /// committed data, never the uncommitted writes of an open transaction.
    fn begin_read(&mut self, db: &str, coll: &str, plan: Option<QueryPlan>) -> (r: Result<
        Self::Reader,
        Error,
    >)
        requires
            conn_inv(old(self).model()),
        ensures
            conn_inv(final(self).model()),
            final(self).model() == old(self).model(),
            r matches Ok(rd) && reader_inv(rd.model()) && begin_read_post(
                old(self).model(),
                rd.model(),
                db@,
                coll@,
            ),
    ;
}

} // verus!
