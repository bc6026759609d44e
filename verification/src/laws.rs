//! The laws of the storage contract, proved once over the model.
//!
//! Each proof function here states a property that holds of every backend
//! satisfying the contract of [`crate::storage`], because it follows from the
//! postcondition predicates alone: what a listing reflects, that a rolled-back
//! transaction has no observable effect, that committed inserts are exactly
//! what a subsequent reader yields, and how the reader's diagnostic counter
//! behaves.

use vstd::prelude::*;

use crate::error::Error;
use crate::storage::ConnModel;
use crate::storage::Document;
use crate::storage::ReaderModel;
use crate::storage::TxModel;
use crate::storage::begin_read_post;
use crate::storage::begin_write_tx_post;
use crate::storage::commit_tx_post;
use crate::storage::conn_inv;
use crate::storage::create_collection_post;
use crate::storage::DocModel;
use crate::storage::docs_of;
use crate::storage::drop_collection_post;
use crate::storage::has_coll;
use crate::storage::insert_post;
use crate::storage::is_coll;
use crate::storage::lemma_coll_at_is_the;
use crate::storage::listing_matches;
use crate::storage::next_doc_post;
use crate::storage::ns_coll;
use crate::storage::ns_db;
use crate::storage::rename_collection_post;
use crate::storage::rollback_tx_post;
use crate::storage::the_coll;
use crate::storage::tx_work;
use crate::storage::unique_colls;

verus! {

/// `list_collections` reflects exactly the existing set: a listing names a
/// collection if and only if the store holds it.
pub proof fn lemma_listing_reflects_store(
    l: Seq<(String, String, Vec<u8>)>,
    s: Seq<crate::storage::CollModel>,
    db: Seq<char>,
    coll: Seq<char>,
)
    requires
        listing_matches(l, s),
    ensures
        (exists|i: int| 0 <= i < l.len() && (#[trigger] l[i]).0@ == db && l[i].1@ == coll)
            <==> has_coll(s, db, coll),
{
    if exists|i: int| 0 <= i < l.len() && (#[trigger] l[i]).0@ == db && l[i].1@ == coll {
        let i = choose|i: int| 0 <= i < l.len() && (#[trigger] l[i]).0@ == db && l[i].1@ == coll;
        assert(is_coll(s[i], db, coll));
    }
    if has_coll(s, db, coll) {
        let i = the_coll(s, db, coll);
        assert(l[i].0@ == db && l[i].1@ == coll);
    }
}

/// A successful `create_collection` makes the collection exist, and changes
/// no other collection's existence.
pub proof fn lemma_create_collection_membership(
    pre: ConnModel,
    post: ConnModel,
    db: Seq<char>,
    coll: Seq<char>,
    options: Seq<u8>,
    r: Result<bool, Error>,
    db2: Seq<char>,
    coll2: Seq<char>,
)
    requires
        conn_inv(pre),
        create_collection_post(pre, post, db, coll, options, r),
        r is Ok,
    ensures
        has_coll(post.durable, db, coll),
        !(db2 == db && coll2 == coll) ==> has_coll(post.durable, db2, coll2) == has_coll(
            pre.durable,
            db2,
            coll2,
        ),
{
    if !has_coll(pre.durable, db, coll) {
        let t = post.durable;
        assert(t == pre.durable.push(crate::storage::new_coll_model(db, coll, options)));
        assert(is_coll(t[t.len() - 1], db, coll));
        if !(db2 == db && coll2 == coll) {
            if has_coll(pre.durable, db2, coll2) {
                let i = the_coll(pre.durable, db2, coll2);
                assert(is_coll(t[i], db2, coll2));
            }
            if has_coll(t, db2, coll2) {
                let i = the_coll(t, db2, coll2);
                assert(i < pre.durable.len());
                assert(is_coll(pre.durable[i], db2, coll2));
            }
        }
    }
}

/// A successful `drop_collection` makes the collection not exist, and changes
/// no other collection's existence.
pub proof fn lemma_drop_collection_membership(
    pre: ConnModel,
    post: ConnModel,
    db: Seq<char>,
    coll: Seq<char>,
    r: Result<bool, Error>,
    db2: Seq<char>,
    coll2: Seq<char>,
)
    requires
        conn_inv(pre),
        drop_collection_post(pre, post, db, coll, r),
        r is Ok,
    ensures
        !has_coll(post.durable, db, coll),
        !(db2 == db && coll2 == coll) ==> has_coll(post.durable, db2, coll2) == has_coll(
            pre.durable,
            db2,
            coll2,
        ),
{
    let s = pre.durable;
    if has_coll(s, db, coll) {
        let i = the_coll(s, db, coll);
        let t = post.durable;
        assert(t == s.remove(i));
        assert(!has_coll(t, db, coll)) by {
            if has_coll(t, db, coll) {
                let j = the_coll(t, db, coll);
                let j0 = if j < i {
                    j
                } else {
                    j + 1
                };
                assert(t[j] == s[j0]);
                assert(is_coll(s[j0], db, coll));
                assert(j0 != i);
                assert(false);
            }
        }
        if !(db2 == db && coll2 == coll) {
            if has_coll(s, db2, coll2) {
                let k = the_coll(s, db2, coll2);
                assert(k != i);
                let k1 = if k < i {
                    k
                } else {
                    k - 1
                };
                assert(t[k1] == s[k]);
                assert(is_coll(t[k1], db2, coll2));
            }
            if has_coll(t, db2, coll2) {
                let j = the_coll(t, db2, coll2);
                let j0 = if j < i {
                    j
                } else {
                    j + 1
                };
                assert(t[j] == s[j0]);
                assert(is_coll(s[j0], db2, coll2));
            }
        }
    }
}

/// A write transaction that is begun and immediately rolled back has no
/// observable effect: both calls succeed, and the durable store — its
/// collections, indexes and documents — is exactly what it was before.
pub proof fn lemma_begin_rollback_is_noop(
    m0: ConnModel,
    m1: ConnModel,
    m2: ConnModel,
    r1: Result<(), Error>,
    r2: Result<(), Error>,
)
    requires
        conn_inv(m0),
        m0.tx is NoTx,
        begin_write_tx_post(m0, m1, r1),
        rollback_tx_post(m1, m2, r2),
    ensures
        r1 matches Ok(_),
        r2 matches Ok(_),
        m2.durable == m0.durable,
        m2.tx is NoTx,
{
}

/// Whatever a transaction has built up, `commit_tx` publishes it whole: a
/// reader opened afterwards over any collection holds exactly that
/// collection's documents from the transaction's working store — so all
/// documents inserted then committed, however many, are exactly what the
/// reader yields.
pub proof fn lemma_commit_publishes_working_store(
    m1: ConnModel,
    m2: ConnModel,
    rm: ReaderModel,
    db: Seq<char>,
    coll: Seq<char>,
    r2: Result<(), Error>,
)
    requires
        conn_inv(m1),
        !(m1.tx is NoTx),
        commit_tx_post(m1, m2, r2),
        begin_read_post(m2, rm, db, coll),
    ensures
        r2 matches Ok(_),
        rm.docs == docs_of(tx_work(m1.tx), db, coll),
{
}

/// A document inserted while `(db, coll)` is prepared and then committed is
/// exactly appended to what a subsequent reader over that collection yields:
/// the reader's snapshot is the prepared collection's documents plus the
/// inserted one, nothing else.
pub proof fn lemma_insert_commit_read(
    m0: ConnModel,
    work: Seq<crate::storage::CollModel>,
    db: Seq<char>,
    coll: Seq<char>,
    d: DocModel,
    m1: ConnModel,
    m2: ConnModel,
    rm: ReaderModel,
    r1: Result<(), Error>,
    r2: Result<(), Error>,
)
    requires
        conn_inv(m0),
        m0.tx == (TxModel::Prepared { work, db, coll }),
        insert_post(m0, m1, d, r1),
        r1 is Ok,
        commit_tx_post(m1, m2, r2),
        begin_read_post(m2, rm, db, coll),
    ensures
        r2 matches Ok(_),
        rm.docs == docs_of(work, db, coll).push(d),
{
    let i = the_coll(work, db, coll);
    let c = work[i];
    let c1 = crate::storage::CollModel { docs: c.docs.push(d), ..c };
    let work1 = work.update(i, c1);
    assert(m1.tx == (TxModel::Prepared { work: work1, db, coll }));
    assert(m2.durable == work1);
    assert(unique_colls(work1)) by {
        assert forall|a: int, b: int| 0 <= a < b < work1.len() implies !((#[trigger] work1[a]).db
            == (#[trigger] work1[b]).db && work1[a].coll == work1[b].coll) by {
            assert(work1[a].db == work[a].db && work1[a].coll == work[a].coll);
            assert(work1[b].db == work[b].db && work1[b].coll == work[b].coll);
        }
    }
    assert(is_coll(work1[i], db, coll));
    lemma_coll_at_is_the(work1, db, coll, i);
    assert(rm.docs == docs_of(work1, db, coll));
    assert(docs_of(work1, db, coll) == c.docs.push(d));
}

/// A successful rename makes the source collection stop existing and the
/// target collection exist, whether or not an existing target was dropped on
/// the way.
pub proof fn lemma_rename_moves_the_collection(
    pre: ConnModel,
    post: ConnModel,
    old_ns: Seq<char>,
    new_ns: Seq<char>,
    drop_target: bool,
    r: Result<bool, Error>,
)
    requires
        conn_inv(pre),
        rename_collection_post(pre, post, old_ns, new_ns, drop_target, r),
        r is Ok,
    ensures
        !has_coll(post.durable, ns_db(old_ns), ns_coll(old_ns)),
        has_coll(post.durable, ns_db(new_ns), ns_coll(new_ns)),
{
    let s = pre.durable;
    let t = post.durable;
    let odb = ns_db(old_ns);
    let ocl = ns_coll(old_ns);
    let ndb = ns_db(new_ns);
    let ncl = ns_coll(new_ns);
    let si = the_coll(s, odb, ocl);
    if has_coll(s, ndb, ncl) {
        let ti = the_coll(s, ndb, ncl);
        let si2 = if si < ti {
            si
        } else {
            si - 1
        };
        assert(is_coll(t[si2], ndb, ncl));
        assert(!has_coll(t, odb, ocl)) by {
            if has_coll(t, odb, ocl) {
                let j = the_coll(t, odb, ocl);
                assert(j != si2);
                let j0 = if j < ti {
                    j
                } else {
                    j + 1
                };
                assert(t[j] == s.remove(ti)[j]);
                assert(s.remove(ti)[j] == s[j0]);
                assert(is_coll(s[j0], odb, ocl));
                assert(j0 != ti);
                lemma_coll_at_is_the(s, odb, ocl, j0);
                assert(j0 == si);
                assert(false);
            }
        }
    } else {
        assert(is_coll(t[si], ndb, ncl));
        assert(!has_coll(t, odb, ocl)) by {
            if has_coll(t, odb, ocl) {
                let j = the_coll(t, odb, ocl);
                assert(j != si);
                assert(t[j] == s[j]);
                lemma_coll_at_is_the(s, odb, ocl, j);
                assert(false);
            }
        }
    }
}

/// The keys-examined counter of a reader never decreases across pulls.
pub proof fn lemma_keys_examined_nondecreasing(
    pre: ReaderModel,
    post: ReaderModel,
    r: Option<Result<Document, Error>>,
)
    requires
        next_doc_post(pre, post, r),
    ensures
        post.keys >= pre.keys,
{
}

/// A reader that has done no scan work yet reports zero keys examined: the
/// counter of a freshly opened read scope is zero, before any pull.
pub proof fn lemma_fresh_reader_unexamined(
    m: ConnModel,
    rm: ReaderModel,
    db: Seq<char>,
    coll: Seq<char>,
)
    requires
        begin_read_post(m, rm, db, coll),
    ensures
        rm.keys == 0,
        rm.pos == 0,
{
}

} // verus!
