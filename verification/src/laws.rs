//! The protocol's replay and determinism laws.
//!
//! Everything here is stated over the spec transformers of the store and
//! the pipelines, so the laws hold of exactly what the executable functions
//! are proved to do.

use vstd::prelude::*;

use crate::event::NostrEventV;
use crate::event::create_row_of;
use crate::event::event_nsid;
use crate::event::records_row_of;
use crate::event::spec_apply_create;
use crate::event::spec_apply_records_event;
use crate::event::spec_create_verdict;
use crate::event::CreateVerdict;
use crate::event::create_event_structural;
use crate::event::records_event_structural;
use crate::hashes::hash160_of;
use crate::indexer::BlockDataV;
use crate::indexer::TxDataV;
use crate::indexer::script_create_nsid;
use crate::indexer::spec_apply_block;
use crate::indexer::spec_apply_blocks;
use crate::indexer::spec_apply_creates;
use crate::indexer::spec_apply_output;
use crate::indexer::spec_apply_records;
use crate::indexer::spec_apply_tx;
use crate::indexer::spec_apply_txs;
use crate::indexer::spec_tick;
use crate::store::BlockchainRowV;
use crate::store::DbView;
use crate::store::RecordsRowV;
use crate::store::db_wf;
use crate::store::has_blockchain_nsid;
use crate::store::has_create_nsid;
use crate::store::has_records_key;
use crate::store::name_row_matches;
use crate::store::spec_name_records;
use crate::store::spec_name_records_from;
use crate::store::spec_top_level_names;
use crate::store::spec_top_level_prefix;
use crate::store::spec_insert_namespace;
use crate::store::spec_insert_create;
use crate::store::spec_upsert_records;
use crate::store::upsert_records_seq;

verus! {

/// The identifier announced by output `j` of transaction `i` of a block.
pub open spec fn output_nsid(b: BlockDataV, i: int, j: int) -> Option<Seq<u8>> {
    script_create_nsid(b.txs[i].outputs[j])
}

/// Every identifier a block announces has an anchor in the store.
pub open spec fn block_anchors_present(v: DbView, b: BlockDataV) -> bool {
    forall|i: int, j: int|
        0 <= i < b.txs.len() && 0 <= j < b.txs[i].outputs.len() && (#[trigger] output_nsid(
            b,
            i,
            j,
        )) is Some ==> has_blockchain_nsid(v, output_nsid(b, i, j).unwrap())
}

/// Every identifier announced by the first `n` outputs of `tx` has an
/// anchor in the store.
pub open spec fn tx_anchors_present(v: DbView, tx: TxDataV, n: int) -> bool {
    forall|j: int|
        0 <= j < n && (#[trigger] script_create_nsid(tx.outputs[j])) is Some
            ==> has_blockchain_nsid(v, script_create_nsid(tx.outputs[j]).unwrap())
}

proof fn lemma_insert_ns_mono(v: DbView, row: BlockchainRowV, x: Seq<u8>)
    ensures
        has_blockchain_nsid(v, x) ==> has_blockchain_nsid(spec_insert_namespace(v, row), x),
        has_blockchain_nsid(spec_insert_namespace(v, row), row.nsid),
        spec_insert_namespace(v, row).create_events == v.create_events,
        spec_insert_namespace(v, row).records_events == v.records_events,
        spec_insert_namespace(v, row).genesis == v.genesis,
{
    let w = spec_insert_namespace(v, row);
    if !has_blockchain_nsid(v, row.nsid) {
        assert(w.blockchain[w.blockchain.len() - 1] == row);
        if has_blockchain_nsid(v, x) {
            let i = choose|i: int| 0 <= i < v.blockchain.len() && v.blockchain[i].nsid == x;
            assert(w.blockchain[i].nsid == x);
        }
    }
}

proof fn lemma_apply_output_mono(
    v: DbView,
    b: BlockDataV,
    txid: Seq<u8>,
    vout: u64,
    script: Seq<u8>,
    x: Seq<u8>,
)
    ensures
        has_blockchain_nsid(v, x) ==> has_blockchain_nsid(
            spec_apply_output(v, b, txid, vout, script),
            x,
        ),
        script_create_nsid(script) matches Some(nsid) ==> has_blockchain_nsid(
            spec_apply_output(v, b, txid, vout, script),
            nsid,
        ),
        spec_apply_output(v, b, txid, vout, script).create_events == v.create_events,
        spec_apply_output(v, b, txid, vout, script).records_events == v.records_events,
        spec_apply_output(v, b, txid, vout, script).genesis == v.genesis,
{
    match script_create_nsid(script) {
        Some(nsid) => {
            let row = BlockchainRowV {
                nsid: nsid,
                blockhash: b.blockhash,
                txid: txid,
                vout: vout,
                height: b.height,
            };
            lemma_insert_ns_mono(v, row, x);
            lemma_insert_ns_mono(v, row, nsid);
        },
        None => {},
    }
}

proof fn lemma_apply_tx_mono(v: DbView, b: BlockDataV, tx: TxDataV, n: int, x: Seq<u8>)
    ensures
        has_blockchain_nsid(v, x) ==> has_blockchain_nsid(spec_apply_tx(v, b, tx, n), x),
        spec_apply_tx(v, b, tx, n).create_events == v.create_events,
        spec_apply_tx(v, b, tx, n).records_events == v.records_events,
        spec_apply_tx(v, b, tx, n).genesis == v.genesis,
        tx_anchors_present(spec_apply_tx(v, b, tx, n), tx, n),
    decreases n,
{
    if n > 0 {
        let u = spec_apply_tx(v, b, tx, n - 1);
        let w = spec_apply_tx(v, b, tx, n);
        lemma_apply_tx_mono(v, b, tx, n - 1, x);
        lemma_apply_output_mono(u, b, tx.txid, (n - 1) as u64, tx.outputs[n - 1], x);
        assert forall|j: int|
            0 <= j < n && (#[trigger] script_create_nsid(tx.outputs[j])) is Some implies
        has_blockchain_nsid(w, script_create_nsid(tx.outputs[j]).unwrap()) by {
            let nsid = script_create_nsid(tx.outputs[j]).unwrap();
            if j < n - 1 {
                assert(has_blockchain_nsid(u, nsid));
                lemma_apply_output_mono(u, b, tx.txid, (n - 1) as u64, tx.outputs[n - 1], nsid);
            } else {
                lemma_apply_output_mono(u, b, tx.txid, (n - 1) as u64, tx.outputs[n - 1], nsid);
            }
        }
    }
}

proof fn lemma_apply_txs_mono(v: DbView, b: BlockDataV, n: int, x: Seq<u8>)
    ensures
        has_blockchain_nsid(v, x) ==> has_blockchain_nsid(spec_apply_txs(v, b, n), x),
        spec_apply_txs(v, b, n).create_events == v.create_events,
        spec_apply_txs(v, b, n).records_events == v.records_events,
        spec_apply_txs(v, b, n).genesis == v.genesis,
        forall|i: int, j: int|
            0 <= i < n && 0 <= j < b.txs[i].outputs.len() && (#[trigger] output_nsid(
                b,
                i,
                j,
            )) is Some ==> has_blockchain_nsid(spec_apply_txs(v, b, n), output_nsid(b, i, j).unwrap()),
    decreases n,
{
    if n > 0 {
        let u = spec_apply_txs(v, b, n - 1);
        let w = spec_apply_txs(v, b, n);
        let tx = b.txs[n - 1];
        let m = tx.outputs.len() as int;
        lemma_apply_txs_mono(v, b, n - 1, x);
        lemma_apply_tx_mono(u, b, tx, m, x);
        assert forall|i: int, j: int|
            0 <= i < n && 0 <= j < b.txs[i].outputs.len() && (#[trigger] output_nsid(
                b,
                i,
                j,
            )) is Some implies has_blockchain_nsid(w, output_nsid(b, i, j).unwrap()) by {
            let nsid = output_nsid(b, i, j).unwrap();
            if i < n - 1 {
                assert(has_blockchain_nsid(u, nsid));
                lemma_apply_tx_mono(u, b, tx, m, nsid);
            } else {
                lemma_apply_tx_mono(u, b, tx, m, nsid);
                assert(tx_anchors_present(w, tx, m));
                assert(script_create_nsid(tx.outputs[j]) == output_nsid(b, i, j));
            }
        }
    }
}

/// After a block is applied, every identifier it announces is anchored, and
/// the block phase touches nothing but the anchor table.
pub proof fn lemma_apply_block_present(v: DbView, b: BlockDataV)
    ensures
        block_anchors_present(spec_apply_block(v, b), b),
        forall|x: Seq<u8>|
            has_blockchain_nsid(v, x) ==> has_blockchain_nsid(
                #[trigger] spec_apply_block(v, b),
                x,
            ),
        spec_apply_block(v, b).create_events == v.create_events,
        spec_apply_block(v, b).records_events == v.records_events,
        spec_apply_block(v, b).genesis == v.genesis,
{
    let n = b.txs.len() as int;
    assert forall|x: Seq<u8>| has_blockchain_nsid(v, x) implies has_blockchain_nsid(
        #[trigger] spec_apply_block(v, b),
        x,
    ) by {
        lemma_apply_txs_mono(v, b, n, x);
    }
    lemma_apply_txs_mono(v, b, n, Seq::empty());
}

proof fn lemma_apply_output_noop(v: DbView, b: BlockDataV, txid: Seq<u8>, vout: u64, script: Seq<u8>)
    requires
        script_create_nsid(script) matches Some(nsid) ==> has_blockchain_nsid(v, nsid),
    ensures
        spec_apply_output(v, b, txid, vout, script) == v,
{
}

proof fn lemma_apply_tx_noop(v: DbView, b: BlockDataV, tx: TxDataV, n: int)
    requires
        tx_anchors_present(v, tx, n),
    ensures
        spec_apply_tx(v, b, tx, n) == v,
    decreases n,
{
    if n > 0 {
        lemma_apply_tx_noop(v, b, tx, n - 1);
        lemma_apply_output_noop(v, b, tx.txid, (n - 1) as u64, tx.outputs[n - 1]);
    }
}

proof fn lemma_apply_txs_noop(v: DbView, b: BlockDataV, n: int)
    requires
        forall|i: int, j: int|
            0 <= i < n && 0 <= j < b.txs[i].outputs.len() && (#[trigger] output_nsid(
                b,
                i,
                j,
            )) is Some ==> has_blockchain_nsid(v, output_nsid(b, i, j).unwrap()),
    ensures
        spec_apply_txs(v, b, n) == v,
    decreases n,
{
    if n > 0 {
        lemma_apply_txs_noop(v, b, n - 1);
        let tx = b.txs[n - 1];
        assert forall|j: int|
            0 <= j < tx.outputs.len() && (#[trigger] script_create_nsid(tx.outputs[j])) is Some
                implies has_blockchain_nsid(v, script_create_nsid(tx.outputs[j]).unwrap()) by {
            assert(output_nsid(b, n - 1, j) == script_create_nsid(tx.outputs[j]));
        }
        lemma_apply_tx_noop(v, b, tx, tx.outputs.len() as int);
    }
}

/// A block whose announced identifiers are all anchored already changes
/// nothing.
pub proof fn lemma_apply_block_noop(v: DbView, b: BlockDataV)
    requires
        block_anchors_present(v, b),
    ensures
        spec_apply_block(v, b) == v,
{
    lemma_apply_txs_noop(v, b, b.txs.len() as int);
}

/// Replaying the same block twice leaves the store exactly as one pass
/// left it: the anchor insert is idempotent.
pub proof fn lemma_block_replay(v: DbView, b: BlockDataV)
    ensures
        spec_apply_block(spec_apply_block(v, b), b) == spec_apply_block(v, b),
{
    lemma_apply_block_present(v, b);
    lemma_apply_block_noop(spec_apply_block(v, b), b);
}


/// Every identifier announced by the first `n` blocks is anchored.
pub open spec fn blocks_anchors_present(v: DbView, bs: Seq<BlockDataV>, n: int) -> bool {
    forall|k: int| 0 <= k < n ==> block_anchors_present(v, #[trigger] bs[k])
}

proof fn lemma_apply_blocks_mono(v: DbView, bs: Seq<BlockDataV>, n: int, x: Seq<u8>)
    ensures
        has_blockchain_nsid(v, x) ==> has_blockchain_nsid(spec_apply_blocks(v, bs, n), x),
        spec_apply_blocks(v, bs, n).create_events == v.create_events,
        spec_apply_blocks(v, bs, n).records_events == v.records_events,
        spec_apply_blocks(v, bs, n).genesis == v.genesis,
        blocks_anchors_present(spec_apply_blocks(v, bs, n), bs, n),
    decreases n,
{
    if n > 0 {
        let u = spec_apply_blocks(v, bs, n - 1);
        let w = spec_apply_blocks(v, bs, n);
        lemma_apply_blocks_mono(v, bs, n - 1, x);
        lemma_apply_block_present(u, bs[n - 1]);
        assert forall|k: int| 0 <= k < n implies block_anchors_present(w, #[trigger] bs[k]) by {
            if k < n - 1 {
                assert(block_anchors_present(u, bs[k]));
                assert forall|i: int, j: int|
                    0 <= i < bs[k].txs.len() && 0 <= j < bs[k].txs[i].outputs.len() && (
                    #[trigger] output_nsid(bs[k], i, j)) is Some implies has_blockchain_nsid(
                    w,
                    output_nsid(bs[k], i, j).unwrap(),
                ) by {
                    assert(has_blockchain_nsid(u, output_nsid(bs[k], i, j).unwrap()));
                }
            }
        }
    }
}

proof fn lemma_apply_blocks_noop(v: DbView, bs: Seq<BlockDataV>, n: int)
    requires
        blocks_anchors_present(v, bs, n),
    ensures
        spec_apply_blocks(v, bs, n) == v,
    decreases n,
{
    if n > 0 {
        lemma_apply_blocks_noop(v, bs, n - 1);
        lemma_apply_block_noop(v, bs[n - 1]);
    }
}

proof fn lemma_insert_create_mono(v: DbView, row: crate::store::CreateRowV, x: Seq<u8>)
    ensures
        has_create_nsid(v, x) ==> has_create_nsid(spec_insert_create(v, row), x),
        has_create_nsid(spec_insert_create(v, row), row.nsid),
        spec_insert_create(v, row).blockchain == v.blockchain,
        spec_insert_create(v, row).records_events == v.records_events,
        spec_insert_create(v, row).genesis == v.genesis,
{
    let w = spec_insert_create(v, row);
    if !has_create_nsid(v, row.nsid) {
        assert(w.create_events[w.create_events.len() - 1] == row);
        if has_create_nsid(v, x) {
            let i = choose|i: int| 0 <= i < v.create_events.len() && v.create_events[i].nsid == x;
            assert(w.create_events[i].nsid == x);
        }
    }
}

proof fn lemma_apply_create_mono(v: DbView, e: NostrEventV, x: Seq<u8>)
    ensures
        has_create_nsid(v, x) ==> has_create_nsid(spec_apply_create(v, e), x),
        spec_create_verdict(v, e) == CreateVerdict::Accepted ==> has_create_nsid(
            spec_apply_create(v, e),
            event_nsid(e),
        ),
        spec_create_verdict(v, e) != CreateVerdict::Accepted ==> spec_apply_create(v, e) == v,
        spec_apply_create(v, e).blockchain == v.blockchain,
        spec_apply_create(v, e).records_events == v.records_events,
        spec_apply_create(v, e).genesis == v.genesis,
{
    if spec_create_verdict(v, e) == CreateVerdict::Accepted {
        lemma_insert_create_mono(v, create_row_of(e), x);
        lemma_insert_create_mono(v, create_row_of(e), event_nsid(e));
    }
}

proof fn lemma_apply_creates_mono(v: DbView, es: Seq<NostrEventV>, n: int, x: Seq<u8>)
    ensures
        has_create_nsid(v, x) ==> has_create_nsid(spec_apply_creates(v, es, n), x),
        spec_apply_creates(v, es, n).blockchain == v.blockchain,
        spec_apply_creates(v, es, n).records_events == v.records_events,
        spec_apply_creates(v, es, n).genesis == v.genesis,
    decreases n,
{
    if n > 0 {
        lemma_apply_creates_mono(v, es, n - 1, x);
        lemma_apply_create_mono(spec_apply_creates(v, es, n - 1), es[n - 1], x);
    }
}

/// Replaying the same create event twice leaves the store exactly as one
/// pass left it.
pub proof fn lemma_create_replay(v: DbView, e: NostrEventV)
    ensures
        spec_apply_create(spec_apply_create(v, e), e) == spec_apply_create(v, e),
{
    let w = spec_apply_create(v, e);
    lemma_apply_create_mono(v, e, event_nsid(e));
    if spec_create_verdict(v, e) == CreateVerdict::Accepted {
        assert(has_create_nsid(w, event_nsid(e)));
        assert(spec_create_verdict(w, e) == CreateVerdict::Rejected);
    }
}

/// A create pass over a store that already holds its outcome changes
/// nothing: `w` has the same anchors as the pass's starting point and at
/// least the create rows the pass would produce.
proof fn lemma_apply_creates_noop(base: DbView, es: Seq<NostrEventV>, n: int, w: DbView)
    requires
        0 <= n <= es.len(),
        w.blockchain == base.blockchain,
        forall|x: Seq<u8>|
            has_create_nsid(#[trigger] spec_apply_creates(base, es, n), x) ==> has_create_nsid(
                w,
                x,
            ),
    ensures
        spec_apply_creates(w, es, n) == w,
    decreases n,
{
    if n > 0 {
        let e = es[n - 1];
        let u = spec_apply_creates(base, es, n - 1);
        assert forall|x: Seq<u8>| has_create_nsid(#[trigger] spec_apply_creates(base, es, n - 1), x)
            implies has_create_nsid(w, x) by {
            lemma_apply_create_mono(u, e, x);
        }
        lemma_apply_creates_noop(base, es, n - 1, w);
        lemma_apply_creates_mono(base, es, n - 1, Seq::empty());
        assert(u.blockchain == base.blockchain);
        if create_event_structural(e) && has_blockchain_nsid(w, event_nsid(e)) && !has_create_nsid(
            w,
            event_nsid(e),
        ) {
            assert(has_blockchain_nsid(u, event_nsid(e)));
            if has_create_nsid(u, event_nsid(e)) {
                lemma_apply_create_mono(u, e, event_nsid(e));
                assert(has_create_nsid(spec_apply_creates(base, es, n), event_nsid(e)));
            } else {
                assert(spec_create_verdict(u, e) == CreateVerdict::Accepted);
                lemma_apply_create_mono(u, e, event_nsid(e));
                assert(has_create_nsid(spec_apply_creates(base, es, n), event_nsid(e)));
            }
            assert(false);
        }
        assert(spec_apply_create(w, e) == w);
    }
}

/// The store already outruns the event: its key is present and every row
/// with it is at least as new.
pub open spec fn records_dominated(w: DbView, e: NostrEventV) -> bool {
    records_event_structural(e) ==> {
        &&& has_records_key(w, event_nsid(e), e.pubkey)
        &&& forall|i: int|
            0 <= i < w.records_events.len() && (#[trigger] w.records_events[i]).nsid == event_nsid(
                e,
            ) && w.records_events[i].pubkey == e.pubkey ==> w.records_events[i].created_at
                >= e.created_at
    }
}

/// The shape of an upsert: the key ends up present; every old position is
/// kept or replaced by the offered row (only when strictly newer, key
/// matching); anything appended is the offered row.
proof fn lemma_upsert_shape(v: DbView, row: RecordsRowV)
    ensures
        ({
            let w = spec_upsert_records(v, row);
            &&& has_records_key(w, row.nsid, row.pubkey)
            &&& w.records_events.len() >= v.records_events.len()
            &&& forall|i: int|
                0 <= i < v.records_events.len() ==> ((#[trigger] w.records_events[i])
                    == v.records_events[i] || (w.records_events[i] == row
                    && v.records_events[i].nsid == row.nsid && v.records_events[i].pubkey
                    == row.pubkey && v.records_events[i].created_at < row.created_at))
            &&& forall|i: int|
                v.records_events.len() <= i < w.records_events.len() ==> (
                #[trigger] w.records_events[i]) == row
            &&& w.blockchain == v.blockchain
            &&& w.create_events == v.create_events
            &&& w.genesis == v.genesis
        }),
{
    let w = spec_upsert_records(v, row);
    if has_records_key(v, row.nsid, row.pubkey) {
        let i = choose|i: int|
            0 <= i < v.records_events.len() && v.records_events[i].nsid == row.nsid
                && v.records_events[i].pubkey == row.pubkey;
        if v.records_events[i].created_at < row.created_at {
            assert(w.records_events[i] == row);
        } else {
            assert(w.records_events[i] == v.records_events[i]);
        }
    } else {
        assert(w.records_events[w.records_events.len() - 1] == row);
    }
}

/// After a records event is applied, the store dominates it.
proof fn lemma_records_dominates_after(v: DbView, e: NostrEventV)
    ensures
        records_dominated(spec_apply_records_event(v, e), e),
{
    if records_event_structural(e) {
        lemma_upsert_shape(v, records_row_of(e));
    }
}

/// Applying any records event preserves domination of another.
proof fn lemma_records_dominated_preserved(w: DbView, other: NostrEventV, e: NostrEventV)
    requires
        records_dominated(w, e),
    ensures
        records_dominated(spec_apply_records_event(w, other), e),
{
    if records_event_structural(e) && records_event_structural(other) {
        let row = records_row_of(other);
        let u = spec_apply_records_event(w, other);
        lemma_upsert_shape(w, row);
        if has_records_key(w, event_nsid(e), e.pubkey) {
            let i = choose|i: int|
                0 <= i < w.records_events.len() && w.records_events[i].nsid == event_nsid(e)
                    && w.records_events[i].pubkey == e.pubkey;
            assert(u.records_events[i].nsid == event_nsid(e) && u.records_events[i].pubkey
                == e.pubkey);
            assert(has_records_key(u, event_nsid(e), e.pubkey));
        }
        assert forall|i: int|
            0 <= i < u.records_events.len() && (#[trigger] u.records_events[i]).nsid == event_nsid(
                e,
            ) && u.records_events[i].pubkey == e.pubkey implies u.records_events[i].created_at
            >= e.created_at by {
            if i < w.records_events.len() {
                if u.records_events[i] == w.records_events[i] {
                } else {
                    assert(u.records_events[i] == row);
                    assert(w.records_events[i].nsid == row.nsid && w.records_events[i].pubkey
                        == row.pubkey);
                    assert(w.records_events[i].created_at < row.created_at);
                    assert(w.records_events[i].nsid == event_nsid(e) && w.records_events[i].pubkey
                        == e.pubkey);
                    assert(w.records_events[i].created_at >= e.created_at);
                }
            } else {
                assert(u.records_events[i] == row);
                assert(row.nsid == event_nsid(e) && row.pubkey == e.pubkey);
                assert(!has_records_key(w, row.nsid, row.pubkey));
                assert(has_records_key(w, event_nsid(e), e.pubkey));
                assert(false);
            }
        }
    }
}

/// A records event the store already dominates changes nothing.
proof fn lemma_apply_records_event_noop(w: DbView, e: NostrEventV)
    requires
        records_dominated(w, e),
    ensures
        spec_apply_records_event(w, e) == w,
{
    if records_event_structural(e) {
        let row = records_row_of(e);
        assert(has_records_key(w, row.nsid, row.pubkey));
        assert(upsert_records_seq(w.records_events, row) =~= w.records_events) by {
            assert forall|i: int| 0 <= i < w.records_events.len() implies upsert_records_seq(
                w.records_events,
                row,
            )[i] == w.records_events[i] by {
                if w.records_events[i].nsid == row.nsid && w.records_events[i].pubkey == row.pubkey {
                    assert(w.records_events[i].created_at >= e.created_at);
                }
            }
        }
        assert(spec_apply_records_event(w, e) =~= w);
    }
}

/// After a records pass, the store dominates every event of the pass.
proof fn lemma_apply_records_dominates(v: DbView, es: Seq<NostrEventV>, n: int)
    ensures
        forall|k: int| 0 <= k < n ==> records_dominated(spec_apply_records(v, es, n), #[trigger] es[k]),
    decreases n,
{
    if n > 0 {
        let u = spec_apply_records(v, es, n - 1);
        lemma_apply_records_dominates(v, es, n - 1);
        assert forall|k: int| 0 <= k < n implies records_dominated(
            spec_apply_records(v, es, n),
            #[trigger] es[k],
        ) by {
            if k < n - 1 {
                lemma_records_dominated_preserved(u, es[n - 1], es[k]);
            } else {
                lemma_records_dominates_after(u, es[n - 1]);
            }
        }
    }
}

/// A records pass the store already dominates changes nothing.
proof fn lemma_apply_records_noop(w: DbView, es: Seq<NostrEventV>, n: int)
    requires
        forall|k: int| 0 <= k < n ==> records_dominated(w, #[trigger] es[k]),
    ensures
        spec_apply_records(w, es, n) == w,
    decreases n,
{
    if n > 0 {
        lemma_apply_records_noop(w, es, n - 1);
        lemma_apply_records_event_noop(w, es[n - 1]);
    }
}

/// Replaying the same records event twice leaves the store exactly as one
/// pass left it.
pub proof fn lemma_records_event_replay(v: DbView, e: NostrEventV)
    ensures
        spec_apply_records_event(spec_apply_records_event(v, e), e) == spec_apply_records_event(
            v,
            e,
        ),
{
    lemma_records_dominates_after(v, e);
    lemma_apply_records_event_noop(spec_apply_records_event(v, e), e);
}

proof fn lemma_apply_records_fields(v: DbView, es: Seq<NostrEventV>, n: int)
    ensures
        spec_apply_records(v, es, n).blockchain == v.blockchain,
        spec_apply_records(v, es, n).create_events == v.create_events,
        spec_apply_records(v, es, n).genesis == v.genesis,
    decreases n,
{
    if n > 0 {
        lemma_apply_records_fields(v, es, n - 1);
        let e = es[n - 1];
        if records_event_structural(e) {
            lemma_upsert_shape(spec_apply_records(v, es, n - 1), records_row_of(e));
        }
    }
}

/// Running the full tick twice over the same frozen blockchain and relay
/// state leaves the store exactly as one tick left it: re-indexing is
/// deterministic and idempotent.
pub proof fn lemma_tick_replay(
    v: DbView,
    bs: Seq<BlockDataV>,
    cs: Seq<NostrEventV>,
    rs: Seq<NostrEventV>,
)
    ensures
        spec_tick(spec_tick(v, bs, cs, rs), bs, cs, rs) == spec_tick(v, bs, cs, rs),
{
    let nb = bs.len() as int;
    let nc = cs.len() as int;
    let nr = rs.len() as int;
    let v1 = spec_apply_blocks(v, bs, nb);
    let v2 = spec_apply_creates(v1, cs, nc);
    let v3 = spec_apply_records(v2, rs, nr);
    lemma_apply_blocks_mono(v, bs, nb, Seq::empty());
    lemma_apply_creates_mono(v1, cs, nc, Seq::empty());
    lemma_apply_records_fields(v2, rs, nr);
    assert(v3.blockchain == v1.blockchain);
    // the second block pass changes nothing
    assert(blocks_anchors_present(v3, bs, nb)) by {
        assert forall|k: int| 0 <= k < nb implies block_anchors_present(v3, #[trigger] bs[k]) by {
            assert(block_anchors_present(v1, bs[k]));
        }
    }
    lemma_apply_blocks_noop(v3, bs, nb);
    assert(spec_apply_blocks(v3, bs, nb) == v3);
    // the second create pass changes nothing
    assert(v3.create_events == v2.create_events);
    assert forall|x: Seq<u8>| has_create_nsid(#[trigger] spec_apply_creates(v1, cs, nc), x)
        implies has_create_nsid(v3, x) by {}
    lemma_apply_creates_noop(v1, cs, nc, v3);
    assert(spec_apply_creates(v3, cs, nc) == v3);
    // the second records pass changes nothing
    lemma_apply_records_dominates(v2, rs, nr);
    lemma_apply_records_noop(v3, rs, nr);
    assert(spec_apply_records(v3, rs, nr) == v3);
}

/// Every stored create row ties its identifier to the fingerprint of its
/// name and key.
pub proof fn lemma_create_rows_fingerprint(v: DbView)
    requires
        db_wf(v),
    ensures
        forall|i: int|
            0 <= i < v.create_events.len() ==> (#[trigger] v.create_events[i]).nsid == hash160_of(
                v.create_events[i].name + v.create_events[i].pubkey,
            ),
{
}

/// Newest wins: after an offer, the key is present, at most one row holds
/// it, and that row is at least as new as both the offer and whatever the
/// key held before.
pub proof fn lemma_records_newest_wins(v: DbView, row: RecordsRowV)
    requires
        db_wf(v),
        row.nsid.len() == 20,
        row.pubkey.len() == 32,
        crate::name::is_valid_name(row.name),
    ensures
        db_wf(spec_upsert_records(v, row)),
        has_records_key(spec_upsert_records(v, row), row.nsid, row.pubkey),
        forall|i: int|
            0 <= i < spec_upsert_records(v, row).records_events.len() && (
            #[trigger] spec_upsert_records(v, row).records_events[i]).nsid == row.nsid
                && spec_upsert_records(v, row).records_events[i].pubkey == row.pubkey ==> {
                &&& spec_upsert_records(v, row).records_events[i].created_at >= row.created_at
                &&& forall|j: int|
                    0 <= j < v.records_events.len() && (#[trigger] v.records_events[j]).nsid
                        == row.nsid && v.records_events[j].pubkey == row.pubkey
                        ==> spec_upsert_records(v, row).records_events[i].created_at
                        >= v.records_events[j].created_at
            },
{
    crate::store::lemma_upsert_records_wf(v, row);
    lemma_upsert_shape(v, row);
    let w = spec_upsert_records(v, row);
    assert forall|i: int|
        0 <= i < w.records_events.len() && (#[trigger] w.records_events[i]).nsid == row.nsid
            && w.records_events[i].pubkey == row.pubkey implies {
        &&& w.records_events[i].created_at >= row.created_at
        &&& forall|j: int|
            0 <= j < v.records_events.len() && (#[trigger] v.records_events[j]).nsid == row.nsid
                && v.records_events[j].pubkey == row.pubkey ==> w.records_events[i].created_at
                >= v.records_events[j].created_at
    } by {
        if i < v.records_events.len() {
            if w.records_events[i] == v.records_events[i] {
                assert(w.records_events[i].created_at >= row.created_at);
            }
        }
        assert forall|j: int|
            0 <= j < v.records_events.len() && (#[trigger] v.records_events[j]).nsid == row.nsid
                && v.records_events[j].pubkey == row.pubkey implies w.records_events[i].created_at
            >= v.records_events[j].created_at by {
            if i < v.records_events.len() {
                assert(j == i) by {
                    if j != i {
                        assert(v.records_events[i].nsid == row.nsid && v.records_events[i].pubkey
                            == row.pubkey);
                    }
                }
            } else {
                assert(!has_records_key(v, row.nsid, row.pubkey));
                assert(false);
            }
        }
    }
}


proof fn lemma_name_records_from_resolvable(v: DbView, name: Seq<u8>, k: int)
    requires
        0 <= k <= v.create_events.len(),
    ensures
        spec_name_records_from(v, name, k) is Some <==> exists|i: int|
            k <= i < v.create_events.len() && name_row_matches(v, name, i),
    decreases v.create_events.len() - k,
{
    if k < v.create_events.len() {
        lemma_name_records_from_resolvable(v, name, k + 1);
        if name_row_matches(v, name, k) {
            assert(exists|i: int| k <= i < v.create_events.len() && name_row_matches(v, name, i));
        }
    }
}

/// A name resolves exactly when some create row carries it, its identifier
/// is anchored, and its owner published records: the triple join decides
/// resolvability, nothing else.
pub proof fn lemma_name_resolvable(v: DbView, name: Seq<u8>)
    ensures
        spec_name_records(v, name) is Some <==> exists|i: int|
            0 <= i < v.create_events.len() && name_row_matches(v, name, i),
{
    lemma_name_records_from_resolvable(v, name, 0);
}

/// The explorer list holds exactly the anchored create rows' pairs.
pub proof fn lemma_top_level_names_membership(v: DbView, p: (Seq<u8>, Seq<u8>))
    ensures
        spec_top_level_names(v).contains(p) <==> exists|i: int|
            0 <= i < v.create_events.len() && v.create_events[i].name == p.0
                && v.create_events[i].nsid == p.1 && has_blockchain_nsid(
                v,
                v.create_events[i].nsid,
            ),
{
    lemma_top_level_prefix_membership(v, p, v.create_events.len() as int);
}

proof fn lemma_top_level_prefix_membership(v: DbView, p: (Seq<u8>, Seq<u8>), n: int)
    requires
        0 <= n <= v.create_events.len(),
    ensures
        spec_top_level_prefix(v, n).contains(p) <==> exists|i: int|
            0 <= i < n && v.create_events[i].name == p.0 && v.create_events[i].nsid == p.1
                && has_blockchain_nsid(v, v.create_events[i].nsid),
    decreases n,
{
    if n > 0 {
        lemma_top_level_prefix_membership(v, p, n - 1);
        let rest = spec_top_level_prefix(v, n - 1);
        let whole = spec_top_level_prefix(v, n);
        let r = v.create_events[n - 1];
        if has_blockchain_nsid(v, r.nsid) {
            assert(whole == rest.push((r.name, r.nsid)));
            if whole.contains(p) {
                let j = choose|j: int| 0 <= j < whole.len() && whole[j] == p;
                if j < rest.len() {
                    assert(rest[j] == p);
                    assert(rest.contains(p));
                } else {
                    assert(p == (r.name, r.nsid));
                }
            }
            if rest.contains(p) {
                let j = choose|j: int| 0 <= j < rest.len() && rest[j] == p;
                assert(whole[j] == p);
                assert(whole.contains(p));
            }
            if p == (r.name, r.nsid) {
                assert(whole[whole.len() - 1] == p);
                assert(whole.contains(p));
            }
        } else {
            assert(whole == rest);
        }
    } else {
        assert(spec_top_level_prefix(v, 0).len() == 0);
    }
}

} // verus!
