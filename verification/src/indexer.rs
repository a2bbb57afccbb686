//! The three pipelines, as pure steps over the store.
//!
//! The adapters fetch blocks over RPC and events from the relay pool; the
//! functions here consume those as plain data, in their natural order, and
//! apply the protocol's rules to the store. Each step's effect is stated by
//! a spec transformer, so that replay and determinism properties are
//! provable about whole ticks.

use vstd::prelude::*;

use crate::bytes::bytes_of;
use crate::event::NostrEvent;
use crate::event::NostrEventV;
use crate::event::index_create_event;
use crate::event::index_records_event;
use crate::event::spec_apply_create;
use crate::event::spec_apply_records_event;
use crate::kinds::NomenKind;
use crate::opreturn::is_nomen_payload;
use crate::opreturn::op_return_payload;
use crate::opreturn::parse_op_return;
use crate::opreturn::payload_kind;
use crate::opreturn::payload_nsid;
use crate::store::BlockchainRowV;
use crate::store::Db;
use crate::store::DbView;
use crate::store::spec_insert_namespace;

verus! {

/// One transaction, reduced to what the indexer reads: its id and the
/// script bytes of each output, in output order.
pub struct TxData {
    pub txid: Vec<u8>,
    pub outputs: Vec<Vec<u8>>,
}

/// The mathematical image of a [`TxData`].
#[verifier::ext_equal]
pub struct TxDataV {
    pub txid: Seq<u8>,
    pub outputs: Seq<Seq<u8>>,
}

impl View for TxData {
    type V = TxDataV;

    open spec fn view(&self) -> TxDataV {
        TxDataV { txid: self.txid@, outputs: self.outputs@.map_values(|o: Vec<u8>| o@) }
    }
}

/// One block, reduced to what the indexer reads: height, hash, and its
/// transactions in on-chain order.
pub struct BlockData {
    pub height: u64,
    pub blockhash: Vec<u8>,
    pub txs: Vec<TxData>,
}

/// The mathematical image of a [`BlockData`].
#[verifier::ext_equal]
pub struct BlockDataV {
    pub height: u64,
    pub blockhash: Seq<u8>,
    pub txs: Seq<TxDataV>,
}

impl View for BlockData {
    type V = BlockDataV;

    open spec fn view(&self) -> BlockDataV {
        BlockDataV {
            height: self.height,
            blockhash: self.blockhash@,
            txs: self.txs@.map_values(|t: TxData| t@),
        }
    }
}

/// The identifier an output announces: present exactly when the script is
/// an OP_RETURN whose data is a well-formed payload of the create kind.
/// Transfer payloads are reserved and skipped.
pub open spec fn script_create_nsid(script: Seq<u8>) -> Option<Seq<u8>> {
    if script.len() >= 2 && script[0] == 0x6a && is_nomen_payload(
        script.subrange(2, script.len() as int),
    ) && payload_kind(script.subrange(2, script.len() as int)) == NomenKind::Create {
        Some(payload_nsid(script.subrange(2, script.len() as int)))
    } else {
        None
    }
}

/// The store after one output of `tx` in block `b` is examined.
pub open spec fn spec_apply_output(
    v: DbView,
    b: BlockDataV,
    txid: Seq<u8>,
    vout: u64,
    script: Seq<u8>,
) -> DbView {
    match script_create_nsid(script) {
        Some(nsid) => spec_insert_namespace(
            v,
            (BlockchainRowV {
                nsid: nsid,
                blockhash: b.blockhash,
                txid: txid,
                vout: vout,
                height: b.height,
            }),
        ),
        None => v,
    }
}

/// The store after the first `n` outputs of `tx` are examined, in order.
pub open spec fn spec_apply_tx(v: DbView, b: BlockDataV, tx: TxDataV, n: int) -> DbView
    decreases n,
{
    if n <= 0 {
        v
    } else {
        spec_apply_output(
            spec_apply_tx(v, b, tx, n - 1),
            b,
            tx.txid,
            (n - 1) as u64,
            tx.outputs[n - 1],
        )
    }
}

/// The store after the first `n` transactions of `b` are examined, in order.
pub open spec fn spec_apply_txs(v: DbView, b: BlockDataV, n: int) -> DbView
    decreases n,
{
    if n <= 0 {
        v
    } else {
        spec_apply_tx(
            spec_apply_txs(v, b, n - 1),
            b,
            b.txs[n - 1],
            b.txs[n - 1].outputs.len() as int,
        )
    }
}

/// The store after one whole block is examined.
pub open spec fn spec_apply_block(v: DbView, b: BlockDataV) -> DbView {
    spec_apply_txs(v, b, b.txs.len() as int)
}

/// The store after the first `n` blocks are examined, in order.
pub open spec fn spec_apply_blocks(v: DbView, bs: Seq<BlockDataV>, n: int) -> DbView
    decreases n,
{
    if n <= 0 {
        v
    } else {
        spec_apply_block(spec_apply_blocks(v, bs, n - 1), bs[n - 1])
    }
}

/// The store after the first `n` create events are examined, in order.
pub open spec fn spec_apply_creates(v: DbView, es: Seq<NostrEventV>, n: int) -> DbView
    decreases n,
{
    if n <= 0 {
        v
    } else {
        spec_apply_create(spec_apply_creates(v, es, n - 1), es[n - 1])
    }
}

/// The store after the first `n` records events are examined, in order.
pub open spec fn spec_apply_records(v: DbView, es: Seq<NostrEventV>, n: int) -> DbView
    decreases n,
{
    if n <= 0 {
        v
    } else {
        spec_apply_records_event(spec_apply_records(v, es, n - 1), es[n - 1])
    }
}

/// The views of a list of blocks.
pub open spec fn blocks_view(bs: Seq<BlockData>) -> Seq<BlockDataV> {
    bs.map_values(|b: BlockData| b@)
}

/// The views of a list of events.
pub open spec fn events_view(es: Seq<NostrEvent>) -> Seq<NostrEventV> {
    es.map_values(|e: NostrEvent| e@)
}

/// The store after one scheduler tick over frozen inputs: the blocks, then
/// the create events, then the records events.
pub open spec fn spec_tick(
    v: DbView,
    bs: Seq<BlockDataV>,
    cs: Seq<NostrEventV>,
    rs: Seq<NostrEventV>,
) -> DbView {
    spec_apply_records(
        spec_apply_creates(spec_apply_blocks(v, bs, bs.len() as int), cs, cs.len() as int),
        rs,
        rs.len() as int,
    )
}

/// Whether `height` may be indexed under a tip at `tip`: the indexer trails
/// the tip by `confirmations` blocks to absorb reorgs, so it refuses any
/// height with fewer than that many blocks above it.
pub fn should_index_height(height: u64, tip: u64, confirmations: u64) -> (r: bool)
    ensures
        r == (height + confirmations <= tip),
{
    confirmations <= tip && height <= tip - confirmations
}

/// Scans one block: every output of every transaction, in on-chain order,
/// and an anchor insert for each well-formed create payload. Combined with
/// the first-writer-wins insert this makes the stored anchor of each
/// identifier globally deterministic.
pub fn index_block(db: &mut Db, block: &BlockData)
    requires
        old(db).wf(),
        block.height < u64::MAX,
    ensures
        final(db).wf(),
        final(db)@ == spec_apply_block(old(db)@, block@),
{
    let ghost bv = block@;
    let ntx = block.txs.len();
    let mut i: usize = 0;
    while i < ntx
        invariant
            ntx == block.txs@.len(),
            i <= ntx,
            block.height < u64::MAX,
            bv == block@,
            db.wf(),
            db@ == spec_apply_txs(old(db)@, bv, i as int),
        decreases ntx - i,
    {
        let tx = &block.txs[i];
        assert(tx@ == bv.txs[i as int]);
        let nout = tx.outputs.len();
        let ghost base = db@;
        let mut j: usize = 0;
        while j < nout
            invariant
                nout == tx.outputs@.len(),
                j <= nout,
                block.height < u64::MAX,
                bv == block@,
                tx@ == bv.txs[i as int],
                db.wf(),
                db@ == spec_apply_tx(base, bv, tx@, j as int),
            decreases nout - j,
        {
            let script = &tx.outputs[j];
            assert(script@ == tx@.outputs[j as int]);
            match op_return_payload(script.as_slice()) {
                Some(data) => {
                    match parse_op_return(data.as_slice()) {
                        Some((NomenKind::Create, nsid)) => {
                            proof {
                                assert(data@ == script@.subrange(2, script@.len() as int));
                                assert(script_create_nsid(script@) == Some(nsid@));
                            }
                            let blockhash = bytes_of(block.blockhash.as_slice());
                            let txid = bytes_of(tx.txid.as_slice());
                            db.insert_namespace(
                                nsid.to_vec(),
                                blockhash,
                                txid,
                                j as u64,
                                block.height,
                            );
                        },
                        Some((NomenKind::Transfer, _)) => {
                            proof {
                                assert(script_create_nsid(script@) is None);
                            }
                        },
                        None => {
                            proof {
                                assert(script_create_nsid(script@) is None);
                            }
                        },
                    }
                },
                None => {
                    proof {
                        assert(script_create_nsid(script@) is None);
                    }
                },
            }
            j = j + 1;
        }
        proof {
            assert(tx@.outputs.len() == nout);
            assert(db@ == spec_apply_txs(old(db)@, bv, i + 1));
        }
        i = i + 1;
    }
    proof {
        assert(bv.txs.len() == ntx);
    }
}

/// Scans a run of blocks in order: the blockchain pipeline of one tick.
pub fn index_blockchain(db: &mut Db, blocks: &Vec<BlockData>)
    requires
        old(db).wf(),
        forall|i: int| 0 <= i < blocks@.len() ==> (#[trigger] blocks@[i]).height < u64::MAX,
    ensures
        final(db).wf(),
        final(db)@ == spec_apply_blocks(old(db)@, blocks_view(blocks@), blocks@.len() as int),
{
    let n = blocks.len();
    let mut i: usize = 0;
    while i < n
        invariant
            n == blocks@.len(),
            i <= n,
            forall|k: int| 0 <= k < blocks@.len() ==> (#[trigger] blocks@[k]).height < u64::MAX,
            db.wf(),
            db@ == spec_apply_blocks(old(db)@, blocks_view(blocks@), i as int),
        decreases n - i,
    {
        assert(blocks@[i as int]@ == blocks_view(blocks@)[i as int]);
        index_block(db, &blocks[i]);
        i = i + 1;
    }
}

/// Runs the create pipeline of one tick over the fetched events, in order.
pub fn index_create_events(db: &mut Db, events: &Vec<NostrEvent>)
    requires
        old(db).wf(),
    ensures
        final(db).wf(),
        final(db)@ == spec_apply_creates(old(db)@, events_view(events@), events@.len() as int),
{
    let n = events.len();
    let mut i: usize = 0;
    while i < n
        invariant
            n == events@.len(),
            i <= n,
            db.wf(),
            db@ == spec_apply_creates(old(db)@, events_view(events@), i as int),
        decreases n - i,
    {
        assert(events@[i as int]@ == events_view(events@)[i as int]);
        index_create_event(db, &events[i]);
        i = i + 1;
    }
}

/// Runs the records pipeline of one tick over the fetched events, in order.
pub fn index_records_events(db: &mut Db, events: &Vec<NostrEvent>)
    requires
        old(db).wf(),
    ensures
        final(db).wf(),
        final(db)@ == spec_apply_records(old(db)@, events_view(events@), events@.len() as int),
{
    let n = events.len();
    let mut i: usize = 0;
    while i < n
        invariant
            n == events@.len(),
            i <= n,
            db.wf(),
            db@ == spec_apply_records(old(db)@, events_view(events@), i as int),
        decreases n - i,
    {
        assert(events@[i as int]@ == events_view(events@)[i as int]);
        index_records_event(db, &events[i]);
        i = i + 1;
    }
}

/// One scheduler tick over frozen inputs: blockchain indexer, then create
/// indexer, then records indexer, each to completion.
pub fn run_tick(
    db: &mut Db,
    blocks: &Vec<BlockData>,
    creates: &Vec<NostrEvent>,
    records: &Vec<NostrEvent>,
)
    requires
        old(db).wf(),
        forall|i: int| 0 <= i < blocks@.len() ==> (#[trigger] blocks@[i]).height < u64::MAX,
    ensures
        final(db).wf(),
        final(db)@ == spec_tick(
            old(db)@,
            blocks_view(blocks@),
            events_view(creates@),
            events_view(records@),
        ),
{
    index_blockchain(db, blocks);
    index_create_events(db, creates);
    index_records_events(db, records);
}


/// The greatest `created_at` among fetched events, 0 when there are none.
pub open spec fn spec_max_event_time(es: Seq<NostrEventV>) -> u64
    decreases es.len(),
{
    if es.len() == 0 {
        0
    } else {
        let m = spec_max_event_time(es.drop_last());
        if es.last().created_at > m {
            es.last().created_at
        } else {
            m
        }
    }
}

/// The pagination rule of the event fetch: when a batch comes back
/// saturated (at the relay's cap), the next request within the same tick
/// advances `since` to the greatest `created_at` seen; a short batch ends
/// the loop. The overlap at the boundary is harmless because every insert
/// is idempotent.
pub fn next_since(events: &Vec<NostrEvent>, cap: usize) -> (r: Option<u64>)
    ensures
        r is Some <==> events@.len() >= cap && cap > 0,
        r matches Some(t) ==> t == spec_max_event_time(events_view(events@)) && (forall|i: int|
            0 <= i < events@.len() ==> t >= events@[i].created_at),
{
    if cap == 0 || events.len() < cap {
        return None;
    }
    let ghost evs = events_view(events@);
    let n = events.len();
    let mut m: u64 = 0;
    let mut i: usize = 0;
    while i < n
        invariant
            n == events@.len(),
            evs == events_view(events@),
            i <= n,
            m == spec_max_event_time(evs.subrange(0, i as int)),
        decreases n - i,
    {
        proof {
            let pre = evs.subrange(0, i as int);
            let post = evs.subrange(0, i + 1);
            assert(post.drop_last() =~= pre);
            assert(post.last() == evs[i as int]);
        }
        let t = events[i].created_at;
        assert(evs[i as int].created_at == t);
        if t > m {
            m = t;
        }
        i = i + 1;
    }
    proof {
        assert(evs.subrange(0, n as int) =~= evs);
        lemma_max_event_time_ge(evs);
        assert forall|k: int| 0 <= k < events@.len() implies m >= events@[k].created_at by {
            assert(evs[k] == events@[k]@);
            assert(evs[k].created_at == events@[k].created_at);
        }
    }
    Some(m)
}

/// The recursive maximum bounds every element from above.
proof fn lemma_max_event_time_ge(es: Seq<NostrEventV>)
    ensures
        forall|i: int| 0 <= i < es.len() ==> spec_max_event_time(es) >= es[i].created_at,
    decreases es.len(),
{
    if es.len() > 0 {
        lemma_max_event_time_ge(es.drop_last());
        assert(forall|i: int| 0 <= i < es.len() - 1 ==> es.drop_last()[i] == es[i]);
    }
}

} // verus!
