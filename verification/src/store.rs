//! The relational store the pipelines write and the query surface reads.
//!
//! Three tables mirror the persisted schema: `blockchain` (anchors, primary
//! key `nsid`, first observation wins), `create_events` (primary key `nsid`,
//! first create wins), and `records_events` (unique on `(nsid, pubkey)`,
//! newest `created_at` wins). All rows hold plain bytes; the adapters around
//! the library move them to and from the persisted file.

use vstd::prelude::*;

use crate::bytes::bytes_eq;
use crate::hashes::hash160_of;
use crate::kinds::Network;
use crate::name::is_valid_name;
use crate::records::json_records_of;
use crate::records::pairs_view;
use crate::records::parse_record_map;
use crate::bytes::bytes_of;

verus! {

/// An anchor row: the on-chain coordinates that certify first-seen
/// ownership of an identifier.
pub struct BlockchainRow {
    pub nsid: Vec<u8>,
    pub blockhash: Vec<u8>,
    pub txid: Vec<u8>,
    pub vout: u64,
    pub height: u64,
}

/// The mathematical image of a [`BlockchainRow`].
#[verifier::ext_equal]
pub struct BlockchainRowV {
    pub nsid: Seq<u8>,
    pub blockhash: Seq<u8>,
    pub txid: Seq<u8>,
    pub vout: u64,
    pub height: u64,
}

impl View for BlockchainRow {
    type V = BlockchainRowV;

    open spec fn view(&self) -> BlockchainRowV {
        BlockchainRowV {
            nsid: self.nsid@,
            blockhash: self.blockhash@,
            txid: self.txid@,
            vout: self.vout,
            height: self.height,
        }
    }
}

/// A create-event row: an owner's declaration that they claim `name` with
/// key `pubkey`. `children` holds the event's content verbatim.
pub struct CreateRow {
    pub nsid: Vec<u8>,
    pub pubkey: Vec<u8>,
    pub created_at: u64,
    pub event_id: Vec<u8>,
    pub name: Vec<u8>,
    pub children: Vec<u8>,
}

/// The mathematical image of a [`CreateRow`].
#[verifier::ext_equal]
pub struct CreateRowV {
    pub nsid: Seq<u8>,
    pub pubkey: Seq<u8>,
    pub created_at: u64,
    pub event_id: Seq<u8>,
    pub name: Seq<u8>,
    pub children: Seq<u8>,
}

impl View for CreateRow {
    type V = CreateRowV;

    open spec fn view(&self) -> CreateRowV {
        CreateRowV {
            nsid: self.nsid@,
            pubkey: self.pubkey@,
            created_at: self.created_at,
            event_id: self.event_id@,
            name: self.name@,
            children: self.children@,
        }
    }
}

/// A records-event row: the key/value payload for a name, stored verbatim
/// in `records`.
pub struct RecordsRow {
    pub nsid: Vec<u8>,
    pub pubkey: Vec<u8>,
    pub created_at: u64,
    pub event_id: Vec<u8>,
    pub name: Vec<u8>,
    pub records: Vec<u8>,
}

/// The mathematical image of a [`RecordsRow`].
#[verifier::ext_equal]
pub struct RecordsRowV {
    pub nsid: Seq<u8>,
    pub pubkey: Seq<u8>,
    pub created_at: u64,
    pub event_id: Seq<u8>,
    pub name: Seq<u8>,
    pub records: Seq<u8>,
}

impl View for RecordsRow {
    type V = RecordsRowV;

    open spec fn view(&self) -> RecordsRowV {
        RecordsRowV {
            nsid: self.nsid@,
            pubkey: self.pubkey@,
            created_at: self.created_at,
            event_id: self.event_id@,
            name: self.name@,
            records: self.records@,
        }
    }
}

/// The store's mathematical image: the three tables in insertion order and
/// the genesis height the indexer starts from when the first is empty.
#[verifier::ext_equal]
pub struct DbView {
    pub blockchain: Seq<BlockchainRowV>,
    pub create_events: Seq<CreateRowV>,
    pub records_events: Seq<RecordsRowV>,
    pub genesis: u64,
}

/// Whether an anchor for `nsid` exists.
pub open spec fn has_blockchain_nsid(v: DbView, nsid: Seq<u8>) -> bool {
    exists|i: int| 0 <= i < v.blockchain.len() && v.blockchain[i].nsid == nsid
}

/// Whether a create row for `nsid` exists.
pub open spec fn has_create_nsid(v: DbView, nsid: Seq<u8>) -> bool {
    exists|i: int| 0 <= i < v.create_events.len() && v.create_events[i].nsid == nsid
}

/// Whether a create row carrying `name` exists.
pub open spec fn has_create_name(v: DbView, name: Seq<u8>) -> bool {
    exists|i: int| 0 <= i < v.create_events.len() && v.create_events[i].name == name
}

/// Whether a records row keyed `(nsid, pubkey)` exists.
pub open spec fn has_records_key(v: DbView, nsid: Seq<u8>, pubkey: Seq<u8>) -> bool {
    exists|i: int|
        0 <= i < v.records_events.len() && v.records_events[i].nsid == nsid
            && v.records_events[i].pubkey == pubkey
}

/// The store's invariant.
///
/// Anchors are unique per `nsid` (first-writer-wins), create rows are unique
/// per `nsid` and tie the identifier to `Hash160(name || pubkey)`, records
/// rows are unique per `(nsid, pubkey)`. Identifiers are 20 bytes, keys 32,
/// names well-formed, heights below the machine bound.
pub open spec fn db_wf(v: DbView) -> bool {
    &&& forall|i: int, j: int|
        0 <= i < j < v.blockchain.len() ==> v.blockchain[i].nsid != v.blockchain[j].nsid
    &&& forall|i: int|
        0 <= i < v.blockchain.len() ==> (#[trigger] v.blockchain[i]).nsid.len() == 20
            && v.blockchain[i].height < u64::MAX
    &&& forall|i: int, j: int|
        0 <= i < j < v.create_events.len() ==> v.create_events[i].nsid != v.create_events[j].nsid
    &&& forall|i: int|
        0 <= i < v.create_events.len() ==> {
            let r = #[trigger] v.create_events[i];
            r.nsid.len() == 20 && r.pubkey.len() == 32 && is_valid_name(r.name) && r.nsid
                == hash160_of(r.name + r.pubkey)
        }
    &&& forall|i: int, j: int|
        0 <= i < j < v.records_events.len() ==> !(v.records_events[i].nsid
            == v.records_events[j].nsid && v.records_events[i].pubkey
            == v.records_events[j].pubkey)
    &&& forall|i: int|
        0 <= i < v.records_events.len() ==> {
            let r = #[trigger] v.records_events[i];
            r.nsid.len() == 20 && r.pubkey.len() == 32 && is_valid_name(r.name)
        }
}

/// Inserting an anchor: appended if `nsid` is absent, silently ignored if
/// present.
pub open spec fn spec_insert_namespace(v: DbView, row: BlockchainRowV) -> DbView {
    if has_blockchain_nsid(v, row.nsid) {
        v
    } else {
        DbView { blockchain: v.blockchain.push(row), ..v }
    }
}

/// Inserting a create row: appended if `nsid` is absent, ignored otherwise.
pub open spec fn spec_insert_create(v: DbView, row: CreateRowV) -> DbView {
    if has_create_nsid(v, row.nsid) {
        v
    } else {
        DbView { create_events: v.create_events.push(row), ..v }
    }
}

/// The records table after an offer of `row`: every row with the same key
/// and a strictly older timestamp is replaced, everything else stays.
pub open spec fn upsert_records_seq(rs: Seq<RecordsRowV>, row: RecordsRowV) -> Seq<RecordsRowV> {
    rs.map_values(
        |r: RecordsRowV|
            if r.nsid == row.nsid && r.pubkey == row.pubkey && r.created_at < row.created_at {
                row
            } else {
                r
            },
    )
}

/// Upserting a records row: appended if the key is new; otherwise the
/// stored row is overwritten only when the offered `created_at` strictly
/// exceeds it.
pub open spec fn spec_upsert_records(v: DbView, row: RecordsRowV) -> DbView {
    if has_records_key(v, row.nsid, row.pubkey) {
        DbView { records_events: upsert_records_seq(v.records_events, row), ..v }
    } else {
        DbView { records_events: v.records_events.push(row), ..v }
    }
}

/// The greatest height among the anchors, 0 when there are none.
pub open spec fn spec_max_height(rows: Seq<BlockchainRowV>) -> u64
    decreases rows.len(),
{
    if rows.len() == 0 {
        0
    } else {
        let m = spec_max_height(rows.drop_last());
        if rows.last().height > m {
            rows.last().height
        } else {
            m
        }
    }
}

/// Where the blockchain indexer resumes: one above the greatest indexed
/// height, or the genesis height while nothing is indexed.
pub open spec fn spec_next_height(v: DbView) -> u64 {
    if v.blockchain.len() == 0 {
        v.genesis
    } else {
        (spec_max_height(v.blockchain) + 1) as u64
    }
}

/// The greatest `created_at` among the create rows, 0 when there are none.
pub open spec fn spec_max_create_time(rows: Seq<CreateRowV>) -> u64
    decreases rows.len(),
{
    if rows.len() == 0 {
        0
    } else {
        let m = spec_max_create_time(rows.drop_last());
        if rows.last().created_at > m {
            rows.last().created_at
        } else {
            m
        }
    }
}

/// The greatest `created_at` among the records rows, 0 when there are none.
pub open spec fn spec_max_records_time(rows: Seq<RecordsRowV>) -> u64
    decreases rows.len(),
{
    if rows.len() == 0 {
        0
    } else {
        let m = spec_max_records_time(rows.drop_last());
        if rows.last().created_at > m {
            rows.last().created_at
        } else {
            m
        }
    }
}

/// The store. The indexer is its sole writer; the query surface only reads.
pub struct Db {
    blockchain: Vec<BlockchainRow>,
    create_events: Vec<CreateRow>,
    records_events: Vec<RecordsRow>,
    genesis: u64,
}

impl View for Db {
    type V = DbView;

    closed spec fn view(&self) -> DbView {
        DbView {
            blockchain: self.blockchain@.map_values(|r: BlockchainRow| r@),
            create_events: self.create_events@.map_values(|r: CreateRow| r@),
            records_events: self.records_events@.map_values(|r: RecordsRow| r@),
            genesis: self.genesis,
        }
    }
}

impl Db {
    pub open spec fn wf(&self) -> bool {
        db_wf(self@)
    }

    /// Sets up the empty tables for a network. Stands where the persisted
    /// store applies its schema migrations.
    pub fn initialize(network: Network) -> (db: Db)
        ensures
            db.wf(),
            db@.blockchain == Seq::<BlockchainRowV>::empty(),
            db@.create_events == Seq::<CreateRowV>::empty(),
            db@.records_events == Seq::<RecordsRowV>::empty(),
            db@.genesis == network.spec_starting_block_height(),
    {
        let db = Db {
            blockchain: Vec::new(),
            create_events: Vec::new(),
            records_events: Vec::new(),
            genesis: network.starting_block_height(),
        };
        proof {
            assert(db@.blockchain =~= Seq::<BlockchainRowV>::empty());
            assert(db@.create_events =~= Seq::<CreateRowV>::empty());
            assert(db@.records_events =~= Seq::<RecordsRowV>::empty());
        }
        db
    }

    /// Whether an anchor for `nsid` is stored.
    pub fn namespace_exists(&self, nsid: &[u8]) -> (r: bool)
        ensures
            r == has_blockchain_nsid(self@, nsid@),
    {
        let n = self.blockchain.len();
        let mut i: usize = 0;
        while i < n
            invariant
                n == self.blockchain@.len(),
                i <= n,
                forall|j: int| 0 <= j < i ==> self@.blockchain[j].nsid != nsid@,
            decreases n - i,
        {
            if bytes_eq(self.blockchain[i].nsid.as_slice(), nsid) {
                assert(self@.blockchain[i as int].nsid == nsid@);
                return true;
            }
            i = i + 1;
        }
        false
    }

    /// Whether no create row carries `name` yet.
    pub fn name_available(&self, name: &[u8]) -> (r: bool)
        ensures
            r == !has_create_name(self@, name@),
    {
        let n = self.create_events.len();
        let mut i: usize = 0;
        while i < n
            invariant
                n == self.create_events@.len(),
                i <= n,
                forall|j: int| 0 <= j < i ==> self@.create_events[j].name != name@,
            decreases n - i,
        {
            if bytes_eq(self.create_events[i].name.as_slice(), name) {
                assert(self@.create_events[i as int].name == name@);
                return false;
            }
            i = i + 1;
        }
        true
    }

    /// Whether a create row for `nsid` is stored.
    pub fn create_event_exists(&self, nsid: &[u8]) -> (r: bool)
        ensures
            r == has_create_nsid(self@, nsid@),
    {
        let n = self.create_events.len();
        let mut i: usize = 0;
        while i < n
            invariant
                n == self.create_events@.len(),
                i <= n,
                forall|j: int| 0 <= j < i ==> self@.create_events[j].nsid != nsid@,
            decreases n - i,
        {
            if bytes_eq(self.create_events[i].nsid.as_slice(), nsid) {
                assert(self@.create_events[i as int].nsid == nsid@);
                return true;
            }
            i = i + 1;
        }
        false
    }

    /// Inserts an anchor if `nsid` is absent; silently ignores the offer if
    /// one is present, which is what makes the first writer win.
    pub fn insert_namespace(
        &mut self,
        nsid: Vec<u8>,
        blockhash: Vec<u8>,
        txid: Vec<u8>,
        vout: u64,
        height: u64,
    )
        requires
            old(self).wf(),
            nsid@.len() == 20,
            height < u64::MAX,
        ensures
            final(self).wf(),
            final(self)@ == spec_insert_namespace(
                old(self)@,
                (BlockchainRowV {
                    nsid: nsid@,
                    blockhash: blockhash@,
                    txid: txid@,
                    vout: vout,
                    height: height,
                }),
            ),
    {
        let ghost rowv = BlockchainRowV {
            nsid: nsid@,
            blockhash: blockhash@,
            txid: txid@,
            vout: vout,
            height: height,
        };
        if self.namespace_exists(nsid.as_slice()) {
            return ;
        }
        let row = BlockchainRow { nsid, blockhash, txid, vout, height };
        self.blockchain.push(row);
        proof {
            assert(self@.blockchain =~= old(self)@.blockchain.push(rowv));
            assert(self@ == spec_insert_namespace(old(self)@, rowv));
        }
    }

    /// Inserts a create row if `nsid` is absent; ignores later claims, so
    /// the first create wins at the event layer too.
    pub fn insert_create_event(
        &mut self,
        nsid: Vec<u8>,
        pubkey: Vec<u8>,
        created_at: u64,
        event_id: Vec<u8>,
        name: Vec<u8>,
        children: Vec<u8>,
    )
        requires
            old(self).wf(),
            nsid@.len() == 20,
            pubkey@.len() == 32,
            is_valid_name(name@),
            nsid@ == hash160_of(name@ + pubkey@),
        ensures
            final(self).wf(),
            final(self)@ == spec_insert_create(
                old(self)@,
                (CreateRowV {
                    nsid: nsid@,
                    pubkey: pubkey@,
                    created_at: created_at,
                    event_id: event_id@,
                    name: name@,
                    children: children@,
                }),
            ),
    {
        let ghost rowv = CreateRowV {
            nsid: nsid@,
            pubkey: pubkey@,
            created_at: created_at,
            event_id: event_id@,
            name: name@,
            children: children@,
        };
        if self.create_event_exists(nsid.as_slice()) {
            return ;
        }
        let row = CreateRow { nsid, pubkey, created_at, event_id, name, children };
        self.create_events.push(row);
        proof {
            assert(self@.create_events =~= old(self)@.create_events.push(rowv));
            assert(self@ == spec_insert_create(old(self)@, rowv));
        }
    }

    /// Offers a records row. A new `(nsid, pubkey)` key is appended; an
    /// existing one is overwritten only when the offered `created_at`
    /// strictly exceeds the stored one.
    pub fn insert_records_event(
        &mut self,
        nsid: Vec<u8>,
        pubkey: Vec<u8>,
        created_at: u64,
        event_id: Vec<u8>,
        name: Vec<u8>,
        records: Vec<u8>,
    )
        requires
            old(self).wf(),
            nsid@.len() == 20,
            pubkey@.len() == 32,
            is_valid_name(name@),
        ensures
            final(self).wf(),
            final(self)@ == spec_upsert_records(
                old(self)@,
                (RecordsRowV {
                    nsid: nsid@,
                    pubkey: pubkey@,
                    created_at: created_at,
                    event_id: event_id@,
                    name: name@,
                    records: records@,
                }),
            ),
    {
        let ghost rowv = RecordsRowV {
            nsid: nsid@,
            pubkey: pubkey@,
            created_at: created_at,
            event_id: event_id@,
            name: name@,
            records: records@,
        };
        proof {
            lemma_upsert_records_wf(old(self)@, rowv);
        }
        match self.find_records_index(nsid.as_slice(), pubkey.as_slice()) {
            Some(i) => {
                assert(has_records_key(self@, nsid@, pubkey@));
                if self.records_events[i].created_at < created_at {
                    let row = RecordsRow { nsid, pubkey, created_at, event_id, name, records };
                    self.records_events[i] = row;
                    proof {
                        lemma_upsert_pointwise(old(self)@.records_events, rowv, i as int, true);
                        assert(self@.records_events =~= upsert_records_seq(
                            old(self)@.records_events,
                            rowv,
                        ));
                        assert(self@ =~= spec_upsert_records(old(self)@, rowv));
                    }
                } else {
                    proof {
                        lemma_upsert_pointwise(old(self)@.records_events, rowv, i as int, false);
                        assert(self@.records_events =~= upsert_records_seq(
                            old(self)@.records_events,
                            rowv,
                        ));
                        assert(self@ =~= spec_upsert_records(old(self)@, rowv));
                    }
                }
            },
            None => {
                let row = RecordsRow { nsid, pubkey, created_at, event_id, name, records };
                self.records_events.push(row);
                proof {
                    assert(self@.records_events =~= old(self)@.records_events.push(rowv));
                    assert(self@ =~= spec_upsert_records(old(self)@, rowv));
                }
            },
        }
    }

    /// The position of the records row keyed `(nsid, pubkey)`, if one exists.
    fn find_records_index(&self, nsid: &[u8], pubkey: &[u8]) -> (r: Option<usize>)
        ensures
            match r {
                Some(i) => i < self@.records_events.len() && self@.records_events[i as int].nsid
                    == nsid@ && self@.records_events[i as int].pubkey == pubkey@,
                None => !has_records_key(self@, nsid@, pubkey@),
            },
    {
        let n = self.records_events.len();
        let mut i: usize = 0;
        while i < n
            invariant
                n == self.records_events@.len(),
                i <= n,
                forall|j: int|
                    0 <= j < i ==> !(self@.records_events[j].nsid == nsid@
                        && self@.records_events[j].pubkey == pubkey@),
            decreases n - i,
        {
            let hit = bytes_eq(self.records_events[i].nsid.as_slice(), nsid) && bytes_eq(
                self.records_events[i].pubkey.as_slice(),
                pubkey,
            );
            if hit {
                assert(self@.records_events[i as int].nsid == nsid@);
                assert(self@.records_events[i as int].pubkey == pubkey@);
                return Some(i);
            }
            i = i + 1;
        }
        None
    }

    /// One above the greatest indexed height, or the genesis height while
    /// the anchor table is empty. Strictly above every stored height.
    pub fn next_index_height(&self) -> (r: u64)
        requires
            self.wf(),
        ensures
            r == spec_next_height(self@),
            forall|i: int| 0 <= i < self@.blockchain.len() ==> r > self@.blockchain[i].height,
    {
        let n = self.blockchain.len();
        if n == 0 {
            proof {
                assert(self@.blockchain.len() == 0);
            }
            return self.genesis;
        }
        let mut m: u64 = 0;
        let mut i: usize = 0;
        while i < n
            invariant
                n == self.blockchain@.len(),
                i <= n,
                m == spec_max_height(self@.blockchain.subrange(0, i as int)),
                db_wf(self@),
            decreases n - i,
        {
            let h = self.blockchain[i].height;
            proof {
                let pre = self@.blockchain.subrange(0, i as int);
                let post = self@.blockchain.subrange(0, i + 1);
                assert(post.drop_last() =~= pre);
                assert(post.last() == self@.blockchain[i as int]);
            }
            if h > m {
                m = h;
            }
            i = i + 1;
        }
        proof {
            assert(self@.blockchain.subrange(0, n as int) =~= self@.blockchain);
            lemma_max_height_ge(self@.blockchain);
            assert(m < u64::MAX) by {
                lemma_max_height_bound(self@.blockchain);
            }
        }
        m + 1
    }

    /// The greatest `created_at` among the create rows, 0 when none exist:
    /// the `since` cursor of the create filter.
    pub fn last_create_event_time(&self) -> (r: u64)
        ensures
            r == spec_max_create_time(self@.create_events),
            forall|i: int| 0 <= i < self@.create_events.len() ==> r >= self@.create_events[i].created_at,
    {
        let n = self.create_events.len();
        let mut m: u64 = 0;
        let mut i: usize = 0;
        while i < n
            invariant
                n == self.create_events@.len(),
                i <= n,
                m == spec_max_create_time(self@.create_events.subrange(0, i as int)),
            decreases n - i,
        {
            proof {
                let pre = self@.create_events.subrange(0, i as int);
                let post = self@.create_events.subrange(0, i + 1);
                assert(post.drop_last() =~= pre);
                assert(post.last() == self@.create_events[i as int]);
            }
            let t = self.create_events[i].created_at;
            if t > m {
                m = t;
            }
            i = i + 1;
        }
        proof {
            assert(self@.create_events.subrange(0, n as int) =~= self@.create_events);
            lemma_max_create_time_ge(self@.create_events);
        }
        m
    }

    /// The greatest `created_at` among the records rows, 0 when none exist:
    /// the `since` cursor of the records filter.
    pub fn last_records_time(&self) -> (r: u64)
        ensures
            r == spec_max_records_time(self@.records_events),
            forall|i: int|
                0 <= i < self@.records_events.len() ==> r >= self@.records_events[i].created_at,
    {
        let n = self.records_events.len();
        let mut m: u64 = 0;
        let mut i: usize = 0;
        while i < n
            invariant
                n == self.records_events@.len(),
                i <= n,
                m == spec_max_records_time(self@.records_events.subrange(0, i as int)),
            decreases n - i,
        {
            proof {
                let pre = self@.records_events.subrange(0, i as int);
                let post = self@.records_events.subrange(0, i + 1);
                assert(post.drop_last() =~= pre);
                assert(post.last() == self@.records_events[i as int]);
            }
            let t = self.records_events[i].created_at;
            if t > m {
                m = t;
            }
            i = i + 1;
        }
        proof {
            assert(self@.records_events.subrange(0, n as int) =~= self@.records_events);
            lemma_max_records_time_ge(self@.records_events);
        }
        m
    }
}

/// The recursive maximum bounds every element from above.
proof fn lemma_max_height_ge(rows: Seq<BlockchainRowV>)
    ensures
        forall|i: int| 0 <= i < rows.len() ==> spec_max_height(rows) >= rows[i].height,
    decreases rows.len(),
{
    if rows.len() > 0 {
        lemma_max_height_ge(rows.drop_last());
        assert(forall|i: int| 0 <= i < rows.len() - 1 ==> rows.drop_last()[i] == rows[i]);
    }
}

/// Under the invariant every height is below `u64::MAX`, so the maximum is
/// too.
proof fn lemma_max_height_bound(rows: Seq<BlockchainRowV>)
    requires
        forall|i: int| 0 <= i < rows.len() ==> (#[trigger] rows[i]).height < u64::MAX,
    ensures
        rows.len() > 0 ==> spec_max_height(rows) < u64::MAX,
    decreases rows.len(),
{
    if rows.len() > 0 {
        let head = rows.drop_last();
        assert forall|i: int| 0 <= i < head.len() implies (#[trigger] head[i]).height
            < u64::MAX by {
            assert(head[i] == rows[i]);
        }
        lemma_max_height_bound(head);
        if head.len() == 0 {
            assert(spec_max_height(head) == 0);
        }
        assert(rows.last() == rows[rows.len() - 1]);
        assert(rows.last().height < u64::MAX);
        assert(spec_max_height(rows) == if rows.last().height > spec_max_height(head) {
            rows.last().height
        } else {
            spec_max_height(head)
        });
    }
}

proof fn lemma_max_create_time_ge(rows: Seq<CreateRowV>)
    ensures
        forall|i: int| 0 <= i < rows.len() ==> spec_max_create_time(rows) >= rows[i].created_at,
    decreases rows.len(),
{
    if rows.len() > 0 {
        lemma_max_create_time_ge(rows.drop_last());
        assert(forall|i: int| 0 <= i < rows.len() - 1 ==> rows.drop_last()[i] == rows[i]);
    }
}

proof fn lemma_max_records_time_ge(rows: Seq<RecordsRowV>)
    ensures
        forall|i: int| 0 <= i < rows.len() ==> spec_max_records_time(rows) >= rows[i].created_at,
    decreases rows.len(),
{
    if rows.len() > 0 {
        lemma_max_records_time_ge(rows.drop_last());
        assert(forall|i: int| 0 <= i < rows.len() - 1 ==> rows.drop_last()[i] == rows[i]);
    }
}

/// Replacing the hit row in place is the same table `upsert_records_seq`
/// describes, provided rows before `i` miss the key and row `i` hits it.
proof fn lemma_upsert_pointwise(rs: Seq<RecordsRowV>, row: RecordsRowV, i: int, newer: bool)
    requires
        0 <= i < rs.len(),
        forall|j: int, k: int|
            0 <= j < k < rs.len() ==> !(rs[j].nsid == rs[k].nsid && rs[j].pubkey == rs[k].pubkey),
        rs[i].nsid == row.nsid && rs[i].pubkey == row.pubkey,
        newer == (rs[i].created_at < row.created_at),
    ensures
        newer ==> upsert_records_seq(rs, row) =~= rs.update(i, row),
        !newer ==> upsert_records_seq(rs, row) =~= rs,
{
    assert forall|j: int| 0 <= j < rs.len() && j != i implies !(rs[j].nsid == row.nsid && rs[j].pubkey
        == row.pubkey) by {
        if j < i {
            assert(!(rs[j].nsid == rs[i].nsid && rs[j].pubkey == rs[i].pubkey));
        } else {
            assert(!(rs[i].nsid == rs[j].nsid && rs[i].pubkey == rs[j].pubkey));
        }
    }
}


/// Inserting an anchor preserves the invariant.
pub proof fn lemma_insert_namespace_wf(v: DbView, row: BlockchainRowV)
    requires
        db_wf(v),
        row.nsid.len() == 20,
        row.height < u64::MAX,
    ensures
        db_wf(spec_insert_namespace(v, row)),
{
    if !has_blockchain_nsid(v, row.nsid) {
        let w = v.blockchain.push(row);
        assert forall|i: int, j: int| 0 <= i < j < w.len() implies w[i].nsid != w[j].nsid by {
            if j == w.len() - 1 {
                assert(w[i] == v.blockchain[i]);
                if w[i].nsid == row.nsid {
                    assert(has_blockchain_nsid(v, row.nsid));
                }
            } else {
                assert(w[i] == v.blockchain[i]);
                assert(w[j] == v.blockchain[j]);
            }
        }
        assert forall|i: int| 0 <= i < w.len() implies (#[trigger] w[i]).nsid.len() == 20 && w[
            i
        ].height < u64::MAX by {
            if i < w.len() - 1 {
                assert(w[i] == v.blockchain[i]);
            }
        }
    }
}

/// Inserting a create row preserves the invariant.
pub proof fn lemma_insert_create_wf(v: DbView, row: CreateRowV)
    requires
        db_wf(v),
        row.nsid.len() == 20,
        row.pubkey.len() == 32,
        is_valid_name(row.name),
        row.nsid == hash160_of(row.name + row.pubkey),
    ensures
        db_wf(spec_insert_create(v, row)),
{
    if !has_create_nsid(v, row.nsid) {
        let w = v.create_events.push(row);
        assert forall|i: int, j: int| 0 <= i < j < w.len() implies w[i].nsid != w[j].nsid by {
            if j == w.len() - 1 {
                assert(w[i] == v.create_events[i]);
                if w[i].nsid == row.nsid {
                    assert(has_create_nsid(v, row.nsid));
                }
            } else {
                assert(w[i] == v.create_events[i]);
                assert(w[j] == v.create_events[j]);
            }
        }
        assert forall|i: int| 0 <= i < w.len() implies {
            let r = #[trigger] w[i];
            r.nsid.len() == 20 && r.pubkey.len() == 32 && is_valid_name(r.name) && r.nsid
                == hash160_of(r.name + r.pubkey)
        } by {
            if i < w.len() - 1 {
                assert(w[i] == v.create_events[i]);
                assert(0 <= i < v.create_events.len());
                assert(v.create_events[i].nsid.len() == 20);
            }
        }
    }
}

/// Offering a records row preserves the invariant.
pub proof fn lemma_upsert_records_wf(v: DbView, row: RecordsRowV)
    requires
        db_wf(v),
        row.nsid.len() == 20,
        row.pubkey.len() == 32,
        is_valid_name(row.name),
    ensures
        db_wf(spec_upsert_records(v, row)),
{
    if has_records_key(v, row.nsid, row.pubkey) {
        let w = upsert_records_seq(v.records_events, row);
        assert(w.len() == v.records_events.len());
        assert forall|i: int| 0 <= i < w.len() implies (#[trigger] w[i]).nsid == v.records_events[
            i
        ].nsid && w[i].pubkey == v.records_events[i].pubkey by {
            assert(v.records_events[i] == v.records_events.map_values(
                |r: RecordsRowV| r,
            )[i]) by {
                assert(v.records_events.map_values(|r: RecordsRowV| r)[i] == v.records_events[i]);
            }
        }
        assert forall|i: int, j: int| 0 <= i < j < w.len() implies !(w[i].nsid == w[j].nsid && w[
            i
        ].pubkey == w[j].pubkey) by {
            assert(!(v.records_events[i].nsid == v.records_events[j].nsid
                && v.records_events[i].pubkey == v.records_events[j].pubkey));
        }
        assert forall|i: int| 0 <= i < w.len() implies {
            let r = #[trigger] w[i];
            r.nsid.len() == 20 && r.pubkey.len() == 32 && is_valid_name(r.name)
        } by {
            assert(0 <= i < v.records_events.len());
            assert(v.records_events[i].nsid.len() == 20);
        }
    } else {
        let w = v.records_events.push(row);
        assert forall|i: int, j: int| 0 <= i < j < w.len() implies !(w[i].nsid == w[j].nsid && w[
            i
        ].pubkey == w[j].pubkey) by {
            if j == w.len() - 1 {
                assert(w[i] == v.records_events[i]);
                if w[i].nsid == row.nsid && w[i].pubkey == row.pubkey {
                    assert(has_records_key(v, row.nsid, row.pubkey));
                }
            } else {
                assert(w[i] == v.records_events[i]);
                assert(w[j] == v.records_events[j]);
            }
        }
        assert forall|i: int| 0 <= i < w.len() implies {
            let r = #[trigger] w[i];
            r.nsid.len() == 20 && r.pubkey.len() == 32 && is_valid_name(r.name)
        } by {
            if i < w.len() - 1 {
                assert(w[i] == v.records_events[i]);
                assert(0 <= i < v.records_events.len());
                assert(v.records_events[i].nsid.len() == 20);
            }
        }
    }
}


/// The create row for `nsid`; under the invariant there is at most one.
pub open spec fn create_row_for(v: DbView, nsid: Seq<u8>) -> CreateRowV
    recommends
        has_create_nsid(v, nsid),
{
    v.create_events[choose|i: int|
        0 <= i < v.create_events.len() && v.create_events[i].nsid == nsid]
}

/// The anchor row for `nsid`; under the invariant there is at most one.
pub open spec fn blockchain_row_for(v: DbView, nsid: Seq<u8>) -> BlockchainRowV
    recommends
        has_blockchain_nsid(v, nsid),
{
    v.blockchain[choose|i: int| 0 <= i < v.blockchain.len() && v.blockchain[i].nsid == nsid]
}

/// The stored records bytes under `(nsid, pubkey)`; under the invariant the
/// key owns at most one row.
pub open spec fn records_value(v: DbView, nsid: Seq<u8>, pubkey: Seq<u8>) -> Seq<u8>
    recommends
        has_records_key(v, nsid, pubkey),
{
    v.records_events[choose|i: int|
        0 <= i < v.records_events.len() && v.records_events[i].nsid == nsid
            && v.records_events[i].pubkey == pubkey].records
}

/// Whether create row `i` resolves `name`: it carries the name, its
/// identifier is anchored, and its owner published records.
pub open spec fn name_row_matches(v: DbView, name: Seq<u8>, i: int) -> bool {
    &&& v.create_events[i].name == name
    &&& has_blockchain_nsid(v, v.create_events[i].nsid)
    &&& has_records_key(v, v.create_events[i].nsid, v.create_events[i].pubkey)
}

/// The stored records bytes that resolve `name`, through the first create
/// row at or after `i` that the triple join accepts.
pub open spec fn spec_name_records_from(v: DbView, name: Seq<u8>, i: int) -> Option<Seq<u8>>
    decreases v.create_events.len() - i,
{
    if i < 0 || i >= v.create_events.len() {
        None
    } else if name_row_matches(v, name, i) {
        Some(records_value(v, v.create_events[i].nsid, v.create_events[i].pubkey))
    } else {
        spec_name_records_from(v, name, i + 1)
    }
}

/// The stored records bytes that resolve `name`: the triple join of anchor,
/// create row and records row, on `nsid` and `(nsid, pubkey)`.
pub open spec fn spec_name_records(v: DbView, name: Seq<u8>) -> Option<Seq<u8>> {
    spec_name_records_from(v, name, 0)
}

/// The confirmed roots among the first `n` create rows: each row whose
/// identifier is anchored contributes its `(name, nsid)` pair, in order.
pub open spec fn spec_top_level_prefix(v: DbView, n: int) -> Seq<(Seq<u8>, Seq<u8>)>
    decreases n,
{
    if n <= 0 {
        Seq::empty()
    } else {
        let rest = spec_top_level_prefix(v, n - 1);
        let r = v.create_events[n - 1];
        if has_blockchain_nsid(v, r.nsid) {
            rest.push((r.name, r.nsid))
        } else {
            rest
        }
    }
}

/// All confirmed roots, in insertion order.
pub open spec fn spec_top_level_names(v: DbView) -> Seq<(Seq<u8>, Seq<u8>)> {
    spec_top_level_prefix(v, v.create_events.len() as int)
}

/// Everything known about one identifier: the name (if a create row
/// resolves it), the decoded records (empty without a records row), the
/// children list (reserved; validated rows hold none), and the on-chain
/// coordinates (if anchored).
pub struct NamespaceDetails {
    pub name: Option<Vec<u8>>,
    pub records: Vec<(Vec<u8>, Vec<u8>)>,
    pub children: Vec<(Vec<u8>, Vec<u8>)>,
    pub blockdata: Option<(Vec<u8>, Vec<u8>, u64, u64)>,
}

impl Db {
    /// The position of the create row for `nsid`, if one exists.
    fn find_create_index(&self, nsid: &[u8]) -> (r: Option<usize>)
        ensures
            match r {
                Some(i) => i < self@.create_events.len() && self@.create_events[i as int].nsid
                    == nsid@,
                None => !has_create_nsid(self@, nsid@),
            },
    {
        let n = self.create_events.len();
        let mut i: usize = 0;
        while i < n
            invariant
                n == self.create_events@.len(),
                i <= n,
                forall|j: int| 0 <= j < i ==> self@.create_events[j].nsid != nsid@,
            decreases n - i,
        {
            if bytes_eq(self.create_events[i].nsid.as_slice(), nsid) {
                assert(self@.create_events[i as int].nsid == nsid@);
                return Some(i);
            }
            i = i + 1;
        }
        None
    }

    /// The position of the anchor row for `nsid`, if one exists.
    fn find_blockchain_index(&self, nsid: &[u8]) -> (r: Option<usize>)
        ensures
            match r {
                Some(i) => i < self@.blockchain.len() && self@.blockchain[i as int].nsid == nsid@,
                None => !has_blockchain_nsid(self@, nsid@),
            },
    {
        let n = self.blockchain.len();
        let mut i: usize = 0;
        while i < n
            invariant
                n == self.blockchain@.len(),
                i <= n,
                forall|j: int| 0 <= j < i ==> self@.blockchain[j].nsid != nsid@,
            decreases n - i,
        {
            if bytes_eq(self.blockchain[i].nsid.as_slice(), nsid) {
                assert(self@.blockchain[i as int].nsid == nsid@);
                return Some(i);
            }
            i = i + 1;
        }
        None
    }

    /// The raw records bytes that resolve `name`, through the triple join.
    pub fn name_records_raw(&self, name: &[u8]) -> (r: Option<Vec<u8>>)
        requires
            self.wf(),
        ensures
            r matches Some(b) ==> spec_name_records(self@, name@) == Some(b@),
            r is None ==> spec_name_records(self@, name@) is None,
    {
        let ghost v = self@;
        let n = self.create_events.len();
        let mut i: usize = 0;
        while i < n
            invariant
                self.wf(),
                v == self@,
                n == self.create_events@.len(),
                i <= n,
                spec_name_records(v, name@) == spec_name_records_from(v, name@, i as int),
            decreases n - i,
        {
            let row = &self.create_events[i];
            assert(row@ == v.create_events[i as int]);
            if bytes_eq(row.name.as_slice(), name) && self.namespace_exists(row.nsid.as_slice()) {
                match self.find_records_index(row.nsid.as_slice(), row.pubkey.as_slice()) {
                    Some(k) => {
                        assert(name_row_matches(v, name@, i as int));
                        proof {
                            let nsid = v.create_events[i as int].nsid;
                            let pk = v.create_events[i as int].pubkey;
                            let j = choose|j: int|
                                0 <= j < v.records_events.len() && v.records_events[j].nsid == nsid
                                    && v.records_events[j].pubkey == pk;
                            assert(v.records_events[k as int].nsid == nsid && v.records_events[
                                k as int].pubkey == pk);
                            if j != k {
                                assert(!(v.records_events[j].nsid == v.records_events[
                                    k as int].nsid && v.records_events[j].pubkey
                                    == v.records_events[k as int].pubkey));
                            }
                            assert(records_value(v, nsid, pk) == v.records_events[
                                k as int].records);
                        }
                        return Some(bytes_of(self.records_events[k].records.as_slice()));
                    },
                    None => {
                        assert(!name_row_matches(v, name@, i as int));
                    },
                }
            } else {
                assert(!name_row_matches(v, name@, i as int));
            }
            proof {
                assert(spec_name_records_from(v, name@, i as int) == spec_name_records_from(
                    v,
                    name@,
                    i + 1,
                ));
            }
            i = i + 1;
        }
        proof {
            assert(spec_name_records_from(v, name@, n as int) is None);
        }
        None
    }

    /// The decoded records that resolve `name`: the JSON object of the
    /// joined row, as key/value pairs. Nothing when no row resolves the
    /// name, or when the stored bytes fail to decode.
    pub fn name_records(&self, name: &[u8]) -> (r: Option<Vec<(Vec<u8>, Vec<u8>)>>)
        requires
            self.wf(),
        ensures
            r matches Some(list) ==> spec_name_records(self@, name@) matches Some(raw)
                && json_records_of(raw) == Some(pairs_view(list@)),
            r is None ==> spec_name_records(self@, name@) is None || (spec_name_records(
                self@,
                name@,
            ) matches Some(raw) && json_records_of(raw) is None),
    {
        match self.name_records_raw(name) {
            Some(raw) => parse_record_map(raw.as_slice()),
            None => None,
        }
    }

    /// Lists the confirmed roots: every create row whose identifier is
    /// anchored, as `(name, nsid)`, in insertion order.
    pub fn top_level_names(&self) -> (r: Vec<(Vec<u8>, Vec<u8>)>)
        requires
            self.wf(),
        ensures
            pairs_view(r@) == spec_top_level_names(self@),
    {
        let ghost v = self@;
        let n = self.create_events.len();
        let mut out: Vec<(Vec<u8>, Vec<u8>)> = Vec::new();
        let mut i: usize = 0;
        while i < n
            invariant
                self.wf(),
                v == self@,
                n == self.create_events@.len(),
                i <= n,
                pairs_view(out@) == spec_top_level_prefix(v, i as int),
            decreases n - i,
        {
            let row = &self.create_events[i];
            assert(row@ == v.create_events[i as int]);
            if self.namespace_exists(row.nsid.as_slice()) {
                let ghost out0 = out@;
                let pair = (bytes_of(row.name.as_slice()), bytes_of(row.nsid.as_slice()));
                out.push(pair);
                proof {
                    assert(pairs_view(out@) =~= pairs_view(out0).push(
                        (v.create_events[i as int].name, v.create_events[i as int].nsid),
                    ));
                }
            }
            i = i + 1;
        }
        out
    }

    /// Everything known about `nsid`, atomically with respect to readers.
    pub fn details(&self, nsid: &[u8]) -> (d: NamespaceDetails)
        requires
            self.wf(),
        ensures
            ({
                let v = self@;
                &&& match d.name {
                    Some(nm) => has_create_nsid(v, nsid@) && nm@ == create_row_for(v, nsid@).name,
                    None => !has_create_nsid(v, nsid@),
                }
                &&& match d.blockdata {
                    Some(bd) => has_blockchain_nsid(v, nsid@) && bd.0@ == blockchain_row_for(
                        v,
                        nsid@,
                    ).blockhash && bd.1@ == blockchain_row_for(v, nsid@).txid && bd.2
                        == blockchain_row_for(v, nsid@).vout && bd.3 == blockchain_row_for(
                        v,
                        nsid@,
                    ).height,
                    None => !has_blockchain_nsid(v, nsid@),
                }
                &&& d.children@.len() == 0
                &&& if has_create_nsid(v, nsid@) && has_records_key(
                    v,
                    nsid@,
                    create_row_for(v, nsid@).pubkey,
                ) {
                    match json_records_of(records_value(v, nsid@, create_row_for(v, nsid@).pubkey)) {
                        Some(s) => pairs_view(d.records@) == s,
                        None => d.records@.len() == 0,
                    }
                } else {
                    d.records@.len() == 0
                }
            }),
    {
        let ghost v = self@;
        let mut name: Option<Vec<u8>> = None;
        let mut records: Vec<(Vec<u8>, Vec<u8>)> = Vec::new();
        match self.find_create_index(nsid) {
            Some(ci) => {
                let crow = &self.create_events[ci];
                assert(crow@ == v.create_events[ci as int]);
                proof {
                    let j = choose|j: int|
                        0 <= j < v.create_events.len() && v.create_events[j].nsid == nsid@;
                    if j != ci {
                        assert(v.create_events[j].nsid != v.create_events[ci as int].nsid);
                    }
                    assert(create_row_for(v, nsid@) == v.create_events[ci as int]);
                }
                name = Some(bytes_of(crow.name.as_slice()));
                match self.find_records_index(nsid, crow.pubkey.as_slice()) {
                    Some(k) => {
                        proof {
                            let pk = v.create_events[ci as int].pubkey;
                            let j = choose|j: int|
                                0 <= j < v.records_events.len() && v.records_events[j].nsid
                                    == nsid@ && v.records_events[j].pubkey == pk;
                            assert(v.records_events[k as int].nsid == nsid@ && v.records_events[
                                k as int].pubkey == pk);
                            if j != k {
                                assert(!(v.records_events[j].nsid == v.records_events[
                                    k as int].nsid && v.records_events[j].pubkey
                                    == v.records_events[k as int].pubkey));
                            }
                            assert(records_value(v, nsid@, pk) == v.records_events[
                                k as int].records);
                        }
                        match parse_record_map(self.records_events[k].records.as_slice()) {
                            Some(list) => {
                                records = list;
                            },
                            None => {},
                        }
                    },
                    None => {},
                }
            },
            None => {},
        }
        let blockdata: Option<(Vec<u8>, Vec<u8>, u64, u64)> = match self.find_blockchain_index(
            nsid,
        ) {
            Some(bi) => {
                let brow = &self.blockchain[bi];
                assert(brow@ == v.blockchain[bi as int]);
                proof {
                    let j = choose|j: int|
                        0 <= j < v.blockchain.len() && v.blockchain[j].nsid == nsid@;
                    if j != bi {
                        assert(v.blockchain[j].nsid != v.blockchain[bi as int].nsid);
                    }
                    assert(blockchain_row_for(v, nsid@) == v.blockchain[bi as int]);
                }
                Some(
                    (
                        bytes_of(brow.blockhash.as_slice()),
                        bytes_of(brow.txid.as_slice()),
                        brow.vout,
                        brow.height,
                    ),
                )
            },
            None => None,
        };
        NamespaceDetails { name, records, children: Vec::new(), blockdata }
    }

    /// The identifier a create row binds to `name`, through the first such
    /// row, if any exists.
    pub fn nsid_for_name(&self, name: &[u8]) -> (r: Option<Vec<u8>>)
        ensures
            r is Some <==> has_create_name(self@, name@),
            r matches Some(b) ==> exists|i: int|
                0 <= i < self@.create_events.len() && self@.create_events[i].name == name@
                    && self@.create_events[i].nsid == b@ && (forall|j: int|
                    0 <= j < i ==> self@.create_events[j].name != name@),
    {
        let n = self.create_events.len();
        let mut i: usize = 0;
        while i < n
            invariant
                n == self.create_events@.len(),
                i <= n,
                forall|j: int| 0 <= j < i ==> self@.create_events[j].name != name@,
            decreases n - i,
        {
            if bytes_eq(self.create_events[i].name.as_slice(), name) {
                assert(self@.create_events[i as int].name == name@);
                return Some(bytes_of(self.create_events[i].nsid.as_slice()));
            }
            i = i + 1;
        }
        None
    }
}

} // verus!
