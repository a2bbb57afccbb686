//! Nostr events as the core sees them, and their validation.
//!
//! The relay adapter around the library delivers each event as plain bytes:
//! id, author key, timestamp, kind, tags and content, together with the
//! adapter's signature check. The core validates the structure, ties the
//! declared identifier to `Hash160(name || pubkey)`, and decides what the
//! store does with the event.

use vstd::prelude::*;

use crate::bytes::bytes_eq;
use crate::error::NomenError;
use crate::bytes::bytes_of;
use crate::hashes::Hash160;
use crate::hashes::hash160_of;
use crate::hexcode::hex_decode;
use crate::hexcode::hex_decode_of;
use crate::hexcode::is_hex_seq;
use crate::name::is_valid_name;
use crate::name::validate_name;
use crate::records::json_records_of;
use crate::records::parse_record_map;
use crate::store::CreateRowV;
use crate::store::Db;
use crate::store::DbView;
use crate::store::RecordsRowV;
use crate::store::has_blockchain_nsid;
use crate::store::has_create_nsid;
use crate::store::spec_insert_create;
use crate::store::spec_upsert_records;

verus! {

/// One event tag: its key (`"d"`, `"nom"`, ...) and its first argument.
pub struct EventTag {
    pub key: Vec<u8>,
    pub value: Vec<u8>,
}

/// The mathematical image of an [`EventTag`].
#[verifier::ext_equal]
pub struct EventTagV {
    pub key: Seq<u8>,
    pub value: Seq<u8>,
}

impl View for EventTag {
    type V = EventTagV;

    open spec fn view(&self) -> EventTagV {
        EventTagV { key: self.key@, value: self.value@ }
    }
}

/// A relay event, already unframed by the adapter. `sig_valid` carries the
/// adapter's signature check: the core never accepts an event without it.
pub struct NostrEvent {
    pub id: Vec<u8>,
    pub pubkey: Vec<u8>,
    pub created_at: u64,
    pub kind: u64,
    pub tags: Vec<EventTag>,
    pub content: Vec<u8>,
    pub sig_valid: bool,
}

/// The mathematical image of a [`NostrEvent`].
#[verifier::ext_equal]
pub struct NostrEventV {
    pub id: Seq<u8>,
    pub pubkey: Seq<u8>,
    pub created_at: u64,
    pub kind: u64,
    pub tags: Seq<EventTagV>,
    pub content: Seq<u8>,
    pub sig_valid: bool,
}

impl View for NostrEvent {
    type V = NostrEventV;

    open spec fn view(&self) -> NostrEventV {
        NostrEventV {
            id: self.id@,
            pubkey: self.pubkey@,
            created_at: self.created_at,
            kind: self.kind,
            tags: self.tags@.map_values(|t: EventTag| t@),
            content: self.content@,
            sig_valid: self.sig_valid,
        }
    }
}

/// The key of the identifier tag.
pub open spec fn d_key() -> Seq<u8> {
    seq![100u8]
}

/// The key of the name tag.
pub open spec fn nom_key() -> Seq<u8> {
    seq![110u8, 111u8, 109u8]
}

/// How many tags carry `key`.
pub open spec fn count_tag(tags: Seq<EventTagV>, key: Seq<u8>) -> int
    decreases tags.len(),
{
    if tags.len() == 0 {
        0
    } else {
        count_tag(tags.drop_last(), key) + if tags.last().key == key {
            1int
        } else {
            0int
        }
    }
}

/// The first position of a tag with `key`, or -1.
pub open spec fn find_tag(tags: Seq<EventTagV>, key: Seq<u8>) -> int
    decreases tags.len(),
{
    if tags.len() == 0 {
        -1
    } else if tags[0].key == key {
        0
    } else {
        let r = find_tag(tags.drop_first(), key);
        if r < 0 {
            -1
        } else {
            1 + r
        }
    }
}

/// The value of the first tag with `key`.
pub open spec fn tag_value(tags: Seq<EventTagV>, key: Seq<u8>) -> Seq<u8>
    recommends
        find_tag(tags, key) >= 0,
{
    tags[find_tag(tags, key)].value
}

/// What [`find_tag`] returns is the first tag with the key, when any exists.
pub proof fn lemma_find_tag(tags: Seq<EventTagV>, key: Seq<u8>)
    ensures
        find_tag(tags, key) == -1 <==> (forall|i: int| 0 <= i < tags.len() ==> tags[i].key != key),
        find_tag(tags, key) >= 0 ==> find_tag(tags, key) < tags.len() && tags[find_tag(
            tags,
            key,
        )].key == key && (forall|j: int| 0 <= j < find_tag(tags, key) ==> tags[j].key != key),
    decreases tags.len(),
{
    if tags.len() > 0 && tags[0].key != key {
        let t = tags.drop_first();
        lemma_find_tag(t, key);
        if find_tag(t, key) == -1 {
            assert forall|i: int| 0 <= i < tags.len() implies tags[i].key != key by {
                if i > 0 {
                    assert(t[i - 1] == tags[i]);
                    assert(t[i - 1].key != key);
                }
            }
        } else {
            let r = find_tag(t, key);
            assert(find_tag(tags, key) == 1 + r);
            assert(tags[1 + r] == t[r]);
            assert forall|j: int| 0 <= j < 1 + r implies tags[j].key != key by {
                if j > 0 {
                    assert(tags[j] == t[j - 1]);
                }
            }
        }
    }
}

impl NostrEvent {
    /// How many of the event's tags carry `key`.
    pub fn count_tags(&self, key: &[u8]) -> (r: usize)
        ensures
            r == count_tag(self@.tags, key@),
    {
        let n = self.tags.len();
        let mut count: usize = 0;
        let mut i: usize = 0;
        while i < n
            invariant
                n == self.tags@.len(),
                i <= n,
                count <= i,
                count == count_tag(self@.tags.subrange(0, i as int), key@),
            decreases n - i,
        {
            proof {
                let pre = self@.tags.subrange(0, i as int);
                let post = self@.tags.subrange(0, i + 1);
                assert(post.drop_last() =~= pre);
                assert(post.last() == self@.tags[i as int]);
            }
            if bytes_eq(self.tags[i].key.as_slice(), key) {
                assert(self@.tags[i as int].key == key@);
                count = count + 1;
            } else {
                assert(self@.tags[i as int].key != key@);
            }
            i = i + 1;
        }
        proof {
            assert(self@.tags.subrange(0, n as int) =~= self@.tags);
        }
        count
    }

    /// The value of the first tag with `key`, if any tag carries it.
    pub fn tag(&self, key: &[u8]) -> (r: Option<Vec<u8>>)
        ensures
            r is Some <==> find_tag(self@.tags, key@) >= 0,
            r matches Some(v) ==> v@ == tag_value(self@.tags, key@),
    {
        proof {
            lemma_find_tag(self@.tags, key@);
        }
        let n = self.tags.len();
        let mut i: usize = 0;
        while i < n
            invariant
                n == self.tags@.len(),
                i <= n,
                forall|j: int| 0 <= j < i ==> self@.tags[j].key != key@,
            decreases n - i,
        {
            if bytes_eq(self.tags[i].key.as_slice(), key) {
                assert(self@.tags[i as int].key == key@);
                proof {
                    lemma_find_tag_first(self@.tags, key@, i as int);
                }
                return Some(bytes_of(self.tags[i].value.as_slice()));
            }
            assert(self@.tags[i as int].key != key@);
            i = i + 1;
        }
        proof {
            lemma_find_tag(self@.tags, key@);
        }
        None
    }
}

/// An index that carries the key, with only misses before it, is what
/// [`find_tag`] finds.
pub proof fn lemma_find_tag_first(tags: Seq<EventTagV>, key: Seq<u8>, i: int)
    requires
        0 <= i < tags.len(),
        tags[i].key == key,
        forall|j: int| 0 <= j < i ==> tags[j].key != key,
    ensures
        find_tag(tags, key) == i,
    decreases tags.len(),
{
    if i > 0 {
        let t = tags.drop_first();
        assert(forall|j: int| 0 <= j < i - 1 ==> t[j] == tags[j + 1]);
        assert(t[i - 1] == tags[i]);
        lemma_find_tag_first(t, key, i - 1);
    }
}

/// What the create indexer decides about one event.
#[derive(Clone, Copy, Debug, PartialEq, Eq, Structural)]
pub enum CreateVerdict {
    /// Valid, anchored, first of its identifier: stored.
    Accepted,
    /// Valid but its anchor is not confirmed yet: not stored this tick; the
    /// next tick fetches it again.
    Deferred,
    /// Structurally broken, failing its fingerprint, unsigned, or a later
    /// claim on a taken identifier: never stored.
    Rejected,
}

/// Structural validity of a create event: the create kind, a checked
/// signature, exactly one `d` tag decoding to 20 hex-encoded bytes, exactly
/// one `nom` tag carrying a well-formed name, a 32-byte author key, and the
/// identifier equal to `Hash160(name || pubkey)`.
pub open spec fn create_event_structural(e: NostrEventV) -> bool {
    &&& e.kind == 38300
    &&& e.sig_valid
    &&& count_tag(e.tags, d_key()) == 1
    &&& count_tag(e.tags, nom_key()) == 1
    &&& find_tag(e.tags, d_key()) >= 0
    &&& find_tag(e.tags, nom_key()) >= 0
    &&& is_hex_seq(tag_value(e.tags, d_key()))
    &&& hex_decode_of(tag_value(e.tags, d_key())).len() == 20
    &&& is_valid_name(tag_value(e.tags, nom_key()))
    &&& e.pubkey.len() == 32
    &&& hex_decode_of(tag_value(e.tags, d_key())) == hash160_of(
        tag_value(e.tags, nom_key()) + e.pubkey,
    )
}

/// The identifier a structurally valid event declares.
pub open spec fn event_nsid(e: NostrEventV) -> Seq<u8> {
    hex_decode_of(tag_value(e.tags, d_key()))
}

/// The name a structurally valid event declares.
pub open spec fn event_name(e: NostrEventV) -> Seq<u8> {
    tag_value(e.tags, nom_key())
}

/// What the create indexer decides: broken events are rejected; valid ones
/// wait for their on-chain anchor; anchored first claims are accepted;
/// later claims on a taken identifier are rejected.
pub open spec fn spec_create_verdict(v: DbView, e: NostrEventV) -> CreateVerdict {
    if !create_event_structural(e) {
        CreateVerdict::Rejected
    } else if !has_blockchain_nsid(v, event_nsid(e)) {
        CreateVerdict::Deferred
    } else if has_create_nsid(v, event_nsid(e)) {
        CreateVerdict::Rejected
    } else {
        CreateVerdict::Accepted
    }
}

/// The row an accepted create event stores.
pub open spec fn create_row_of(e: NostrEventV) -> CreateRowV {
    CreateRowV {
        nsid: event_nsid(e),
        pubkey: e.pubkey,
        created_at: e.created_at,
        event_id: e.id,
        name: event_name(e),
        children: e.content,
    }
}

/// The store after the create indexer sees `e`: unchanged unless accepted.
pub open spec fn spec_apply_create(v: DbView, e: NostrEventV) -> DbView {
    if spec_create_verdict(v, e) == CreateVerdict::Accepted {
        spec_insert_create(v, create_row_of(e))
    } else {
        v
    }
}

/// Structural validity of a records event: the records kind, a checked
/// signature, the two tags as for a create, a 32-byte author key, and a
/// content that is a JSON object of string to string. Records events are
/// not tied to the fingerprint: the join with the create event happens at
/// read time, on `(nsid, pubkey)`.
pub open spec fn records_event_structural(e: NostrEventV) -> bool {
    &&& e.kind == 38301
    &&& e.sig_valid
    &&& count_tag(e.tags, d_key()) == 1
    &&& count_tag(e.tags, nom_key()) == 1
    &&& find_tag(e.tags, d_key()) >= 0
    &&& find_tag(e.tags, nom_key()) >= 0
    &&& is_hex_seq(tag_value(e.tags, d_key()))
    &&& hex_decode_of(tag_value(e.tags, d_key())).len() == 20
    &&& is_valid_name(tag_value(e.tags, nom_key()))
    &&& e.pubkey.len() == 32
    &&& json_records_of(e.content) is Some
}

/// The row a valid records event offers.
pub open spec fn records_row_of(e: NostrEventV) -> RecordsRowV {
    RecordsRowV {
        nsid: event_nsid(e),
        pubkey: e.pubkey,
        created_at: e.created_at,
        event_id: e.id,
        name: event_name(e),
        records: e.content,
    }
}

/// The store after the records indexer sees `e`: unchanged unless valid,
/// and then upserted under the newest-wins rule.
pub open spec fn spec_apply_records_event(v: DbView, e: NostrEventV) -> DbView {
    if records_event_structural(e) {
        spec_upsert_records(v, records_row_of(e))
    } else {
        v
    }
}

/// Checks a create event against the store without touching it.
pub fn validate_create(db: &Db, e: &NostrEvent) -> (r: CreateVerdict)
    ensures
        r == spec_create_verdict(db@, e@),
{
    match create_event_parts(e) {
        Some((nsid, _name)) => {
            if !db.namespace_exists(nsid.as_slice()) {
                CreateVerdict::Deferred
            } else if db.create_event_exists(nsid.as_slice()) {
                CreateVerdict::Rejected
            } else {
                CreateVerdict::Accepted
            }
        },
        None => CreateVerdict::Rejected,
    }
}

/// The decoded identifier and name of a structurally valid create event.
fn create_event_parts(e: &NostrEvent) -> (r: Option<(Vec<u8>, Vec<u8>)>)
    ensures
        r is Some <==> create_event_structural(e@),
        r matches Some(p) ==> p.0@ == event_nsid(e@) && p.1@ == event_name(e@),
{
    if e.kind != 38300 || !e.sig_valid {
        return None;
    }
    let dk: [u8; 1] = [100];
    let nk: [u8; 3] = [110, 111, 109];
    proof {
        assert(dk@ =~= d_key());
        assert(nk@ =~= nom_key());
    }
    if e.count_tags(dk.as_slice()) != 1 || e.count_tags(nk.as_slice()) != 1 {
        return None;
    }
    let d_val = match e.tag(dk.as_slice()) {
        Some(v) => v,
        None => {
            proof {
                lemma_count_tag_find(e@.tags, d_key());
            }
            return None;
        },
    };
    let name = match e.tag(nk.as_slice()) {
        Some(v) => v,
        None => {
            proof {
                lemma_count_tag_find(e@.tags, nom_key());
            }
            return None;
        },
    };
    let nsid = match hex_decode(d_val.as_slice()) {
        Some(v) => v,
        None => {
            return None;
        },
    };
    if nsid.len() != 20 {
        return None;
    }
    if !validate_name(name.as_slice()) {
        return None;
    }
    if e.pubkey.len() != 32 {
        return None;
    }
    let expected = Hash160::default().chain_update(name.as_slice()).chain_update(
        e.pubkey.as_slice(),
    ).fingerprint();
    proof {
        assert(Seq::<u8>::empty() + name@ + e.pubkey@ =~= name@ + e.pubkey@);
    }
    if !bytes_eq(nsid.as_slice(), expected.as_slice()) {
        return None;
    }
    Some((nsid, name))
}

/// A positive tag count means the tag is found.
pub proof fn lemma_count_tag_find(tags: Seq<EventTagV>, key: Seq<u8>)
    ensures
        count_tag(tags, key) > 0 ==> find_tag(tags, key) >= 0,
    decreases tags.len(),
{
    lemma_find_tag(tags, key);
    if tags.len() > 0 {
        lemma_count_tag_find(tags.drop_last(), key);
        if count_tag(tags, key) > 0 && find_tag(tags, key) == -1 {
            assert(tags.last().key != key) by {
                assert(tags[tags.len() - 1].key != key);
            }
            assert(count_tag(tags.drop_last(), key) > 0);
            lemma_find_tag(tags.drop_last(), key);
            let i = find_tag(tags.drop_last(), key);
            assert(tags.drop_last()[i].key == key);
            assert(tags[i].key == key);
            assert(false);
        }
    }
}

/// Runs one create event through the store: inserts exactly the accepted
/// ones, first claim per identifier.
pub fn index_create_event(db: &mut Db, e: &NostrEvent) -> (r: CreateVerdict)
    requires
        old(db).wf(),
    ensures
        final(db).wf(),
        r == spec_create_verdict(old(db)@, e@),
        final(db)@ == spec_apply_create(old(db)@, e@),
{
    match create_event_parts(e) {
        Some((nsid, name)) => {
            if !db.namespace_exists(nsid.as_slice()) {
                CreateVerdict::Deferred
            } else if db.create_event_exists(nsid.as_slice()) {
                CreateVerdict::Rejected
            } else {
                let pubkey = bytes_of(e.pubkey.as_slice());
                let event_id = bytes_of(e.id.as_slice());
                let children = bytes_of(e.content.as_slice());
                db.insert_create_event(nsid, pubkey, e.created_at, event_id, name, children);
                proof {
                    assert(db@ =~= spec_apply_create(old(db)@, e@));
                }
                CreateVerdict::Accepted
            }
        },
        None => CreateVerdict::Rejected,
    }
}

/// Checks a records event's structure.
pub fn validate_records(e: &NostrEvent) -> (r: Result<(), NomenError>)
    ensures
        r is Ok <==> records_event_structural(e@),
        r matches Err(err) ==> err == NomenError::InvalidEvent,
{
    match records_event_parts(e) {
        Some(_) => Ok(()),
        None => Err(NomenError::InvalidEvent),
    }
}

/// The decoded identifier and name of a structurally valid records event.
fn records_event_parts(e: &NostrEvent) -> (r: Option<(Vec<u8>, Vec<u8>)>)
    ensures
        r is Some <==> records_event_structural(e@),
        r matches Some(p) ==> p.0@ == event_nsid(e@) && p.1@ == event_name(e@),
{
    if e.kind != 38301 || !e.sig_valid {
        return None;
    }
    let dk: [u8; 1] = [100];
    let nk: [u8; 3] = [110, 111, 109];
    proof {
        assert(dk@ =~= d_key());
        assert(nk@ =~= nom_key());
    }
    if e.count_tags(dk.as_slice()) != 1 || e.count_tags(nk.as_slice()) != 1 {
        return None;
    }
    let d_val = match e.tag(dk.as_slice()) {
        Some(v) => v,
        None => {
            proof {
                lemma_count_tag_find(e@.tags, d_key());
            }
            return None;
        },
    };
    let name = match e.tag(nk.as_slice()) {
        Some(v) => v,
        None => {
            proof {
                lemma_count_tag_find(e@.tags, nom_key());
            }
            return None;
        },
    };
    let nsid = match hex_decode(d_val.as_slice()) {
        Some(v) => v,
        None => {
            return None;
        },
    };
    if nsid.len() != 20 {
        return None;
    }
    if !validate_name(name.as_slice()) {
        return None;
    }
    if e.pubkey.len() != 32 {
        return None;
    }
    if parse_record_map(e.content.as_slice()).is_none() {
        return None;
    }
    Some((nsid, name))
}

/// Runs one records event through the store: a valid one is upserted, kept
/// only while no newer row owns its `(nsid, pubkey)` key.
pub fn index_records_event(db: &mut Db, e: &NostrEvent) -> (r: bool)
    requires
        old(db).wf(),
    ensures
        final(db).wf(),
        r == records_event_structural(e@),
        final(db)@ == spec_apply_records_event(old(db)@, e@),
{
    match records_event_parts(e) {
        Some((nsid, name)) => {
            let pubkey = bytes_of(e.pubkey.as_slice());
            let event_id = bytes_of(e.id.as_slice());
            let records = bytes_of(e.content.as_slice());
            db.insert_records_event(nsid, pubkey, e.created_at, event_id, name, records);
            proof {
                assert(db@ =~= spec_apply_records_event(old(db)@, e@));
            }
            true
        },
        None => false,
    }
}

} // verus!
