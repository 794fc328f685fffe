//! The registry's laws: what the three operations guarantee, stated and
//! proved over the abstract store state.
//!
//! Each lemma here holds for every store, identifier string, timestamp
//! and payload its `requires` admits; together with the operations'
//! own contracts (each operation equals its `*_step` transition) they
//! pin the externally observable behaviour down.

use vstd::prelude::*;
use crate::device_id::{hex_value, valid_id_string};
use crate::errors::ApiError;
use crate::json::JsonValue;
use crate::store::{
    EntryModel, StoreModel, entries_of, lemma_index_of_agrees,
    lemma_push_config_preserves_wf, lemma_register_preserves_wf, ping_step, push_config_step,
    register_step,
};

verus! {

/// A successful `ping` returns the last-seen value exactly as it stood
/// immediately before the call, and afterwards the record's last-seen
/// value is the time the call was issued; nothing else of the store
/// changes.
pub proof fn lemma_ping_reports_previous_and_advances(s: StoreModel, id_str: Seq<char>, now: i64)
    requires
        s.wf(),
        valid_id_string(id_str),
        s.contains_id(hex_value(id_str) as u128),
    ensures
        ({
            let (s2, r) = ping_step(s, id_str, now);
            let i = s.index_of(hex_value(id_str) as u128);
            &&& r == Ok::<i64, ApiError>(s.records[i].last_connected)
            &&& s2.records[i].last_connected == now
            &&& s2.records[i].id == s.records[i].id
            &&& s2.records[i].mac_address == s.records[i].mac_address
            &&& s2.records[i].config_data == s.records[i].config_data
            &&& s2.records.len() == s.records.len()
            &&& forall|j: int|
                0 <= j < s.records.len() && j != i ==> s2.records[j] == #[trigger] s.records[j]
            &&& s2.next_id == s.next_id
        }),
{
}

/// A malformed identifier string is rejected by `ping` and
/// `push_config` alike, with `InvalidIdentifier`, and the store is left
/// exactly as it was: resolution happens before any record is touched.
pub proof fn lemma_malformed_id_rejected(
    s: StoreModel,
    id_str: Seq<char>,
    now: i64,
    payload: JsonValue,
)
    requires
        !valid_id_string(id_str),
    ensures
        ping_step(s, id_str, now) == (s, Err::<i64, ApiError>(ApiError::InvalidIdentifier)),
        push_config_step(s, id_str, payload) == (
            s,
            Err::<(), ApiError>(ApiError::InvalidIdentifier),
        ),
{
}

/// Registration creates exactly one fresh record: its identifier was
/// not assigned before, and reading it back yields the given MAC
/// address, the registration time as last-seen, and an empty
/// configuration history.
pub proof fn lemma_register_creates_fresh_record(s: StoreModel, mac_address: Seq<char>, now: i64)
    requires
        s.wf(),
        s.next_id != u64::MAX,
    ensures
        ({
            let (s2, r) = register_step(s, mac_address, now);
            &&& r is Ok
            &&& !s.contains_id(r->Ok_0.value)
            &&& s2.wf()
            &&& s2.contains_id(r->Ok_0.value)
            &&& {
                let rec = s2.records[s2.index_of(r->Ok_0.value)];
                &&& rec.mac_address == mac_address
                &&& rec.last_connected == now
                &&& rec.config_data.len() == 0
            }
            &&& s2.records.len() == s.records.len() + 1
            &&& forall|j: int| 0 <= j < s.records.len() ==> s2.records[j] == #[trigger] s.records[j]
        }),
{
    lemma_register_preserves_wf(s, mac_address, now);
    let (s2, r) = register_step(s, mac_address, now);
    let id = s.next_id as u128;
    assert(s2.records[s.records.len() as int].id == id);
    lemma_index_of_agrees(s2, id, s.records.len() as int);
    if s.contains_id(id) {
        let i = choose|i: int| 0 <= i < s.records.len() && s.records[i].id == id;
        assert(s.records[i].id < s.next_id);
    }
}

/// Pushing a configuration object appends exactly one entry per member
/// onto the identified record's history — each keeping its key and the
/// value's compact textual form, in order — and changes nothing else.
pub proof fn lemma_push_config_appends(s: StoreModel, id_str: Seq<char>, payload: JsonValue)
    requires
        s.wf(),
        valid_id_string(id_str),
        s.contains_id(hex_value(id_str) as u128),
        payload is Object,
    ensures
        ({
            let (s2, r) = push_config_step(s, id_str, payload);
            let i = s.index_of(hex_value(id_str) as u128);
            let fields = payload->Object_0@;
            let before = s.records[i].config_data;
            &&& r == Ok::<(), ApiError>(())
            &&& s2.wf()
            &&& s2.records[i].config_data == before + entries_of(fields)
            &&& s2.records[i].config_data.len() == before.len() + fields.len()
            &&& forall|j: int|
                0 <= j < fields.len() ==> (#[trigger] s2.records[i].config_data[before.len() + j])
                    == (EntryModel { key: fields[j].0@, value: crate::json::rendered(fields[j].1) })
            &&& s2.records[i].id == s.records[i].id
            &&& s2.records[i].last_connected == s.records[i].last_connected
            &&& s2.records[i].mac_address == s.records[i].mac_address
            &&& s2.records.len() == s.records.len()
            &&& forall|j: int|
                0 <= j < s.records.len() && j != i ==> s2.records[j] == #[trigger] s.records[j]
            &&& s2.next_id == s.next_id
        }),
{
    lemma_push_config_preserves_wf(s, id_str, payload);
}

/// Pushing the same configuration object twice accumulates both
/// batches: the history grows by two entries per member, with no
/// deduplication.
pub proof fn lemma_push_config_twice_accumulates(s: StoreModel, id_str: Seq<char>, payload: JsonValue)
    requires
        s.wf(),
        valid_id_string(id_str),
        s.contains_id(hex_value(id_str) as u128),
        payload is Object,
    ensures
        ({
            let s2 = push_config_step(s, id_str, payload).0;
            let s3 = push_config_step(s2, id_str, payload).0;
            let i = s.index_of(hex_value(id_str) as u128);
            let fields = payload->Object_0@;
            &&& push_config_step(s2, id_str, payload).1 == Ok::<(), ApiError>(())
            &&& s3.records[i].config_data == s.records[i].config_data + entries_of(fields)
                + entries_of(fields)
            &&& s3.records[i].config_data.len() == s.records[i].config_data.len() + 2 * fields.len()
        }),
{
    let id = hex_value(id_str) as u128;
    let i = s.index_of(id);
    lemma_push_config_appends(s, id_str, payload);
    let s2 = push_config_step(s, id_str, payload).0;
    assert(s2.records[i].id == id);
    lemma_index_of_agrees(s2, id, i);
    lemma_push_config_appends(s2, id_str, payload);
    let s3 = push_config_step(s2, id_str, payload).0;
    let fields = payload->Object_0@;
    assert(s3.records[i].config_data =~= s.records[i].config_data + entries_of(fields)
        + entries_of(fields));
}

/// A payload that is not a JSON object is rejected with
/// `InvalidConfigPayload`, and every record's history is left exactly
/// as it was.
pub proof fn lemma_non_object_payload_rejected(s: StoreModel, id_str: Seq<char>, payload: JsonValue)
    requires
        valid_id_string(id_str),
        !(payload is Object),
    ensures
        push_config_step(s, id_str, payload) == (
            s,
            Err::<(), ApiError>(ApiError::InvalidConfigPayload),
        ),
{
}

/// A well-formed identifier that no record carries: `ping` reports
/// `RecordNotFound`, while `push_config` with an object payload is a
/// successful no-op — the store is unchanged in both cases.
pub proof fn lemma_absent_record(s: StoreModel, id_str: Seq<char>, now: i64, payload: JsonValue)
    requires
        valid_id_string(id_str),
        !s.contains_id(hex_value(id_str) as u128),
    ensures
        ping_step(s, id_str, now) == (s, Err::<i64, ApiError>(ApiError::RecordNotFound)),
        payload is Object ==> push_config_step(s, id_str, payload) == (s, Ok::<(), ApiError>(())),
{
}

/// Registering twice with the identical MAC address succeeds twice and
/// yields two distinct identifiers, each carried by its own record.
pub proof fn lemma_register_twice_distinct_ids(
    s: StoreModel,
    mac_address: Seq<char>,
    t1: i64,
    t2: i64,
)
    requires
        s.wf(),
        s.next_id + 1 < u64::MAX,
    ensures
        ({
            let (s2, r1) = register_step(s, mac_address, t1);
            let (s3, r2) = register_step(s2, mac_address, t2);
            &&& r1 is Ok
            &&& r2 is Ok
            &&& r1->Ok_0 != r2->Ok_0
            &&& s3.contains_id(r1->Ok_0.value)
            &&& s3.contains_id(r2->Ok_0.value)
            &&& s3.records[s3.index_of(r1->Ok_0.value)].mac_address == mac_address
            &&& s3.records[s3.index_of(r2->Ok_0.value)].mac_address == mac_address
        }),
{
    lemma_register_preserves_wf(s, mac_address, t1);
    let (s2, r1) = register_step(s, mac_address, t1);
    lemma_register_preserves_wf(s2, mac_address, t2);
    let (s3, r2) = register_step(s2, mac_address, t2);
    assert(s3.records[s.records.len() as int].id == r1->Ok_0.value);
    lemma_index_of_agrees(s3, r1->Ok_0.value, s.records.len() as int);
    assert(s3.records[s2.records.len() as int].id == r2->Ok_0.value);
    lemma_index_of_agrees(s3, r2->Ok_0.value, s2.records.len() as int);
}

} // verus!


