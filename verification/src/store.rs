//! The device record store and the three state-mutating operations.
//!
//! A [`Store`] holds one record per registered device, keyed by a
//! store-assigned identifier.  `register` inserts a fresh record,
//! `ping` reports and advances a record's last-seen timestamp, and
//! `push_config` appends configuration entries to a record's
//! append-only history.  Every operation resolves an externally
//! supplied identifier string before touching any record, and its full
//! effect is pinned down by a specification-level transition function
//! over the store's abstract state ([`StoreModel`]).

use vstd::prelude::*;
use crate::device_id::{
    DeviceId, hex_value, lemma_pow16_bounds, parse_device_id, valid_id_string,
};
use crate::errors::ApiError;
use crate::json::{JsonValue, rendered};

verus! {

/// One entry of a record's configuration history: a single key and the
/// pushed value's textual form.
#[derive(Debug)]
pub struct ConfigEntry {
    pub key: String,
    pub value: String,
}

/// A registration request body: the MAC address the device reports.
#[allow(non_snake_case)]
#[derive(Debug, Clone)]
pub struct MAC {
    pub macAddress: String,
}

/// The persisted representation of one registered device.
#[derive(Debug)]
pub struct DeviceRecord {
    /// Store-assigned identifier; never changes after creation.
    pub id: DeviceId,
    /// Milliseconds since the epoch; set at creation, advanced by pings.
    pub last_connected: i64,
    /// As given at registration; neither validated nor unique.
    pub mac_address: String,
    /// Append-only configuration history.
    pub config_data: Vec<ConfigEntry>,
}

/// Abstract state of one configuration entry.
#[verifier::ext_equal]
pub struct EntryModel {
    pub key: Seq<char>,
    pub value: Seq<char>,
}

/// Abstract state of one device record.
#[verifier::ext_equal]
pub struct RecordModel {
    pub id: u128,
    pub last_connected: i64,
    pub mac_address: Seq<char>,
    pub config_data: Seq<EntryModel>,
}

/// Abstract state of the whole store: the records in insertion order,
/// and the next identifier value to assign.
#[verifier::ext_equal]
pub struct StoreModel {
    pub records: Seq<RecordModel>,
    pub next_id: u64,
}

impl View for ConfigEntry {
    type V = EntryModel;

    open spec fn view(&self) -> EntryModel {
        EntryModel { key: self.key@, value: self.value@ }
    }
}

impl View for DeviceRecord {
    type V = RecordModel;

    open spec fn view(&self) -> RecordModel {
        RecordModel {
            id: self.id.value,
            last_connected: self.last_connected,
            mac_address: self.mac_address@,
            config_data: self.config_data@.map_values(|e: ConfigEntry| e@),
        }
    }
}

impl StoreModel {
    /// Whether some record carries the identifier `id`.
    pub open spec fn contains_id(self, id: u128) -> bool {
        exists|i: int| 0 <= i < self.records.len() && self.records[i].id == id
    }

    /// The position of the record carrying `id` (unique under [`Self::wf`]).
    pub open spec fn index_of(self, id: u128) -> int {
        choose|i: int| 0 <= i < self.records.len() && self.records[i].id == id
    }

    /// Store invariant: identifiers are distinct, and all assigned
    /// identifiers lie below the next one to be assigned.
    pub open spec fn wf(self) -> bool {
        &&& forall|i: int, j: int|
            0 <= i < j < self.records.len() ==> #[trigger] self.records[i].id
                != #[trigger] self.records[j].id
        &&& forall|i: int|
            0 <= i < self.records.len() ==> #[trigger] self.records[i].id < self.next_id
    }
}

/// Under the store invariant, a position whose record carries `id` is
/// the position `index_of` names.
pub proof fn lemma_index_of_agrees(s: StoreModel, id: u128, i: int)
    requires
        s.wf(),
        0 <= i < s.records.len(),
        s.records[i].id == id,
    ensures
        s.contains_id(id),
        s.index_of(id) == i,
{
    assert(s.contains_id(id));
    let j = s.index_of(id);
    if i < j {
        assert(s.records[i].id != s.records[j].id);
    } else if j < i {
        assert(s.records[j].id != s.records[i].id);
    }
}

/// The entries a configuration object contributes to a record's
/// history: one per member, in order, each keeping the key and the
/// value's compact textual rendering.
pub open spec fn entries_of(fields: Seq<(String, JsonValue)>) -> Seq<EntryModel> {
    fields.map_values(|f: (String, JsonValue)| EntryModel { key: f.0@, value: rendered(f.1) })
}

/// The effect of `ping`: a malformed identifier is rejected before any
/// record is read; an absent record reports `RecordNotFound`; otherwise
/// the previous last-seen value is returned and the record's last-seen
/// becomes `now`.
pub open spec fn ping_step(s: StoreModel, id_str: Seq<char>, now: i64) -> (StoreModel, Result<
    i64,
    ApiError,
>) {
    if !valid_id_string(id_str) {
        (s, Err(ApiError::InvalidIdentifier))
    } else {
        let id = hex_value(id_str) as u128;
        if !s.contains_id(id) {
            (s, Err(ApiError::RecordNotFound))
        } else {
            let i = s.index_of(id);
            let rec = s.records[i];
            (
                StoreModel {
                    records: s.records.update(
                        i,
                        RecordModel {
                            id: rec.id,
                            last_connected: now,
                            mac_address: rec.mac_address,
                            config_data: rec.config_data,
                        },
                    ),
                    next_id: s.next_id,
                },
                Ok(rec.last_connected),
            )
        }
    }
}

/// The effect of `register`: unconditionally insert a fresh record with
/// the given MAC address, `now` as last-seen and an empty history.  The
/// identifier is store-assigned; insertion fails only when the store
/// can assign no further identifier.
pub open spec fn register_step(s: StoreModel, mac_address: Seq<char>, now: i64) -> (
    StoreModel,
    Result<DeviceId, ApiError>,
) {
    if s.next_id == u64::MAX {
        (s, Err(ApiError::StoreWriteFailed))
    } else {
        (
            StoreModel {
                records: s.records.push(
                    RecordModel {
                        id: s.next_id as u128,
                        last_connected: now,
                        mac_address: mac_address,
                        config_data: Seq::empty(),
                    },
                ),
                next_id: (s.next_id + 1) as u64,
            },
            Ok(DeviceId { value: s.next_id as u128 }),
        )
    }
}

/// The effect of `push_config`: the identifier is resolved first, then
/// the payload must be a JSON object; its members are appended, in
/// order, to the identified record's history.  When no record carries
/// the identifier the push is a no-op that still reports success.
pub open spec fn push_config_step(s: StoreModel, id_str: Seq<char>, payload: JsonValue) -> (
    StoreModel,
    Result<(), ApiError>,
) {
    if !valid_id_string(id_str) {
        (s, Err(ApiError::InvalidIdentifier))
    } else {
        match payload {
            JsonValue::Object(fields) => {
                let id = hex_value(id_str) as u128;
                if !s.contains_id(id) {
                    (s, Ok(()))
                } else {
                    let i = s.index_of(id);
                    let rec = s.records[i];
                    (
                        StoreModel {
                            records: s.records.update(
                                i,
                                RecordModel {
                                    id: rec.id,
                                    last_connected: rec.last_connected,
                                    mac_address: rec.mac_address,
                                    config_data: rec.config_data + entries_of(fields@),
                                },
                            ),
                            next_id: s.next_id,
                        },
                        Ok(()),
                    )
                }
            },
            _ => (s, Err(ApiError::InvalidConfigPayload)),
        }
    }
}

/// The device record store.
#[derive(Debug)]
pub struct Store {
    records: Vec<DeviceRecord>,
    next_id: u64,
}

impl View for Store {
    type V = StoreModel;

    closed spec fn view(&self) -> StoreModel {
        StoreModel {
            records: self.records@.map_values(|r: DeviceRecord| r@),
            next_id: self.next_id,
        }
    }
}

impl Store {
    pub open spec fn wf(&self) -> bool {
        self@.wf()
    }

    /// An empty store; the first assigned identifier is the lowest.
    pub fn new() -> (s: Store)
        ensures
            s@ == (StoreModel { records: Seq::<RecordModel>::empty(), next_id: 0 }),
            s.wf(),
    {
        let s = Store { records: Vec::new(), next_id: 0 };
        proof {
            assert(s@.records =~= Seq::<RecordModel>::empty());
            assert(s@ =~~= StoreModel { records: Seq::<RecordModel>::empty(), next_id: 0 });
        }
        s
    }

    /// The position of the record carrying `id`, scanning in order.
    fn find(&self, id: u128) -> (r: Option<usize>)
        ensures
            match r {
                Some(i) => 0 <= i < self@.records.len() && self@.records[i as int].id == id,
                None => !self@.contains_id(id),
            },
    {
        let n: usize = self.records.len();
        let mut i: usize = 0;
        while i < n
            invariant
                0 <= i <= n,
                n == self.records@.len(),
                forall|j: int| 0 <= j < i ==> #[trigger] self@.records[j].id != id,
            decreases n - i,
        {
            if self.records[i].id.value == id {
                return Some(i);
            }
            i = i + 1;
        }
        None
    }

    /// Read one record by its internal identifier.
    pub fn get_record(&self, id: DeviceId) -> (r: Option<&DeviceRecord>)
        requires
            self.wf(),
        ensures
            match r {
                Some(rec) => self@.contains_id(id.value) && rec@ == self@.records[self@.index_of(
                    id.value,
                )],
                None => !self@.contains_id(id.value),
            },
    {
        match self.find(id.value) {
            Some(i) => {
                proof {
                    lemma_index_of_agrees(self@, id.value, i as int);
                }
                Some(&self.records[i])
            },
            None => None,
        }
    }

    /// Report the identified record's last-seen value and advance it to
    /// `now`.  The whole effect equals [`ping_step`] on the abstract
    /// state: exactly the malformed identifiers are rejected (before
    /// any record is read), exactly the absent records report
    /// `RecordNotFound`, and on success the returned value is the
    /// last-seen value as it stood immediately before this call.
    pub fn ping(&mut self, id_str: &str, now: i64) -> (r: Result<i64, ApiError>)
        requires
            old(self).wf(),
        ensures
            final(self)@ == ping_step(old(self)@, id_str@, now).0,
            r == ping_step(old(self)@, id_str@, now).1,
            final(self).wf(),
    {
        let id = match parse_device_id(id_str) {
            Err(e) => {
                return Err(e);
            },
            Ok(id) => id,
        };
        match self.find(id.value) {
            None => Err(ApiError::RecordNotFound),
            Some(i) => {
                proof {
                    lemma_index_of_agrees(self@, id.value, i as int);
                }
                let prev: i64 = self.records[i].last_connected;
                self.records[i].last_connected = now;
                proof {
                    let s0 = old(self)@;
                    let step = ping_step(s0, id_str@, now).0;
                    assert(final(self)@.records =~~= step.records);
                    assert(final(self)@ =~~= step);
                    lemma_ping_preserves_wf(s0, id_str@, now);
                }
                Ok(prev)
            },
        }
    }

    /// Insert a fresh record: `now` as last-seen, the MAC address as
    /// given, an empty history, and a newly assigned identifier, which
    /// is returned.  No uniqueness of MAC addresses is enforced.  The
    /// whole effect equals [`register_step`] on the abstract state.
    pub fn register(&mut self, mac_address: String, now: i64) -> (r: Result<DeviceId, ApiError>)
        requires
            old(self).wf(),
        ensures
            final(self)@ == register_step(old(self)@, mac_address@, now).0,
            r == register_step(old(self)@, mac_address@, now).1,
            r is Ok ==> r->Ok_0.wf(),
            final(self).wf(),
    {
        if self.next_id == u64::MAX {
            return Err(ApiError::StoreWriteFailed);
        }
        let id = DeviceId { value: self.next_id as u128 };
        let rec = DeviceRecord { id, last_connected: now, mac_address, config_data: Vec::new() };
        proof {
            assert(rec@.config_data =~= Seq::<EntryModel>::empty());
        }
        self.records.push(rec);
        self.next_id = self.next_id + 1;
        proof {
            let s0 = old(self)@;
            let step = register_step(s0, mac_address@, now).0;
            assert(final(self)@.records =~~= step.records);
            assert(final(self)@ =~~= step);
            lemma_register_preserves_wf(s0, mac_address@, now);
            lemma_pow16_bounds();
        }
        Ok(id)
    }

    /// Serve a registration request: insert a fresh record for the
    /// request's MAC address, exactly as [`Self::register`] does.
    pub fn register_request(&mut self, req: MAC, now: i64) -> (r: Result<DeviceId, ApiError>)
        requires
            old(self).wf(),
        ensures
            final(self)@ == register_step(old(self)@, req.macAddress@, now).0,
            r == register_step(old(self)@, req.macAddress@, now).1,
            r is Ok ==> r->Ok_0.wf(),
            final(self).wf(),
    {
        self.register(req.macAddress, now)
    }

    /// Append the members of a configuration object to the identified
    /// record's history, one entry per key, each value in its compact
    /// textual form.  The whole effect equals [`push_config_step`] on
    /// the abstract state: the identifier is resolved first, a
    /// non-object payload is rejected, and a well-formed identifier
    /// with no record is a successful no-op.
    pub fn push_config(&mut self, id_str: &str, payload: &JsonValue) -> (r: Result<(), ApiError>)
        requires
            old(self).wf(),
        ensures
            final(self)@ == push_config_step(old(self)@, id_str@, *payload).0,
            r == push_config_step(old(self)@, id_str@, *payload).1,
            final(self).wf(),
    {
        let id = match parse_device_id(id_str) {
            Err(e) => {
                return Err(e);
            },
            Ok(id) => id,
        };
        let fields = match payload {
            JsonValue::Object(fields) => fields,
            _ => {
                return Err(ApiError::InvalidConfigPayload);
            },
        };
        let idx = match self.find(id.value) {
            None => {
                return Ok(());
            },
            Some(i) => i,
        };
        proof {
            lemma_index_of_agrees(self@, id.value, idx as int);
        }
        let n: usize = fields.len();
        let mut k: usize = 0;
        while k < n
            invariant
                0 <= k <= n,
                n == fields@.len(),
                *payload == JsonValue::Object(*fields),
                0 <= idx < self.records@.len(),
                self.records@.len() == old(self).records@.len(),
                self.next_id == old(self).next_id,
                forall|j: int|
                    0 <= j < self.records@.len() && j != idx ==> self.records@[j]
                        == old(self).records@[j],
                self.records@[idx as int].id == old(self).records@[idx as int].id,
                self.records@[idx as int].last_connected == old(self).records@[
                    idx as int
                ].last_connected,
                self.records@[idx as int].mac_address == old(self).records@[idx as int].mac_address,
                self.records@[idx as int]@.config_data =~= old(self).records@[idx as int]@.config_data
                    + entries_of(fields@.subrange(0, k as int)),
            decreases n - k,
        {
            let value = fields[k].1.render();
            let key = fields[k].0.clone();
            let ghost em = EntryModel { key: key@, value: value@ };
            let entry = ConfigEntry { key, value };
            proof {
                assert(entry@ =~= em);
                assert(em =~= EntryModel {
                    key: fields@[k as int].0@,
                    value: rendered(fields@[k as int].1),
                });
            }
            let ghost pre = self.records@;
            self.records[idx].config_data.push(entry);
            proof {
                assert(self.records@[idx as int]@.config_data =~= pre[idx as int]@.config_data.push(
                    em,
                ));
                assert(entries_of(fields@.subrange(0, k + 1)) =~= entries_of(
                    fields@.subrange(0, k as int),
                ).push(em));
                assert((old(self).records@[idx as int]@.config_data + entries_of(
                    fields@.subrange(0, k as int),
                )).push(em) =~= old(self).records@[idx as int]@.config_data + entries_of(
                    fields@.subrange(0, k as int),
                ).push(em));
                assert(self.records@[idx as int]@.config_data =~= old(self).records@[idx as int]@.config_data
                    + entries_of(fields@.subrange(0, k + 1)));
            }
            k = k + 1;
        }
        proof {
            assert(fields@.subrange(0, n as int) =~= fields@);
            let s0 = old(self)@;
            let step = push_config_step(s0, id_str@, *payload).0;
            assert(final(self)@.records =~~= step.records);
            assert(final(self)@ =~~= step);
            lemma_push_config_preserves_wf(s0, id_str@, *payload);
        }
        Ok(())
    }
}

/// `ping` never disturbs the store invariant.
pub proof fn lemma_ping_preserves_wf(s: StoreModel, id_str: Seq<char>, now: i64)
    requires
        s.wf(),
    ensures
        ping_step(s, id_str, now).0.wf(),
{
}

/// `register` never disturbs the store invariant: the fresh identifier
/// differs from every assigned one.
pub proof fn lemma_register_preserves_wf(s: StoreModel, mac_address: Seq<char>, now: i64)
    requires
        s.wf(),
    ensures
        register_step(s, mac_address, now).0.wf(),
{
}

/// `push_config` never disturbs the store invariant.
pub proof fn lemma_push_config_preserves_wf(s: StoreModel, id_str: Seq<char>, payload: JsonValue)
    requires
        s.wf(),
    ensures
        push_config_step(s, id_str, payload).0.wf(),
{
}

} // verus!
