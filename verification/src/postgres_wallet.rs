//! A storage wallet plug-in: the handle bookkeeping behind its C entry
//! points. Open storages, fetched records, searches and metadata are kept
//! in tables keyed by integer handles that are handed out from a counter;
//! the in-memory wallets hold records keyed by `type-id`. The storage calls
//! themselves are made by the caller with the storage that a handle stands
//! for.

use vstd::prelude::*;
use crate::errors::WalletStorageError;
use std::collections::HashMap;
use vstd::std_specs::hash::spec_hash_map_iter;
use vstd::std_specs::iter::IteratorSpec;
use crate::strmap::StrMap;
use crate::tags::Tag;
use crate::tags::json_object_written;
use crate::tags::json_string_array;
use crate::tags::json_string_entries;
use crate::tags::pairs_view;
use crate::tags::parse_json_string_list;
use crate::tags::parse_json_string_map;
use crate::tags::write_json_object;
use crate::tags::tags_to_json;
use crate::tags::tags_view;
use crate::tags::written_tags_json;
use crate::tags::insert_pairs;
use crate::tags::pairs_map;
use crate::tags::remove_names;
use crate::tags::text_map;

verus! {

broadcast use vstd::std_specs::hash::group_hash_axioms;

/// The result codes of the entry points.
#[derive(PartialEq, Eq, Structural, Debug, Clone, Copy)]
pub enum ErrorCode {
    Success,
    CommonInvalidStructure,
    CommonInvalidState,
    WalletNotFoundError,
    WalletAlreadyOpenedError,
    WalletItemNotFound,
    WalletItemAlreadyExists,
    WalletStorageError,
}

/// An open in-memory wallet: the id of the wallet it stands for.
pub struct InmemWalletContext {
    pub id: String,
}

/// A record of an in-memory wallet.
pub struct InmemWalletRecord {
    pub type_: String,
    pub id: String,
    pub value: Vec<u8>,
    pub tags: String,
}

/// A record as plain values.
pub struct InmemRecordView {
    pub type_: Seq<char>,
    pub id: Seq<char>,
    pub value: Seq<u8>,
    pub tags: Seq<char>,
}

impl View for InmemWalletRecord {
    type V = InmemRecordView;

    open spec fn view(&self) -> InmemRecordView {
        InmemRecordView { type_: self.type_@, id: self.id@, value: self.value@, tags: self.tags@ }
    }
}

/// An in-memory wallet: its metadata and its records by `type-id`.
pub struct InmemWalletEntity {
    pub metadata: String,
    pub records: StrMap<InmemWalletRecord>,
}

/// An open storage wallet: its handle, id, configuration, credentials and
/// the storage itself.
pub struct PostgresStorageContext<S> {
    pub xhandle: i32,
    pub id: String,
    pub config: String,
    pub credentials: String,
    pub phandle: S,
}

/// A record fetched from a storage, as handed out through its handle.
pub struct PostgresWalletRecord {
    pub rec_id: i32,
    pub id: Vec<u8>,
    pub type_: Vec<u8>,
    pub value: Vec<u8>,
    pub tags: String,
}

/// A record as a storage returns it: the value already joined to bytes, and
/// each part present only where it was asked for.
pub struct StorageRecord {
    pub rec_id: i32,
    pub id: Vec<u8>,
    pub type_: Option<Vec<u8>>,
    pub value: Option<Vec<u8>>,
    pub tags: Option<Vec<Tag>>,
}

/// The state behind the entry points.
pub struct PostgresWallet<S> {
    pub inmem_wallets: StrMap<InmemWalletEntity>,
    pub inmem_open_wallets: HashMap<i32, InmemWalletContext>,
    pub postgres_open_wallets: HashMap<i32, PostgresStorageContext<S>>,
    pub active_metadatas: HashMap<i32, String>,
    pub active_records: HashMap<i32, InmemWalletRecord>,
    pub postgres_active_records: HashMap<i32, PostgresWalletRecord>,
    pub active_searches: HashMap<i32, Vec<InmemWalletRecord>>,
    /// The handle counter: the last handle handed out.
    pub ids_counter: usize,
}

/// The key of a record of an in-memory wallet: `type-id`.
pub open spec fn record_key(type_: Seq<char>, id: Seq<char>) -> Seq<char> {
    type_ + "-"@ + id
}

/// Records as plain values.
pub open spec fn records_view(m: Map<Seq<char>, InmemWalletRecord>) -> Map<Seq<char>, InmemRecordView> {
    m.map_values(|r: InmemWalletRecord| r@)
}

/// An in-memory wallet as plain values: metadata and records.
pub open spec fn entity_view(e: InmemWalletEntity) -> (Seq<char>, Map<Seq<char>, InmemRecordView>) {
    (e.metadata@, records_view(e.records@))
}

/// A list of records as plain values.
pub open spec fn record_list_view(v: Seq<InmemWalletRecord>) -> Seq<InmemRecordView> {
    v.map_values(|r: InmemWalletRecord| r@)
}

/// The records of a wallet whose keys start with `prefix`, in table order.
pub open spec fn matching_records(e: Seq<(String, InmemWalletRecord)>, prefix: Seq<char>) -> Seq<InmemRecordView>
    decreases e.len(),
{
    if e.len() == 0 {
        Seq::empty()
    } else if prefix.is_prefix_of(e.last().0@) {
        matching_records(e.drop_last(), prefix).push(e.last().1@)
    } else {
        matching_records(e.drop_last(), prefix)
    }
}

/// A search by `prefix` holds exactly the records of the table whose key
/// starts with `prefix`, in table order: the table filtered by that test.
/// So every such entry is in the search, whatever entries come before it,
/// and the search holds as many records as there are such entries.
pub proof fn lemma_search_holds_exactly_the_matches(e: Seq<(String, InmemWalletRecord)>, prefix: Seq<char>)
    ensures
        matching_records(e, prefix) == e.filter(|x: (String, InmemWalletRecord)| prefix.is_prefix_of(x.0@))
            .map_values(|x: (String, InmemWalletRecord)| x.1@),
        matching_records(e, prefix).len() == e.filter(|x: (String, InmemWalletRecord)| prefix.is_prefix_of(x.0@)).len(),
        forall|i: int| 0 <= i < e.len() && prefix.is_prefix_of((#[trigger] e[i]).0@)
            ==> matching_records(e, prefix).contains(e[i].1@),
    decreases e.len(),
{
    let pred = |x: (String, InmemWalletRecord)| prefix.is_prefix_of(x.0@);
    let f = |x: (String, InmemWalletRecord)| x.1@;
    reveal_with_fuel(Seq::<(String, InmemWalletRecord)>::filter, 1);
    if e.len() == 0 {
        assert(e.filter(pred) =~= e);
        assert(matching_records(e, prefix) =~= e.filter(pred).map_values(f));
    } else {
        let d = e.drop_last();
        lemma_search_holds_exactly_the_matches(d, prefix);
        assert(e.filter(pred) == if pred(e.last()) { d.filter(pred).push(e.last()) } else { d.filter(pred) });
        if pred(e.last()) {
            assert(d.filter(pred).push(e.last()).map_values(f) =~= d.filter(pred).map_values(f).push(f(e.last())));
        }
        assert(matching_records(e, prefix) =~= e.filter(pred).map_values(f));
    }
    assert forall|i: int| 0 <= i < e.len() && prefix.is_prefix_of((#[trigger] e[i]).0@)
        implies matching_records(e, prefix).contains(e[i].1@) by {
        e.filter_lemma(pred);
        assert(e.filter(pred).contains(e[i]));
        let j = choose|j: int| 0 <= j < e.filter(pred).len() && e.filter(pred)[j] == e[i];
        assert(matching_records(e, prefix)[j] == e[i].1@);
    }
}

/// All records of a wallet, in table order.
pub open spec fn all_records(e: Seq<(String, InmemWalletRecord)>) -> Seq<InmemRecordView> {
    e.map_values(|x: (String, InmemWalletRecord)| x.1@)
}

/// Metadata by handle, as texts.
pub open spec fn text_map_i(m: Map<i32, String>) -> Map<i32, Seq<char>> {
    m.map_values(|v: String| v@)
}

/// Searches by handle, as lists of plain records.
pub open spec fn searches_view(m: Map<i32, Vec<InmemWalletRecord>>) -> Map<i32, Seq<InmemRecordView>> {
    m.map_values(|v: Vec<InmemWalletRecord>| record_list_view(v@))
}

/// Fetched records by handle, as plain records.
pub open spec fn records_view_i(m: Map<i32, InmemWalletRecord>) -> Map<i32, InmemRecordView> {
    m.map_values(|r: InmemWalletRecord| r@)
}

/// The handle that follows the counter value `c`.
pub open spec fn handle_after(c: usize) -> i32 {
    (c + 1) as i32
}

/// Successive handles are distinct while the counter stays below the
/// largest `i32`: the counter only grows, and each handle is its new value.
pub proof fn lemma_handles_distinct(c1: usize, c2: usize)
    requires
        c1 < c2 < 0x7fff_ffff,
    ensures
        handle_after(c1) != handle_after(c2),
        handle_after(c1) > 0,
{
}

fn copy_bytes(v: &Vec<u8>) -> (r: Vec<u8>)
    ensures
        r@ == v@,
{
    let mut out: Vec<u8> = Vec::new();
    let mut i: usize = 0;
    while i < v.len()
        invariant
            i <= v@.len(),
            out@ == v@.take(i as int),
        decreases v@.len() - i,
    {
        out.push(v[i]);
        proof {
            assert(out@ =~= v@.take(i + 1));
        }
        i = i + 1;
    }
    proof {
        assert(v@.take(v@.len() as int) =~= v@);
    }
    out
}

fn copy_record(r: &InmemWalletRecord) -> (c: InmemWalletRecord)
    ensures
        c@ == r@,
{
    InmemWalletRecord { type_: r.type_.clone(), id: r.id.clone(), value: copy_bytes(&r.value), tags: r.tags.clone() }
}

/// `s` begins with `prefix`.
pub fn starts_with(s: &str, prefix: &str) -> (r: bool)
    ensures
        r == prefix@.is_prefix_of(s@),
{
    let n = s.unicode_len();
    let m = prefix.unicode_len();
    if m > n {
        return false;
    }
    let mut i: usize = 0;
    while i < m
        invariant
            m <= n,
            n == s@.len(),
            m == prefix@.len(),
            i <= m,
            forall|j: int| 0 <= j < i ==> prefix@[j] == s@[j],
        decreases m - i,
    {
        if s.get_char(i) != prefix.get_char(i) {
            return false;
        }
        i = i + 1;
    }
    proof {
        assert(prefix@ =~= s@.subrange(0, m as int));
    }
    true
}

/// The record of a storage as it is handed out: absent parts become empty,
/// the tags are written as JSON.
pub open spec fn converted_record(in_rec: StorageRecord, r: PostgresWalletRecord) -> bool {
    &&& r.rec_id == in_rec.rec_id
    &&& r.id@ == in_rec.id@
    &&& r.type_@ == match in_rec.type_ {
        Some(t) => t@,
        None => Seq::<u8>::empty(),
    }
    &&& r.value@ == match in_rec.value {
        Some(v) => v@,
        None => Seq::<u8>::empty(),
    }
    &&& match in_rec.tags {
        Some(t) => written_tags_json(tags_view(t@), r.tags@),
        None => r.tags@ == Seq::<char>::empty(),
    }
}

/// Converts a record of a storage into the form handed out.
pub fn storagerecord_to_postgresrecord(in_rec: &StorageRecord) -> (r: Result<PostgresWalletRecord, WalletStorageError>)
    ensures
        r matches Ok(out) && converted_record(*in_rec, out),
{
    let out_id = copy_bytes(&in_rec.id);
    let out_type = match &in_rec.type_ {
        Some(val) => copy_bytes(val),
        None => Vec::new(),
    };
    let out_val = match &in_rec.value {
        Some(val) => copy_bytes(val),
        None => Vec::new(),
    };
    let out_tags = match &in_rec.tags {
        Some(val) => match tags_to_json(val) {
            Ok(s) => s,
            Err(_) => String::new(),
        },
        None => String::new(),
    };
    Ok(PostgresWalletRecord { rec_id: in_rec.rec_id, id: out_id, type_: out_type, value: out_val, tags: out_tags })
}

/// The code a storage error is answered with when adding a record.
pub fn add_record_result(res: &Result<(), WalletStorageError>) -> (r: ErrorCode)
    ensures
        r == match res {
            Ok(_) => ErrorCode::Success,
            Err(WalletStorageError::ItemAlreadyExists) => ErrorCode::WalletItemAlreadyExists,
            Err(_) => ErrorCode::WalletStorageError,
        },
{
    match res {
        Ok(_) => ErrorCode::Success,
        Err(WalletStorageError::ItemAlreadyExists) => ErrorCode::WalletItemAlreadyExists,
        Err(_) => ErrorCode::WalletStorageError,
    }
}

/// The code a storage operation (close, delete) is answered with.
pub fn storage_result(res: &Result<(), WalletStorageError>) -> (r: ErrorCode)
    ensures
        r == match res {
            Ok(_) => ErrorCode::Success,
            Err(_) => ErrorCode::WalletStorageError,
        },
{
    match res {
        Ok(_) => ErrorCode::Success,
        Err(_) => ErrorCode::WalletStorageError,
    }
}

impl<S> PostgresWallet<S> {
    /// No tables hold anything and no handle was handed out.
    pub fn new() -> (r: Self)
        ensures
            r.wf(),
            r.handles_issued(),
            r.inmem_wallets@ == Map::<Seq<char>, InmemWalletEntity>::empty(),
            r.inmem_open_wallets@ == Map::<i32, InmemWalletContext>::empty(),
            r.postgres_open_wallets@ == Map::<i32, PostgresStorageContext<S>>::empty(),
            r.active_metadatas@ == Map::<i32, String>::empty(),
            r.active_records@ == Map::<i32, InmemWalletRecord>::empty(),
            r.postgres_active_records@ == Map::<i32, PostgresWalletRecord>::empty(),
            r.active_searches@ == Map::<i32, Vec<InmemWalletRecord>>::empty(),
            r.ids_counter == 1,
    {
        PostgresWallet {
            inmem_wallets: StrMap::new(),
            inmem_open_wallets: HashMap::new(),
            postgres_open_wallets: HashMap::new(),
            active_metadatas: HashMap::new(),
            active_records: HashMap::new(),
            postgres_active_records: HashMap::new(),
            active_searches: HashMap::new(),
            ids_counter: 1,
        }
    }

    /// The key of a record of an in-memory wallet: `type-id`.
    pub fn build_record_id(type_: &str, id: &str) -> (r: String)
        ensures
            r@ == record_key(type_@, id@),
    {
        let mut s = String::from_str(type_);
        s.append("-");
        s.append(id);
        s
    }

    /// Every table is well formed, and so is every wallet's record table.
    pub open spec fn wf(&self) -> bool {
        &&& self.inmem_wallets.wf()
        &&& forall|k: Seq<char>| #[trigger] self.inmem_wallets@.contains_key(k) ==> self.inmem_wallets@[k].records.wf()
    }

    /// Every handle that the counter handed out and that is still live
    /// (open storages, metadata, searches, fetched search records) is at
    /// most the counter, so the next handle is none of them.
    pub open spec fn handles_issued(&self) -> bool {
        &&& forall|k: i32| #[trigger] self.postgres_open_wallets@.contains_key(k) ==> k <= self.ids_counter
        &&& forall|k: i32| #[trigger] self.active_metadatas@.contains_key(k) ==> k <= self.ids_counter
        &&& forall|k: i32| #[trigger] self.active_searches@.contains_key(k) ==> k <= self.ids_counter
        &&& forall|k: i32| #[trigger] self.active_records@.contains_key(k) ==> k <= self.ids_counter
    }

    /// The in-memory wallets as plain values.
    pub open spec fn wallets_view(&self) -> Map<Seq<char>, (Seq<char>, Map<Seq<char>, InmemRecordView>)> {
        self.inmem_wallets@.map_values(|e: InmemWalletEntity| entity_view(e))
    }

    /// The id of the in-memory wallet open under `xhandle`, where the handle
    /// is open and its wallet exists.
    pub open spec fn inmem_wallet_of(&self, xhandle: i32) -> Option<Seq<char>> {
        if self.inmem_open_wallets@.contains_key(xhandle)
            && self.inmem_wallets@.contains_key(self.inmem_open_wallets@[xhandle].id@) {
            Some(self.inmem_open_wallets@[xhandle].id@)
        } else {
            None
        }
    }

    /// The records of the in-memory wallet `wid`, as plain values.
    pub open spec fn records_of(&self, wid: Seq<char>) -> Map<Seq<char>, InmemRecordView> {
        self.wallets_view()[wid].1
    }

    /// Everything but the in-memory wallets is as in `old`.
    pub open spec fn same_but_wallets(&self, old: &Self) -> bool {
        &&& self.inmem_open_wallets == old.inmem_open_wallets
        &&& self.postgres_open_wallets == old.postgres_open_wallets
        &&& self.active_metadatas == old.active_metadatas
        &&& self.active_records == old.active_records
        &&& self.postgres_active_records == old.postgres_active_records
        &&& self.active_searches == old.active_searches
        &&& self.ids_counter == old.ids_counter
    }

    /// Hands out the next handle.
    pub fn get_next_id(&mut self) -> (r: i32)
        requires
            old(self).ids_counter < usize::MAX,
        ensures
            final(self).ids_counter == old(self).ids_counter + 1,
            r == handle_after(old(self).ids_counter),
            final(self).inmem_wallets == old(self).inmem_wallets,
            final(self).inmem_open_wallets == old(self).inmem_open_wallets,
            final(self).postgres_open_wallets == old(self).postgres_open_wallets,
            final(self).active_metadatas == old(self).active_metadatas,
            final(self).active_records == old(self).active_records,
            final(self).postgres_active_records == old(self).postgres_active_records,
            final(self).active_searches == old(self).active_searches,
    {
        self.ids_counter = self.ids_counter + 1;
        self.ids_counter as i32
    }

    fn inmem_wallet_id(&self, xhandle: i32) -> (r: Option<String>)
        requires
            self.wf(),
        ensures
            match r {
                Some(s) => self.inmem_wallet_of(xhandle) == Some(s@),
                None => self.inmem_wallet_of(xhandle) is None,
            },
    {
        match self.inmem_open_wallets.get(&xhandle) {
            Some(ctx) => {
                if self.inmem_wallets.contains_key(ctx.id.as_str()) {
                    Some(ctx.id.clone())
                } else {
                    None
                }
            },
            None => None,
        }
    }

    fn find_record(&self, wid: &String, rk: &String) -> (r: Option<&InmemWalletRecord>)
        requires
            self.wf(),
            self.inmem_wallets@.contains_key(wid@),
        ensures
            match r {
                Some(rec) => self.records_of(wid@).contains_key(rk@) && self.records_of(wid@)[rk@] == rec@,
                None => !self.records_of(wid@).contains_key(rk@),
            },
    {
        let entity = self.inmem_wallets.get(wid.as_str()).unwrap();
        entity.records.get(rk.as_str())
    }

    fn put_record(&mut self, wid: &String, rk: &String, rec: InmemWalletRecord)
        requires
            old(self).wf(),
            old(self).inmem_wallets@.contains_key(wid@),
        ensures
            final(self).wf(),
            final(self).same_but_wallets(old(self)),
            final(self).wallets_view() == old(self).wallets_view().insert(
                wid@,
                (old(self).wallets_view()[wid@].0, old(self).records_of(wid@).insert(rk@, rec@)),
            ),
    {
        let ghost old_view = self.wallets_view();
        let mut entity = self.inmem_wallets.remove(wid.as_str()).unwrap();
        let ghost old_recs = entity.records@;
        entity.records.insert(rk.clone(), rec);
        proof {
            assert(records_view(entity.records@) =~= records_view(old_recs).insert(rk@, rec@));
        }
        let ghost e2 = entity;
        self.inmem_wallets.insert(wid.clone(), entity);
        proof {
            assert(self.wallets_view() =~= old_view.insert(wid@, entity_view(e2)));
        }
    }

    fn drop_record(&mut self, wid: &String, rk: &String)
        requires
            old(self).wf(),
            old(self).inmem_wallets@.contains_key(wid@),
        ensures
            final(self).wf(),
            final(self).same_but_wallets(old(self)),
            final(self).wallets_view() == old(self).wallets_view().insert(
                wid@,
                (old(self).wallets_view()[wid@].0, old(self).records_of(wid@).remove(rk@)),
            ),
    {
        let ghost old_view = self.wallets_view();
        let mut entity = self.inmem_wallets.remove(wid.as_str()).unwrap();
        let ghost old_recs = entity.records@;
        let _ = entity.records.remove(rk.as_str());
        proof {
            assert(records_view(entity.records@) =~= records_view(old_recs).remove(rk@));
        }
        let ghost e2 = entity;
        self.inmem_wallets.insert(wid.clone(), entity);
        proof {
            assert(self.wallets_view() =~= old_view.insert(wid@, entity_view(e2)));
        }
    }

    /// Replaces the value of a record of the in-memory wallet open under
    /// `xhandle`.
    pub fn postgreswallet_fn_update_record_value(&mut self, xhandle: i32, type_: &str, id: &str, joined_value: Vec<u8>) -> (r: ErrorCode)
        requires
            old(self).wf(),
        ensures
            final(self).wf(),
            old(self).handles_issued() ==> final(self).handles_issued(),
            final(self).same_but_wallets(old(self)),
            match old(self).inmem_wallet_of(xhandle) {
                None => r == ErrorCode::CommonInvalidState && final(self).wallets_view() == old(self).wallets_view(),
                Some(wid) => {
                    let recs = old(self).records_of(wid);
                    let rk = record_key(type_@, id@);
                    if !recs.contains_key(rk) {
                        r == ErrorCode::WalletItemNotFound && final(self).wallets_view() == old(self).wallets_view()
                    } else {
                        r == ErrorCode::Success && final(self).wallets_view() == old(self).wallets_view().insert(
                            wid,
                            (old(self).wallets_view()[wid].0, recs.insert(rk, InmemRecordView { value: joined_value@, ..recs[rk] })),
                        )
                    }
                },
            },
    {
        let wid = match self.inmem_wallet_id(xhandle) {
            Some(w) => w,
            None => { return ErrorCode::CommonInvalidState; },
        };
        let rk = Self::build_record_id(type_, id);
        let rec = match self.find_record(&wid, &rk) {
            Some(rec) => copy_record(rec),
            None => { return ErrorCode::WalletItemNotFound; },
        };
        let new_rec = InmemWalletRecord { value: joined_value, ..rec };
        self.put_record(&wid, &rk, new_rec);
        ErrorCode::Success
    }

    /// Adds tags to a record of the in-memory wallet open under `xhandle`:
    /// the record's tags and the new ones (both JSON objects of strings) are
    /// merged, a new tag replacing one of the same name.
    pub fn postgreswallet_fn_add_record_tags(&mut self, xhandle: i32, type_: &str, id: &str, tags_json: &str) -> (r: ErrorCode)
        requires
            old(self).wf(),
        ensures
            final(self).wf(),
            old(self).handles_issued() ==> final(self).handles_issued(),
            final(self).same_but_wallets(old(self)),
            match old(self).inmem_wallet_of(xhandle) {
                None => r == ErrorCode::CommonInvalidState && final(self).wallets_view() == old(self).wallets_view(),
                Some(wid) => {
                    let recs = old(self).records_of(wid);
                    let rk = record_key(type_@, id@);
                    if !recs.contains_key(rk) {
                        r == ErrorCode::WalletItemNotFound && final(self).wallets_view() == old(self).wallets_view()
                    } else {
                        match (json_string_entries(tags_json@), json_string_entries(recs[rk].tags)) {
                            (Some(new_e), Some(cur_e)) => r == ErrorCode::Success && exists|e: Seq<(String, String)>| {
                                &&& crate::strmap::keys_distinct(e)
                                &&& text_map(crate::strmap::entries_map(e)) == pairs_map(cur_e).union_prefer_right(pairs_map(new_e))
                                &&& final(self).wallets_view() == old(self).wallets_view().insert(
                                    wid,
                                    (old(self).wallets_view()[wid].0, recs.insert(rk, InmemRecordView { tags: json_object_written(pairs_view(e)), ..recs[rk] })),
                                )
                            },
                            _ => r == ErrorCode::CommonInvalidStructure && final(self).wallets_view() == old(self).wallets_view(),
                        }
                    }
                },
            },
    {
        let wid = match self.inmem_wallet_id(xhandle) {
            Some(w) => w,
            None => { return ErrorCode::CommonInvalidState; },
        };
        let rk = Self::build_record_id(type_, id);
        let rec = match self.find_record(&wid, &rk) {
            Some(rec) => copy_record(rec),
            None => { return ErrorCode::WalletItemNotFound; },
        };
        let new_tags = parse_json_string_map(tags_json);
        let curr_tags = parse_json_string_map(rec.tags.as_str());
        let (new_tags, curr_tags) = match (new_tags, curr_tags) {
            (Ok(n), Ok(c)) => (n, c),
            _ => { return ErrorCode::CommonInvalidStructure; },
        };
        let mut merged: StrMap<String> = StrMap::new();
        insert_pairs(&mut merged, &curr_tags);
        proof {
            assert(text_map(Map::<Seq<char>, String>::empty()) =~= Map::<Seq<char>, Seq<char>>::empty());
            assert(Map::<Seq<char>, Seq<char>>::empty().union_prefer_right(pairs_map(pairs_view(curr_tags@))) =~= pairs_map(pairs_view(curr_tags@)));
        }
        insert_pairs(&mut merged, &new_tags);
        let new_tags_json = write_json_object(&merged.entries);
        let new_rec = InmemWalletRecord { tags: new_tags_json, ..rec };
        self.put_record(&wid, &rk, new_rec);
        ErrorCode::Success
    }

    /// Replaces the tags of a record of the in-memory wallet open under
    /// `xhandle`.
    pub fn postgreswallet_fn_update_record_tags(&mut self, xhandle: i32, type_: &str, id: &str, tags_json: &str) -> (r: ErrorCode)
        requires
            old(self).wf(),
        ensures
            final(self).wf(),
            old(self).handles_issued() ==> final(self).handles_issued(),
            final(self).same_but_wallets(old(self)),
            match old(self).inmem_wallet_of(xhandle) {
                None => r == ErrorCode::CommonInvalidState && final(self).wallets_view() == old(self).wallets_view(),
                Some(wid) => {
                    let recs = old(self).records_of(wid);
                    let rk = record_key(type_@, id@);
                    if !recs.contains_key(rk) {
                        r == ErrorCode::WalletItemNotFound && final(self).wallets_view() == old(self).wallets_view()
                    } else {
                        r == ErrorCode::Success && final(self).wallets_view() == old(self).wallets_view().insert(
                            wid,
                            (old(self).wallets_view()[wid].0, recs.insert(rk, InmemRecordView { tags: tags_json@, ..recs[rk] })),
                        )
                    }
                },
            },
    {
        let wid = match self.inmem_wallet_id(xhandle) {
            Some(w) => w,
            None => { return ErrorCode::CommonInvalidState; },
        };
        let rk = Self::build_record_id(type_, id);
        let rec = match self.find_record(&wid, &rk) {
            Some(rec) => copy_record(rec),
            None => { return ErrorCode::WalletItemNotFound; },
        };
        let new_rec = InmemWalletRecord { tags: String::from_str(tags_json), ..rec };
        self.put_record(&wid, &rk, new_rec);
        ErrorCode::Success
    }

    /// Removes tags, by name, from a record of the in-memory wallet open
    /// under `xhandle`: the record's tags are a JSON object of strings, the
    /// names a JSON array of strings.
    pub fn postgreswallet_fn_delete_record_tags(&mut self, xhandle: i32, type_: &str, id: &str, tag_names: &str) -> (r: ErrorCode)
        requires
            old(self).wf(),
        ensures
            final(self).wf(),
            old(self).handles_issued() ==> final(self).handles_issued(),
            final(self).same_but_wallets(old(self)),
            match old(self).inmem_wallet_of(xhandle) {
                None => r == ErrorCode::CommonInvalidState && final(self).wallets_view() == old(self).wallets_view(),
                Some(wid) => {
                    let recs = old(self).records_of(wid);
                    let rk = record_key(type_@, id@);
                    if !recs.contains_key(rk) {
                        r == ErrorCode::WalletItemNotFound && final(self).wallets_view() == old(self).wallets_view()
                    } else {
                        match (json_string_entries(recs[rk].tags), json_string_array(tag_names@)) {
                            (Some(cur_e), Some(names)) => r == ErrorCode::Success && exists|e: Seq<(String, String)>| {
                                &&& crate::strmap::keys_distinct(e)
                                &&& text_map(crate::strmap::entries_map(e)) == pairs_map(cur_e).remove_keys(names.to_set())
                                &&& final(self).wallets_view() == old(self).wallets_view().insert(
                                    wid,
                                    (old(self).wallets_view()[wid].0, recs.insert(rk, InmemRecordView { tags: json_object_written(pairs_view(e)), ..recs[rk] })),
                                )
                            },
                            _ => r == ErrorCode::CommonInvalidStructure && final(self).wallets_view() == old(self).wallets_view(),
                        }
                    }
                },
            },
    {
        let wid = match self.inmem_wallet_id(xhandle) {
            Some(w) => w,
            None => { return ErrorCode::CommonInvalidState; },
        };
        let rk = Self::build_record_id(type_, id);
        let rec = match self.find_record(&wid, &rk) {
            Some(rec) => copy_record(rec),
            None => { return ErrorCode::WalletItemNotFound; },
        };
        let curr_tags = parse_json_string_map(rec.tags.as_str());
        let to_delete = parse_json_string_list(tag_names);
        let (curr_tags, to_delete) = match (curr_tags, to_delete) {
            (Ok(c), Some(d)) => (c, d),
            _ => { return ErrorCode::CommonInvalidStructure; },
        };
        let mut tags: StrMap<String> = StrMap::new();
        insert_pairs(&mut tags, &curr_tags);
        proof {
            assert(text_map(Map::<Seq<char>, String>::empty()) =~= Map::<Seq<char>, Seq<char>>::empty());
            assert(Map::<Seq<char>, Seq<char>>::empty().union_prefer_right(pairs_map(pairs_view(curr_tags@))) =~= pairs_map(pairs_view(curr_tags@)));
        }
        remove_names(&mut tags, &to_delete);
        let new_tags_json = write_json_object(&tags.entries);
        let new_rec = InmemWalletRecord { tags: new_tags_json, ..rec };
        self.put_record(&wid, &rk, new_rec);
        ErrorCode::Success
    }

    /// Removes a record of the in-memory wallet open under `xhandle`.
    pub fn postgreswallet_fn_delete_record(&mut self, xhandle: i32, type_: &str, id: &str) -> (r: ErrorCode)
        requires
            old(self).wf(),
        ensures
            final(self).wf(),
            old(self).handles_issued() ==> final(self).handles_issued(),
            final(self).same_but_wallets(old(self)),
            match old(self).inmem_wallet_of(xhandle) {
                None => r == ErrorCode::CommonInvalidState && final(self).wallets_view() == old(self).wallets_view(),
                Some(wid) => {
                    let recs = old(self).records_of(wid);
                    let rk = record_key(type_@, id@);
                    if !recs.contains_key(rk) {
                        r == ErrorCode::WalletItemNotFound && final(self).wallets_view() == old(self).wallets_view()
                    } else {
                        r == ErrorCode::Success && final(self).wallets_view() == old(self).wallets_view().insert(
                            wid,
                            (old(self).wallets_view()[wid].0, recs.remove(rk)),
                        )
                    }
                },
            },
    {
        let wid = match self.inmem_wallet_id(xhandle) {
            Some(w) => w,
            None => { return ErrorCode::CommonInvalidState; },
        };
        let rk = Self::build_record_id(type_, id);
        match self.find_record(&wid, &rk) {
            Some(_) => {},
            None => { return ErrorCode::WalletItemNotFound; },
        }
        self.drop_record(&wid, &rk);
        ErrorCode::Success
    }

    /// Everything but the metadata handles and the counter is as in `old`.
    pub open spec fn same_but_metadatas(&self, old: &Self) -> bool {
        &&& self.inmem_wallets == old.inmem_wallets
        &&& self.inmem_open_wallets == old.inmem_open_wallets
        &&& self.postgres_open_wallets == old.postgres_open_wallets
        &&& self.active_records == old.active_records
        &&& self.postgres_active_records == old.postgres_active_records
        &&& self.active_searches == old.active_searches
    }

    /// Hands out the metadata of the in-memory wallet open under `xhandle`
    /// under a new metadata handle.
    pub fn postgreswallet_fn_get_storage_metadata(&mut self, xhandle: i32) -> (r: Result<i32, ErrorCode>)
        requires
            old(self).wf(),
            old(self).ids_counter < usize::MAX,
        ensures
            final(self).wf(),
            old(self).handles_issued() && old(self).ids_counter < 0x7fff_ffff ==> final(self).handles_issued(),
            final(self).same_but_metadatas(old(self)),
            match old(self).inmem_wallet_of(xhandle) {
                None => r == Err::<i32, ErrorCode>(ErrorCode::CommonInvalidState)
                    && final(self).active_metadatas == old(self).active_metadatas
                    && final(self).ids_counter == old(self).ids_counter,
                Some(wid) => r == Ok::<i32, ErrorCode>(handle_after(old(self).ids_counter))
                    && final(self).ids_counter == old(self).ids_counter + 1
                    && text_map_i(final(self).active_metadatas@) == text_map_i(old(self).active_metadatas@).insert(
                        handle_after(old(self).ids_counter),
                        old(self).wallets_view()[wid].0,
                    ),
            },
    {
        let wid = match self.inmem_wallet_id(xhandle) {
            Some(w) => w,
            None => { return Err(ErrorCode::CommonInvalidState); },
        };
        let metadata = self.inmem_wallets.get(wid.as_str()).unwrap().metadata.clone();
        let handle = self.get_next_id();
        let ghost before = self.active_metadatas@;
        self.active_metadatas.insert(handle, metadata);
        proof {
            assert(text_map_i(self.active_metadatas@) =~= text_map_i(before).insert(handle, metadata@));
        }
        Ok(handle)
    }

    /// Sets the metadata of the in-memory wallet open under `xhandle`.
    pub fn postgreswallet_fn_set_storage_metadata(&mut self, xhandle: i32, metadata: &str) -> (r: ErrorCode)
        requires
            old(self).wf(),
        ensures
            final(self).wf(),
            old(self).handles_issued() ==> final(self).handles_issued(),
            final(self).same_but_wallets(old(self)),
            match old(self).inmem_wallet_of(xhandle) {
                None => r == ErrorCode::CommonInvalidState && final(self).wallets_view() == old(self).wallets_view(),
                Some(wid) => r == ErrorCode::Success && final(self).wallets_view() == old(self).wallets_view().insert(
                    wid,
                    (metadata@, old(self).records_of(wid)),
                ),
            },
    {
        let wid = match self.inmem_wallet_id(xhandle) {
            Some(w) => w,
            None => { return ErrorCode::CommonInvalidState; },
        };
        let ghost old_view = self.wallets_view();
        let mut entity = self.inmem_wallets.remove(wid.as_str()).unwrap();
        entity.metadata = String::from_str(metadata);
        let ghost e2 = entity;
        self.inmem_wallets.insert(wid.clone(), entity);
        proof {
            assert(self.wallets_view() =~= old_view.insert(wid@, entity_view(e2)));
        }
        ErrorCode::Success
    }

    /// Gives up a metadata handle.
    pub fn postgreswallet_fn_free_storage_metadata(&mut self, xhandle: i32, metadata_handler: i32) -> (r: ErrorCode)
        requires
            old(self).wf(),
        ensures
            final(self).wf(),
            old(self).handles_issued() ==> final(self).handles_issued(),
            final(self).same_but_metadatas(old(self)),
            final(self).ids_counter == old(self).ids_counter,
            if old(self).inmem_open_wallets@.contains_key(xhandle) && old(self).active_metadatas@.contains_key(metadata_handler) {
                r == ErrorCode::Success && final(self).active_metadatas@ == old(self).active_metadatas@.remove(metadata_handler)
            } else {
                r == ErrorCode::CommonInvalidState && final(self).active_metadatas == old(self).active_metadatas
            },
    {
        if !self.inmem_open_wallets.contains_key(&xhandle) {
            return ErrorCode::CommonInvalidState;
        }
        if !self.active_metadatas.contains_key(&metadata_handler) {
            return ErrorCode::CommonInvalidState;
        }
        let _ = self.active_metadatas.remove(&metadata_handler);
        ErrorCode::Success
    }

    /// Everything but the searches, the fetched in-memory records and the
    /// counter is as in `old`.
    pub open spec fn same_but_searches(&self, old: &Self) -> bool {
        &&& self.inmem_wallets == old.inmem_wallets
        &&& self.inmem_open_wallets == old.inmem_open_wallets
        &&& self.postgres_open_wallets == old.postgres_open_wallets
        &&& self.active_metadatas == old.active_metadatas
        &&& self.postgres_active_records == old.postgres_active_records
    }

    /// Starts a search over the records of the in-memory wallet open under
    /// `xhandle` whose keys start with `type_`.
    pub fn postgreswallet_fn_search_records(&mut self, xhandle: i32, type_: &str) -> (r: Result<i32, ErrorCode>)
        requires
            old(self).wf(),
            old(self).ids_counter < usize::MAX,
        ensures
            final(self).wf(),
            old(self).handles_issued() && old(self).ids_counter < 0x7fff_ffff ==> final(self).handles_issued(),
            final(self).same_but_searches(old(self)),
            final(self).active_records == old(self).active_records,
            match old(self).inmem_wallet_of(xhandle) {
                None => r == Err::<i32, ErrorCode>(ErrorCode::CommonInvalidState)
                    && final(self).active_searches == old(self).active_searches
                    && final(self).ids_counter == old(self).ids_counter,
                Some(wid) => r == Ok::<i32, ErrorCode>(handle_after(old(self).ids_counter))
                    && final(self).ids_counter == old(self).ids_counter + 1
                    && searches_view(final(self).active_searches@) == searches_view(old(self).active_searches@).insert(
                        handle_after(old(self).ids_counter),
                        matching_records(old(self).inmem_wallets@[wid].records.entries@, type_@),
                    ),
            },
    {
        let wid = match self.inmem_wallet_id(xhandle) {
            Some(w) => w,
            None => { return Err(ErrorCode::CommonInvalidState); },
        };
        let entity = self.inmem_wallets.get(wid.as_str()).unwrap();
        let ghost e = entity.records.entries@;
        let mut search: Vec<InmemWalletRecord> = Vec::new();
        let mut i: usize = 0;
        while i < entity.records.entries.len()
            invariant
                i <= e.len(),
                e == entity.records.entries@,
                record_list_view(search@) == matching_records(e.take(i as int), type_@),
            decreases e.len() - i,
        {
            proof {
                assert(e.take(i + 1).drop_last() =~= e.take(i as int));
            }
            if starts_with(entity.records.entries[i].0.as_str(), type_) {
                let ghost before = search@;
                search.push(copy_record(&entity.records.entries[i].1));
                proof {
                    assert(record_list_view(search@) =~= record_list_view(before).push(e[i as int].1@));
                }
            }
            i = i + 1;
        }
        proof {
            assert(e.take(e.len() as int) =~= e);
        }
        let handle = self.get_next_id();
        let ghost before = self.active_searches@;
        let ghost sv = record_list_view(search@);
        self.active_searches.insert(handle, search);
        proof {
            assert(searches_view(self.active_searches@) =~= searches_view(before).insert(handle, sv));
        }
        Ok(handle)
    }

    /// Starts a search over all records of the in-memory wallet open under
    /// `xhandle`.
    pub fn postgreswallet_fn_search_all_records(&mut self, xhandle: i32) -> (r: Result<i32, ErrorCode>)
        requires
            old(self).wf(),
            old(self).ids_counter < usize::MAX,
        ensures
            final(self).wf(),
            old(self).handles_issued() && old(self).ids_counter < 0x7fff_ffff ==> final(self).handles_issued(),
            final(self).same_but_searches(old(self)),
            final(self).active_records == old(self).active_records,
            match old(self).inmem_wallet_of(xhandle) {
                None => r == Err::<i32, ErrorCode>(ErrorCode::CommonInvalidState)
                    && final(self).active_searches == old(self).active_searches
                    && final(self).ids_counter == old(self).ids_counter,
                Some(wid) => r == Ok::<i32, ErrorCode>(handle_after(old(self).ids_counter))
                    && final(self).ids_counter == old(self).ids_counter + 1
                    && searches_view(final(self).active_searches@) == searches_view(old(self).active_searches@).insert(
                        handle_after(old(self).ids_counter),
                        all_records(old(self).inmem_wallets@[wid].records.entries@),
                    ),
            },
    {
        let wid = match self.inmem_wallet_id(xhandle) {
            Some(w) => w,
            None => { return Err(ErrorCode::CommonInvalidState); },
        };
        let entity = self.inmem_wallets.get(wid.as_str()).unwrap();
        let ghost e = entity.records.entries@;
        let mut search: Vec<InmemWalletRecord> = Vec::new();
        let mut i: usize = 0;
        while i < entity.records.entries.len()
            invariant
                i <= e.len(),
                e == entity.records.entries@,
                record_list_view(search@) == all_records(e.take(i as int)),
            decreases e.len() - i,
        {
            let ghost before = search@;
            search.push(copy_record(&entity.records.entries[i].1));
            proof {
                assert(record_list_view(search@) =~= record_list_view(before).push(e[i as int].1@));
                assert(all_records(e.take(i + 1)) =~= all_records(e.take(i as int)).push(e[i as int].1@));
            }
            i = i + 1;
        }
        proof {
            assert(e.take(e.len() as int) =~= e);
        }
        let handle = self.get_next_id();
        let ghost before = self.active_searches@;
        let ghost sv = record_list_view(search@);
        self.active_searches.insert(handle, search);
        proof {
            assert(searches_view(self.active_searches@) =~= searches_view(before).insert(handle, sv));
        }
        Ok(handle)
    }

    /// The number of records a search still holds.
    pub fn postgreswallet_fn_get_search_total_count(&self, xhandle: i32, search_handle: i32) -> (r: Result<usize, ErrorCode>)
        requires
            self.wf(),
        ensures
            if self.inmem_open_wallets@.contains_key(xhandle) && self.active_searches@.contains_key(search_handle) {
                r == Ok::<usize, ErrorCode>(self.active_searches@[search_handle]@.len() as usize)
            } else {
                r == Err::<usize, ErrorCode>(ErrorCode::CommonInvalidState)
            },
    {
        if !self.inmem_open_wallets.contains_key(&xhandle) {
            return Err(ErrorCode::CommonInvalidState);
        }
        match self.active_searches.get(&search_handle) {
            Some(records) => Ok(records.len()),
            None => Err(ErrorCode::CommonInvalidState),
        }
    }

    /// Takes the last record of a search and hands it out under a new
    /// record handle.
    pub fn postgreswallet_fn_fetch_search_next_record(&mut self, xhandle: i32, search_handle: i32) -> (r: Result<i32, ErrorCode>)
        requires
            old(self).wf(),
            old(self).ids_counter < usize::MAX,
        ensures
            final(self).wf(),
            old(self).handles_issued() && old(self).ids_counter < 0x7fff_ffff ==> final(self).handles_issued(),
            final(self).same_but_searches(old(self)),
            if !old(self).inmem_open_wallets@.contains_key(xhandle) || !old(self).active_searches@.contains_key(search_handle) {
                r == Err::<i32, ErrorCode>(ErrorCode::CommonInvalidState) && *final(self) == *old(self)
            } else {
                let s = record_list_view(old(self).active_searches@[search_handle]@);
                if s.len() == 0 {
                    r == Err::<i32, ErrorCode>(ErrorCode::WalletItemNotFound)
                        && final(self).active_records == old(self).active_records
                        && final(self).ids_counter == old(self).ids_counter
                        && searches_view(final(self).active_searches@) == searches_view(old(self).active_searches@)
                } else {
                    r == Ok::<i32, ErrorCode>(handle_after(old(self).ids_counter))
                        && final(self).ids_counter == old(self).ids_counter + 1
                        && searches_view(final(self).active_searches@) == searches_view(old(self).active_searches@).insert(search_handle, s.drop_last())
                        && records_view_i(final(self).active_records@) == records_view_i(old(self).active_records@).insert(
                            handle_after(old(self).ids_counter),
                            s.last(),
                        )
                }
            },
    {
        if !self.inmem_open_wallets.contains_key(&xhandle) {
            return Err(ErrorCode::CommonInvalidState);
        }
        if !self.active_searches.contains_key(&search_handle) {
            return Err(ErrorCode::CommonInvalidState);
        }
        let ghost old_searches = self.active_searches@;
        let mut records = self.active_searches.remove(&search_handle).unwrap();
        let ghost before_pop = records@;
        match records.pop() {
            Some(record) => {
                let ghost rest = records@;
                self.active_searches.insert(search_handle, records);
                proof {
                    assert(record_list_view(rest) =~= record_list_view(before_pop).drop_last());
                    assert(searches_view(self.active_searches@) =~= searches_view(old_searches).insert(search_handle, record_list_view(rest)));
                }
                let handle = self.get_next_id();
                let ghost before = self.active_records@;
                let ghost rv = record@;
                self.active_records.insert(handle, record);
                proof {
                    assert(records_view_i(self.active_records@) =~= records_view_i(before).insert(handle, rv));
                }
                Ok(handle)
            },
            None => {
                self.active_searches.insert(search_handle, records);
                proof {
                    assert(searches_view(self.active_searches@) =~= searches_view(old_searches));
                }
                Err(ErrorCode::WalletItemNotFound)
            },
        }
    }

    /// Gives up a search.
    pub fn postgreswallet_fn_free_search(&mut self, xhandle: i32, search_handle: i32) -> (r: ErrorCode)
        requires
            old(self).wf(),
        ensures
            final(self).wf(),
            old(self).handles_issued() ==> final(self).handles_issued(),
            final(self).same_but_searches(old(self)),
            final(self).active_records == old(self).active_records,
            final(self).ids_counter == old(self).ids_counter,
            if old(self).inmem_open_wallets@.contains_key(xhandle) && old(self).active_searches@.contains_key(search_handle) {
                r == ErrorCode::Success && final(self).active_searches@ == old(self).active_searches@.remove(search_handle)
            } else {
                r == ErrorCode::CommonInvalidState && final(self).active_searches == old(self).active_searches
            },
    {
        if !self.inmem_open_wallets.contains_key(&xhandle) {
            return ErrorCode::CommonInvalidState;
        }
        if !self.active_searches.contains_key(&search_handle) {
            return ErrorCode::CommonInvalidState;
        }
        let _ = self.active_searches.remove(&search_handle);
        ErrorCode::Success
    }

    /// Forgets all in-memory wallets and their open handles.
    pub fn cleanup(&mut self)
        requires
            old(self).wf(),
        ensures
            final(self).wf(),
            old(self).handles_issued() ==> final(self).handles_issued(),
            final(self).inmem_wallets@ == Map::<Seq<char>, InmemWalletEntity>::empty(),
            final(self).inmem_open_wallets@ == Map::<i32, InmemWalletContext>::empty(),
            final(self).postgres_open_wallets == old(self).postgres_open_wallets,
            final(self).active_metadatas == old(self).active_metadatas,
            final(self).active_records == old(self).active_records,
            final(self).postgres_active_records == old(self).postgres_active_records,
            final(self).active_searches == old(self).active_searches,
            final(self).ids_counter == old(self).ids_counter,
    {
        self.inmem_wallets.clear();
        self.inmem_open_wallets.clear();
    }

    /// Some open storage wallet has the id `id`.
    pub open spec fn storage_open_with_id(&self, id: Seq<char>) -> bool {
        exists|h: i32| #[trigger] self.postgres_open_wallets@.contains_key(h) && self.postgres_open_wallets@[h].id@ == id
    }

    /// `open`, before the storage is opened: refused where a storage wallet
    /// with this id is open already.
    pub fn postgreswallet_fn_open_check(&self, id: &str) -> (r: Result<(), ErrorCode>)
        requires
            self.wf(),
        ensures
            self.storage_open_with_id(id@) ==> r == Err::<(), ErrorCode>(ErrorCode::WalletAlreadyOpenedError),
            !self.storage_open_with_id(id@) ==> r is Ok,
    {
        let wanted = String::from_str(id);
        let ghost m = self.postgres_open_wallets@;
        for (h, ctx) in it: self.postgres_open_wallets.iter()
            invariant
                wanted@ == id@,
                m == self.postgres_open_wallets@,
                it.seq() == spec_hash_map_iter(&self.postgres_open_wallets).remaining(),
                forall|j: int| 0 <= j < it.index() ==> (*(#[trigger] it.seq()[j]).1).id@ != id@,
        {
            if ctx.id == wanted {
                proof {
                    assert(m.contains_key(*h) && m[*h] == *ctx);
                }
                return Err(ErrorCode::WalletAlreadyOpenedError);
            }
        }
        proof {
            if self.storage_open_with_id(id@) {
                let h = choose|h: i32| #[trigger] m.contains_key(h) && m[h].id@ == id@;
                let v = spec_hash_map_iter(&self.postgres_open_wallets).remaining();
                assert(v.contains((&h, &m[h])));
                let j = choose|j: int| 0 <= j < v.len() && v[j] == (&h, &m[h]);
                assert((*v[j].1).id@ != id@);
            }
        }
        Ok(())
    }

    /// `open`, once the storage was opened (or failed to): registers the
    /// open storage under a new handle.
    pub fn postgreswallet_fn_open_finish(&mut self, id: &str, config: &str, credentials: &str, storage: Result<S, WalletStorageError>) -> (r: Result<i32, ErrorCode>)
        requires
            old(self).wf(),
            old(self).ids_counter < usize::MAX,
        ensures
            final(self).wf(),
            old(self).handles_issued() && old(self).ids_counter < 0x7fff_ffff ==> final(self).handles_issued(),
            final(self).inmem_wallets == old(self).inmem_wallets,
            final(self).inmem_open_wallets == old(self).inmem_open_wallets,
            final(self).active_metadatas == old(self).active_metadatas,
            final(self).active_records == old(self).active_records,
            final(self).postgres_active_records == old(self).postgres_active_records,
            final(self).active_searches == old(self).active_searches,
            match storage {
                Err(_) => r == Err::<i32, ErrorCode>(ErrorCode::WalletNotFoundError)
                    && final(self).postgres_open_wallets == old(self).postgres_open_wallets
                    && final(self).ids_counter == old(self).ids_counter,
                Ok(p) => {
                    let h = handle_after(old(self).ids_counter);
                    &&& r == Ok::<i32, ErrorCode>(h)
                    &&& final(self).ids_counter == old(self).ids_counter + 1
                    &&& final(self).postgres_open_wallets@.dom() == old(self).postgres_open_wallets@.dom().insert(h)
                    &&& forall|k: i32| k != h && #[trigger] old(self).postgres_open_wallets@.contains_key(k)
                        ==> final(self).postgres_open_wallets@[k] == old(self).postgres_open_wallets@[k]
                    &&& final(self).postgres_open_wallets@[h].xhandle == h
                    &&& final(self).postgres_open_wallets@[h].id@ == id@
                    &&& final(self).postgres_open_wallets@[h].config@ == config@
                    &&& final(self).postgres_open_wallets@[h].credentials@ == credentials@
                    &&& final(self).postgres_open_wallets@[h].phandle == p
                },
            },
    {
        let phandle = match storage {
            Ok(p) => p,
            Err(_) => { return Err(ErrorCode::WalletNotFoundError); },
        };
        let xhandle = self.get_next_id();
        let context = PostgresStorageContext {
            xhandle,
            id: String::from_str(id),
            config: String::from_str(config),
            credentials: String::from_str(credentials),
            phandle,
        };
        self.postgres_open_wallets.insert(xhandle, context);
        Ok(xhandle)
    }

    /// The storage open under `xhandle`.
    pub fn storage_for(&self, xhandle: i32) -> (r: Result<&S, ErrorCode>)
        requires
            self.wf(),
        ensures
            match r {
                Ok(s) => self.postgres_open_wallets@.contains_key(xhandle) && *s == self.postgres_open_wallets@[xhandle].phandle,
                Err(e) => !self.postgres_open_wallets@.contains_key(xhandle) && e == ErrorCode::CommonInvalidState,
            },
    {
        match self.postgres_open_wallets.get(&xhandle) {
            Some(ctx) => Ok(&ctx.phandle),
            None => Err(ErrorCode::CommonInvalidState),
        }
    }

    /// `get_record`, once the storage answered: the record is kept under its
    /// own record id, which is handed out as its handle.
    pub fn postgreswallet_fn_get_record_finish(&mut self, res: Result<StorageRecord, WalletStorageError>) -> (r: Result<i32, ErrorCode>)
        requires
            old(self).wf(),
        ensures
            final(self).wf(),
            old(self).handles_issued() ==> final(self).handles_issued(),
            final(self).inmem_wallets == old(self).inmem_wallets,
            final(self).inmem_open_wallets == old(self).inmem_open_wallets,
            final(self).postgres_open_wallets == old(self).postgres_open_wallets,
            final(self).active_metadatas == old(self).active_metadatas,
            final(self).active_records == old(self).active_records,
            final(self).active_searches == old(self).active_searches,
            final(self).ids_counter == old(self).ids_counter,
            match res {
                Err(_) => r == Err::<i32, ErrorCode>(ErrorCode::WalletStorageError)
                    && final(self).postgres_active_records == old(self).postgres_active_records,
                Ok(rec) => r == Ok::<i32, ErrorCode>(rec.rec_id)
                    && final(self).postgres_active_records@.dom() == old(self).postgres_active_records@.dom().insert(rec.rec_id)
                    && (forall|k: i32| k != rec.rec_id && #[trigger] old(self).postgres_active_records@.contains_key(k)
                        ==> final(self).postgres_active_records@[k] == old(self).postgres_active_records@[k])
                    && converted_record(rec, final(self).postgres_active_records@[rec.rec_id]),
            },
    {
        match res {
            Ok(record) => {
                let record_handle = record.rec_id;
                let p_rec = match storagerecord_to_postgresrecord(&record) {
                    Ok(p) => p,
                    Err(_) => { return Err(ErrorCode::WalletStorageError); },
                };
                self.postgres_active_records.insert(record_handle, p_rec);
                Ok(record_handle)
            },
            Err(_) => Err(ErrorCode::WalletStorageError),
        }
    }

    /// The fetched record under `record_handle`, where the storage wallet
    /// `xhandle` is open.
    pub open spec fn fetched(&self, xhandle: i32, record_handle: i32) -> Option<PostgresWalletRecord> {
        if self.postgres_open_wallets@.contains_key(xhandle) && self.postgres_active_records@.contains_key(record_handle) {
            Some(self.postgres_active_records@[record_handle])
        } else {
            None
        }
    }

    fn fetched_record(&self, xhandle: i32, record_handle: i32) -> (r: Result<&PostgresWalletRecord, ErrorCode>)
        requires
            self.wf(),
        ensures
            match self.fetched(xhandle, record_handle) {
                Some(rec) => r == Ok::<&PostgresWalletRecord, ErrorCode>(&rec),
                None => r == Err::<&PostgresWalletRecord, ErrorCode>(ErrorCode::CommonInvalidState),
            },
    {
        if !self.postgres_open_wallets.contains_key(&xhandle) {
            return Err(ErrorCode::CommonInvalidState);
        }
        match self.postgres_active_records.get(&record_handle) {
            Some(rec) => Ok(rec),
            None => Err(ErrorCode::CommonInvalidState),
        }
    }

    /// The id of a fetched record.
    pub fn postgreswallet_fn_get_record_id(&self, xhandle: i32, record_handle: i32) -> (r: Result<&Vec<u8>, ErrorCode>)
        requires
            self.wf(),
        ensures
            match self.fetched(xhandle, record_handle) {
                Some(rec) => r matches Ok(v) && *v == rec.id,
                None => r == Err::<&Vec<u8>, ErrorCode>(ErrorCode::CommonInvalidState),
            },
    {
        match self.fetched_record(xhandle, record_handle) {
            Ok(rec) => Ok(&rec.id),
            Err(e) => Err(e),
        }
    }

    /// The type of a fetched record.
    pub fn postgreswallet_fn_get_record_type(&self, xhandle: i32, record_handle: i32) -> (r: Result<&Vec<u8>, ErrorCode>)
        requires
            self.wf(),
        ensures
            match self.fetched(xhandle, record_handle) {
                Some(rec) => r matches Ok(v) && *v == rec.type_,
                None => r == Err::<&Vec<u8>, ErrorCode>(ErrorCode::CommonInvalidState),
            },
    {
        match self.fetched_record(xhandle, record_handle) {
            Ok(rec) => Ok(&rec.type_),
            Err(e) => Err(e),
        }
    }

    /// The (joined) value of a fetched record.
    pub fn postgreswallet_fn_get_record_value(&self, xhandle: i32, record_handle: i32) -> (r: Result<&Vec<u8>, ErrorCode>)
        requires
            self.wf(),
        ensures
            match self.fetched(xhandle, record_handle) {
                Some(rec) => r matches Ok(v) && *v == rec.value,
                None => r == Err::<&Vec<u8>, ErrorCode>(ErrorCode::CommonInvalidState),
            },
    {
        match self.fetched_record(xhandle, record_handle) {
            Ok(rec) => Ok(&rec.value),
            Err(e) => Err(e),
        }
    }

    /// The tags (as JSON) of a fetched record.
    pub fn postgreswallet_fn_get_record_tags(&self, xhandle: i32, record_handle: i32) -> (r: Result<&String, ErrorCode>)
        requires
            self.wf(),
        ensures
            match self.fetched(xhandle, record_handle) {
                Some(rec) => r matches Ok(v) && *v == rec.tags,
                None => r == Err::<&String, ErrorCode>(ErrorCode::CommonInvalidState),
            },
    {
        match self.fetched_record(xhandle, record_handle) {
            Ok(rec) => Ok(&rec.tags),
            Err(e) => Err(e),
        }
    }

    /// Gives up a fetched record.
    pub fn postgreswallet_fn_free_record(&mut self, xhandle: i32, record_handle: i32) -> (r: ErrorCode)
        requires
            old(self).wf(),
        ensures
            final(self).wf(),
            old(self).handles_issued() ==> final(self).handles_issued(),
            final(self).inmem_wallets == old(self).inmem_wallets,
            final(self).inmem_open_wallets == old(self).inmem_open_wallets,
            final(self).postgres_open_wallets == old(self).postgres_open_wallets,
            final(self).active_metadatas == old(self).active_metadatas,
            final(self).active_records == old(self).active_records,
            final(self).active_searches == old(self).active_searches,
            final(self).ids_counter == old(self).ids_counter,
            match old(self).fetched(xhandle, record_handle) {
                Some(_) => r == ErrorCode::Success
                    && final(self).postgres_active_records@ == old(self).postgres_active_records@.remove(record_handle),
                None => r == ErrorCode::CommonInvalidState
                    && final(self).postgres_active_records == old(self).postgres_active_records,
            },
    {
        if !self.postgres_open_wallets.contains_key(&xhandle) {
            return ErrorCode::CommonInvalidState;
        }
        if !self.postgres_active_records.contains_key(&record_handle) {
            return ErrorCode::CommonInvalidState;
        }
        let _ = self.postgres_active_records.remove(&record_handle);
        ErrorCode::Success
    }

    /// `close`: takes the storage open under `xhandle` out of the table, for
    /// the caller to close.
    pub fn postgreswallet_fn_close_take(&mut self, xhandle: i32) -> (r: Result<S, ErrorCode>)
        requires
            old(self).wf(),
        ensures
            final(self).wf(),
            old(self).handles_issued() ==> final(self).handles_issued(),
            final(self).inmem_wallets == old(self).inmem_wallets,
            final(self).inmem_open_wallets == old(self).inmem_open_wallets,
            final(self).active_metadatas == old(self).active_metadatas,
            final(self).active_records == old(self).active_records,
            final(self).postgres_active_records == old(self).postgres_active_records,
            final(self).active_searches == old(self).active_searches,
            final(self).ids_counter == old(self).ids_counter,
            if old(self).postgres_open_wallets@.contains_key(xhandle) {
                r == Ok::<S, ErrorCode>(old(self).postgres_open_wallets@[xhandle].phandle)
                    && final(self).postgres_open_wallets@ == old(self).postgres_open_wallets@.remove(xhandle)
            } else {
                r == Err::<S, ErrorCode>(ErrorCode::CommonInvalidState)
                    && final(self).postgres_open_wallets == old(self).postgres_open_wallets
            },
    {
        if !self.postgres_open_wallets.contains_key(&xhandle) {
            return Err(ErrorCode::CommonInvalidState);
        }
        match self.postgres_open_wallets.remove(&xhandle) {
            Some(ctx) => Ok(ctx.phandle),
            None => Err(ErrorCode::CommonInvalidState),
        }
    }
}

/// While the counter is below the largest `i32`, the next handle is one
/// past the counter, and no live storage, metadata, search or fetched
/// search record holds it.
pub proof fn lemma_next_handle_is_fresh<S>(w: &PostgresWallet<S>)
    requires
        w.handles_issued(),
        w.ids_counter < 0x7fff_ffff,
    ensures
        handle_after(w.ids_counter) == w.ids_counter + 1,
        !w.postgres_open_wallets@.contains_key(handle_after(w.ids_counter)),
        !w.active_metadatas@.contains_key(handle_after(w.ids_counter)),
        !w.active_searches@.contains_key(handle_after(w.ids_counter)),
        !w.active_records@.contains_key(handle_after(w.ids_counter)),
{
}

} // verus!
