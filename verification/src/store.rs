//! The process-wide state: sixteen logical databases behind one store,
//! and the server configuration record.

use vstd::prelude::*;

use crate::db::Database;
pub use crate::db::Value;
pub use crate::db::ValueV;
use crate::db::keys_complete;
use crate::db::keys_distinct;
use crate::db::keys_sound;
use crate::db::live;
use crate::rdb::DataTypeV;
use crate::rdb::RdbData;
use crate::rdb::RdbEntryV;
use crate::rdb::DataType;
use crate::resp::bytes_view;
use crate::resp::clone_bytes;
use vstd::slice::slice_to_vec;
use vstd::string::StringSliceAdditionalSpecFns;

verus! {

/// Whether this node serves clients as the primary or follows one.
#[derive(Clone, Copy, Debug, PartialEq, Eq, Structural)]
pub enum ServerMode {
    Master,
    Replica,
}

/// The server configuration, built once at startup and read thereafter.
/// The replica links a primary fans out to are owned by the connection
/// layer, not by this record.
#[derive(Debug)]
pub struct Config {
    /// Directory holding the snapshot file, as bytes, if configured.
    pub dir: Option<Vec<u8>>,
    /// Snapshot file name, as bytes, if configured.
    pub dbfilename: Option<Vec<u8>>,
    /// The TCP port served.
    pub port: u16,
    /// The primary's host, as bytes, on a replica.
    pub masterhost: Option<Vec<u8>>,
    /// The primary's port, on a replica.
    pub masterport: Option<u16>,
    /// Primary or replica.
    pub mode: ServerMode,
    /// The forty-hex replication id this node announces.
    pub master_replid: Vec<u8>,
    /// The replication offset this node announces; offset accounting is
    /// not kept, so it stays zero.
    pub master_repl_offset: u64,
}

impl Config {
    /// The defaults: a primary on port 6379 with no snapshot configured.
    pub fn new() -> (r: Config)
        ensures
            r.dir is None,
            r.dbfilename is None,
            r.port == 6379,
            r.masterhost is None,
            r.masterport is None,
            r.mode == ServerMode::Master,
            r.master_replid@ == "8371b4fb1155b71f4a04d3e1bc3e18c4a990aeeb".spec_bytes(),
            r.master_repl_offset == 0,
    {
        Config {
            dir: None,
            dbfilename: None,
            port: 6379,
            masterhost: None,
            masterport: None,
            mode: ServerMode::Master,
            master_replid: slice_to_vec("8371b4fb1155b71f4a04d3e1bc3e18c4a990aeeb".as_bytes()),
            master_repl_offset: 0,
        }
    }
}

/// A store failure: the only one is naming a database out of range.
#[derive(Clone, Copy, Debug, PartialEq, Eq, Structural)]
pub enum StoreError {
    DatabaseNotFound,
}

/// The number of logical databases.
pub const DB_COUNT: usize = 16;

/// Sixteen empty databases.
pub open spec fn empty_dbs() -> Seq<Map<Seq<u8>, ValueV>> {
    Seq::new(DB_COUNT as nat, |i: int| Map::<Seq<u8>, ValueV>::empty())
}

/// The byte-string payload a snapshot value carries, if it is of the
/// one kind this core surfaces.
pub open spec fn payload_of(v: DataTypeV) -> Option<Seq<u8>> {
    match v {
        DataTypeV::String(s) => Some(s),
        _ => None,
    }
}

/// The databases spelled by ingesting snapshot entries in file order
/// into empty databases: later entries for a key override earlier ones,
/// and entries whose value kind is not surfaced are passed over.
pub open spec fn spec_load(entries: Seq<RdbEntryV>) -> Seq<Map<Seq<u8>, ValueV>>
    decreases entries.len(),
{
    if entries.len() == 0 {
        empty_dbs()
    } else {
        let prev = spec_load(entries.drop_last());
        let e = entries.last();
        match payload_of(e.value) {
            Some(p) => prev.update(
                e.db as int,
                prev[e.db as int].insert(e.key, ValueV { value: p, expiry: e.expiry }),
            ),
            None => prev,
        }
    }
}

/// The sixteen-database store.
pub struct Store {
    dbs: Vec<Database>,
}

impl View for Store {
    type V = Seq<Map<Seq<u8>, ValueV>>;

    closed spec fn view(&self) -> Seq<Map<Seq<u8>, ValueV>> {
        Seq::new(self.dbs@.len() as nat, |i: int| self.dbs@[i]@)
    }
}

impl Store {
    /// Sixteen databases, each with distinct keys.
    pub closed spec fn wf(&self) -> bool {
        self.dbs@.len() == DB_COUNT && forall|i: int|
            0 <= i < self.dbs@.len() ==> (#[trigger] self.dbs@[i]).wf()
    }

    /// Sixteen empty databases.
    #[verifier::loop_isolation(false)]
    pub fn new() -> (r: Store)
        ensures
            r.wf(),
            r@ == empty_dbs(),
    {
        let mut dbs: Vec<Database> = Vec::new();
        let mut i: usize = 0;
        while i < DB_COUNT
            invariant
                i <= DB_COUNT,
                dbs@.len() == i,
                forall|j: int| 0 <= j < i ==> (#[trigger] dbs@[j]).wf(),
                forall|j: int| 0 <= j < i ==> (#[trigger] dbs@[j])@ == Map::<Seq<u8>, ValueV>::empty(),
            decreases DB_COUNT - i,
        {
            dbs.push(Database::new());
            i = i + 1;
        }
        let r = Store { dbs };
        proof {
            assert(r@ =~= empty_dbs());
        }
        r
    }

    /// Binds `key` in database `db_id`, replacing any entry it had.
    /// Fails, changing nothing, exactly on an out-of-range database id.
    pub fn db_set(&mut self, db_id: usize, key: Vec<u8>, value: Value) -> (r: Result<
        (),
        StoreError,
    >)
        requires
            old(self).wf(),
        ensures
            final(self).wf(),
            db_id < DB_COUNT ==> r is Ok && final(self)@ == old(self)@.update(
                db_id as int,
                old(self)@[db_id as int].insert(key@, value@),
            ),
            db_id >= DB_COUNT ==> r == Err::<(), StoreError>(StoreError::DatabaseNotFound)
                && final(self)@ == old(self)@,
    {
        if db_id >= DB_COUNT {
            return Err(StoreError::DatabaseNotFound);
        }
        if db_id < self.dbs.len() {
            self.dbs[db_id].set(key, value);
            proof {
                assert(final(self)@ =~= old(self)@.update(
                    db_id as int,
                    old(self)@[db_id as int].insert(key@, value@),
                ));
            }
            Ok(())
        } else {
            Err(StoreError::DatabaseNotFound)
        }
    }

    /// Looks `key` up in database `db_id` at time `now`. A live value
    /// is returned; an expired one is deleted and missed; an absent key
    /// is missed. Fails, changing nothing, exactly on an out-of-range
    /// database id.
    pub fn db_get(&mut self, db_id: usize, key: &Vec<u8>, now: u64) -> (r: Result<
        Option<Vec<u8>>,
        StoreError,
    >)
        requires
            old(self).wf(),
        ensures
            final(self).wf(),
            db_id >= DB_COUNT ==> r == Err::<Option<Vec<u8>>, StoreError>(
                StoreError::DatabaseNotFound,
            ) && final(self)@ == old(self)@,
            db_id < DB_COUNT ==> {
                let m = old(self)@[db_id as int];
                &&& (m.contains_key(key@) && live(m[key@], now) ==> (r matches Ok(o) && o matches Some(v)
                    && v@ == m[key@].value && final(self)@ == old(self)@))
                &&& (m.contains_key(key@) && !live(m[key@], now) ==> (r matches Ok(o) && o is None
                    && final(self)@ == old(self)@.update(db_id as int, m.remove(key@))))
                &&& (!m.contains_key(key@) ==> (r matches Ok(o) && o is None && final(self)@ == old(
                    self,
                )@))
            },
    {
        if db_id >= DB_COUNT {
            return Err(StoreError::DatabaseNotFound);
        }
        if db_id < self.dbs.len() {
            let r = self.dbs[db_id].get(key, now);
            proof {
                let m = old(self)@[db_id as int];
                if m.contains_key(key@) && !live(m[key@], now) {
                    assert(final(self)@ =~= old(self)@.update(db_id as int, m.remove(key@)));
                } else {
                    assert(final(self)@ =~= old(self)@);
                }
            }
            Ok(r)
        } else {
            Err(StoreError::DatabaseNotFound)
        }
    }

    /// Every key on hand in database `db_id`, each exactly once, without
    /// forcing expiry. Fails exactly on an out-of-range database id.
    #[verifier::rlimit(50)]
    pub fn db_list_keys(&self, db_id: usize) -> (r: Result<Vec<Vec<u8>>, StoreError>)
        requires
            self.wf(),
        ensures
            db_id >= DB_COUNT ==> r == Err::<Vec<Vec<u8>>, StoreError>(StoreError::DatabaseNotFound),
            db_id < DB_COUNT ==> r is Ok,
            r matches Ok(keys) ==> keys_complete(self@[db_id as int], bytes_view(keys@))
                && keys_sound(self@[db_id as int], bytes_view(keys@)) && keys_distinct(
                bytes_view(keys@),
            ),
    {
        if db_id >= DB_COUNT {
            return Err(StoreError::DatabaseNotFound);
        }
        if db_id < self.dbs.len() {
            let ks = self.dbs[db_id].keys();
            proof {
                assert(self@[db_id as int] == self.dbs@[db_id as int]@);
            }
            Ok(ks)
        } else {
            Err(StoreError::DatabaseNotFound)
        }
    }

    /// Clears the store and ingests a decoded snapshot, every database
    /// it mentions, in file order. Fails, changing nothing, exactly
    /// when an entry names a database out of range.
    #[verifier::loop_isolation(false)]
    pub fn db_load(&mut self, data: &RdbData) -> (r: Result<(), StoreError>)
        requires
            old(self).wf(),
        ensures
            final(self).wf(),
            (forall|k: int| 0 <= k < data@.entries.len() ==> (#[trigger] data@.entries[k]).db
                < DB_COUNT) ==> r is Ok && final(self)@ == spec_load(data@.entries),
            !(forall|k: int| 0 <= k < data@.entries.len() ==> (#[trigger] data@.entries[k]).db
                < DB_COUNT) ==> r == Err::<(), StoreError>(StoreError::DatabaseNotFound)
                && final(self)@ == old(self)@,
    {
        let mut i: usize = 0;
        while i < data.entries.len()
            invariant
                i <= data.entries@.len(),
                forall|k: int| 0 <= k < i ==> (#[trigger] data@.entries[k]).db < DB_COUNT,
            decreases data.entries@.len() - i,
        {
            if data.entries[i].db as usize >= DB_COUNT {
                proof {
                    assert(data@.entries[i as int].db >= DB_COUNT);
                }
                return Err(StoreError::DatabaseNotFound);
            }
            proof {
                assert(data@.entries[i as int].db < DB_COUNT);
            }
            i = i + 1;
        }
        let fresh = Store::new();
        self.dbs = fresh.dbs;
        proof {
            assert(self@ =~= spec_load(data@.entries.subrange(0, 0)));
        }
        let mut j: usize = 0;
        while j < data.entries.len()
            invariant
                j <= data.entries@.len(),
                self.wf(),
                self@ == spec_load(data@.entries.subrange(0, j as int)),
                forall|k: int| 0 <= k < data@.entries.len() ==> (#[trigger] data@.entries[k]).db
                    < DB_COUNT,
            decreases data.entries@.len() - j,
        {
            let ghost pre = self@;
            let entry = &data.entries[j];
            proof {
                assert(data@.entries[j as int] == entry@);
            }
            match &entry.value {
                DataType::String(payload) => {
                    let key = clone_bytes(&entry.key);
                    let value = Value { value: clone_bytes(payload), expiry: entry.expiry };
                    let db_id = entry.db as usize;
                    self.dbs[db_id].set(key, value);
                    proof {
                        assert(self@ =~= pre.update(
                            db_id as int,
                            pre[db_id as int].insert(entry@.key, ValueV {
                                value: payload@,
                                expiry: entry@.expiry,
                            }),
                        ));
                    }
                },
                _ => {
                    proof {
                        assert(payload_of(entry@.value) is None);
                    }
                },
            }
            proof {
                let cur = data@.entries.subrange(0, j + 1 as int);
                assert(cur.drop_last() =~= data@.entries.subrange(0, j as int));
                assert(cur.last() == data@.entries[j as int]);
            }
            j = j + 1;
        }
        proof {
            assert(data@.entries.subrange(0, data@.entries.len() as int) =~= data@.entries);
        }
        Ok(())
    }
}

} // verus!
