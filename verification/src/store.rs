//! The append-only sequence store: an ordered, durable mapping from
//! 8-byte big-endian sequence keys to opaque payload bytes, backed by a
//! sled tree.  The store owns monotonic id assignment and recovers the
//! next id from the last persisted key on open.
//!
//! A `Store` is an exclusively owned handle: callers that share it wrap
//! it in a mutual-exclusion boundary of their own, so that at most one
//! `add_event` proceeds at a time.

use vstd::prelude::*;

use crate::codec::{
    be_val, lemma_be_roundtrip, lemma_bytes_roundtrip, lemma_lex_lt_be_val, lex_lt, read_be_u64,
    u64_be_bytes, u64_to_be_bytes,
};

verus! {

#[verifier::external_type_specification]
#[verifier::external_body]
pub struct ExDb(sled::Db);

#[verifier::external_type_specification]
#[verifier::external_body]
pub struct ExTree(sled::Tree);

#[verifier::external_type_specification]
#[verifier::external_body]
pub struct ExSledError(sled::Error);

/// The entries a sled tree holds, as a map from key bytes to value
/// bytes.
pub uninterp spec fn tree_entries(t: sled::Tree) -> Map<Seq<u8>, Seq<u8>>;

/// Relies on sled::open: opens or creates the durable log file under
/// the given base directory.
#[verifier::external_body]
fn open_db(basedir: &str) -> Result<sled::Db, sled::Error> {
    sled::open(std::path::Path::new(basedir).join("time-series.sled"))
}

/// Relies on sled::Db::open_tree: opens or creates the named key space
/// holding the event records.
#[verifier::external_body]
fn open_events_tree(db: &sled::Db) -> Result<sled::Tree, sled::Error> {
    db.open_tree("events")
}

/// Relies on tempfile::tempdir, sled::open and sled::Db::open_tree,
/// taken together: tempdir creates a new, empty directory, and sled
/// opening a log there creates it fresh, so the tree handed back holds
/// no entries.  The claim is true only of this composite — a tree
/// opened under an arbitrary path holds whatever is on disk — so the
/// three calls stand behind one contract.  The directory is released
/// from cleanup so the store outlives the handle.
#[verifier::external_body]
fn open_temp_tree() -> (r: Result<sled::Tree, ()>)
    ensures
        r matches Ok(t) ==> tree_entries(t).dom() =~= Set::<Seq<u8>>::empty(),
{
    let dir = match tempfile::tempdir() {
        Ok(d) => d.keep(),
        Err(_) => return Err(()),
    };
    match sled::open(dir.join("time-series.sled")) {
        Ok(db) => db.open_tree("events").map_err(|_| ()),
        Err(_) => Err(()),
    }
}

/// Relies on sled::Tree::last: returns the entry with the
/// byte-lexicographically greatest key, or `None` exactly when the tree
/// is empty.
#[verifier::external_body]
fn tree_last(t: &sled::Tree) -> (r: Result<Option<(Vec<u8>, Vec<u8>)>, sled::Error>)
    ensures
        (r matches Ok(Some((k, v))) ==> tree_entries(*t).contains_pair(k@, v@) && (forall|
            k2: Seq<u8>,
        |
            #[trigger] tree_entries(*t).dom().contains(k2) ==> k2 == k@ || lex_lt(k2, k@))),
        (r matches Ok(None) ==> tree_entries(*t).dom() =~= Set::<Seq<u8>>::empty()),
{
    match t.last() {
        Ok(Some((k, v))) => Ok(Some((k.to_vec(), v.to_vec()))),
        Ok(None) => Ok(None),
        Err(e) => Err(e),
    }
}

/// Relies on sled::Tree::insert: on success the tree maps the key to
/// the new value and all other entries are unchanged.  On an I/O error
/// the write may or may not have taken effect.
#[verifier::external_body]
fn tree_insert(t: &mut sled::Tree, key: &[u8], value: &[u8]) -> (r: Result<(), sled::Error>)
    ensures
        r is Ok ==> tree_entries(*final (t)) == tree_entries(*old(t)).insert(key@, value@),
        r is Err ==> tree_entries(*final (t)) == tree_entries(*old(t)) || tree_entries(*final (t))
            == tree_entries(*old(t)).insert(key@, value@),
{
    t.insert(key, value).map(|_| ())
}

/// Some entry of the scan carries exactly this key.
pub open spec fn scan_has_key(s: Seq<(Vec<u8>, Vec<u8>)>, k: Seq<u8>) -> bool {
    exists|i: int| 0 <= i < s.len() && (#[trigger] s[i]).0@ == k
}

/// Some returned record carries exactly this sequence id.
pub open spec fn recs_have_id(r: Seq<(u64, Vec<u8>)>, id: u64) -> bool {
    exists|i: int| 0 <= i < r.len() && (#[trigger] r[i]).0 == id
}

/// Relies on sled::Tree::iter: yields entries in ascending
/// byte-lexicographic key order.  A read failure is reported in the
/// flag and its entry skipped; when no read failed, every entry of the
/// tree was yielded.
#[verifier::external_body]
fn tree_scan(t: &sled::Tree) -> (r: (Vec<(Vec<u8>, Vec<u8>)>, bool))
    ensures
        forall|i: int|
            0 <= i < r.0@.len() ==> tree_entries(*t).contains_pair(r.0@[i].0@, r.0@[i].1@),
        forall|i: int, j: int| 0 <= i < j < r.0@.len() ==> lex_lt(r.0@[i].0@, r.0@[j].0@),
        !r.1 ==> forall|k: Seq<u8>|
            #[trigger] tree_entries(*t).dom().contains(k) ==> scan_has_key(r.0@, k),
{
    let mut out = Vec::new();
    let mut lossy = false;
    for kv in t.iter() {
        match kv {
            Ok((k, v)) => out.push((k.to_vec(), v.to_vec())),
            Err(_) => lossy = true,
        }
    }
    (out, lossy)
}

/// What the counter recovers from the last persisted entry: zero for
/// an empty log, the decoded id of a well-formed 8-byte key, and
/// corruption otherwise.
pub open spec fn spec_recover_id(last: Option<(Vec<u8>, Vec<u8>)>) -> Result<u64, StoreError> {
    match last {
        None => Ok(0),
        Some(kv) => if kv.0@.len() == 8 {
            Ok(be_val(kv.0@))
        } else {
            Err(StoreError::CorruptKey)
        },
    }
}

fn recover_id(last: &Option<(Vec<u8>, Vec<u8>)>) -> (r: Result<u64, StoreError>)
    ensures
        r == spec_recover_id(*last),
{
    match last {
        None => Ok(0),
        Some((k, _v)) => {
            if k.len() == 8 {
                proof {
                    assert(k@.subrange(0, 8) =~= k@);
                }
                Ok(read_be_u64(k.as_slice()))
            } else {
                Err(StoreError::CorruptKey)
            }
        },
    }
}

/// Why opening or appending failed.
#[derive(Debug, Clone, Copy, PartialEq, Eq, Structural)]
pub enum StoreError {
    /// The durability layer reported an I/O fault.
    Io,
    /// A persisted key is not a well-formed 8-byte sequence key.
    CorruptKey,
}

/// The append-only sequence store.
pub struct Store {
    tree: sled::Tree,
    last_event_id: u64,
    appended: Ghost<Seq<(u64, Seq<u8>)>>,
    broken: Ghost<bool>,
}

impl Store {
    /// The id most recently assigned; the next append returns this
    /// plus one.
    pub closed spec fn last_id(self) -> u64 {
        self.last_event_id
    }

    /// The records appended through this handle since it was opened,
    /// in append order, each with its assigned id.
    pub closed spec fn log(self) -> Seq<(u64, Seq<u8>)> {
        self.appended@
    }

    /// The entries the underlying tree holds.
    pub closed spec fn entries(self) -> Map<Seq<u8>, Seq<u8>> {
        tree_entries(self.tree)
    }

    /// True once an append has failed; a failed durable write is
    /// fatal, and no further append is permitted through this handle.
    pub closed spec fn failed(self) -> bool {
        self.broken@
    }

    /// The store's invariant: appended ids are consecutive, start at
    /// least at 1, never exceed the counter, reach the counter exactly
    /// while no append has failed, and every appended record is held
    /// by the tree under its encoded key.
    pub closed spec fn inv(self) -> bool {
        &&& forall|i: int|
            0 <= i < self.appended@.len() ==> #[trigger] self.appended@[i].0 == self.appended@[0].0
                + i
        &&& self.appended@.len() > 0 ==> self.appended@[0].0 >= 1
        &&& self.appended@.len() > 0 ==> self.appended@[self.appended@.len() - 1].0
            <= self.last_event_id
        &&& (!self.broken@ && self.appended@.len() > 0) ==> self.appended@[self.appended@.len()
            - 1].0 == self.last_event_id
        &&& forall|i: int|
            0 <= i < self.appended@.len() ==> tree_entries(self.tree).contains_pair(
                u64_be_bytes(self.appended@[i].0),
                self.appended@[i].1,
            )
    }

    /// True of a store as `open` hands it back: nothing appended yet,
    /// and the id counter recovered from the greatest persisted key,
    /// or zero when the log is empty.
    pub open spec fn recovered(self) -> bool {
        &&& self.log() == Seq::<(u64, Seq<u8>)>::empty()
        &&& !self.failed()
        &&& (self.entries().dom() =~= Set::<Seq<u8>>::empty() && self.last_id() == 0) || (exists|
            k: Seq<u8>,
        |
            {
                &&& #[trigger] self.entries().dom().contains(k)
                &&& k.len() == 8
                &&& self.last_id() == be_val(k)
                &&& forall|k2: Seq<u8>|
                    #[trigger] self.entries().dom().contains(k2) ==> k2 == k || lex_lt(k2, k)
            })
    }

    /// Open or create the durable log rooted at `basedir`.  On success
    /// the next-sequence counter holds the greatest persisted id, or
    /// zero when the log is empty; a persisted last key that is not 8
    /// bytes wide is corruption.
    pub fn open(basedir: &str) -> (r: Result<Store, StoreError>)
        ensures
            r matches Ok(s) ==> s.inv() && s.recovered(),
    {
        let db = match open_db(basedir) {
            Ok(d) => d,
            Err(_) => {
                return Err(StoreError::Io);
            },
        };
        let tree = match open_events_tree(&db) {
            Ok(t) => t,
            Err(_) => {
                return Err(StoreError::Io);
            },
        };
        let last = match tree_last(&tree) {
            Ok(l) => l,
            Err(_) => {
                return Err(StoreError::Io);
            },
        };
        let last_event_id: u64 = match recover_id(&last) {
            Ok(id) => id,
            Err(e) => {
                return Err(e);
            },
        };
        Ok(
            Store {
                tree,
                last_event_id,
                appended: Ghost(Seq::empty()),
                broken: Ghost(false),
            },
        )
    }

    /// Open a store backed by a fresh process-lifetime temporary
    /// directory.  The log starts empty: the counter is zero and the
    /// first append returns 1.
    pub fn open_temp() -> (r: Result<Store, StoreError>)
        ensures
            r matches Ok(s) ==> {
                &&& s.inv()
                &&& s.recovered()
                &&& s.entries().dom() =~= Set::<Seq<u8>>::empty()
                &&& s.last_id() == 0
            },
    {
        let tree = match open_temp_tree() {
            Ok(t) => t,
            Err(_) => {
                return Err(StoreError::Io);
            },
        };
        Ok(
            Store {
                tree,
                last_event_id: 0,
                appended: Ghost(Seq::empty()),
                broken: Ghost(false),
            },
        )
    }

    /// Append a payload under the next sequence id and return that id.
    /// The counter advances by exactly one even when the durable write
    /// fails: a failed write is fatal, never rolled back, since a
    /// silently skipped id would break the no-gap guarantee.
    pub fn add_event(&mut self, event: Vec<u8>) -> (r: Result<u64, StoreError>)
        requires
            old(self).inv(),
            !old(self).failed(),
            old(self).last_id() < u64::MAX,
        ensures
            final (self).inv(),
            final (self).last_id() == old(self).last_id() + 1,
            r matches Ok(id) ==> {
                &&& id == old(self).last_id() + 1
                &&& !final (self).failed()
                &&& final (self).log() == old(self).log().push((id, event@))
                &&& final (self).entries() == old(self).entries().insert(u64_be_bytes(id), event@)
            },
            r is Err ==> final (self).failed() && final (self).log() == old(self).log(),
    {
        self.last_event_id = self.last_event_id + 1;
        let event_id = self.last_event_id;
        let key = u64_to_be_bytes(event_id);
        let wrote = tree_insert(&mut self.tree, key.as_slice(), event.as_slice());
        match wrote {
            Ok(()) => {
                proof {
                    self.appended@ = self.appended@.push((event_id, event@));
                    assert forall|i: int| 0 <= i < old(self).log().len() implies tree_entries(
                        self.tree,
                    ).contains_pair(
                        u64_be_bytes(old(self).log()[i].0),
                        old(self).log()[i].1,
                    ) by {
                        lemma_be_roundtrip(old(self).log()[i].0);
                        lemma_be_roundtrip(event_id);
                    }
                }
                Ok(event_id)
            },
            Err(_) => {
                proof {
                    self.broken@ = true;
                    assert forall|i: int| 0 <= i < old(self).log().len() implies tree_entries(
                        self.tree,
                    ).contains_pair(
                        u64_be_bytes(old(self).log()[i].0),
                        old(self).log()[i].1,
                    ) by {
                        lemma_be_roundtrip(old(self).log()[i].0);
                        lemma_be_roundtrip(event_id);
                    }
                }
                Err(StoreError::Io)
            },
        }
    }

    /// The id most recently assigned (zero in a store that was empty
    /// when opened and has seen no append).
    pub fn last_event_id(&self) -> (r: u64)
        ensures
            r == self.last_id(),
    {
        self.last_event_id
    }

    /// Walk the log in ascending sequence-id order.  Reads are
    /// best-effort: an entry whose read fails, or whose key is not a
    /// well-formed sequence key, is skipped.  A skipped read is
    /// reported in the flag; when it is clear, the result is exactly
    /// the well-formed records of the log, in ascending id order.
    pub fn iter(&self) -> (r: (Vec<(u64, Vec<u8>)>, bool))
        ensures
            forall|i: int|
                0 <= i < r.0@.len() ==> self.entries().contains_pair(
                    u64_be_bytes(r.0@[i].0),
                    r.0@[i].1@,
                ),
            forall|i: int, j: int| 0 <= i < j < r.0@.len() ==> r.0@[i].0 < r.0@[j].0,
            !r.1 ==> forall|k: Seq<u8>|
                #[trigger] self.entries().dom().contains(k) && k.len() == 8 ==> recs_have_id(
                    r.0@,
                    be_val(k),
                ),
    {
        let (scan, lossy) = tree_scan(&self.tree);
        let mut r: Vec<(u64, Vec<u8>)> = Vec::new();
        let ghost mut last_key: Seq<u8> = Seq::empty();
        let ghost mut last_src: int = 0;
        let mut i: usize = 0;
        while i < scan.len()
            invariant
                0 <= i <= scan@.len(),
                forall|a: int|
                    0 <= a < scan@.len() ==> tree_entries(self.tree).contains_pair(
                        scan@[a].0@,
                        scan@[a].1@,
                    ),
                forall|a: int, b: int|
                    0 <= a < b < scan@.len() ==> lex_lt(scan@[a].0@, scan@[b].0@),
                forall|a: int|
                    0 <= a < r@.len() ==> self.entries().contains_pair(
                        u64_be_bytes(r@[a].0),
                        r@[a].1@,
                    ),
                forall|a: int, b: int| 0 <= a < b < r@.len() ==> r@[a].0 < r@[b].0,
                forall|m: int|
                    0 <= m < i && (#[trigger] scan@[m]).0@.len() == 8 ==> recs_have_id(
                        r@,
                        be_val(scan@[m].0@),
                    ),
                r@.len() > 0 ==> {
                    &&& 0 <= last_src < i
                    &&& last_key == scan@[last_src].0@
                    &&& last_key.len() == 8
                    &&& r@[r@.len() - 1].0 == be_val(last_key)
                },
            decreases scan@.len() - i,
        {
            let kv = &scan[i];
            if kv.0.len() == 8 {
                proof {
                    assert(kv.0@.subrange(0, 8) =~= kv.0@);
                }
                let id = read_be_u64(kv.0.as_slice());
                proof {
                    lemma_bytes_roundtrip(kv.0@);
                    assert(u64_be_bytes(id) == kv.0@);
                    if r@.len() > 0 {
                        lemma_lex_lt_be_val(last_key, kv.0@);
                    }
                }
                let value = kv.1.clone();
                let ghost r_before = r@;
                r.push((id, value));
                proof {
                    last_key = kv.0@;
                    last_src = i as int;
                    assert((r@[r@.len() - 1]).0 == id);
                    assert(recs_have_id(r@, id));
                    assert forall|m: int|
                        0 <= m < i && (#[trigger] scan@[m]).0@.len() == 8 implies recs_have_id(
                        r@,
                        be_val(scan@[m].0@),
                    ) by {
                        let j = choose|j: int|
                            0 <= j < r_before.len() && (#[trigger] r_before[j]).0 == be_val(
                                scan@[m].0@,
                            );
                        assert((r@[j]).0 == be_val(scan@[m].0@));
                    }
                }
            }
            i += 1;
        }
        proof {
            if !lossy {
                assert forall|k: Seq<u8>|
                    #[trigger] self.entries().dom().contains(k) && k.len() == 8 implies recs_have_id(
                    r@,
                    be_val(k),
                ) by {
                    assert(scan_has_key(scan@, k));
                    let m = choose|m: int| 0 <= m < scan@.len() && (#[trigger] scan@[m]).0@ == k;
                    assert((scan@[m]).0@.len() == 8);
                }
            }
        }
        (r, lossy)
    }
}

/// Ids returned by appends on a fresh store are exactly `1..=N` after
/// `N` successful appends: consecutive, starting at 1, with no repeats
/// and no gaps.  The hypothesis `log.len() == last_id` says every id
/// the counter ever assigned was appended through this handle, which
/// holds exactly of a store opened on an empty log whose appends all
/// succeeded.
pub proof fn lemma_fresh_ids_gapless(s: Store)
    requires
        s.inv(),
        s.log().len() == s.last_id(),
    ensures
        forall|i: int| 0 <= i < s.log().len() ==> #[trigger] s.log()[i].0 == i + 1,
{
    if s.log().len() > 0 {
        assert(s.log()[s.log().len() - 1].0 == s.log()[0].0 + s.log().len() - 1);
        assert(s.log()[0].0 + s.log().len() - 1 <= s.last_id());
        assert(s.log()[0].0 == 1);
    }
}

/// A store opened over an empty log starts its counter at zero, so
/// its first append returns 1.
pub proof fn lemma_fresh_store_starts_at_zero(s: Store)
    requires
        s.recovered(),
        s.entries().dom() =~= Set::<Seq<u8>>::empty(),
    ensures
        s.last_id() == 0,
{
}

/// Appended sequence ids are never duplicated: any two distinct
/// appends through one handle were assigned distinct ids.  Together
/// with the exclusive borrow `add_event` demands, this rules out
/// duplicate or racing id assignment however callers interleave.
pub proof fn lemma_append_ids_unique(s: Store)
    requires
        s.inv(),
    ensures
        forall|i: int, j: int|
            0 <= i < s.log().len() && 0 <= j < s.log().len() && i != j ==> s.log()[i].0
                != s.log()[j].0,
{
}

/// Recovery correctness: reopening a log whose persisted keys are
/// exactly the encoded ids `1..=m` recovers the counter at `m`, so the
/// next append returns `m + 1`.
pub proof fn lemma_reopen_resumes_after(s: Store, m: u64)
    requires
        s.recovered(),
        m >= 1,
        s.entries().dom() =~= Set::new(
            |k: Seq<u8>| exists|i: u64| 1 <= i <= m && k == u64_be_bytes(i),
        ),
    ensures
        s.last_id() == m,
{
    assert(1 <= 1u64 <= m && u64_be_bytes(1) == u64_be_bytes(1));
    assert(s.entries().dom().contains(u64_be_bytes(1)));
    assert(!(s.entries().dom() =~= Set::<Seq<u8>>::empty()));
    let k = choose|k: Seq<u8>|
        {
            &&& #[trigger] s.entries().dom().contains(k)
            &&& k.len() == 8
            &&& s.last_id() == be_val(k)
            &&& forall|k2: Seq<u8>|
                #[trigger] s.entries().dom().contains(k2) ==> k2 == k || lex_lt(k2, k)
        };
    let i = choose|i: u64| 1 <= i <= m && k == u64_be_bytes(i);
    lemma_be_roundtrip(i);
    assert(be_val(k) <= m);
    assert(1 <= m <= m && u64_be_bytes(m) == u64_be_bytes(m));
    assert(s.entries().dom().contains(u64_be_bytes(m)));
    if u64_be_bytes(m) == k {
        lemma_be_roundtrip(m);
    } else {
        assert(lex_lt(u64_be_bytes(m), k));
        lemma_lex_lt_be_val(u64_be_bytes(m), k);
        lemma_be_roundtrip(m);
    }
}

/// Recovery correctness: a freshly opened store's counter is an upper
/// bound on every sequence id persisted in the log, so the first
/// append after reopening yields an id strictly greater than every id
/// already on disk — after `M` appends and a reopen, the next id is
/// `M + 1`.
pub proof fn lemma_recovery_bounds_ids(s: Store, id: u64)
    requires
        s.recovered(),
        s.entries().dom().contains(u64_be_bytes(id)),
    ensures
        id <= s.last_id(),
{
    if s.entries().dom() =~= Set::<Seq<u8>>::empty() {
        assert(false);
    } else {
        let k = choose|k: Seq<u8>|
            {
                &&& #[trigger] s.entries().dom().contains(k)
                &&& k.len() == 8
                &&& s.last_id() == be_val(k)
                &&& forall|k2: Seq<u8>|
                    #[trigger] s.entries().dom().contains(k2) ==> k2 == k || lex_lt(k2, k)
            };
        if u64_be_bytes(id) == k {
            lemma_be_roundtrip(id);
        } else {
            assert(lex_lt(u64_be_bytes(id), k));
            lemma_lex_lt_be_val(u64_be_bytes(id), k);
            lemma_be_roundtrip(id);
        }
    }
}

} // verus!
