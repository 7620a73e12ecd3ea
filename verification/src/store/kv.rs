//! The storage engine: one append-only log, a write cursor and an index
//! from each live key to the offset of its winning record.
//!
//! The engine holds the bytes of its file.  Whoever owns the file hands
//! them over when the store is opened and, after each operation, writes
//! out what the engine reports as not yet synced.
use vstd::prelude::*;
use vstd::utf8::*;
use crate::store::kv_error::KvError;
use crate::store::log::{
    all_storable, contents, dead, lemma_compaction, lemma_contents_push, lemma_dead_and_live,
    lemma_live_points, lemma_live_push, lemma_log_prefix, lemma_log_push, lemma_offset_push,
    lemma_offsets_increase, lemma_record_at, lemma_winners_upto, live, log_bytes, offset_of,
    parse_log, winners, winners_upto, wins,
};
use crate::store::record::{
    Command, Entry, EntryView, lemma_parse_record_canonical, lemma_record_round_trip,
    parse_record, record_bytes, record_size, storable,
};
use crate::store::value::{Value, ValueView, value_bytes};
use crate::text::{append_bytes, copy_range};

verus! {

/// The number of uncompacted bytes at which the next append compacts the
/// log first, unless the store was opened with another.
pub const COMPACTION_THRESHOLD: u64 = 1048576;

/// One line of the index: a live key and the offset of its winning record.
pub struct IndexSlot {
    key: String,
    offset: u64,
}

/// A store: the bytes of its log and what replaying them gives.
pub struct DataStore {
    pub path: String,
    log: Vec<u8>,
    index: Vec<IndexSlot>,
    position: u64,
    uncompacted: u64,
    threshold: u64,
    synced: u64,
    rewritten: bool,
    recs: Ghost<Seq<EntryView>>,
}

/// Whether the index is what replaying `recs` gives: one slot for each
/// live key and none else, each with the offset of the key's winning record.
#[verifier::opaque]
pub closed spec fn index_ok(index: Seq<IndexSlot>, recs: Seq<EntryView>) -> bool {
    &&& forall|j: int|
        0 <= j < index.len() ==> live(recs).contains_key((#[trigger] index[j]).key@)
            && index[j].offset == offset_of(recs, live(recs)[index[j].key@] as int)
    &&& forall|k: Seq<char>| #[trigger]
        live(recs).contains_key(k) ==> exists|j: int|
            0 <= j < index.len() && (#[trigger] index[j]).key@ == k
    &&& forall|i: int, j: int|
        0 <= i < j < index.len() ==> (#[trigger] index[i]).key@ != (#[trigger] index[j]).key@
}

/// Reading where record number `i` starts gives that record, whatever the
/// bytes after the replayed part of the log are.
pub proof fn lemma_read_at(log: Seq<u8>, recs: Seq<EntryView>, i: int)
    requires
        all_storable(recs),
        0 <= i < recs.len(),
        log_bytes(recs).len() <= log.len(),
        log.subrange(0, log_bytes(recs).len() as int) == log_bytes(recs),
    ensures
        offset_of(recs, i) + record_size(recs[i]) == offset_of(recs, i + 1),
        offset_of(recs, i + 1) <= log_bytes(recs).len(),
        parse_record(log.subrange(offset_of(recs, i) as int, log.len() as int)) == Ok::<
            (EntryView, nat),
            KvError,
        >((recs[i], record_size(recs[i]))),
        log.subrange(offset_of(recs, i) as int, offset_of(recs, i + 1) as int) == record_bytes(
            recs[i],
        ),
{
    lemma_record_at(recs, i);
    let whole = log_bytes(recs);
    let start = offset_of(recs, i) as int;
    let end = offset_of(recs, i + 1) as int;
    assert(log.subrange(start, end) =~= log.subrange(0, whole.len() as int).subrange(start, end));
    lemma_record_round_trip(recs[i], log.subrange(end, log.len() as int));
    assert(log.subrange(start, log.len() as int) =~= record_bytes(recs[i]) + log.subrange(
        end,
        log.len() as int,
    ));
}

/// What one more record changes for the keys that are not its own: nothing.
proof fn lemma_other_keys(before: Seq<EntryView>, r: EntryView, k: Seq<char>)
    requires
        k != r.key,
    ensures
        live(before.push(r)).contains_key(k) == live(before).contains_key(k),
        live(before).contains_key(k) ==> live(before.push(r))[k] == live(before)[k] && offset_of(
            before.push(r),
            live(before)[k] as int,
        ) == offset_of(before, live(before)[k] as int),
{
    lemma_live_push(before, r);
    lemma_live_points(before);
    if live(before).contains_key(k) {
        lemma_offset_push(before, r, live(before)[k] as int);
    }
}

/// The index after an `Add` for a key that has a slot: the slot is
/// replaced.
proof fn lemma_index_set(
    start: Seq<IndexSlot>,
    before: Seq<EntryView>,
    r: EntryView,
    j: int,
    fresh: IndexSlot,
)
    requires
        index_ok(start, before),
        r.command is Add,
        0 <= j < start.len(),
        start[j].key@ == r.key,
        fresh.key@ == r.key,
        fresh.offset == offset_of(before.push(r), before.len() as int),
    ensures
        index_ok(start.update(j, fresh), before.push(r)),
{
    reveal(index_ok);
    let after = before.push(r);
    let index = start.update(j, fresh);
    lemma_live_push(before, r);
    assert forall|i: int| 0 <= i < index.len() implies live(after).contains_key(
        (#[trigger] index[i]).key@,
    ) && index[i].offset == offset_of(after, live(after)[index[i].key@] as int) by {
        if i != j {
            assert(index[i] == start[i]);
            if i < j {
                assert(start[i].key@ != start[j].key@);
            } else {
                assert(start[j].key@ != start[i].key@);
            }
            lemma_other_keys(before, r, start[i].key@);
        }
    }
    assert forall|k: Seq<char>| #[trigger] live(after).contains_key(k) implies exists|i: int|
        0 <= i < index.len() && (#[trigger] index[i]).key@ == k by {
        if k == r.key {
            assert(index[j].key@ == k);
        } else {
            lemma_other_keys(before, r, k);
            let i = choose|i: int| 0 <= i < start.len() && (#[trigger] start[i]).key@ == k;
            assert(index[i] == start[i]);
            assert(index[i].key@ == k);
        }
    }
    assert forall|a: int, b: int| 0 <= a < b < index.len() implies (#[trigger] index[a]).key@ != (
    #[trigger] index[b]).key@ by {
        assert(index[a].key@ == start[a].key@);
        assert(index[b].key@ == start[b].key@);
    }
}

/// The index after an `Add` for a key that has no slot: a slot is added.
proof fn lemma_index_push(
    start: Seq<IndexSlot>,
    before: Seq<EntryView>,
    r: EntryView,
    fresh: IndexSlot,
)
    requires
        index_ok(start, before),
        r.command is Add,
        forall|i: int| 0 <= i < start.len() ==> (#[trigger] start[i]).key@ != r.key,
        fresh.key@ == r.key,
        fresh.offset == offset_of(before.push(r), before.len() as int),
    ensures
        index_ok(start.push(fresh), before.push(r)),
{
    reveal(index_ok);
    let after = before.push(r);
    let index = start.push(fresh);
    lemma_live_push(before, r);
    assert forall|i: int| 0 <= i < index.len() implies live(after).contains_key(
        (#[trigger] index[i]).key@,
    ) && index[i].offset == offset_of(after, live(after)[index[i].key@] as int) by {
        if i < start.len() {
            assert(index[i] == start[i]);
            lemma_other_keys(before, r, start[i].key@);
        }
    }
    assert forall|k: Seq<char>| #[trigger] live(after).contains_key(k) implies exists|i: int|
        0 <= i < index.len() && (#[trigger] index[i]).key@ == k by {
        if k == r.key {
            assert(index[start.len() as int].key@ == k);
        } else {
            lemma_other_keys(before, r, k);
            let i = choose|i: int| 0 <= i < start.len() && (#[trigger] start[i]).key@ == k;
            assert(index[i] == start[i]);
            assert(index[i].key@ == k);
        }
    }
    assert forall|a: int, b: int| 0 <= a < b < index.len() implies (#[trigger] index[a]).key@ != (
    #[trigger] index[b]).key@ by {
        assert(index[a] == start[a]);
        if b < start.len() {
            assert(index[b] == start[b]);
        }
    }
}

/// The index after a `Delete` for a key that has a slot: the slot goes.
proof fn lemma_index_remove(start: Seq<IndexSlot>, before: Seq<EntryView>, r: EntryView, j: int)
    requires
        index_ok(start, before),
        r.command is Delete,
        0 <= j < start.len(),
        start[j].key@ == r.key,
    ensures
        index_ok(start.remove(j), before.push(r)),
{
    reveal(index_ok);
    let after = before.push(r);
    let index = start.remove(j);
    lemma_live_push(before, r);
    assert forall|i: int| 0 <= i < index.len() implies live(after).contains_key(
        (#[trigger] index[i]).key@,
    ) && index[i].offset == offset_of(after, live(after)[index[i].key@] as int) by {
        let from = if i < j { i } else { i + 1 };
        assert(index[i] == start[from]);
        if from < j {
            assert(start[from].key@ != start[j].key@);
        } else {
            assert(start[j].key@ != start[from].key@);
        }
        lemma_other_keys(before, r, start[from].key@);
    }
    assert forall|k: Seq<char>| #[trigger] live(after).contains_key(k) implies exists|i: int|
        0 <= i < index.len() && (#[trigger] index[i]).key@ == k by {
        lemma_other_keys(before, r, k);
        let from = choose|i: int| 0 <= i < start.len() && (#[trigger] start[i]).key@ == k;
        let i = if from < j { from } else { from - 1 };
        assert(index[i] == start[from]);
        assert(index[i].key@ == k);
    }
    assert forall|a: int, b: int| 0 <= a < b < index.len() implies (#[trigger] index[a]).key@ != (
    #[trigger] index[b]).key@ by {
        let fa = if a < j { a } else { a + 1 };
        let fb = if b < j { b } else { b + 1 };
        assert(index[a] == start[fa]);
        assert(index[b] == start[fb]);
        assert(start[fa].key@ != start[fb].key@);
    }
}

/// The index after a `Delete` for a key that has no slot: as it was.
proof fn lemma_index_keep(start: Seq<IndexSlot>, before: Seq<EntryView>, r: EntryView)
    requires
        index_ok(start, before),
        r.command is Delete,
        forall|i: int| 0 <= i < start.len() ==> (#[trigger] start[i]).key@ != r.key,
    ensures
        index_ok(start, before.push(r)),
{
    reveal(index_ok);
    let after = before.push(r);
    lemma_live_push(before, r);
    assert forall|i: int| 0 <= i < start.len() implies live(after).contains_key(
        (#[trigger] start[i]).key@,
    ) && start[i].offset == offset_of(after, live(after)[start[i].key@] as int) by {
        lemma_other_keys(before, r, start[i].key@);
    }
    assert forall|k: Seq<char>| #[trigger] live(after).contains_key(k) implies exists|i: int|
        0 <= i < start.len() && (#[trigger] start[i]).key@ == k by {
        lemma_other_keys(before, r, k);
    }
}

/// A key without a slot is not live.
proof fn lemma_no_slot(index: Seq<IndexSlot>, recs: Seq<EntryView>, k: Seq<char>)
    requires
        index_ok(index, recs),
        forall|i: int| 0 <= i < index.len() ==> (#[trigger] index[i]).key@ != k,
    ensures
        !live(recs).contains_key(k),
{
    reveal(index_ok);
    if live(recs).contains_key(k) {
        let j = choose|j: int| 0 <= j < index.len() && (#[trigger] index[j]).key@ == k;
        assert(index[j].key@ != k);
    }
}

/// A key with a slot is live, and the slot holds the offset of its
/// winning record.
proof fn lemma_slot(index: Seq<IndexSlot>, recs: Seq<EntryView>, j: int)
    requires
        index_ok(index, recs),
        0 <= j < index.len(),
    ensures
        live(recs).contains_key(index[j].key@),
        index[j].offset == offset_of(recs, live(recs)[index[j].key@] as int),
        live(recs)[index[j].key@] < recs.len(),
        recs[live(recs)[index[j].key@] as int].key == index[j].key@,
        recs[live(recs)[index[j].key@] as int].command is Add,
{
    reveal(index_ok);
    lemma_live_points(recs);
}

/// The index that compaction builds, one slot for each record that it
/// keeps, is the index of what it keeps.
proof fn lemma_index_of_winners(index: Seq<IndexSlot>, w: Seq<EntryView>)
    requires
        all_storable(w),
        index.len() == w.len(),
        forall|j: int|
            0 <= j < w.len() ==> (#[trigger] index[j]).key@ == w[j].key && index[j].offset
                == offset_of(w, j),
        forall|j: int|
            0 <= j < w.len() ==> live(w).contains_key((#[trigger] w[j]).key) && live(w)[w[j].key]
                == j,
    ensures
        index_ok(index, w),
{
    reveal(index_ok);
    lemma_live_points(w);
    assert forall|j: int| 0 <= j < index.len() implies live(w).contains_key(
        (#[trigger] index[j]).key@,
    ) && index[j].offset == offset_of(w, live(w)[index[j].key@] as int) by {
        assert(live(w).contains_key(w[j].key));
    }
    assert forall|k: Seq<char>| #[trigger] live(w).contains_key(k) implies exists|j: int|
        0 <= j < index.len() && (#[trigger] index[j]).key@ == k by {
        let j = live(w)[k] as int;
        assert(index[j].key@ == k);
    }
    assert forall|a: int, b: int| 0 <= a < b < index.len() implies (#[trigger] index[a]).key@ != (
    #[trigger] index[b]).key@ by {
        assert(live(w)[w[a].key] == a);
        assert(live(w)[w[b].key] == b);
    }
}

impl View for DataStore {
    type V = Map<Seq<char>, ValueView>;

    /// The logical state: each live key with its value.
    closed spec fn view(&self) -> Map<Seq<char>, ValueView> {
        contents(self.recs@)
    }
}

impl DataStore {
    /// The records of the log, in the order in which they were appended.
    pub closed spec fn records(&self) -> Seq<EntryView> {
        self.recs@
    }

    /// The path of the store's file.
    pub closed spec fn path_view(&self) -> Seq<char> {
        self.path@
    }

    /// The bytes of the log: what the file holds once it is synced.
    pub closed spec fn log_view(&self) -> Seq<u8> {
        self.log@
    }

    /// The uncompacted-byte counter.
    pub closed spec fn uncompacted_view(&self) -> nat {
        self.uncompacted as nat
    }

    /// The write cursor.
    pub closed spec fn position_view(&self) -> nat {
        self.position as nat
    }

    /// The number of uncompacted bytes at which an append compacts first.
    pub closed spec fn threshold_view(&self) -> nat {
        self.threshold as nat
    }

    /// The offset from which the log is not yet written to the file.
    pub closed spec fn synced_view(&self) -> nat {
        self.synced as nat
    }

    /// Whether the file has to be replaced as a whole.
    pub closed spec fn rewritten_view(&self) -> bool {
        self.rewritten
    }

    /// The live keys in the order of the index, which the listings follow.
    pub closed spec fn key_order(&self) -> Seq<Seq<char>> {
        Seq::new(self.index@.len(), |j: int| self.index@[j].key@)
    }

    /// The replayed part of the log, up to the write cursor, is the layout
    /// of the records, and index and counter are what replaying them gives.
    pub closed spec fn inv(&self) -> bool {
        &&& all_storable(self.recs@)
        &&& self.position <= self.log@.len()
        &&& self.log@.subrange(0, self.position as int) == log_bytes(self.recs@)
        &&& self.uncompacted == dead(self.recs@)
        &&& index_ok(self.index@, self.recs@)
        &&& self.synced <= self.position
    }

    /// The invariant of a store: all of its log is replayed.
    pub closed spec fn wf(&self) -> bool {
        &&& self.inv()
        &&& self.position == self.log@.len()
    }

    /// What the invariant says in terms of the log model.
    pub proof fn lemma_wf(&self)
        requires
            self.wf(),
        ensures
            all_storable(self.records()),
            self.log_view() == log_bytes(self.records()),
            self@ == contents(self.records()),
            self.uncompacted_view() == dead(self.records()),
            self.uncompacted_view() <= self.log_view().len(),
            self.position_view() == self.log_view().len(),
            self.synced_view() <= self.log_view().len(),
            parse_log(self.log_view()) == Ok::<Seq<EntryView>, KvError>(self.records()),
            self.key_order().no_duplicates(),
            self.key_order().to_set() == self@.dom(),
    {
        reveal(index_ok);
        assert(self.log@.subrange(0, self.log@.len() as int) =~= self.log@);
        lemma_dead_and_live(self.recs@);
        crate::store::log::lemma_parse_log_of_log_bytes(self.recs@, 0);
        assert(self.recs@.take(0) =~= Seq::<EntryView>::empty());
        assert(self.recs@.subrange(0, self.recs@.len() as int) =~= self.recs@);
        let order = self.key_order();
        assert forall|i: int, j: int| 0 <= i < order.len() && 0 <= j < order.len() && i != j
            implies order[i] != order[j] by {
            if i < j {
                assert(self.index@[i].key@ != self.index@[j].key@);
            } else {
                assert(self.index@[j].key@ != self.index@[i].key@);
            }
        }
        assert forall|k: Seq<char>| order.to_set().contains(k) <==> self@.dom().contains(k) by {
            if order.to_set().contains(k) {
                let j = choose|j: int| 0 <= j < order.len() && order[j] == k;
                assert(live(self.recs@).contains_key(self.index@[j].key@));
            }
            if self@.dom().contains(k) {
                assert(live(self.recs@).contains_key(k));
                let j = choose|j: int|
                    0 <= j < self.index@.len() && (#[trigger] self.index@[j]).key@ == k;
                assert(order[j] == k);
            }
        }
        assert(order.to_set() =~= self@.dom());
    }

    /// The slot of `key` in the index, if the key is live.
    fn find(&self, key: &String) -> (r: Option<usize>)
        ensures
            match r {
                Some(j) => j < self.index@.len() && self.index@[j as int].key@ == key@,
                None => forall|j: int|
                    0 <= j < self.index@.len() ==> (#[trigger] self.index@[j]).key@ != key@,
            },
    {
        let mut i: usize = 0;
        while i < self.index.len()
            invariant
                i <= self.index@.len(),
                forall|j: int| 0 <= j < i ==> (#[trigger] self.index@[j]).key@ != key@,
            decreases self.index@.len() - i,
        {
            if self.index[i].key == *key {
                return Some(i);
            }
            i += 1;
        }
        None
    }

    /// Reads the record that starts at `offset`.  At or beyond the end of
    /// the log there is none, which is `EOF`; bytes that are no record are
    /// reported as the fault they show.
    pub fn read_with_offset(&self, offset: u64) -> (r: core::result::Result<Entry, KvError>)
        ensures
            offset >= self.log_view().len() ==> r == Err::<Entry, KvError>(KvError::EOF),
            offset < self.log_view().len() ==> match parse_record(
                self.log_view().subrange(offset as int, self.log_view().len() as int),
            ) {
                Ok((view, used)) => r matches Ok(entry) && entry@ == view && entry.well_sized()
                    && used == record_size(view) && offset + used <= self.log_view().len(),
                Err(e) => r == Err::<Entry, KvError>(e),
            },
    {
        if offset >= self.log.len() as u64 {
            return Err(KvError::EOF);
        }
        Entry::decode_at(self.log.as_slice(), offset as usize)
    }

    /// Takes the record at the write cursor into index and counter, and
    /// moves the cursor behind it.
    fn note_record(&mut self, entry: Entry)
        requires
            old(self).inv(),
            entry.well_sized(),
            old(self).position + record_size(entry@) <= old(self).log@.len(),
            old(self).log@.subrange(
                old(self).position as int,
                old(self).position + record_size(entry@),
            ) == record_bytes(entry@),
        ensures
            final(self).inv(),
            final(self).recs@ == old(self).recs@.push(entry@),
            final(self).position == old(self).position + record_size(entry@),
            final(self).log == old(self).log,
            final(self).path == old(self).path,
            final(self).threshold == old(self).threshold,
            final(self).synced == old(self).synced,
            final(self).rewritten == old(self).rewritten,
    {
        let ghost before = self.recs@;
        let ghost r = entry@;
        let ghost after = before.push(r);
        let ghost start = self.index@;
        let ghost log = self.log@;
        let len: usize = self.log.len();
        proof {
            lemma_live_push(before, r);
            lemma_log_push(before, r);
            lemma_record_round_trip(r, Seq::<u8>::empty());
            assert(all_storable(after)) by {
                assert forall|i: int| 0 <= i < after.len() implies storable(
                    #[trigger] after[i],
                ) by {
                    if i < before.len() {
                        assert(after[i] == before[i]);
                    }
                }
            }
            assert(log.subrange(0, self.position + record_size(r)) =~= log_bytes(before)
                + record_bytes(r));
            lemma_dead_and_live(after);
            lemma_offset_push(before, r, before.len() as int);
            assert(before.take(before.len() as int) =~= before);
        }
        let size = entry.size() as u64;
        let command = entry.command();
        let slot = self.find(entry.key());
        let mut gone: u64 = 0;
        match slot {
            Some(j) => {
                proof {
                    lemma_slot(start, before, j as int);
                    lemma_read_at(log, before, live(before)[r.key] as int);
                }
                match self.read_with_offset(self.index[j].offset) {
                    Ok(old) => {
                        gone = old.size() as u64;
                    },
                    Err(_) => {
                        assert(false);
                    },
                }
            },
            None => {
                proof {
                    lemma_no_slot(start, before, r.key);
                }
            },
        }
        assert(gone == crate::store::log::superseded(before, r));
        let at = self.position;
        let (key, _) = entry.into_parts();
        match command {
            Command::Add => {
                let fresh = IndexSlot { key, offset: at };
                match slot {
                    Some(j) => {
                        self.index.set(j, fresh);
                        proof {
                            lemma_index_set(start, before, r, j as int, fresh);
                        }
                    },
                    None => {
                        self.index.push(fresh);
                        proof {
                            lemma_index_push(start, before, r, fresh);
                        }
                    },
                }
                self.uncompacted = self.uncompacted + gone;
            },
            Command::Delete => {
                match slot {
                    Some(j) => {
                        self.index.remove(j);
                        proof {
                            lemma_index_remove(start, before, r, j as int);
                        }
                    },
                    None => {
                        proof {
                            lemma_index_keep(start, before, r);
                        }
                    },
                }
                self.uncompacted = self.uncompacted + gone + size;
            },
        }
        self.position = self.position + size;
        self.recs = Ghost(after);
    }

    /// Replays the log from the write cursor to its end.
    fn load_hashmap(&mut self) -> (r: core::result::Result<(), KvError>)
        requires
            old(self).inv(),
            old(self).position == 0,
            old(self).recs@ == Seq::<EntryView>::empty(),
        ensures
            final(self).log == old(self).log,
            final(self).path == old(self).path,
            final(self).threshold == old(self).threshold,
            final(self).rewritten == old(self).rewritten,
            final(self).synced == old(self).synced,
            match parse_log(old(self).log@) {
                Ok(recs) => r is Ok && final(self).wf() && final(self).recs@ == recs,
                Err(e) => r == Err::<(), KvError>(e),
            },
    {
        let ghost log = self.log@;
        assert(log.subrange(0, log.len() as int) =~= log);
        assert(self.recs@ + Seq::<EntryView>::empty() =~= self.recs@);
        loop
            invariant
                self.inv(),
                self.log@ == log,
                self.log == old(self).log,
                self.path == old(self).path,
                self.threshold == old(self).threshold,
                self.rewritten == old(self).rewritten,
                self.synced == old(self).synced,
                parse_log(log) == match parse_log(
                    log.subrange(self.position as int, log.len() as int),
                ) {
                    Ok(rest) => Ok::<Seq<EntryView>, KvError>(self.recs@ + rest),
                    Err(e) => Err(e),
                },
            ensures
                self.position == log.len(),
            decreases log.len() - self.position,
        {
            let ghost here = log.subrange(self.position as int, log.len() as int);
            let ghost done = self.recs@;
            let ghost at = self.position;
            proof {
                lemma_parse_record_canonical(here);
            }
            match self.read_with_offset(self.position) {
                Ok(entry) => {
                    proof {
                        let used = record_size(entry@);
                        assert(here.subrange(0, used as int) =~= log.subrange(
                            at as int,
                            at + used,
                        ));
                        assert(here.subrange(used as int, here.len() as int) =~= log.subrange(
                            at + used,
                            log.len() as int,
                        ));
                        match parse_log(log.subrange(at + used, log.len() as int)) {
                            Ok(rest) => {
                                assert(done + (seq![entry@] + rest) =~= done.push(entry@) + rest);
                            },
                            Err(_) => {},
                        }
                    }
                    self.note_record(entry);
                },
                Err(KvError::EOF) => {
                    break ;
                },
                Err(e) => {
                    return Err(e);
                },
            }
        }
        proof {
            assert(log.subrange(log.len() as int, log.len() as int) =~= Seq::<u8>::empty());
            assert(self.recs@ + Seq::<EntryView>::empty() =~= self.recs@);
        }
        Ok(())
    }

    /// Opens the store whose file is at `path` and holds `bytes`, with the
    /// given compaction threshold, by replaying the whole log.
    pub fn open_with_threshold(path: &str, bytes: Vec<u8>, threshold: u64) -> (r:
        core::result::Result<DataStore, KvError>)
        ensures
            match parse_log(bytes@) {
                Ok(recs) => r matches Ok(store) && store.wf() && store.records() == recs
                    && store.log_view() == bytes@ && store.path_view() == path@ && store.threshold_view()
                    == threshold && store.synced_view() == bytes@.len() && !store.rewritten_view(),
                Err(e) => r matches Err(err) && err == e,
            },
    {
        let mut store = DataStore {
            path: path.to_owned(),
            log: bytes,
            index: Vec::new(),
            position: 0,
            uncompacted: 0,
            threshold,
            synced: 0,
            rewritten: false,
            recs: Ghost(Seq::empty()),
        };
        proof {
            reveal(index_ok);
            assert(store.log@.subrange(0, 0) =~= log_bytes(Seq::<EntryView>::empty()));
        }
        match store.load_hashmap() {
            Ok(()) => {
                store.synced = store.position;
                Ok(store)
            },
            Err(e) => Err(e),
        }
    }

    /// Opens the store whose file is at `path` and holds `bytes`.  The
    /// bytes of a file that does not exist yet are none.  Fails with the
    /// fault of the first record that cannot be read.
    pub fn open(path: &str, bytes: Vec<u8>) -> (r: core::result::Result<DataStore, KvError>)
        ensures
            match parse_log(bytes@) {
                Ok(recs) => r matches Ok(store) && store.wf() && store.records() == recs
                    && store.log_view() == bytes@ && store.path_view() == path@ && store.threshold_view()
                    == COMPACTION_THRESHOLD && store.synced_view() == bytes@.len()
                    && !store.rewritten_view(),
                Err(e) => r matches Err(err) && err == e,
            },
    {
        Self::open_with_threshold(path, bytes, COMPACTION_THRESHOLD)
    }

    /// The record of `key`'s slot.
    fn read(&self, key: &String) -> (r: core::result::Result<Entry, KvError>)
        requires
            self.wf(),
        ensures
            match r {
                Ok(entry) => self@.contains_key(key@) && entry@ == (EntryView {
                    command: Command::Add,
                    key: key@,
                    value: self@[key@],
                }) && entry.well_sized(),
                Err(e) => !self@.contains_key(key@) && e == KvError::EOF,
            },
    {
        match self.find(key) {
            Some(j) => {
                proof {
                    lemma_slot(self.index@, self.recs@, j as int);
                    lemma_read_at(self.log@, self.recs@, live(self.recs@)[key@] as int);
                }
                match self.read_with_offset(self.index[j].offset) {
                    Ok(entry) => Ok(entry),
                    Err(_) => {
                        assert(false);
                        Err(KvError::EOF)
                    },
                }
            },
            None => {
                proof {
                    lemma_no_slot(self.index@, self.recs@, key@);
                }
                Err(KvError::EOF)
            },
        }
    }

    /// The value stored under `key`, or `KeyNotFound` where the key is not
    /// live.
    pub fn get(&self, key: String) -> (r: core::result::Result<Value, KvError>)
        requires
            self.wf(),
        ensures
            match r {
                Ok(value) => self@.contains_key(key@) && value@ == self@[key@],
                Err(e) => !self@.contains_key(key@) && e == KvError::KeyNotFound(key),
            },
    {
        match self.read(&key) {
            Ok(entry) => {
                let (_, value) = entry.into_parts();
                Ok(value)
            },
            Err(_) => Err(KvError::KeyNotFound(key)),
        }
    }

    /// Whether `key` is live.
    pub fn contains(&self, key: &String) -> (b: bool)
        requires
            self.wf(),
        ensures
            b == self@.contains_key(key@),
    {
        match self.find(key) {
            Some(j) => {
                proof {
                    lemma_slot(self.index@, self.recs@, j as int);
                }
                true
            },
            None => {
                proof {
                    lemma_no_slot(self.index@, self.recs@, key@);
                }
                false
            },
        }
    }

    /// The winning record of every live key, in the order of the index.
    pub fn get_all_entry(&self) -> (r: core::result::Result<Vec<Entry>, KvError>)
        requires
            self.wf(),
        ensures
            r matches Ok(entries) && entries@.len() == self.key_order().len() && forall|j: int|
                0 <= j < entries@.len() ==> self@.contains_key(self.key_order()[j])
                    && (#[trigger] entries@[j])@ == (EntryView {
                    command: Command::Add,
                    key: self.key_order()[j],
                    value: self@[self.key_order()[j]],
                }),
    {
        let mut data: Vec<Entry> = Vec::new();
        let mut i: usize = 0;
        while i < self.index.len()
            invariant
                self.wf(),
                i <= self.index@.len(),
                data@.len() == i,
                forall|j: int|
                    0 <= j < i ==> self@.contains_key(self.key_order()[j]) && (#[trigger] data@[j])@
                        == (EntryView {
                        command: Command::Add,
                        key: self.key_order()[j],
                        value: self@[self.key_order()[j]],
                    }),
            decreases self.index@.len() - i,
        {
            proof {
                lemma_slot(self.index@, self.recs@, i as int);
                lemma_read_at(
                    self.log@,
                    self.recs@,
                    live(self.recs@)[self.index@[i as int].key@] as int,
                );
            }
            match self.read_with_offset(self.index[i].offset) {
                Ok(entry) => {
                    data.push(entry);
                },
                Err(e) => {
                    assert(false);
                    return Err(e);
                },
            }
            i += 1;
        }
        Ok(data)
    }

    /// The value of every live key, in the order of the index.
    pub fn get_all_value(&self) -> (r: core::result::Result<Vec<Value>, KvError>)
        requires
            self.wf(),
        ensures
            r matches Ok(values) && values@.len() == self.key_order().len() && forall|j: int|
                0 <= j < values@.len() ==> self@.contains_key(self.key_order()[j])
                    && (#[trigger] values@[j]).view() == self@[self.key_order()[j]],
    {
        let mut data: Vec<Value> = Vec::new();
        let mut i: usize = 0;
        while i < self.index.len()
            invariant
                self.wf(),
                i <= self.index@.len(),
                data@.len() == i,
                forall|j: int| 0 <= j < i ==> self@.contains_key(#[trigger] self.key_order()[j]),
                forall|j: int| 0 <= j < i ==> (#[trigger] data@[j])@ == self@[self.key_order()[j]],
            decreases self.index@.len() - i,
        {
            proof {
                lemma_slot(self.index@, self.recs@, i as int);
                lemma_read_at(
                    self.log@,
                    self.recs@,
                    live(self.recs@)[self.index@[i as int].key@] as int,
                );
            }
            let entry = match self.read_with_offset(self.index[i].offset) {
                Ok(entry) => entry,
                Err(e) => {
                    assert(false);
                    return Err(e);
                },
            };
            let (_, value) = entry.into_parts();
            data.push(value);
            i += 1;
        }
        Ok(data)
    }

    /// Rewrites the log so that it holds the winning records and none else.
    fn compact_log(&mut self)
        requires
            old(self).wf(),
        ensures
            final(self).wf(),
            final(self).recs@ == winners(old(self).recs@),
            final(self).uncompacted == 0,
            final(self).synced == 0,
            final(self).rewritten,
            final(self).path == old(self).path,
            final(self).threshold == old(self).threshold,
    {
        let ghost recs = self.recs@;
        let ghost log = self.log@;
        let len: usize = self.log.len();
        let mut new_log: Vec<u8> = Vec::new();
        let mut new_index: Vec<IndexSlot> = Vec::new();
        let mut offset: u64 = 0;
        let ghost mut i: nat = 0;
        proof {
            assert(recs.take(0) =~= Seq::<EntryView>::empty());
            assert(log.subrange(0, log.len() as int) =~= log);
            lemma_log_prefix(recs, recs.len() as int);
        }
        while offset < self.position
            invariant
                self.wf(),
                log.len() <= usize::MAX,
                self.recs@ == recs,
                self.log@ == log,
                i <= recs.len(),
                offset == offset_of(recs, i as int),
                new_log@ == log_bytes(winners_upto(recs, i)),
                new_index@.len() == winners_upto(recs, i).len(),
                forall|j: int|
                    0 <= j < new_index@.len() ==> (#[trigger] new_index@[j]).key@ == winners_upto(
                        recs,
                        i,
                    )[j].key && new_index@[j].offset == offset_of(winners_upto(recs, i), j),
            decreases recs.len() - i,
        {
            let ghost w = winners_upto(recs, i);
            proof {
                if i == recs.len() {
                    assert(recs.take(recs.len() as int) =~= recs);
                }
                lemma_read_at(log, recs, i as int);
                lemma_winners_upto(recs, i);
            }
            match self.read_with_offset(offset) {
                Ok(entry) => {
                    let size = entry.size() as u64;
                    let slot = self.find(entry.key());
                    let winner = match slot {
                        Some(j) => {
                            proof {
                                lemma_slot(self.index@, recs, j as int);
                                let at = live(recs)[recs[i as int].key] as int;
                                if at < i {
                                    lemma_offsets_increase(recs, at, i as int);
                                }
                                if i < at {
                                    lemma_offsets_increase(recs, i as int, at);
                                }
                            }
                            self.index[j].offset == offset
                        },
                        None => {
                            proof {
                                lemma_no_slot(self.index@, recs, recs[i as int].key);
                            }
                            false
                        },
                    };
                    assert(winner == wins(recs, live(recs), i as int));
                    if winner {
                        let at = new_log.len() as u64;
                        let bytes = copy_range(
                            self.log.as_slice(),
                            offset as usize,
                            (offset + size) as usize,
                        );
                        append_bytes(&mut new_log, bytes.as_slice());
                        let (key, _) = entry.into_parts();
                        new_index.push(IndexSlot { key, offset: at });
                        proof {
                            let next = w.push(recs[i as int]);
                            lemma_log_push(w, recs[i as int]);
                            assert(next.take(w.len() as int) =~= w);
                            assert forall|j: int| 0 <= j < new_index@.len() implies (
                            #[trigger] new_index@[j]).key@ == next[j].key && new_index@[j].offset
                                == offset_of(next, j) by {
                                if j < w.len() {
                                    lemma_offset_push(w, recs[i as int], j);
                                }
                            }
                        }
                    }
                    offset = offset + size;
                    proof {
                        i = i + 1;
                    }
                },
                Err(_) => {
                    assert(false);
                },
            }
        }
        proof {
            if i < recs.len() {
                lemma_offsets_increase(recs, i as int, recs.len() as int);
            }
            lemma_compaction(recs);
            lemma_index_of_winners(new_index@, winners(recs));
            assert(new_log@.subrange(0, new_log@.len() as int) =~= new_log@);
        }
        self.position = new_log.len() as u64;
        self.log = new_log;
        self.index = new_index;
        self.uncompacted = 0;
        self.synced = 0;
        self.rewritten = true;
        self.recs = Ghost(winners(recs));
    }

    /// Compacts where the uncompacted bytes have reached the threshold,
    /// then appends the bytes of `entry` behind the write cursor.
    fn write(&mut self, entry: &Entry) -> (size: u64)
        requires
            old(self).wf(),
            entry.well_sized(),
        ensures
            final(self).inv(),
            final(self).recs@ == (if old(self).uncompacted >= old(self).threshold {
                winners(old(self).recs@)
            } else {
                old(self).recs@
            }),
            final(self).log@ == log_bytes(final(self).recs@) + record_bytes(entry@),
            final(self).position == log_bytes(final(self).recs@).len(),
            size == record_size(entry@),
            final(self).path == old(self).path,
            final(self).threshold == old(self).threshold,
            final(self).rewritten == (old(self).rewritten || old(self).uncompacted >= old(self).threshold),
            final(self).synced == (if old(self).uncompacted >= old(self).threshold {
                0
            } else {
                old(self).synced
            }),
    {
        if self.uncompacted >= self.threshold {
            self.compact_log();
        }
        let ghost before = self.log@;
        proof {
            assert(before.subrange(0, before.len() as int) =~= before);
            lemma_record_round_trip(entry@, Seq::<u8>::empty());
        }
        match entry.encode() {
            Ok(buf) => {
                append_bytes(&mut self.log, buf.as_slice());
                assert(self.log@.subrange(0, self.position as int) =~= before);
                buf.len() as u64
            },
            Err(_) => {
                assert(false);
                0
            },
        }
    }

    /// Stores `value` under `key`.  Where the uncompacted bytes have
    /// reached the threshold the log is compacted first; then an `Add`
    /// record is appended, and the record that `key` had, if any, is dead.
    pub fn add(&mut self, key: String, value: Value) -> (r: core::result::Result<(), KvError>)
        requires
            old(self).wf(),
        ensures
            r is Ok,
            final(self).wf(),
            final(self)@ == old(self)@.insert(key@, value@),
            final(self).records() == (if old(self).uncompacted_view() >= old(self).threshold_view() {
                winners(old(self).records())
            } else {
                old(self).records()
            }).push(EntryView { command: Command::Add, key: key@, value: value@ }),
            final(self).path_view() == old(self).path_view(),
            final(self).threshold_view() == old(self).threshold_view(),
            final(self).rewritten_view() == (old(self).rewritten_view() || old(self).uncompacted_view() >= old(self).threshold_view()),
            final(self).synced_view() == (if old(self).uncompacted_view() >= old(self).threshold_view() {
                0
            } else {
                old(self).synced_view()
            }),
    {
        let value_size = value.to_bytes().len();
        let ghost rec = EntryView { command: Command::Add, key: key@, value: value@ };
        let entry = Entry::add(key, value, value_size);
        proof {
            lemma_compaction(self.recs@);
            lemma_record_round_trip(rec, Seq::<u8>::empty());
        }
        let _ = self.write(&entry);
        proof {
            let base = self.recs@;
            lemma_contents_push(base, rec);
            assert(self.log@.subrange(
                self.position as int,
                self.position + record_size(rec),
            ) =~= record_bytes(rec));
        }
        self.note_record(entry);
        Ok(())
    }

    /// Takes `key` out of the store.  Deleting a key that is not live
    /// fails with `KeyNotFound` and changes nothing.  Otherwise the log is
    /// compacted first where the uncompacted bytes have reached the
    /// threshold; then a tombstone is appended, and both it and the record
    /// that `key` had are dead.
    pub fn delete(&mut self, key: String) -> (r: core::result::Result<(), KvError>)
        requires
            old(self).wf(),
        ensures
            final(self).wf(),
            match r {
                Ok(_) => old(self)@.contains_key(key@) && final(self)@ == old(self)@.remove(key@)
                    && final(self).records() == (if old(self).uncompacted_view() >= old(self).threshold_view() {
                    winners(old(self).records())
                } else {
                    old(self).records()
                }).push(EntryView { command: Command::Delete, key: key@, value: ValueView::Null }),
                Err(e) => !old(self)@.contains_key(key@) && e == KvError::KeyNotFound(key)
                    && *final(self) == *old(self),
            },
            final(self).path_view() == old(self).path_view(),
            final(self).threshold_view() == old(self).threshold_view(),
            r is Ok ==> final(self).rewritten_view() == (old(self).rewritten_view() || old(self).uncompacted_view() >= old(self).threshold_view()),
            r is Ok ==> final(self).synced_view() == (if old(self).uncompacted_view() >= old(self).threshold_view() {
                0
            } else {
                old(self).synced_view()
            }),
    {
        if !self.contains(&key) {
            return Err(KvError::KeyNotFound(key));
        }
        let ghost rec = EntryView { command: Command::Delete, key: key@, value: ValueView::Null };
        let entry = Entry::delete(key);
        proof {
            lemma_compaction(self.recs@);
            lemma_record_round_trip(rec, Seq::<u8>::empty());
        }
        let _ = self.write(&entry);
        proof {
            let base = self.recs@;
            lemma_contents_push(base, rec);
            assert(self.log@.subrange(
                self.position as int,
                self.position + record_size(rec),
            ) =~= record_bytes(rec));
        }
        self.note_record(entry);
        Ok(())
    }

    /// Rewrites the log so that it holds the winning record of each live
    /// key and nothing else.  The logical state stays as it is, the
    /// uncompacted bytes are none afterwards, and the log shrinks by
    /// exactly the bytes that were uncompacted.
    pub fn compact(&mut self) -> (r: core::result::Result<(), KvError>)
        requires
            old(self).wf(),
        ensures
            r is Ok,
            final(self).wf(),
            final(self)@ == old(self)@,
            final(self).records() == winners(old(self).records()),
            final(self).uncompacted_view() == 0,
            final(self).log_view().len() + old(self).uncompacted_view() == old(self).log_view().len(),
            final(self).rewritten_view(),
            final(self).synced_view() == 0,
            final(self).path_view() == old(self).path_view(),
            final(self).threshold_view() == old(self).threshold_view(),
    {
        proof {
            lemma_compaction(self.recs@);
            assert(self.log@.subrange(0, self.log@.len() as int) =~= self.log@);
        }
        self.compact_log();
        proof {
            assert(self.log@.subrange(0, self.log@.len() as int) =~= self.log@);
        }
        Ok(())
    }

    /// The display name of the type of `value`.
    pub fn type_of(value: Value) -> (name: String)
        ensures
            name@ == type_label(value@),
    {
        match value {
            Value::Null => "Null".to_owned(),
            Value::Bool(_) => "Bool".to_owned(),
            Value::Int32(_) => "Int".to_owned(),
            Value::Int64(_) => "Long".to_owned(),
            Value::Float32(_) => "Float".to_owned(),
            Value::Float64(_) => "Double".to_owned(),
            Value::String(_) => "String".to_owned(),
            Value::Char(_) => "Char".to_owned(),
            Value::Array(_) => "Array".to_owned(),
        }
    }

    /// The path of the store's file.
    pub fn path(&self) -> (path: String)
        ensures
            path@ == self.path_view(),
    {
        self.path.clone()
    }

    /// The bytes of the log.
    pub fn log(&self) -> (bytes: &Vec<u8>)
        ensures
            bytes@ == self.log_view(),
    {
        &self.log
    }

    /// The write cursor: the offset at which the next record starts.
    pub fn position(&self) -> (position: u64)
        ensures
            position == self.position_view(),
    {
        self.position
    }

    /// The uncompacted-byte counter.
    pub fn uncompacted(&self) -> (bytes: u64)
        ensures
            bytes == self.uncompacted_view(),
    {
        self.uncompacted
    }

    /// The number of live keys.
    pub fn len(&self) -> (n: usize)
        ensures
            n == self.key_order().len(),
    {
        self.index.len()
    }

    /// Whether the file has to be replaced as a whole by the bytes of the
    /// log, because a compaction rewrote them.
    pub fn needs_rewrite(&self) -> (b: bool)
        ensures
            b == self.rewritten_view(),
    {
        self.rewritten
    }

    /// The bytes of the log that are not yet written to the file; after a
    /// compaction, all of them.
    pub fn unsynced(&self) -> (bytes: Vec<u8>)
        requires
            self.wf(),
        ensures
            bytes@ == self.log_view().subrange(
                self.synced_view() as int,
                self.log_view().len() as int,
            ),
    {
        copy_range(self.log.as_slice(), self.synced as usize, self.log.len())
    }

    /// Records that the file now holds the bytes of the log.
    pub fn mark_synced(&mut self)
        requires
            old(self).wf(),
        ensures
            final(self).wf(),
            final(self).synced_view() == final(self).log_view().len(),
            !final(self).rewritten_view(),
            final(self)@ == old(self)@,
            final(self).records() == old(self).records(),
            final(self).log_view() == old(self).log_view(),
            final(self).uncompacted_view() == old(self).uncompacted_view(),
            final(self).path_view() == old(self).path_view(),
            final(self).threshold_view() == old(self).threshold_view(),
    {
        self.synced = self.position;
        self.rewritten = false;
    }
}

/// The display name of each type of value.
pub open spec fn type_label(v: ValueView) -> Seq<char> {
    match v {
        ValueView::Null => "Null"@,
        ValueView::Bool(_) => "Bool"@,
        ValueView::Int32(_) => "Int"@,
        ValueView::Int64(_) => "Long"@,
        ValueView::Float32(_) => "Float"@,
        ValueView::Float64(_) => "Double"@,
        ValueView::String(_) => "String"@,
        ValueView::Char(_) => "Char"@,
        ValueView::Array(_) => "Array"@,
    }
}

} // verus!

