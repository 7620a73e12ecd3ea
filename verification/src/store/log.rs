//! The log as mathematics: what a sequence of records means.
//!
//! A log is the records that were appended, in order.  Replaying them from
//! the first gives the live keys, each with the position of its winning
//! record, and the number of bytes taken by records that no longer win.
use vstd::prelude::*;
use crate::store::kv_error::KvError;
use crate::store::record::{
    Command, EntryView, record_bytes, record_size, parse_record, storable,
    lemma_record_round_trip, lemma_parse_record_canonical,
};
use crate::store::value::ValueView;

verus! {

/// The bytes of a log: its records one after the other.
pub open spec fn log_bytes(recs: Seq<EntryView>) -> Seq<u8>
    decreases recs.len(),
{
    if recs.len() == 0 {
        Seq::empty()
    } else {
        log_bytes(recs.drop_last()) + record_bytes(recs.last())
    }
}

/// The records that `b` holds from its first byte to its last, or the
/// fault that stops the replay.
pub open spec fn parse_log(b: Seq<u8>) -> core::result::Result<Seq<EntryView>, KvError>
    decreases b.len(),
{
    if b.len() == 0 {
        Ok(Seq::empty())
    } else {
        match parse_record(b) {
            Ok((r, used)) => if 0 < used <= b.len() {
                match parse_log(b.subrange(used as int, b.len() as int)) {
                    Ok(rest) => Ok(seq![r] + rest),
                    Err(e) => Err(e),
                }
            } else {
                Err(KvError::TruncatedRecord)
            },
            Err(e) => Err(e),
        }
    }
}

/// Whether every record of the log can be written.
pub open spec fn all_storable(recs: Seq<EntryView>) -> bool {
    forall|i: int| 0 <= i < recs.len() ==> storable(#[trigger] recs[i])
}

/// The offset at which record number `i` starts.
pub open spec fn offset_of(recs: Seq<EntryView>, i: int) -> nat {
    log_bytes(recs.take(i)).len()
}

/// The live keys after replay, each with the number of its winning record.
pub open spec fn live(recs: Seq<EntryView>) -> Map<Seq<char>, nat>
    decreases recs.len(),
{
    if recs.len() == 0 {
        Map::empty()
    } else {
        let before = live(recs.drop_last());
        let r = recs.last();
        match r.command {
            Command::Add => before.insert(r.key, (recs.len() - 1) as nat),
            Command::Delete => before.remove(r.key),
        }
    }
}

/// The bytes of the record that `r` supersedes, given the live keys before
/// it and the log they point into.
pub open spec fn superseded(before: Seq<EntryView>, r: EntryView) -> nat {
    if live(before).contains_key(r.key) {
        record_size(before[live(before)[r.key] as int])
    } else {
        0
    }
}

/// The uncompacted bytes after replay: the sizes of every superseded `Add`
/// and of every `Delete`.
pub open spec fn dead(recs: Seq<EntryView>) -> nat
    decreases recs.len(),
{
    if recs.len() == 0 {
        0
    } else {
        let before = recs.drop_last();
        let r = recs.last();
        dead(before) + superseded(before, r) + match r.command {
            Command::Add => 0,
            Command::Delete => record_size(r),
        }
    }
}

/// The logical state after replay: each live key with its value.
pub open spec fn contents(recs: Seq<EntryView>) -> Map<Seq<char>, ValueView> {
    Map::new(
        |k: Seq<char>| live(recs).contains_key(k),
        |k: Seq<char>| recs[live(recs)[k] as int].value,
    )
}

/// Whether record number `i` is the winning record of its key under `m`.
pub open spec fn wins(recs: Seq<EntryView>, m: Map<Seq<char>, nat>, i: int) -> bool {
    m.contains_key(recs[i].key) && m[recs[i].key] == i
}

/// The bytes of the winning records among the first `n`, under `m`.
pub open spec fn live_size(recs: Seq<EntryView>, m: Map<Seq<char>, nat>, n: nat) -> nat
    decreases n,
{
    if n == 0 {
        0
    } else {
        live_size(recs, m, (n - 1) as nat) + if wins(recs, m, n - 1) {
            record_size(recs[n - 1])
        } else {
            0
        }
    }
}

/// The winning records among the first `n`, in their order.
pub open spec fn winners_upto(recs: Seq<EntryView>, n: nat) -> Seq<EntryView>
    decreases n,
{
    if n == 0 {
        Seq::empty()
    } else {
        let before = winners_upto(recs, (n - 1) as nat);
        if wins(recs, live(recs), n - 1) {
            before.push(recs[n - 1])
        } else {
            before
        }
    }
}

/// What compaction keeps: the winning records, in their order.
pub open spec fn winners(recs: Seq<EntryView>) -> Seq<EntryView> {
    winners_upto(recs, recs.len())
}

/// Appending a record appends its bytes.
pub proof fn lemma_log_push(recs: Seq<EntryView>, r: EntryView)
    ensures
        log_bytes(recs.push(r)) == log_bytes(recs) + record_bytes(r),
{
    assert(recs.push(r).drop_last() =~= recs);
}

/// The first `n` records are the front of the log, and each record adds
/// its size to the offset of the next.
pub proof fn lemma_log_prefix(recs: Seq<EntryView>, n: int)
    requires
        0 <= n <= recs.len(),
        all_storable(recs),
    ensures
        offset_of(recs, n) <= log_bytes(recs).len(),
        log_bytes(recs).subrange(0, offset_of(recs, n) as int) == log_bytes(recs.take(n)),
        n < recs.len() ==> offset_of(recs, n + 1) == offset_of(recs, n) + record_size(recs[n]),
        n < recs.len() ==> log_bytes(recs.take(n + 1)) == log_bytes(recs.take(n)) + record_bytes(
            recs[n],
        ),
        offset_of(recs, recs.len() as int) == log_bytes(recs).len(),
    decreases recs.len(),
{
    assert(recs.take(recs.len() as int) =~= recs);
    if n == recs.len() {
        assert(log_bytes(recs).subrange(0, log_bytes(recs).len() as int) =~= log_bytes(recs));
    } else {
        let init = recs.drop_last();
        assert(all_storable(init)) by {
            assert forall|i: int| 0 <= i < init.len() implies storable(#[trigger] init[i]) by {
                assert(init[i] == recs[i]);
            }
        }
        lemma_log_prefix(init, n);
        assert(init.take(n) =~= recs.take(n));
        assert(log_bytes(recs).subrange(0, offset_of(recs, n) as int) =~= log_bytes(init).subrange(
            0,
            offset_of(init, n) as int,
        ));
        let next = recs.take(n + 1);
        assert(next.drop_last() =~= recs.take(n));
        assert(next.last() == recs[n]);
        lemma_record_round_trip(recs[n], Seq::<u8>::empty());
    }
}

/// Offsets grow with the record number.
pub proof fn lemma_offsets_increase(recs: Seq<EntryView>, i: int, j: int)
    requires
        0 <= i < j <= recs.len(),
        all_storable(recs),
    ensures
        offset_of(recs, i) + 20 <= offset_of(recs, j),
    decreases j - i,
{
    lemma_log_prefix(recs, j - 1);
    if i < j - 1 {
        lemma_offsets_increase(recs, i, j - 1);
    }
}

/// Offsets of the records that were there do not change when one is
/// appended.
pub proof fn lemma_offset_push(recs: Seq<EntryView>, r: EntryView, i: int)
    requires
        0 <= i <= recs.len(),
    ensures
        offset_of(recs.push(r), i) == offset_of(recs, i),
{
    assert(recs.push(r).take(i) =~= recs.take(i));
}

/// The bytes from the start of record number `i` on are the record's
/// layout and what follows it, so reading there gives the record.
pub proof fn lemma_record_at(recs: Seq<EntryView>, i: int)
    requires
        0 <= i < recs.len(),
        all_storable(recs),
    ensures
        offset_of(recs, i) + record_size(recs[i]) == offset_of(recs, i + 1),
        offset_of(recs, i + 1) <= log_bytes(recs).len(),
        parse_record(
            log_bytes(recs).subrange(offset_of(recs, i) as int, log_bytes(recs).len() as int),
        ) == Ok::<(EntryView, nat), KvError>((recs[i], record_size(recs[i]))),
        log_bytes(recs).subrange(offset_of(recs, i) as int, offset_of(recs, i + 1) as int)
            == record_bytes(recs[i]),
{
    let whole = log_bytes(recs);
    lemma_log_prefix(recs, i);
    lemma_log_prefix(recs, i + 1);
    let start = offset_of(recs, i) as int;
    let end = offset_of(recs, i + 1) as int;
    lemma_record_round_trip(recs[i], whole.subrange(end, whole.len() as int));
    assert(whole.subrange(0, end).subrange(start, end) =~= record_bytes(recs[i])) by {
        assert(whole.subrange(0, end) == log_bytes(recs.take(i)) + record_bytes(recs[i]));
    }
    assert(whole.subrange(start, end) =~= whole.subrange(0, end).subrange(start, end));
    assert(whole.subrange(start, whole.len() as int) =~= record_bytes(recs[i]) + whole.subrange(
        end,
        whole.len() as int,
    ));
}

/// Every live key points at an `Add` record of that key.
pub proof fn lemma_live_points(recs: Seq<EntryView>)
    ensures
        forall|k: Seq<char>| #[trigger]
            live(recs).contains_key(k) ==> live(recs)[k] < recs.len() && recs[live(
                recs,
            )[k] as int].key == k && recs[live(recs)[k] as int].command is Add,
    decreases recs.len(),
{
    if recs.len() > 0 {
        let init = recs.drop_last();
        lemma_live_points(init);
        assert forall|k: Seq<char>| #[trigger] live(recs).contains_key(k) implies live(recs)[k]
            < recs.len() && recs[live(recs)[k] as int].key == k && recs[live(
            recs,
        )[k] as int].command is Add by {
            if live(init).contains_key(k) && live(recs)[k] == live(init)[k] {
                assert(init[live(init)[k] as int] == recs[live(init)[k] as int]);
            }
        }
    }
}

/// Replaying a log and then one more record.
pub proof fn lemma_live_push(recs: Seq<EntryView>, r: EntryView)
    ensures
        live(recs.push(r)) == match r.command {
            Command::Add => live(recs).insert(r.key, recs.len()),
            Command::Delete => live(recs).remove(r.key),
        },
        dead(recs.push(r)) == dead(recs) + superseded(recs, r) + match r.command {
            Command::Add => 0,
            Command::Delete => record_size(r),
        },
{
    assert(recs.push(r).drop_last() =~= recs);
}

/// The winning bytes among the first `n` records depend on those records
/// alone.
pub proof fn lemma_live_size_push(
    recs: Seq<EntryView>,
    r: EntryView,
    m: Map<Seq<char>, nat>,
    n: nat,
)
    requires
        n <= recs.len(),
    ensures
        live_size(recs.push(r), m, n) == live_size(recs, m, n),
    decreases n,
{
    if n > 0 {
        lemma_live_size_push(recs, r, m, (n - 1) as nat);
        assert(recs.push(r)[n - 1] == recs[n - 1]);
    }
}

/// Moving a key to a record beyond the first `n`, or dropping it, takes
/// its old winning record out of the winning bytes among the first `n`.
pub proof fn lemma_live_size_update(
    recs: Seq<EntryView>,
    m: Map<Seq<char>, nat>,
    k: Seq<char>,
    to: Option<nat>,
    n: nat,
)
    requires
        n <= recs.len(),
        to matches Some(at) ==> at >= n,
    ensures
        ({
            let after = match to {
                Some(at) => m.insert(k, at),
                None => m.remove(k),
            };
            let gone = if m.contains_key(k) && m[k] < n && recs[m[k] as int].key == k {
                record_size(recs[m[k] as int])
            } else {
                0
            };
            live_size(recs, after, n) + gone == live_size(recs, m, n)
        }),
    decreases n,
{
    if n > 0 {
        lemma_live_size_update(recs, m, k, to, (n - 1) as nat);
    }
}

/// The uncompacted bytes and the winning bytes together are the whole log,
/// so the uncompacted bytes never exceed the size of the file.
pub proof fn lemma_dead_and_live(recs: Seq<EntryView>)
    requires
        all_storable(recs),
    ensures
        dead(recs) + live_size(recs, live(recs), recs.len()) == log_bytes(recs).len(),
        dead(recs) <= log_bytes(recs).len(),
    decreases recs.len(),
{
    if recs.len() > 0 {
        let init = recs.drop_last();
        let r = recs.last();
        let n = init.len();
        assert(recs =~= init.push(r));
        assert(all_storable(init)) by {
            assert forall|i: int| 0 <= i < init.len() implies storable(#[trigger] init[i]) by {
                assert(init[i] == recs[i]);
            }
        }
        lemma_dead_and_live(init);
        lemma_live_points(init);
        lemma_record_round_trip(r, Seq::<u8>::empty());
        let to = match r.command {
            Command::Add => Some(n),
            Command::Delete => None,
        };
        lemma_live_size_update(init, live(init), r.key, to, n);
        lemma_live_size_push(init, r, live(recs), n);
    }
}

/// What holds of the winners among the first `n` records: they are `Add`
/// records with one record per key, replaying them gives each key its
/// place among them, nothing in them is dead, and they take the winning
/// bytes.
pub proof fn lemma_winners_upto(recs: Seq<EntryView>, n: nat)
    requires
        n <= recs.len(),
        all_storable(recs),
    ensures
        ({
            let w = winners_upto(recs, n);
            &&& all_storable(w)
            &&& w.len() <= n
            &&& dead(w) == 0
            &&& log_bytes(w).len() == live_size(recs, live(recs), n)
            &&& forall|k: Seq<char>| #[trigger]
                live(w).contains_key(k) <==> live(recs).contains_key(k) && live(recs)[k] < n
            &&& forall|k: Seq<char>| #[trigger]
                live(w).contains_key(k) ==> live(w)[k] < w.len() && w[live(w)[k] as int]
                    == recs[live(recs)[k] as int]
            &&& forall|j: int|
                0 <= j < w.len() ==> live(w).contains_key((#[trigger] w[j]).key) && live(
                    w,
                )[w[j].key] == j
        }),
    decreases n,
{
    if n > 0 {
        let before = winners_upto(recs, (n - 1) as nat);
        lemma_winners_upto(recs, (n - 1) as nat);
        lemma_live_points(recs);
        let r = recs[n - 1];
        if wins(recs, live(recs), n - 1) {
            let w = before.push(r);
            lemma_live_push(before, r);
            lemma_log_push(before, r);
            lemma_record_round_trip(r, Seq::<u8>::empty());
            assert(!live(before).contains_key(r.key));
            assert(r.command is Add);
            assert(live(w) == live(before).insert(r.key, before.len()));
            assert forall|j: int| 0 <= j < w.len() implies live(w).contains_key(
                (#[trigger] w[j]).key,
            ) && live(w)[w[j].key] == j by {
                if j < before.len() {
                    assert(w[j] == before[j]);
                    assert(live(before).contains_key(before[j].key));
                }
            }
            assert forall|k: Seq<char>| #[trigger] live(w).contains_key(k) implies live(w)[k]
                < w.len() && w[live(w)[k] as int] == recs[live(recs)[k] as int] by {
                if k != r.key {
                    assert(live(before).contains_key(k));
                    assert(w[live(before)[k] as int] == before[live(before)[k] as int]);
                }
            }
        } else {
            assert forall|k: Seq<char>| #[trigger]
                live(before).contains_key(k) <==> live(recs).contains_key(k) && live(recs)[k]
                    < n by {
                if live(recs).contains_key(k) && live(recs)[k] == n - 1 {
                    assert(recs[n - 1].key == k);
                }
            }
        }
    }
}

/// Compaction is a no-op on the logical state, leaves nothing dead,
/// keeps one record for each live key and none else, and does not grow
/// the file.
pub proof fn lemma_compaction(recs: Seq<EntryView>)
    requires
        all_storable(recs),
    ensures
        all_storable(winners(recs)),
        contents(winners(recs)) == contents(recs),
        live(winners(recs)).dom() == live(recs).dom(),
        dead(winners(recs)) == 0,
        log_bytes(winners(recs)).len() + dead(recs) == log_bytes(recs).len(),
        forall|j: int|
            0 <= j < winners(recs).len() ==> (#[trigger] winners(recs)[j]).command is Add && live(
                winners(recs),
            ).contains_key(winners(recs)[j].key) && live(winners(recs))[winners(recs)[j].key] == j,
{
    let w = winners(recs);
    lemma_winners_upto(recs, recs.len());
    lemma_live_points(recs);
    lemma_dead_and_live(recs);
    assert(live(w).dom() =~= live(recs).dom());
    assert(contents(w) =~= contents(recs));
    assert forall|j: int| 0 <= j < w.len() implies (#[trigger] w[j]).command is Add && live(
        w,
    ).contains_key(w[j].key) && live(w)[w[j].key] == j by {
        assert(live(w).contains_key(w[j].key));
    }
}

/// Replaying bytes from the front and laying records out one after the
/// other are inverse to each other.
pub proof fn lemma_parse_log_of_log_bytes(recs: Seq<EntryView>, done: int)
    requires
        all_storable(recs),
        0 <= done <= recs.len(),
    ensures
        parse_log(
            log_bytes(recs).subrange(offset_of(recs, done) as int, log_bytes(recs).len() as int),
        ) == Ok::<Seq<EntryView>, KvError>(recs.subrange(done, recs.len() as int)),
    decreases recs.len() - done,
{
    let whole = log_bytes(recs);
    lemma_log_prefix(recs, done);
    if done == recs.len() {
        assert(whole.subrange(whole.len() as int, whole.len() as int) =~= Seq::<u8>::empty());
        assert(recs.subrange(done, recs.len() as int) =~= Seq::<EntryView>::empty());
    } else {
        lemma_record_at(recs, done);
        lemma_parse_log_of_log_bytes(recs, done + 1);
        let here = whole.subrange(offset_of(recs, done) as int, whole.len() as int);
        let used = record_size(recs[done]);
        assert(here.subrange(used as int, here.len() as int) =~= whole.subrange(
            offset_of(recs, done + 1) as int,
            whole.len() as int,
        ));
        assert(seq![recs[done]] + recs.subrange(done + 1, recs.len() as int) =~= recs.subrange(
            done,
            recs.len() as int,
        ));
    }
}

/// What one more record does to the logical state: an `Add` puts its
/// value under its key, a `Delete` takes the key away.
pub proof fn lemma_contents_push(recs: Seq<EntryView>, r: EntryView)
    ensures
        contents(recs.push(r)) == match r.command {
            Command::Add => contents(recs).insert(r.key, r.value),
            Command::Delete => contents(recs).remove(r.key),
        },
{
    let after = recs.push(r);
    lemma_live_push(recs, r);
    lemma_live_points(recs);
    let expected = match r.command {
        Command::Add => contents(recs).insert(r.key, r.value),
        Command::Delete => contents(recs).remove(r.key),
    };
    assert forall|k: Seq<char>| contents(after).contains_key(k) == expected.contains_key(k) by {}
    assert forall|k: Seq<char>| contents(after).contains_key(k) implies contents(after)[k]
        == expected[k] by {
        if k != r.key {
            assert(live(recs).contains_key(k));
            assert(after[live(recs)[k] as int] == recs[live(recs)[k] as int]);
        }
    }
    assert(contents(after) =~= expected);
}

/// A log that parses is the layout of its records, and all of them can be
/// written.
pub proof fn lemma_parse_log_canonical(b: Seq<u8>)
    ensures
        parse_log(b) matches Ok(recs) ==> all_storable(recs) && log_bytes(recs) == b,
    decreases b.len(),
{
    if b.len() == 0 {
        assert(log_bytes(Seq::<EntryView>::empty()) =~= b);
    } else {
        lemma_parse_record_canonical(b);
        match parse_record(b) {
            Ok((r, used)) => {
                let after = b.subrange(used as int, b.len() as int);
                lemma_parse_log_canonical(after);
                match parse_log(after) {
                    Ok(rest) => {
                        let recs = seq![r] + rest;
                        lemma_log_concat(seq![r], rest);
                        lemma_log_push(Seq::<EntryView>::empty(), r);
                        assert(seq![r] =~= Seq::<EntryView>::empty().push(r));
                        assert(log_bytes(Seq::<EntryView>::empty()) =~= Seq::<u8>::empty());
                        assert(log_bytes(seq![r]) =~= record_bytes(r));
                        assert forall|i: int| 0 <= i < recs.len() implies storable(
                            #[trigger] recs[i],
                        ) by {
                            if i > 0 {
                                assert(recs[i] == rest[i - 1]);
                            }
                        }
                        assert(log_bytes(recs) =~= b);
                    },
                    Err(_) => {},
                }
            },
            Err(_) => {},
        }
    }
}

/// The bytes of two logs one after the other.
pub proof fn lemma_log_concat(a: Seq<EntryView>, b: Seq<EntryView>)
    ensures
        log_bytes(a + b) == log_bytes(a) + log_bytes(b),
    decreases b.len(),
{
    if b.len() == 0 {
        assert(a + b =~= a);
        assert(log_bytes(a) + log_bytes(b) =~= log_bytes(a));
    } else {
        lemma_log_concat(a, b.drop_last());
        assert((a + b).drop_last() =~= a + b.drop_last());
        assert((a + b).last() == b.last());
        assert(log_bytes(a + b) =~= log_bytes(a) + log_bytes(b));
    }
}

/// After an `Add` the key is live and has the value that was added,
/// whatever was logged before.
pub proof fn lemma_add_then_get(recs: Seq<EntryView>, key: Seq<char>, value: ValueView)
    ensures
        contents(recs.push(EntryView { command: Command::Add, key, value })).contains_key(key),
        contents(recs.push(EntryView { command: Command::Add, key, value }))[key] == value,
{
    lemma_contents_push(recs, EntryView { command: Command::Add, key, value });
}

/// After a `Delete` the key is not live, whatever was logged before.
pub proof fn lemma_delete_then_get(recs: Seq<EntryView>, key: Seq<char>)
    ensures
        !contents(
            recs.push(EntryView { command: Command::Delete, key, value: ValueView::Null }),
        ).contains_key(key),
{
    lemma_contents_push(recs, EntryView { command: Command::Delete, key, value: ValueView::Null });
}

/// Compacting twice is compacting once: what compaction keeps has nothing
/// left to drop.
pub proof fn lemma_compaction_settles(recs: Seq<EntryView>)
    requires
        all_storable(recs),
    ensures
        log_bytes(winners(winners(recs))).len() == log_bytes(winners(recs)).len(),
        contents(winners(winners(recs))) == contents(recs),
{
    lemma_compaction(recs);
    lemma_compaction(winners(recs));
}

} // verus!
