//! The metrics store: the latest value and run time for each label set.
//!
//! The store is a plain value with one owner.  Whoever shares it between
//! writers and readers puts it behind a lock; every `record` and every
//! `snapshot` is then one step, and the laws below speak of any order in
//! which such steps come.

use crate::config::schema::{Target, TargetCommand};
use crate::extract::{extract, extracted, gauge_millis, label_set, value_match, yields_value};
use crate::extract::{ExtractError, Observation};
use crate::labels::{copy_labels, label_map, pairs, same_label_set};
use crate::shell_commands::Outcome;
use vstd::prelude::*;

verus! {

/// What the store keeps for a label set.
#[derive(Clone, Copy, Debug, PartialEq, Eq)]
pub struct Sample {
    /// The last value, as the bits of a double-precision number.
    pub value_bits: u64,
    /// The last run time in milliseconds.
    pub duration_ms: i64,
}

/// A label set with what the store keeps for it.
#[derive(Clone, Debug, PartialEq, Eq)]
pub struct Entry {
    pub labels: Vec<(String, String)>,
    pub sample: Sample,
}

/// A label set as the store's key: the mapping from names to values.
pub type Key = Map<Seq<char>, Seq<char>>;

/// The key of an entry.
pub open spec fn key_of(entry: Entry) -> Key {
    label_map(pairs(entry.labels@))
}

/// No two entries have the same key.
pub open spec fn distinct_keys(entries: Seq<Entry>) -> bool {
    forall|i: int, j: int|
        0 <= i < j < entries.len() ==> key_of(#[trigger] entries[i]) != key_of(
            #[trigger] entries[j],
        )
}

/// The mapping that a list of entries spells out.
pub open spec fn content(entries: Seq<Entry>) -> Map<Key, Sample>
    decreases entries.len(),
{
    if entries.len() == 0 {
        Map::empty()
    } else {
        content(entries.drop_last()).insert(key_of(entries.last()), entries.last().sample)
    }
}

/// The store after the writes of `writes`, in order.
pub open spec fn replayed(store: Map<Key, Sample>, writes: Seq<(Key, Sample)>) -> Map<Key, Sample>
    decreases writes.len(),
{
    if writes.len() == 0 {
        store
    } else {
        replayed(store, writes.drop_last()).insert(writes.last().0, writes.last().1)
    }
}

/// The mapping of a list holds exactly the keys of its entries.
pub proof fn lemma_content_keys(entries: Seq<Entry>, key: Key)
    ensures
        content(entries).dom().contains(key) <==> exists|i: int|
            0 <= i < entries.len() && key_of(#[trigger] entries[i]) == key,
    decreases entries.len(),
{
    if entries.len() > 0 {
        let shorter = entries.drop_last();
        lemma_content_keys(shorter, key);
        if content(entries).dom().contains(key) {
            if key_of(entries.last()) == key {
                assert(key_of(entries[entries.len() - 1]) == key);
            } else {
                let i = choose|i: int| 0 <= i < shorter.len() && key_of(#[trigger] shorter[i]) == key;
                assert(key_of(entries[i]) == key);
            }
        }
        if exists|i: int| 0 <= i < entries.len() && key_of(#[trigger] entries[i]) == key {
            let i = choose|i: int| 0 <= i < entries.len() && key_of(#[trigger] entries[i]) == key;
            if i < entries.len() - 1 {
                assert(key_of(shorter[i]) == key);
            }
        }
    }
}

/// In a list without a key twice, the mapping gives each entry's key that
/// entry's sample.
pub proof fn lemma_content_at(entries: Seq<Entry>, i: int)
    requires
        distinct_keys(entries),
        0 <= i < entries.len(),
    ensures
        content(entries).dom().contains(key_of(entries[i])),
        content(entries)[key_of(entries[i])] == entries[i].sample,
    decreases entries.len(),
{
    if i < entries.len() - 1 {
        let shorter = entries.drop_last();
        assert forall|a: int, b: int| 0 <= a < b < shorter.len() implies key_of(
            #[trigger] shorter[a],
        ) != key_of(#[trigger] shorter[b]) by {
            assert(shorter[a] == entries[a]);
            assert(shorter[b] == entries[b]);
        }
        lemma_content_at(shorter, i);
        assert(shorter[i] == entries[i]);
        assert(key_of(entries[i]) != key_of(entries[entries.len() - 1]));
    }
}

/// Putting an entry in the place of one with the same key changes the
/// mapping at that key and nowhere else, and brings no key twice.
pub proof fn lemma_content_update(entries: Seq<Entry>, i: int, entry: Entry)
    requires
        distinct_keys(entries),
        0 <= i < entries.len(),
        key_of(entry) == key_of(entries[i]),
    ensures
        distinct_keys(entries.update(i, entry)),
        content(entries.update(i, entry)) == content(entries).insert(key_of(entry), entry.sample),
    decreases entries.len(),
{
    let updated = entries.update(i, entry);
    assert forall|a: int, b: int| 0 <= a < b < updated.len() implies key_of(
        #[trigger] updated[a],
    ) != key_of(#[trigger] updated[b]) by {
        assert(key_of(updated[a]) == key_of(entries[a]));
        assert(key_of(updated[b]) == key_of(entries[b]));
    }
    if i == entries.len() - 1 {
        assert(updated.drop_last() =~= entries.drop_last());
        assert(content(updated) =~= content(entries).insert(key_of(entry), entry.sample));
    } else {
        let shorter = entries.drop_last();
        assert forall|a: int, b: int| 0 <= a < b < shorter.len() implies key_of(
            #[trigger] shorter[a],
        ) != key_of(#[trigger] shorter[b]) by {
            assert(shorter[a] == entries[a]);
            assert(shorter[b] == entries[b]);
        }
        assert(shorter[i] == entries[i]);
        lemma_content_update(shorter, i, entry);
        assert(updated.drop_last() =~= shorter.update(i, entry));
        assert(updated.last() == entries.last());
        assert(key_of(entries[i]) != key_of(entries[entries.len() - 1]));
        assert(content(updated) =~= content(entries).insert(key_of(entry), entry.sample));
    }
}

/// Last write wins: of two writes to one label set, one after the other, the
/// store keeps the second; a write that repeats the one before it changes
/// nothing.
pub proof fn lemma_last_write_wins(store: Map<Key, Sample>, key: Key, first: Sample, second: Sample)
    ensures
        store.insert(key, first).insert(key, second) == store.insert(key, second),
        store.insert(key, first).insert(key, second)[key] == second,
        store.insert(key, second).insert(key, second) == store.insert(key, second),
{
    assert(store.insert(key, first).insert(key, second) =~= store.insert(key, second));
    assert(store.insert(key, second).insert(key, second) =~= store.insert(key, second));
}

/// Writes do not disturb each other: whatever the order in which the writes
/// of several writers reach the store, each label set ends with the sample
/// of the last write to it, and a label set that none of them writes keeps
/// what it had.
pub proof fn lemma_own_last_writer(store: Map<Key, Sample>, writes: Seq<(Key, Sample)>, key: Key)
    ensures
        (forall|i: int| 0 <= i < writes.len() ==> (#[trigger] writes[i]).0 != key) ==> (replayed(
            store,
            writes,
        ).dom().contains(key) <==> store.dom().contains(key)) && replayed(store, writes)[key]
            == store[key],
        forall|last: int|
            0 <= last < writes.len() && (#[trigger] writes[last]).0 == key && (forall|i: int|
                last < i < writes.len() ==> (#[trigger] writes[i]).0 != key) ==> replayed(
                store,
                writes,
            ).dom().contains(key) && replayed(store, writes)[key] == writes[last].1,
    decreases writes.len(),
{
    if writes.len() > 0 {
        let shorter = writes.drop_last();
        lemma_own_last_writer(store, shorter, key);
        if forall|i: int| 0 <= i < writes.len() ==> (#[trigger] writes[i]).0 != key {
            assert forall|i: int| 0 <= i < shorter.len() implies (#[trigger] shorter[i]).0
                != key by {
                assert(shorter[i] == writes[i]);
            }
            assert(writes[writes.len() - 1].0 != key);
        }
        assert forall|last: int|
            0 <= last < writes.len() && (#[trigger] writes[last]).0 == key && (forall|i: int|
                last < i < writes.len() ==> (#[trigger] writes[i]).0 != key) implies replayed(
            store,
            writes,
        ).dom().contains(key) && replayed(store, writes)[key] == writes[last].1 by {
            if last < writes.len() - 1 {
                assert(shorter[last] == writes[last]);
                assert forall|i: int| last < i < shorter.len() implies (#[trigger] shorter[i]).0
                    != key by {
                    assert(shorter[i] == writes[i]);
                }
                assert(writes[writes.len() - 1].0 != key);
            }
        }
    }
}

/// The metrics store.
pub struct TargetMetrics {
    entries: Vec<Entry>,
}

impl View for TargetMetrics {
    type V = Map<Key, Sample>;

    closed spec fn view(&self) -> Map<Key, Sample> {
        content(self.entries@)
    }
}

impl TargetMetrics {
    #[verifier::type_invariant]
    spec fn inv(self) -> bool {
        distinct_keys(self.entries@)
    }

    /// An empty store.
    pub fn new() -> (store: TargetMetrics)
        ensures
            store@ == Map::<Key, Sample>::empty(),
    {
        TargetMetrics { entries: Vec::new() }
    }

    /// The sample of a label set, if the store has one.
    pub fn get(&self, labels: &Vec<(String, String)>) -> (res: Option<Sample>)
        ensures
            res is Some <==> self@.dom().contains(label_map(pairs(labels@))),
            res matches Some(sample) ==> sample == self@[label_map(pairs(labels@))],
    {
        proof {
            use_type_invariant(self);
        }
        match find_entry(&self.entries, labels) {
            Some(i) => {
                proof {
                    lemma_content_at(self.entries@, i as int);
                }
                Some(self.entries[i].sample)
            },
            None => None,
        }
    }

    /// Writes the sample of a label set: a new entry where the store has
    /// none for it, in place of the old sample where it has one.
    pub fn record(&mut self, labels: Vec<(String, String)>, value_bits: u64, duration_ms: i64)
        ensures
            final(self)@ == old(self)@.insert(
                label_map(pairs(labels@)),
                Sample { value_bits, duration_ms },
            ),
    {
        proof {
            use_type_invariant(&*self);
        }
        let sample = Sample { value_bits, duration_ms };
        let ghost key = label_map(pairs(labels@));
        let ghost before = self.entries@;
        let mut entries: Vec<Entry> = Vec::new();
        std::mem::swap(&mut self.entries, &mut entries);
        let place = find_entry(&entries, &labels);
        let entry = Entry { labels, sample };
        match place {
            Some(i) => {
                proof {
                    lemma_content_update(before, i as int, entry);
                }
                entries.set(i, entry);
            },
            None => {
                proof {
                    assert(before.push(entry).drop_last() =~= before);
                    assert forall|a: int, b: int|
                        0 <= a < b < before.push(entry).len() implies key_of(
                        #[trigger] before.push(entry)[a],
                    ) != key_of(#[trigger] before.push(entry)[b]) by {
                        if b < before.len() {
                            assert(key_of(before[a]) != key_of(before[b]));
                        } else {
                            assert(key_of(before[a]) != key);
                        }
                    }
                }
                entries.push(entry);
            },
        }
        self.entries = entries;
    }

    /// Every entry of the store, each label set once.
    pub fn snapshot(&self) -> (res: Vec<Entry>)
        ensures
            distinct_keys(res@),
            content(res@) == self@,
    {
        proof {
            use_type_invariant(self);
        }
        let mut out: Vec<Entry> = Vec::new();
        let mut i: usize = 0;
        while i < self.entries.len()
            invariant
                i <= self.entries.len(),
                out@.len() == i,
                forall|k: int|
                    0 <= k < i ==> key_of(#[trigger] out@[k]) == key_of(self.entries@[k])
                        && out@[k].sample == self.entries@[k].sample,
            decreases self.entries.len() - i,
        {
            let labels = copy_labels(&self.entries[i].labels);
            out.push(Entry { labels, sample: self.entries[i].sample });
            i += 1;
        }
        proof {
            lemma_same_content(out@, self.entries@);
        }
        out
    }

    /// Extracts the value of a run of `command` and writes it.  `parsed`
    /// holds the bits of the number that the text captured by the value's
    /// group reads as, or nothing where it reads as none or there is no such
    /// text.
    ///
    /// Fails as `extract` does, and then leaves the store as it is.
    pub fn update_result(
        &mut self,
        target: &Target,
        command: &TargetCommand,
        outcome: &Outcome,
        parsed: Option<u64>,
    ) -> (res: Result<(), ExtractError>)
        ensures
            res is Ok <==> yields_value(*target, *outcome, parsed),
            res is Ok ==> final(self)@ == old(self)@.insert(
                label_map(
                    label_set(
                        target.name@,
                        outcome->exit_code as int,
                        pairs(command.labels@),
                        value_match(*target, *outcome)->0,
                    ),
                ),
                Sample {
                    value_bits: parsed->0,
                    duration_ms: gauge_millis(outcome->duration as int) as i64,
                },
            ),
            res matches Err(e) ==> final(self)@ == old(self)@ && extracted(
                Err::<Observation, ExtractError>(e),
                *target,
                *command,
                *outcome,
                parsed,
            ),
    {
        match extract(target, command, outcome, parsed) {
            Ok(observation) => {
                let Observation { labels, value_bits, duration_ms } = observation;
                self.record(labels, value_bits, duration_ms);
                Ok(())
            },
            Err(e) => Err(e),
        }
    }
}

/// Looks up the entry of a label set.
fn find_entry(entries: &Vec<Entry>, labels: &Vec<(String, String)>) -> (res: Option<usize>)
    ensures
        res matches Some(i) ==> i < entries@.len() && key_of(entries@[i as int]) == label_map(
            pairs(labels@),
        ),
        res is None ==> !content(entries@).dom().contains(label_map(pairs(labels@))),
        res is None ==> forall|k: int|
            0 <= k < entries@.len() ==> key_of(#[trigger] entries@[k]) != label_map(pairs(labels@)),
{
    let mut i: usize = 0;
    while i < entries.len()
        invariant
            i <= entries.len(),
            forall|k: int|
                0 <= k < i ==> key_of(#[trigger] entries@[k]) != label_map(pairs(labels@)),
        decreases entries.len() - i,
    {
        if same_label_set(&entries[i].labels, labels) {
            return Some(i);
        }
        i += 1;
    }
    proof {
        lemma_content_keys(entries@, label_map(pairs(labels@)));
    }
    None
}

/// Two lists with the same keys and samples, index by index, spell out the
/// same mapping.
proof fn lemma_same_content(a: Seq<Entry>, b: Seq<Entry>)
    requires
        a.len() == b.len(),
        forall|k: int|
            0 <= k < a.len() ==> key_of(#[trigger] a[k]) == key_of(b[k]) && a[k].sample
                == b[k].sample,
        distinct_keys(b),
    ensures
        distinct_keys(a),
        content(a) == content(b),
    decreases a.len(),
{
    assert forall|i: int, j: int| 0 <= i < j < a.len() implies key_of(#[trigger] a[i]) != key_of(
        #[trigger] a[j],
    ) by {
        assert(key_of(b[i]) != key_of(b[j]));
    }
    if a.len() > 0 {
        let sa = a.drop_last();
        let sb = b.drop_last();
        assert forall|k: int| 0 <= k < sa.len() implies key_of(#[trigger] sa[k]) == key_of(sb[k])
            && sa[k].sample == sb[k].sample by {
            assert(sa[k] == a[k]);
            assert(sb[k] == b[k]);
        }
        assert forall|i: int, j: int| 0 <= i < j < sb.len() implies key_of(#[trigger] sb[i])
            != key_of(#[trigger] sb[j]) by {
            assert(sb[i] == b[i]);
            assert(sb[j] == b[j]);
        }
        lemma_same_content(sa, sb);
        assert(key_of(a[a.len() - 1]) == key_of(b[a.len() - 1]));
    }
}

} // verus!
