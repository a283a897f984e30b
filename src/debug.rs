//! Debug entries: named text values, grouped by category, for rendering.

use vstd::prelude::*;

verus! {

/// A handle on a debug entry of a `DebugEntries` table.
///
/// The text lives in the table: every copy of a handle reads and replaces
/// the same stored text.
#[derive(Debug, Clone, Copy, PartialEq, Eq, Structural)]
pub struct DebugEntry {
    index: usize,
}

impl DebugEntry {
    /// Replaces the text of the entry; every copy of this handle, and the
    /// table itself, then reads `new`.
    pub fn _update(&self, entries: &mut DebugEntries, new: &str)
        requires
            old(entries).wf(),
            old(entries).issued(*self),
        ensures
            final(entries).wf(),
            final(entries)@ == old(entries)@.insert(old(entries).key(*self), new@),
            forall|h: DebugEntry| #[trigger]
                old(entries).issued(h) ==> final(entries).issued(h) && final(entries).key(h)
                    == old(entries).key(h),
    {
        entries.set_text(self.index, new);
    }

    /// Returns the text of the entry.
    pub fn value<'a>(&self, entries: &'a DebugEntries) -> (r: &'a str)
        requires
            entries.wf(),
            entries.issued(*self),
        ensures
            entries@.contains_key(entries.key(*self)),
            r@ == entries@[entries.key(*self)],
    {
        assert(entries.table@.contains_key(key_of(entries.records@, self.index as int)));
        entries.records[self.index].value.as_str()
    }
}

struct Record {
    category: String,
    name: String,
    value: String,
}

/// The key of an entry: its category and its name.
pub type EntryKey = (Seq<char>, Seq<char>);

/// The resource storing debug entries to render, keyed by category and name.
pub struct DebugEntries {
    records: Vec<Record>,
    table: Ghost<Map<EntryKey, Seq<char>>>,
}

impl View for DebugEntries {
    type V = Map<EntryKey, Seq<char>>;

    closed spec fn view(&self) -> Map<EntryKey, Seq<char>> {
        self.table@
    }
}

/// The key of the `i`-th record.
spec fn key_of(records: Seq<Record>, i: int) -> EntryKey {
    (records[i].category@, records[i].name@)
}

impl DebugEntries {
    /// Each key is held once, and the ghost table maps each key to the text
    /// of its entry.
    pub closed spec fn wf(&self) -> bool {
        &&& forall|i: int, j: int|
            0 <= i < j < self.records@.len() ==> key_of(self.records@, i) != key_of(
                self.records@,
                j,
            )
        &&& forall|i: int|
            0 <= i < self.records@.len() ==> {
                &&& #[trigger] self.table@.contains_key(key_of(self.records@, i))
                &&& self.table@[key_of(self.records@, i)] == self.records@[i].value@
            }
        &&& forall|k: EntryKey| #[trigger]
            self.table@.contains_key(k) ==> exists|i: int|
                0 <= i < self.records@.len() && key_of(self.records@, i) == k
    }

    /// `h` refers to an entry of this table: its index is below the number
    /// of entries. A handle handed out by another table may pass this too,
    /// and then refers to whichever entry of this table has its index.
    pub closed spec fn issued(&self, h: DebugEntry) -> bool {
        h.index < self.records@.len()
    }

    /// The category and name of the entry that `h` refers to.
    pub closed spec fn key(&self, h: DebugEntry) -> EntryKey {
        key_of(self.records@, h.index as int)
    }

    /// A resource without entries.
    pub fn new() -> (r: Self)
        ensures
            r.wf(),
            r@ == Map::<EntryKey, Seq<char>>::empty(),
    {
        DebugEntries { records: Vec::new(), table: Ghost(Map::empty()) }
    }

    fn find(&self, category: &String, name: &String) -> (r: Option<usize>)
        requires
            self.wf(),
        ensures
            match r {
                Some(i) => i < self.records@.len() && key_of(self.records@, i as int) == (
                category@,
                name@,
                ),
                None => !self@.contains_key((category@, name@)),
            },
    {
        let mut i: usize = 0;
        while i < self.records.len()
            invariant
                self.wf(),
                i <= self.records@.len(),
                forall|j: int| 0 <= j < i ==> key_of(self.records@, j) != (category@, name@),
            decreases self.records@.len() - i,
        {
            if self.records[i].category == *category && self.records[i].name == *name {
                return Some(i);
            }
            i = i + 1;
        }
        None
    }

    fn set_text(&mut self, i: usize, text: &str)
        requires
            old(self).wf(),
            i < old(self).records@.len(),
        ensures
            final(self).wf(),
            final(self)@ == old(self)@.insert(key_of(old(self).records@, i as int), text@),
            final(self).records@.len() == old(self).records@.len(),
            forall|j: int|
                0 <= j < old(self).records@.len() ==> #[trigger] key_of(final(self).records@, j)
                    == key_of(old(self).records@, j),
    {
        let ghost old_records = self.records@;
        let ghost old_table = self.table@;
        let ghost key = key_of(old_records, i as int);
        let mut record = self.records.remove(i);
        record.value = text.to_owned();
        self.records.insert(i, record);
        assert(self.records@ =~= old_records.update(i as int, record));
        self.table = Ghost(old_table.insert(key, text@));
        assert forall|j: int, l: int|
            0 <= j < l < self.records@.len() implies key_of(self.records@, j) != key_of(
                self.records@,
                l,
            ) by {
            assert(key_of(old_records, j) != key_of(old_records, l));
        }
        assert forall|j: int| 0 <= j < self.records@.len() implies {
            &&& #[trigger] self.table@.contains_key(key_of(self.records@, j))
            &&& self.table@[key_of(self.records@, j)] == self.records@[j].value@
        } by {
            assert(old_table.contains_key(key_of(old_records, j)));
            if j != i {
                assert(key_of(old_records, j) != key_of(old_records, i as int));
            }
        }
        assert forall|k: EntryKey| #[trigger]
            self.table@.contains_key(k) implies exists|j: int|
                0 <= j < self.records@.len() && key_of(self.records@, j) == k by {
            if k != key {
                let j = choose|j: int|
                    0 <= j < old_records.len() && key_of(old_records, j) == k;
                assert(key_of(self.records@, j) == k);
            } else {
                assert(key_of(self.records@, i as int) == key);
            }
        }
    }

    /// Whether an entry `category`/`name` exists.
    pub fn contains(&self, category: &str, name: &str) -> (r: bool)
        requires
            self.wf(),
        ensures
            r == self@.contains_key((category@, name@)),
    {
        let c = category.to_owned();
        let n = name.to_owned();
        self.find(&c, &n).is_some()
    }

    /// Creates a new entry with empty text and returns a handle on it;
    /// handles handed out earlier keep referring to their entries.
    ///
    /// Each category and name pair may be created once only.
    pub fn entry(&mut self, category: &str, name: &str) -> (r: DebugEntry)
        requires
            old(self).wf(),
            !old(self)@.contains_key((category@, name@)),
        ensures
            final(self).wf(),
            final(self)@ == old(self)@.insert((category@, name@), Seq::<char>::empty()),
            final(self).issued(r),
            final(self).key(r) == (category@, name@),
            forall|h: DebugEntry| #[trigger]
                old(self).issued(h) ==> final(self).issued(h) && final(self).key(h) == old(
                    self,
                ).key(h),
    {
        let ghost old_records = self.records@;
        let ghost old_table = self.table@;
        let record = Record {
            category: category.to_owned(),
            name: name.to_owned(),
            value: String::new(),
        };
        let index = self.records.len();
        self.records.push(record);
        self.table = Ghost(old_table.insert((category@, name@), Seq::empty()));
        assert forall|i: int, j: int|
            0 <= i < j < self.records@.len() implies key_of(self.records@, i) != key_of(
                self.records@,
                j,
            ) by {
            assert(old_table.contains_key(key_of(old_records, i)));
            if j < old_records.len() {
                assert(key_of(old_records, i) != key_of(old_records, j));
            }
        }
        assert forall|i: int| 0 <= i < self.records@.len() implies {
            &&& #[trigger] self.table@.contains_key(key_of(self.records@, i))
            &&& self.table@[key_of(self.records@, i)] == self.records@[i].value@
        } by {
            if i < old_records.len() {
                assert(old_table.contains_key(key_of(old_records, i)));
            }
        }
        assert forall|k: EntryKey| #[trigger]
            self.table@.contains_key(k) implies exists|j: int|
                0 <= j < self.records@.len() && key_of(self.records@, j) == k by {
            if k != (category@, name@) {
                let j = choose|j: int| 0 <= j < old_records.len() && key_of(old_records, j) == k;
                assert(key_of(self.records@, j) == k);
            } else {
                assert(key_of(self.records@, old_records.len() as int) == k);
            }
        }
        DebugEntry { index }
    }

    /// Replaces the text of the entry `category`/`name`; returns whether
    /// that entry exists (nothing changes when it does not).
    pub fn update(&mut self, category: &str, name: &str, text: &str) -> (r: bool)
        requires
            old(self).wf(),
        ensures
            final(self).wf(),
            r == old(self)@.contains_key((category@, name@)),
            r ==> final(self)@ == old(self)@.insert((category@, name@), text@),
            !r ==> final(self)@ == old(self)@,
    {
        let c = category.to_owned();
        let n = name.to_owned();
        match self.find(&c, &n) {
            Some(i) => {
                self.set_text(i, text);
                true
            },
            None => false,
        }
    }

    /// The text of the entry `category`/`name`, if it exists.
    pub fn text(&self, category: &str, name: &str) -> (r: Option<String>)
        requires
            self.wf(),
        ensures
            match r {
                Some(t) => self@.contains_key((category@, name@)) && t@ == self@[(
                category@,
                name@,
                )],
                None => !self@.contains_key((category@, name@)),
            },
    {
        let c = category.to_owned();
        let n = name.to_owned();
        match self.find(&c, &n) {
            Some(i) => {
                assert(self.table@.contains_key(key_of(self.records@, i as int)));
                Some(self.records[i].value.clone())
            },
            None => None,
        }
    }
}

} // verus!
