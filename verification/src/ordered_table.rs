//! Entries by ascending identity, some of them only reserved by a transaction that
//! is still open.
use vstd::prelude::*;

verus! {

/// What stands under an identity.
#[derive(Clone, Copy, Debug, PartialEq, Eq, Structural)]
pub enum Entry {
    /// Held for the transaction with this token; invisible to everyone else.
    Reserved { token: u64 },
    /// The object itself.
    Live(u64),
}

/// Why an entry could not be inserted.
#[derive(Clone, Copy, Debug, PartialEq, Eq, Structural)]
pub enum InsertError {
    Limit,
    Allocation,
}

/// A table of at most `limit` entries.
pub struct OrderedTable {
    entries: Vec<(u64, Entry)>,
    limit: usize,
}

/// A table, as a value.
#[verifier::ext_equal]
pub struct TableView {
    /// The entries, by strictly ascending identity.
    pub entries: Seq<(u64, Entry)>,
    pub limit: usize,
}

/// How many of the entries from `from` on come before identity `key`.
pub open spec fn rank(entries: Seq<(u64, Entry)>, key: u64, from: int) -> int
    decreases entries.len() - from,
{
    if from >= entries.len() || entries[from].0 >= key {
        from
    } else {
        rank(entries, key, from + 1)
    }
}

/// How many of the first `n` entries are visible.
pub open spec fn live_count(entries: Seq<(u64, Entry)>, n: int) -> nat
    decreases n,
{
    if n <= 0 {
        0
    } else {
        live_count(entries, n - 1) + if entries[n - 1].1 is Live {
            1nat
        } else {
            0nat
        }
    }
}

/// An entry that is not visible is not counted, wherever it is put.
pub proof fn reservation_counts_nothing(
    entries: Seq<(u64, Entry)>,
    at: int,
    pair: (u64, Entry),
    n: int,
)
    requires
        0 <= at <= entries.len(),
        0 <= n <= entries.len(),
        !(pair.1 is Live),
    ensures
        live_count(entries.insert(at, pair), if n < at {
            n
        } else {
            n + 1
        }) == live_count(entries, n),
    decreases n,
{
    reveal_with_fuel(live_count, 2);
    let longer = entries.insert(at, pair);
    if n < at {
        if n > 0 {
            reservation_counts_nothing(entries, at, pair, n - 1);
            assert(longer[n - 1] == entries[n - 1]);
        }
    } else {
        assert(longer[n] == if n == at {
            pair
        } else {
            entries[n - 1]
        });
        if n > at {
            reservation_counts_nothing(entries, at, pair, n - 1);
        } else if n > 0 {
            reservation_counts_nothing(entries, at, pair, n - 1);
            assert(longer[n - 1] == entries[n - 1]);
        }
    }
}

/// How many entries in a row are visible from position `from` on, at most `cap`.
pub open spec fn live_run(entries: Seq<(u64, Entry)>, from: int, cap: int) -> int
    decreases cap,
{
    if cap <= 0 || from >= entries.len() || !(entries[from].1 is Live) {
        0
    } else {
        1 + live_run(entries, from + 1, cap - 1)
    }
}

/// The identities at the positions `from` to `to`.
pub open spec fn keys(entries: Seq<(u64, Entry)>, from: int, to: int) -> Seq<u64> {
    entries.subrange(from, to).map_values(|e: (u64, Entry)| e.0)
}

impl TableView {
    pub open spec fn wf(self) -> bool {
        &&& forall|i: int, j: int|
            0 <= i < j < self.entries.len() ==> (#[trigger] self.entries[i]).0 < (
            #[trigger] self.entries[j]).0
        &&& self.entries.len() <= self.limit
    }

    /// The position of `key`, if it is in the table; else where it would go.
    pub open spec fn place(self, key: u64) -> int {
        rank(self.entries, key, 0)
    }

    pub open spec fn has(self, key: u64) -> bool {
        let i = self.place(key);
        0 <= i < self.entries.len() && self.entries[i].0 == key
    }

    pub open spec fn entry(self, key: u64) -> Option<Entry> {
        if self.has(key) {
            Some(self.entries[self.place(key)].1)
        } else {
            None
        }
    }

    pub open spec fn inserted(self, key: u64, entry: Entry) -> TableView {
        TableView { entries: self.entries.insert(self.place(key), (key, entry)), ..self }
    }

    pub open spec fn replaced(self, key: u64, entry: Entry) -> TableView {
        TableView { entries: self.entries.update(self.place(key), (key, entry)), ..self }
    }

    pub open spec fn removed(self, key: u64) -> TableView {
        TableView { entries: self.entries.remove(self.place(key)), ..self }
    }

    /// Where a page after identity `cursor` begins.
    pub open spec fn page_start(self, cursor: u64) -> int {
        let i = self.place(cursor);
        if self.has(cursor) {
            i + 1
        } else {
            i
        }
    }

    /// Where a page of at most `cap` identities after `cursor` ends: at the first
    /// reservation, when full, or with the table.
    pub open spec fn page_end(self, cursor: u64, cap: int) -> int {
        self.page_start(cursor) + live_run(self.entries, self.page_start(cursor), cap)
    }
}

/// What the rank of a key is.
pub proof fn rank_facts(entries: Seq<(u64, Entry)>, key: u64, from: int)
    requires
        0 <= from <= entries.len(),
        forall|i: int, j: int|
            0 <= i < j < entries.len() ==> (#[trigger] entries[i]).0 < (#[trigger] entries[j]).0,
    ensures
        from <= rank(entries, key, from) <= entries.len(),
        forall|i: int| from <= i < rank(entries, key, from) ==> (#[trigger] entries[i]).0 < key,
        forall|i: int|
            rank(entries, key, from) <= i < entries.len() ==> (#[trigger] entries[i]).0 >= key,
    decreases entries.len() - from,
{
    if from < entries.len() && entries[from].0 < key {
        rank_facts(entries, key, from + 1);
    }
}

/// A position between smaller and not smaller keys is the rank.
proof fn rank_is(entries: Seq<(u64, Entry)>, key: u64, i: int)
    requires
        0 <= i <= entries.len(),
        forall|i: int, j: int|
            0 <= i < j < entries.len() ==> (#[trigger] entries[i]).0 < (#[trigger] entries[j]).0,
        forall|k: int| 0 <= k < i ==> (#[trigger] entries[k]).0 < key,
        forall|k: int| i <= k < entries.len() ==> (#[trigger] entries[k]).0 >= key,
    ensures
        rank(entries, key, 0) == i,
{
    rank_facts(entries, key, 0);
    let r = rank(entries, key, 0);
    if r < i {
        assert(entries[r].0 < key);
    }
    if i < r {
        assert(entries[i].0 >= key);
    }
}

proof fn live_run_bounds(entries: Seq<(u64, Entry)>, from: int, cap: int)
    requires
        0 <= from <= entries.len(),
        0 <= cap,
    ensures
        0 <= live_run(entries, from, cap) <= cap,
        from + live_run(entries, from, cap) <= entries.len(),
    decreases cap,
{
    if cap > 0 && from < entries.len() && entries[from].1 is Live {
        live_run_bounds(entries, from + 1, cap - 1);
    }
}

/// A longer page goes on where a shorter one stopped.
proof fn live_run_extend(entries: Seq<(u64, Entry)>, from: int, k: int)
    requires
        0 <= from,
        0 <= k,
        live_run(entries, from, k) == k,
    ensures
        live_run(entries, from, k + 1) == if from + k < entries.len() && entries[from
            + k].1 is Live {
            k + 1
        } else {
            k
        },
    decreases k,
{
    if k > 0 {
        live_run_bounds_weak(entries, from + 1, k - 1);
        live_run_extend(entries, from + 1, k - 1);
    } else {
        assert(live_run(entries, from + 1, 0) == 0);
    }
}

proof fn live_run_bounds_weak(entries: Seq<(u64, Entry)>, from: int, cap: int)
    ensures
        cap >= 0 ==> live_run(entries, from, cap) <= cap,
    decreases cap,
{
    if cap > 0 && from < entries.len() && entries[from].1 is Live {
        live_run_bounds_weak(entries, from + 1, cap - 1);
    }
}

/// Once a run stops, a larger cap does not lengthen it.
proof fn live_run_stops(entries: Seq<(u64, Entry)>, from: int, k: int, cap: int)
    requires
        0 <= k <= cap,
        live_run(entries, from, k) == k,
        k < cap ==> from + k >= entries.len() || !(entries[from + k].1 is Live),
    ensures
        live_run(entries, from, cap) == k,
    decreases k,
{
    if k > 0 {
        live_run_bounds_weak(entries, from + 1, k - 1);
        live_run_stops(entries, from + 1, k - 1, cap - 1);
    }
}

/// Inserting a new identity keeps the order; removing it again restores the table.
pub proof fn insert_then_remove(table: TableView, key: u64, entry: Entry)
    requires
        table.wf(),
        !table.has(key),
        table.entries.len() < table.limit,
    ensures
        table.inserted(key, entry).wf(),
        table.inserted(key, entry).entry(key) == Some(entry),
        table.inserted(key, entry).removed(key) == table,
{
    let i = table.place(key);
    rank_facts(table.entries, key, 0);
    let after = table.inserted(key, entry);
    assert forall|a: int, b: int| 0 <= a < b < after.entries.len() implies (
    #[trigger] after.entries[a]).0 < (#[trigger] after.entries[b]).0 by {
        if a < i {
            assert(after.entries[a] == table.entries[a]);
        } else if a > i {
            assert(after.entries[a] == table.entries[a - 1]);
        }
        if b < i {
            assert(after.entries[b] == table.entries[b]);
        } else if b > i {
            assert(after.entries[b] == table.entries[b - 1]);
        }
    }
    assert forall|k: int| i <= k < after.entries.len() implies (#[trigger] after.entries[k]).0
        >= key by {
        if k > i {
            assert(after.entries[k] == table.entries[k - 1]);
        }
    }
    rank_is(after.entries, key, i);
    assert(after.removed(key).entries =~= table.entries);
}

/// Inserting an entry and then replacing it is inserting the second one.
pub proof fn insert_then_replace(table: TableView, key: u64, first: Entry, second: Entry)
    requires
        table.wf(),
        !table.has(key),
        table.entries.len() < table.limit,
    ensures
        table.inserted(key, first).replaced(key, second) == table.inserted(key, second),
{
    let i = table.place(key);
    rank_facts(table.entries, key, 0);
    insert_then_remove(table, key, first);
    let after = table.inserted(key, first);
    assert forall|k: int| 0 <= k < i implies (#[trigger] after.entries[k]).0 < key by {
        assert(after.entries[k] == table.entries[k]);
    }
    assert(after.entries[i] == (key, first));
    assert forall|k: int| i <= k < after.entries.len() implies (#[trigger] after.entries[k]).0
        >= key by {
        if k > i {
            assert(after.entries[k] == table.entries[k - 1]);
        }
    }
    rank_is(after.entries, key, i);
    assert(after.replaced(key, second).entries =~= table.inserted(key, second).entries);
}

/// Replacing what stands under an identity keeps the order.
pub proof fn replace_keeps_order(table: TableView, key: u64, entry: Entry)
    requires
        table.wf(),
        table.has(key),
    ensures
        table.replaced(key, entry).wf(),
        table.replaced(key, entry).entry(key) == Some(entry),
{
    let i = table.place(key);
    rank_facts(table.entries, key, 0);
    let after = table.replaced(key, entry);
    rank_is(after.entries, key, i);
}

/// Removing an identity keeps the order, and it is gone.
pub proof fn remove_keeps_order(table: TableView, key: u64)
    requires
        table.wf(),
        table.has(key),
    ensures
        table.removed(key).wf(),
        !table.removed(key).has(key),
{
    let i = table.place(key);
    rank_facts(table.entries, key, 0);
    let after = table.removed(key);
    assert forall|k: int| 0 <= k < after.entries.len() implies (#[trigger] after.entries[k]).0
        != key by {
        if k < i {
            assert(after.entries[k] == table.entries[k]);
        } else {
            assert(after.entries[k] == table.entries[k + 1]);
            assert(table.entries[i].0 < table.entries[k + 1].0);
        }
    }
}

/// An identity has an entry exactly if the pair is among the entries.
pub proof fn entry_iff(table: TableView, key: u64, entry: Entry)
    requires
        table.wf(),
    ensures
        table.entry(key) == Some(entry) <==> table.entries.contains((key, entry)),
{
    rank_facts(table.entries, key, 0);
    if table.entry(key) == Some(entry) {
        assert(table.entries[table.place(key)] == (key, entry));
    }
    if table.entries.contains((key, entry)) {
        let i = choose|i: int|
            0 <= i < table.entries.len() && table.entries[i] == (key, entry);
        rank_is(table.entries, key, i);
    }
}

/// Operations on one identity leave what stands under another alone.
pub proof fn others_unchanged(table: TableView, key: u64, entry: Entry, other: u64, there: Entry)
    requires
        table.wf(),
        other != key,
    ensures
        !table.has(key) && table.entries.len() < table.limit ==> (table.inserted(
            key,
            entry,
        ).entry(other) == Some(there) <==> table.entry(other) == Some(there)),
        table.has(key) ==> (table.replaced(key, entry).entry(other) == Some(there)
            <==> table.entry(other) == Some(there)),
        table.has(key) ==> (table.removed(key).entry(other) == Some(there) <==> table.entry(other)
            == Some(there)),
{
    let i = table.place(key);
    let pair = (other, there);
    rank_facts(table.entries, key, 0);
    entry_iff(table, other, there);
    if !table.has(key) && table.entries.len() < table.limit {
        insert_then_remove(table, key, entry);
        let after = table.inserted(key, entry);
        entry_iff(after, other, there);
        if table.entries.contains(pair) {
            let k = choose|k: int| 0 <= k < table.entries.len() && table.entries[k] == pair;
            if k < i {
                assert(after.entries[k] == pair);
            } else {
                assert(after.entries[k + 1] == pair);
            }
        }
        if after.entries.contains(pair) {
            let k = choose|k: int| 0 <= k < after.entries.len() && after.entries[k] == pair;
            if k < i {
                assert(table.entries[k] == pair);
            } else {
                assert(table.entries[k - 1] == pair);
            }
        }
    }
    if table.has(key) {
        replace_keeps_order(table, key, entry);
        remove_keeps_order(table, key);
        let after = table.replaced(key, entry);
        entry_iff(after, other, there);
        let gone = table.removed(key);
        entry_iff(gone, other, there);
        if table.entries.contains(pair) {
            let k = choose|k: int| 0 <= k < table.entries.len() && table.entries[k] == pair;
            assert(after.entries[k] == pair);
            if k < i {
                assert(gone.entries[k] == pair);
            } else {
                assert(gone.entries[k - 1] == pair);
            }
        }
        if after.entries.contains(pair) {
            let k = choose|k: int| 0 <= k < after.entries.len() && after.entries[k] == pair;
            assert(table.entries[k] == pair);
        }
        if gone.entries.contains(pair) {
            let k = choose|k: int| 0 <= k < gone.entries.len() && gone.entries[k] == pair;
            if k < i {
                assert(table.entries[k] == pair);
            } else {
                assert(table.entries[k + 1] == pair);
            }
        }
    }
}

/// An identity larger than all others is not in the table.
pub proof fn larger_is_absent(table: TableView, key: u64)
    requires
        table.wf(),
        forall|k: int| 0 <= k < table.entries.len() ==> (#[trigger] table.entries[k]).0 < key,
    ensures
        !table.has(key),
{
    rank_facts(table.entries, key, 0);
}

impl View for OrderedTable {
    type V = TableView;

    closed spec fn view(&self) -> TableView {
        TableView { entries: self.entries@, limit: self.limit }
    }
}

impl OrderedTable {
    pub open spec fn wf(&self) -> bool {
        self@.wf()
    }

    pub fn new(limit: usize) -> (r: OrderedTable)
        ensures
            r.wf(),
            r@ == (TableView { entries: Seq::empty(), limit }),
    {
        OrderedTable { entries: Vec::new(), limit }
    }

    pub fn len(&self) -> (r: usize)
        ensures
            r == self@.entries.len(),
    {
        self.entries.len()
    }

    /// Position of `key`, or where it would go.
    fn place(&self, key: u64) -> (r: usize)
        requires
            self.wf(),
        ensures
            r == self@.place(key),
            r <= self@.entries.len(),
    {
        let mut low: usize = 0;
        let mut high: usize = self.entries.len();
        while low < high
            invariant
                low <= high <= self.entries.len(),
                self.wf(),
                forall|k: int| 0 <= k < low ==> (#[trigger] self@.entries[k]).0 < key,
                forall|k: int|
                    high <= k < self.entries.len() ==> (#[trigger] self@.entries[k]).0 >= key,
            decreases high - low,
        {
            let middle: usize = low + (high - low) / 2;
            if self.entries[middle].0 < key {
                low = middle + 1;
            } else {
                high = middle;
            }
        }
        proof {
            rank_is(self@.entries, key, low as int);
        }
        low
    }

    /// What stands under `key`.
    pub fn get(&self, key: u64) -> (r: Option<Entry>)
        requires
            self.wf(),
        ensures
            r == self@.entry(key),
    {
        let i: usize = self.place(key);
        if i < self.entries.len() && self.entries[i].0 == key {
            Some(self.entries[i].1)
        } else {
            None
        }
    }

    /// Inserts an identity that is not in the table; `room` says whether the table
    /// can grow.
    pub fn try_insert(&mut self, key: u64, entry: Entry, room: bool) -> (r: Result<
        (),
        InsertError,
    >)
        requires
            old(self).wf(),
            !old(self)@.has(key),
        ensures
            final(self).wf(),
            r == if old(self)@.entries.len() >= old(self)@.limit {
                Err::<(), _>(InsertError::Limit)
            } else if !room {
                Err(InsertError::Allocation)
            } else {
                Ok(())
            },
            final(self)@ == if r is Ok {
                old(self)@.inserted(key, entry)
            } else {
                old(self)@
            },
    {
        if self.entries.len() >= self.limit {
            return Err(InsertError::Limit);
        }
        if !room {
            return Err(InsertError::Allocation);
        }
        proof {
            insert_then_remove(self@, key, entry);
        }
        let i: usize = self.place(key);
        self.entries.insert(i, (key, entry));
        Ok(())
    }

    /// Writes what stands under an identity of the table.
    pub fn set(&mut self, key: u64, entry: Entry)
        requires
            old(self).wf(),
            old(self)@.has(key),
        ensures
            final(self).wf(),
            final(self)@ == old(self)@.replaced(key, entry),
    {
        proof {
            replace_keeps_order(self@, key, entry);
        }
        let i: usize = self.place(key);
        self.entries.set(i, (key, entry));
    }

    /// Removes an identity of the table.
    pub fn remove(&mut self, key: u64) -> (r: Entry)
        requires
            old(self).wf(),
            old(self)@.has(key),
        ensures
            final(self).wf(),
            final(self)@ == old(self)@.removed(key),
            Some(r) == old(self)@.entry(key),
    {
        proof {
            remove_keeps_order(self@, key);
        }
        let i: usize = self.place(key);
        self.entries.remove(i).1
    }

    /// One page of visible identities after `cursor`, in order, and whether an entry
    /// follows the page. A reservation ends the page.
    pub fn scan_visible(&self, cursor: u64, cap: usize) -> (r: (Vec<u64>, bool))
        requires
            self.wf(),
        ensures
            r.0@ == keys(
                self@.entries,
                self@.page_start(cursor),
                self@.page_end(cursor, cap as int),
            ),
            r.0@.len() <= cap,
            r.1 == (self@.page_end(cursor, cap as int) < self@.entries.len()),
    {
        let place: usize = self.place(cursor);
        let start: usize = if place < self.entries.len() && self.entries[place].0 == cursor {
            place + 1
        } else {
            place
        };
        let mut ids: Vec<u64> = Vec::new();
        let mut index: usize = start;
        proof {
            live_run_bounds_weak(self@.entries, start as int, 0);
        }
        while index < self.entries.len() && ids.len() < cap && matches!(
            self.entries[index].1,
            Entry::Live(_)
        )
            invariant
                start <= index <= self.entries.len(),
                ids.len() == index - start,
                ids.len() <= cap,
                ids@ =~= keys(self@.entries, start as int, index as int),
                live_run(self@.entries, start as int, index - start) == index - start,
            decreases self.entries.len() - index,
        {
            proof {
                live_run_extend(self@.entries, start as int, index - start);
            }
            ids.push(self.entries[index].0);
            index = index + 1;
        }
        proof {
            live_run_stops(self@.entries, start as int, index - start, cap as int);
        }
        (ids, index < self.entries.len())
    }

    /// How many entries are visible.
    pub fn count_live(&self) -> (r: usize)
        ensures
            r == live_count(self@.entries, self@.entries.len() as int),
    {
        let mut count: usize = 0;
        let mut index: usize = 0;
        while index < self.entries.len()
            invariant
                index <= self.entries.len(),
                count <= index,
                count == live_count(self@.entries, index as int),
            decreases self.entries.len() - index,
        {
            if let Entry::Live(_) = self.entries[index].1 {
                count = count + 1;
            }
            index = index + 1;
        }
        count
    }
}

/// A page holds visible identities only, each larger than the cursor.
pub proof fn page_is_visible(table: TableView, cursor: u64, cap: int, i: int)
    requires
        table.wf(),
        0 <= cap,
        table.page_start(cursor) <= i < table.page_end(cursor, cap),
    ensures
        0 <= i < table.entries.len(),
        table.entries[i].1 is Live,
        table.entries[i].0 > cursor,
{
    rank_facts(table.entries, cursor, 0);
    live_run_bounds(table.entries, table.page_start(cursor), cap);
    live_run_member(table.entries, table.page_start(cursor), cap, i);
}

proof fn live_run_member(entries: Seq<(u64, Entry)>, from: int, cap: int, i: int)
    requires
        from <= i < from + live_run(entries, from, cap),
    ensures
        entries[i].1 is Live,
    decreases cap,
{
    if i > from {
        live_run_member(entries, from + 1, cap - 1, i);
    }
}

/// A page is as long as it can be: it begins with the first identity behind the cursor, holds no
/// more than asked for, and ends early only with the table or at a reservation. The identities are
/// told in their order.
pub proof fn pages_are_as_long_as_can_be(table: TableView, cursor: u64, cap: int)
    requires
        table.wf(),
        0 <= cap,
    ensures
        ({
            let start = table.page_start(cursor);
            let end = table.page_end(cursor, cap);
            &&& 0 <= start <= end <= table.entries.len()
            &&& end - start <= cap
            &&& forall|i: int| 0 <= i < start ==> (#[trigger] table.entries[i]).0 <= cursor
            &&& forall|i: int|
                start <= i < table.entries.len() ==> (#[trigger] table.entries[i]).0 > cursor
            &&& end - start < cap ==> end == table.entries.len() || !(table.entries[end].1 is Live)
            &&& keys(table.entries, start, end).len() == end - start
            &&& forall|k: int|
                0 <= k < end - start ==> #[trigger] keys(table.entries, start, end)[k]
                    == table.entries[start + k].0
        }),
{
    rank_facts(table.entries, cursor, 0);
    let start = table.page_start(cursor);
    if table.has(cursor) {
        let place = table.place(cursor);
        assert forall|i: int| start <= i < table.entries.len() implies (
        #[trigger] table.entries[i]).0 > cursor by {
            assert(table.entries[place].0 < table.entries[i].0);
        }
    }
    live_runs_are_maximal(table.entries, start, cap);
}

proof fn live_runs_are_maximal(entries: Seq<(u64, Entry)>, from: int, cap: int)
    requires
        0 <= from <= entries.len(),
        0 <= cap,
    ensures
        0 <= live_run(entries, from, cap) <= cap,
        from + live_run(entries, from, cap) <= entries.len(),
        live_run(entries, from, cap) < cap ==> from + live_run(entries, from, cap) == entries.len()
            || !(entries[from + live_run(entries, from, cap)].1 is Live),
    decreases cap,
{
    if cap > 0 && from < entries.len() && entries[from].1 is Live {
        live_runs_are_maximal(entries, from + 1, cap - 1);
    }
}

/// Every visible entry is counted, and no other.
pub proof fn visible_entries_are_counted(entries: Seq<(u64, Entry)>, n: int)
    requires
        0 <= n <= entries.len(),
    ensures
        live_count(entries, n) <= n,
        live_count(entries, n) == n <==> forall|i: int|
            0 <= i < n ==> (#[trigger] entries[i]).1 is Live,
        live_count(entries, n) == 0 <==> forall|i: int|
            0 <= i < n ==> !((#[trigger] entries[i]).1 is Live),
        n > 0 ==> live_count(entries, n) - live_count(entries, n - 1) == (if entries[n - 1].1 is Live {
            1int
        } else {
            0
        }),
    decreases n,
{
    if n > 0 {
        visible_entries_are_counted(entries, n - 1);
    }
}

/// A table holds an identity exactly if one of its entries has it, and then at that place.
pub proof fn places_are_found(table: TableView, key: u64)
    requires
        table.wf(),
    ensures
        table.has(key) <==> exists|i: int|
            0 <= i < table.entries.len() && (#[trigger] table.entries[i]).0 == key,
        table.has(key) ==> table.entries[table.place(key)].0 == key && table.entry(key) == Some(
            table.entries[table.place(key)].1,
        ),
        table.entry(key) is Some <==> table.has(key),
{
    rank_facts(table.entries, key, 0);
    if exists|i: int| 0 <= i < table.entries.len() && (#[trigger] table.entries[i]).0 == key {
        let i = choose|i: int| 0 <= i < table.entries.len() && (#[trigger] table.entries[i]).0 == key;
        let place = table.place(key);
        assert(table.entries[i].0 >= key);
        assert(place <= i);
        if place < i {
            assert(table.entries[place].0 < table.entries[i].0);
            assert(table.entries[place].0 >= key);
        }
    }
    if table.has(key) {
        assert(table.entries[table.place(key)].0 == key);
    }
}

} // verus!
