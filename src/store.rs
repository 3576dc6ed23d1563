use vstd::prelude::*;

use crate::entry::{EntryModel, MemoEntry};
use crate::text::{matches_query, query_matches, query_view};

verus! {

/// The most entries the store keeps once an insert has completed.
pub const DB_CAP: usize = 200;

/// Ids rise strictly from the oldest entry to the newest.
pub open spec fn ids_ascending(s: Seq<EntryModel>) -> bool {
    forall|i: int, j: int| 0 <= i < j < s.len() ==> s[i].id < s[j].id
}

/// The newest `cap` entries of an oldest-first log (all of it when it is short).
pub open spec fn keep_newest(s: Seq<EntryModel>, cap: nat) -> Seq<EntryModel> {
    if s.len() <= cap {
        s
    } else {
        s.subrange(s.len() - cap, s.len() as int)
    }
}

/// The ids of the entries that trimming `s` to `cap` removes, oldest first.
pub open spec fn trimmed_ids(s: Seq<EntryModel>, cap: nat) -> Seq<u64> {
    if s.len() <= cap {
        Seq::empty()
    } else {
        s.subrange(0, s.len() - cap).map_values(|e: EntryModel| e.id)
    }
}

/// The entry at relative index `k` of an oldest-first log: index 1 is the
/// newest, 2 the one before it, and so on.
pub open spec fn at_index(s: Seq<EntryModel>, k: int) -> EntryModel {
    s[s.len() - k]
}

/// The log newest first.
pub open spec fn newest_first(s: Seq<EntryModel>) -> Seq<EntryModel> {
    Seq::new(s.len(), |i: int| s[s.len() - 1 - i])
}

/// The log after saving `cmd` at time `t` when the next id is `next`: nothing
/// changes when the newest entry holds exactly `cmd`; otherwise a new entry is
/// appended and the log trimmed to the cap.
pub open spec fn save_result(s: Seq<EntryModel>, next: u64, cmd: Seq<char>, t: i64) -> Seq<EntryModel> {
    if s.len() > 0 && s.last().cmd == cmd {
        s
    } else {
        keep_newest(s.push(EntryModel { id: next, cmd, created_at: t }), DB_CAP as nat)
    }
}

/// The `(index, cmd)` pairs that a listing emits, walking the newest-first
/// log `desc` from position `i` on: every entry counts toward the index, only
/// those that match the query are emitted, and at most `limit` are.
pub open spec fn listing_from(desc: Seq<Seq<char>>, i: int, limit: nat, query: Option<Seq<char>>) -> Seq<(int, Seq<char>)>
    decreases desc.len() - i, limit,
{
    if i < 0 || i >= desc.len() || limit == 0 {
        Seq::empty()
    } else if query_matches(query, desc[i]) {
        seq![(i + 1, desc[i])] + listing_from(desc, i + 1, (limit - 1) as nat, query)
    } else {
        listing_from(desc, i + 1, limit, query)
    }
}

/// The texts of an oldest-first log, newest first.
pub open spec fn texts_newest_first(s: Seq<EntryModel>) -> Seq<Seq<char>> {
    Seq::new(s.len(), |i: int| s[s.len() - 1 - i].cmd)
}

/// Why the store refused an insert.
#[derive(Debug, PartialEq, Eq)]
pub enum StoreError {
    /// Every id has been handed out.
    IdsExhausted,
}

/// What an insert did: the id it gave the new entry and the ids of the oldest
/// entries it removed to stay within the cap.
#[derive(Debug)]
pub struct InsertOutcome {
    pub id: u64,
    pub removed: Vec<u64>,
}

/// The command log, oldest entry first.
pub struct MemoStore {
    entries: Vec<MemoEntry>,
    next_id: u64,
}

impl MemoStore {
    /// The entries, oldest first.
    pub closed spec fn model(&self) -> Seq<EntryModel> {
        self.entries@.map_values(|e: MemoEntry| e@)
    }

    /// The id the next insert will hand out.
    pub closed spec fn next_id(&self) -> u64 {
        self.next_id
    }

    /// Ids rise with insertion order, and the next id is above all of them.
    pub open spec fn wf(&self) -> bool {
        &&& ids_ascending(self.model())
        &&& forall|i: int| 0 <= i < self.model().len() ==> #[trigger] self.model()[i].id < self.next_id()
    }

    /// An empty store whose first id is 1.
    pub fn new() -> (r: Self)
        ensures
            r.wf(),
            r.model() == Seq::<EntryModel>::empty(),
            r.next_id() == 1,
    {
        MemoStore { entries: Vec::new(), next_id: 1 }
    }

    /// A store over entries read back, oldest first. `None` unless the ids
    /// rise strictly and the newest is below `u64::MAX`; the next id is one
    /// above the newest (1 for no entries).
    pub fn from_entries(entries: Vec<MemoEntry>) -> (r: Option<Self>)
        ensures
            r is Some <==> ids_ascending(entries@.map_values(|e: MemoEntry| e@))
                && (entries@.len() == 0 || entries@.last().id < u64::MAX),
            r matches Some(s) ==> s.wf() && s.model() == entries@.map_values(|e: MemoEntry| e@)
                && s.next_id() == if entries@.len() == 0 { 1 } else { entries@.last().id + 1 },
    {
        let ghost m = entries@.map_values(|e: MemoEntry| e@);
        let n = entries.len();
        let mut i: usize = 1;
        while i < n
            invariant
                1 <= i || n == 0,
                i <= n || n == 0,
                n == entries@.len(),
                m == entries@.map_values(|e: MemoEntry| e@),
                forall|a: int, b: int| 0 <= a < b < i && b < n ==> m[a].id < m[b].id,
            decreases n - i,
        {
            if entries[i - 1].id >= entries[i].id {
                assert(!ids_ascending(m)) by {
                    assert(m[i - 1].id >= m[i as int].id);
                }
                return None;
            }
            assert forall|a: int, b: int| 0 <= a < b < i + 1 && b < n implies m[a].id < m[b].id by {
                if b == i && a < i - 1 {
                    assert(m[a].id < m[i - 1].id);
                }
            }
            i = i + 1;
        }
        if n == 0 {
            return Some(MemoStore { entries, next_id: 1 });
        }
        let last = entries[n - 1].id;
        if last == u64::MAX {
            return None;
        }
        let s = MemoStore { entries, next_id: last + 1 };
        assert forall|k: int| 0 <= k < s.model().len() implies #[trigger] s.model()[k].id < s.next_id() by {
            if k < n - 1 {
                assert(m[k].id < m[n - 1].id);
            }
        }
        Some(s)
    }

    /// The number of entries.
    pub fn count(&self) -> (r: usize)
        ensures
            r == self.model().len(),
    {
        self.entries.len()
    }

    /// The newest entry, if any.
    pub fn most_recent(&self) -> (r: Option<&MemoEntry>)
        ensures
            r is None <==> self.model().len() == 0,
            r matches Some(e) ==> e@ == self.model().last(),
    {
        let n = self.entries.len();
        if n == 0 {
            None
        } else {
            Some(&self.entries[n - 1])
        }
    }

    /// The entry at 0-based position `offset` of the newest-first order, if
    /// there is one.
    pub fn entry_at_offset(&self, offset: usize) -> (r: Option<&MemoEntry>)
        ensures
            r is Some <==> offset < self.model().len(),
            r matches Some(e) ==> e@ == at_index(self.model(), offset + 1),
    {
        let n = self.entries.len();
        if offset < n {
            Some(&self.entries[n - 1 - offset])
        } else {
            None
        }
    }

    /// The entry at relative index `index` (1 is the newest); none for an
    /// index below 1 or beyond the count.
    pub fn resolve_index(&self, index: i64) -> (r: Option<&MemoEntry>)
        ensures
            r is Some <==> 1 <= index <= self.model().len(),
            r matches Some(e) ==> e@ == at_index(self.model(), index as int),
    {
        if index < 1 {
            return None;
        }
        let n = self.entries.len();
        if index as u64 > n as u64 {
            return None;
        }
        self.entry_at_offset((index - 1) as usize)
    }

    /// Copies of all entries, newest first.
    pub fn scan_descending(&self) -> (r: Vec<MemoEntry>)
        ensures
            r@.map_values(|e: MemoEntry| e@) == newest_first(self.model()),
    {
        let n = self.entries.len();
        let mut out: Vec<MemoEntry> = Vec::new();
        let mut k: usize = 0;
        while k < n
            invariant
                k <= n,
                n == self.model().len(),
                out@.len() == k,
                forall|j: int| 0 <= j < k ==> #[trigger] out@[j]@ == self.model()[n - 1 - j],
            decreases n - k,
        {
            out.push(self.entries[n - 1 - k].duplicate());
            k = k + 1;
        }
        assert(out@.map_values(|e: MemoEntry| e@) =~= newest_first(self.model()));
        out
    }

    /// Trims the log to the cap by removing the oldest entries, exactly as
    /// many as it holds beyond the cap; at or below the cap nothing changes.
    /// Returns the ids removed, oldest first.
    pub fn enforce_capacity(&mut self) -> (removed: Vec<u64>)
        requires
            old(self).wf(),
        ensures
            final(self).wf(),
            final(self).model() == keep_newest(old(self).model(), DB_CAP as nat),
            final(self).next_id() == old(self).next_id(),
            removed@ == trimmed_ids(old(self).model(), DB_CAP as nat),
    {
        let ghost m0 = self.model();
        let mut removed: Vec<u64> = Vec::new();
        let n = self.entries.len();
        if n <= DB_CAP {
            assert(removed@ =~= trimmed_ids(m0, DB_CAP as nat));
            return removed;
        }
        let k = n - DB_CAP;
        let mut i: usize = 0;
        while i < k
            invariant
                i <= k,
                k == n - DB_CAP,
                n == m0.len(),
                m0 == old(self).model(),
                self.model() == m0.subrange(i as int, n as int),
                self.entries@.len() == n - i,
                self.next_id == old(self).next_id,
                removed@ == m0.subrange(0, i as int).map_values(|e: EntryModel| e.id),
            decreases k - i,
        {
            let ghost before = self.entries@;
            let ghost bm = self.model();
            assert(bm[0] == before[0]@);
            let e = self.entries.remove(0);
            assert(e@ == m0[i as int]);
            removed.push(e.id);
            assert forall|j: int| 0 <= j < self.model().len() implies #[trigger] self.model()[j] == m0[i + 1 + j] by {
                assert(self.entries@[j] == before[j + 1]);
                assert(bm[j + 1] == before[j + 1]@);
                assert(bm[j + 1] == m0[i + 1 + j]);
            }
            assert(self.model() =~= m0.subrange(i + 1, n as int));
            assert(removed@ =~= m0.subrange(0, i + 1).map_values(|e: EntryModel| e.id));
            i = i + 1;
        }
        assert(self.model() =~= keep_newest(m0, DB_CAP as nat));
        proof {
            let m1 = self.model();
            assert forall|a: int| 0 <= a < m1.len() implies #[trigger] m1[a].id < self.next_id() by {
                assert(m1[a] == m0[a + k]);
            }
        }
        removed
    }

    /// Appends `cmd` as a new entry stamped `created_at` under the next id,
    /// then trims the log to the cap. Fails, changing nothing, only when the
    /// ids are used up.
    pub fn insert(&mut self, cmd: &str, created_at: i64) -> (r: Result<InsertOutcome, StoreError>)
        requires
            old(self).wf(),
        ensures
            final(self).wf(),
            r is Err <==> old(self).next_id() == u64::MAX,
            r is Err ==> final(self).model() == old(self).model()
                && final(self).next_id() == old(self).next_id(),
            r matches Ok(o) ==> ({
                let e = EntryModel { id: old(self).next_id(), cmd: cmd@, created_at };
                &&& o.id == old(self).next_id()
                &&& final(self).model() == keep_newest(old(self).model().push(e), DB_CAP as nat)
                &&& o.removed@ == trimmed_ids(old(self).model().push(e), DB_CAP as nat)
                &&& final(self).next_id() == old(self).next_id() + 1
            }),
    {
        if self.next_id == u64::MAX {
            return Err(StoreError::IdsExhausted);
        }
        let id = self.next_id;
        let ghost m0 = self.model();
        self.entries.push(MemoEntry::new(id, cmd.to_owned(), created_at));
        self.next_id = id + 1;
        assert(self.model() =~= m0.push(EntryModel { id, cmd: cmd@, created_at }));
        let removed = self.enforce_capacity();
        Ok(InsertOutcome { id, removed })
    }

    /// Saves `candidate` unless the newest entry holds exactly the same text:
    /// then nothing changes and the result is `Ok(None)`. Otherwise it is
    /// inserted as `insert` does.
    pub fn maybe_save(&mut self, candidate: &str, created_at: i64) -> (r: Result<Option<InsertOutcome>, StoreError>)
        requires
            old(self).wf(),
        ensures
            final(self).wf(),
            r matches Ok(None) <==> old(self).model().len() > 0
                && old(self).model().last().cmd == candidate@,
            r is Err <==> !(old(self).model().len() > 0 && old(self).model().last().cmd == candidate@)
                && old(self).next_id() == u64::MAX,
            r is Ok ==> final(self).model() == save_result(old(self).model(), old(self).next_id(), candidate@, created_at),
            r is Err ==> final(self).model() == old(self).model(),
            r matches Ok(None) || r is Err ==> final(self).next_id() == old(self).next_id(),
            r matches Ok(Some(o)) ==> o.id == old(self).next_id()
                && final(self).next_id() == old(self).next_id() + 1
                && o.removed@ == trimmed_ids(
                    old(self).model().push(EntryModel { id: old(self).next_id(), cmd: candidate@, created_at }),
                    DB_CAP as nat,
                ),
    {
        let n = self.entries.len();
        if n > 0 {
            let c = candidate.to_owned();
            if self.entries[n - 1].cmd == c {
                return Ok(None);
            }
        }
        match self.insert(candidate, created_at) {
            Ok(o) => Ok(Some(o)),
            Err(e) => Err(e),
        }
    }

    /// The `(index, cmd)` pairs of a listing: walks the log newest first,
    /// numbering every entry from 1 whether it matches or not, and emits the
    /// entries that match `query` (all of them without one), at most `limit`.
    pub fn list(&self, limit: usize, query: Option<&str>) -> (r: Vec<(usize, String)>)
        ensures
            r@.map_values(|p: (usize, String)| (p.0 as int, p.1@)) == listing_from(
                texts_newest_first(self.model()),
                0,
                limit as nat,
                query_view(query),
            ),
    {
        let ghost q = query_view(query);
        let ghost desc = texts_newest_first(self.model());
        let n = self.entries.len();
        let mut out: Vec<(usize, String)> = Vec::new();
        let mut i: usize = 0;
        while i < n && out.len() < limit
            invariant
                i <= n,
                n == self.model().len(),
                desc == texts_newest_first(self.model()),
                q == query_view(query),
                out@.len() <= limit,
                listing_from(desc, 0, limit as nat, q) == out@.map_values(
                    |p: (usize, String)| (p.0 as int, p.1@),
                ) + listing_from(desc, i as int, (limit - out@.len()) as nat, q),
            decreases n - i,
        {
            let ghost before = out@.map_values(|p: (usize, String)| (p.0 as int, p.1@));
            let ghost rem = (limit - out@.len()) as nat;
            let cmd = &self.entries[n - 1 - i].cmd;
            assert(cmd@ == desc[i as int]);
            let cs = cmd.as_str();
            assert(cs@ == desc[i as int]);
            let hit = matches_query(query, cs);
            assert(hit == query_matches(q, desc[i as int]));
            if hit {
                assert(listing_from(desc, i as int, rem, q) == seq![((i + 1) as int, desc[i as int])]
                    + listing_from(desc, i + 1, (rem - 1) as nat, q));
                out.push((i + 1, cmd.clone()));
                assert(out@.map_values(|p: (usize, String)| (p.0 as int, p.1@)) =~= before.push(
                    ((i + 1) as int, desc[i as int]),
                ));
                assert(before.push(((i + 1) as int, desc[i as int])) + listing_from(
                    desc,
                    i + 1,
                    (limit - out@.len()) as nat,
                    q,
                ) =~= before + (seq![((i + 1) as int, desc[i as int])] + listing_from(
                    desc,
                    i + 1,
                    (limit - out@.len()) as nat,
                    q,
                )));
            } else {
                assert(listing_from(desc, i as int, rem, q) == listing_from(desc, i + 1, rem, q));
            }
            i = i + 1;
        }
        assert(listing_from(desc, i as int, (limit - out@.len()) as nat, q) =~= Seq::empty());
        assert(out@.map_values(|p: (usize, String)| (p.0 as int, p.1@)) =~= listing_from(desc, 0, limit as nat, q));
        out
    }
}

} // verus!
