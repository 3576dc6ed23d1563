use vstd::prelude::*;

use crate::entry::EntryModel;
use crate::text::query_matches;
use crate::store::{at_index, keep_newest, listing_from, save_result, texts_newest_first, DB_CAP};

verus! {

/// The log that inserting `items` one by one into an empty store leaves:
/// each insert appends and then trims to the cap.
pub open spec fn replay_inserts(items: Seq<EntryModel>) -> Seq<EntryModel>
    decreases items.len(),
{
    if items.len() == 0 {
        Seq::empty()
    } else {
        keep_newest(replay_inserts(items.drop_last()).push(items.last()), DB_CAP as nat)
    }
}

/// Trimming, appending one entry and trimming again is the same as appending
/// to the untrimmed log and trimming once.
proof fn lemma_trim_push(s: Seq<EntryModel>, e: EntryModel)
    ensures
        keep_newest(keep_newest(s, DB_CAP as nat).push(e), DB_CAP as nat) == keep_newest(
            s.push(e),
            DB_CAP as nat,
        ),
        keep_newest(s.push(e), DB_CAP as nat).len() <= DB_CAP,
{
    let c = DB_CAP as int;
    if s.len() >= c {
        let t = keep_newest(s, DB_CAP as nat);
        assert(t =~= s.subrange(s.len() - c, s.len() as int));
        assert(keep_newest(t.push(e), DB_CAP as nat) =~= keep_newest(s.push(e), DB_CAP as nat));
    }
}

/// Capacity: after any sequence of inserts into an empty store, the store
/// holds at most `DB_CAP` entries, and they are exactly the `DB_CAP` most
/// recently inserted ones (all of them while fewer were inserted).
pub proof fn lemma_capacity(items: Seq<EntryModel>)
    ensures
        replay_inserts(items) == keep_newest(items, DB_CAP as nat),
        replay_inserts(items).len() <= DB_CAP,
    decreases items.len(),
{
    if items.len() > 0 {
        let init = items.drop_last();
        lemma_capacity(init);
        lemma_trim_push(init, items.last());
        assert(init.push(items.last()) =~= items);
    }
}

/// An unfiltered listing from position `i` emits every entry from `i` on,
/// numbered by position, until the limit is reached.
proof fn lemma_unfiltered_listing(desc: Seq<Seq<char>>, i: int, limit: nat)
    requires
        0 <= i <= desc.len(),
    ensures
        listing_from(desc, i, limit, None).len() == if limit < desc.len() - i {
            limit as int
        } else {
            desc.len() - i
        },
        forall|j: int|
            0 <= j < listing_from(desc, i, limit, None).len() ==> #[trigger] listing_from(
                desc,
                i,
                limit,
                None,
            )[j] == (i + j + 1, desc[i + j]),
    decreases desc.len() - i,
{
    if i < desc.len() && limit > 0 {
        lemma_unfiltered_listing(desc, i + 1, (limit - 1) as nat);
        let rest = listing_from(desc, i + 1, (limit - 1) as nat, None);
        let all = listing_from(desc, i, limit, None);
        assert(all == seq![(i + 1, desc[i])] + rest);
        assert forall|j: int| 0 <= j < all.len() implies #[trigger] all[j] == (i + j + 1, desc[i + j]) by {
            if j > 0 {
                assert(all[j] == rest[j - 1]);
            }
        }
    }
}

/// Index stability: in one state of the log, the k-th pair of an unfiltered
/// listing with room for at least k pairs carries index k and the text of the
/// entry that relative index k resolves to.
pub proof fn lemma_index_stability(s: Seq<EntryModel>, limit: nat, k: int)
    requires
        1 <= k <= s.len(),
        k <= limit,
    ensures
        listing_from(texts_newest_first(s), 0, limit, None).len() >= k,
        listing_from(texts_newest_first(s), 0, limit, None)[k - 1] == (k, at_index(s, k).cmd),
{
    let desc = texts_newest_first(s);
    lemma_unfiltered_listing(desc, 0, limit);
    assert(listing_from(desc, 0, limit, None)[k - 1] == (k, desc[k - 1]));
}

/// Each pair of a listing from position `i` names a matching entry at or
/// after `i` by its position in the whole newest-first log, and the indices
/// rise along the listing.
proof fn lemma_listing_positions(desc: Seq<Seq<char>>, i: int, limit: nat, query: Option<Seq<char>>)
    requires
        0 <= i <= desc.len(),
    ensures
        ({
            let l = listing_from(desc, i, limit, query);
            &&& forall|j: int|
                0 <= j < l.len() ==> i + 1 <= #[trigger] l[j].0 <= desc.len() && l[j].1 == desc[l[j].0
                    - 1] && query_matches(query, l[j].1)
            &&& forall|a: int, b: int| 0 <= a < b < l.len() ==> #[trigger] l[a].0 < #[trigger] l[b].0
        }),
    decreases desc.len() - i,
{
    if i < desc.len() && limit > 0 {
        let l = listing_from(desc, i, limit, query);
        if query_matches(query, desc[i]) {
            let rest = listing_from(desc, i + 1, (limit - 1) as nat, query);
            lemma_listing_positions(desc, i + 1, (limit - 1) as nat, query);
            assert(l == seq![(i + 1, desc[i])] + rest);
            assert forall|j: int| 0 < j < l.len() implies l[j] == rest[j - 1] by {}
            assert forall|j: int| 0 <= j < l.len() implies i + 1 <= #[trigger] l[j].0 <= desc.len()
                && l[j].1 == desc[l[j].0 - 1] && query_matches(query, l[j].1) by {
                if j > 0 {
                    assert(l[j] == rest[j - 1]);
                }
            }
            assert forall|a: int, b: int| 0 <= a < b < l.len() implies #[trigger] l[a].0 < #[trigger] l[b].0 by {
                assert(l[b] == rest[b - 1]);
                if a > 0 {
                    assert(l[a] == rest[a - 1]);
                }
            }
        } else {
            lemma_listing_positions(desc, i + 1, limit, query);
            assert(l == listing_from(desc, i + 1, limit, query));
        }
    }
}

/// Filtered listings number by the full order: every `(k, cmd)` pair of a
/// listing, filtered or not, has `cmd` equal to the text at relative index
/// `k` and matching the query, and the indices rise, so entries that do not
/// match leave gaps instead of being renumbered.
pub proof fn lemma_filtered_indexing(s: Seq<EntryModel>, limit: nat, query: Option<Seq<char>>)
    ensures
        ({
            let l = listing_from(texts_newest_first(s), 0, limit, query);
            &&& forall|j: int|
                0 <= j < l.len() ==> 1 <= #[trigger] l[j].0 <= s.len() && l[j].1 == at_index(s, l[j].0).cmd
                    && query_matches(query, l[j].1)
            &&& forall|a: int, b: int| 0 <= a < b < l.len() ==> #[trigger] l[a].0 < #[trigger] l[b].0
        }),
{
    lemma_listing_positions(texts_newest_first(s), 0, limit, query);
}

/// After a save, the newest entry holds the saved text.
proof fn lemma_saved_is_newest(s: Seq<EntryModel>, next: u64, cmd: Seq<char>, t: i64)
    ensures
        save_result(s, next, cmd, t).len() > 0,
        save_result(s, next, cmd, t).last().cmd == cmd,
{
    let e = EntryModel { id: next, cmd, created_at: t };
    lemma_insert_then_resolve(s, e);
}

/// Saving the same text twice in a row leaves the log exactly as the first
/// save left it, whatever the id and time of the second attempt.
pub proof fn lemma_repeat_save(s: Seq<EntryModel>, n1: u64, n2: u64, cmd: Seq<char>, t1: i64, t2: i64)
    ensures
        save_result(save_result(s, n1, cmd, t1), n2, cmd, t2) == save_result(s, n1, cmd, t1),
{
    lemma_saved_is_newest(s, n1, cmd, t1);
}

/// Saving `a`, another text `b`, then `a` again into an empty log keeps all
/// three, so `a` is stored twice.
pub proof fn lemma_save_after_other(
    a: Seq<char>,
    b: Seq<char>,
    n1: u64,
    n2: u64,
    n3: u64,
    t1: i64,
    t2: i64,
    t3: i64,
)
    requires
        a != b,
    ensures
        ({
            let r = save_result(
                save_result(save_result(Seq::empty(), n1, a, t1), n2, b, t2),
                n3,
                a,
                t3,
            );
            &&& r.len() == 3
            &&& r[0].cmd == a
            &&& r[1].cmd == b
            &&& r[2].cmd == a
        }),
{
    let r1 = save_result(Seq::empty(), n1, a, t1);
    assert(r1 =~= seq![EntryModel { id: n1, cmd: a, created_at: t1 }]);
    let r2 = save_result(r1, n2, b, t2);
    assert(r2 =~= r1.push(EntryModel { id: n2, cmd: b, created_at: t2 }));
    let r3 = save_result(r2, n3, a, t3);
    assert(r3 =~= r2.push(EntryModel { id: n3, cmd: a, created_at: t3 }));
}

/// Round trip: after an insert, relative index 1 resolves to the entry just
/// inserted.
pub proof fn lemma_insert_then_resolve(s: Seq<EntryModel>, e: EntryModel)
    ensures
        keep_newest(s.push(e), DB_CAP as nat).len() >= 1,
        at_index(keep_newest(s.push(e), DB_CAP as nat), 1) == e,
{
}

} // verus!
