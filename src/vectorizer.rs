//! The short-term vectorizer's bookkeeping: the vector file's metadata,
//! where the file lives, and how records are upserted by id.

use vstd::prelude::*;
use crate::outside::{json_bool, json_object, json_text};
use crate::packet::{ConversationPacket, has_state};
use crate::storage::{get_vector_file_path, topic_dir_of};
use crate::text::text_eq;

verus! {

/// What the vector file records about its embeddings.
#[derive(Debug, Clone)]
pub struct VectorFileMetadata {
    pub embedding_model: String,
    pub dimension: usize,
    /// RFC 3339.
    pub last_updated: String,
}

/// A record of the vector file under its memory id.
#[derive(Debug, Clone)]
pub struct Keyed<T> {
    pub id: String,
    pub record: T,
}

/// The first index of a record with id `id`.
pub open spec fn key_index<T>(s: Seq<Keyed<T>>, id: Seq<char>) -> Option<int>
    decreases s.len(),
{
    if s.len() == 0 {
        None
    } else {
        match key_index(s.drop_last(), id) {
            Some(i) => Some(i),
            None => if s.last().id@ == id {
                Some(s.len() - 1)
            } else {
                None
            },
        }
    }
}

/// `s` with `k` in place of the record of the same id, or appended.
pub open spec fn upserted<T>(s: Seq<Keyed<T>>, k: Keyed<T>) -> Seq<Keyed<T>> {
    match key_index(s, k.id@) {
        Some(j) => s.update(j, k),
        None => s.push(k),
    }
}

/// `s` after upserting each of `items` in order.
pub open spec fn upserted_all<T>(s: Seq<Keyed<T>>, items: Seq<Keyed<T>>) -> Seq<Keyed<T>>
    decreases items.len(),
{
    if items.len() == 0 {
        s
    } else {
        upserted(upserted_all(s, items.drop_last()), items.last())
    }
}

/// `k` stands in `s` at the first index of its id.
pub open spec fn present<T>(s: Seq<Keyed<T>>, k: Keyed<T>) -> bool {
    key_index(s, k.id@) matches Some(j) && s[j] == k
}

proof fn lemma_key_index_bound<T>(s: Seq<Keyed<T>>, id: Seq<char>)
    ensures
        key_index(s, id) matches Some(j) ==> 0 <= j < s.len() && s[j].id@ == id,
    decreases s.len(),
{
    if s.len() > 0 {
        lemma_key_index_bound(s.drop_last(), id);
    }
}

/// Replacing a record by one of the same id leaves every id's index as it was.
proof fn lemma_key_index_update<T>(s: Seq<Keyed<T>>, j: int, k: Keyed<T>, id: Seq<char>)
    requires
        0 <= j < s.len(),
        s[j].id@ == k.id@,
    ensures
        key_index(s.update(j, k), id) == key_index(s, id),
    decreases s.len(),
{
    if j < s.len() - 1 {
        assert(s.update(j, k).drop_last() =~= s.drop_last().update(j, k));
        lemma_key_index_update(s.drop_last(), j, k, id);
    } else {
        assert(s.update(j, k).drop_last() =~= s.drop_last());
    }
}

/// After an upsert of `k`, `k` stands at its id; a record of another id that
/// stood there still does.
proof fn lemma_upserted_present<T>(s: Seq<Keyed<T>>, k: Keyed<T>, x: Keyed<T>)
    ensures
        present(upserted(s, k), k),
        present(s, x) && x.id@ != k.id@ ==> present(upserted(s, k), x),
{
    lemma_key_index_bound(s, k.id@);
    match key_index(s, k.id@) {
        Some(j) => {
            lemma_key_index_update(s, j, k, k.id@);
            lemma_key_index_update(s, j, k, x.id@);
            if present(s, x) && x.id@ != k.id@ {
                lemma_key_index_bound(s, x.id@);
            }
        },
        None => {
            assert(s.push(k).drop_last() =~= s);
            if present(s, x) && x.id@ != k.id@ {
                lemma_key_index_bound(s, x.id@);
            }
        },
    }
}

/// A second run with the same first embedding leaves the file's dimension as
/// the first run set it.
pub proof fn lemma_dimension_settles(current: usize, embedding_len: usize)
    ensures
        ({
            let once = if current == 0 { embedding_len } else { current };
            (if once == 0 { embedding_len } else { once }) == once
        }),
{
}

/// The last of the first `n` items with id `id`.
pub open spec fn last_with<T>(items: Seq<Keyed<T>>, id: Seq<char>, n: int) -> Option<Keyed<T>>
    decreases n,
{
    if n <= 0 {
        None
    } else if items[n - 1].id@ == id {
        Some(items[n - 1])
    } else {
        last_with(items, id, n - 1)
    }
}

proof fn lemma_last_with_id<T>(items: Seq<Keyed<T>>, id: Seq<char>, n: int)
    requires
        n <= items.len(),
    ensures
        last_with(items, id, n) matches Some(x) ==> x.id@ == id,
    decreases n,
{
    if n > 0 && items[n - 1].id@ != id {
        lemma_last_with_id(items, id, n - 1);
    }
}

/// After upserting the first `n` items, the last of them with each id
/// stands at that id.
proof fn lemma_last_present<T>(s: Seq<Keyed<T>>, items: Seq<Keyed<T>>, n: int, id: Seq<char>)
    requires
        0 <= n <= items.len(),
    ensures
        last_with(items, id, n) matches Some(x) ==> present(
            upserted_all(s, items.subrange(0, n)),
            x,
        ),
    decreases n,
{
    if n > 0 {
        let pre = items.subrange(0, n);
        assert(pre.drop_last() =~= items.subrange(0, n - 1));
        assert(pre.last() == items[n - 1]);
        let mid = upserted_all(s, items.subrange(0, n - 1));
        lemma_upserted_present(mid, items[n - 1], items[n - 1]);
        if items[n - 1].id@ != id {
            lemma_last_present(s, items, n - 1, id);
            match last_with(items, id, n - 1) {
                Some(x) => {
                    lemma_last_with_id(items, id, n - 1);
                    lemma_upserted_present(mid, items[n - 1], x);
                },
                None => {},
            }
        }
    }
}

/// `key_index` reads ids alone.
proof fn lemma_key_index_same_ids<T>(a: Seq<Keyed<T>>, b: Seq<Keyed<T>>, id: Seq<char>)
    requires
        a.len() == b.len(),
        forall|j: int| 0 <= j < a.len() ==> a[j].id@ == b[j].id@,
    ensures
        key_index(a, id) == key_index(b, id),
    decreases a.len(),
{
    if a.len() > 0 {
        lemma_key_index_same_ids(a.drop_last(), b.drop_last(), id);
    }
}

/// What reapplying the first `n` items to a list where every id's last
/// item already stands does: the slot of each id holds the last of those
/// `n` items with it (when there is one), all else stays.
pub open spec fn reapplied<T>(s: Seq<Keyed<T>>, items: Seq<Keyed<T>>, n: int, j: int) -> Keyed<T> {
    if key_index(s, s[j].id@) == Some(j) && last_with(items, s[j].id@, n) is Some {
        last_with(items, s[j].id@, n)->0
    } else {
        s[j]
    }
}

proof fn lemma_reapply_general<T>(s: Seq<Keyed<T>>, items: Seq<Keyed<T>>, n: int)
    requires
        0 <= n <= items.len(),
        forall|i: int|
            0 <= i < items.len() ==> #[trigger] key_index(s, items[i].id@) is Some,
    ensures
        upserted_all(s, items.subrange(0, n)).len() == s.len(),
        forall|j: int|
            0 <= j < s.len() ==> #[trigger] upserted_all(s, items.subrange(0, n))[j] == reapplied(
                s,
                items,
                n,
                j,
            ),
    decreases n,
{
    if n == 0 {
        assert(items.subrange(0, 0) =~= Seq::<Keyed<T>>::empty());
    } else {
        lemma_reapply_general(s, items, n - 1);
        let pre = items.subrange(0, n);
        assert(pre.drop_last() =~= items.subrange(0, n - 1));
        assert(pre.last() == items[n - 1]);
        let y = upserted_all(s, items.subrange(0, n - 1));
        let k = items[n - 1];
        assert forall|j: int| 0 <= j < y.len() implies y[j].id@ == s[j].id@ by {
            lemma_last_with_id(items, s[j].id@, n - 1);
            assert(y[j] == reapplied(s, items, n - 1, j));
        }
        lemma_key_index_same_ids(y, s, k.id@);
        assert(key_index(s, k.id@) is Some);
        lemma_key_index_bound(s, k.id@);
        let j0 = key_index(s, k.id@)->0;
        assert forall|j: int| 0 <= j < s.len() implies #[trigger] upserted_all(s, pre)[j]
            == reapplied(s, items, n, j) by {
            assert(y[j] == reapplied(s, items, n - 1, j));
            if j == j0 {
                assert(s[j].id@ == k.id@);
            } else if key_index(s, s[j].id@) == Some(j) && s[j].id@ == k.id@ {
                assert(j == j0);
            }
        }
    }
}

/// Upserting the same records a second time changes nothing, whether or
/// not their ids repeat: a second run over an unchanged pool leaves the
/// file as it was.
pub proof fn lemma_upsert_idempotent<T>(s: Seq<Keyed<T>>, items: Seq<Keyed<T>>)
    ensures
        upserted_all(upserted_all(s, items), items) == upserted_all(s, items),
{
    let l1 = upserted_all(s, items);
    assert(items.subrange(0, items.len() as int) =~= items);
    assert forall|i: int| 0 <= i < items.len() implies #[trigger] key_index(l1, items[i].id@) is Some by {
        lemma_last_present(s, items, items.len() as int, items[i].id@);
        assert(last_with(items, items[i].id@, items.len() as int) is Some) by {
            lemma_last_exists(items, items[i].id@, items.len() as int, i);
        }
        lemma_last_with_id(items, items[i].id@, items.len() as int);
        assert(items.subrange(0, items.len() as int) =~= items);
    }
    lemma_reapply_general(l1, items, items.len() as int);
    let l2 = upserted_all(l1, items);
    assert forall|j: int| 0 <= j < l1.len() implies l2[j] == l1[j] by {
        assert(l2[j] == reapplied(l1, items, items.len() as int, j));
        let id = l1[j].id@;
        if key_index(l1, id) == Some(j) && last_with(items, id, items.len() as int) is Some {
            lemma_last_present(s, items, items.len() as int, id);
            lemma_last_with_id(items, id, items.len() as int);
        }
    }
    assert(l2 =~= l1);
}

proof fn lemma_last_exists<T>(items: Seq<Keyed<T>>, id: Seq<char>, n: int, i: int)
    requires
        0 <= i < n <= items.len(),
        items[i].id@ == id,
    ensures
        last_with(items, id, n) is Some,
    decreases n,
{
    if items[n - 1].id@ != id {
        lemma_last_exists(items, id, n - 1, i);
    }
}

/// Put `item` in place of the record with its id, or append it.
pub fn upsert_record<T>(records: &mut Vec<Keyed<T>>, item: Keyed<T>)
    ensures
        final(records)@ == upserted(old(records)@, item),
{
    let mut i: usize = 0;
    while i < records.len()
        invariant
            i <= records@.len(),
            records@ == old(records)@,
            key_index(records@.subrange(0, i as int), item.id@) is None,
        decreases records@.len() - i,
    {
        assert(records@.subrange(0, i + 1).drop_last() =~= records@.subrange(0, i as int));
        if text_eq(records[i].id.as_str(), item.id.as_str()) {
            proof {
                lemma_key_prefix(records@, i + 1, item.id@);
            }
            records.set(i, item);
            return;
        }
        i = i + 1;
    }
    assert(records@.subrange(0, records@.len() as int) =~= records@);
    records.push(item);
}

proof fn lemma_key_prefix<T>(s: Seq<Keyed<T>>, n: int, id: Seq<char>)
    requires
        0 <= n <= s.len(),
        key_index(s.subrange(0, n), id) is Some,
    ensures
        key_index(s, id) == key_index(s.subrange(0, n), id),
    decreases s.len(),
{
    if n == s.len() {
        assert(s.subrange(0, n) =~= s);
    } else {
        assert(s.drop_last().subrange(0, n) =~= s.subrange(0, n));
        lemma_key_prefix(s.drop_last(), n, id);
    }
}

/// Upsert each of `items` in order.
pub fn upsert_records<T>(records: &mut Vec<Keyed<T>>, items: Vec<Keyed<T>>)
    ensures
        final(records)@ == upserted_all(old(records)@, items@),
{
    let ghost all = items@;
    let ghost start = old(records)@;
    let mut rest = items;
    let total = rest.len();
    let mut done: usize = 0;
    while rest.len() > 0
        invariant
            total == all.len(),
            done <= all.len(),
            start == old(records)@,
            rest@ == all.subrange(done as int, all.len() as int),
            records@ == upserted_all(start, all.subrange(0, done as int)),
        decreases rest@.len(),
    {
        let item = rest.remove(0);
        upsert_record(records, item);
        proof {
            assert(item == all[done as int]);
            assert(all.subrange(0, done + 1).drop_last() =~= all.subrange(0, done as int));
            assert(rest@ =~= all.subrange(done + 1, all.len() as int));
        }
        done = done + 1;
    }
    assert(all.subrange(0, all.len() as int) =~= all);
}

/// Keeps each topic's vector file in step with its short-term memories.
pub struct ShortTermVectorizer;

impl ShortTermVectorizer {
    pub fn new() -> (r: ShortTermVectorizer) {
        ShortTermVectorizer
    }

    pub fn name(&self) -> (r: &'static str) {
        "ShortTermVectorizer"
    }

    pub fn requires_memory(&self) -> (r: bool)
        ensures
            r,
    {
        true
    }

    /// Start the step: with no short-term memories, record the skip and
    /// return false; otherwise return true and leave the packet alone.
    pub fn begin(&self, packet: &mut ConversationPacket) -> (r: bool)
        requires
            old(packet).wf(),
        ensures
            final(packet).wf(),
            r == (old(packet).short_term_memory@.len() > 0),
            r ==> *final(packet) == *old(packet),
            !r ==> has_state(final(packet).current_states@, "ShortTermVectorizer"@)
                && final(packet).messages == old(packet).messages && final(packet).user_input
                == old(packet).user_input && final(packet).short_term_memory == old(
                packet,
            ).short_term_memory,
    {
        if packet.short_term_memory.len() > 0 {
            return true;
        }
        let mut entries: Vec<(String, serde_json::Value)> = Vec::new();
        entries.push((String::from_str("vectorized"), json_bool(false)));
        entries.push((String::from_str("reason"), json_text(String::from_str("no_memories"))));
        packet.set_processor_state("ShortTermVectorizer", json_object(entries));
        proof {
            reveal_strlit("ShortTermVectorizer");
        }
        false
    }

    /// The file's dimension after a vectorized record with an embedding of
    /// `embedding_len` values: set from the first embedding, kept after.
    pub fn next_dimension(current: usize, embedding_len: usize) -> (r: usize)
        ensures
            current == 0 ==> r == embedding_len,
            current != 0 ==> r == current,
    {
        if current == 0 {
            embedding_len
        } else {
            current
        }
    }

    /// The vector file of the packet's topic.
    pub fn get_vector_file_path(data_dir: &str, packet: &ConversationPacket) -> (r: String)
        ensures
            r@ == topic_dir_of(data_dir@, packet.assistant_id@, packet.topic_id@)
                + "/short_term_vectors.json"@,
    {
        get_vector_file_path(data_dir, packet.assistant_id.as_str(), packet.topic_id.as_str())
    }
}

} // verus!
