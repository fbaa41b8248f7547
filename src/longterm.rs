//! Long-term memories as the vector store keeps them: the fixed payload
//! schema, reading a memory back from a payload, and search filters.

use vstd::prelude::*;
use crate::text::text_eq;

verus! {

/// A memory of the long-term collection.
#[derive(Debug, Clone)]
pub struct LongTermMemory {
    pub id: String,
    pub content: String,
    pub category: String,
    /// In millionths.
    pub importance: u32,
    pub access_count: u32,
    /// Seconds since the Unix epoch.
    pub last_accessed: i64,
    /// Seconds since the Unix epoch.
    pub created_at: i64,
    pub source_session: Option<String>,
    pub file_refs: Vec<String>,
    pub tags: Vec<String>,
}

/// A payload value. Scores are in millionths.
#[derive(Debug)]
pub enum PayloadValue {
    Text(String),
    Integer(i64),
    Score(u32),
    List(Vec<PayloadValue>),
}

pub type Payload = Vec<(String, PayloadValue)>;

pub open spec fn payload_keys_unique(p: Seq<(String, PayloadValue)>) -> bool {
    forall|a: int, b: int| 0 <= a < b < p.len() ==> p[a].0@ != p[b].0@
}

/// The first index of `key`.
pub open spec fn entry_index(p: Seq<(String, PayloadValue)>, key: Seq<char>) -> Option<int>
    decreases p.len(),
{
    if p.len() == 0 {
        None
    } else {
        match entry_index(p.drop_last(), key) {
            Some(i) => Some(i),
            None => if p.last().0@ == key {
                Some(p.len() - 1)
            } else {
                None
            },
        }
    }
}

/// The value under `key`.
pub open spec fn lookup(p: Seq<(String, PayloadValue)>, key: Seq<char>) -> Option<PayloadValue> {
    match entry_index(p, key) {
        Some(i) => Some(p[i].1),
        None => None,
    }
}

/// `v` is the list of the texts `ts`, in order.
pub open spec fn is_text_list(v: PayloadValue, ts: Seq<String>) -> bool {
    match v {
        PayloadValue::List(items) => items@.len() == ts.len() && forall|i: int|
            0 <= i < ts.len() ==> #[trigger] items@[i] == PayloadValue::Text(ts[i]),
        _ => false,
    }
}

/// The texts of a list value (other items are skipped); nothing for any other value.
pub open spec fn texts_in(v: Option<PayloadValue>) -> Seq<Seq<char>> {
    match v {
        Some(PayloadValue::List(items)) => texts_of(items@),
        _ => Seq::empty(),
    }
}

pub open spec fn texts_of(items: Seq<PayloadValue>) -> Seq<Seq<char>>
    decreases items.len(),
{
    if items.len() == 0 {
        Seq::empty()
    } else {
        let rest = texts_of(items.drop_last());
        match items.last() {
            PayloadValue::Text(t) => rest.push(t@),
            _ => rest,
        }
    }
}

proof fn lemma_entry_prefix(p: Seq<(String, PayloadValue)>, n: int, key: Seq<char>)
    requires
        0 <= n <= p.len(),
        entry_index(p.subrange(0, n), key) is Some,
    ensures
        entry_index(p, key) == entry_index(p.subrange(0, n), key),
    decreases p.len(),
{
    if n == p.len() {
        assert(p.subrange(0, n) =~= p);
    } else {
        assert(p.drop_last().subrange(0, n) =~= p.subrange(0, n));
        lemma_entry_prefix(p.drop_last(), n, key);
    }
}

proof fn lemma_entry_bound(p: Seq<(String, PayloadValue)>, key: Seq<char>)
    ensures
        entry_index(p, key) matches Some(i) ==> 0 <= i < p.len() && p[i].0@ == key,
    decreases p.len(),
{
    if p.len() > 0 {
        lemma_entry_bound(p.drop_last(), key);
    }
}

proof fn lemma_entry_unique(p: Seq<(String, PayloadValue)>, key: Seq<char>, i: int)
    requires
        payload_keys_unique(p),
        0 <= i < p.len(),
        p[i].0@ == key,
    ensures
        entry_index(p, key) == Some(i),
    decreases p.len(),
{
    if i < p.len() - 1 {
        assert(payload_keys_unique(p.drop_last()));
        lemma_entry_unique(p.drop_last(), key, i);
    } else {
        lemma_entry_absent(p.drop_last(), key);
    }
}

proof fn lemma_entry_absent(p: Seq<(String, PayloadValue)>, key: Seq<char>)
    requires
        forall|k: int| 0 <= k < p.len() ==> p[k].0@ != key,
    ensures
        entry_index(p, key) is None,
    decreases p.len(),
{
    if p.len() > 0 {
        lemma_entry_absent(p.drop_last(), key);
    }
}

/// The value under `key` in `p`.
pub fn payload_get<'a>(p: &'a Vec<(String, PayloadValue)>, key: &str) -> (r: Option<&'a PayloadValue>)
    ensures
        r matches Some(v) ==> lookup(p@, key@) == Some(*v),
        r is None ==> lookup(p@, key@) is None,
{
    let mut i: usize = 0;
    while i < p.len()
        invariant
            i <= p@.len(),
            entry_index(p@.subrange(0, i as int), key@) is None,
        decreases p@.len() - i,
    {
        assert(p@.subrange(0, i + 1).drop_last() =~= p@.subrange(0, i as int));
        if text_eq(p[i].0.as_str(), key) {
            proof {
                lemma_entry_prefix(p@, i + 1, key@);
            }
            return Some(&p[i].1);
        }
        i = i + 1;
    }
    assert(p@.subrange(0, p@.len() as int) =~= p@);
    None
}

fn text_list(ts: &Vec<String>) -> (r: PayloadValue)
    ensures
        is_text_list(r, ts@),
{
    let mut items: Vec<PayloadValue> = Vec::new();
    let mut i: usize = 0;
    while i < ts.len()
        invariant
            i <= ts@.len(),
            items@.len() == i,
            forall|k: int| 0 <= k < i ==> #[trigger] items@[k] == PayloadValue::Text(ts@[k]),
        decreases ts@.len() - i,
    {
        items.push(PayloadValue::Text(ts[i].clone()));
        i = i + 1;
    }
    PayloadValue::List(items)
}

/// The payload's keys are distinct.
proof fn lemma_key_names()
    ensures
        "id"@ != "content"@,
        "id"@ != "category"@,
        "id"@ != "importance"@,
        "id"@ != "access_count"@,
        "id"@ != "last_accessed"@,
        "id"@ != "created_at"@,
        "id"@ != "source_session"@,
        "id"@ != "file_refs"@,
        "id"@ != "tags"@,
        "content"@ != "category"@,
        "content"@ != "importance"@,
        "content"@ != "access_count"@,
        "content"@ != "last_accessed"@,
        "content"@ != "created_at"@,
        "content"@ != "source_session"@,
        "content"@ != "file_refs"@,
        "content"@ != "tags"@,
        "category"@ != "importance"@,
        "category"@ != "access_count"@,
        "category"@ != "last_accessed"@,
        "category"@ != "created_at"@,
        "category"@ != "source_session"@,
        "category"@ != "file_refs"@,
        "category"@ != "tags"@,
        "importance"@ != "access_count"@,
        "importance"@ != "last_accessed"@,
        "importance"@ != "created_at"@,
        "importance"@ != "source_session"@,
        "importance"@ != "file_refs"@,
        "importance"@ != "tags"@,
        "access_count"@ != "last_accessed"@,
        "access_count"@ != "created_at"@,
        "access_count"@ != "source_session"@,
        "access_count"@ != "file_refs"@,
        "access_count"@ != "tags"@,
        "last_accessed"@ != "created_at"@,
        "last_accessed"@ != "source_session"@,
        "last_accessed"@ != "file_refs"@,
        "last_accessed"@ != "tags"@,
        "created_at"@ != "source_session"@,
        "created_at"@ != "file_refs"@,
        "created_at"@ != "tags"@,
        "source_session"@ != "file_refs"@,
        "source_session"@ != "tags"@,
        "file_refs"@ != "tags"@,
{
        reveal_strlit("id");
        reveal_strlit("content");
        reveal_strlit("category");
        reveal_strlit("importance");
        reveal_strlit("access_count");
        reveal_strlit("last_accessed");
        reveal_strlit("created_at");
        reveal_strlit("source_session");
        reveal_strlit("file_refs");
        reveal_strlit("tags");
    assert("id"@.len() == 2);
    assert("content"@.len() == 7);
    assert("category"@.len() == 8);
    assert("importance"@.len() == 10);
    assert("access_count"@.len() == 12);
    assert("last_accessed"@.len() == 13);
    assert("created_at"@.len() == 10);
    assert("source_session"@.len() == 14);
    assert("file_refs"@.len() == 9);
    assert("tags"@.len() == 4);
    assert("importance"@[0] == 'i');
    assert("created_at"@[0] == 'c');
}

/// Append an entry whose key is not yet used.
fn push_entry(p: &mut Payload, key: &str, v: PayloadValue, used: Ghost<Set<Seq<char>>>)
    requires
        payload_keys_unique(old(p)@),
        forall|k: int| 0 <= k < old(p)@.len() ==> used@.contains(#[trigger] old(p)@[k].0@),
        !used@.contains(key@),
    ensures
        payload_keys_unique(final(p)@),
        forall|k: int| 0 <= k < final(p)@.len() ==> used@.insert(key@).contains(#[trigger] final(p)@[k].0@),
        final(p)@.len() == old(p)@.len() + 1,
        final(p)@.drop_last() == old(p)@,
        final(p)@.last().0@ == key@,
        final(p)@.last().1 == v,
{
    let ghost before = p@;
    p.push((String::from_str(key), v));
    proof {
        assert(p@.drop_last() =~= before);
        assert forall|a: int, b: int| 0 <= a < b < p@.len() implies p@[a].0@ != p@[b].0@ by {
            if b < before.len() {
                assert(p@[a] == before[a] && p@[b] == before[b]);
            } else {
                assert(p@[a] == before[a]);
                assert(used@.contains(before[a].0@));
            }
        }
        assert forall|k: int| 0 <= k < p@.len() implies used@.insert(key@).contains(#[trigger] p@[k].0@) by {
            if k < before.len() {
                assert(p@[k] == before[k]);
            }
        }
    }
}

/// The payload a memory is stored with: every scalar field, the session
/// when there is one, and the file references and tags when there are any.
pub fn memory_to_payload(m: &LongTermMemory) -> (r: Payload)
    ensures
        payload_keys_unique(r@),
        lookup(r@, "id"@) == Some(PayloadValue::Text(m.id)),
        lookup(r@, "content"@) == Some(PayloadValue::Text(m.content)),
        lookup(r@, "category"@) == Some(PayloadValue::Text(m.category)),
        lookup(r@, "importance"@) == Some(PayloadValue::Score(m.importance)),
        lookup(r@, "access_count"@) == Some(PayloadValue::Integer(m.access_count as i64)),
        lookup(r@, "last_accessed"@) == Some(PayloadValue::Integer(m.last_accessed)),
        lookup(r@, "created_at"@) == Some(PayloadValue::Integer(m.created_at)),
        m.source_session matches Some(s) ==> lookup(r@, "source_session"@) == Some(
            PayloadValue::Text(s),
        ),
        m.source_session is None ==> lookup(r@, "source_session"@) is None,
        m.file_refs@.len() > 0 ==> (lookup(r@, "file_refs"@) matches Some(v) && is_text_list(
            v,
            m.file_refs@,
        )),
        m.file_refs@.len() == 0 ==> lookup(r@, "file_refs"@) is None,
        m.tags@.len() > 0 ==> (lookup(r@, "tags"@) matches Some(v) && is_text_list(v, m.tags@)),
        m.tags@.len() == 0 ==> lookup(r@, "tags"@) is None,
        r@.len() == 7 + (if m.source_session is Some { 1int } else { 0 }) + (if m.file_refs@.len()
            > 0 { 1int } else { 0 }) + (if m.tags@.len() > 0 { 1int } else { 0 }),
{
    proof {
        lemma_key_names();
    }
    let ghost mut used: Set<Seq<char>> = Set::empty();
    let mut p: Payload = Vec::new();
    push_entry(&mut p, "id", PayloadValue::Text(m.id.clone()), Ghost(used));
    let ghost i_id = p@.len() - 1;
    proof { used = used.insert("id"@); }
    push_entry(&mut p, "content", PayloadValue::Text(m.content.clone()), Ghost(used));
    let ghost i_content = p@.len() - 1;
    proof { used = used.insert("content"@); }
    push_entry(&mut p, "category", PayloadValue::Text(m.category.clone()), Ghost(used));
    let ghost i_category = p@.len() - 1;
    proof { used = used.insert("category"@); }
    push_entry(&mut p, "importance", PayloadValue::Score(m.importance), Ghost(used));
    let ghost i_importance = p@.len() - 1;
    proof { used = used.insert("importance"@); }
    push_entry(&mut p, "access_count", PayloadValue::Integer(m.access_count as i64), Ghost(used));
    let ghost i_access = p@.len() - 1;
    proof { used = used.insert("access_count"@); }
    push_entry(&mut p, "last_accessed", PayloadValue::Integer(m.last_accessed), Ghost(used));
    let ghost i_last = p@.len() - 1;
    proof { used = used.insert("last_accessed"@); }
    push_entry(&mut p, "created_at", PayloadValue::Integer(m.created_at), Ghost(used));
    let ghost i_created = p@.len() - 1;
    proof { used = used.insert("created_at"@); }
    let ghost fixed = p@;
    match &m.source_session {
        Some(s) => {
            push_entry(&mut p, "source_session", PayloadValue::Text(s.clone()), Ghost(used));
        },
        None => {},
    }
    let ghost i_session = p@.len() - 1;
    proof { used = used.insert("source_session"@); }
    let ghost with_session = p@;
    if m.file_refs.len() > 0 {
        push_entry(&mut p, "file_refs", text_list(&m.file_refs), Ghost(used));
    }
    let ghost i_files = p@.len() - 1;
    proof { used = used.insert("file_refs"@); }
    let ghost with_files = p@;
    if m.tags.len() > 0 {
        push_entry(&mut p, "tags", text_list(&m.tags), Ghost(used));
    }
    proof {
        let q = p@;
        assert(q.subrange(0, 7) =~= fixed);
        assert forall|k: int| 0 <= k < 7 implies q[k] == fixed[k] by {
            assert(q.subrange(0, 7)[k] == q[k]);
        }
        lemma_entry_unique(q, "id"@, 0);
        lemma_entry_unique(q, "content"@, 1);
        lemma_entry_unique(q, "category"@, 2);
        lemma_entry_unique(q, "importance"@, 3);
        lemma_entry_unique(q, "access_count"@, 4);
        lemma_entry_unique(q, "last_accessed"@, 5);
        lemma_entry_unique(q, "created_at"@, 6);
        assert(fixed[0].0@ == "id"@);
        if m.source_session is Some {
            assert(q[7] == with_session[7]);
            lemma_entry_unique(q, "source_session"@, 7);
        } else {
            assert(forall|k: int| 0 <= k < q.len() ==> q[k].0@ != "source_session"@);
            lemma_entry_absent(q, "source_session"@);
        }
        if m.file_refs@.len() > 0 {
            let fi = with_session.len() as int;
            assert(q[fi] == with_files[fi]);
            lemma_entry_unique(q, "file_refs"@, fi);
        } else {
            lemma_entry_absent(q, "file_refs"@);
        }
        if m.tags@.len() > 0 {
            lemma_entry_unique(q, "tags"@, q.len() - 1);
        } else {
            lemma_entry_absent(q, "tags"@);
        }
    }
    p
}

/// The texts of the list under `key` (items that are not text are passed
/// over); nothing when there is no list there.
pub fn extract_string_list(p: &Payload, key: &str) -> (r: Vec<String>)
    ensures
        r@.map_values(|t: String| t@) == texts_in(lookup(p@, key@)),
{
    match payload_get(p, key) {
        Some(PayloadValue::List(items)) => {
            let mut out: Vec<String> = Vec::new();
            let mut i: usize = 0;
            while i < items.len()
                invariant
                    i <= items@.len(),
                    out@.map_values(|t: String| t@) == texts_of(items@.subrange(0, i as int)),
                decreases items@.len() - i,
            {
                assert(items@.subrange(0, i + 1).drop_last() =~= items@.subrange(0, i as int));
                match &items[i] {
                    PayloadValue::Text(t) => {
                        let ghost before = out@.map_values(|t: String| t@);
                        out.push(t.clone());
                        assert(out@.map_values(|t: String| t@) =~= before.push(t@));
                    },
                    _ => {},
                }
                i = i + 1;
            }
            assert(items@.subrange(0, items@.len() as int) =~= items@);
            out
        },
        _ => Vec::new(),
    }
}

fn get_text(p: &Payload, key: &str) -> (r: Option<String>)
    ensures
        r matches Some(t) ==> lookup(p@, key@) matches Some(PayloadValue::Text(u)) && t@ == u@,
        r is None ==> !(lookup(p@, key@) matches Some(PayloadValue::Text(_))),
{
    match payload_get(p, key) {
        Some(PayloadValue::Text(t)) => Some(t.clone()),
        _ => None,
    }
}

fn get_integer(p: &Payload, key: &str) -> (r: Option<i64>)
    ensures
        r matches Some(n) ==> lookup(p@, key@) == Some(PayloadValue::Integer(n)),
        r is None ==> !(lookup(p@, key@) matches Some(PayloadValue::Integer(_))),
{
    match payload_get(p, key) {
        Some(PayloadValue::Integer(n)) => Some(*n),
        _ => None,
    }
}

/// The memory a payload holds: id, content, category, importance,
/// access count and both times are required, with the right kinds; an
/// access count that does not fit is refused.
pub fn payload_to_memory(p: &Payload) -> (r: Option<LongTermMemory>)
    ensures
        r is Some <==> {
            &&& lookup(p@, "id"@) matches Some(PayloadValue::Text(_))
            &&& lookup(p@, "content"@) matches Some(PayloadValue::Text(_))
            &&& lookup(p@, "category"@) matches Some(PayloadValue::Text(_))
            &&& lookup(p@, "importance"@) matches Some(PayloadValue::Score(_))
            &&& lookup(p@, "access_count"@) matches Some(PayloadValue::Integer(n)) && 0 <= n
                <= u32::MAX
            &&& lookup(p@, "last_accessed"@) matches Some(PayloadValue::Integer(_))
            &&& lookup(p@, "created_at"@) matches Some(PayloadValue::Integer(_))
        },
        r matches Some(m) ==> {
            &&& lookup(p@, "id"@) matches Some(PayloadValue::Text(t)) && m.id@ == t@
            &&& lookup(p@, "content"@) matches Some(PayloadValue::Text(t)) && m.content@ == t@
            &&& lookup(p@, "category"@) matches Some(PayloadValue::Text(t)) && m.category@ == t@
            &&& lookup(p@, "importance"@) == Some(PayloadValue::Score(m.importance))
            &&& lookup(p@, "access_count"@) == Some(PayloadValue::Integer(m.access_count as i64))
            &&& lookup(p@, "last_accessed"@) == Some(PayloadValue::Integer(m.last_accessed))
            &&& lookup(p@, "created_at"@) == Some(PayloadValue::Integer(m.created_at))
            &&& (m.source_session matches Some(s) <==> lookup(p@, "source_session"@) matches Some(
                PayloadValue::Text(_),
            ))
            &&& (m.source_session matches Some(s) ==> lookup(p@, "source_session"@) matches Some(
                PayloadValue::Text(t),
            ) && s@ == t@)
            &&& m.file_refs@.map_values(|t: String| t@) == texts_in(lookup(p@, "file_refs"@))
            &&& m.tags@.map_values(|t: String| t@) == texts_in(lookup(p@, "tags"@))
        },
{
    let id = match get_text(p, "id") {
        Some(t) => t,
        None => {
            return None;
        },
    };
    let content = match get_text(p, "content") {
        Some(t) => t,
        None => {
            return None;
        },
    };
    let category = match get_text(p, "category") {
        Some(t) => t,
        None => {
            return None;
        },
    };
    let importance = match payload_get(p, "importance") {
        Some(PayloadValue::Score(s)) => *s,
        _ => {
            return None;
        },
    };
    let access_count = match get_integer(p, "access_count") {
        Some(n) => {
            if n < 0 || n > u32::MAX as i64 {
                return None;
            }
            n as u32
        },
        None => {
            return None;
        },
    };
    let last_accessed = match get_integer(p, "last_accessed") {
        Some(n) => n,
        None => {
            return None;
        },
    };
    let created_at = match get_integer(p, "created_at") {
        Some(n) => n,
        None => {
            return None;
        },
    };
    let source_session = get_text(p, "source_session");
    let file_refs = extract_string_list(p, "file_refs");
    let tags = extract_string_list(p, "tags");
    Some(
        LongTermMemory {
            id,
            content,
            category,
            importance,
            access_count,
            last_accessed,
            created_at,
            source_session,
            file_refs,
            tags,
        },
    )
}

/// One condition of a search filter. Bounds are scores in millionths.
#[derive(Debug)]
pub enum FilterCondition {
    Match { field: String, value: PayloadValue },
    Range { field: String, gte: Option<u32>, lte: Option<u32> },
}

/// Conditions that must hold, must not hold, and of which one should hold.
#[derive(Debug)]
pub struct SearchFilter {
    pub must: Vec<FilterCondition>,
    pub must_not: Vec<FilterCondition>,
    pub should: Vec<FilterCondition>,
}

/// The filter of a long-term search: the category must match and the
/// importance must reach the minimum, for whichever are given; no filter
/// when neither is.
pub fn build_filter(category: Option<&str>, min_importance: Option<u32>) -> (r: Option<SearchFilter>)
    ensures
        r is None <==> category is None && min_importance is None,
        r matches Some(f) ==> {
            &&& f.must_not@.len() == 0
            &&& f.should@.len() == 0
            &&& f.must@.len() == (if category is Some { 1int } else { 0 }) + (if min_importance is Some {
                1int
            } else {
                0
            })
            &&& category matches Some(c) ==> (f.must@[0] matches FilterCondition::Match {
                field,
                value: PayloadValue::Text(v),
            } && field@ == "category"@ && v@ == c@)
            &&& min_importance matches Some(x) ==> (f.must@.last() matches FilterCondition::Range {
                field,
                gte,
                lte,
            } && field@ == "importance"@ && gte == Some(x) && lte is None)
        },
{
    let mut must: Vec<FilterCondition> = Vec::new();
    match category {
        Some(c) => {
            must.push(
                FilterCondition::Match {
                    field: String::from_str("category"),
                    value: PayloadValue::Text(String::from_str(c)),
                },
            );
        },
        None => {},
    }
    match min_importance {
        Some(x) => {
            must.push(
                FilterCondition::Range { field: String::from_str("importance"), gte: Some(x), lte: None },
            );
        },
        None => {},
    }
    if must.len() == 0 {
        return None;
    }
    Some(SearchFilter { must, must_not: Vec::new(), should: Vec::new() })
}

} // verus!
