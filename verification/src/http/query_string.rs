//! The query string of a request target, as a mapping from keys to values.

use super::text::{first_index_of, lemma_first_index_of, split_at_char, str_eq};
use vstd::prelude::*;

verus! {

/// What a key of the query string stands for.
#[derive(Debug)]
pub enum Value<'a> {
    /// The key occurred once.
    Single(&'a str),
    /// The key occurred more than once; the values are in the order met.
    Multiple(Vec<&'a str>),
}

/// The mathematical content of a [`Value`].
pub ghost enum ValueView {
    Single(Seq<char>),
    Multiple(Seq<Seq<char>>),
}

impl ValueView {
    /// The value after one more occurrence of its key, carrying `v`.
    pub open spec fn with(self, v: Seq<char>) -> ValueView {
        match self {
            ValueView::Single(first) => ValueView::Multiple(seq![first, v]),
            ValueView::Multiple(all) => ValueView::Multiple(all.push(v)),
        }
    }
}

impl<'a> View for Value<'a> {
    type V = ValueView;

    open spec fn view(&self) -> ValueView {
        match self {
            Value::Single(s) => ValueView::Single(s@),
            Value::Multiple(v) => ValueView::Multiple(v@.map_values(|s: &'a str| s@)),
        }
    }
}

/// The pieces of `s` between the occurrences of `c`, in order. There is one
/// piece more than there are occurrences, so the empty sequence has one
/// piece, itself empty.
pub open spec fn split_on(s: Seq<char>, c: char) -> Seq<Seq<char>>
    decreases s.len(),
{
    let i = first_index_of(s, c);
    if 0 <= i < s.len() {
        seq![s.take(i)] + split_on(s.skip(i + 1), c)
    } else {
        seq![s]
    }
}

/// Key and value of one piece: cut at the first `=`, which belongs to
/// neither. A piece without `=` is all key, with the empty value.
pub open spec fn key_value(piece: Seq<char>) -> (Seq<char>, Seq<char>) {
    let i = first_index_of(piece, '=');
    if 0 <= i < piece.len() {
        (piece.take(i), piece.skip(i + 1))
    } else {
        (piece, Seq::<char>::empty())
    }
}

/// The mapping after one more occurrence of `key`, carrying `value`.
pub open spec fn record(
    m: Map<Seq<char>, ValueView>,
    key: Seq<char>,
    value: Seq<char>,
) -> Map<Seq<char>, ValueView> {
    if m.contains_key(key) {
        m.insert(key, m[key].with(value))
    } else {
        m.insert(key, ValueView::Single(value))
    }
}

/// The mapping that the pieces give, recorded from first to last.
pub open spec fn collect(pieces: Seq<Seq<char>>) -> Map<Seq<char>, ValueView>
    decreases pieces.len(),
{
    if pieces.len() == 0 {
        Map::empty()
    } else {
        let kv = key_value(pieces.last());
        record(collect(pieces.drop_last()), kv.0, kv.1)
    }
}

/// The mapping that a query string stands for.
pub open spec fn query_map(s: Seq<char>) -> Map<Seq<char>, ValueView> {
    collect(split_on(s, '&'))
}

/// One key with what it stands for.
#[derive(Debug)]
struct Entry<'a> {
    key: &'a str,
    value: Value<'a>,
}

/// No key stands in two entries.
spec fn distinct_keys(es: Seq<Entry<'_>>) -> bool {
    forall|i: int, j: int| 0 <= i < j < es.len() ==> es[i].key@ != es[j].key@
}

/// True where some entry has the key `k`.
spec fn has_key(es: Seq<Entry<'_>>, k: Seq<char>) -> bool {
    exists|i: int| 0 <= i < es.len() && #[trigger] es[i].key@ == k
}

/// The mapping that the entries hold.
spec fn entries_map(es: Seq<Entry<'_>>) -> Map<Seq<char>, ValueView> {
    Map::new(
        |k: Seq<char>| has_key(es, k),
        |k: Seq<char>| es[choose|i: int| 0 <= i < es.len() && #[trigger] es[i].key@ == k].value@,
    )
}

/// With distinct keys, each entry is found again under its key.
proof fn lemma_entries_map(es: Seq<Entry<'_>>)
    requires
        distinct_keys(es),
    ensures
        forall|i: int|
            0 <= i < es.len() ==> entries_map(es).contains_key(#[trigger] es[i].key@)
                && entries_map(es)[es[i].key@] == es[i].value@,
        forall|k: Seq<char>| entries_map(es).contains_key(k) <==> has_key(es, k),
{
    assert forall|i: int| 0 <= i < es.len() implies entries_map(es).contains_key(
        #[trigger] es[i].key@,
    ) && entries_map(es)[es[i].key@] == es[i].value@ by {
        let k = es[i].key@;
        assert(has_key(es, k));
        let j = choose|j: int| 0 <= j < es.len() && #[trigger] es[j].key@ == k;
        assert(j == i);
    }
}

/// A query string: each key once, with the value or values it was given.
#[derive(Debug)]
pub struct QueryString<'a> {
    entries: Vec<Entry<'a>>,
}

impl<'a> View for QueryString<'a> {
    type V = Map<Seq<char>, ValueView>;

    closed spec fn view(&self) -> Map<Seq<char>, ValueView> {
        entries_map(self.entries@)
    }
}

/// Counts one more occurrence of a key that was met before.
fn extend<'a>(existing: &mut Value<'a>, value: &'a str)
    ensures
        final(existing)@ == old(existing)@.with(value@),
{
    match existing {
        Value::Single(first) => {
            let first: &'a str = *first;
            *existing = Value::Multiple(vec![first, value]);
            assert(existing@ == ValueView::Multiple(seq![first@, value@])) by {
                assert(seq![first, value].map_values(|s: &'a str| s@) =~= seq![first@, value@]);
            }
        },
        Value::Multiple(all) => {
            let ghost before = all@;
            all.push(value);
            assert(all@.map_values(|s: &'a str| s@) =~= before.map_values(|s: &'a str| s@).push(
                value@,
            ));
        },
    }
}

/// Cuts one piece of a query string into its key and its value.
pub fn split_pair<'a>(piece: &'a str) -> (r: (&'a str, &'a str))
    ensures
        (r.0@, r.1@) == key_value(piece@),
{
    proof {
        lemma_first_index_of(piece@, '=');
    }
    match split_at_char(piece, '=') {
        Some(pair) => pair,
        None => {
            proof {
                reveal_strlit("");
                assert(""@ =~= Seq::<char>::empty());
            }
            (piece, "")
        },
    }
}

/// Position of the entry with the key `key`.
fn position<'a>(entries: &Vec<Entry<'a>>, key: &str) -> (r: Option<usize>)
    ensures
        match r {
            Some(i) => i < entries.len() && entries[i as int].key@ == key@,
            None => !has_key(entries@, key@),
        },
{
    let mut i: usize = 0;
    while i < entries.len()
        invariant
            i <= entries.len(),
            forall|j: int| 0 <= j < i ==> entries[j].key@ != key@,
        decreases entries.len() - i,
    {
        if str_eq(entries[i].key, key) {
            return Some(i);
        }
        i = i + 1;
    }
    None
}

/// Records one occurrence of `key` with `value`.
fn insert<'a>(entries: &mut Vec<Entry<'a>>, key: &'a str, value: &'a str)
    requires
        distinct_keys(old(entries)@),
    ensures
        distinct_keys(final(entries)@),
        entries_map(final(entries)@) == record(entries_map(old(entries)@), key@, value@),
{
    let ghost before = entries@;
    proof {
        lemma_entries_map(before);
    }
    match position(entries, key) {
        Some(i) => {
            extend(&mut entries[i].value, value);
            proof {
                let after = entries@;
                assert(after.len() == before.len());
                assert(forall|j: int| 0 <= j < after.len() ==> after[j].key@ == before[j].key@);
                assert(forall|j: int|
                    0 <= j < after.len() && j != i ==> after[j].value@ == before[j].value@);
                assert(after[i as int].value@ == before[i as int].value@.with(value@));
                lemma_entries_map(after);
                assert forall|k: Seq<char>| has_key(after, k) <==> has_key(before, k) by {
                    if has_key(after, k) {
                        let j = choose|j: int| 0 <= j < after.len() && #[trigger] after[j].key@ == k;
                        assert(before[j].key@ == k);
                    }
                    if has_key(before, k) {
                        let j = choose|j: int|
                            0 <= j < before.len() && #[trigger] before[j].key@ == k;
                        assert(after[j].key@ == k);
                    }
                }
                let goal = record(entries_map(before), key@, value@);
                assert forall|k: Seq<char>| entries_map(after).contains_key(k) implies goal[k]
                    == entries_map(after)[k] by {
                    let j = choose|j: int| 0 <= j < after.len() && #[trigger] after[j].key@ == k;
                    assert(before[j].key@ == k);
                }
                assert(entries_map(after) =~= goal);
            }
        },
        None => {
            entries.push(Entry { key, value: Value::Single(value) });
            proof {
                let after = entries@;
                assert(forall|j: int| 0 <= j < before.len() ==> after[j] == before[j]);
                assert(after[before.len() as int].key@ == key@);
                assert(distinct_keys(after)) by {
                    assert forall|a: int, b: int| 0 <= a < b < after.len() implies after[a].key@
                        != after[b].key@ by {
                        if b == before.len() {
                            assert(before[a].key@ == after[a].key@);
                        }
                    }
                }
                lemma_entries_map(after);
                let goal = record(entries_map(before), key@, value@);
                assert forall|k: Seq<char>| has_key(after, k) <==> has_key(before, k) || k
                    == key@ by {
                    if has_key(after, k) {
                        let j = choose|j: int| 0 <= j < after.len() && #[trigger] after[j].key@ == k;
                        if j < before.len() {
                            assert(before[j].key@ == k);
                        }
                    }
                    if has_key(before, k) {
                        let j = choose|j: int|
                            0 <= j < before.len() && #[trigger] before[j].key@ == k;
                        assert(after[j].key@ == k);
                    }
                }
                assert forall|k: Seq<char>| entries_map(after).contains_key(k) implies goal[k]
                    == entries_map(after)[k] by {
                    let j = choose|j: int| 0 <= j < after.len() && #[trigger] after[j].key@ == k;
                    if j < before.len() {
                        assert(before[j].key@ == k);
                    }
                }
                assert(entries_map(after) =~= goal);
            }
        },
    }
}

impl<'a> QueryString<'a> {
    #[verifier::type_invariant]
    spec fn keys_are_distinct(&self) -> bool {
        distinct_keys(self.entries@)
    }

    /// Reads the part of a request target that follows its `?`.
    ///
    /// The text is cut at each `&`, each piece at its first `=`; nothing is
    /// trimmed or decoded. A key met again gathers its values in the order
    /// met.
    pub fn parse(s: &'a str) -> (r: QueryString<'a>)
        ensures
            r@ == query_map(s@),
    {
        let mut entries: Vec<Entry<'a>> = Vec::new();
        let mut rest: &'a str = s;
        let ghost mut done: Seq<Seq<char>> = Seq::empty();
        proof {
            assert(entries_map(entries@) =~= collect(done));
            assert(done + split_on(rest@, '&') =~= split_on(s@, '&'));
        }
        loop
            invariant
                distinct_keys(entries@),
                entries_map(entries@) == collect(done),
                split_on(s@, '&') == done + split_on(rest@, '&'),
            decreases rest@.len(),
        {
            proof {
                lemma_first_index_of(rest@, '&');
            }
            match split_at_char(rest, '&') {
                Some((piece, tail)) => {
                    let (key, value) = split_pair(piece);
                    insert(&mut entries, key, value);
                    proof {
                        let next = done.push(piece@);
                        assert(next.drop_last() =~= done);
                        assert(next + split_on(tail@, '&') =~= done + split_on(rest@, '&'));
                        done = next;
                    }
                    rest = tail;
                },
                None => {
                    let (key, value) = split_pair(rest);
                    insert(&mut entries, key, value);
                    proof {
                        let all = done.push(rest@);
                        assert(all.drop_last() =~= done);
                        assert(all =~= split_on(s@, '&'));
                    }
                    return QueryString { entries };
                },
            }
        }
    }

    /// What `key` stands for, where the query string has it.
    pub fn get(&self, key: &str) -> (r: Option<&Value<'a>>)
        ensures
            match r {
                Some(v) => self@.contains_key(key@) && self@[key@] == v@,
                None => !self@.contains_key(key@),
            },
    {
        proof {
            use_type_invariant(self);
            lemma_entries_map(self.entries@);
        }
        match position(&self.entries, key) {
            Some(i) => Some(&self.entries[i].value),
            None => None,
        }
    }
}

impl<'a> From<&'a str> for QueryString<'a> {
    /// Reads a query string, as [`QueryString::parse`] does.
    fn from(s: &'a str) -> (r: QueryString<'a>)
        ensures
            r@ == query_map(s@),
    {
        QueryString::parse(s)
    }
}

/// `from` is known by the view of its result alone: the order in which the
/// entries are kept is no part of the contract, so no one value is named.
impl<'a> vstd::std_specs::convert::FromSpecImpl<&'a str> for QueryString<'a> {
    open spec fn obeys_from_spec() -> bool {
        false
    }

    open spec fn from_spec(s: &'a str) -> QueryString<'a> {
        choose|q: QueryString<'a>| q@ == query_map(s@)
    }
}

} // verus!
