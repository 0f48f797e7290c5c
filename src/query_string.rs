//! Parsing of the query part of a request target (`key=value&key2=value2`).

use vstd::prelude::*;
use vstd::string::StringSliceAdditionalSpecFns;
use vstd::utf8::*;
use crate::text::{lemma_boundary_after_ascii, lemma_boundary_at_ascii, same_text, text_between};

verus! {

broadcast use vstd::utf8::group_utf8_lib;

/// The byte that separates pairs.
pub const AMP: u8 = 0x26;

/// The byte that separates a key from its value.
pub const EQ: u8 = 0x3d;

/// The value of a query parameter: one occurrence, or several in order.
#[derive(Debug)]
pub enum Value {
    Single(String),
    Multiple(Vec<String>),
}

impl View for Value {
    type V = Seq<Seq<char>>;

    /// The values in the order in which they occurred.
    open spec fn view(&self) -> Seq<Seq<char>> {
        match self {
            Value::Single(s) => seq![s@],
            Value::Multiple(v) => v@.map_values(|s: String| s@),
        }
    }
}

impl Value {
    /// A `Multiple` holds at least two values.
    pub open spec fn wf(&self) -> bool {
        self is Multiple ==> self@.len() >= 2
    }
}

/// Spans of the `&`-separated segments of `q[0..n]`; the last one runs to `n`.
pub open spec fn segment_spans(q: Seq<u8>, n: int) -> Seq<(int, int)>
    decreases n,
{
    if n <= 0 {
        seq![(0int, 0int)]
    } else {
        let p = segment_spans(q, n - 1);
        if q[n - 1] == AMP {
            p.push((n, n))
        } else {
            p.update(p.len() - 1, (p.last().0, n))
        }
    }
}

/// The first position in `a..b` that holds `c`, or `b` when none does.
pub open spec fn first_index_of(q: Seq<u8>, c: u8, a: int, b: int) -> int
    decreases b - a,
{
    if a >= b {
        b
    } else if q[a] == c {
        a
    } else {
        first_index_of(q, c, a + 1, b)
    }
}

/// The key and value of the segment `q[a..b]`: split at the first `=`; without
/// one, the whole segment is the key and the value is empty.
pub open spec fn pair_of(q: Seq<u8>, span: (int, int)) -> (Seq<char>, Seq<char>) {
    let (a, b) = span;
    let e = first_index_of(q, EQ, a, b);
    if e < b {
        (decode_utf8(q.subrange(a, e)), decode_utf8(q.subrange(e + 1, b)))
    } else {
        (decode_utf8(q.subrange(a, b)), Seq::empty())
    }
}

/// The key/value pairs of the query with bytes `q`, in order of occurrence.
pub open spec fn query_pairs(q: Seq<u8>) -> Seq<(Seq<char>, Seq<char>)> {
    segment_spans(q, q.len() as int).map_values(|s: (int, int)| pair_of(q, s))
}

/// The values of the pairs whose key is `k`, in order of occurrence.
pub open spec fn values_for(pairs: Seq<(Seq<char>, Seq<char>)>, k: Seq<char>) -> Seq<Seq<char>>
    decreases pairs.len(),
{
    if pairs.len() == 0 {
        Seq::empty()
    } else {
        let p = values_for(pairs.drop_last(), k);
        if pairs.last().0 == k {
            p.push(pairs.last().1)
        } else {
            p
        }
    }
}

/// What looking `k` up should give after reading `pairs`: nothing if `k` never
/// occurred, else all its values in order.
pub open spec fn expected_lookup(pairs: Seq<(Seq<char>, Seq<char>)>, k: Seq<char>) -> Option<
    Seq<Seq<char>>,
> {
    if values_for(pairs, k).len() == 0 {
        None
    } else {
        Some(values_for(pairs, k))
    }
}

/// The values under a key are those of the pairs with that key, in the order in
/// which the pairs occur.
pub proof fn lemma_values_in_order(pairs: Seq<(Seq<char>, Seq<char>)>, k: Seq<char>)
    ensures
        values_for(pairs, k) == pairs.filter(|p: (Seq<char>, Seq<char>)| p.0 == k).map_values(
            |p: (Seq<char>, Seq<char>)| p.1,
        ),
    decreases pairs.len(),
{
    reveal(Seq::filter);
    let f = |p: (Seq<char>, Seq<char>)| p.0 == k;
    let g = |p: (Seq<char>, Seq<char>)| p.1;
    if pairs.len() == 0 {
        assert(pairs.filter(f).map_values(g) =~= Seq::empty());
    } else {
        lemma_values_in_order(pairs.drop_last(), k);
        let sub = pairs.drop_last().filter(f);
        if f(pairs.last()) {
            assert(sub.push(pairs.last()).map_values(g) =~= sub.map_values(g).push(pairs.last().1));
        }
    }
}

/// After parsing a query, looking up a key gives nothing when no pair has that
/// key, and otherwise the values of all pairs with that key, in order.
pub proof fn lemma_lookup_after_parse(q: Seq<u8>, k: Seq<char>)
    ensures
        ({
            let hits = query_pairs(q).filter(|p: (Seq<char>, Seq<char>)| p.0 == k);
            expected_lookup(query_pairs(q), k) == if hits.len() == 0 {
                None
            } else {
                Some(hits.map_values(|p: (Seq<char>, Seq<char>)| p.1))
            }
        }),
{
    lemma_values_in_order(query_pairs(q), k);
}

/// A key that occurs in exactly one pair is found with that pair's value alone.
pub proof fn lemma_single_occurrence(pairs: Seq<(Seq<char>, Seq<char>)>, i: int)
    requires
        0 <= i < pairs.len(),
        forall|j: int| 0 <= j < pairs.len() && j != i ==> pairs[j].0 != pairs[i].0,
    ensures
        expected_lookup(pairs, pairs[i].0) == Some(seq![pairs[i].1]),
    decreases pairs.len(),
{
    let k = pairs[i].0;
    let n = pairs.len() - 1;
    if i == n {
        assert(values_for(pairs.drop_last(), k).len() == 0) by {
            lemma_absent_key(pairs.drop_last(), k);
        }
        assert(values_for(pairs, k) =~= seq![pairs[i].1]);
    } else {
        let d = pairs.drop_last();
        assert(d[i] == pairs[i]);
        lemma_single_occurrence(d, i);
        assert(pairs.last().0 != k);
    }
}

/// A key that no pair has gets no values.
pub proof fn lemma_absent_key(pairs: Seq<(Seq<char>, Seq<char>)>, k: Seq<char>)
    requires
        forall|j: int| 0 <= j < pairs.len() ==> pairs[j].0 != k,
    ensures
        values_for(pairs, k).len() == 0,
    decreases pairs.len(),
{
    if pairs.len() > 0 {
        let d = pairs.drop_last();
        assert forall|j: int| 0 <= j < d.len() implies d[j].0 != k by {
            assert(d[j] == pairs[j]);
        }
        lemma_absent_key(d, k);
    }
}

/// No key stands in two entries.
pub open spec fn keys_unique(e: Seq<(Seq<char>, Seq<Seq<char>>)>) -> bool {
    forall|i: int, j: int|
        0 <= i < e.len() && 0 <= j < e.len() && i != j ==> e[i].0 != e[j].0
}

/// The values of the entry for `k`, if there is one.
pub open spec fn lookup(e: Seq<(Seq<char>, Seq<Seq<char>>)>, k: Seq<char>) -> Option<Seq<Seq<char>>> {
    if exists|i: int| 0 <= i < e.len() && e[i].0 == k {
        Some(e[choose|i: int| 0 <= i < e.len() && e[i].0 == k].1)
    } else {
        None
    }
}

/// With unique keys, the entry at `i` is the one found for its key.
pub proof fn lemma_lookup_at(e: Seq<(Seq<char>, Seq<Seq<char>>)>, i: int)
    requires
        keys_unique(e),
        0 <= i < e.len(),
    ensures
        lookup(e, e[i].0) == Some(e[i].1),
{
    assert(exists|j: int| 0 <= j < e.len() && e[j].0 == e[i].0);
}

/// Reading one more pair adds its value to the values of its key alone.
pub proof fn lemma_values_for_push(
    pairs: Seq<(Seq<char>, Seq<char>)>,
    p: (Seq<char>, Seq<char>),
    k: Seq<char>,
)
    ensures
        values_for(pairs.push(p), k) == (if p.0 == k {
            values_for(pairs, k).push(p.1)
        } else {
            values_for(pairs, k)
        }),
{
    assert(pairs.push(p).drop_last() =~= pairs);
}

/// Adding an entry for a new key leaves the other keys as they were.
pub proof fn lemma_lookup_push(e: Seq<(Seq<char>, Seq<Seq<char>>)>, x: (Seq<char>, Seq<Seq<char>>))
    requires
        keys_unique(e),
        lookup(e, x.0) is None,
    ensures
        keys_unique(e.push(x)),
        forall|k: Seq<char>|
            lookup(e.push(x), k) == (if k == x.0 {
                Some(x.1)
            } else {
                lookup(e, k)
            }),
{
    let e2 = e.push(x);
    assert(keys_unique(e2)) by {
        assert forall|i: int, j: int|
            0 <= i < e2.len() && 0 <= j < e2.len() && i != j implies e2[i].0 != e2[j].0 by {
            if i == e.len() as int {
                assert(e2[j] == e[j]);
            } else if j == e.len() as int {
                assert(e2[i] == e[i]);
            }
        }
    }
    assert forall|k: Seq<char>|
        lookup(e2, k) == (if k == x.0 {
            Some(x.1)
        } else {
            lookup(e, k)
        }) by {
        if k == x.0 {
            lemma_lookup_at(e2, e.len() as int);
        } else if exists|i: int| 0 <= i < e.len() && e[i].0 == k {
            let i = choose|i: int| 0 <= i < e.len() && e[i].0 == k;
            lemma_lookup_at(e, i);
            assert(e2[i] == e[i]);
            lemma_lookup_at(e2, i);
        } else {
            assert(!exists|i: int| 0 <= i < e2.len() && e2[i].0 == k) by {
                assert forall|i: int| 0 <= i < e2.len() implies e2[i].0 != k by {
                    if i < e.len() {
                        assert(e2[i] == e[i]);
                    }
                }
            }
        }
    }
}

/// Replacing the values of the entry at `j` (moved to the end) leaves the other
/// keys as they were.
pub proof fn lemma_lookup_replace(
    e: Seq<(Seq<char>, Seq<Seq<char>>)>,
    j: int,
    nv: Seq<Seq<char>>,
)
    requires
        keys_unique(e),
        0 <= j < e.len(),
    ensures
        keys_unique(e.remove(j).push((e[j].0, nv))),
        forall|k: Seq<char>|
            lookup(e.remove(j).push((e[j].0, nv)), k) == (if k == e[j].0 {
                Some(nv)
            } else {
                lookup(e, k)
            }),
{
    let r = e.remove(j);
    assert forall|i: int| 0 <= i < r.len() implies r[i] == (if i < j {
        e[i]
    } else {
        e[i + 1]
    }) by {}
    assert(keys_unique(r)) by {
        assert forall|a: int, b: int|
            0 <= a < r.len() && 0 <= b < r.len() && a != b implies r[a].0 != r[b].0 by {
            let a2 = if a < j { a } else { a + 1 };
            let b2 = if b < j { b } else { b + 1 };
            assert(r[a] == e[a2] && r[b] == e[b2]);
        }
    }
    assert(lookup(r, e[j].0) is None) by {
        assert forall|i: int| 0 <= i < r.len() implies r[i].0 != e[j].0 by {
            let i2 = if i < j { i } else { i + 1 };
            assert(r[i] == e[i2]);
        }
    }
    lemma_lookup_push(r, (e[j].0, nv));
    assert forall|k: Seq<char>| k != e[j].0 implies lookup(r, k) == lookup(e, k) by {
        if exists|i: int| 0 <= i < e.len() && e[i].0 == k {
            let i = choose|i: int| 0 <= i < e.len() && e[i].0 == k;
            lemma_lookup_at(e, i);
            let i2 = if i < j { i } else { i - 1 };
            assert(r[i2] == e[i]);
            lemma_lookup_at(r, i2);
        } else {
            assert forall|i: int| 0 <= i < r.len() implies r[i].0 != k by {
                let i2 = if i < j { i } else { i + 1 };
                assert(r[i] == e[i2]);
            }
        }
    }
}

/// Records one more pair: a new key gets `Single`, a second occurrence turns the
/// entry into `Multiple`, and later ones are appended to it.
fn insert_pair(
    data: &mut Vec<(String, Value)>,
    key: String,
    val: String,
    Ghost(pairs): Ghost<Seq<(Seq<char>, Seq<char>)>>,
)
    requires
        entries_stand_for(old(data)@, pairs),
    ensures
        entries_stand_for(final(data)@, pairs.push((key@, val@))),
{
    let ghost e = data@.map_values(|x: (String, Value)| entry_view(x));
    let ghost np = pairs.push((key@, val@));
    let mut j: usize = 0;
    while j < data.len()
        invariant
            0 <= j <= data@.len(),
            entries_stand_for(data@, pairs),
            np == pairs.push((key@, val@)),
            e == data@.map_values(|x: (String, Value)| entry_view(x)),
            forall|i: int| 0 <= i < j ==> e[i].0 != key@,
        decreases data@.len() - j,
    {
        if data[j].0 == key {
            let ghost old_data = data@;
            proof {
                lemma_lookup_at(e, j as int);
                assert(old_data[j as int].1.wf());
            }
            let (k, v) = data.remove(j);
            let nv = match v {
                Value::Single(prev) => {
                    let mut m: Vec<String> = Vec::new();
                    m.push(prev);
                    m.push(val);
                    Value::Multiple(m)
                },
                Value::Multiple(mut m) => {
                    m.push(val);
                    Value::Multiple(m)
                },
            };
            proof {
                assert(nv@ =~= e[j as int].1.push(val@));
            }
            data.push((k, nv));
            proof {
                lemma_lookup_replace(e, j as int, nv@);
                assert(data@.map_values(|x: (String, Value)| entry_view(x)) =~= e.remove(
                    j as int,
                ).push((e[j as int].0, nv@)));
                let e2 = data@.map_values(|x: (String, Value)| entry_view(x));
                assert(e[j as int].0 == key@);
                assert(Some(e[j as int].1) == expected_lookup(pairs, key@));
                assert forall|k: Seq<char>| lookup(e2, k) == expected_lookup(np, k) by {
                    lemma_values_for_push(pairs, (key@, val@), k);
                    assert(lookup(e, k) == expected_lookup(pairs, k));
                    if k == key@ {
                        assert(lookup(e2, k) == Some(nv@));
                        assert(values_for(np, k) == nv@);
                    } else {
                        assert(lookup(e2, k) == lookup(e, k));
                    }
                }
                assert forall|i: int| 0 <= i < data@.len() implies (#[trigger] data@[i]).1.wf() by {
                    if i < j {
                        assert(data@[i] == old_data[i]);
                    } else if i < data@.len() - 1 {
                        assert(data@[i] == old_data[i + 1]);
                    }
                }
            }
            return;
        }
        j = j + 1;
    }
    proof {
        assert(lookup(e, key@) is None);
        lemma_lookup_push(e, (key@, seq![val@]));
    }
    data.push((key, Value::Single(val)));
    proof {
        assert(data@.map_values(|x: (String, Value)| entry_view(x)) =~= e.push(
            (key@, seq![val@]),
        ));
        assert(values_for(pairs, key@).len() == 0);
        assert(values_for(np, key@) =~= seq![val@]) by {
            lemma_values_for_push(pairs, (key@, val@), key@);
        }
        assert forall|k: Seq<char>|
            lookup(data@.map_values(|x: (String, Value)| entry_view(x)), k)
                == expected_lookup(np, k) by {
            lemma_values_for_push(pairs, (key@, val@), k);
        }
    }
}

/// The key and value of the segment `a..b` of the query `s`.
fn split_pair(s: &str, a: usize, b: usize) -> (r: (String, String))
    requires
        a <= b <= s.spec_bytes().len(),
        a == 0 || s.spec_bytes()[a - 1] == AMP,
        b == s.spec_bytes().len() || s.spec_bytes()[b as int] == AMP,
    ensures
        (r.0@, r.1@) == pair_of(s.spec_bytes(), (a as int, b as int)),
{
    let bytes = s.as_bytes();
    let ghost q = bytes@;
    proof {
        encode_utf8_valid_utf8(s@);
        if a > 0 {
            lemma_boundary_after_ascii(q, a - 1);
        }
        if b < q.len() {
            lemma_boundary_at_ascii(q, b as int);
        }
    }
    let mut e: usize = a;
    while e < b && bytes[e] != EQ
        invariant
            bytes@ == q,
            a <= e <= b <= q.len(),
            first_index_of(q, EQ, a as int, b as int) == first_index_of(q, EQ, e as int, b as int),
        decreases b - e,
    {
        e = e + 1;
    }
    if e < b {
        proof {
            lemma_boundary_at_ascii(q, e as int);
            lemma_boundary_after_ascii(q, e as int);
        }
        (text_between(s, a, e), text_between(s, e + 1, b))
    } else {
        (text_between(s, a, b), String::new())
    }
}

/// Parsed query parameters: each key once, with all of its values.
#[derive(Debug)]
pub struct QueryString {
    data: Vec<(String, Value)>,
}

/// The model of an entry: its key and its values.
pub open spec fn entry_view(e: (String, Value)) -> (Seq<char>, Seq<Seq<char>>) {
    (e.0@, e.1@)
}

impl View for QueryString {
    type V = Seq<(Seq<char>, Seq<Seq<char>>)>;

    /// The entries, each a key with its values.
    closed spec fn view(&self) -> Seq<(Seq<char>, Seq<Seq<char>>)> {
        self.data@.map_values(|e: (String, Value)| entry_view(e))
    }
}

/// The entries of `data` are well formed and stand for `pairs`.
pub open spec fn entries_stand_for(
    data: Seq<(String, Value)>,
    pairs: Seq<(Seq<char>, Seq<char>)>,
) -> bool {
    let e = data.map_values(|x: (String, Value)| entry_view(x));
    &&& keys_unique(e)
    &&& forall|i: int| 0 <= i < data.len() ==> (#[trigger] data[i]).1.wf()
    &&& forall|k: Seq<char>| lookup(e, k) == expected_lookup(pairs, k)
}

impl QueryString {
    /// Each key stands once and each value is well formed.
    pub closed spec fn wf(&self) -> bool {
        &&& keys_unique(self@)
        &&& forall|i: int| 0 <= i < self.data@.len() ==> (#[trigger] self.data@[i]).1.wf()
    }

    /// Parses a query, the part of a request target after `?`: pairs split on
    /// `&`, each split at its first `=`, values kept raw.
    pub fn parse(s: &str) -> (r: QueryString)
        ensures
            r.wf(),
            forall|k: Seq<char>| r.lookup(k) == expected_lookup(query_pairs(s.spec_bytes()), k),
    {
        let bytes = s.as_bytes();
        let ghost q = bytes@;
        let mut data: Vec<(String, Value)> = Vec::new();
        let ghost mut closed: Seq<(int, int)> = Seq::empty();
        let mut start: usize = 0;
        let mut i: usize = 0;
        while i < bytes.len()
            invariant
                bytes@ == q,
                q == s.spec_bytes(),
                0 <= start <= i <= q.len(),
                start == 0 || q[start - 1] == AMP,
                segment_spans(q, i as int) == closed.push((start as int, i as int)),
                entries_stand_for(data@, closed.map_values(|sp: (int, int)| pair_of(q, sp))),
            decreases q.len() - i,
        {
            if bytes[i] == AMP {
                let (key, val) = split_pair(s, start, i);
                insert_pair(&mut data, key, val, Ghost(closed.map_values(|sp: (int, int)| pair_of(q, sp))));
                proof {
                    assert(closed.push((start as int, i as int)).map_values(|sp: (int, int)| pair_of(q, sp))
                        =~= closed.map_values(|sp: (int, int)| pair_of(q, sp)).push(pair_of(q, (start as int, i as int))));
                    closed = closed.push((start as int, i as int));
                }
                start = i + 1;
                proof {
                    assert(segment_spans(q, i + 1) =~= closed.push((start as int, (i + 1) as int)));
                }
            } else {
                proof {
                    assert(segment_spans(q, i + 1) =~= closed.push((start as int, (i + 1) as int)));
                }
            }
            i = i + 1;
        }
        let (key, val) = split_pair(s, start, i);
        insert_pair(&mut data, key, val, Ghost(closed.map_values(|sp: (int, int)| pair_of(q, sp))));
        proof {
            assert(query_pairs(q) =~= closed.map_values(|sp: (int, int)| pair_of(q, sp)).push(
                pair_of(q, (start as int, i as int)),
            ));
        }
        let r = QueryString { data };
        proof {
            assert(r@ =~= data@.map_values(|x: (String, Value)| entry_view(x)));
        }
        r
    }

    /// The values under `k`, if any.
    pub open spec fn lookup(&self, k: Seq<char>) -> Option<Seq<Seq<char>>> {
        lookup(self@, k)
    }

    /// The value under `key`, or `None` when the key is absent.
    pub fn get(&self, key: &str) -> (r: Option<&Value>)
        requires
            self.wf(),
        ensures
            r is None <==> self.lookup(key@) is None,
            r matches Some(v) ==> Some(v@) == self.lookup(key@),
            r matches Some(v) ==> (v is Single <==> v@.len() == 1),
    {
        let mut i: usize = 0;
        while i < self.data.len()
            invariant
                self.wf(),
                0 <= i <= self.data@.len(),
                forall|j: int| 0 <= j < i ==> self@[j].0 != key@,
            decreases self.data@.len() - i,
        {
            if same_text(self.data[i].0.as_str(), key) {
                proof {
                    lemma_lookup_at(self@, i as int);
                }
                let v = &self.data[i].1;
                proof {
                    assert(self.data@[i as int].1.wf());
                }
                return Some(v);
            }
            i = i + 1;
        }
        None
    }
}

} // verus!
