use vstd::prelude::*;
use vstd::string::*;
use crate::strutil::str_eq;

verus! {

/// An ordered mapping from keys to lists of values. Insertion order of
/// keys is kept, and adding a value under a key that is already present
/// appends to that key's list instead of overwriting it.
#[derive(Debug)]
pub struct Multimap {
    pub entries: Vec<(String, Vec<String>)>,
}

/// The values stored under the first entry whose key is `k`, if any.
pub open spec fn spec_get(m: Seq<(Seq<char>, Seq<Seq<char>>)>, k: Seq<char>) -> Option<
    Seq<Seq<char>>,
>
    decreases m.len(),
{
    if m.len() == 0 {
        None
    } else if m[0].0 == k {
        Some(m[0].1)
    } else {
        spec_get(m.drop_first(), k)
    }
}

pub open spec fn spec_contains(m: Seq<(Seq<char>, Seq<Seq<char>>)>, k: Seq<char>) -> bool {
    spec_get(m, k) is Some
}

/// Adding a value: append to the first entry with this key, or append a
/// fresh single-valued entry at the end when the key is new.
pub open spec fn spec_add_kv(
    m: Seq<(Seq<char>, Seq<Seq<char>>)>,
    k: Seq<char>,
    v: Seq<char>,
) -> Seq<(Seq<char>, Seq<Seq<char>>)>
    decreases m.len(),
{
    if m.len() == 0 {
        seq![(k, seq![v])]
    } else if m[0].0 == k {
        seq![(m[0].0, m[0].1.push(v))] + m.drop_first()
    } else {
        seq![m[0]] + spec_add_kv(m.drop_first(), k, v)
    }
}

/// Setting a value: replace the whole list of the first entry with this
/// key by the single value, or append a fresh entry when the key is new.
pub open spec fn spec_set_kv(
    m: Seq<(Seq<char>, Seq<Seq<char>>)>,
    k: Seq<char>,
    v: Seq<char>,
) -> Seq<(Seq<char>, Seq<Seq<char>>)>
    decreases m.len(),
{
    if m.len() == 0 {
        seq![(k, seq![v])]
    } else if m[0].0 == k {
        seq![(m[0].0, seq![v])] + m.drop_first()
    } else {
        seq![m[0]] + spec_set_kv(m.drop_first(), k, v)
    }
}

/// No key occurs in two entries.
pub open spec fn wf(m: Seq<(Seq<char>, Seq<Seq<char>>)>) -> bool {
    forall|i: int, j: int| 0 <= i < j < m.len() ==> (#[trigger] m[i]).0 != (#[trigger] m[j]).0
}

/// The view of a pair list, pair by pair.
pub open spec fn pairs_view(v: Seq<(String, String)>) -> Seq<(Seq<char>, Seq<char>)> {
    Seq::new(v.len(), |i: int| (v[i].0@, v[i].1@))
}

/// One (key, value) pair per value, keys repeated, in entry order.
pub open spec fn spec_flatten(m: Seq<(Seq<char>, Seq<Seq<char>>)>) -> Seq<(Seq<char>, Seq<char>)>
    decreases m.len(),
{
    if m.len() == 0 {
        Seq::empty()
    } else {
        spec_flatten(m.drop_last()) + Seq::new(
            m.last().1.len(),
            |j: int| (m.last().0, m.last().1[j]),
        )
    }
}

impl View for Multimap {
    type V = Seq<(Seq<char>, Seq<Seq<char>>)>;

    open spec fn view(&self) -> Seq<(Seq<char>, Seq<Seq<char>>)> {
        Seq::new(
            self.entries@.len(),
            |i: int| (self.entries@[i].0@, self.entries@[i].1.deep_view()),
        )
    }
}

proof fn lemma_get_skip(m: Seq<(Seq<char>, Seq<Seq<char>>)>, k: Seq<char>, i: int)
    requires
        0 <= i <= m.len(),
        forall|j: int| 0 <= j < i ==> (#[trigger] m[j]).0 != k,
    ensures
        spec_get(m, k) == spec_get(m.skip(i), k),
    decreases i,
{
    if i > 0 {
        lemma_get_skip(m, k, i - 1);
        let t = m.skip(i - 1);
        assert(t[0] == m[i - 1]);
        assert(m[i - 1].0 != k);
        assert(t.drop_first() =~= m.skip(i));
        assert(spec_get(t, k) == spec_get(t.drop_first(), k));
    } else {
        assert(m.skip(0) =~= m);
    }
}

proof fn lemma_add_kv_skip(m: Seq<(Seq<char>, Seq<Seq<char>>)>, k: Seq<char>, v: Seq<char>, i: int)
    requires
        0 <= i <= m.len(),
        forall|j: int| 0 <= j < i ==> (#[trigger] m[j]).0 != k,
    ensures
        spec_add_kv(m, k, v) == m.take(i) + spec_add_kv(m.skip(i), k, v),
    decreases i,
{
    if i == 0 {
        assert(m.take(0) =~= Seq::empty());
        assert(m.skip(0) =~= m);
        assert(m.take(0) + spec_add_kv(m, k, v) =~= spec_add_kv(m, k, v));
    } else {
        lemma_add_kv_skip(m, k, v, i - 1);
        let t = m.skip(i - 1);
        assert(t[0] == m[i - 1]);
        assert(m[i - 1].0 != k);
        assert(t.drop_first() =~= m.skip(i));
        assert(spec_add_kv(t, k, v) == seq![t[0]] + spec_add_kv(m.skip(i), k, v));
        assert(m.take(i - 1) + (seq![m[i - 1]] + spec_add_kv(m.skip(i), k, v)) =~= m.take(i)
            + spec_add_kv(m.skip(i), k, v));
    }
}

proof fn lemma_set_kv_skip(m: Seq<(Seq<char>, Seq<Seq<char>>)>, k: Seq<char>, v: Seq<char>, i: int)
    requires
        0 <= i <= m.len(),
        forall|j: int| 0 <= j < i ==> (#[trigger] m[j]).0 != k,
    ensures
        spec_set_kv(m, k, v) == m.take(i) + spec_set_kv(m.skip(i), k, v),
    decreases i,
{
    if i == 0 {
        assert(m.take(0) =~= Seq::empty());
        assert(m.skip(0) =~= m);
        assert(m.take(0) + spec_set_kv(m, k, v) =~= spec_set_kv(m, k, v));
    } else {
        lemma_set_kv_skip(m, k, v, i - 1);
        let t = m.skip(i - 1);
        assert(t[0] == m[i - 1]);
        assert(m[i - 1].0 != k);
        assert(t.drop_first() =~= m.skip(i));
        assert(spec_set_kv(t, k, v) == seq![t[0]] + spec_set_kv(m.skip(i), k, v));
        assert(m.take(i - 1) + (seq![m[i - 1]] + spec_set_kv(m.skip(i), k, v)) =~= m.take(i)
            + spec_set_kv(m.skip(i), k, v));
    }
}

/// Law (append, same key): after adding a value under a key, that
/// key's list is the old list with the value appended, or the single
/// value when the key was absent; nothing is overwritten.
pub proof fn lemma_add_kv_get_same(m: Seq<(Seq<char>, Seq<Seq<char>>)>, k: Seq<char>, v: Seq<char>)
    ensures
        spec_get(spec_add_kv(m, k, v), k) == match spec_get(m, k) {
            Some(vs) => Some(vs.push(v)),
            None => Some(seq![v]),
        },
    decreases m.len(),
{
    let r = spec_add_kv(m, k, v);
    if m.len() == 0 {
        assert(r[0] == (k, seq![v]));
    } else if m[0].0 == k {
        assert(r[0] == (m[0].0, m[0].1.push(v)));
    } else {
        lemma_add_kv_get_same(m.drop_first(), k, v);
        assert(r[0] == m[0]);
        assert(r.drop_first() =~= spec_add_kv(m.drop_first(), k, v));
    }
}

/// Law (append, other keys): adding a value under one key leaves what
/// every other key holds unchanged.
pub proof fn lemma_add_kv_get_other(
    m: Seq<(Seq<char>, Seq<Seq<char>>)>,
    k: Seq<char>,
    v: Seq<char>,
    k2: Seq<char>,
)
    requires
        k2 != k,
    ensures
        spec_get(spec_add_kv(m, k, v), k2) == spec_get(m, k2),
    decreases m.len(),
{
    let r = spec_add_kv(m, k, v);
    if m.len() == 0 {
        assert(r[0] == (k, seq![v]));
        assert(r.drop_first() =~= Seq::<(Seq<char>, Seq<Seq<char>>)>::empty());
        assert(spec_get(Seq::<(Seq<char>, Seq<Seq<char>>)>::empty(), k2) is None);
    } else if m[0].0 == k {
        assert(r[0] == (m[0].0, m[0].1.push(v)));
        assert(r.drop_first() =~= m.drop_first());
        assert(spec_get(r, k2) == spec_get(r.drop_first(), k2));
        assert(spec_get(m, k2) == spec_get(m.drop_first(), k2));
    } else {
        lemma_add_kv_get_other(m.drop_first(), k, v, k2);
        assert(r[0] == m[0]);
        assert(r.drop_first() =~= spec_add_kv(m.drop_first(), k, v));
    }
}

impl Multimap {
    /// An empty multimap.
    pub fn new() -> (r: Multimap)
        ensures
            r@ =~= Seq::<(Seq<char>, Seq<Seq<char>>)>::empty(),
    {
        Multimap { entries: Vec::new() }
    }

    pub fn len(&self) -> (r: usize)
        ensures
            r == self@.len(),
    {
        self.entries.len()
    }

    /// Whether some entry already holds this key (case-sensitively).
    pub fn contains_key(&self, key: &str) -> (r: bool)
        ensures
            r == spec_contains(self@, key@),
    {
        let n = self.entries.len();
        let mut i: usize = 0;
        while i < n
            invariant
                0 <= i <= n == self@.len(),
                n == self.entries@.len(),
                forall|j: int| 0 <= j < i ==> (#[trigger] self@[j]).0 != key@,
            decreases n - i,
        {
            if str_eq(self.entries[i].0.as_str(), key) {
                proof {
                    lemma_get_skip(self@, key@, i as int);
                    assert(self@.skip(i as int)[0] == self@[i as int]);
                }
                return true;
            }
            proof {
                assert(self@[i as int].0 == self.entries@[i as int].0@);
            }
            i += 1;
        }
        proof {
            lemma_get_skip(self@, key@, n as int);
            assert(self@.skip(n as int) =~= Seq::empty());
        }
        false
    }

    /// The list of values under a key, if the key is present.
    pub fn get_values<'a>(&'a self, key: &str) -> (r: Option<&'a Vec<String>>)
        ensures
            match r {
                Some(v) => spec_get(self@, key@) == Some(v.deep_view()),
                None => spec_get(self@, key@) is None,
            },
    {
        let n = self.entries.len();
        let mut i: usize = 0;
        while i < n
            invariant
                0 <= i <= n == self@.len(),
                n == self.entries@.len(),
                forall|j: int| 0 <= j < i ==> (#[trigger] self@[j]).0 != key@,
            decreases n - i,
        {
            if str_eq(self.entries[i].0.as_str(), key) {
                proof {
                    lemma_get_skip(self@, key@, i as int);
                    assert(self@.skip(i as int)[0] == self@[i as int]);
                }
                return Some(&self.entries[i].1);
            }
            proof {
                assert(self@[i as int].0 == self.entries@[i as int].0@);
            }
            i += 1;
        }
        proof {
            lemma_get_skip(self@, key@, n as int);
            assert(self@.skip(n as int) =~= Seq::empty());
        }
        None
    }
}

/// Add a value under a key: append to the key's list when the key is
/// present, start a new entry at the end when it is not.
pub fn add_kv(d: &mut Multimap, key: String, value: String)
    ensures
        final(d)@ == spec_add_kv(old(d)@, key@, value@),
{
    let n = d.entries.len();
    let mut i: usize = 0;
    while i < n
        invariant
            0 <= i <= n,
            n == d.entries@.len(),
            d == old(d),
            forall|j: int| 0 <= j < i ==> (#[trigger] old(d)@[j]).0 != key@,
        decreases n - i,
    {
        let ghost m0 = old(d)@;
        if str_eq(d.entries[i].0.as_str(), key.as_str()) {
            proof {
                assert(m0[i as int].0 == d.entries@[i as int].0@);
                lemma_add_kv_skip(m0, key@, value@, i as int);
                assert(m0.skip(i as int)[0] == m0[i as int]);
                assert(m0.skip(i as int).drop_first() =~= m0.skip(i as int + 1));
                assert(spec_add_kv(m0.skip(i as int), key@, value@) == seq![
                    (m0[i as int].0, m0[i as int].1.push(value@)),
                ] + m0.skip(i as int + 1));
            }
            let ghost vals0 = d.entries@[i as int].1;
            let e = &mut d.entries[i];
            e.1.push(value);
            proof {
                assert(d.entries@[i as int].1@ == vals0@.push(value));
                assert(d.entries@[i as int].1.deep_view() =~= vals0.deep_view().push(value@)) by {
                    assert(forall|t: int|
                        0 <= t < vals0@.len() ==> d.entries@[i as int].1@[t] == vals0@[t]);
                }
                assert(d.entries@[i as int].0 == old(d).entries@[i as int].0);
                assert(d@ =~= m0.take(i as int) + seq![
                    (m0[i as int].0, m0[i as int].1.push(value@)),
                ] + m0.skip(i as int + 1)) by {
                    assert(forall|j: int|
                        0 <= j < d.entries@.len() && j != i ==> d.entries@[j] == old(
                            d,
                        ).entries@[j]);
                }
            }
            return ;
        }
        proof {
            assert(old(d)@[i as int].0 == d.entries@[i as int].0@);
        }
        i += 1;
    }
    proof {
        lemma_add_kv_skip(old(d)@, key@, value@, n as int);
        assert(old(d)@.skip(n as int) =~= Seq::<(Seq<char>, Seq<Seq<char>>)>::empty());
        assert(old(d)@.take(n as int) =~= old(d)@);
    }
    let ghost m0 = old(d)@;
    let mut vs: Vec<String> = Vec::new();
    vs.push(value);
    proof {
        assert(vs@ =~= seq![value]);
        assert(vs.deep_view() =~= seq![value@]);
    }
    d.entries.push((key, vs));
    proof {
        assert(spec_add_kv(Seq::<(Seq<char>, Seq<Seq<char>>)>::empty(), key@, value@) == seq![
            (key@, seq![value@]),
        ]);
        assert(d@ =~= m0 + seq![(key@, seq![value@])]) by {
            assert(forall|j: int|
                0 <= j < m0.len() ==> d.entries@[j] == old(d).entries@[j]);
            assert(d.entries@[m0.len() as int].1.deep_view() =~= seq![value@]);
        }
    }
}

/// Set a key to exactly one value, replacing whatever list it held.
pub fn set_kv(d: &mut Multimap, key: String, value: String)
    ensures
        final(d)@ == spec_set_kv(old(d)@, key@, value@),
{
    let n = d.entries.len();
    let mut i: usize = 0;
    while i < n
        invariant
            0 <= i <= n,
            n == d.entries@.len(),
            d == old(d),
            forall|j: int| 0 <= j < i ==> (#[trigger] old(d)@[j]).0 != key@,
        decreases n - i,
    {
        let ghost m0 = old(d)@;
        if str_eq(d.entries[i].0.as_str(), key.as_str()) {
            proof {
                assert(m0[i as int].0 == d.entries@[i as int].0@);
                lemma_set_kv_skip(m0, key@, value@, i as int);
                assert(m0.skip(i as int)[0] == m0[i as int]);
                assert(m0.skip(i as int).drop_first() =~= m0.skip(i as int + 1));
                assert(spec_set_kv(m0.skip(i as int), key@, value@) == seq![
                    (m0[i as int].0, seq![value@]),
                ] + m0.skip(i as int + 1));
            }
            let mut vs: Vec<String> = Vec::new();
            vs.push(value);
            proof {
                assert(vs@ =~= seq![value]);
            }
            let e = &mut d.entries[i];
            e.1 = vs;
            proof {
                assert(d.entries@[i as int].1@ =~= seq![value]);
                assert(d.entries@[i as int].1.deep_view() =~= seq![value@]);
                assert(d.entries@[i as int].0 == old(d).entries@[i as int].0);
                assert(d@ =~= m0.take(i as int) + seq![(m0[i as int].0, seq![value@])] + m0.skip(
                    i as int + 1,
                )) by {
                    assert(forall|j: int|
                        0 <= j < d.entries@.len() && j != i ==> d.entries@[j] == old(
                            d,
                        ).entries@[j]);
                }
            }
            return ;
        }
        proof {
            assert(old(d)@[i as int].0 == d.entries@[i as int].0@);
        }
        i += 1;
    }
    proof {
        lemma_set_kv_skip(old(d)@, key@, value@, n as int);
        assert(old(d)@.skip(n as int) =~= Seq::<(Seq<char>, Seq<Seq<char>>)>::empty());
        assert(old(d)@.take(n as int) =~= old(d)@);
    }
    let ghost m0 = old(d)@;
    let mut vs: Vec<String> = Vec::new();
    vs.push(value);
    proof {
        assert(vs@ =~= seq![value]);
        assert(vs.deep_view() =~= seq![value@]);
    }
    d.entries.push((key, vs));
    proof {
        assert(spec_set_kv(Seq::<(Seq<char>, Seq<Seq<char>>)>::empty(), key@, value@) == seq![
            (key@, seq![value@]),
        ]);
        assert(d@ =~= m0 + seq![(key@, seq![value@])]) by {
            assert(forall|j: int|
                0 <= j < m0.len() ==> d.entries@[j] == old(d).entries@[j]);
            assert(d.entries@[m0.len() as int].1.deep_view() =~= seq![value@]);
        }
    }
}

/// Turn a key-to-values map into flat (key, value) pairs, one pair per
/// value, in entry order.
pub fn map_to_vec(map: Multimap) -> (r: Vec<(String, String)>)
    ensures
        pairs_view(r@) =~= spec_flatten(map@),
{
    let mut out: Vec<(String, String)> = Vec::new();
    let n = map.entries.len();
    let mut i: usize = 0;
    while i < n
        invariant
            0 <= i <= n == map@.len(),
            n == map.entries@.len(),
            pairs_view(out@) =~= spec_flatten(map@.take(i as int)),
        decreases n - i,
    {
        let vals = &map.entries[i].1;
        let vn = vals.len();
        let mut j: usize = 0;
        while j < vn
            invariant
                0 <= j <= vn,
                0 <= i < n == map@.len(),
                n == map.entries@.len(),
                vn == map@[i as int].1.len(),
                vals == &map.entries@[i as int].1,
                vn == vals@.len(),
                pairs_view(out@) =~= spec_flatten(map@.take(i as int)) + Seq::new(
                    j as nat,
                    |t: int| (map@[i as int].0, map@[i as int].1[t]),
                ),
            decreases vn - j,
        {
            let ownedkey = map.entries[i].0.clone();
            let ownedval = vals[j].clone();
            proof {
                assert(ownedkey@ == map@[i as int].0);
                assert(map@[i as int].1[j as int] == map.entries@[i as int].1@[j as int]@);
                assert(ownedval@ == map@[i as int].1[j as int]);
            }
            let ghost out0 = out@;
            out.push((ownedkey, ownedval));
            proof {
                let target = spec_flatten(map@.take(i as int)) + Seq::new(
                    (j + 1) as nat,
                    |t: int| (map@[i as int].0, map@[i as int].1[t]),
                );
                assert(out@ =~= out0.push((ownedkey, ownedval)));
                assert(pairs_view(out0).len() == out0.len());
                assert(pairs_view(out0) == spec_flatten(map@.take(i as int)) + Seq::new(
                    j as nat,
                    |t: int| (map@[i as int].0, map@[i as int].1[t]),
                ));
                assert(pairs_view(out@).len() == target.len());
                assert forall|t: int| 0 <= t < pairs_view(out@).len() implies pairs_view(
                    out@,
                )[t] == target[t] by {
                    if t < out0.len() {
                        assert(out@[t] == out0[t]);
                        assert(pairs_view(out@)[t] == pairs_view(out0)[t]);
                    } else {
                        assert(out@[t] == (ownedkey, ownedval));
                        assert(target[t] == (map@[i as int].0, map@[i as int].1[j as int]));
                    }
                }
                assert(pairs_view(out@) =~= target);
            }
            j += 1;
        }
        proof {
            let tk = map@.take(i as int + 1);
            assert(tk.drop_last() =~= map@.take(i as int));
            assert(tk.last() == map@[i as int]);
            assert(spec_flatten(tk) == spec_flatten(map@.take(i as int)) + Seq::new(
                map@[i as int].1.len(),
                |t: int| (map@[i as int].0, map@[i as int].1[t]),
            ));
        }
        i += 1;
    }
    proof {
        assert(map@.take(n as int) =~= map@);
    }
    out
}

} // verus!
