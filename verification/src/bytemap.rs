//! An association table from byte-string keys to byte-string values with
//! at most one entry per key and last-write-wins insertion. It backs both
//! the request header table and the in-memory file store model.

use vstd::prelude::*;

verus! {

/// View of a vector of byte-string pairs as a sequence of pairs of
/// byte sequences.
pub open spec fn pairs_view(ps: Seq<(Vec<u8>, Vec<u8>)>) -> Seq<(Seq<u8>, Seq<u8>)> {
    Seq::new(ps.len(), |i: int| (ps[i].0@, ps[i].1@))
}

/// No two entries share a key.
pub open spec fn distinct_keys(es: Seq<(Seq<u8>, Seq<u8>)>) -> bool {
    forall|i: int, j: int|
        0 <= i < j < es.len() ==> (#[trigger] es[i]).0 != (#[trigger] es[j]).0
}

/// Value of the first entry whose key is `k`, if any.
pub open spec fn spec_lookup(es: Seq<(Seq<u8>, Seq<u8>)>, k: Seq<u8>) -> Option<Seq<u8>>
    decreases es.len(),
{
    if es.len() == 0 {
        None
    } else if es[0].0 == k {
        Some(es[0].1)
    } else {
        spec_lookup(es.skip(1), k)
    }
}

/// Entries after binding `k` to `v`: the first entry keyed `k` is taken
/// out, and the new binding goes to the end.
pub open spec fn spec_insert(
    es: Seq<(Seq<u8>, Seq<u8>)>,
    k: Seq<u8>,
    v: Seq<u8>,
) -> Seq<(Seq<u8>, Seq<u8>)>
    decreases es.len(),
{
    if es.len() == 0 {
        seq![(k, v)]
    } else if es[0].0 == k {
        es.skip(1).push((k, v))
    } else {
        seq![es[0]] + spec_insert(es.skip(1), k, v)
    }
}

/// `spec_lookup` finds the entry at `i` when no earlier entry has its key.
pub proof fn lemma_lookup_at(es: Seq<(Seq<u8>, Seq<u8>)>, k: Seq<u8>, i: int)
    requires
        0 <= i < es.len(),
        es[i].0 == k,
        forall|j: int| 0 <= j < i ==> (#[trigger] es[j]).0 != k,
    ensures
        spec_lookup(es, k) == Some(es[i].1),
    decreases i,
{
    if i > 0 {
        let t = es.skip(1);
        assert forall|j: int| 0 <= j < i - 1 implies (#[trigger] t[j]).0 != k by {
            assert(t[j] == es[j + 1]);
        }
        lemma_lookup_at(t, k, i - 1);
    }
}

/// `spec_lookup` finds nothing when no entry has the key.
pub proof fn lemma_lookup_none(es: Seq<(Seq<u8>, Seq<u8>)>, k: Seq<u8>)
    requires
        forall|j: int| 0 <= j < es.len() ==> (#[trigger] es[j]).0 != k,
    ensures
        spec_lookup(es, k) is None,
    decreases es.len(),
{
    if es.len() > 0 {
        let t = es.skip(1);
        assert forall|j: int| 0 <= j < t.len() implies (#[trigger] t[j]).0 != k by {
            assert(t[j] == es[j + 1]);
        }
        lemma_lookup_none(t, k);
    }
}

/// Looking a key up in a table extended at the end: the old binding wins
/// if there is one, else the new entry is found.
pub proof fn lemma_lookup_push(es: Seq<(Seq<u8>, Seq<u8>)>, p: (Seq<u8>, Seq<u8>), k: Seq<u8>)
    ensures
        spec_lookup(es.push(p), k) == (if spec_lookup(es, k) is Some {
            spec_lookup(es, k)
        } else if p.0 == k {
            Some(p.1)
        } else {
            None
        }),
    decreases es.len(),
{
    if es.len() == 0 {
        assert(es.push(p)[0] == p);
        assert(es.push(p).skip(1) =~= Seq::<(Seq<u8>, Seq<u8>)>::empty());
        assert(spec_lookup(es, k) is None);
        assert(spec_lookup(Seq::<(Seq<u8>, Seq<u8>)>::empty(), k) is None);
        if p.0 == k {
            assert(spec_lookup(es.push(p), k) == Some(p.1));
        } else {
            assert(spec_lookup(es.push(p), k) is None);
        }
    } else {
        assert(es.push(p)[0] == es[0]);
        assert(es.push(p).skip(1) =~= es.skip(1).push(p));
        lemma_lookup_push(es.skip(1), p, k);
        if es[0].0 == k {
            assert(spec_lookup(es.push(p), k) == Some(es[0].1));
            assert(spec_lookup(es, k) == Some(es[0].1));
        } else {
            assert(spec_lookup(es.push(p), k) == spec_lookup(es.skip(1).push(p), k));
            assert(spec_lookup(es, k) == spec_lookup(es.skip(1), k));
        }
    }
}

/// What insertion does, seen through lookups, and that it keeps keys
/// distinct and introduces no key but its own.
pub proof fn lemma_insert_props(es: Seq<(Seq<u8>, Seq<u8>)>, k: Seq<u8>, v: Seq<u8>)
    requires
        distinct_keys(es),
    ensures
        distinct_keys(spec_insert(es, k, v)),
        spec_lookup(spec_insert(es, k, v), k) == Some(v),
        forall|k2: Seq<u8>|
            k2 != k ==> #[trigger] spec_lookup(spec_insert(es, k, v), k2) == spec_lookup(es, k2),
        forall|j: int|
            0 <= j < spec_insert(es, k, v).len() ==> (#[trigger] spec_insert(es, k, v)[j]).0 == k
                || (exists|i: int| 0 <= i < es.len() && (#[trigger] es[i]).0 == spec_insert(
                es,
                k,
                v,
            )[j].0),
    decreases es.len(),
{
    let r = spec_insert(es, k, v);
    if es.len() == 0 {
        assert(r =~= seq![(k, v)]);
        assert(r.skip(1) =~= Seq::<(Seq<u8>, Seq<u8>)>::empty());
        assert forall|k2: Seq<u8>| k2 != k implies #[trigger] spec_lookup(r, k2)
            == spec_lookup(es, k2) by {
            lemma_lookup_none(r, k2);
        }
    } else if es[0].0 == k {
        let t = es.skip(1);
        assert(r == t.push((k, v)));
        // Keys of `t` differ from `k` because `es` has distinct keys.
        assert forall|j: int| 0 <= j < t.len() implies (#[trigger] t[j]).0 != k by {
            assert(t[j] == es[j + 1]);
        }
        assert forall|i: int, j: int| 0 <= i < j < r.len() implies (#[trigger] r[i]).0
            != (#[trigger] r[j]).0 by {
            if j < t.len() {
                assert(r[i] == es[i + 1] && r[j] == es[j + 1]);
            } else {
                assert(r[i] == t[i] && r[j] == (k, v));
            }
        }
        lemma_lookup_none(t, k);
        lemma_lookup_push(t, (k, v), k);
        assert forall|k2: Seq<u8>| k2 != k implies #[trigger] spec_lookup(r, k2)
            == spec_lookup(es, k2) by {
            lemma_lookup_push(t, (k, v), k2);
        }
    } else {
        let t = es.skip(1);
        assert forall|i: int, j: int| 0 <= i < j < t.len() implies (#[trigger] t[i]).0
            != (#[trigger] t[j]).0 by {
            assert(t[i] == es[i + 1] && t[j] == es[j + 1]);
        }
        lemma_insert_props(t, k, v);
        let s = spec_insert(t, k, v);
        assert(r == seq![es[0]] + s);
        assert(r[0] == es[0]);
        assert(r.skip(1) =~= s);
        // Distinctness: the head key differs from `k` and from every key
        // of `t`, hence from every key of `s`.
        assert forall|i: int, j: int| 0 <= i < j < r.len() implies (#[trigger] r[i]).0
            != (#[trigger] r[j]).0 by {
            if i == 0 {
                assert(r[j] == s[j - 1]);
                if s[j - 1].0 != k {
                    let w = choose|w: int| 0 <= w < t.len() && (#[trigger] t[w]).0 == s[j - 1].0;
                    assert(t[w] == es[w + 1]);
                }
            } else {
                assert(r[i] == s[i - 1] && r[j] == s[j - 1]);
            }
        }
        assert(spec_lookup(r, k) == spec_lookup(s, k));
        assert forall|k2: Seq<u8>| k2 != k implies #[trigger] spec_lookup(r, k2)
            == spec_lookup(es, k2) by {
            if es[0].0 != k2 {
                assert(spec_lookup(r, k2) == spec_lookup(s, k2));
                assert(spec_lookup(es, k2) == spec_lookup(t, k2));
            }
        }
        assert forall|j: int|
            0 <= j < r.len() implies (#[trigger] r[j]).0 == k || (exists|i: int|
            0 <= i < es.len() && (#[trigger] es[i]).0 == r[j].0) by {
            if j == 0 {
                assert(es[0].0 == r[0].0);
            } else {
                assert(r[j] == s[j - 1]);
                if s[j - 1].0 != k {
                    let w = choose|w: int| 0 <= w < t.len() && (#[trigger] t[w]).0 == s[j - 1].0;
                    assert(es[w + 1].0 == r[j].0);
                }
            }
        }
    }
}

/// Inserting a key that is not bound yet appends the new entry.
pub proof fn lemma_insert_fresh(es: Seq<(Seq<u8>, Seq<u8>)>, k: Seq<u8>, v: Seq<u8>)
    requires
        forall|j: int| 0 <= j < es.len() ==> (#[trigger] es[j]).0 != k,
    ensures
        spec_insert(es, k, v) == es.push((k, v)),
    decreases es.len(),
{
    if es.len() == 0 {
        assert(spec_insert(es, k, v) =~= es.push((k, v)));
    } else {
        let t = es.skip(1);
        assert forall|j: int| 0 <= j < t.len() implies (#[trigger] t[j]).0 != k by {
            assert(t[j] == es[j + 1]);
        }
        lemma_insert_fresh(t, k, v);
        assert(spec_insert(es, k, v) =~= es.push((k, v)));
    }
}

/// Inserting at the position of the sole old binding of `k` removes that
/// entry and appends the new one.
pub proof fn lemma_insert_at(es: Seq<(Seq<u8>, Seq<u8>)>, k: Seq<u8>, v: Seq<u8>, i: int)
    requires
        0 <= i < es.len(),
        es[i].0 == k,
        forall|j: int| 0 <= j < i ==> (#[trigger] es[j]).0 != k,
    ensures
        spec_insert(es, k, v) == (es.subrange(0, i) + es.subrange(i + 1, es.len() as int)).push(
            (k, v),
        ),
    decreases i,
{
    if i == 0 {
        assert(es.subrange(0, 0) + es.subrange(1, es.len() as int) =~= es.skip(1));
    } else {
        let t = es.skip(1);
        assert forall|j: int| 0 <= j < i - 1 implies (#[trigger] t[j]).0 != k by {
            assert(t[j] == es[j + 1]);
        }
        assert(t[i - 1] == es[i]);
        lemma_insert_at(t, k, v, i - 1);
        assert(seq![es[0]] + (t.subrange(0, i - 1) + t.subrange(i, t.len() as int)).push((k, v))
            =~= (es.subrange(0, i) + es.subrange(i + 1, es.len() as int)).push((k, v)));
    }
}

/// The association table.
pub struct ByteMap {
    pub pairs: Vec<(Vec<u8>, Vec<u8>)>,
}

impl ByteMap {
    /// The table's entries, in storage order.
    pub open spec fn entries(self) -> Seq<(Seq<u8>, Seq<u8>)> {
        pairs_view(self.pairs@)
    }

    /// Keys are pairwise distinct.
    pub open spec fn wf(self) -> bool {
        distinct_keys(self.entries())
    }

    /// The empty table.
    pub fn new() -> (r: ByteMap)
        ensures
            r.entries() == Seq::<(Seq<u8>, Seq<u8>)>::empty(),
            r.wf(),
    {
        let r = ByteMap { pairs: Vec::new() };
        assert(r.entries() =~= Seq::<(Seq<u8>, Seq<u8>)>::empty());
        r
    }

    /// Index of the first entry keyed `k`, if any.
    fn find_idx(&self, k: &Vec<u8>) -> (r: Option<usize>)
        ensures
            match r {
                Some(i) => {
                    &&& i < self.entries().len()
                    &&& self.entries()[i as int].0 == k@
                    &&& forall|j: int| 0 <= j < i ==> (#[trigger] self.entries()[j]).0 != k@
                },
                None => forall|j: int|
                    0 <= j < self.entries().len() ==> (#[trigger] self.entries()[j]).0 != k@,
            },
    {
        let mut i: usize = 0;
        while i < self.pairs.len()
            invariant
                i <= self.entries().len(),
                self.entries().len() == self.pairs@.len(),
                forall|j: int| 0 <= j < i ==> (#[trigger] self.entries()[j]).0 != k@,
            decreases self.pairs@.len() - i,
        {
            if crate::bytes::bytes_eq(&self.pairs[i].0, k) {
                return Some(i);
            }
            i = i + 1;
        }
        None
    }

    /// Value bound to `k`, if any.
    pub fn get(&self, k: &Vec<u8>) -> (r: Option<&Vec<u8>>)
        ensures
            match r {
                Some(v) => spec_lookup(self.entries(), k@) == Some(v@),
                None => spec_lookup(self.entries(), k@) is None,
            },
    {
        match self.find_idx(k) {
            Some(i) => {
                proof {
                    lemma_lookup_at(self.entries(), k@, i as int);
                }
                Some(&self.pairs[i].1)
            },
            None => {
                proof {
                    lemma_lookup_none(self.entries(), k@);
                }
                None
            },
        }
    }

    /// Bind `k` to `v`, replacing any earlier binding.
    pub fn insert(&mut self, k: Vec<u8>, v: Vec<u8>)
        ensures
            final(self).entries() == spec_insert(old(self).entries(), k@, v@),
    {
        let ghost es = self.entries();
        match self.find_idx(&k) {
            Some(i) => {
                proof {
                    lemma_insert_at(es, k@, v@, i as int);
                }
                self.pairs.remove(i);
                self.pairs.push((k, v));
                assert(self.entries() =~= (es.subrange(0, i as int) + es.subrange(
                    i + 1,
                    es.len() as int,
                )).push((k@, v@)));
            },
            None => {
                proof {
                    lemma_insert_fresh(es, k@, v@);
                }
                self.pairs.push((k, v));
                assert(self.entries() =~= es.push((k@, v@)));
            },
        }
    }
}

} // verus!
