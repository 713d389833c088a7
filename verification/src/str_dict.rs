//! An ordered map from strings to strings, kept sorted by key in
//! lexicographic character order, with each key present at most once.
use vstd::prelude::*;

use crate::text::{lex_lt, lemma_lex_asym, lemma_lex_irrefl, lemma_lex_total, str_eq, str_lt};

verus! {

/// The value bound to `k` in the entry sequence `m`, first match.
pub open spec fn assoc_get(m: Seq<(Seq<char>, Seq<char>)>, k: Seq<char>) -> Option<Seq<char>>
    decreases m.len(),
{
    if m.len() == 0 {
        None
    } else if m[0].0 == k {
        Some(m[0].1)
    } else {
        assoc_get(m.drop_first(), k)
    }
}

pub open spec fn assoc_contains(m: Seq<(Seq<char>, Seq<char>)>, k: Seq<char>) -> bool {
    assoc_get(m, k) is Some
}

/// The value bound to `k`, or the empty string when `k` is unbound.
pub open spec fn assoc_get_or_empty(m: Seq<(Seq<char>, Seq<char>)>, k: Seq<char>) -> Seq<char> {
    match assoc_get(m, k) {
        Some(v) => v,
        None => Seq::<char>::empty(),
    }
}

/// The entry sequence `m` with `k` bound to `v`: an existing binding is
/// replaced in place, a new one is inserted at its ordered position.
pub open spec fn assoc_insert(
    m: Seq<(Seq<char>, Seq<char>)>,
    k: Seq<char>,
    v: Seq<char>,
) -> Seq<(Seq<char>, Seq<char>)>
    decreases m.len(),
{
    if m.len() == 0 {
        seq![(k, v)]
    } else if m[0].0 == k {
        seq![(k, v)] + m.drop_first()
    } else if lex_lt(k, m[0].0) {
        seq![(k, v)] + m
    } else {
        seq![m[0]] + assoc_insert(m.drop_first(), k, v)
    }
}

proof fn lemma_assoc_insert_skip(m: Seq<(Seq<char>, Seq<char>)>, k: Seq<char>, v: Seq<char>, j: int)
    requires
        0 <= j <= m.len(),
        forall|p: int| 0 <= p < j ==> lex_lt((#[trigger] m[p]).0, k),
    ensures
        assoc_insert(m, k, v) == m.take(j) + assoc_insert(m.skip(j), k, v),
    decreases j,
{
    if j == 0 {
        assert(m.skip(0) =~= m);
        assert(m.take(0) + assoc_insert(m, k, v) =~= assoc_insert(m, k, v));
    } else {
        assert(lex_lt(m[0].0, k));
        assert(m[0].0 != k) by {
            if m[0].0 == k {
                lemma_lex_irrefl(k);
            }
        }
        lemma_lex_asym(m[0].0, k);
        assert(assoc_insert(m, k, v) == seq![m[0]] + assoc_insert(m.drop_first(), k, v));
        assert forall|p: int| 0 <= p < j - 1 implies lex_lt(
            (#[trigger] m.drop_first()[p]).0,
            k,
        ) by {
            assert(m.drop_first()[p] == m[p + 1]);
        }
        lemma_assoc_insert_skip(m.drop_first(), k, v, j - 1);
        assert(m.drop_first().take(j - 1) =~= m.take(j).drop_first());
        assert(m.drop_first().skip(j - 1) =~= m.skip(j));
        assert(seq![m[0]] + (m.take(j).drop_first() + assoc_insert(m.skip(j), k, v)) =~= m.take(j)
            + assoc_insert(m.skip(j), k, v));
    }
}

/// An ordered string-keyed attribute map.
#[derive(Debug, PartialEq)]
pub struct StrDict {
    keys: Vec<String>,
    vals: Vec<String>,
}

impl View for StrDict {
    type V = Seq<(Seq<char>, Seq<char>)>;

    closed spec fn view(&self) -> Seq<(Seq<char>, Seq<char>)> {
        Seq::new(self.keys@.len(), |i: int| (self.keys@[i]@, self.vals@[i]@))
    }
}

impl StrDict {
    pub closed spec fn lens_ok(&self) -> bool {
        self.keys@.len() == self.vals@.len()
    }

    /// Keys strictly increasing: sorted, and therefore each key unique.
    pub open spec fn wf(&self) -> bool {
        self.lens_ok() && forall|i: int|
            0 <= i && i + 1 < self@.len() ==> lex_lt(
                (#[trigger] self@[i]).0,
                self@[i + 1].0,
            )
    }

    pub fn new() -> (d: StrDict)
        ensures
            d@ =~= Seq::<(Seq<char>, Seq<char>)>::empty(),
            d.wf(),
    {
        StrDict { keys: Vec::new(), vals: Vec::new() }
    }

    pub fn len(&self) -> (n: usize)
        ensures
            n == self@.len(),
    {
        self.keys.len()
    }

    pub fn key_at(&self, i: usize) -> (k: &String)
        requires
            i < self@.len(),
        ensures
            k@ == self@[i as int].0,
    {
        &self.keys[i]
    }

    pub fn val_at(&self, i: usize) -> (v: &String)
        requires
            i < self@.len(),
            self.wf(),
        ensures
            v@ == self@[i as int].1,
    {
        &self.vals[i]
    }

    pub fn get<'a>(&'a self, key: &str) -> (r: Option<&'a String>)
        requires
            self.wf(),
        ensures
            match r {
                Some(v) => assoc_get(self@, key@) == Some(v@),
                None => assoc_get(self@, key@) is None,
            },
    {
        let n = self.keys.len();
        let mut i: usize = 0;
        proof {
            assert(self@.skip(0) =~= self@);
        }
        while i < n
            invariant
                0 <= i <= n,
                n == self@.len(),
                n == self.keys@.len(),
                n == self.vals@.len(),
                assoc_get(self@, key@) == assoc_get(self@.skip(i as int), key@),
            decreases n - i,
        {
            proof {
                assert(self@.skip(i as int)[0] == self@[i as int]);
            }
            if str_eq(self.keys[i].as_str(), key) {
                return Some(&self.vals[i]);
            }
            proof {
                assert(self@.skip(i as int).drop_first() =~= self@.skip(i + 1));
            }
            i = i + 1;
        }
        None
    }

    pub fn contains_key(&self, key: &str) -> (r: bool)
        requires
            self.wf(),
        ensures
            r == assoc_contains(self@, key@),
    {
        match self.get(key) {
            Some(_) => true,
            None => false,
        }
    }

    /// The first position whose key is not below `key`.
    fn lower_bound(&self, key: &str) -> (j: usize)
        requires
            self.wf(),
        ensures
            j <= self@.len(),
            forall|p: int| 0 <= p < j ==> lex_lt((#[trigger] self@[p]).0, key@),
            j < self@.len() ==> !lex_lt(self@[j as int].0, key@),
    {
        let n = self.keys.len();
        let mut j: usize = 0;
        while j < n
            invariant
                0 <= j <= n,
                self.wf(),
                n == self@.len(),
                n == self.keys@.len(),
                forall|p: int| 0 <= p < j ==> lex_lt((#[trigger] self@[p]).0, key@),
            decreases n - j,
        {
            proof {
                assert(self@[j as int].0 == self.keys@[j as int]@);
            }
            if !str_lt(self.keys[j].as_str(), key) {
                return j;
            }
            j = j + 1;
        }
        j
    }

    /// Bind `key` to `value`, replacing any existing binding.
    pub fn insert(&mut self, key: String, value: String)
        requires
            old(self).wf(),
        ensures
            final(self)@ == assoc_insert(old(self)@, key@, value@),
            final(self).wf(),
    {
        let ghost m = self@;
        let ghost k = key@;
        let ghost v = value@;
        let n = self.keys.len();
        let j = self.lower_bound(key.as_str());
        proof {
            lemma_assoc_insert_skip(m, k, v, j as int);
        }
        if j == n {
            proof {
                assert(m.skip(j as int) =~= Seq::<(Seq<char>, Seq<char>)>::empty());
            }
            self.keys.push(key);
            self.vals.push(value);
            proof {
                assert(self@ =~= m.take(n as int) + seq![(k, v)]);
                assert(m.take(n as int) =~= m);
                assert(self@ == assoc_insert(m, k, v));
                assert forall|i: int| 0 <= i && i + 1 < self@.len() implies lex_lt(
                    (#[trigger] self@[i]).0,
                    self@[i + 1].0,
                ) by {
                    if i + 1 < self@.len() - 1 {
                        assert(self@[i] == m[i]);
                        assert(self@[i + 1] == m[i + 1]);
                    } else {
                        assert(self@[i] == m[i]);
                        assert(self@[i + 1].0 == k);
                    }
                }
            }
            return ;
        }
        let ghost sub = m.skip(j as int);
        proof {
            assert(sub[0] == m[j as int]);
            assert(m[j as int].0 == self.keys@[j as int]@);
        }
        if str_eq(self.keys[j].as_str(), key.as_str()) {
            self.vals.set(j, value);
            proof {
                assert(assoc_insert(sub, k, v) == seq![(k, v)] + sub.drop_first());
                assert(sub.drop_first() =~= m.skip(j + 1));
                assert(self@ =~= m.take(j as int) + (seq![(k, v)] + m.skip(j + 1)));
                assert(self@ == assoc_insert(m, k, v));
                assert(m[j as int].0 == k);
                assert(forall|p: int| 0 <= p < self@.len() ==> (#[trigger] self@[p]).0 == m[p].0);
            }
            return ;
        }
        proof {
            lemma_lex_total(k, sub[0].0);
            assert(lex_lt(k, sub[0].0));
            assert(assoc_insert(sub, k, v) == seq![(k, v)] + sub);
        }
        self.keys.insert(j, key);
        self.vals.insert(j, value);
        proof {
            assert(self@ =~= m.take(j as int) + (seq![(k, v)] + m.skip(j as int)));
            assert(self@ == assoc_insert(m, k, v));
            assert forall|i: int| 0 <= i && i + 1 < self@.len() implies lex_lt(
                (#[trigger] self@[i]).0,
                self@[i + 1].0,
            ) by {
                if i + 1 < j {
                    assert(self@[i] == m[i]);
                    assert(self@[i + 1] == m[i + 1]);
                } else if i + 1 == j {
                    assert(self@[i] == m[i]);
                    assert(self@[i + 1].0 == k);
                } else if i == j {
                    assert(self@[i].0 == k);
                    assert(self@[i + 1] == m[i]);
                    assert(lex_lt(k, m[j as int].0));
                } else {
                    assert(self@[i] == m[i - 1]);
                    assert(self@[i + 1] == m[i]);
                }
            }
        }
    }

    /// An equal copy of the map.
    pub fn duplicate(&self) -> (d: StrDict)
        requires
            self.wf(),
        ensures
            d@ == self@,
            d.wf(),
    {
        let n = self.keys.len();
        let mut keys: Vec<String> = Vec::new();
        let mut vals: Vec<String> = Vec::new();
        let mut i: usize = 0;
        while i < n
            invariant
                0 <= i <= n,
                n == self.keys@.len(),
                n == self.vals@.len(),
                keys@.len() == i,
                vals@.len() == i,
                forall|p: int| 0 <= p < i ==> keys@[p] == self.keys@[p] && vals@[p]
                    == self.vals@[p],
            decreases n - i,
        {
            keys.push(self.keys[i].clone());
            vals.push(self.vals[i].clone());
            i = i + 1;
        }
        let d = StrDict { keys, vals };
        proof {
            assert(d@ =~= self@);
        }
        d
    }
}

} // verus!
