use vstd::prelude::*;

verus! {

/// The growable label dictionary: each entry pairs a label with its integer
/// id.  Ids assigned by the corpus builder are dense and contiguous from 0,
/// in first-seen order; a dictionary adopted from a caller-supplied mapping
/// carries the caller's ids verbatim.
#[derive(Debug)]
pub struct LabelDictionary {
    entries: Vec<(String, usize)>,
}

/// Does the entry sequence bind the key `k`?
pub open spec fn has_key(s: Seq<(Seq<char>, usize)>, k: Seq<char>) -> bool {
    exists|i: int| 0 <= i < s.len() && (#[trigger] s[i]).0 == k
}

/// All keys of the entry sequence are distinct.
pub open spec fn distinct_keys(s: Seq<(Seq<char>, usize)>) -> bool {
    forall|i: int, j: int| 0 <= i < j < s.len() ==> (#[trigger] s[i]).0 != (#[trigger] s[j]).0
}

/// The mapping that an entry sequence denotes; a later binding of a key
/// overrides an earlier one.
pub open spec fn map_of(s: Seq<(Seq<char>, usize)>) -> Map<Seq<char>, usize>
    decreases s.len(),
{
    if s.len() == 0 {
        Map::empty()
    } else {
        map_of(s.drop_last()).insert(s.last().0, s.last().1)
    }
}

/// The entries that the sequential builder produces from a corpus: each
/// label, at its first occurrence, is appended with the next free id.
pub open spec fn built_entries(c: Seq<Seq<char>>) -> Seq<(Seq<char>, usize)>
    decreases c.len(),
{
    if c.len() == 0 {
        Seq::empty()
    } else {
        let p = built_entries(c.drop_last());
        if has_key(p, c.last()) {
            p
        } else {
            p.push((c.last(), p.len() as usize))
        }
    }
}

impl View for LabelDictionary {
    type V = Map<Seq<char>, usize>;

    open spec fn view(&self) -> Map<Seq<char>, usize> {
        map_of(self.entries_view())
    }
}

impl LabelDictionary {
    /// The entries exactly as held, in insertion order.
    pub closed spec fn raw_entries(&self) -> Seq<(String, usize)> {
        self.entries@
    }

    /// The entries as mathematical values, in insertion order.
    pub closed spec fn entries_view(&self) -> Seq<(Seq<char>, usize)> {
        self.entries.deep_view()
    }

    /// Well-formedness: no label occurs twice.
    pub open spec fn wf(&self) -> bool {
        distinct_keys(self.entries_view())
    }

    /// Adopt a caller-supplied mapping verbatim.
    pub fn from_entries(entries: Vec<(String, usize)>) -> (d: LabelDictionary)
        requires
            distinct_keys(entries.deep_view()),
        ensures
            d.wf(),
            d.raw_entries() == entries@,
            d.entries_view() == entries.deep_view(),
    {
        LabelDictionary { entries }
    }

    /// The number of labels in the dictionary.
    pub fn len(&self) -> (n: usize)
        ensures
            n == self.entries_view().len(),
    {
        self.entries.len()
    }

    /// A snapshot copy of the entries, in insertion order.
    pub fn snapshot(&self) -> (r: Vec<(String, usize)>)
        ensures
            r@ == self.raw_entries(),
            r.deep_view() == self.entries_view(),
    {
        let n = self.entries.len();
        let mut out: Vec<(String, usize)> = Vec::new();
        let mut j: usize = 0;
        while j < n
            invariant
                n == self.entries@.len(),
                j <= n,
                out@.len() == j,
                forall|k: int| 0 <= k < j ==> out@[k] == self.entries@[k],
            decreases n - j,
        {
            let label = self.entries[j].0.clone();
            let id = self.entries[j].1;
            out.push((label, id));
            j += 1;
        }
        proof {
            assert(out@ =~= self.entries@);
            assert(out.deep_view() =~= self.entries_view());
        }
        out
    }

    /// Look the label up; `Some(id)` exactly when the dictionary maps it.
    pub fn lookup(&self, label: &String) -> (r: Option<usize>)
        requires
            self.wf(),
        ensures
            match r {
                Some(id) => self@.contains_key(label@) && self@[label@] == id,
                None => !self@.contains_key(label@),
            },
    {
        let n = self.entries.len();
        let mut j: usize = 0;
        while j < n
            invariant
                self.wf(),
                n == self.entries_view().len(),
                j <= n,
                forall|k: int| 0 <= k < j ==> (#[trigger] self.entries_view()[k]).0 != label@,
            decreases n - j,
        {
            if self.entries[j].0 == *label {
                proof {
                    lemma_map_of_index(self.entries_view());
                    assert(self.entries_view()[j as int] == (self.entries@[j as int].0@, self.entries@[j as int].1));
                }
                return Some(self.entries[j].1);
            }
            proof {
                assert(self.entries_view()[j as int] == (self.entries@[j as int].0@, self.entries@[j as int].1));
            }
            j += 1;
        }
        proof {
            lemma_map_of_keys(self.entries_view());
        }
        None
    }

    /// Insert the label with id = current size if it is absent; otherwise do
    /// nothing.  This is the builder's only mutation.
    pub fn insert_new(&mut self, label: String)
        requires
            old(self).wf(),
        ensures
            final(self).wf(),
            final(self).entries_view() == (if has_key(old(self).entries_view(), label@) {
                old(self).entries_view()
            } else {
                old(self).entries_view().push((label@, old(self).entries_view().len() as usize))
            }),
    {
        let present = self.lookup(&label).is_some();
        proof {
            lemma_map_of_keys(self.entries_view());
        }
        if !present {
            let id = self.entries.len();
            self.entries.push((label, id));
            proof {
                assert(self.entries_view() =~= old(self).entries_view().push((label@, id)));
                assert forall|i: int, j: int| 0 <= i < j < self.entries_view().len() implies
                    (#[trigger] self.entries_view()[i]).0 != (#[trigger] self.entries_view()[j]).0 by {
                    if j < self.entries_view().len() - 1 {
                        assert(old(self).entries_view()[i] == self.entries_view()[i]);
                        assert(old(self).entries_view()[j] == self.entries_view()[j]);
                    } else {
                        assert(old(self).entries_view()[i] == self.entries_view()[i]);
                        assert(!has_key(old(self).entries_view(), label@));
                    }
                }
            }
        }
    }

    /// Build a dictionary from a corpus, strictly sequentially: ids are
    /// assigned in first-seen order.
    pub fn build(corpus: &Vec<String>) -> (d: LabelDictionary)
        ensures
            d.wf(),
            d.entries_view() == built_entries(corpus.deep_view()),
    {
        let mut d = LabelDictionary { entries: Vec::new() };
        let n = corpus.len();
        let mut i: usize = 0;
        proof {
            assert(d.entries_view() =~= built_entries(corpus.deep_view().take(0)));
        }
        while i < n
            invariant
                n == corpus@.len(),
                i <= n,
                d.wf(),
                d.entries_view() == built_entries(corpus.deep_view().take(i as int)),
            decreases n - i,
        {
            let label = corpus[i].clone();
            proof {
                let c = corpus.deep_view();
                assert(c.take(i + 1).drop_last() =~= c.take(i as int));
                assert(c.take(i + 1).last() == c[i as int]);
                assert(label@ == c[i as int]);
            }
            d.insert_new(label);
            i += 1;
        }
        proof {
            assert(corpus.deep_view().take(n as int) =~= corpus.deep_view());
        }
        d
    }
}

/// The keys that `map_of` binds are exactly the keys that occur among the
/// entries.
pub proof fn lemma_map_of_keys(s: Seq<(Seq<char>, usize)>)
    ensures
        forall|k: Seq<char>| #[trigger] map_of(s).contains_key(k) <==> has_key(s, k),
    decreases s.len(),
{
    if s.len() == 0 {
    } else {
        lemma_map_of_keys(s.drop_last());
        assert forall|k: Seq<char>| #[trigger] map_of(s).contains_key(k) implies has_key(s, k) by {
            if k == s.last().0 {
                assert((s[s.len() - 1]).0 == k);
            } else {
                assert(map_of(s.drop_last()).contains_key(k));
                assert(has_key(s.drop_last(), k));
                let i = choose|i: int| 0 <= i < s.drop_last().len() && (#[trigger] s.drop_last()[i]).0 == k;
                assert((s[i]).0 == k);
            }
        }
        assert forall|k: Seq<char>| has_key(s, k) implies #[trigger] map_of(s).contains_key(k) by {
            let i = choose|i: int| 0 <= i < s.len() && (#[trigger] s[i]).0 == k;
            if i < s.len() - 1 {
                assert((s.drop_last()[i]).0 == k);
                assert(has_key(s.drop_last(), k));
                assert(map_of(s.drop_last()).contains_key(k));
            } else {
                assert(k == s.last().0);
            }
        }
    }
}

/// With distinct keys, `map_of` binds each entry's key to that entry's id.
pub proof fn lemma_map_of_index(s: Seq<(Seq<char>, usize)>)
    requires
        distinct_keys(s),
    ensures
        forall|i: int| 0 <= i < s.len() ==> map_of(s).contains_key((#[trigger] s[i]).0)
            && map_of(s)[s[i].0] == s[i].1,
    decreases s.len(),
{
    if s.len() == 0 {
    } else {
        assert forall|i: int, j: int| 0 <= i < j < s.drop_last().len() implies
            (#[trigger] s.drop_last()[i]).0 != (#[trigger] s.drop_last()[j]).0 by {
            assert(s.drop_last()[i] == s[i]);
            assert(s.drop_last()[j] == s[j]);
        }
        lemma_map_of_index(s.drop_last());
        assert forall|i: int| 0 <= i < s.len() implies map_of(s).contains_key((#[trigger] s[i]).0)
            && map_of(s)[s[i].0] == s[i].1 by {
            if i < s.len() - 1 {
                assert(s.drop_last()[i] == s[i]);
                assert(s[i].0 != s.last().0);
            }
        }
    }
}

/// With distinct keys, the mapping has exactly as many keys as there are
/// entries.
pub proof fn lemma_map_of_len(s: Seq<(Seq<char>, usize)>)
    requires
        distinct_keys(s),
    ensures
        map_of(s).dom().finite(),
        map_of(s).dom().len() == s.len(),
    decreases s.len(),
{
    if s.len() == 0 {
        assert(map_of(s).dom() =~= Set::empty());
    } else {
        assert forall|i: int, j: int| 0 <= i < j < s.drop_last().len() implies
            (#[trigger] s.drop_last()[i]).0 != (#[trigger] s.drop_last()[j]).0 by {
            assert(s.drop_last()[i] == s[i]);
            assert(s.drop_last()[j] == s[j]);
        }
        lemma_map_of_len(s.drop_last());
        lemma_map_of_keys(s.drop_last());
        assert(!map_of(s.drop_last()).contains_key(s.last().0)) by {
            if has_key(s.drop_last(), s.last().0) {
                let i = choose|i: int| 0 <= i < s.drop_last().len()
                    && (#[trigger] s.drop_last()[i]).0 == s.last().0;
                assert(s[i].0 == s[s.len() - 1].0);
            }
        }
        assert(map_of(s).dom() =~= map_of(s.drop_last()).dom().insert(s.last().0));
    }
}

/// The exact entries determine their mathematical view: two dictionaries
/// that hold the same entries have the same entry views.
pub proof fn lemma_raw_determines_views(a: LabelDictionary, b: LabelDictionary)
    requires
        a.raw_entries() == b.raw_entries(),
    ensures
        a.entries_view() == b.entries_view(),
{
    assert(a.entries_view() =~= b.entries_view());
}

proof fn lemma_built_len_le(c: Seq<Seq<char>>)
    ensures
        built_entries(c).len() <= c.len(),
    decreases c.len(),
{
    if c.len() == 0 {
    } else {
        lemma_built_len_le(c.drop_last());
    }
}

proof fn lemma_built_entries_props(c: Seq<Seq<char>>)
    requires
        c.len() <= usize::MAX,
    ensures
        distinct_keys(built_entries(c)),
        forall|j: int| 0 <= j < built_entries(c).len() ==> (#[trigger] built_entries(c)[j]).1 == j,
        forall|k: Seq<char>| #[trigger] has_key(built_entries(c), k) <==> c.contains(k),
    decreases c.len(),
{
    if c.len() == 0 {
    } else {
        lemma_built_entries_props(c.drop_last());
        lemma_built_len_le(c.drop_last());
        let p = built_entries(c.drop_last());
        let b = built_entries(c);
        assert forall|k: Seq<char>| #[trigger] has_key(b, k) implies c.contains(k) by {
            let i = choose|i: int| 0 <= i < b.len() && (#[trigger] b[i]).0 == k;
            if i < p.len() {
                assert(p[i].0 == k);
                assert(has_key(p, k));
                assert(c.drop_last().contains(k));
                let j = choose|j: int| 0 <= j < c.drop_last().len() && c.drop_last()[j] == k;
                assert(c[j] == k);
            } else {
                assert(k == c.last());
                assert(c[c.len() - 1] == k);
            }
        }
        assert forall|k: Seq<char>| c.contains(k) implies #[trigger] has_key(b, k) by {
            let i = choose|i: int| 0 <= i < c.len() && c[i] == k;
            if i < c.len() - 1 {
                assert(c.drop_last()[i] == k);
                assert(c.drop_last().contains(k));
                assert(has_key(p, k));
                let j = choose|j: int| 0 <= j < p.len() && (#[trigger] p[j]).0 == k;
                assert(b[j].0 == k);
            } else {
                if has_key(p, c.last()) {
                    let j = choose|j: int| 0 <= j < p.len() && (#[trigger] p[j]).0 == c.last();
                    assert(b[j].0 == k);
                } else {
                    assert(b[p.len() as int].0 == k);
                }
            }
        }
        if !has_key(p, c.last()) {
            assert forall|j: int| 0 <= j < b.len() implies (#[trigger] b[j]).1 == j by {
                if j < p.len() {
                    assert(b[j] == p[j]);
                } else {
                    assert(b[j] == (c.last(), p.len() as usize));
                }
            }
            assert forall|i: int, j: int| 0 <= i < j < b.len() implies
                (#[trigger] b[i]).0 != (#[trigger] b[j]).0 by {
                if j < p.len() {
                    assert(b[i] == p[i] && b[j] == p[j]);
                } else {
                    assert(b[i] == p[i]);
                    assert(b[j].0 == c.last());
                }
            }
        }
    }
}

/// Dictionary contiguity: an inline-built dictionary binds exactly the
/// corpus's distinct labels, and the ids it assigns are exactly the
/// positions 0 .. distinct-label-count - 1 — no gaps, no duplicates.
pub proof fn lemma_build_contiguous(c: Seq<Seq<char>>)
    requires
        c.len() <= usize::MAX,
    ensures
        distinct_keys(built_entries(c)),
        forall|j: int| 0 <= j < built_entries(c).len() ==> (#[trigger] built_entries(c)[j]).1 == j,
        forall|k: Seq<char>| #[trigger] has_key(built_entries(c), k) <==> c.contains(k),
        map_of(built_entries(c)).dom() == c.to_set(),
        built_entries(c).len() == c.to_set().len(),
        forall|k: Seq<char>| #[trigger] map_of(built_entries(c)).contains_key(k)
            ==> map_of(built_entries(c))[k] < built_entries(c).len(),
        forall|j: int| 0 <= j < built_entries(c).len()
            ==> map_of(built_entries(c)).contains_key((#[trigger] built_entries(c)[j]).0)
                && map_of(built_entries(c))[built_entries(c)[j].0] == j,
{
    let b = built_entries(c);
    lemma_built_entries_props(c);
    lemma_map_of_keys(b);
    lemma_map_of_index(b);
    lemma_map_of_len(b);
    assert(map_of(b).dom() =~= c.to_set());
    assert forall|k: Seq<char>| #[trigger] map_of(b).contains_key(k)
        implies map_of(b)[k] < b.len() by {
        let i = choose|i: int| 0 <= i < b.len() && (#[trigger] b[i]).0 == k;
        assert(map_of(b)[b[i].0] == b[i].1);
    }
}

proof fn lemma_built_prefix(c: Seq<Seq<char>>, n: int)
    requires
        0 <= n <= c.len(),
    ensures
        built_entries(c.take(n)).len() <= built_entries(c).len(),
        forall|j: int| 0 <= j < built_entries(c.take(n)).len()
            ==> #[trigger] built_entries(c.take(n))[j] == built_entries(c)[j],
    decreases c.len() - n,
{
    if n == c.len() {
        assert(c.take(n) =~= c);
    } else {
        lemma_built_prefix(c.drop_last(), n);
        assert(c.drop_last().take(n) =~= c.take(n));
    }
}

/// First-seen order: under inline construction, a label's id is the number
/// of distinct labels that occur before the label's first occurrence — the
/// first new label gets id 0, the next new label id 1, and so on.
pub proof fn lemma_build_first_seen(c: Seq<Seq<char>>, i: int)
    requires
        c.len() <= usize::MAX,
        0 <= i < c.len(),
        !c.take(i).contains(c[i]),
    ensures
        map_of(built_entries(c)).contains_key(c[i]),
        map_of(built_entries(c))[c[i]] == c.take(i).to_set().len(),
{
    let p = built_entries(c.take(i));
    let q = built_entries(c.take(i + 1));
    assert(c.take(i + 1).drop_last() =~= c.take(i));
    assert(c.take(i + 1).last() == c[i]);
    lemma_build_contiguous(c.take(i));
    assert(!has_key(p, c[i]));
    assert(q == p.push((c[i], p.len() as usize)));
    lemma_built_prefix(c, i + 1);
    assert(q[p.len() as int] == (c[i], p.len() as usize));
    assert(built_entries(c)[p.len() as int] == (c[i], p.len() as usize));
    lemma_build_contiguous(c);
    lemma_map_of_index(built_entries(c));
    assert(map_of(built_entries(c))[built_entries(c)[p.len() as int].0]
        == built_entries(c)[p.len() as int].1);
}

} // verus!
