use vstd::prelude::*;
use crate::dictionary::LabelDictionary;
use crate::dictionary::built_entries;
use crate::dictionary::distinct_keys;
use crate::dictionary::map_of;
use crate::dictionary::lemma_map_of_len;
use crate::dictionary::lemma_raw_determines_views;
use crate::strategy::ExecutionStrategy;
use crate::strategy::PoolCreationError;
use crate::pool::build_in_pool;
use crate::pool::encode_pairs_in_pool;
use crate::triplets::SparseTriplets;
use crate::triplets::encode_pairs;

verus! {

/// The one-hot encoder: a label dictionary composed with an execution
/// strategy.  The dictionary is built (or adopted) once, at construction;
/// `encode` only reads it.
#[derive(Debug)]
pub struct OneHotEncoder {
    dict: LabelDictionary,
    strategy: ExecutionStrategy,
}

impl OneHotEncoder {
    /// The dictionary's entries exactly as held, in insertion order.
    pub closed spec fn dict_raw(&self) -> Seq<(String, usize)> {
        self.dict.raw_entries()
    }

    /// The dictionary's entries as mathematical values, in insertion order.
    pub closed spec fn dict_entries(&self) -> Seq<(Seq<char>, usize)> {
        self.dict.entries_view()
    }

    /// The label-to-id mapping the dictionary denotes.
    pub open spec fn dict_map(&self) -> Map<Seq<char>, usize> {
        map_of(self.dict_entries())
    }

    /// Well-formedness: no label occurs twice in the dictionary.
    pub open spec fn wf(&self) -> bool {
        distinct_keys(self.dict_entries())
    }

    /// Is the current strategy the inline one?
    pub closed spec fn inline_mode(&self) -> bool {
        self.strategy is Inline
    }

    /// Build a fresh dictionary from the corpus under the chosen strategy.
    /// The pooled build performs the whole insertion scan as one unit of
    /// work on the pool — one exclusive critical section per distinct-label
    /// insertion — so, unlike a racy check-then-insert, pooled and inline
    /// construction assign identical ids.
    pub fn new(data: Vec<String>, n_jobs: usize) -> (r: Result<OneHotEncoder, PoolCreationError>)
        ensures
            n_jobs <= 1 ==> r is Ok,
            r is Err ==> n_jobs > 1,
            r matches Ok(e) ==> e.wf() && e.dict_entries() == built_entries(data.deep_view())
                && (e.inline_mode() <==> n_jobs <= 1),
    {
        match ExecutionStrategy::with_workers(n_jobs) {
            Err(e) => Err(e),
            Ok(strategy) => {
                let dict = match &strategy {
                    ExecutionStrategy::Inline => LabelDictionary::build(&data),
                    ExecutionStrategy::Pooled(pool) => build_in_pool(pool, &data),
                };
                Ok(OneHotEncoder { dict, strategy })
            },
        }
    }

    /// Adopt a caller-supplied mapping verbatim as the dictionary; the
    /// caller answers for the dictionary invariant (distinct labels), and
    /// id contiguity is not validated.
    pub fn from_map(map: Vec<(String, usize)>, n_jobs: usize) -> (r: Result<
        OneHotEncoder,
        PoolCreationError,
    >)
        requires
            distinct_keys(map.deep_view()),
        ensures
            n_jobs <= 1 ==> r is Ok,
            r is Err ==> n_jobs > 1,
            r matches Ok(e) ==> e.wf() && e.dict_raw() == map@ && e.dict_entries()
                == map.deep_view() && (e.inline_mode() <==> n_jobs <= 1),
    {
        match ExecutionStrategy::with_workers(n_jobs) {
            Err(e) => Err(e),
            Ok(strategy) => {
                let dict = LabelDictionary::from_entries(map);
                Ok(OneHotEncoder { dict, strategy })
            },
        }
    }

    /// Permanently switch to inline execution; the dictionary is left
    /// untouched.  Idempotent: a second call finds the same observable
    /// state and leaves it.
    pub fn to_single_thread(&mut self)
        ensures
            final(self).dict_raw() == old(self).dict_raw(),
            final(self).dict_entries() == old(self).dict_entries(),
            final(self).inline_mode(),
            old(self).wf() ==> final(self).wf(),
    {
        self.strategy.downgrade_to_inline();
    }

    /// A snapshot copy of the dictionary, in insertion order; feeding it
    /// back to `from_map` restores an encoder with the same mapping.
    pub fn get_map(&self) -> (r: Vec<(String, usize)>)
        ensures
            r@ == self.dict_raw(),
            r.deep_view() == self.dict_entries(),
    {
        self.dict.snapshot()
    }

    /// Encode a batch against the dictionary: one (row, label-id, 1)
    /// triplet per batch position whose label the dictionary holds; a
    /// position with an unknown label contributes nothing.  The shape is
    /// (batch length, dictionary size), and the result does not depend on
    /// the strategy.
    pub fn encode(&self, data: Vec<String>) -> (t: SparseTriplets)
        requires
            self.wf(),
        ensures
            t.encodes(self.dict_map(), data.deep_view()),
            t.ncols == self.dict_entries().len(),
    {
        let ghost dv = data.deep_view();
        let nrows = data.len();
        let ncols = self.dict.len();
        proof {
            lemma_map_of_len(self.dict_entries());
        }
        let pairs = match &self.strategy {
            ExecutionStrategy::Inline => encode_seq(&self.dict, &data),
            ExecutionStrategy::Pooled(pool) => encode_pairs_in_pool(pool, &self.dict, data),
        };
        assemble(&pairs, nrows, ncols)
    }
}

/// The sequential encode scan: row order, one lookup per position.
fn encode_seq(dict: &LabelDictionary, data: &Vec<String>) -> (r: Vec<(usize, usize)>)
    requires
        dict.wf(),
    ensures
        r@ == encode_pairs(dict@, data.deep_view()),
{
    let n = data.len();
    let mut out: Vec<(usize, usize)> = Vec::new();
    let mut i: usize = 0;
    proof {
        assert(out@ =~= encode_pairs(dict@, data.deep_view().take(0)));
    }
    while i < n
        invariant
            dict.wf(),
            n == data@.len(),
            i <= n,
            out@ == encode_pairs(dict@, data.deep_view().take(i as int)),
        decreases n - i,
    {
        proof {
            let dv = data.deep_view();
            assert(dv.take(i + 1).drop_last() =~= dv.take(i as int));
            assert(dv.take(i + 1).last() == dv[i as int]);
        }
        match dict.lookup(&data[i]) {
            Some(id) => {
                out.push((i, id));
            },
            None => {},
        }
        i += 1;
    }
    proof {
        assert(data.deep_view().take(n as int) =~= data.deep_view());
    }
    out
}

/// Split a pair list into the parallel triplet sequences.
fn assemble(pairs: &Vec<(usize, usize)>, nrows: usize, ncols: usize) -> (t: SparseTriplets)
    ensures
        t.nrows == nrows,
        t.ncols == ncols,
        t.pairs() == pairs@,
        t.rows@.len() == pairs@.len(),
        t.cols@.len() == pairs@.len(),
        t.vals@ == Seq::new(pairs@.len(), |k: int| 1i8),
{
    let m = pairs.len();
    let mut rows: Vec<usize> = Vec::new();
    let mut cols: Vec<usize> = Vec::new();
    let mut vals: Vec<i8> = Vec::new();
    let mut k: usize = 0;
    while k < m
        invariant
            m == pairs@.len(),
            k <= m,
            rows@.len() == k,
            cols@.len() == k,
            vals@.len() == k,
            forall|j: int| 0 <= j < k ==> (#[trigger] rows@[j]) == pairs@[j].0,
            forall|j: int| 0 <= j < k ==> (#[trigger] cols@[j]) == pairs@[j].1,
            forall|j: int| 0 <= j < k ==> (#[trigger] vals@[j]) == 1i8,
        decreases m - k,
    {
        rows.push(pairs[k].0);
        cols.push(pairs[k].1);
        vals.push(1i8);
        k += 1;
    }
    let t = SparseTriplets { rows, cols, vals, nrows, ncols };
    proof {
        assert(t.pairs() =~= pairs@);
        assert(t.vals@ =~= Seq::new(pairs@.len(), |j: int| 1i8));
    }
    t
}

/// Round trip: an encoder whose dictionary was adopted from another
/// encoder's `get_map` snapshot holds the same entries, hence the same
/// mapping, and its own `get_map` returns the identical snapshot.
pub proof fn lemma_round_trip(a: OneHotEncoder, b: OneHotEncoder)
    requires
        b.dict_raw() == a.dict_raw(),
    ensures
        b.dict_entries() == a.dict_entries(),
        b.dict_map() == a.dict_map(),
{
    lemma_raw_determines_views(a.dict, b.dict);
}

/// Idempotent downgrade: two encoders left inline with the same dictionary
/// — the state after one downgrade and the state after two — are
/// observably equal, and every batch encodes identically under both.
pub proof fn lemma_downgrade_idempotent(once: OneHotEncoder, twice: OneHotEncoder)
    requires
        once.inline_mode(),
        twice.inline_mode(),
        twice.dict_raw() == once.dict_raw(),
    ensures
        twice.dict_entries() == once.dict_entries(),
        twice.dict_map() == once.dict_map(),
        forall|batch: Seq<Seq<char>>| #[trigger] encode_pairs(twice.dict_map(), batch)
            == encode_pairs(once.dict_map(), batch),
{
    lemma_raw_determines_views(once.dict, twice.dict);
}

/// Pooled/inline equivalence: the built dictionary depends only on the
/// corpus, never on the worker count, so two encoders built from the same
/// corpus agree on every label's id and encode every batch identically.
pub proof fn lemma_pooled_inline_agree(a: OneHotEncoder, b: OneHotEncoder, corpus: Seq<Seq<char>>)
    requires
        a.dict_entries() == built_entries(corpus),
        b.dict_entries() == built_entries(corpus),
    ensures
        a.dict_map() == b.dict_map(),
        a.dict_entries().len() == b.dict_entries().len(),
        forall|batch: Seq<Seq<char>>| #[trigger] encode_pairs(a.dict_map(), batch)
            == encode_pairs(b.dict_map(), batch),
{
}

} // verus!
