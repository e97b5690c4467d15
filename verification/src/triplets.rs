use vstd::prelude::*;

verus! {

/// The sparse triplet bundle an encode call returns: parallel row-index,
/// column-index and value sequences, plus the matrix shape.  Every stored
/// value is 1; a conversion to any concrete sparse-matrix type is the
/// caller's business.
#[derive(Debug)]
pub struct SparseTriplets {
    pub rows: Vec<usize>,
    pub cols: Vec<usize>,
    pub vals: Vec<i8>,
    pub nrows: usize,
    pub ncols: usize,
}

/// The (row, column) pairs that encoding a batch against a mapping yields,
/// in row order: one pair per batch position whose label the mapping binds;
/// positions with unknown labels contribute nothing.
pub open spec fn encode_pairs(m: Map<Seq<char>, usize>, batch: Seq<Seq<char>>) -> Seq<(usize, usize)>
    decreases batch.len(),
{
    if batch.len() == 0 {
        Seq::empty()
    } else {
        let p = encode_pairs(m, batch.drop_last());
        if m.contains_key(batch.last()) {
            p.push((((batch.len() - 1) as usize), m[batch.last()]))
        } else {
            p
        }
    }
}

impl SparseTriplets {
    /// The (row, column) pairs held, in storage order.
    pub open spec fn pairs(&self) -> Seq<(usize, usize)> {
        Seq::new(self.rows@.len(), |k: int| (self.rows@[k], self.cols@[k]))
    }

    /// Exactly the encoding of `batch` against `m`: the shape is
    /// (batch length, number of keys of `m`), the three sequences run in
    /// parallel, every value is 1, and the pairs are precisely
    /// `encode_pairs(m, batch)`.
    pub open spec fn encodes(&self, m: Map<Seq<char>, usize>, batch: Seq<Seq<char>>) -> bool {
        &&& self.nrows == batch.len()
        &&& self.ncols == m.dom().len()
        &&& self.cols@.len() == self.rows@.len()
        &&& self.vals@.len() == self.rows@.len()
        &&& self.vals@ == Seq::new(self.rows@.len(), |k: int| 1i8)
        &&& self.pairs() == encode_pairs(m, batch)
    }

    /// The shape (rows, columns) of the conceptual dense matrix.
    pub fn shape(&self) -> (s: (usize, usize))
        ensures
            s.0 == self.nrows,
            s.1 == self.ncols,
    {
        (self.nrows, self.ncols)
    }

    /// The row index of each stored triplet, in storage order.
    pub fn row_inds(&self) -> (r: &Vec<usize>)
        ensures
            r@ == self.rows@,
    {
        &self.rows
    }

    /// The column index of each stored triplet, in storage order.
    pub fn col_inds(&self) -> (r: &Vec<usize>)
        ensures
            r@ == self.cols@,
    {
        &self.cols
    }

    /// The stored values, in storage order; each is 1.
    pub fn data(&self) -> (r: &Vec<i8>)
        ensures
            r@ == self.vals@,
    {
        &self.vals
    }
}

/// Empty batch: whatever the mapping, encoding an empty batch yields no
/// pairs at all.
pub proof fn lemma_encode_empty(m: Map<Seq<char>, usize>)
    ensures
        encode_pairs(m, Seq::empty()) == Seq::<(usize, usize)>::empty(),
{
}

/// What the pair list means: every stored pair is a hit — its row is a
/// batch position whose label the mapping binds, its column that label's id
/// — every such position contributes a pair, and rows strictly increase, so
/// a position with an unknown label has no pair and no row repeats.
pub proof fn lemma_encode_pairs_characterize(m: Map<Seq<char>, usize>, batch: Seq<Seq<char>>)
    requires
        batch.len() <= usize::MAX,
    ensures
        forall|t: int| 0 <= t < encode_pairs(m, batch).len() ==> {
            let p = #[trigger] encode_pairs(m, batch)[t];
            p.0 < batch.len() && m.contains_key(batch[p.0 as int]) && p.1 == m[batch[p.0 as int]]
        },
        forall|i: int| 0 <= i < batch.len() && m.contains_key(#[trigger] batch[i])
            ==> exists|t: int| 0 <= t < encode_pairs(m, batch).len()
                && (#[trigger] encode_pairs(m, batch)[t]).0 == i,
        forall|t1: int, t2: int| 0 <= t1 < t2 < encode_pairs(m, batch).len()
            ==> (#[trigger] encode_pairs(m, batch)[t1]).0 < (#[trigger] encode_pairs(m, batch)[t2]).0,
    decreases batch.len(),
{
    if batch.len() == 0 {
    } else {
        lemma_encode_pairs_characterize(m, batch.drop_last());
        let p = encode_pairs(m, batch.drop_last());
        let b = encode_pairs(m, batch);
        assert forall|t: int| 0 <= t < b.len() implies {
            let q = #[trigger] b[t];
            q.0 < batch.len() && m.contains_key(batch[q.0 as int]) && q.1 == m[batch[q.0 as int]]
        } by {
            if t < p.len() {
                assert(b[t] == p[t]);
                assert(batch.drop_last()[p[t].0 as int] == batch[p[t].0 as int]);
            } else {
                assert(b[t] == (((batch.len() - 1) as usize), m[batch.last()]));
            }
        }
        assert forall|i: int| 0 <= i < batch.len() && m.contains_key(#[trigger] batch[i])
            implies exists|t: int| 0 <= t < b.len() && (#[trigger] b[t]).0 == i by {
            if i < batch.len() - 1 {
                assert(batch.drop_last()[i] == batch[i]);
                let t = choose|t: int| 0 <= t < p.len() && (#[trigger] p[t]).0 == i;
                assert(b[t].0 == i);
            } else {
                assert(b[p.len() as int].0 == i);
            }
        }
        assert forall|t1: int, t2: int| 0 <= t1 < t2 < b.len() implies
            (#[trigger] b[t1]).0 < (#[trigger] b[t2]).0 by {
            if t2 < p.len() {
                assert(b[t1] == p[t1] && b[t2] == p[t2]);
            } else {
                assert(b[t1] == p[t1]);
                assert(p[t1].0 < batch.drop_last().len());
                assert(b[t2].0 == batch.len() - 1);
            }
        }
    }
}

} // verus!
