use vstd::prelude::*;
use crate::dictionary::LabelDictionary;
use crate::dictionary::built_entries;
use crate::triplets::encode_pairs;
use rayon::iter::IntoParallelIterator;
use rayon::iter::IndexedParallelIterator;
use rayon::iter::ParallelIterator;

verus! {

/// rayon's fixed-size worker pool, opaque to verification.
#[verifier::external_type_specification]
#[verifier::external_body]
pub struct ExThreadPool(rayon::ThreadPool);

/// rayon's pool-construction error, opaque to verification.
#[verifier::external_type_specification]
#[verifier::external_body]
pub struct ExThreadPoolBuildError(rayon::ThreadPoolBuildError);

/// Relies on rayon::ThreadPoolBuilder::{num_threads, build}: the result is
/// either a pool of `n` worker threads or the builder's error.  Nothing is
/// assumed about which of the two comes back.
#[verifier::external_body]
pub(crate) fn build_pool(n: usize) -> Result<rayon::ThreadPool, rayon::ThreadPoolBuildError> {
    rayon::ThreadPoolBuilder::new().num_threads(n).build()
}

/// Relies on rayon::ThreadPool::install, which runs the closure on the pool
/// to completion and returns its result.  The closure is one call of the
/// verified sequential builder, so that builder's contract carries over.
#[verifier::external_body]
pub(crate) fn build_in_pool(pool: &rayon::ThreadPool, corpus: &Vec<String>) -> (d: LabelDictionary)
    ensures
        d.wf(),
        d.entries_view() == built_entries(corpus.deep_view()),
{
    pool.install(|| LabelDictionary::build(corpus))
}

/// Relies on rayon::ThreadPool::install and on rayon's parallel iterators:
/// `enumerate`, `filter_map` and `collect` are documented to yield the same
/// elements in the same order as their sequential counterparts, and the
/// closure only calls the dictionary's verified `lookup` and repackages its
/// result.
#[verifier::external_body]
pub(crate) fn encode_pairs_in_pool(
    pool: &rayon::ThreadPool,
    dict: &LabelDictionary,
    data: Vec<String>,
) -> (r: Vec<(usize, usize)>)
    requires
        dict.wf(),
    ensures
        r@ == encode_pairs(dict@, data.deep_view()),
{
    pool.install(|| {
        data.into_par_iter()
            .enumerate()
            .filter_map(|(i, v)| dict.lookup(&v).map(|id| (i, id)))
            .collect()
    })
}

} // verus!
