//! The retrieval engine: the vector store with exact brute-force top-N
//! search, the retrieval pipeline that renders ranked context, and the
//! agents that wrap one corpus each.
//!
//! Embedding vectors are fixed-point numbers: an embedding component is
//! stored as its value times `EMBED_SCALE`, so a dot product carries the
//! scale `EMBED_SCALE * EMBED_SCALE`. The embedding provider itself is an
//! external collaborator; the store receives its rows as plain integers
//! and checks their shape.

use vstd::prelude::*;
use crate::errors::Error;
use crate::textutil::{digit_char, push_char, spec_dec, spec_digit_char, u64_to_string};
use crate::utils::{chunk_text, spec_segments};

verus! {

/// Fixed-point scale of a single embedding component.
pub const EMBED_SCALE: i64 = 1000;

/// Largest magnitude an embedding component may have (a real value of one
/// thousand at `EMBED_SCALE`); keeps dot products far from overflow.
pub const COMPONENT_BOUND: i64 = 1000000;

/// Largest embedding dimension the store accepts.
pub const MAX_DIM: usize = 4096;

/// Largest magnitude a dot product can reach: `MAX_DIM` products of two
/// components bounded by `COMPONENT_BOUND`.
pub const SCORE_BOUND: i64 = 4096000000000000;

/// How many chunks a pipeline retrieves per query.
pub const TOP_K: usize = 4;

/// The chunking parameters the OpenAPI corpus agent uses.
pub const OPENAPI_CHUNK_SIZE: usize = 150;

/// The chunk overlap the OpenAPI corpus agent uses.
pub const OPENAPI_OVERLAP: usize = 70;

/// The chunking parameters the codebase corpus agent uses.
pub const CODEBASE_CHUNK_SIZE: usize = 250;

/// The chunk overlap the codebase corpus agent uses.
pub const CODEBASE_OVERLAP: usize = 100;

/// The smaller of two mathematical integers.
pub open spec fn min_int(a: int, b: int) -> int {
    if a <= b {
        a
    } else {
        b
    }
}

/// Every component lies within `COMPONENT_BOUND`.
pub open spec fn bounded_vec(v: Seq<i64>) -> bool {
    forall|i: int| 0 <= i < v.len() ==> -COMPONENT_BOUND <= #[trigger] v[i] <= COMPONENT_BOUND
}

/// The dot product of the first `k` components of `a` and `b`.
pub open spec fn spec_dot_upto(a: Seq<i64>, b: Seq<i64>, k: int) -> int
    decreases k,
{
    if k <= 0 {
        0
    } else {
        spec_dot_upto(a, b, k - 1) + a[k - 1] * b[k - 1]
    }
}

/// The raw inner product of two equally long vectors. This is the
/// similarity score: deliberately a plain dot product, not a cosine,
/// because the stored vectors are not normalized.
pub open spec fn spec_dot(a: Seq<i64>, b: Seq<i64>) -> int {
    spec_dot_upto(a, b, a.len() as int)
}

proof fn lemma_dot_upto_bound(a: Seq<i64>, b: Seq<i64>, k: int)
    requires
        bounded_vec(a),
        bounded_vec(b),
        0 <= k <= a.len(),
        k <= b.len(),
    ensures
        -(k * 1000000000000) <= spec_dot_upto(a, b, k) <= k * 1000000000000,
    decreases k,
{
    if k > 0 {
        lemma_dot_upto_bound(a, b, k - 1);
        assert(-1000000000000 <= a[k - 1] * b[k - 1] <= 1000000000000) by (nonlinear_arith)
            requires
                -1000000 <= a[k - 1] <= 1000000,
                -1000000 <= b[k - 1] <= 1000000,
        ;
        assert((k - 1) * 1000000000000 + 1000000000000 == k * 1000000000000);
    }
}

/// Computes the dot product of two bounded vectors without overflow.
fn dot_i64(a: &Vec<i64>, b: &Vec<i64>) -> (r: i64)
    requires
        a@.len() == b@.len(),
        a@.len() <= MAX_DIM,
        bounded_vec(a@),
        bounded_vec(b@),
    ensures
        r as int == spec_dot(a@, b@),
        -SCORE_BOUND <= r <= SCORE_BOUND,
{
    let n = a.len();
    let mut acc: i64 = 0;
    let mut j: usize = 0;
    while j < n
        invariant
            n == a@.len() == b@.len(),
            n <= MAX_DIM,
            bounded_vec(a@),
            bounded_vec(b@),
            j <= n,
            acc as int == spec_dot_upto(a@, b@, j as int),
            -(j * 1000000000000) <= acc as int <= j * 1000000000000,
        decreases n - j,
    {
        proof {
            assert(-1000000000000 <= a@[j as int] * b@[j as int] <= 1000000000000)
                by (nonlinear_arith)
                requires
                    -1000000 <= a@[j as int] <= 1000000,
                    -1000000 <= b@[j as int] <= 1000000,
            ;
            assert((j + 1) * 1000000000000 == j * 1000000000000 + 1000000000000);
            assert(j * 1000000000000 <= 4096000000000000 - 1000000000000);
        }
        acc = acc + a[j] * b[j];
        j = j + 1;
    }
    acc
}

/// Ranking order on `(score, original index)` pairs: higher scores first,
/// ties broken by the smaller original index (a stable descending order).
pub open spec fn pair_before(a: (int, int), b: (int, int)) -> bool {
    a.0 > b.0 || (a.0 == b.0 && a.1 <= b.1)
}

/// Inserts `x` into a sequence already sorted by `pair_before`.
pub open spec fn spec_insert_desc(x: (int, int), s: Seq<(int, int)>) -> Seq<(int, int)>
    decreases s.len(),
{
    if s.len() == 0 {
        seq![x]
    } else if pair_before(x, s[0]) {
        seq![x] + s
    } else {
        seq![s[0]] + spec_insert_desc(x, s.drop_first())
    }
}

/// Insertion sort by `pair_before`.
pub open spec fn spec_sort_desc(s: Seq<(int, int)>) -> Seq<(int, int)>
    decreases s.len(),
{
    if s.len() == 0 {
        Seq::empty()
    } else {
        spec_insert_desc(s.last(), spec_sort_desc(s.drop_last()))
    }
}

/// Sorted by `pair_before`: scores never increase, equal scores keep the
/// original chunk order.
pub open spec fn sorted_desc(s: Seq<(int, int)>) -> bool {
    forall|i: int, j: int| 0 <= i < j < s.len() ==> pair_before(#[trigger] s[i], #[trigger] s[j])
}

/// Every pair's index lies in `[0, n)` and its score within `bound`.
pub open spec fn pairs_wf(s: Seq<(int, int)>, n: int, bound: int) -> bool {
    forall|i: int|
        0 <= i < s.len() ==> 0 <= (#[trigger] s[i]).1 < n && -bound <= s[i].0 <= bound
}

proof fn lemma_insert_desc_len(x: (int, int), s: Seq<(int, int)>)
    ensures
        spec_insert_desc(x, s).len() == s.len() + 1,
    decreases s.len(),
{
    if s.len() != 0 && !pair_before(x, s[0]) {
        lemma_insert_desc_len(x, s.drop_first());
    }
}

proof fn lemma_sort_desc_len(s: Seq<(int, int)>)
    ensures
        spec_sort_desc(s).len() == s.len(),
    decreases s.len(),
{
    if s.len() != 0 {
        lemma_sort_desc_len(s.drop_last());
        lemma_insert_desc_len(s.last(), spec_sort_desc(s.drop_last()));
    }
}

proof fn lemma_insert_desc_wf(x: (int, int), s: Seq<(int, int)>, n: int, bound: int)
    requires
        pairs_wf(s, n, bound),
        0 <= x.1 < n,
        -bound <= x.0 <= bound,
    ensures
        pairs_wf(spec_insert_desc(x, s), n, bound),
    decreases s.len(),
{
    if s.len() == 0 {
    } else if pair_before(x, s[0]) {
    } else {
        assert(pairs_wf(s.drop_first(), n, bound)) by {
            assert(forall|i: int|
                0 <= i < s.drop_first().len() ==> #[trigger] s.drop_first()[i] == s[i + 1]);
        }
        lemma_insert_desc_wf(x, s.drop_first(), n, bound);
    }
}

proof fn lemma_sort_desc_wf(s: Seq<(int, int)>, n: int, bound: int)
    requires
        pairs_wf(s, n, bound),
    ensures
        pairs_wf(spec_sort_desc(s), n, bound),
    decreases s.len(),
{
    if s.len() != 0 {
        assert(pairs_wf(s.drop_last(), n, bound));
        lemma_sort_desc_wf(s.drop_last(), n, bound);
        lemma_insert_desc_wf(s.last(), spec_sort_desc(s.drop_last()), n, bound);
    }
}

proof fn lemma_pair_before_total(a: (int, int), b: (int, int))
    ensures
        pair_before(a, b) || pair_before(b, a),
{
}

proof fn lemma_insert_desc_membership(x: (int, int), s: Seq<(int, int)>)
    ensures
        forall|i: int|
            0 <= i < spec_insert_desc(x, s).len() ==> #[trigger] spec_insert_desc(x, s)[i] == x
                || s.contains(spec_insert_desc(x, s)[i]),
    decreases s.len(),
{
    let ins = spec_insert_desc(x, s);
    if s.len() == 0 {
    } else if pair_before(x, s[0]) {
        assert forall|i: int| 0 <= i < ins.len() implies #[trigger] ins[i] == x || s.contains(
            ins[i],
        ) by {
            if i > 0 {
                assert(ins[i] == s[i - 1]);
            }
        }
    } else {
        let rec = spec_insert_desc(x, s.drop_first());
        lemma_insert_desc_membership(x, s.drop_first());
        assert forall|i: int| 0 <= i < ins.len() implies #[trigger] ins[i] == x || s.contains(
            ins[i],
        ) by {
            if i == 0 {
                assert(ins[0] == s[0]);
                assert(s.contains(s[0]));
            } else {
                assert(ins[i] == rec[i - 1]);
                if rec[i - 1] == x {
                } else {
                    assert(s.drop_first().contains(rec[i - 1]));
                    let k = choose|k: int|
                        0 <= k < s.drop_first().len() && s.drop_first()[k] == rec[i - 1];
                    assert(s[k + 1] == rec[i - 1]);
                    assert(s.contains(s[k + 1]));
                }
            }
        }
    }
}

proof fn lemma_insert_desc_sorted(x: (int, int), s: Seq<(int, int)>)
    requires
        sorted_desc(s),
    ensures
        sorted_desc(spec_insert_desc(x, s)),
    decreases s.len(),
{
    let ins = spec_insert_desc(x, s);
    if s.len() == 0 {
    } else if pair_before(x, s[0]) {
        assert forall|i: int, j: int| 0 <= i < j < ins.len() implies pair_before(
            #[trigger] ins[i],
            #[trigger] ins[j],
        ) by {
            if i == 0 {
                assert(ins[j] == s[j - 1]);
                if j == 1 {
                    assert(pair_before(x, s[0]));
                } else {
                    assert(pair_before(s[0], s[j - 1]));
                }
            } else {
                assert(ins[i] == s[i - 1]);
                assert(ins[j] == s[j - 1]);
            }
        }
    } else {
        let rec = spec_insert_desc(x, s.drop_first());
        assert(sorted_desc(s.drop_first())) by {
            assert(forall|i: int|
                0 <= i < s.drop_first().len() ==> #[trigger] s.drop_first()[i] == s[i + 1]);
        }
        lemma_insert_desc_sorted(x, s.drop_first());
        lemma_insert_desc_membership(x, s.drop_first());
        lemma_insert_desc_len(x, s.drop_first());
        assert forall|i: int, j: int| 0 <= i < j < ins.len() implies pair_before(
            #[trigger] ins[i],
            #[trigger] ins[j],
        ) by {
            if i == 0 {
                assert(ins[0] == s[0]);
                assert(ins[j] == rec[j - 1]);
                if rec[j - 1] == x {
                    lemma_pair_before_total(x, s[0]);
                } else {
                    assert(s.drop_first().contains(rec[j - 1]));
                    let k = choose|k: int|
                        0 <= k < s.drop_first().len() && s.drop_first()[k] == rec[j - 1];
                    assert(s[k + 1] == rec[j - 1]);
                    assert(pair_before(s[0], s[k + 1]));
                }
            } else {
                assert(ins[i] == rec[i - 1]);
                assert(ins[j] == rec[j - 1]);
            }
        }
    }
}

proof fn lemma_sort_desc_sorted(s: Seq<(int, int)>)
    ensures
        sorted_desc(spec_sort_desc(s)),
    decreases s.len(),
{
    if s.len() != 0 {
        lemma_sort_desc_sorted(s.drop_last());
        lemma_insert_desc_sorted(s.last(), spec_sort_desc(s.drop_last()));
    }
}

proof fn lemma_insert_desc_at(x: (int, int), s: Seq<(int, int)>, j: int)
    requires
        0 <= j <= s.len(),
        forall|k: int| 0 <= k < j ==> !pair_before(x, #[trigger] s[k]),
        j < s.len() ==> pair_before(x, s[j]),
    ensures
        spec_insert_desc(x, s) == s.take(j) + seq![x] + s.skip(j),
    decreases j,
{
    if j == 0 {
        if s.len() == 0 {
            assert(spec_insert_desc(x, s) =~= s.take(0) + seq![x] + s.skip(0));
        } else {
            assert(seq![x] + s =~= s.take(0) + seq![x] + s.skip(0));
        }
    } else {
        assert(!pair_before(x, s[0]));
        let d = s.drop_first();
        assert(forall|k: int| 0 <= k < j - 1 ==> #[trigger] d[k] == s[k + 1]);
        lemma_insert_desc_at(x, d, j - 1);
        assert(seq![s[0]] + (d.take(j - 1) + seq![x] + d.skip(j - 1)) =~= s.take(j) + seq![x]
            + s.skip(j));
    }
}

/// How the exec pair relates to its mathematical model.
pub open spec fn pv(p: (i64, usize)) -> (int, int) {
    (p.0 as int, p.1 as int)
}

/// The mathematical model of a vector of exec pairs.
pub open spec fn pvs(s: Seq<(i64, usize)>) -> Seq<(int, int)> {
    s.map_values(|p: (i64, usize)| pv(p))
}

fn pair_before_exec(a: (i64, usize), b: (i64, usize)) -> (r: bool)
    ensures
        r == pair_before(pv(a), pv(b)),
{
    a.0 > b.0 || (a.0 == b.0 && a.1 <= b.1)
}

/// Inserts one scored pair into an already ranked vector, keeping the
/// ranking order of `spec_insert_desc`.
fn insert_scored(v: &mut Vec<(i64, usize)>, x: (i64, usize))
    ensures
        pvs(final(v)@) == spec_insert_desc(pv(x), pvs(old(v)@)),
        final(v)@.len() == old(v)@.len() + 1,
{
    let ghost s0 = pvs(v@);
    let mut j: usize = 0;
    loop
        invariant
            v@ == old(v)@,
            s0 == pvs(v@),
            j <= v@.len(),
            forall|k: int| 0 <= k < j ==> !pair_before(pv(x), #[trigger] s0[k]),
        ensures
            v@ == old(v)@,
            j <= v@.len(),
            forall|k: int| 0 <= k < j ==> !pair_before(pv(x), #[trigger] s0[k]),
            j < v@.len() ==> pair_before(pv(x), s0[j as int]),
        decreases v@.len() - j,
    {
        if j >= v.len() {
            break ;
        }
        if pair_before_exec(x, v[j]) {
            break ;
        }
        j = j + 1;
    }
    proof {
        lemma_insert_desc_at(pv(x), s0, j as int);
    }
    v.insert(j, x);
    proof {
        assert(pvs(v@) =~= s0.take(j as int) + seq![pv(x)] + s0.skip(j as int)) by {
            old(v)@.insert_ensures(j as int, x);
            assert(forall|i: int| 0 <= i < v@.len() ==> pvs(v@)[i] == pv(#[trigger] v@[i]));
        }
    }
}

/// The scores of every stored vector against a query, paired with the
/// original chunk index.
pub open spec fn spec_scored(q: Seq<i64>, vs: Seq<Seq<i64>>) -> Seq<(int, int)> {
    Seq::new(vs.len(), |i: int| (spec_dot(q, vs[i]), i))
}

/// The top-`n` result: the scored pairs ranked by `spec_sort_desc`, cut to
/// `min(n, store size)` entries, each score paired with its chunk text.
pub open spec fn spec_top_n(q: Seq<i64>, chunks: Seq<Seq<char>>, vs: Seq<Seq<i64>>, n: int) -> Seq<
    (int, Seq<char>),
> {
    let sorted = spec_sort_desc(spec_scored(q, vs));
    Seq::new(min_int(n, sorted.len() as int) as nat, |i: int| (sorted[i].0, chunks[sorted[i].1]))
}

/// A query vector fits a store of dimension `dim`.
pub open spec fn query_ok(q: Seq<i64>, dim: int) -> bool {
    q.len() == dim && bounded_vec(q)
}

/// The mathematical model of a `Vec<(i64, String)>` result.
pub open spec fn scored_view(rs: Seq<(i64, String)>) -> Seq<(int, Seq<char>)> {
    rs.map_values(|p: (i64, String)| (p.0 as int, p.1@))
}

/// Every embedding row has the store's dimension and bounded components.
pub open spec fn rows_ok(rows: Seq<Seq<i64>>, dim: int) -> bool {
    forall|i: int|
        0 <= i < rows.len() ==> (#[trigger] rows[i]).len() == dim && bounded_vec(rows[i])
}

/// The provider's rows fit a corpus of `nchunks` chunks: one row per
/// chunk, all rows of one bounded dimension.
pub open spec fn embeddings_ok(nchunks: int, rows: Seq<Seq<i64>>) -> bool {
    &&& rows.len() == nchunks
    &&& rows.len() > 0 ==> rows[0].len() <= MAX_DIM && rows_ok(rows, rows[0].len() as int)
}

proof fn lemma_rows_deep_view(v: &Vec<Vec<i64>>)
    ensures
        v.deep_view().len() == v@.len(),
        forall|i: int| 0 <= i < v@.len() ==> #[trigger] v.deep_view()[i] == v@[i]@,
{
    assert forall|i: int| 0 <= i < v@.len() implies #[trigger] v.deep_view()[i] == v@[i]@ by {
        assert(v.deep_view()[i] =~= v@[i]@);
    }
}

proof fn lemma_strs_deep_view(v: &Vec<String>)
    ensures
        v.deep_view().len() == v@.len(),
        forall|i: int| 0 <= i < v@.len() ==> #[trigger] v.deep_view()[i] == v@[i]@,
{
}

/// The vector store: parallel sequences of chunk texts and embedding
/// vectors, aligned by index. Built once, read-only afterwards.
pub struct VecDB {
    chunks: Vec<String>,
    vectors: Vec<Vec<i64>>,
    dim: usize,
}

impl VecDB {
    /// The stored chunk texts, in order.
    pub closed spec fn chunks_view(&self) -> Seq<Seq<char>> {
        self.chunks.deep_view()
    }

    /// The stored embedding vectors, in order.
    pub closed spec fn vectors_view(&self) -> Seq<Seq<i64>> {
        self.vectors.deep_view()
    }

    /// The shared dimension of every stored vector.
    pub closed spec fn dim_spec(&self) -> int {
        self.dim as int
    }

    /// The store invariant: one vector per chunk, all vectors of the same
    /// bounded dimension with bounded components. Established by `new`,
    /// never broken afterwards: the store has no mutating operation.
    pub open spec fn wf(&self) -> bool {
        &&& self.vectors_view().len() == self.chunks_view().len()
        &&& 0 <= self.dim_spec() <= MAX_DIM
        &&& rows_ok(self.vectors_view(), self.dim_spec())
    }

    /// Builds a store over the chunks of `data` and the embedding rows the
    /// provider returned for them. Fails with `Error::Config` on invalid
    /// chunking parameters and with `Error::Embedding` when the rows do
    /// not match the chunks (wrong count, ragged or oversized rows,
    /// components out of range).
    #[verifier::loop_isolation(false)]
    pub fn new(data: &str, chunk_size: usize, overlap: usize, embeddings: Vec<Vec<i64>>) -> (r:
        Result<VecDB, Error>)
        ensures
            chunk_size == 0 || overlap >= chunk_size ==> r == Err::<VecDB, Error>(Error::Config),
            0 < chunk_size && overlap < chunk_size ==> {
                let segs = spec_segments(data@, chunk_size as int, overlap as int);
                if embeddings_ok(segs.len() as int, embeddings.deep_view()) {
                    r matches Ok(db) && db.wf() && db.chunks_view() == segs && db.vectors_view()
                        == embeddings.deep_view() && db.dim_spec() == (if embeddings@.len() > 0 {
                        embeddings.deep_view()[0].len() as int
                    } else {
                        0
                    })
                } else {
                    r == Err::<VecDB, Error>(Error::Embedding)
                }
            },
    {
        let chunks = match chunk_text(data, chunk_size, overlap) {
            Ok(cs) => cs,
            Err(e) => {
                return Err(e);
            },
        };
        let ghost segs = spec_segments(data@, chunk_size as int, overlap as int);
        let ghost rows = embeddings.deep_view();
        proof {
            lemma_rows_deep_view(&embeddings);
        }
        if embeddings.len() != chunks.len() {
            return Err(Error::Embedding);
        }
        let dim: usize = if embeddings.len() > 0 {
            embeddings[0].len()
        } else {
            0
        };
        if dim > MAX_DIM {
            proof {
                assert(!embeddings_ok(segs.len() as int, rows));
            }
            return Err(Error::Embedding);
        }
        let mut i: usize = 0;
        while i < embeddings.len()
            invariant
                i <= embeddings@.len(),
                forall|k: int|
                    0 <= k < i ==> (#[trigger] rows[k]).len() == dim && bounded_vec(rows[k]),
            decreases embeddings@.len() - i,
        {
            if embeddings[i].len() != dim {
                proof {
                    if embeddings_ok(segs.len() as int, rows) {
                        assert(rows[i as int].len() == rows[0].len());
                        assert(rows[0].len() == dim);
                        assert(false);
                    }
                }
                return Err(Error::Embedding);
            }
            let row = &embeddings[i];
            let mut j: usize = 0;
            while j < row.len()
                invariant
                    j <= row@.len(),
                    row@ == rows[i as int],
                    forall|k: int|
                        0 <= k < j ==> -COMPONENT_BOUND <= #[trigger] row@[k] <= COMPONENT_BOUND,
                decreases row@.len() - j,
            {
                let c = row[j];
                if c < -COMPONENT_BOUND || c > COMPONENT_BOUND {
                    proof {
                        if embeddings_ok(segs.len() as int, rows) {
                            assert((#[trigger] rows[i as int]).len() == rows[0].len());
                            assert(bounded_vec(rows[i as int]));
                            assert(false);
                        }
                    }
                    return Err(Error::Embedding);
                }
                j = j + 1;
            }
            i = i + 1;
        }
        proof {
            assert(rows_ok(rows, dim as int));
            assert(embeddings_ok(segs.len() as int, rows));
            lemma_strs_deep_view(&chunks);
        }
        Ok(VecDB { chunks, vectors: embeddings, dim })
    }

    /// The deterministic outcome of a top-`n` query, as a mathematical
    /// value: a query against an empty store with `n > 0` fails with
    /// `Error::EmptyStore`, a query of the wrong shape with
    /// `Error::Embedding`, everything else returns exactly the ranked
    /// prefix.
    pub open spec fn spec_top_result(&self, q: Seq<i64>, n: int) -> Result<
        Seq<(int, Seq<char>)>,
        Error,
    > {
        if self.chunks_view().len() == 0 && n > 0 {
            Err(Error::EmptyStore)
        } else if !query_ok(q, self.dim_spec()) {
            Err(Error::Embedding)
        } else {
            Ok(spec_top_n(q, self.chunks_view(), self.vectors_view(), n))
        }
    }

    /// Exact brute-force top-`n` similarity search: scores every stored
    /// vector by dot product against the query, ranks the scores in
    /// non-increasing order (ties keep the original chunk order) and
    /// returns the first `min(n, store size)` entries with their chunks.
    #[verifier::loop_isolation(false)]
    pub fn find_top_n_sim(&self, query_vec: &Vec<i64>, n: usize) -> (r: Result<
        Vec<(i64, String)>,
        Error,
    >)
        requires
            self.wf(),
        ensures
            match r {
                Ok(res) => self.spec_top_result(query_vec@, n as int) == Ok::<_, Error>(
                    scored_view(res@),
                ) && forall|i: int|
                    0 <= i < res@.len() ==> -SCORE_BOUND <= (#[trigger] res@[i]).0 <= SCORE_BOUND,
                Err(e) => self.spec_top_result(query_vec@, n as int) == Err::<
                    Seq<(int, Seq<char>)>,
                    _,
                >(e),
            },
    {
        if self.chunks.len() == 0 && n > 0 {
            return Err(Error::EmptyStore);
        }
        if query_vec.len() != self.dim {
            return Err(Error::Embedding);
        }
        let mut b: usize = 0;
        while b < query_vec.len()
            invariant
                b <= query_vec@.len(),
                forall|k: int|
                    0 <= k < b ==> -COMPONENT_BOUND <= #[trigger] query_vec@[k] <= COMPONENT_BOUND,
            decreases query_vec@.len() - b,
        {
            let c = query_vec[b];
            if c < -COMPONENT_BOUND || c > COMPONENT_BOUND {
                return Err(Error::Embedding);
            }
            b = b + 1;
        }
        let ghost q = query_vec@;
        let ghost vs = self.vectors_view();
        let ghost scored = spec_scored(q, vs);
        proof {
            lemma_rows_deep_view(&self.vectors);
            lemma_strs_deep_view(&self.chunks);
        }
        let mut sorted: Vec<(i64, usize)> = Vec::new();
        let mut i: usize = 0;
        proof {
            assert(pvs(sorted@) =~= spec_sort_desc(scored.take(0)));
        }
        while i < self.vectors.len()
            invariant
                i <= vs.len(),
                sorted@.len() == i,
                pvs(sorted@) == spec_sort_desc(scored.take(i as int)),
            decreases vs.len() - i,
        {
            proof {
                assert(self.vectors@[i as int]@ == vs[i as int]);
                assert((#[trigger] vs[i as int]).len() == self.dim_spec());
            }
            let s = dot_i64(query_vec, &self.vectors[i]);
            insert_scored(&mut sorted, (s, i));
            proof {
                let t = scored.take(i + 1);
                assert(t.drop_last() =~= scored.take(i as int));
                assert(t.last() == scored[i as int]);
                assert(scored[i as int] == (spec_dot(q, vs[i as int]), i as int));
                assert(pv((s, i)) == scored[i as int]);
                assert(spec_sort_desc(t) == spec_insert_desc(
                    scored[i as int],
                    spec_sort_desc(scored.take(i as int)),
                ));
            }
            i = i + 1;
        }
        proof {
            assert(scored.take(vs.len() as int) =~= scored);
            lemma_sort_desc_len(scored);
            assert(pairs_wf(scored, vs.len() as int, SCORE_BOUND as int)) by {
                assert forall|k: int|
                    0 <= k < scored.len() implies 0 <= (#[trigger] scored[k]).1 < vs.len() && -(
                SCORE_BOUND as int) <= scored[k].0 <= SCORE_BOUND as int by {
                    lemma_dot_upto_bound(q, vs[k], q.len() as int);
                }
            }
            lemma_sort_desc_wf(scored, vs.len() as int, SCORE_BOUND as int);
        }
        let m: usize = if n < sorted.len() {
            n
        } else {
            sorted.len()
        };
        let ghost sorted_spec = spec_sort_desc(scored);
        let mut res: Vec<(i64, String)> = Vec::new();
        let mut k: usize = 0;
        while k < m
            invariant
                sorted@.len() == vs.len(),
                pvs(sorted@) == sorted_spec,
                pairs_wf(sorted_spec, vs.len() as int, SCORE_BOUND as int),
                m <= sorted@.len(),
                k <= m,
                res@.len() == k,
                forall|t: int|
                    0 <= t < k ==> (#[trigger] res@[t]).0 == sorted@[t].0 && res@[t].1@
                        == self.chunks_view()[sorted@[t].1 as int],
                forall|t: int|
                    0 <= t < k ==> -SCORE_BOUND <= (#[trigger] res@[t]).0 <= SCORE_BOUND,
            decreases m - k,
        {
            proof {
                assert(pvs(sorted@)[k as int] == pv(sorted@[k as int]));
                assert(0 <= (#[trigger] sorted_spec[k as int]).1 < vs.len());
                assert(self.chunks@[sorted@[k as int].1 as int]@ == self.chunks_view()[sorted@[k
                    as int].1 as int]);
            }
            let idx = sorted[k].1;
            let chunk = self.chunks[idx].clone();
            res.push((sorted[k].0, chunk));
            k = k + 1;
        }
        proof {
            let expected = spec_top_n(q, self.chunks_view(), vs, n as int);
            assert(expected.len() == min_int(n as int, vs.len() as int));
            assert(m as int == min_int(n as int, vs.len() as int));
            assert(scored_view(res@) =~= expected) by {
                assert(forall|t: int|
                    0 <= t < res@.len() ==> scored_view(res@)[t] == (
                    (#[trigger] res@[t]).0 as int,
                    res@[t].1@,
                ));
                assert(forall|t: int|
                    0 <= t < m ==> pv(#[trigger] sorted@[t]) == sorted_spec[t]);
            }
        }
        Ok(res)
    }
}

/// Alignment law: a well-formed store holds exactly one vector per chunk;
/// the vector at index `i` is the one stored for the chunk at index `i`,
/// and no operation of the store ever changes either sequence.
pub proof fn lemma_store_alignment(db: &VecDB)
    requires
        db.wf(),
    ensures
        db.chunks_view().len() == db.vectors_view().len(),
{
}

/// Ordering law: the top-`n` result is sorted by non-increasing score.
pub proof fn lemma_top_n_sorted(q: Seq<i64>, chunks: Seq<Seq<char>>, vs: Seq<Seq<i64>>, n: int)
    requires
        n >= 0,
    ensures
        forall|i: int|
            0 <= i && i + 1 < spec_top_n(q, chunks, vs, n).len() ==> (#[trigger] spec_top_n(
                q,
                chunks,
                vs,
                n,
            )[i]).0 >= spec_top_n(q, chunks, vs, n)[i + 1].0,
{
    let sorted = spec_sort_desc(spec_scored(q, vs));
    lemma_sort_desc_sorted(spec_scored(q, vs));
    lemma_sort_desc_len(spec_scored(q, vs));
    assert(spec_top_n(q, chunks, vs, n).len() == min_int(n, sorted.len() as int));
    assert forall|i: int|
        0 <= i && i + 1 < spec_top_n(q, chunks, vs, n).len() implies (#[trigger] spec_top_n(
        q,
        chunks,
        vs,
        n,
    )[i]).0 >= spec_top_n(q, chunks, vs, n)[i + 1].0 by {
        assert(pair_before(sorted[i], sorted[i + 1]));
    }
}

/// Size law: the top-`n` result holds exactly `min(n, store size)`
/// entries, for every `n >= 0`, including `n == 0` and `n` larger than
/// the store.
pub proof fn lemma_top_n_len(q: Seq<i64>, chunks: Seq<Seq<char>>, vs: Seq<Seq<i64>>, n: int)
    requires
        n >= 0,
    ensures
        spec_top_n(q, chunks, vs, n).len() == min_int(n, vs.len() as int),
{
    lemma_sort_desc_len(spec_scored(q, vs));
}

/// Size law at the store's interface: with a fitting query, a top-`n`
/// query never fails for size reasons — `n == 0` and `n` beyond the
/// store size included — and returns exactly `min(n, store size)`
/// entries; only an empty store asked for `n > 0` entries is the
/// `EmptyStore` error.
pub proof fn lemma_top_result_len(db: &VecDB, q: Seq<i64>, n: int)
    requires
        db.wf(),
        n >= 0,
        query_ok(q, db.dim_spec()),
    ensures
        db.chunks_view().len() == 0 && n > 0 ==> db.spec_top_result(q, n) == Err::<
            Seq<(int, Seq<char>)>,
            Error,
        >(Error::EmptyStore),
        db.chunks_view().len() > 0 || n == 0 ==> (db.spec_top_result(q, n) matches Ok(rs)
            && rs.len() == min_int(n, db.chunks_view().len() as int)),
{
    lemma_top_n_len(q, db.chunks_view(), db.vectors_view(), n);
}

proof fn lemma_insert_desc_contains_all(x: (int, int), s: Seq<(int, int)>)
    ensures
        spec_insert_desc(x, s).contains(x),
        forall|e: (int, int)| s.contains(e) ==> #[trigger] spec_insert_desc(x, s).contains(e),
    decreases s.len(),
{
    let ins = spec_insert_desc(x, s);
    if s.len() == 0 {
        assert(ins[0] == x);
        assert(ins.contains(x));
    } else if pair_before(x, s[0]) {
        assert(ins[0] == x);
        assert(ins.contains(x));
        assert forall|e: (int, int)| s.contains(e) implies #[trigger] ins.contains(e) by {
            let k = choose|k: int| 0 <= k < s.len() && s[k] == e;
            assert(ins[k + 1] == e);
        }
    } else {
        let rec = spec_insert_desc(x, s.drop_first());
        lemma_insert_desc_contains_all(x, s.drop_first());
        assert(rec.contains(x));
        let kx = choose|k: int| 0 <= k < rec.len() && rec[k] == x;
        assert(ins[kx + 1] == x);
        assert(ins.contains(x));
        assert forall|e: (int, int)| s.contains(e) implies #[trigger] ins.contains(e) by {
            let k = choose|k: int| 0 <= k < s.len() && s[k] == e;
            if k == 0 {
                assert(ins[0] == e);
            } else {
                assert(s.drop_first()[k - 1] == e);
                assert(s.drop_first().contains(e));
                assert(rec.contains(e));
                let k2 = choose|k2: int| 0 <= k2 < rec.len() && rec[k2] == e;
                assert(ins[k2 + 1] == e);
            }
        }
    }
}

proof fn lemma_sort_desc_contains(s: Seq<(int, int)>)
    ensures
        forall|e: (int, int)| #[trigger] s.contains(e) ==> spec_sort_desc(s).contains(e),
        forall|e: (int, int)| #[trigger] spec_sort_desc(s).contains(e) ==> s.contains(e),
    decreases s.len(),
{
    if s.len() != 0 {
        let d = s.drop_last();
        let rec = spec_sort_desc(d);
        let sorted = spec_sort_desc(s);
        lemma_sort_desc_contains(d);
        lemma_insert_desc_contains_all(s.last(), rec);
        lemma_insert_desc_membership(s.last(), rec);
        assert forall|e: (int, int)| #[trigger] s.contains(e) implies sorted.contains(e) by {
            let k = choose|k: int| 0 <= k < s.len() && s[k] == e;
            if k == s.len() - 1 {
                assert(sorted.contains(s.last()));
            } else {
                assert(d[k] == e);
                assert(d.contains(e));
                assert(rec.contains(e));
            }
        }
        assert forall|e: (int, int)| #[trigger] sorted.contains(e) implies s.contains(e) by {
            let k = choose|k: int| 0 <= k < sorted.len() && sorted[k] == e;
            if e == s.last() {
                assert(s[s.len() - 1] == e);
                assert(s.contains(e));
            } else {
                assert(rec.contains(e));
                assert(d.contains(e));
                let k2 = choose|k2: int| 0 <= k2 < d.len() && d[k2] == e;
                assert(s[k2] == e);
                assert(s.contains(e));
            }
        }
    }
}

/// Retrieval scenario law: when one stored vector scores strictly higher
/// against the query than every other, the top-1 result is exactly that
/// vector's score with its chunk.
pub proof fn lemma_top_one_strict_max(
    q: Seq<i64>,
    chunks: Seq<Seq<char>>,
    vs: Seq<Seq<i64>>,
    i0: int,
)
    requires
        0 <= i0 < vs.len(),
        forall|j: int|
            0 <= j < vs.len() && j != i0 ==> spec_dot(q, #[trigger] vs[j]) < spec_dot(q, vs[i0]),
    ensures
        spec_top_n(q, chunks, vs, 1) == seq![(spec_dot(q, vs[i0]), chunks[i0])],
{
    let scored = spec_scored(q, vs);
    let sorted = spec_sort_desc(scored);
    lemma_sort_desc_len(scored);
    lemma_sort_desc_sorted(scored);
    lemma_sort_desc_contains(scored);
    assert(scored[i0] == (spec_dot(q, vs[i0]), i0));
    assert(scored.contains(scored[i0]));
    assert(sorted.contains(scored[i0]));
    let k = choose|k: int| 0 <= k < sorted.len() && sorted[k] == scored[i0];
    assert(sorted.contains(sorted[0]));
    assert(scored.contains(sorted[0]));
    let j = choose|j: int| 0 <= j < scored.len() && scored[j] == sorted[0];
    assert(scored[j] == (spec_dot(q, vs[j]), j));
    if j != i0 {
        assert(spec_dot(q, vs[j]) < spec_dot(q, vs[i0]));
        if k == 0 {
            assert(sorted[0] == scored[i0]);
            assert(false);
        } else {
            assert(pair_before(sorted[0], sorted[k]));
            assert(false);
        }
    }
    assert(sorted[0] == (spec_dot(q, vs[i0]), i0));
    assert(min_int(1, sorted.len() as int) == 1);
    assert(spec_top_n(q, chunks, vs, 1) =~= seq![(spec_dot(q, vs[i0]), chunks[i0])]);
}

/// A score rendered as a percentage with one decimal digit, truncated
/// toward zero. A score carries the scale `EMBED_SCALE * EMBED_SCALE`,
/// so one tenth of a percent is one thousand score units.
pub open spec fn spec_percent_mag(u: int) -> Seq<char> {
    let tenths = u / 1000;
    spec_dec(tenths / 10) + seq!['.'] + seq![spec_digit_char(tenths % 10)]
}

/// The percentage text of a (possibly negative) score.
pub open spec fn spec_percent(s: int) -> Seq<char> {
    if s < 0 {
        seq!['-'] + spec_percent_mag(-s)
    } else {
        spec_percent_mag(s)
    }
}

/// Renders a score as percentage text, exactly as `spec_percent` says.
pub fn render_percent(score: i64) -> (r: String)
    requires
        -SCORE_BOUND <= score <= SCORE_BOUND,
    ensures
        r@ == spec_percent(score as int),
{
    let neg = score < 0;
    let mag: u64 = if neg {
        (-score) as u64
    } else {
        score as u64
    };
    let tenths: u64 = mag / 1000;
    let whole = u64_to_string(tenths / 10);
    let mut r = String::new();
    if neg {
        push_char(&mut r, '-');
    }
    r.append(whole.as_str());
    push_char(&mut r, '.');
    push_char(&mut r, digit_char(tenths % 10));
    proof {
        assert(tenths as int == (mag as int) / 1000);
        assert(r@ =~= spec_percent(score as int));
    }
    r
}

/// One rendered result block: a percentage-formatted score header
/// followed by the chunk body and a blank line.
pub open spec fn spec_render_entry(score: int, chunk: Seq<char>) -> Seq<char> {
    "["@ + spec_percent(score) + "% match]\n"@ + chunk + "\n\n"@
}

/// The rendered context: every ranked result block, concatenated in
/// ranked order.
pub open spec fn spec_render(rs: Seq<(int, Seq<char>)>) -> Seq<char>
    decreases rs.len(),
{
    if rs.len() == 0 {
        Seq::empty()
    } else {
        spec_render_entry(rs[0].0, rs[0].1) + spec_render(rs.drop_first())
    }
}

proof fn lemma_render_concat(a: Seq<(int, Seq<char>)>, b: Seq<(int, Seq<char>)>)
    ensures
        spec_render(a + b) == spec_render(a) + spec_render(b),
    decreases a.len(),
{
    if a.len() == 0 {
        assert(a + b =~= b);
        assert(Seq::<char>::empty() + spec_render(b) =~= spec_render(b));
    } else {
        assert((a + b).len() > 0);
        assert((a + b)[0] == a[0]);
        assert((a + b).drop_first() =~= a.drop_first() + b);
        lemma_render_concat(a.drop_first(), b);
        assert(spec_render_entry(a[0].0, a[0].1) + (spec_render(a.drop_first()) + spec_render(b))
            =~= (spec_render_entry(a[0].0, a[0].1) + spec_render(a.drop_first())) + spec_render(
            b,
        ));
    }
}

/// The mathematical model of a `Result<String, Error>`.
pub open spec fn result_view(r: Result<String, Error>) -> Result<Seq<char>, Error> {
    match r {
        Ok(s) => Ok(s@),
        Err(e) => Err(e),
    }
}

/// The retrieval pipeline: owns one vector store and turns a query vector
/// into a ranked, formatted context string.
pub struct RAGBase {
    vec_db: VecDB,
}

impl RAGBase {
    /// The pipeline's store.
    pub closed spec fn db(&self) -> VecDB {
        self.vec_db
    }

    pub open spec fn wf(&self) -> bool {
        self.db().wf()
    }

    /// Builds the pipeline: chunks `data` and stores the provider's rows
    /// beside the chunks. Error cases are those of `VecDB::new`.
    pub fn new(data: &str, chunk_size: usize, overlap: usize, embeddings: Vec<Vec<i64>>) -> (r:
        Result<RAGBase, Error>)
        ensures
            chunk_size == 0 || overlap >= chunk_size ==> r == Err::<RAGBase, Error>(Error::Config),
            0 < chunk_size && overlap < chunk_size ==> {
                let segs = spec_segments(data@, chunk_size as int, overlap as int);
                if embeddings_ok(segs.len() as int, embeddings.deep_view()) {
                    r matches Ok(rb) && rb.wf() && rb.db().chunks_view() == segs
                        && rb.db().vectors_view() == embeddings.deep_view()
                } else {
                    r == Err::<RAGBase, Error>(Error::Embedding)
                }
            },
    {
        match VecDB::new(data, chunk_size, overlap, embeddings) {
            Ok(db) => Ok(RAGBase { vec_db: db }),
            Err(e) => Err(e),
        }
    }

    /// The deterministic outcome of one query: the rendered top-`TOP_K`
    /// context, or the store's error.
    pub open spec fn spec_query_result(&self, q: Seq<i64>) -> Result<Seq<char>, Error> {
        match self.db().spec_top_result(q, TOP_K as int) {
            Ok(rs) => Ok(spec_render(rs)),
            Err(e) => Err(e),
        }
    }

    /// Retrieves the `TOP_K` best chunks for the query vector and renders
    /// them, in ranked order, as one context string. Every query rescans
    /// the store; nothing is cached. Store errors propagate unchanged.
    #[verifier::loop_isolation(false)]
    pub fn query(&self, query_vec: &Vec<i64>) -> (r: Result<String, Error>)
        requires
            self.wf(),
        ensures
            result_view(r) == self.spec_query_result(query_vec@),
    {
        let top = match self.vec_db.find_top_n_sim(query_vec, TOP_K) {
            Err(e) => {
                return Err(e);
            },
            Ok(t) => t,
        };
        let ghost rv = scored_view(top@);
        let mut ctx = String::new();
        proof {
            assert(rv.take(0) =~= Seq::<(int, Seq<char>)>::empty());
        }
        let mut i: usize = 0;
        while i < top.len()
            invariant
                i <= top@.len(),
                rv == scored_view(top@),
                ctx@ == spec_render(rv.take(i as int)),
            decreases top@.len() - i,
        {
            let ghost pre = ctx@;
            ctx.append("[");
            let p = render_percent(top[i].0);
            ctx.append(p.as_str());
            ctx.append("% match]\n");
            ctx.append(top[i].1.as_str());
            ctx.append("\n\n");
            proof {
                assert(rv[i as int] == ((top@[i as int].0 as int, top@[i as int].1@)));
                assert(ctx@ =~= pre + spec_render_entry(rv[i as int].0, rv[i as int].1));
                assert(rv.take(i + 1) =~= rv.take(i as int) + seq![rv[i as int]]);
                lemma_render_concat(rv.take(i as int), seq![rv[i as int]]);
                assert(seq![rv[i as int]].drop_first() =~= Seq::<(int, Seq<char>)>::empty());
                assert(spec_render(Seq::<(int, Seq<char>)>::empty()) == Seq::<char>::empty());
                assert(spec_render(seq![rv[i as int]]) =~= spec_render_entry(
                    rv[i as int].0,
                    rv[i as int].1,
                ));
            }
            i = i + 1;
        }
        proof {
            assert(rv.take(top@.len() as int) =~= rv);
        }
        Ok(ctx)
    }
}

/// The OpenAPI corpus agent: a pipeline over an ingested API description,
/// chunked with the OpenAPI parameters.
pub struct OpenAPIAgent {
    rag_base: RAGBase,
}

/// The codebase corpus agent: a pipeline over an ingested codebase
/// summary, chunked with the codebase parameters.
pub struct CodebaseAgent {
    rag_base: RAGBase,
}

/// An extension point: a place to construct a different agent variant
/// depending on user input. It carries no state yet.
pub struct AgentBuilder {}

/// One registered retrieval unit: "something answerable", whatever its
/// variant. The registry stores these without caring which variant a key
/// maps to.
pub enum Agent {
    OpenAPI(OpenAPIAgent),
    Codebase(CodebaseAgent),
}

impl OpenAPIAgent {
    /// The agent's pipeline.
    pub closed spec fn rag(&self) -> RAGBase {
        self.rag_base
    }

    pub open spec fn wf(&self) -> bool {
        self.rag().wf()
    }

    /// Builds the agent over ingested OpenAPI text and the provider's
    /// embedding rows for its chunks.
    pub fn new(data: &str, embeddings: Vec<Vec<i64>>) -> (r: Result<OpenAPIAgent, Error>)
        ensures
            ({
                let segs = spec_segments(
                    data@,
                    OPENAPI_CHUNK_SIZE as int,
                    OPENAPI_OVERLAP as int,
                );
                if embeddings_ok(segs.len() as int, embeddings.deep_view()) {
                    r matches Ok(a) && a.wf() && a.rag().db().chunks_view() == segs
                        && a.rag().db().vectors_view() == embeddings.deep_view()
                } else {
                    r == Err::<OpenAPIAgent, Error>(Error::Embedding)
                }
            }),
    {
        match RAGBase::new(data, OPENAPI_CHUNK_SIZE, OPENAPI_OVERLAP, embeddings) {
            Ok(rb) => Ok(OpenAPIAgent { rag_base: rb }),
            Err(e) => Err(e),
        }
    }

    /// Answers by delegating to the pipeline.
    pub fn execute(&self, query_vec: &Vec<i64>) -> (r: Result<String, Error>)
        requires
            self.wf(),
        ensures
            result_view(r) == self.rag().spec_query_result(query_vec@),
    {
        self.rag_base.query(query_vec)
    }
}

impl CodebaseAgent {
    /// The agent's pipeline.
    pub closed spec fn rag(&self) -> RAGBase {
        self.rag_base
    }

    pub open spec fn wf(&self) -> bool {
        self.rag().wf()
    }

    /// Builds the agent over the codebase summary that
    /// `crate::parser::parse_codebase` extracts for `root_path`.
    pub fn new(root_path: &str, embeddings: Vec<Vec<i64>>) -> (r: Result<CodebaseAgent, Error>)
        ensures
            ({
                let segs = spec_segments(
                    "Test"@,
                    CODEBASE_CHUNK_SIZE as int,
                    CODEBASE_OVERLAP as int,
                );
                if embeddings_ok(segs.len() as int, embeddings.deep_view()) {
                    r matches Ok(a) && a.wf() && a.rag().db().chunks_view() == segs
                        && a.rag().db().vectors_view() == embeddings.deep_view()
                } else {
                    r == Err::<CodebaseAgent, Error>(Error::Embedding)
                }
            }),
    {
        let data = match crate::parser::parse_codebase(root_path) {
            Ok(d) => d,
            Err(e) => {
                return Err(e);
            },
        };
        match RAGBase::new(data.as_str(), CODEBASE_CHUNK_SIZE, CODEBASE_OVERLAP, embeddings) {
            Ok(rb) => Ok(CodebaseAgent { rag_base: rb }),
            Err(e) => Err(e),
        }
    }

    /// Answers by delegating to the pipeline.
    pub fn execute(&self, query_vec: &Vec<i64>) -> (r: Result<String, Error>)
        requires
            self.wf(),
        ensures
            result_view(r) == self.rag().spec_query_result(query_vec@),
    {
        self.rag_base.query(query_vec)
    }
}

/// The deterministic answer of an agent to a query vector: every variant
/// delegates to its pipeline's query.
pub open spec fn spec_answer(agent: &Agent, q: Seq<i64>) -> Result<Seq<char>, Error> {
    match agent {
        Agent::OpenAPI(a) => a.rag().spec_query_result(q),
        Agent::Codebase(c) => c.rag().spec_query_result(q),
    }
}

impl Agent {
    pub open spec fn wf(&self) -> bool {
        match self {
            Agent::OpenAPI(a) => a.wf(),
            Agent::Codebase(c) => c.wf(),
        }
    }

    /// The one capability every agent exposes: answer a query.
    pub fn execute(&self, query_vec: &Vec<i64>) -> (r: Result<String, Error>)
        requires
            self.wf(),
        ensures
            result_view(r) == spec_answer(self, query_vec@),
    {
        match self {
            Agent::OpenAPI(a) => a.execute(query_vec),
            Agent::Codebase(c) => c.execute(query_vec),
        }
    }
}

/// `i` is where a maximum of `v` stands, and the last such place.
pub open spec fn is_last_argmax(v: Seq<i64>, i: int) -> bool {
    &&& 0 <= i < v.len()
    &&& forall|j: int| 0 <= j < v.len() ==> #[trigger] v[j] <= v[i]
    &&& forall|j: int| i < j < v.len() ==> #[trigger] v[j] < v[i]
}

proof fn lemma_argmax_unique(v: Seq<i64>, a: int, b: int)
    requires
        is_last_argmax(v, a),
        is_last_argmax(v, b),
    ensures
        a == b,
{
    if a < b {
        assert(v[b] < v[a]);
        assert(v[a] <= v[b]);
    } else if b < a {
        assert(v[a] < v[b]);
        assert(v[b] <= v[a]);
    }
}

fn last_argmax(v: &Vec<i64>) -> (r: usize)
    requires
        v@.len() > 0,
    ensures
        is_last_argmax(v@, r as int),
{
    let mut best: usize = 0;
    let mut j: usize = 1;
    while j < v.len()
        invariant
            best < j <= v@.len(),
            forall|k: int| 0 <= k < j ==> #[trigger] v@[k] <= v@[best as int],
            forall|k: int| best < k < j ==> #[trigger] v@[k] < v@[best as int],
        decreases v@.len() - j,
    {
        if v[j] >= v[best] {
            best = j;
        }
        j = j + 1;
    }
    best
}

/// Best-effort QA span selection: picks the last argmax of the start
/// logits and of the end logits independently. An end before the start is
/// a decoding anomaly: the caller falls back to the raw context, so this
/// returns `None` for it, as it does for empty logit rows.
pub fn select_span(start_logits: &Vec<i64>, end_logits: &Vec<i64>) -> (r: Option<(usize, usize)>)
    ensures
        match r {
            Some(p) => is_last_argmax(start_logits@, p.0 as int) && is_last_argmax(
                end_logits@,
                p.1 as int,
            ) && p.0 <= p.1,
            None => start_logits@.len() == 0 || end_logits@.len() == 0 || (forall|s: int, e: int|
                #![trigger is_last_argmax(start_logits@, s), is_last_argmax(end_logits@, e)]
                is_last_argmax(start_logits@, s) && is_last_argmax(end_logits@, e) ==> e < s),
        },
{
    if start_logits.len() == 0 || end_logits.len() == 0 {
        return None;
    }
    let s = last_argmax(start_logits);
    let e = last_argmax(end_logits);
    if s <= e {
        Some((s, e))
    } else {
        proof {
            assert forall|s2: int, e2: int|
                #![trigger is_last_argmax(start_logits@, s2), is_last_argmax(end_logits@, e2)]
                is_last_argmax(start_logits@, s2) && is_last_argmax(end_logits@, e2)
                implies e2 < s2 by {
                lemma_argmax_unique(start_logits@, s2, s as int);
                lemma_argmax_unique(end_logits@, e2, e as int);
            }
        }
        None
    }
}

} // verus!
