//! The embedded vector store: documents, fixed-point cosine similarity,
//! insertion with upsert semantics, top-k search, and removal by source.
//!
//! Embedding coordinates are fixed-point numbers: the integer `SCALE`
//! stands for 1.0. Scores are exact integer arithmetic over that
//! representation, so every search is reproducible and fully specified.

use vstd::prelude::*;
use vstd::string::StringExecFns;
use vstd::string::StringSliceAdditionalSpecFns;
use vstd::utf8::encode_utf8;

use crate::strutil;

verus! {

/// Fixed-point scale: this value stands for 1.0.
pub const SCALE: i64 = 1_000_000;

/// Largest admitted embedding coordinate magnitude: ten in units of
/// `SCALE`, ample for unit-normalized embeddings and small enough that
/// every intermediate product below fits an `i128`.
pub const MAX_COMPONENT: i64 = 10_000_000;

/// Largest admitted embedding dimension.
pub const MAX_DIM: usize = 65536;

/// A document stored in the vector store: text content, its embedding,
/// and string metadata (holding at least `source` for indexed files).
#[derive(Debug)]
pub struct Document {
    pub id: String,
    pub content: String,
    pub embedding: Vec<i64>,
    pub metadata: Vec<(String, String)>,
}

/// A search result: a stored document and its similarity score, where
/// `SCALE` stands for a perfect score of 1.0.
#[derive(Debug)]
pub struct SearchResult {
    pub document: Document,
    pub score: i128,
}

/// Why an insertion was refused; each names the offending document by its
/// position in the batch.
#[derive(Debug, Clone, Copy, PartialEq, Eq, Structural)]
pub enum StoreError {
    /// This document's embedding length differs from the store's dimension.
    DimensionMismatch { index: usize },
    /// A coordinate of this document's embedding lies outside the
    /// fixed-point domain.
    EmbeddingOutOfRange { index: usize },
}

/// The metadata pairs as character sequences.
pub open spec fn spec_meta_view(m: Seq<(String, String)>) -> Seq<(Seq<char>, Seq<char>)> {
    m.map_values(|p: (String, String)| (p.0@, p.1@))
}

/// The value stored under a key, the most recent entry winning.
pub open spec fn spec_meta_get(m: Seq<(String, String)>, key: Seq<char>) -> Option<Seq<char>>
    decreases m.len(),
{
    if m.len() == 0 {
        None
    } else if m.last().0@ == key {
        Some(m.last().1@)
    } else {
        spec_meta_get(m.drop_last(), key)
    }
}

/// The `source` metadata of a document.
pub open spec fn spec_doc_source(d: Document) -> Option<Seq<char>> {
    spec_meta_get(d.metadata@, "source"@)
}

/// The result copy of a stored document: same id, content and metadata,
/// with the embedding left out.
pub open spec fn spec_result_doc(r: Document, stored: Document) -> bool {
    &&& r.id@ == stored.id@
    &&& r.content@ == stored.content@
    &&& r.embedding@.len() == 0
    &&& spec_meta_view(r.metadata@) == spec_meta_view(stored.metadata@)
}

impl Document {
    /// Make a document with no metadata yet.
    pub fn new(id: String, content: String, embedding: Vec<i64>) -> (r: Document)
        ensures
            r.id@ == id@,
            r.content@ == content@,
            r.embedding@ == embedding@,
            r.metadata@.len() == 0,
    {
        Document { id, content, embedding, metadata: Vec::new() }
    }

    /// Add one metadata entry; a repeated key shadows the earlier entry.
    pub fn with_metadata(self, key: String, value: String) -> (r: Document)
        ensures
            r.id@ == self.id@,
            r.content@ == self.content@,
            r.embedding@ == self.embedding@,
            r.metadata@ == self.metadata@.push((key, value)),
    {
        let mut d = self;
        d.metadata.push((key, value));
        d
    }

    /// Look a metadata value up by key.
    pub fn meta_get(&self, key: &str) -> (r: Option<&String>)
        ensures
            match r {
                Some(v) => spec_meta_get(self.metadata@, key@) == Some(v@),
                None => spec_meta_get(self.metadata@, key@) is None,
            },
    {
        let n = self.metadata.len();
        proof {
            assert(self.metadata@.take(n as int) =~= self.metadata@);
        }
        let mut i: usize = n;
        while i > 0
            invariant
                n == self.metadata@.len(),
                0 <= i <= n,
                spec_meta_get(self.metadata@, key@) == spec_meta_get(
                    self.metadata@.take(i as int),
                    key@,
                ),
            decreases i,
        {
            let entry = &self.metadata[i - 1];
            let hit = strutil::str_eq(entry.0.as_str(), key);
            proof {
                assert(self.metadata@.take(i as int).last() == self.metadata@[i - 1]);
                assert(self.metadata@.take(i as int).drop_last() =~= self.metadata@.take(i - 1));
            }
            if hit {
                return Some(&self.metadata[i - 1].1);
            }
            i = i - 1;
        }
        proof {
            assert(self.metadata@.take(0) =~= Seq::<(String, String)>::empty());
        }
        None
    }

    /// A copy of this document without its embedding, as search results
    /// carry it.
    pub fn without_embedding(&self) -> (r: Document)
        ensures
            spec_result_doc(r, *self),
    {
        let mut meta: Vec<(String, String)> = Vec::new();
        let n = self.metadata.len();
        let mut i: usize = 0;
        while i < n
            invariant
                n == self.metadata@.len(),
                0 <= i <= n,
                meta@.len() == i,
                forall|k: int|
                    0 <= k < i ==> (#[trigger] meta@[k]).0@ == self.metadata@[k].0@ && meta@[k].1@
                        == self.metadata@[k].1@,
            decreases n - i,
        {
            let entry = &self.metadata[i];
            meta.push((entry.0.clone(), entry.1.clone()));
            i = i + 1;
        }
        let r = Document {
            id: self.id.clone(),
            content: self.content.clone(),
            embedding: Vec::new(),
            metadata: meta,
        };
        proof {
            assert(spec_meta_view(r.metadata@) =~= spec_meta_view(self.metadata@));
        }
        r
    }
}

/// An embedding fits the fixed-point domain: bounded dimension and
/// bounded coordinates.
pub open spec fn spec_bounded(e: Seq<i64>) -> bool {
    e.len() <= MAX_DIM && forall|i: int|
        0 <= i < e.len() ==> -MAX_COMPONENT <= #[trigger] e[i] <= MAX_COMPONENT
}

/// The dot product of the first `i` coordinate pairs.
pub open spec fn spec_dot_to(a: Seq<i64>, b: Seq<i64>, i: int) -> int
    decreases i,
{
    if i <= 0 {
        0
    } else {
        spec_dot_to(a, b, i - 1) + a[i - 1] * b[i - 1]
    }
}

/// The dot product of two equally long embeddings.
pub open spec fn spec_dot(a: Seq<i64>, b: Seq<i64>) -> int {
    spec_dot_to(a, b, a.len() as int)
}

/// A dot product of an embedding with itself is non-negative.
pub proof fn lemma_self_dot_nonneg(a: Seq<i64>, i: int)
    requires
        0 <= i,
    ensures
        spec_dot_to(a, a, i) >= 0,
    decreases i,
{
    if i > 0 {
        lemma_self_dot_nonneg(a, i - 1);
        assert(a[i - 1] * a[i - 1] >= 0) by (nonlinear_arith);
    }
}

/// The dot product is symmetric in its arguments.
pub proof fn lemma_dot_comm(a: Seq<i64>, b: Seq<i64>, i: int)
    requires
        0 <= i,
    ensures
        spec_dot_to(a, b, i) == spec_dot_to(b, a, i),
    decreases i,
{
    if i > 0 {
        lemma_dot_comm(a, b, i - 1);
        assert(a[i - 1] * b[i - 1] == b[i - 1] * a[i - 1]) by (nonlinear_arith);
    }
}

/// Cauchy-Schwarz for the integer dot product: its square never exceeds
/// the product of the squared magnitudes.
pub proof fn lemma_cauchy_schwarz(a: Seq<i64>, b: Seq<i64>, i: int)
    requires
        0 <= i,
    ensures
        spec_dot_to(a, b, i) * spec_dot_to(a, b, i) <= spec_dot_to(a, a, i) * spec_dot_to(
            b,
            b,
            i,
        ),
    decreases i,
{
    if i <= 0 {
        assert(0 * 0 <= 0 * 0) by (nonlinear_arith);
    } else {
        lemma_cauchy_schwarz(a, b, i - 1);
        lemma_self_dot_nonneg(a, i - 1);
        lemma_self_dot_nonneg(b, i - 1);
        let d = spec_dot_to(a, b, i - 1);
        let na = spec_dot_to(a, a, i - 1);
        let nb = spec_dot_to(b, b, i - 1);
        let x = a[i - 1] as int;
        let y = b[i - 1] as int;
        // (na y^2 + nb x^2)^2 exceeds (2 d x y)^2, and the base is
        // non-negative, so na y^2 + nb x^2 >= 2 d x y; expanding the
        // products then closes the induction step.
        assert((na * (y * y) + nb * (x * x)) * (na * (y * y) + nb * (x * x)) >= (2 * (d * (x * y)))
            * (2 * (d * (x * y)))) by (nonlinear_arith)
            requires
                d * d <= na * nb,
                na >= 0,
                nb >= 0,
        ;
        assert(na * (y * y) + nb * (x * x) >= 2 * (d * (x * y))) by (nonlinear_arith)
            requires
                (na * (y * y) + nb * (x * x)) * (na * (y * y) + nb * (x * x)) >= (2 * (d * (x * y)))
                    * (2 * (d * (x * y))),
                na >= 0,
                nb >= 0,
        ;
        assert((d + x * y) * (d + x * y) == d * d + 2 * (d * (x * y)) + (x * y) * (x * y))
            by (nonlinear_arith);
        assert((na + x * x) * (nb + y * y) == na * nb + na * (y * y) + nb * (x * x) + (x * x) * (y
            * y)) by (nonlinear_arith);
        assert((x * y) * (x * y) == (x * x) * (y * y)) by (nonlinear_arith);
        assert((d + x * y) * (d + x * y) <= (na + x * x) * (nb + y * y));
    }
}

/// Cosine similarity is symmetric in its arguments.
pub proof fn lemma_cosine_commutative(a: Seq<i64>, b: Seq<i64>)
    ensures
        spec_cosine(a, b) == spec_cosine(b, a),
{
    if a.len() == b.len() {
        lemma_dot_comm(a, b, a.len() as int);
        assert(spec_dot_to(a, a, a.len() as int) * spec_dot_to(b, b, b.len() as int)
            == spec_dot_to(b, b, b.len() as int) * spec_dot_to(a, a, a.len() as int))
            by (nonlinear_arith);
    }
}

/// The integer square root: the largest integer whose square is at most `n`.
pub closed spec fn spec_isqrt(n: int) -> int {
    choose|r: int| 0 <= r && #[trigger] (r * r) <= n < (r + 1) * (r + 1)
}

pub proof fn lemma_isqrt_exists(n: int) -> (r: int)
    requires
        n >= 0,
    ensures
        0 <= r,
        r * r <= n < (r + 1) * (r + 1),
    decreases n,
{
    if n == 0 {
        0
    } else {
        let p = lemma_isqrt_exists(n - 1);
        if (p + 1) * (p + 1) <= n {
            assert(n < (p + 2) * (p + 2)) by (nonlinear_arith)
                requires
                    0 <= p,
                    n - 1 < (p + 1) * (p + 1),
            ;
            p + 1
        } else {
            p
        }
    }
}

/// The defining property pins the square root down.
pub proof fn lemma_isqrt_unique(n: int, r: int)
    requires
        n >= 0,
        0 <= r,
        r * r <= n < (r + 1) * (r + 1),
    ensures
        spec_isqrt(n) == r,
{
    let w = lemma_isqrt_exists(n);
    assert(spec_isqrt(n) == w || (0 <= spec_isqrt(n) && spec_isqrt(n) * spec_isqrt(n) <= n < (
    spec_isqrt(n) + 1) * (spec_isqrt(n) + 1)));
    let s = spec_isqrt(n);
    assert(s == r) by (nonlinear_arith)
        requires
            0 <= r,
            0 <= s,
            r * r <= n < (r + 1) * (r + 1),
            s * s <= n < (s + 1) * (s + 1),
    ;
}

/// Division truncating toward zero, as the machine division does.
pub open spec fn spec_div_trunc(x: int, d: int) -> int
    recommends
        d > 0,
{
    if x >= 0 {
        x / d
    } else {
        -((-x) / d)
    }
}

/// The cosine similarity of two embeddings in fixed point: the dot product
/// scaled by `SCALE` and divided by the integer square root of the product
/// of the squared magnitudes. Zero when the lengths differ or either
/// magnitude is zero.
pub open spec fn spec_cosine(a: Seq<i64>, b: Seq<i64>) -> int {
    if a.len() != b.len() {
        0
    } else {
        let dot = spec_dot(a, b);
        let na = spec_dot(a, a);
        let nb = spec_dot(b, b);
        if na == 0 || nb == 0 {
            0
        } else {
            spec_div_trunc(dot * SCALE as int, spec_isqrt(na * nb))
        }
    }
}

/// The integer square root, by binary search.
pub fn isqrt(n: i128) -> (r: i128)
    requires
        0 <= n < 0x40000000000000000000000000000000i128,  // 2^126
    ensures
        r == spec_isqrt(n as int),
        0 <= r,
        r * r <= n < (r + 1) * (r + 1),
{
    let mut lo: i128 = 0;
    let mut hi: i128 = 0x8000000000000000i128;  // 2^63, whose square exceeds the bound
    assert(hi * hi > n) by (nonlinear_arith)
        requires
            n < 0x40000000000000000000000000000000i128,
            hi == 0x8000000000000000i128,
    ;
    while lo + 1 < hi
        invariant
            0 <= lo < hi <= 0x8000000000000000i128,
            lo * lo <= n,
            hi * hi > n,
            n < 0x40000000000000000000000000000000i128,
        decreases hi - lo,
    {
        let mid = lo + (hi - lo) / 2;
        assert(lo < mid < hi);
        assert(mid * mid <= 0x8000000000000000i128 * 0x8000000000000000i128) by (nonlinear_arith)
            requires
                0 < mid <= 0x8000000000000000i128,
        ;
        if mid * mid <= n {
            lo = mid;
        } else {
            hi = mid;
        }
    }
    proof {
        lemma_isqrt_unique(n as int, lo as int);
    }
    lo
}

/// Compute the cosine similarity of two embeddings, exactly as
/// `spec_cosine` states it.
pub fn cosine_similarity(a: &Vec<i64>, b: &Vec<i64>) -> (r: i128)
    requires
        spec_bounded(a@),
        spec_bounded(b@),
    ensures
        r == spec_cosine(a@, b@),
        -(SCALE as int) <= r <= SCALE as int,
{
    let n = a.len();
    if n != b.len() {
        return 0;
    }
    let mut dot: i128 = 0;
    let mut na: i128 = 0;
    let mut nb: i128 = 0;
    let mut i: usize = 0;
    while i < n
        invariant
            n == a@.len(),
            n == b@.len(),
            spec_bounded(a@),
            spec_bounded(b@),
            0 <= i <= n,
            dot == spec_dot_to(a@, b@, i as int),
            na == spec_dot_to(a@, a@, i as int),
            nb == spec_dot_to(b@, b@, i as int),
            -(i as int) * 100000000000000 <= dot <= (i as int) * 100000000000000,
            0 <= na <= (i as int) * 100000000000000,
            0 <= nb <= (i as int) * 100000000000000,
        decreases n - i,
    {
        let x = a[i];
        let y = b[i];
        proof {
            lemma_self_dot_nonneg(a@, i + 1);
            lemma_self_dot_nonneg(b@, i + 1);
            assert(-MAX_COMPONENT <= x <= MAX_COMPONENT && -MAX_COMPONENT <= y <= MAX_COMPONENT);
            assert(-100000000000000 <= (x as int) * (y as int) <= 100000000000000 && 0 <= (
            x as int) * (x as int) <= 100000000000000 && 0 <= (y as int) * (y as int)
                <= 100000000000000) by (nonlinear_arith)
                requires
                    -10000000 <= x as int <= 10000000,
                    -10000000 <= y as int <= 10000000,
            ;
        }
        dot = dot + (x as i128) * (y as i128);
        na = na + (x as i128) * (x as i128);
        nb = nb + (y as i128) * (y as i128);
        i = i + 1;
    }
    if na == 0 || nb == 0 {
        return 0;
    }
    proof {
        // Both squared magnitudes fit well under the square-root bound.
        assert(0 < na * nb < 0x40000000000000000000000000000000i128) by (nonlinear_arith)
            requires
                0 < na <= 6553600000000000000i128,
                0 < nb <= 6553600000000000000i128,
        ;
    }
    let product = na * nb;
    let den = isqrt(product);
    proof {
        assert(den >= 1) by (nonlinear_arith)
            requires
                0 <= den,
                den * den <= product < (den + 1) * (den + 1),
                product >= 1,
        ;
        // Cauchy-Schwarz bounds the dot product by the root of the
        // product of the squared magnitudes, so the score stays within
        // one `SCALE` of zero.
        lemma_cauchy_schwarz(a@, b@, n as int);
        assert(-den <= dot <= den) by (nonlinear_arith)
            requires
                dot * dot <= product,
                den * den <= product < (den + 1) * (den + 1),
                den >= 0,
        ;
    }
    let scaled = dot * 1000000i128;
    if scaled >= 0 {
        let q = scaled / den;
        proof {
            vstd::arithmetic::div_mod::lemma_div_pos_is_pos(scaled as int, den as int);
            vstd::arithmetic::div_mod::lemma_div_is_ordered(
                scaled as int,
                den as int * 1000000,
                den as int,
            );
            vstd::arithmetic::div_mod::lemma_div_multiples_vanish(1000000, den as int);
        }
        q
    } else {
        let q = (-scaled) / den;
        proof {
            vstd::arithmetic::div_mod::lemma_div_pos_is_pos(-scaled as int, den as int);
            vstd::arithmetic::div_mod::lemma_div_is_ordered(
                -scaled as int,
                den as int * 1000000,
                den as int,
            );
            vstd::arithmetic::div_mod::lemma_div_multiples_vanish(1000000, den as int);
        }
        -q
    }
}

/// A document fits a store of dimension `dim`.
pub open spec fn spec_valid_doc(d: Document, dim: int) -> bool {
    d.embedding@.len() == dim && spec_bounded(d.embedding@)
}

/// The ids of a document sequence, in order.
pub open spec fn spec_ids(docs: Seq<Document>) -> Seq<Seq<char>> {
    docs.map_values(|d: Document| d.id@)
}

/// No two documents share an id.
pub open spec fn spec_ids_unique(docs: Seq<Document>) -> bool {
    forall|i: int, j: int|
        0 <= i < j < docs.len() ==> (#[trigger] docs[i]).id@ != (#[trigger] docs[j]).id@
}

/// Some document holds this id.
pub open spec fn spec_has_id(docs: Seq<Document>, id: Seq<char>) -> bool {
    exists|i: int| 0 <= i < docs.len() && (#[trigger] docs[i]).id@ == id
}

/// The index of the first document with this id, or -1.
pub open spec fn spec_find(docs: Seq<Document>, id: Seq<char>) -> int
    decreases docs.len(),
{
    if docs.len() == 0 {
        -1
    } else if docs[0].id@ == id {
        0
    } else {
        let r = spec_find(docs.drop_first(), id);
        if r == -1 {
            -1
        } else {
            r + 1
        }
    }
}

pub proof fn lemma_find_props(docs: Seq<Document>, id: Seq<char>)
    ensures
        spec_find(docs, id) == -1 ==> !spec_has_id(docs, id),
        spec_find(docs, id) != -1 ==> {
            &&& 0 <= spec_find(docs, id) < docs.len()
            &&& docs[spec_find(docs, id)].id@ == id
        },
    decreases docs.len(),
{
    if docs.len() > 0 && docs[0].id@ != id {
        lemma_find_props(docs.drop_first(), id);
        if spec_find(docs, id) == -1 {
            assert forall|i: int| 0 <= i < docs.len() implies (#[trigger] docs[i]).id@ != id by {
                if i > 0 {
                    assert(docs.drop_first()[i - 1] == docs[i]);
                    assert(!spec_has_id(docs.drop_first(), id));
                }
            }
        }
    }
}

/// Insert one document, replacing the document with the same id if one is
/// already present.
pub open spec fn spec_upsert_one(docs: Seq<Document>, d: Document) -> Seq<Document> {
    let f = spec_find(docs, d.id@);
    if f >= 0 {
        docs.update(f, d)
    } else {
        docs.push(d)
    }
}

/// Insert a batch of documents in order, each by upsert.
pub open spec fn spec_upsert(docs: Seq<Document>, batch: Seq<Document>) -> Seq<Document>
    decreases batch.len(),
{
    if batch.len() == 0 {
        docs
    } else {
        spec_upsert(spec_upsert_one(docs, batch[0]), batch.drop_first())
    }
}

/// Upserting a batch extended by one more document is upserting the batch
/// and then that document.
pub proof fn lemma_upsert_push(docs: Seq<Document>, batch: Seq<Document>, d: Document)
    ensures
        spec_upsert(docs, batch.push(d)) == spec_upsert_one(spec_upsert(docs, batch), d),
    decreases batch.len(),
{
    if batch.len() == 0 {
        assert(batch.push(d)[0] == d);
        assert(batch.push(d).drop_first() =~= Seq::<Document>::empty());
        assert(spec_upsert(docs, batch.push(d)) == spec_upsert(
            spec_upsert_one(docs, d),
            Seq::<Document>::empty(),
        ));
        assert(spec_upsert(spec_upsert_one(docs, d), Seq::<Document>::empty()) == spec_upsert_one(
            docs,
            d,
        ));
        assert(spec_upsert(docs, batch) == docs);
    } else {
        assert(batch.push(d)[0] == batch[0]);
        assert(batch.push(d).drop_first() =~= batch.drop_first().push(d));
        assert(spec_upsert(docs, batch.push(d)) == spec_upsert(
            spec_upsert_one(docs, batch[0]),
            batch.drop_first().push(d),
        ));
        lemma_upsert_push(spec_upsert_one(docs, batch[0]), batch.drop_first(), d);
        assert(spec_upsert(docs, batch) == spec_upsert(
            spec_upsert_one(docs, batch[0]),
            batch.drop_first(),
        ));
    }
}

/// One upsert of a valid document keeps the store well formed; its id list
/// gains the new id exactly when it was absent.
pub proof fn lemma_upsert_one_wf(docs: Seq<Document>, d: Document, dim: int)
    requires
        forall|i: int| 0 <= i < docs.len() ==> spec_valid_doc(#[trigger] docs[i], dim),
        spec_ids_unique(docs),
        spec_valid_doc(d, dim),
    ensures
        forall|i: int|
            0 <= i < spec_upsert_one(docs, d).len() ==> spec_valid_doc(
                #[trigger] spec_upsert_one(docs, d)[i],
                dim,
            ),
        spec_ids_unique(spec_upsert_one(docs, d)),
        spec_has_id(docs, d.id@) ==> spec_ids(spec_upsert_one(docs, d)) == spec_ids(docs),
        !spec_has_id(docs, d.id@) ==> spec_ids(spec_upsert_one(docs, d)) == spec_ids(docs).push(
            d.id@,
        ),
        spec_has_id(docs, d.id@) ==> spec_upsert_one(docs, d).len() == docs.len(),
        !spec_has_id(docs, d.id@) ==> spec_upsert_one(docs, d).len() == docs.len() + 1,
{
    lemma_find_props(docs, d.id@);
    let f = spec_find(docs, d.id@);
    if f >= 0 {
        assert(spec_has_id(docs, d.id@));
        assert(spec_ids(spec_upsert_one(docs, d)) =~= spec_ids(docs));
        assert forall|i: int, j: int|
            0 <= i < j < spec_upsert_one(docs, d).len() implies (#[trigger] spec_upsert_one(
            docs,
            d,
        )[i]).id@ != (#[trigger] spec_upsert_one(docs, d)[j]).id@ by {
            assert(docs[i].id@ != docs[j].id@);
        }
    } else {
        assert(!spec_has_id(docs, d.id@));
        assert(spec_ids(spec_upsert_one(docs, d)) =~= spec_ids(docs).push(d.id@));
        assert forall|i: int, j: int|
            0 <= i < j < spec_upsert_one(docs, d).len() implies (#[trigger] spec_upsert_one(
            docs,
            d,
        )[i]).id@ != (#[trigger] spec_upsert_one(docs, d)[j]).id@ by {
            if j < docs.len() {
                assert(docs[i].id@ != docs[j].id@);
            } else {
                assert(spec_upsert_one(docs, d)[j] == d);
                assert(!spec_has_id(docs, d.id@));
                assert(docs[i].id@ != d.id@);
            }
        }
    }
}

/// Upserting two batches in turn is upserting their concatenation.
pub proof fn lemma_upsert_concat(docs: Seq<Document>, b1: Seq<Document>, b2: Seq<Document>)
    ensures
        spec_upsert(spec_upsert(docs, b1), b2) == spec_upsert(docs, b1 + b2),
    decreases b1.len(),
{
    if b1.len() == 0 {
        assert(b1 + b2 =~= b2);
    } else {
        assert((b1 + b2)[0] == b1[0]);
        assert((b1 + b2).drop_first() =~= b1.drop_first() + b2);
        lemma_upsert_concat(spec_upsert_one(docs, b1[0]), b1.drop_first(), b2);
    }
}

/// Upserting documents whose ids are all already present does not change
/// how many documents the store holds: the heart of idempotent re-indexing.
pub proof fn lemma_upsert_same_ids_count(docs: Seq<Document>, batch: Seq<Document>, dim: int)
    requires
        forall|i: int| 0 <= i < docs.len() ==> spec_valid_doc(#[trigger] docs[i], dim),
        spec_ids_unique(docs),
        forall|i: int| 0 <= i < batch.len() ==> spec_valid_doc(#[trigger] batch[i], dim),
        forall|i: int| 0 <= i < batch.len() ==> spec_has_id(docs, (#[trigger] batch[i]).id@),
    ensures
        spec_upsert(docs, batch).len() == docs.len(),
    decreases batch.len(),
{
    if batch.len() > 0 {
        let d = batch[0];
        lemma_upsert_one_wf(docs, d, dim);
        let docs1 = spec_upsert_one(docs, d);
        assert(spec_ids(docs1) == spec_ids(docs));
        assert forall|i: int| 0 <= i < batch.drop_first().len() implies spec_has_id(
            docs1,
            (#[trigger] batch.drop_first()[i]).id@,
        ) by {
            assert(batch.drop_first()[i] == batch[i + 1]);
            let id = batch[i + 1].id@;
            let w = choose|w: int| 0 <= w < docs.len() && (#[trigger] docs[w]).id@ == id;
            assert(spec_ids(docs)[w] == id);
            assert(spec_ids(docs1)[w] == id);
            assert(docs1[w].id@ == id);
        }
        lemma_upsert_same_ids_count(docs1, batch.drop_first(), dim);
    }
}

/// Dimension invariant: in a well-formed store — which every mutation
/// preserves — each stored document's embedding has exactly the store's
/// configured dimension.
pub proof fn lemma_dimension_invariant(s: VectorStore)
    requires
        s.wf(),
    ensures
        forall|i: int|
            0 <= i < s.docs@.len() ==> (#[trigger] s.docs@[i]).embedding@.len() == s.dim,
{
}

/// Equal id sequences mean the same ids are present.
pub proof fn lemma_has_id_from_ids(docs1: Seq<Document>, docs2: Seq<Document>, id: Seq<char>)
    requires
        spec_ids(docs1) == spec_ids(docs2),
        spec_has_id(docs1, id),
    ensures
        spec_has_id(docs2, id),
{
    let w = choose|w: int| 0 <= w < docs1.len() && (#[trigger] docs1[w]).id@ == id;
    assert(docs2.len() == docs1.len()) by {
        assert(spec_ids(docs1).len() == docs1.len());
        assert(spec_ids(docs2).len() == docs2.len());
    }
    assert(spec_ids(docs1)[w] == id);
    assert(spec_ids(docs2)[w] == id);
    assert(docs2[w].id@ == id);
}

/// A whole batch upsert keeps the store well formed.
pub proof fn lemma_upsert_wf(docs: Seq<Document>, batch: Seq<Document>, dim: int)
    requires
        forall|i: int| 0 <= i < docs.len() ==> spec_valid_doc(#[trigger] docs[i], dim),
        spec_ids_unique(docs),
        forall|i: int| 0 <= i < batch.len() ==> spec_valid_doc(#[trigger] batch[i], dim),
    ensures
        forall|i: int|
            0 <= i < spec_upsert(docs, batch).len() ==> spec_valid_doc(
                #[trigger] spec_upsert(docs, batch)[i],
                dim,
            ),
        spec_ids_unique(spec_upsert(docs, batch)),
    decreases batch.len(),
{
    if batch.len() > 0 {
        lemma_upsert_one_wf(docs, batch[0], dim);
        assert forall|i: int| 0 <= i < batch.drop_first().len() implies spec_valid_doc(
            #[trigger] batch.drop_first()[i],
            dim,
        ) by {
            assert(batch.drop_first()[i] == batch[i + 1]);
        }
        lemma_upsert_wf(spec_upsert_one(docs, batch[0]), batch.drop_first(), dim);
    }
}

/// After a batch upsert, every id of the batch is present, and every id
/// that was present stays present.
pub proof fn lemma_upsert_has_all(docs: Seq<Document>, batch: Seq<Document>)
    ensures
        forall|k: int|
            0 <= k < batch.len() ==> spec_has_id(
                spec_upsert(docs, batch),
                (#[trigger] batch[k]).id@,
            ),
        forall|id: Seq<char>|
            #[trigger] spec_has_id(docs, id) ==> spec_has_id(spec_upsert(docs, batch), id),
    decreases batch.len(),
{
    if batch.len() > 0 {
        let d = batch[0];
        let docs1 = spec_upsert_one(docs, d);
        lemma_find_props(docs, d.id@);
        let f = spec_find(docs, d.id@);
        // One upsert keeps every present id and makes the new id present.
        assert forall|id: Seq<char>| #[trigger] spec_has_id(docs, id) implies spec_has_id(
            docs1,
            id,
        ) by {
            let w = choose|w: int| 0 <= w < docs.len() && (#[trigger] docs[w]).id@ == id;
            if f >= 0 && w == f {
                assert(docs1[f].id@ == d.id@);
                assert(docs[f].id@ == d.id@);
                assert(docs1[f].id@ == id);
            } else {
                assert(docs1[w].id@ == id);
            }
        }
        assert(spec_has_id(docs1, d.id@)) by {
            if f >= 0 {
                assert(docs1[f].id@ == d.id@);
            } else {
                assert(docs1[docs.len() as int].id@ == d.id@);
            }
        }
        lemma_upsert_has_all(docs1, batch.drop_first());
        assert forall|k: int| 0 <= k < batch.len() implies spec_has_id(
            spec_upsert(docs, batch),
            (#[trigger] batch[k]).id@,
        ) by {
            if k == 0 {
                assert(spec_has_id(docs1, d.id@));
            } else {
                assert(batch.drop_first()[k - 1] == batch[k]);
            }
        }
    }
}

/// Upsert idempotence for re-indexing: inserting a second batch whose ids
/// are exactly the first batch's leaves the document count unchanged.
pub proof fn lemma_index_twice_count(
    docs: Seq<Document>,
    batch1: Seq<Document>,
    batch2: Seq<Document>,
    dim: int,
)
    requires
        forall|i: int| 0 <= i < docs.len() ==> spec_valid_doc(#[trigger] docs[i], dim),
        spec_ids_unique(docs),
        forall|i: int| 0 <= i < batch1.len() ==> spec_valid_doc(#[trigger] batch1[i], dim),
        forall|i: int| 0 <= i < batch2.len() ==> spec_valid_doc(#[trigger] batch2[i], dim),
        spec_ids(batch2) == spec_ids(batch1),
    ensures
        spec_upsert(spec_upsert(docs, batch1), batch2).len() == spec_upsert(docs, batch1).len(),
{
    let docs1 = spec_upsert(docs, batch1);
    lemma_upsert_wf(docs, batch1, dim);
    lemma_upsert_has_all(docs, batch1);
    assert(batch1.len() == batch2.len()) by {
        assert(spec_ids(batch1).len() == batch1.len());
        assert(spec_ids(batch2).len() == batch2.len());
    }
    assert forall|i: int| 0 <= i < batch2.len() implies spec_has_id(
        docs1,
        (#[trigger] batch2[i]).id@,
    ) by {
        assert(spec_ids(batch2)[i] == batch2[i].id@);
        assert(spec_ids(batch1)[i] == batch1[i].id@);
        assert(spec_has_id(docs1, batch1[i].id@));
    }
    lemma_upsert_same_ids_count(docs1, batch2, dim);
}

/// Document `i` ranks ahead of document `j` for a query: a higher score,
/// or an equal score and an earlier insertion.
pub open spec fn spec_rank_before(docs: Seq<Document>, q: Seq<i64>, i: int, j: int) -> bool {
    let si = spec_cosine(docs[i].embedding@, q);
    let sj = spec_cosine(docs[j].embedding@, q);
    si > sj || (si == sj && i < j)
}

/// What a search result list must be: distinct store indices, each result
/// an exact copy of its document with its exact score, ordered by rank,
/// and no unselected document ranking ahead of a selected one.
pub open spec fn spec_search_witness(
    docs: Seq<Document>,
    q: Seq<i64>,
    r: Seq<SearchResult>,
    ix: Seq<int>,
) -> bool {
    &&& ix.len() == r.len()
    &&& forall|k: int| 0 <= k < ix.len() ==> 0 <= #[trigger] ix[k] < docs.len()
    &&& forall|k1: int, k2: int| 0 <= k1 < k2 < ix.len() ==> ix[k1] != ix[k2]
    &&& forall|k: int|
        0 <= k < r.len() ==> spec_result_doc((#[trigger] r[k]).document, docs[ix[k]])
    &&& forall|k: int|
        0 <= k < r.len() ==> (#[trigger] r[k]).score == spec_cosine(docs[ix[k]].embedding@, q)
    &&& forall|k1: int, k2: int|
        0 <= k1 < k2 < ix.len() ==> spec_rank_before(docs, q, ix[k1], ix[k2])
    &&& forall|j: int, k: int|
        0 <= j < docs.len() && !(#[trigger] ix.contains(j)) && 0 <= k < ix.len()
            ==> spec_rank_before(docs, q, #[trigger] ix[k], j)
}

/// The embedded vector store: documents with fixed-point embeddings of one
/// common dimension, searched by cosine similarity.
#[derive(Debug)]
pub struct VectorStore {
    pub docs: Vec<Document>,
    pub dim: usize,
    pub top_k: usize,
}

impl VectorStore {
    /// Every stored document fits the dimension and the fixed-point
    /// domain, and ids are unique.
    pub open spec fn wf(&self) -> bool {
        &&& self.dim <= MAX_DIM
        &&& forall|i: int|
            0 <= i < self.docs@.len() ==> spec_valid_doc(#[trigger] self.docs@[i], self.dim as int)
        &&& spec_ids_unique(self.docs@)
    }

    /// An empty store for embeddings of the given dimension, returning
    /// `top_k` results per search.
    pub fn new(dim: usize, top_k: usize) -> (r: VectorStore)
        requires
            dim <= MAX_DIM,
        ensures
            r.wf(),
            r.docs@.len() == 0,
            r.dim == dim,
            r.top_k == top_k,
    {
        VectorStore { docs: Vec::new(), dim, top_k }
    }

    /// How many documents (chunks) the store holds.
    pub fn count(&self) -> (r: usize)
        ensures
            r == self.docs@.len(),
    {
        self.docs.len()
    }

    /// Remove every document.
    pub fn clear(&mut self)
        requires
            old(self).wf(),
        ensures
            final(self).docs@.len() == 0,
            final(self).dim == old(self).dim,
            final(self).top_k == old(self).top_k,
            final(self).wf(),
    {
        self.docs.clear();
    }

    /// Insert a batch of documents. Each document replaces any present
    /// document with the same id; a document whose embedding does not fit
    /// the store refuses the whole batch and changes nothing.
    pub fn add(&mut self, documents: Vec<Document>) -> (r: Result<(), StoreError>)
        requires
            old(self).wf(),
        ensures
            final(self).wf(),
            final(self).dim == old(self).dim,
            final(self).top_k == old(self).top_k,
            match r {
                Ok(()) => {
                    &&& forall|i: int|
                        0 <= i < documents@.len() ==> spec_valid_doc(
                            #[trigger] documents@[i],
                            old(self).dim as int,
                        )
                    &&& final(self).docs@ == spec_upsert(old(self).docs@, documents@)
                },
                Err(StoreError::DimensionMismatch { index }) => {
                    &&& final(self).docs@ == old(self).docs@
                    &&& index < documents@.len()
                    &&& documents@[index as int].embedding@.len() != old(self).dim
                },
                Err(StoreError::EmbeddingOutOfRange { index }) => {
                    &&& final(self).docs@ == old(self).docs@
                    &&& index < documents@.len()
                    &&& !spec_bounded(documents@[index as int].embedding@)
                },
            },
    {
        let n = documents.len();
        // Validate the whole batch first: a refused batch changes nothing.
        let mut i: usize = 0;
        while i < n
            invariant
                n == documents@.len(),
                0 <= i <= n,
                old(self).wf(),
                forall|k: int|
                    0 <= k < i ==> spec_valid_doc(#[trigger] documents@[k], old(self).dim as int),
                self == old(self),
            decreases n - i,
        {
            let e = &documents[i].embedding;
            if e.len() != self.dim {
                return Err(StoreError::DimensionMismatch { index: i });
            }
            let m = e.len();
            let mut j: usize = 0;
            while j < m
                invariant
                    self == old(self),
                    old(self).wf(),
                    n == documents@.len(),
                    0 <= i < n,
                    e@ == documents@[i as int].embedding@,
                    m == e@.len(),
                    m == old(self).dim,
                    0 <= j <= m,
                    forall|k: int|
                        0 <= k < j ==> -MAX_COMPONENT <= #[trigger] e@[k] <= MAX_COMPONENT,
                decreases m - j,
            {
                let x = e[j];
                if x < -MAX_COMPONENT || x > MAX_COMPONENT {
                    assert(!spec_bounded(documents@[i as int].embedding@));
                    return Err(StoreError::EmbeddingOutOfRange { index: i });
                }
                j = j + 1;
            }
            assert(spec_valid_doc(documents@[i as int], self.dim as int));
            i = i + 1;
        }
        // Upsert each document in order.
        let mut batch = documents;
        let ghost all = batch@;
        let ghost orig = self.docs@;
        let mut t: usize = 0;
        while batch.len() > 0
            invariant
                all.len() == n,
                0 <= t <= all.len(),
                batch@ == all.skip(t as int),
                forall|k: int|
                    0 <= k < all.len() ==> spec_valid_doc(#[trigger] all[k], old(self).dim as int),
                self.dim == old(self).dim,
                self.top_k == old(self).top_k,
                self.wf(),
                self.docs@ == spec_upsert(orig, all.take(t as int)),
            decreases batch@.len(),
        {
            assert(t < all.len()) by {
                assert(all.skip(t as int).len() == all.len() - t);
            }
            let ghost docs_before = self.docs@;
            let d = batch.remove(0);
            assert(d == all[t as int]) by {
                assert(all.skip(t as int)[0] == all[t as int]);
            }
            proof {
                assert(batch@ =~= all.skip(t + 1));
            }
            let m = self.docs.len();
            let mut j: usize = 0;
            let mut found: bool = false;
            while j < m && !found
                invariant
                    m == self.docs@.len(),
                    0 <= j <= m,
                    d.id@ == all[t as int].id@,
                    !found ==> forall|p: int|
                        0 <= p < j ==> (#[trigger] self.docs@[p]).id@ != d.id@,
                    found ==> j < m && self.docs@[j as int].id@ == d.id@,
                decreases m - j + (if found {
                    0int
                } else {
                    1int
                }),
            {
                if strutil::str_eq(self.docs[j].id.as_str(), d.id.as_str()) {
                    found = true;
                } else {
                    j = j + 1;
                }
            }
            proof {
                lemma_find_at(self.docs@, d.id@, j as int, found);
                lemma_upsert_one_wf(self.docs@, d, self.dim as int);
            }
            if found {
                self.docs.set(j, d);
            } else {
                self.docs.push(d);
            }
            proof {
                assert(self.docs@ == spec_upsert_one(docs_before, d));
                lemma_upsert_push(orig, all.take(t as int), all[t as int]);
                assert(all.take(t + 1) =~= all.take(t as int).push(all[t as int]));
            }
            t = t + 1;
        }
        proof {
            assert(all.skip(t as int).len() == 0);
            assert(all.take(t as int) =~= all);
        }
        Ok(())
    }
}

/// Index `i` beats index `j` under these scores: a higher score, or an
/// equal score at an earlier index.
pub open spec fn spec_beats(scores: Seq<i128>, i: int, j: int) -> bool {
    scores[i] > scores[j] || (scores[i] == scores[j] && i < j)
}

impl VectorStore {
    /// Search for the documents most similar to the query embedding.
    ///
    /// Returns `top_k` results (all documents when fewer are stored) in
    /// descending score order, ties broken by insertion order, and no
    /// unreturned document ranks ahead of a returned one.
    pub fn search(&self, q: &Vec<i64>) -> (r: Vec<SearchResult>)
        requires
            self.wf(),
            spec_bounded(q@),
        ensures
            r@.len() == if self.top_k <= self.docs@.len() {
                self.top_k as int
            } else {
                self.docs@.len() as int
            },
            exists|ix: Seq<int>| spec_search_witness(self.docs@, q@, r@, ix),
    {
        let n = self.docs.len();
        let mut scores: Vec<i128> = Vec::new();
        let mut i: usize = 0;
        while i < n
            invariant
                self.wf(),
                spec_bounded(q@),
                n == self.docs@.len(),
                0 <= i <= n,
                scores@.len() == i,
                forall|k: int|
                    0 <= k < i ==> scores@[k] == spec_cosine(
                        (#[trigger] self.docs@[k]).embedding@,
                        q@,
                    ),
            decreases n - i,
        {
            let s = cosine_similarity(&self.docs[i].embedding, q);
            scores.push(s);
            i = i + 1;
        }
        // Order all indices by rank: descending score, ties by index.
        let mut order: Vec<usize> = Vec::new();
        let mut t: usize = 0;
        while t < n
            invariant
                n == self.docs@.len(),
                scores@.len() == n,
                0 <= t <= n,
                order@.len() == t,
                forall|k: int| 0 <= k < t ==> 0 <= #[trigger] order@[k] < t,
                forall|k1: int, k2: int| 0 <= k1 < k2 < t ==> order@[k1] != order@[k2],
                forall|v: int| 0 <= v < t ==> #[trigger] order@.contains(v as usize),
                forall|k1: int, k2: int|
                    0 <= k1 < k2 < t ==> spec_beats(
                        scores@,
                        order@[k1] as int,
                        order@[k2] as int,
                    ),
            decreases n - t,
        {
            let m = order.len();
            let mut pos: usize = 0;
            while pos < m && (scores[order[pos]] > scores[t] || (scores[order[pos]] == scores[t]
                && order[pos] < t))
                invariant
                    n == self.docs@.len(),
                    scores@.len() == n,
                    t < n,
                    m == order@.len(),
                    m == t,
                    forall|k: int| 0 <= k < t ==> 0 <= #[trigger] order@[k] < t,
                    0 <= pos <= m,
                    forall|p: int|
                        0 <= p < pos ==> spec_beats(scores@, #[trigger] order@[p] as int, t as int),
                decreases m - pos,
            {
                pos = pos + 1;
            }
            let ghost before = order@;
            order.insert(pos, t);
            proof {
                assert(order@ == before.insert(pos as int, t));
                before.insert_ensures(pos as int, t);
                // The inserted index ranks behind everything before `pos`
                // and ahead of everything at or after it.
                if pos < m {
                    assert(!spec_beats(scores@, before[pos as int] as int, t as int));
                    assert(before[pos as int] != t);
                }
                assert forall|k1: int, k2: int| 0 <= k1 < k2 < t + 1 implies spec_beats(
                    scores@,
                    order@[k1] as int,
                    order@[k2] as int,
                ) by {
                    if k2 < pos {
                    } else if k1 < pos && k2 == pos {
                        assert(order@[k2] == t);
                        assert(spec_beats(scores@, before[k1] as int, t as int));
                    } else if k1 < pos && k2 > pos {
                        assert(order@[k2] == before[k2 - 1]);
                    } else if k1 == pos {
                        assert(order@[k1] == t);
                        assert(order@[k2] == before[k2 - 1]);
                        assert(k2 - 1 >= pos);
                        if k2 - 1 > pos {
                            assert(spec_beats(scores@, before[pos as int] as int, before[k2
                                - 1] as int));
                        }
                    } else {
                        assert(order@[k1] == before[k1 - 1]);
                        assert(order@[k2] == before[k2 - 1]);
                    }
                }
                assert forall|v: int| 0 <= v < t + 1 implies #[trigger] order@.contains(
                    v as usize,
                ) by {
                    if v == t {
                        assert(order@[pos as int] == t);
                    } else {
                        assert(before.contains(v as usize));
                        let w = choose|w: int| 0 <= w < before.len() && before[w] == v as usize;
                        assert(0 <= w < before.len() && before[w] == v as usize);
                        if w < pos {
                            assert(order@[w] == v as usize);
                        } else {
                            assert(order@[w + 1] == v as usize);
                        }
                    }
                }
                assert forall|k1: int, k2: int| 0 <= k1 < k2 < t + 1 implies order@[k1]
                    != order@[k2] by {
                    if k1 != pos && k2 != pos {
                        let b1: int = if k1 < pos {
                            k1
                        } else {
                            k1 - 1
                        };
                        let b2: int = if k2 < pos {
                            k2
                        } else {
                            k2 - 1
                        };
                        assert(order@[k1] == before[b1]);
                        assert(order@[k2] == before[b2]);
                    }
                }
            }
            t = t + 1;
        }
        // Keep the best `top_k`.
        let k = if self.top_k < n {
            self.top_k
        } else {
            n
        };
        let mut out: Vec<SearchResult> = Vec::new();
        let mut j: usize = 0;
        while j < k
            invariant
                self.wf(),
                n == self.docs@.len(),
                scores@.len() == n,
                k <= n,
                order@.len() == n,
                forall|p: int| 0 <= p < n ==> 0 <= #[trigger] order@[p] < n,
                forall|kk: int|
                    0 <= kk < n ==> scores@[kk] == spec_cosine(
                        (#[trigger] self.docs@[kk]).embedding@,
                        q@,
                    ),
                0 <= j <= k,
                out@.len() == j,
                forall|p: int|
                    0 <= p < j ==> spec_result_doc(
                        (#[trigger] out@[p]).document,
                        self.docs@[order@[p] as int],
                    ) && out@[p].score == scores@[order@[p] as int],
            decreases k - j,
        {
            let idx = order[j];
            let d = self.docs[idx].without_embedding();
            out.push(SearchResult { document: d, score: scores[idx] });
            j = j + 1;
        }
        proof {
            let docs = self.docs@;
            let ix = Seq::new(k as nat, |p: int| order@[p] as int);
            assert forall|jj: int, kk: int|
                0 <= jj < docs.len() && !(#[trigger] ix.contains(jj)) && 0 <= kk < ix.len()
                    implies spec_rank_before(docs, q@, #[trigger] ix[kk], jj) by {
                assert(order@.contains(jj as usize));
                let p = choose|p: int| 0 <= p < order@.len() && order@[p] == jj as usize;
                assert(p >= k) by {
                    if p < k {
                        assert(ix[p] == jj);
                    }
                }
                assert(spec_beats(scores@, order@[kk] as int, order@[p] as int));
            }
            assert(ix.len() == out@.len());
            assert(forall|kk: int| 0 <= kk < ix.len() ==> 0 <= #[trigger] ix[kk] < docs.len());
            assert(forall|k1: int, k2: int| 0 <= k1 < k2 < ix.len() ==> ix[k1] != ix[k2]);
            assert forall|kk: int| 0 <= kk < out@.len() implies spec_result_doc(
                (#[trigger] out@[kk]).document,
                docs[ix[kk]],
            ) && out@[kk].score == spec_cosine(docs[ix[kk]].embedding@, q@) by {
                assert(ix[kk] == order@[kk] as int);
                assert(scores@[order@[kk] as int] == spec_cosine(
                    docs[order@[kk] as int].embedding@,
                    q@,
                ));
            }
            assert forall|k1: int, k2: int| 0 <= k1 < k2 < ix.len() implies spec_rank_before(
                docs,
                q@,
                ix[k1],
                ix[k2],
            ) by {
                assert(spec_beats(scores@, order@[k1] as int, order@[k2] as int));
                assert(scores@[order@[k1] as int] == spec_cosine(
                    docs[order@[k1] as int].embedding@,
                    q@,
                ));
                assert(scores@[order@[k2] as int] == spec_cosine(
                    docs[order@[k2] as int].embedding@,
                    q@,
                ));
            }
            assert(spec_search_witness(docs, q@, out@, ix));
        }
        out
    }
}

/// Path separators normalized: a backslash becomes a slash.
pub open spec fn spec_norm_byte(b: u8) -> u8 {
    if b == 0x5c {
        0x2f
    } else {
        b
    }
}

/// A byte sequence with all separators normalized.
pub open spec fn spec_norm(b: Seq<u8>) -> Seq<u8> {
    b.map_values(|x: u8| spec_norm_byte(x))
}

/// After normalization the source equals the path, or lies under it as a
/// directory (the path followed by a slash is a prefix of the source).
pub open spec fn spec_path_matches(source: Seq<u8>, path: Seq<u8>) -> bool {
    let ns = spec_norm(source);
    let np = spec_norm(path);
    ns == np || (ns.len() > np.len() && ns.subrange(0, np.len() as int) == np && ns[np.len() as int]
        == 0x2f)
}

/// The document's `source` metadata matches the path.
pub open spec fn spec_doc_matches(d: Document, path: Seq<u8>) -> bool {
    match spec_doc_source(d) {
        Some(s) => spec_path_matches(encode_utf8(s), path),
        None => false,
    }
}

/// Whether a source path equals the given path or lies under it, with
/// separators normalized on both sides.
pub fn source_matches(source: &str, path: &str) -> (r: bool)
    ensures
        r == spec_path_matches(source.spec_bytes(), path.spec_bytes()),
{
    let sb = source.as_bytes();
    let pb = path.as_bytes();
    let sn = sb.len();
    let pn = pb.len();
    let ghost nss = spec_norm(sb@);
    let ghost nps = spec_norm(pb@);
    if sn < pn {
        return false;
    }
    // Compare the first `pn` bytes under normalization.
    let mut i: usize = 0;
    while i < pn
        invariant
            sb@ == source.spec_bytes(),
            pb@ == path.spec_bytes(),
            sn == sb@.len(),
            pn == pb@.len(),
            pn <= sn,
            nss == spec_norm(sb@),
            nps == spec_norm(pb@),
            0 <= i <= pn,
            forall|k: int| 0 <= k < i ==> nss[k] == nps[k],
        decreases pn - i,
    {
        let x = sb[i];
        let y = pb[i];
        let xn: u8 = if x == 0x5c {
            0x2f
        } else {
            x
        };
        let yn: u8 = if y == 0x5c {
            0x2f
        } else {
            y
        };
        if xn != yn {
            assert(nss[i as int] != nps[i as int]);
            assert(!spec_path_matches(sb@, pb@)) by {
                if nss == nps {
                    assert(nss[i as int] == nps[i as int]);
                }
                if nss.len() > nps.len() && nss.subrange(0, nps.len() as int) == nps {
                    assert(nss.subrange(0, nps.len() as int)[i as int] == nss[i as int]);
                }
            }
            return false;
        }
        i = i + 1;
    }
    if sn == pn {
        assert(nss =~= nps);
        return true;
    }
    let b = sb[pn];
    let bn: u8 = if b == 0x5c {
        0x2f
    } else {
        b
    };
    proof {
        assert(nss.len() > nps.len());
        assert(nss.subrange(0, pn as int) =~= nps);
        assert(nss[pn as int] == spec_norm_byte(sb@[pn as int]));
    }
    if bn == 0x2f {
        true
    } else {
        assert(nss != nps) by {
            assert(nss.len() != nps.len());
        }
        false
    }
}

/// The documents that survive removing a source path, in their original
/// order: exactly those whose source does not match.
pub open spec fn spec_keep(docs: Seq<Document>, path: Seq<u8>) -> Seq<Document>
    decreases docs.len(),
{
    if docs.len() == 0 {
        Seq::empty()
    } else {
        let rest = spec_keep(docs.drop_last(), path);
        if spec_doc_matches(docs.last(), path) {
            rest
        } else {
            rest.push(docs.last())
        }
    }
}

/// Every kept document is one of the original documents.
pub proof fn lemma_keep_contains(docs: Seq<Document>, path: Seq<u8>)
    ensures
        spec_keep(docs, path).len() <= docs.len(),
        forall|k: int|
            0 <= k < spec_keep(docs, path).len() ==> docs.contains(
                #[trigger] spec_keep(docs, path)[k],
            ),
    decreases docs.len(),
{
    if docs.len() > 0 {
        lemma_keep_contains(docs.drop_last(), path);
        assert forall|k: int| 0 <= k < spec_keep(docs, path).len() implies docs.contains(
            #[trigger] spec_keep(docs, path)[k],
        ) by {
            let rest = spec_keep(docs.drop_last(), path);
            if k < rest.len() {
                assert(docs.drop_last().contains(rest[k]));
                let w = choose|w: int|
                    0 <= w < docs.drop_last().len() && docs.drop_last()[w] == rest[k];
                assert(docs[w] == rest[k]);
            } else {
                assert(spec_keep(docs, path)[k] == docs.last());
                assert(docs[docs.len() - 1] == docs.last());
            }
        }
    }
}

/// Filtering keeps the store well formed.
pub proof fn lemma_keep_wf(docs: Seq<Document>, path: Seq<u8>, dim: int)
    requires
        forall|i: int| 0 <= i < docs.len() ==> spec_valid_doc(#[trigger] docs[i], dim),
        spec_ids_unique(docs),
    ensures
        forall|i: int|
            0 <= i < spec_keep(docs, path).len() ==> spec_valid_doc(
                #[trigger] spec_keep(docs, path)[i],
                dim,
            ),
        spec_ids_unique(spec_keep(docs, path)),
    decreases docs.len(),
{
    lemma_keep_contains(docs, path);
    if docs.len() > 0 {
        lemma_keep_wf(docs.drop_last(), path, dim);
        lemma_keep_contains(docs.drop_last(), path);
        let rest = spec_keep(docs.drop_last(), path);
        let whole = spec_keep(docs, path);
        assert forall|i: int| 0 <= i < whole.len() implies spec_valid_doc(
            #[trigger] whole[i],
            dim,
        ) by {
            assert(docs.contains(whole[i]));
            let w = choose|w: int| 0 <= w < docs.len() && docs[w] == whole[i];
            assert(spec_valid_doc(docs[w], dim));
        }
        if !spec_doc_matches(docs.last(), path) {
            assert forall|i: int, j: int| 0 <= i < j < whole.len() implies (
            #[trigger] whole[i]).id@ != (#[trigger] whole[j]).id@ by {
                if j == whole.len() - 1 {
                    assert(whole[j] == docs.last());
                    assert(whole[i] == rest[i]);
                    assert(docs.drop_last().contains(rest[i]));
                    let w = choose|w: int|
                        0 <= w < docs.drop_last().len() && docs.drop_last()[w] == rest[i];
                    assert(docs[w] == whole[i]);
                    assert(docs[w].id@ != docs[docs.len() - 1].id@);
                } else {
                    assert(whole[i] == rest[i] && whole[j] == rest[j]);
                }
            }
        }
    }
}

impl VectorStore {
    /// Remove every document whose source equals the path or lies under
    /// it; the others stay, in order. Returns how many were removed.
    pub fn remove_by_source(&mut self, path: &str) -> (r: usize)
        requires
            old(self).wf(),
        ensures
            final(self).wf(),
            final(self).dim == old(self).dim,
            final(self).top_k == old(self).top_k,
            final(self).docs@ == spec_keep(old(self).docs@, path.spec_bytes()),
            r == old(self).docs@.len() - final(self).docs@.len(),
    {
        let ghost orig = self.docs@;
        let ghost pathb = path.spec_bytes();
        let n = self.docs.len();
        let mut kept: Vec<Document> = Vec::new();
        let mut t: usize = 0;
        while self.docs.len() > 0
            invariant
                orig.len() == n,
                0 <= t <= n,
                self.docs@ == orig.skip(t as int),
                self.dim == old(self).dim,
                self.top_k == old(self).top_k,
                pathb == path.spec_bytes(),
                kept@ == spec_keep(orig.take(t as int), pathb),
            decreases self.docs@.len(),
        {
            assert(t < n) by {
                assert(orig.skip(t as int).len() == orig.len() - t);
            }
            let d = self.docs.remove(0);
            assert(d == orig[t as int]) by {
                assert(orig.skip(t as int)[0] == orig[t as int]);
            }
            proof {
                assert(self.docs@ =~= orig.skip(t + 1));
            }
            let matched = match d.meta_get("source") {
                Some(v) => source_matches(v.as_str(), path),
                None => false,
            };
            assert(matched == spec_doc_matches(d, pathb));
            if !matched {
                kept.push(d);
            }
            proof {
                assert(orig.take(t + 1).drop_last() =~= orig.take(t as int));
                assert(orig.take(t + 1).last() == orig[t as int]);
            }
            t = t + 1;
        }
        proof {
            assert(orig.skip(t as int).len() == 0);
            assert(orig.take(t as int) =~= orig);
            lemma_keep_contains(orig, pathb);
            lemma_keep_wf(orig, pathb, old(self).dim as int);
        }
        let removed = n - kept.len();
        self.docs = kept;
        removed
    }

    /// The distinct source paths present in the store, in first-appearance
    /// order.
    pub fn get_indexed_paths(&self) -> (r: Vec<String>)
        ensures
            r.deep_view() == spec_indexed_paths(self.docs@),
    {
        let n = self.docs.len();
        let mut out: Vec<String> = Vec::new();
        let mut i: usize = 0;
        while i < n
            invariant
                n == self.docs@.len(),
                0 <= i <= n,
                out.deep_view() == spec_indexed_paths(self.docs@.take(i as int)),
            decreases n - i,
        {
            proof {
                assert(self.docs@.take(i + 1).drop_last() =~= self.docs@.take(i as int));
                assert(self.docs@.take(i + 1).last() == self.docs@[i as int]);
            }
            match self.docs[i].meta_get("source") {
                Some(v) => {
                    let m = out.len();
                    let mut j: usize = 0;
                    let mut seen = false;
                    while j < m && !seen
                        invariant
                            m == out@.len(),
                            0 <= j <= m,
                            spec_meta_get(self.docs@[i as int].metadata@, "source"@) == Some(v@),
                            !seen ==> forall|p: int|
                                0 <= p < j ==> (#[trigger] out@[p])@ != v@,
                            seen ==> j < m && out@[j as int]@ == v@,
                        decreases m - j + (if seen {
                            0int
                        } else {
                            1int
                        }),
                    {
                        if strutil::str_eq(out[j].as_str(), v.as_str()) {
                            seen = true;
                        } else {
                            j = j + 1;
                        }
                    }
                    let ghost rest = spec_indexed_paths(self.docs@.take(i as int));
                    if seen {
                        assert(rest.contains(v@)) by {
                            assert(out.deep_view()[j as int] == v@);
                        }
                    } else {
                        let ghost pre = out.deep_view();
                        assert(!rest.contains(v@)) by {
                            if rest.contains(v@) {
                                let w = choose|w: int| 0 <= w < rest.len() && rest[w] == v@;
                                assert(out.deep_view()[w] == v@);
                                assert(out@[w]@ == v@);
                            }
                        }
                        out.push(v.clone());
                        proof {
                            assert(out.deep_view() =~= pre.push(v@));
                        }
                    }
                },
                None => {},
            }
            i = i + 1;
        }
        proof {
            assert(self.docs@.take(n as int) =~= self.docs@);
        }
        out
    }
}

/// The distinct source paths of a document sequence, in first-appearance
/// order.
pub open spec fn spec_indexed_paths(docs: Seq<Document>) -> Seq<Seq<char>>
    decreases docs.len(),
{
    if docs.len() == 0 {
        Seq::empty()
    } else {
        let rest = spec_indexed_paths(docs.drop_last());
        match spec_doc_source(docs.last()) {
            Some(s) => if rest.contains(s) {
                rest
            } else {
                rest.push(s)
            },
            None => rest,
        }
    }
}

/// The index a forward scan stops at is what `spec_find` names.
pub proof fn lemma_find_at(docs: Seq<Document>, id: Seq<char>, j: int, found: bool)
    requires
        0 <= j <= docs.len(),
        found ==> j < docs.len() && docs[j].id@ == id,
        !found ==> j == docs.len(),
        forall|p: int| 0 <= p < j ==> (#[trigger] docs[p]).id@ != id,
    ensures
        found ==> spec_find(docs, id) == j,
        !found ==> spec_find(docs, id) == -1,
    decreases docs.len(),
{
    if docs.len() > 0 && docs[0].id@ != id {
        assert(j > 0);
        assert forall|p: int| 0 <= p < j - 1 implies (#[trigger] docs.drop_first()[p]).id@
            != id by {
            assert(docs.drop_first()[p] == docs[p + 1]);
        }
        lemma_find_at(docs.drop_first(), id, j - 1, found);
    }
}

} // verus!
