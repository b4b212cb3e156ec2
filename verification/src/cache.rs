//! The content-fingerprint cache. A fingerprint is the SHA-256 digest over
//! the concatenated bytes of the inputs, in their given order; the store maps
//! output paths to the fingerprint their last build used. Loading the store
//! from disk and flushing it back are the caller's; everything between is
//! verified.

use vstd::prelude::*;
use vstd::string::*;
use crate::table::store_get;

verus! {

/// The SHA-256 digest of a byte sequence.
pub uninterp spec fn sha256_of(data: Seq<u8>) -> Seq<u8>;

/// Relies on sha2::Sha256 through the Digest trait: the digest is a function
/// of the input bytes alone, 32 bytes long.
#[verifier::external_body]
fn sha256(data: &Vec<u8>) -> (r: Vec<u8>)
    ensures
        r@ == sha256_of(data@),
        r@.len() == 32,
{
    <sha2::Sha256 as sha2::Digest>::digest(data.as_slice()).to_vec()
}

/// The byte sequences laid end to end.
pub open spec fn concat_bytes(cs: Seq<Seq<u8>>) -> Seq<u8>
    decreases cs.len(),
{
    if cs.len() == 0 {
        Seq::<u8>::empty()
    } else {
        cs[0] + concat_bytes(cs.drop_first())
    }
}

/// The fingerprint of an ordered input list: the digest of the concatenation
/// of the inputs' bytes.
pub open spec fn spec_fingerprint(cs: Seq<Seq<u8>>) -> Seq<u8> {
    sha256_of(concat_bytes(cs))
}

proof fn lemma_concat_bytes_take(cs: Seq<Seq<u8>>, i: int)
    requires
        0 <= i < cs.len(),
    ensures
        concat_bytes(cs.take(i + 1)) == concat_bytes(cs.take(i)) + cs[i],
    decreases i,
{
    let a = cs.take(i + 1);
    let b = cs.take(i);
    if i == 0 {
        assert(a.drop_first() =~= Seq::<Seq<u8>>::empty());
        assert(b =~= Seq::<Seq<u8>>::empty());
        assert(concat_bytes(a) =~= concat_bytes(b) + cs[0]);
    } else {
        lemma_concat_bytes_take(cs.drop_first(), i - 1);
        assert(cs.drop_first().take(i) =~= a.drop_first());
        assert(cs.drop_first().take(i - 1) =~= b.drop_first());
        assert(cs.drop_first()[i - 1] == cs[i]);
        assert(concat_bytes(a) =~= concat_bytes(b) + cs[i]);
    }
}

fn bytes_copy(v: &Vec<u8>) -> (r: Vec<u8>)
    ensures
        r@ == v@,
{
    let n = v.len();
    let mut r: Vec<u8> = Vec::new();
    let mut i: usize = 0;
    while i < n
        invariant
            i <= n,
            n == v@.len(),
            r@ == v@.subrange(0, i as int),
        decreases n - i,
    {
        r.push(v[i]);
        i += 1;
        assert(r@ =~= v@.subrange(0, i as int));
    }
    assert(r@ =~= v@);
    r
}

/// The fingerprint over the given file contents, in their given order.
pub fn compute_fingerprint(inputs: &Vec<Vec<u8>>) -> (r: Vec<u8>)
    ensures
        r@ == spec_fingerprint(inputs.deep_view()),
        r@.len() == 32,
{
    let n = inputs.len();
    let mut all: Vec<u8> = Vec::new();
    let mut i: usize = 0;
    proof {
        assert(inputs.deep_view().take(0) =~= Seq::<Seq<u8>>::empty());
        assert(all@ =~= concat_bytes(inputs.deep_view().take(0)));
    }
    while i < n
        invariant
            i <= n,
            n == inputs@.len(),
            all@ == concat_bytes(inputs.deep_view().take(i as int)),
        decreases n - i,
    {
        proof {
            lemma_concat_bytes_take(inputs.deep_view(), i as int);
        }
        let mut piece = bytes_copy(&inputs[i]);
        proof {
            assert(piece@ =~= inputs.deep_view()[i as int]);
        }
        all.append(&mut piece);
        i += 1;
    }
    proof {
        assert(inputs.deep_view().take(n as int) =~= inputs.deep_view());
    }
    sha256(&all)
}

/// Equality of two byte vectors.
pub fn bytes_eq(a: &Vec<u8>, b: &Vec<u8>) -> (r: bool)
    ensures
        r == (a@ == b@),
{
    if a.len() != b.len() {
        return false;
    }
    let n = a.len();
    let mut i: usize = 0;
    while i < n
        invariant
            i <= n,
            n == a@.len() == b@.len(),
            forall|j: int| 0 <= j < i ==> a@[j] == b@[j],
        decreases n - i,
    {
        if a[i] != b[i] {
            return false;
        }
        i += 1;
    }
    proof {
        assert(a@ =~= b@);
    }
    true
}

/// The in-memory fingerprint store: output path to digest. Insertion
/// appends, lookup takes the latest entry, so `spec_get` reads the store
/// back to front.
pub struct CacheBuffer {
    pub entries: Vec<(String, Vec<u8>)>,
}

impl CacheBuffer {
    /// The digest stored under a key, if any.
    pub open spec fn spec_get(self, key: Seq<char>) -> Option<Seq<u8>> {
        match store_get(self.entries@, key) {
            Some(v) => Some(v@),
            None => None,
        }
    }

    /// An empty store.
    pub fn new() -> (r: Self)
        ensures
            r.entries@.len() == 0,
            forall|k: Seq<char>| r.spec_get(k) is None,
    {
        let r = CacheBuffer { entries: Vec::new() };
        proof {
            assert(forall|k: Seq<char>| store_get(r.entries@, k) is None);
        }
        r
    }

    /// A store with the given entries, later entries shadowing earlier ones
    /// of the same key.
    pub fn from_entries(entries: Vec<(String, Vec<u8>)>) -> (r: Self)
        ensures
            r.entries@ == entries@,
    {
        CacheBuffer { entries }
    }

    /// The digest stored under a key, if any.
    pub fn read(&self, name: &str) -> (r: Option<&Vec<u8>>)
        ensures
            match r {
                Some(v) => self.spec_get(name@) == Some(v@),
                None => self.spec_get(name@) is None,
            },
    {
        crate::table::store_find(&self.entries, name)
    }

    /// Inserts or overwrites the digest under a key; every other key keeps
    /// its digest.
    pub fn add(&mut self, name: &str, value: Vec<u8>)
        ensures
            final(self).spec_get(name@) == Some(value@),
            forall|k: Seq<char>|
                k != name@ ==> #[trigger] final(self).spec_get(k) == old(self).spec_get(k),
    {
        let key = String::from_str(name);
        self.entries.push((key, value));
        proof {
            let es = self.entries@;
            assert(es.last().0@ == name@);
            assert(es.drop_last() =~= old(self).entries@);
            assert forall|k: Seq<char>|
                k != name@ implies #[trigger] final(self).spec_get(k) == old(self).spec_get(k) by {
                assert(store_get(es, k) == store_get(es.drop_last(), k));
            }
        }
    }
}

/// Whether the store reports these inputs as already built into `out`.
pub open spec fn spec_check_built(c: CacheBuffer, inputs: Seq<Seq<u8>>, out: Seq<char>) -> bool {
    c.spec_get(out) == Some(spec_fingerprint(inputs))
}

/// Whether the stored fingerprint for `output` equals the fingerprint of the
/// given input contents.
pub fn check_built(inputs: &Vec<Vec<u8>>, output: &str, cache: &CacheBuffer) -> (r: bool)
    ensures
        r == spec_check_built(*cache, inputs.deep_view(), output@),
{
    let fp = compute_fingerprint(inputs);
    match cache.read(output) {
        Some(v) => bytes_eq(v, &fp),
        None => false,
    }
}

/// Records the fingerprint of the given input contents under `output`.
pub fn write_built(inputs: &Vec<Vec<u8>>, output: &str, cache: &mut CacheBuffer)
    ensures
        final(cache).spec_get(output@) == Some(spec_fingerprint(inputs.deep_view())),
        forall|k: Seq<char>|
            k != output@ ==> #[trigger] final(cache).spec_get(k) == old(cache).spec_get(k),
{
    let fp = compute_fingerprint(inputs);
    cache.add(output, fp);
}

/// Whether a step must run its tool: its fingerprint is stale, a rebuild is
/// forced, something upstream was rebuilt this run, or its output is gone.
pub open spec fn spec_needs_run(
    cache_hit: bool,
    force: bool,
    upstream_rebuilt: bool,
    output_exists: bool,
) -> bool {
    !cache_hit || force || upstream_rebuilt || !output_exists
}

/// The skip decision of one build step.
pub fn needs_run(cache_hit: bool, force: bool, upstream_rebuilt: bool, output_exists: bool) -> (r:
    bool)
    ensures
        r == spec_needs_run(cache_hit, force, upstream_rebuilt, output_exists),
{
    !cache_hit || force || upstream_rebuilt || !output_exists
}

/// Idempotence: once a build of `out` from these inputs is recorded, the
/// same inputs are reported as built, and a following run with nothing
/// forced, nothing rebuilt upstream and the output present skips its tool.
pub proof fn lemma_second_run_skips(c: CacheBuffer, inputs: Seq<Seq<u8>>, out: Seq<char>)
    requires
        c.spec_get(out) == Some(spec_fingerprint(inputs)),
    ensures
        spec_check_built(c, inputs, out),
        !spec_needs_run(spec_check_built(c, inputs, out), false, false, true),
{
}

/// Change sensitivity, cache side: a step whose stored fingerprint does not
/// match its current inputs is run.
pub proof fn lemma_stale_step_runs(c: CacheBuffer, inputs: Seq<Seq<u8>>, out: Seq<char>)
    requires
        c.spec_get(out) != Some(spec_fingerprint(inputs)),
    ensures
        spec_needs_run(spec_check_built(c, inputs, out), false, false, true),
{
}

/// Change sensitivity, downstream side: when something upstream was rebuilt
/// this run, a dependent step is run even if its own fingerprint still
/// matches.
pub proof fn lemma_rebuild_propagates(cache_hit: bool, output_exists: bool)
    ensures
        spec_needs_run(cache_hit, false, true, output_exists),
{
}

/// Fingerprint determinism: the fingerprint depends on nothing but the
/// concatenated input bytes, so equal ordered contents give equal
/// fingerprints.
pub proof fn lemma_fingerprint_deterministic(a: Seq<Seq<u8>>, b: Seq<Seq<u8>>)
    requires
        concat_bytes(a) == concat_bytes(b),
    ensures
        spec_fingerprint(a) == spec_fingerprint(b),
{
}

} // verus!
