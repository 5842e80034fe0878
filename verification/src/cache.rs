//! The bounded decoded-image cache: a key-to-value store of fixed positive
//! capacity with least-recently-used eviction, keyed by the image's path and
//! holding its fully decoded pixels.
//!
//! The store itself is `lru::LruCache`; its recency list is modelled as a
//! sequence of (key, image) pairs, most recently used first, and every
//! operation's effect is stated as an exact transition on that sequence.
use std::collections::hash_map::RandomState;
use vstd::prelude::*;

verus! {

/// What a decoded image is, mathematically: its dimensions and its RGBA8
/// bytes.
pub ghost struct ImgView {
    pub width: u32,
    pub height: u32,
    pub pixels: Seq<u8>,
}

/// A fully decoded image: dimensions and the RGBA8 pixel buffer, four bytes
/// per pixel.
#[derive(Clone)]
pub struct ImageBuf {
    pub width: u32,
    pub height: u32,
    pub pixels: Vec<u8>,
}

impl View for ImageBuf {
    type V = ImgView;

    open spec fn view(&self) -> ImgView {
        ImgView { width: self.width, height: self.height, pixels: self.pixels@ }
    }
}

/// The buffer holds exactly four bytes per pixel.
pub open spec fn img_wf(v: ImgView) -> bool {
    v.pixels.len() == 4 * (v.width as int) * (v.height as int)
}

impl ImageBuf {
    /// An equal copy, so that a consumer owns its pixels rather than holding
    /// a reference into the cache.
    pub fn duplicate(&self) -> (r: ImageBuf)
        ensures
            r@ == self@,
    {
        let pixels: Vec<u8> = self.pixels.clone();
        proof {
            assert(pixels@ =~= self.pixels@);
        }
        ImageBuf { width: self.width, height: self.height, pixels }
    }
}

/// No key occurs twice in the recency list.
pub open spec fn distinct_keys(m: Seq<(Seq<u8>, ImgView)>) -> bool {
    forall|i: int, j: int| 0 <= i < j < m.len() ==> (#[trigger] m[i]).0 != (#[trigger] m[j]).0
}

/// The key is present somewhere in the recency list.
pub open spec fn has_key(m: Seq<(Seq<u8>, ImgView)>, k: Seq<u8>) -> bool {
    exists|i: int| 0 <= i < m.len() && (#[trigger] m[i]).0 == k
}

/// The position of the key in the recency list; meaningful under
/// `distinct_keys` and `has_key`.
pub open spec fn key_index(m: Seq<(Seq<u8>, ImgView)>, k: Seq<u8>) -> int {
    choose|i: int| 0 <= i < m.len() && (#[trigger] m[i]).0 == k
}

/// The image stored under the key.
pub open spec fn value_at(m: Seq<(Seq<u8>, ImgView)>, k: Seq<u8>) -> ImgView {
    m[key_index(m, k)].1
}

/// The list with position `i` taken out.
pub open spec fn remove_at(m: Seq<(Seq<u8>, ImgView)>, i: int) -> Seq<(Seq<u8>, ImgView)> {
    m.subrange(0, i) + m.subrange(i + 1, m.len() as int)
}

/// The effect of a lookup hit: the entry moves to the front, unchanged.
pub open spec fn promote(m: Seq<(Seq<u8>, ImgView)>, k: Seq<u8>) -> Seq<(Seq<u8>, ImgView)> {
    seq![m[key_index(m, k)]] + remove_at(m, key_index(m, k))
}

/// The effect of an insert: an existing key is updated in place and moves to
/// the front; a new key enters at the front, and when the cache is already
/// full the rear entry — the least recently used — leaves first.
pub open spec fn lru_put_model(
    m: Seq<(Seq<u8>, ImgView)>,
    k: Seq<u8>,
    v: ImgView,
    cap: nat,
) -> Seq<(Seq<u8>, ImgView)> {
    if has_key(m, k) {
        seq![(k, v)] + remove_at(m, key_index(m, k))
    } else if m.len() >= cap {
        seq![(k, v)] + m.subrange(0, m.len() - 1)
    } else {
        seq![(k, v)] + m
    }
}

/// All images in the list are well-formed RGBA8 buffers.
pub open spec fn all_imgs_wf(m: Seq<(Seq<u8>, ImgView)>) -> bool {
    forall|i: int| 0 <= i < m.len() ==> img_wf((#[trigger] m[i]).1)
}

#[verifier::external_type_specification]
#[verifier::external_body]
#[verifier::reject_recursive_types(K)]
#[verifier::reject_recursive_types(V)]
#[verifier::reject_recursive_types(S)]
pub struct ExLruCache<K, V, S>(lru::LruCache<K, V, S>);

/// What the store holds, as its recency list: most recently used first.
pub uninterp spec fn lru_entries(c: lru::LruCache<Vec<u8>, ImageBuf, RandomState>) -> Seq<(Seq<u8>, ImgView)>;

/// The fixed capacity the store was constructed with.
pub uninterp spec fn lru_capacity(c: lru::LruCache<Vec<u8>, ImageBuf, RandomState>) -> nat;

/// Relies on lru::LruCache::with_hasher: a cache of the given nonzero
/// capacity, holding nothing, hashing its keys with std's RandomState.
#[verifier::external_body]
fn lru_new(cap: usize) -> (c: lru::LruCache<Vec<u8>, ImageBuf, RandomState>)
    requires
        1 <= cap,
    ensures
        lru_entries(c) == Seq::<(Seq<u8>, ImgView)>::empty(),
        lru_capacity(c) == cap,
{
    lru::LruCache::with_hasher(std::num::NonZeroUsize::new(cap).unwrap(), RandomState::new())
}

/// Relies on lru::LruCache::get: a hit hands back the stored value and moves
/// its entry to the head of the recency list; a miss changes nothing. The
/// returned image is a clone of the stored one, so the cache keeps its copy.
#[verifier::external_body]
fn lru_get(c: &mut lru::LruCache<Vec<u8>, ImageBuf, RandomState>, k: &Vec<u8>) -> (r: Option<ImageBuf>)
    requires
        distinct_keys(lru_entries(*old(c))),
    ensures
        lru_capacity(*final(c)) == lru_capacity(*old(c)),
        has_key(lru_entries(*old(c)), k@) ==> r is Some && r->Some_0@ == value_at(
            lru_entries(*old(c)),
            k@,
        ) && lru_entries(*final(c)) == promote(lru_entries(*old(c)), k@),
        !has_key(lru_entries(*old(c)), k@) ==> r is None && lru_entries(*final(c)) == lru_entries(
            *old(c),
        ),
{
    c.get(k).cloned()
}

/// Relies on lru::LruCache::put: an existing key's value is replaced and its
/// entry moves to the head; a new key enters at the head, the rear entry
/// leaving first when the cache is full.
#[verifier::external_body]
fn lru_put(c: &mut lru::LruCache<Vec<u8>, ImageBuf, RandomState>, k: Vec<u8>, v: ImageBuf)
    requires
        distinct_keys(lru_entries(*old(c))),
    ensures
        lru_capacity(*final(c)) == lru_capacity(*old(c)),
        lru_entries(*final(c)) == lru_put_model(
            lru_entries(*old(c)),
            k@,
            v@,
            lru_capacity(*old(c)),
        ),
{
    c.put(k, v);
}

/// Relies on lru::LruCache::len: the number of entries.
#[verifier::external_body]
fn lru_len(c: &lru::LruCache<Vec<u8>, ImageBuf, RandomState>) -> (n: usize)
    ensures
        n == lru_entries(*c).len(),
{
    c.len()
}

/// Relies on lru::LruCache::cap: the capacity it was constructed with.
#[verifier::external_body]
fn lru_cap(c: &lru::LruCache<Vec<u8>, ImageBuf, RandomState>) -> (n: usize)
    ensures
        n == lru_capacity(*c),
{
    c.cap().get()
}

/// The key's position is in range, holds the key, and is the only position
/// to do so.
pub proof fn lemma_key_index(m: Seq<(Seq<u8>, ImgView)>, k: Seq<u8>)
    requires
        distinct_keys(m),
        has_key(m, k),
    ensures
        0 <= key_index(m, k) < m.len(),
        m[key_index(m, k)].0 == k,
        forall|i: int| 0 <= i < m.len() && (#[trigger] m[i]).0 == k ==> i == key_index(m, k),
{
    let i0 = choose|i: int| 0 <= i < m.len() && (#[trigger] m[i]).0 == k;
    assert(m[i0].0 == k);
    assert forall|i: int| 0 <= i < m.len() && (#[trigger] m[i]).0 == k implies i == key_index(
        m,
        k,
    ) by {
        let ki = key_index(m, k);
        if i < ki {
            assert(m[i].0 != m[ki].0);
        } else if ki < i {
            assert(m[ki].0 != m[i].0);
        }
    }
}

/// A lookup hit reorders the list without gaining, losing or changing any
/// entry: the hit key moves to the front and every key keeps its image.
pub proof fn lemma_promote(m: Seq<(Seq<u8>, ImgView)>, k: Seq<u8>)
    requires
        distinct_keys(m),
        has_key(m, k),
    ensures
        promote(m, k).len() == m.len(),
        distinct_keys(promote(m, k)),
        promote(m, k)[0] == (k, value_at(m, k)),
        forall|k2: Seq<u8>| has_key(promote(m, k), k2) <==> has_key(m, k2),
        forall|k2: Seq<u8>| has_key(m, k2) ==> value_at(promote(m, k), k2) == value_at(m, k2),
        all_imgs_wf(m) ==> all_imgs_wf(promote(m, k)),
{
    lemma_key_index(m, k);
    let i = key_index(m, k);
    let r = promote(m, k);
    assert(r.len() == m.len());
    // Where each entry of the reordered list comes from.
    assert forall|l: int| 0 <= l < r.len() implies #[trigger] r[l] == (if l == 0 {
        m[i]
    } else if l <= i {
        m[l - 1]
    } else {
        m[l]
    }) by {
        if l >= 1 {
            if l - 1 < i {
                assert(remove_at(m, i)[l - 1] == m.subrange(0, i)[l - 1]);
            } else {
                assert(remove_at(m, i)[l - 1] == m.subrange(i + 1, m.len() as int)[l - 1 - i]);
            }
        }
    }
    assert(distinct_keys(r)) by {
        assert forall|x: int, y: int| 0 <= x < y < r.len() implies (#[trigger] r[x]).0 != (
        #[trigger] r[y]).0 by {}
    }
    assert(r[0] == (k, value_at(m, k)));
    assert forall|k2: Seq<u8>| has_key(r, k2) implies has_key(m, k2) by {
        let l = choose|l: int| 0 <= l < r.len() && (#[trigger] r[l]).0 == k2;
        if l == 0 {
            assert(m[i].0 == k2);
        } else if l <= i {
            assert(m[l - 1].0 == k2);
        } else {
            assert(m[l].0 == k2);
        }
    }
    assert forall|k2: Seq<u8>| has_key(m, k2) implies has_key(r, k2) && value_at(r, k2) == value_at(
        m,
        k2,
    ) by {
        lemma_key_index(m, k2);
        let j = key_index(m, k2);
        let l = if j == i {
            0int
        } else if j < i {
            j + 1
        } else {
            j
        };
        assert(r[l] == m[j]);
        assert(has_key(r, k2));
        lemma_key_index(r, k2);
        assert(key_index(r, k2) == l);
        assert(value_at(r, k2) == m[j].1);
        assert(value_at(m, k2) == m[j].1);
    }
    if all_imgs_wf(m) {
        assert forall|l: int| 0 <= l < r.len() implies img_wf((#[trigger] r[l]).1) by {}
    }
}

/// An insert leaves the list bounded by the capacity and duplicate-free,
/// with the inserted pair at the front.
pub proof fn lemma_put_model(m: Seq<(Seq<u8>, ImgView)>, k: Seq<u8>, v: ImgView, cap: nat)
    requires
        distinct_keys(m),
        m.len() <= cap,
        1 <= cap,
    ensures
        lru_put_model(m, k, v, cap).len() <= cap,
        distinct_keys(lru_put_model(m, k, v, cap)),
        lru_put_model(m, k, v, cap)[0] == (k, v),
        has_key(lru_put_model(m, k, v, cap), k),
        value_at(lru_put_model(m, k, v, cap), k) == v,
        all_imgs_wf(m) && img_wf(v) ==> all_imgs_wf(lru_put_model(m, k, v, cap)),
        !has_key(m, k) && m.len() < cap ==> lru_put_model(m, k, v, cap).len() == m.len() + 1,
        has_key(m, k) ==> lru_put_model(m, k, v, cap).len() == m.len(),
{
    let r = lru_put_model(m, k, v, cap);
    if has_key(m, k) {
        lemma_key_index(m, k);
        let i = key_index(m, k);
        assert forall|l: int| 0 <= l < r.len() implies #[trigger] r[l] == (if l == 0 {
            (k, v)
        } else if l <= i {
            m[l - 1]
        } else {
            m[l]
        }) by {
            if l >= 1 {
                if l - 1 < i {
                    assert(remove_at(m, i)[l - 1] == m.subrange(0, i)[l - 1]);
                } else {
                    assert(remove_at(m, i)[l - 1] == m.subrange(i + 1, m.len() as int)[l - 1 - i]);
                }
            }
        }
        assert(distinct_keys(r)) by {
            assert forall|x: int, y: int| 0 <= x < y < r.len() implies (#[trigger] r[x]).0 != (
            #[trigger] r[y]).0 by {}
        }
    } else if m.len() >= cap {
        assert forall|l: int| 0 <= l < r.len() implies #[trigger] r[l] == (if l == 0 {
            (k, v)
        } else {
            m[l - 1]
        }) by {}
        assert(distinct_keys(r)) by {
            assert forall|x: int, y: int| 0 <= x < y < r.len() implies (#[trigger] r[x]).0 != (
            #[trigger] r[y]).0 by {
                if x == 0 {
                    assert(m[y - 1].0 != k);
                }
            }
        }
    } else {
        assert forall|l: int| 0 <= l < r.len() implies #[trigger] r[l] == (if l == 0 {
            (k, v)
        } else {
            m[l - 1]
        }) by {}
        assert(distinct_keys(r)) by {
            assert forall|x: int, y: int| 0 <= x < y < r.len() implies (#[trigger] r[x]).0 != (
            #[trigger] r[y]).0 by {
                if x == 0 {
                    assert(m[y - 1].0 != k);
                }
            }
        }
    }
    assert(r[0] == (k, v));
    assert(has_key(r, k));
    lemma_key_index(r, k);
    assert(key_index(r, k) == 0);
    if all_imgs_wf(m) && img_wf(v) {
        assert forall|l: int| 0 <= l < r.len() implies img_wf((#[trigger] r[l]).1) by {}
    }
}

/// An insert that overflows a full cache evicts exactly the rear entry: the
/// least recently used key is gone, every other key survives, and the cache
/// stays at capacity.
pub proof fn lemma_overflow_evicts_lru(m: Seq<(Seq<u8>, ImgView)>, k: Seq<u8>, v: ImgView, cap: nat)
    requires
        distinct_keys(m),
        m.len() == cap,
        1 <= cap,
        !has_key(m, k),
    ensures
        lru_put_model(m, k, v, cap).len() == cap,
        !has_key(lru_put_model(m, k, v, cap), m[m.len() - 1].0),
        forall|k2: Seq<u8>| k2 != m[m.len() - 1].0 && has_key(m, k2) ==> has_key(
            lru_put_model(m, k, v, cap),
            k2,
        ),
        forall|k2: Seq<u8>| k2 != m[m.len() - 1].0 && has_key(m, k2) ==> value_at(
            lru_put_model(m, k, v, cap),
            k2,
        ) == value_at(m, k2),
        has_key(lru_put_model(m, k, v, cap), k),
{
    lemma_put_model(m, k, v, cap);
    let r = lru_put_model(m, k, v, cap);
    let last = m[m.len() - 1].0;
    assert forall|l: int| 0 <= l < r.len() implies #[trigger] r[l] == (if l == 0 {
        (k, v)
    } else {
        m[l - 1]
    }) by {}
    assert(!has_key(r, last)) by {
        if has_key(r, last) {
            let l = choose|l: int| 0 <= l < r.len() && (#[trigger] r[l]).0 == last;
            if l == 0 {
                assert(has_key(m, k));
            } else {
                assert(m[l - 1].0 == last);
                assert(m[l - 1].0 != m[m.len() - 1].0);
            }
        }
    }
    assert forall|k2: Seq<u8>| k2 != last && has_key(m, k2) implies has_key(r, k2) && value_at(
        r,
        k2,
    ) == value_at(m, k2) by {
        lemma_key_index(m, k2);
        let j = key_index(m, k2);
        assert(j < m.len() - 1);
        assert(r[j + 1] == m[j]);
        assert(has_key(r, k2));
        lemma_key_index(r, k2);
        assert(key_index(r, k2) == j + 1);
    }
}

/// Law: the promotion order decides evictions. Keys A, B and C inserted in
/// that order into an empty two-slot cache (C's insert evicting A, the
/// oldest), then a lookup of A — a miss by then, which by `ImageCache::get`'s
/// contract changes nothing — then D inserted. D's insert evicts B, the
/// least recently used surviving key, never C: exactly D and C remain, D
/// most recent.
pub proof fn lemma_lru_insertion_order(
    a: Seq<u8>,
    b: Seq<u8>,
    c: Seq<u8>,
    d: Seq<u8>,
    va: ImgView,
    vb: ImgView,
    vc: ImgView,
    vd: ImgView,
)
    requires
        a != b,
        a != c,
        a != d,
        b != c,
        b != d,
        c != d,
    ensures
        !has_key(
            lru_put_model(
                lru_put_model(lru_put_model(Seq::empty(), a, va, 2), b, vb, 2),
                c,
                vc,
                2,
            ),
            a,
        ),
        lru_put_model(
            lru_put_model(
                lru_put_model(lru_put_model(Seq::empty(), a, va, 2), b, vb, 2),
                c,
                vc,
                2,
            ),
            d,
            vd,
            2,
        ) == seq![(d, vd), (c, vc)],
{
    let m0 = Seq::<(Seq<u8>, ImgView)>::empty();
    let m1 = lru_put_model(m0, a, va, 2);
    assert(!has_key(m0, a));
    assert(m1 =~= seq![(a, va)]);
    let m2 = lru_put_model(m1, b, vb, 2);
    assert(m1[0].0 == a);
    assert(!has_key(m1, b));
    assert(m2 =~= seq![(b, vb), (a, va)]);
    let m3 = lru_put_model(m2, c, vc, 2);
    assert(m2[0].0 == b && m2[1].0 == a);
    assert(!has_key(m2, c));
    assert(m2.subrange(0, 1) =~= seq![(b, vb)]);
    assert(m3 =~= seq![(c, vc), (b, vb)]);
    let m4 = lru_put_model(m3, d, vd, 2);
    assert(m3[0].0 == c && m3[1].0 == b);
    assert(!has_key(m3, a));
    assert(!has_key(m3, d));
    assert(m3.subrange(0, 1) =~= seq![(c, vc)]);
    assert(m4 =~= seq![(d, vd), (c, vc)]);
}

/// The decoded-image cache: a bounded LRU store from image paths to decoded
/// pixel buffers.
pub struct ImageCache {
    inner: lru::LruCache<Vec<u8>, ImageBuf, RandomState>,
}

impl View for ImageCache {
    type V = Seq<(Seq<u8>, ImgView)>;

    closed spec fn view(&self) -> Seq<(Seq<u8>, ImgView)> {
        lru_entries(self.inner)
    }
}

impl ImageCache {
    /// The capacity fixed at construction.
    pub closed spec fn capacity_spec(&self) -> nat {
        lru_capacity(self.inner)
    }

    /// The cache never holds more entries than its capacity, its capacity is
    /// positive, no key occurs twice, and every stored image is a well-formed
    /// RGBA8 buffer.
    pub open spec fn wf(&self) -> bool {
        &&& 1 <= self.capacity_spec()
        &&& self@.len() <= self.capacity_spec()
        &&& distinct_keys(self@)
        &&& all_imgs_wf(self@)
    }

    /// An empty cache of the given capacity. A zero capacity is a
    /// configuration bug and is ruled out here rather than tolerated.
    pub fn new(cap: usize) -> (c: ImageCache)
        requires
            1 <= cap,
        ensures
            c.wf(),
            c@ == Seq::<(Seq<u8>, ImgView)>::empty(),
            c.capacity_spec() == cap,
    {
        ImageCache { inner: lru_new(cap) }
    }

    /// A lookup. A hit hands back the stored image and promotes its entry to
    /// most recently used without changing any value; a miss returns nothing
    /// and leaves the cache untouched.
    pub fn get(&mut self, k: &Vec<u8>) -> (r: Option<ImageBuf>)
        requires
            old(self).wf(),
        ensures
            final(self).wf(),
            final(self).capacity_spec() == old(self).capacity_spec(),
            has_key(old(self)@, k@) ==> r is Some && r->Some_0@ == value_at(old(self)@, k@)
                && final(self)@ == promote(old(self)@, k@) && final(self)@.len() == old(
                self,
            )@.len(),
            !has_key(old(self)@, k@) ==> r is None && final(self)@ == old(self)@,
    {
        proof {
            if has_key(self@, k@) {
                lemma_promote(self@, k@);
            }
        }
        lru_get(&mut self.inner, k)
    }

    /// An insert. An existing key's image is replaced and promoted; a new key
    /// enters at the front, and when the cache is full the least recently
    /// used entry is evicted first, so the capacity is never exceeded.
    pub fn put(&mut self, k: Vec<u8>, v: ImageBuf)
        requires
            old(self).wf(),
            img_wf(v@),
        ensures
            final(self).wf(),
            final(self).capacity_spec() == old(self).capacity_spec(),
            final(self)@ == lru_put_model(old(self)@, k@, v@, old(self).capacity_spec()),
            final(self)@.len() <= old(self).capacity_spec(),
            final(self)@[0] == (k@, v@),
            has_key(final(self)@, k@),
            value_at(final(self)@, k@) == v@,
    {
        proof {
            lemma_put_model(self@, k@, v@, self.capacity_spec());
        }
        lru_put(&mut self.inner, k, v);
    }

    /// How many images are resident.
    pub fn len(&self) -> (n: usize)
        ensures
            n == self@.len(),
    {
        lru_len(&self.inner)
    }

    /// The fixed capacity.
    pub fn capacity(&self) -> (n: usize)
        ensures
            n == self.capacity_spec(),
    {
        lru_cap(&self.inner)
    }
}

} // verus!
