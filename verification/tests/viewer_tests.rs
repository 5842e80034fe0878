use ferrite::cache::ImageBuf;
use ferrite::viewer::Viewer;

fn img(width: u32, height: u32, fill: u8) -> ImageBuf {
    ImageBuf { width, height, pixels: vec![fill; (4 * width * height) as usize] }
}

fn key(s: &str) -> Vec<u8> {
    s.as_bytes().to_vec()
}

// A stand-in for the decode collaborator that counts its calls, so the tests
// can observe which loads had to decode.
struct CountingDecoder {
    calls: usize,
}

impl CountingDecoder {
    fn new() -> CountingDecoder {
        CountingDecoder { calls: 0 }
    }

    fn decode(&mut self, fill: u8) -> ImageBuf {
        self.calls += 1;
        img(2, 2, fill)
    }
}

// The load flow the application runs: cache first, decode only on a miss.
fn load(viewer: &mut Viewer, decoder: &mut CountingDecoder, path: &str, fill: u8) {
    let p = key(path);
    if !viewer.load_cached(&p) {
        let decoded = decoder.decode(fill);
        viewer.load_decoded(p, decoded);
    }
}

#[test]
fn hit_bypasses_decode() {
    let mut viewer = Viewer::new(2);
    let mut decoder = CountingDecoder::new();
    // Preload key K.
    viewer.load_decoded(key("k"), img(2, 2, 1));
    // A load of K is a cache hit: the decoder is never invoked.
    load(&mut viewer, &mut decoder, "k", 1);
    assert_eq!(decoder.calls, 0);
    assert_eq!(viewer.current.as_deref(), Some(b"k".as_slice()));
}

#[test]
fn miss_then_hit_decodes_once() {
    let mut viewer = Viewer::new(2);
    let mut decoder = CountingDecoder::new();
    load(&mut viewer, &mut decoder, "p", 3);
    assert_eq!(decoder.calls, 1);
    load(&mut viewer, &mut decoder, "p", 3);
    assert_eq!(decoder.calls, 1);
}

#[test]
fn failed_load_leaves_view_untouched() {
    let mut viewer = Viewer::new(2);
    viewer.load_decoded(key("x"), img(2, 2, 1));
    viewer.transform.apply_zoom(900, Some((100, 0)), 0, 0);
    viewer.transform.apply_drag(5, -3);
    let scale = viewer.transform.scale_milli;
    let off = (viewer.transform.offset_x, viewer.transform.offset_y);
    // The application finds the path missing or the decode failing: the only
    // core call a failing load makes is the cache probe, which misses.
    assert!(!viewer.load_cached(&key("bad-path")));
    assert_eq!(viewer.current.as_deref(), Some(b"x".as_slice()));
    assert_eq!(viewer.transform.scale_milli, scale);
    assert_eq!((viewer.transform.offset_x, viewer.transform.offset_y), off);
}

#[test]
fn successful_load_resets_view() {
    let mut viewer = Viewer::new(2);
    viewer.load_decoded(key("x"), img(2, 2, 1));
    viewer.transform.apply_zoom(2500, None, 0, 0);
    viewer.transform.apply_drag(40, 40);
    assert_ne!(viewer.transform.scale_milli, 1000);
    // A decode-success load resets the transform.
    viewer.load_decoded(key("y"), img(2, 2, 2));
    assert_eq!(viewer.transform.scale_milli, 1000);
    assert_eq!(viewer.transform.offset_x, 0);
    assert_eq!(viewer.transform.offset_y, 0);
    // So does a cache-hit load after more panning.
    viewer.transform.apply_drag(7, 7);
    assert!(viewer.load_cached(&key("x")));
    assert_eq!(viewer.transform.scale_milli, 1000);
    assert_eq!(viewer.transform.offset_x, 0);
    assert_eq!(viewer.transform.offset_y, 0);
}

#[test]
fn load_invalidates_texture() {
    let mut viewer = Viewer::new(2);
    viewer.load_decoded(key("x"), img(2, 2, 1));
    assert_eq!(viewer.texture, None);
    let fetched = viewer.fetch_active().expect("active image is cached");
    assert_eq!(fetched.pixels, vec![1; 16]);
    viewer.set_texture(7);
    assert_eq!(viewer.texture, Some(7));
    // Re-rendering without a load keeps the handle; a load drops it.
    viewer.load_decoded(key("y"), img(2, 2, 2));
    assert_eq!(viewer.texture, None);
}

#[test]
fn eviction_then_redisplay_recovers_by_fresh_decode() {
    let mut viewer = Viewer::new(1);
    let mut decoder = CountingDecoder::new();
    load(&mut viewer, &mut decoder, "a", 1);
    assert_eq!(decoder.calls, 1);
    // A later insert of another key evicts A from the one-slot cache while A
    // is still the active key: the accepted stale-reference case.
    viewer.cache.put(key("b"), img(2, 2, 2));
    assert_eq!(viewer.current.as_deref(), Some(b"a".as_slice()));
    assert!(viewer.fetch_active().is_none());
    // Revisiting A succeeds through a fresh decode rather than failing.
    load(&mut viewer, &mut decoder, "a", 1);
    assert_eq!(decoder.calls, 2);
    let back = viewer.fetch_active().expect("redecoded image is cached");
    assert_eq!(back.pixels, vec![1; 16]);
}

#[test]
fn new_viewer_is_empty_and_identity() {
    let viewer = Viewer::new(5);
    assert_eq!(viewer.cache.len(), 0);
    assert_eq!(viewer.cache.capacity(), 5);
    assert_eq!(viewer.current, None);
    assert_eq!(viewer.texture, None);
    assert_eq!(viewer.transform.scale_milli, 1000);
    assert_eq!(viewer.transform.offset_x, 0);
    assert_eq!(viewer.transform.offset_y, 0);
}
