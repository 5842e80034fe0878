use ferrite::cache::{ImageBuf, ImageCache};

fn img(width: u32, height: u32, fill: u8) -> ImageBuf {
    ImageBuf { width, height, pixels: vec![fill; (4 * width * height) as usize] }
}

fn key(s: &str) -> Vec<u8> {
    s.as_bytes().to_vec()
}

#[test]
fn capacity_never_exceeded() {
    let mut cache = ImageCache::new(3);
    assert_eq!(cache.len(), 0);
    assert_eq!(cache.capacity(), 3);
    for i in 0..10u32 {
        cache.put(key(&format!("img-{}", i)), img(2, 2, i as u8));
        assert!(cache.len() <= 3);
    }
    assert_eq!(cache.len(), 3);
    // Exactly the three most recently inserted keys survive.
    for i in 0..7u32 {
        assert!(cache.get(&key(&format!("img-{}", i))).is_none());
    }
    for i in 7..10u32 {
        assert!(cache.get(&key(&format!("img-{}", i))).is_some());
    }
}

#[test]
fn overflow_evicts_exactly_the_oldest() {
    let mut cache = ImageCache::new(2);
    cache.put(key("a"), img(1, 1, 1));
    cache.put(key("b"), img(1, 1, 2));
    cache.put(key("c"), img(1, 1, 3));
    assert!(cache.get(&key("a")).is_none());
    assert!(cache.get(&key("b")).is_some());
    assert!(cache.get(&key("c")).is_some());
    assert_eq!(cache.len(), 2);
}

#[test]
fn lru_promotion_decides_eviction() {
    // A, B, C into a two-slot cache (C evicts A), a lookup of A (a miss),
    // then D: D evicts B, not C.
    let mut cache = ImageCache::new(2);
    cache.put(key("a"), img(1, 1, 1));
    cache.put(key("b"), img(1, 1, 2));
    cache.put(key("c"), img(1, 1, 3));
    assert!(cache.get(&key("a")).is_none());
    cache.put(key("d"), img(1, 1, 4));
    assert_eq!(cache.len(), 2);
    assert!(cache.get(&key("b")).is_none());
    assert!(cache.get(&key("c")).is_some());
    assert!(cache.get(&key("d")).is_some());
}

#[test]
fn get_promotes_against_eviction() {
    let mut cache = ImageCache::new(2);
    cache.put(key("a"), img(1, 1, 1));
    cache.put(key("b"), img(1, 1, 2));
    // Promote A: B becomes the least recently used.
    assert!(cache.get(&key("a")).is_some());
    cache.put(key("c"), img(1, 1, 3));
    assert!(cache.get(&key("b")).is_none());
    assert!(cache.get(&key("a")).is_some());
    assert!(cache.get(&key("c")).is_some());
}

#[test]
fn get_returns_the_stored_image_unchanged() {
    let mut cache = ImageCache::new(2);
    let original = img(3, 2, 9);
    cache.put(key("a"), original.duplicate());
    let back = cache.get(&key("a")).expect("hit");
    assert_eq!(back.width, 3);
    assert_eq!(back.height, 2);
    assert_eq!(back.pixels, original.pixels);
}

#[test]
fn put_existing_key_updates_without_eviction() {
    let mut cache = ImageCache::new(2);
    cache.put(key("a"), img(1, 1, 1));
    cache.put(key("b"), img(1, 1, 2));
    cache.put(key("a"), img(1, 1, 7));
    assert_eq!(cache.len(), 2);
    let back = cache.get(&key("a")).expect("hit");
    assert_eq!(back.pixels, vec![7, 7, 7, 7]);
    assert!(cache.get(&key("b")).is_some());
}

#[test]
fn miss_leaves_cache_untouched() {
    let mut cache = ImageCache::new(2);
    cache.put(key("a"), img(1, 1, 1));
    assert!(cache.get(&key("zzz")).is_none());
    assert_eq!(cache.len(), 1);
    assert!(cache.get(&key("a")).is_some());
}

#[test]
fn duplicate_is_an_equal_copy() {
    let a = img(2, 1, 5);
    let b = a.duplicate();
    assert_eq!(a.width, b.width);
    assert_eq!(a.height, b.height);
    assert_eq!(a.pixels, b.pixels);
}
