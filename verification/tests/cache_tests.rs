use muskox::cache::TextureCache;

#[test]
fn empty_cache_has_nothing() {
    let c = TextureCache::empty();
    assert!(c.lookup(&"a.1001.tx".to_string()).is_none());
    assert_eq!(c.textures.len(), 0);
}

#[test]
fn add_registers_each_concrete_path() {
    let mut c = TextureCache::empty();
    c.add("a.1001.tx".to_string(), (128, 128));
    c.add("a.1002.tx".to_string(), (64, 64));
    assert_eq!(c.textures.len(), 2);
    let t1 = c.lookup(&"a.1001.tx".to_string()).expect("registered");
    assert_eq!(t1.resolution, (128, 128));
    assert_eq!(t1.path, "a.1001.tx");
    let t2 = c.lookup(&"a.1002.tx".to_string()).expect("registered");
    assert_eq!(t2.resolution, (64, 64));
    assert!(c.lookup(&"a.1003.tx".to_string()).is_none());
}

#[test]
fn add_same_path_replaces_entry() {
    let mut c = TextureCache::empty();
    c.add("b.tx".to_string(), (128, 128));
    c.add("b.tx".to_string(), (256, 256));
    assert_eq!(c.textures.len(), 1);
    let t = c.lookup(&"b.tx".to_string()).expect("registered");
    assert_eq!(t.resolution, (256, 256));
}

#[test]
fn registered_texture_starts_unloaded() {
    let mut c = TextureCache::empty();
    c.add("c.tx".to_string(), (100, 100));
    let t = c.lookup(&"c.tx".to_string()).expect("registered");
    for level in 0..t.mipmaps.len() {
        assert!(t.mipmaps[level].tiles.iter().all(|s| s.is_none()));
    }
}
