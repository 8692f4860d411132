use bump_allocator::fnv::FnvBuildHasher;
use bump_allocator::fnv::FnvHasher;

#[test]
fn empty_input_gives_offset_basis() {
    let h = FnvHasher::new();
    assert_eq!(h.finish(), 0xcbf29ce484222325);
}

#[test]
fn build_hasher_starts_fresh() {
    let b = FnvBuildHasher;
    let h = b.build_hasher();
    assert_eq!(h.finish(), 0xcbf29ce484222325);
}

#[test]
fn known_fnv1a_vectors() {
    let mut h = FnvHasher::new();
    h.write(b"a");
    assert_eq!(h.finish(), 0xaf63dc4c8601ec8c);

    let mut h2 = FnvHasher::new();
    h2.write(b"foobar");
    assert_eq!(h2.finish(), 0x85944171f73967e8);
}

#[test]
fn writing_piecewise_equals_writing_at_once() {
    let mut h1 = FnvHasher::new();
    h1.write(b"foo");
    h1.write(b"bar");
    let mut h2 = FnvHasher::new();
    h2.write(b"foobar");
    assert_eq!(h1.finish(), h2.finish());
}
