use rlox::gc::{Obj, GC};

fn assert_ref_is(gc: &GC, r: rlox::gc::ObjRef, expected: &str) {
    let Obj::String(obj_string) = gc.get_obj(r);
    assert_eq!(obj_string.get_value(), &expected.to_string());
}

#[test]
fn allocates_string_drops() {
    let mut gc = GC::new();
    let r = gc.alloc_string("hello world".to_string());
    assert_ref_is(&gc, r, "hello world");
    drop(gc);
}

#[test]
fn allocates_two_strings_drops() {
    let mut gc = GC::new();
    let s1 = gc.alloc_string("hello world".to_string());
    let s2 = gc.alloc_string("hello world".to_string());
    assert_ref_is(&gc, s1, "hello world");
    assert_ref_is(&gc, s2, "hello world");
    drop(gc);
}

#[test]
fn interning_deduplicates_by_content() {
    let mut gc = GC::new();
    let a = gc.alloc_string("shared".to_string());
    let b = gc.alloc_string("shared".to_string());
    assert_eq!(a, b);
    assert_eq!(gc.obj_count(), 1);
    let c = gc.alloc_string("other".to_string());
    assert_ne!(a, c);
    assert_eq!(gc.obj_count(), 2);
    // the number of live objects equals the number of distinct contents
    let d = gc.alloc_string("shared".to_string());
    assert_eq!(d, a);
    assert_eq!(gc.obj_count(), 2);
}

#[test]
fn hash_is_fnv1a() {
    // FNV-1a of the empty string is the offset basis
    assert_eq!(rlox::gc::hash_string(&String::new()), 2166136261);
    // xoring in one NUL byte then multiplying by the prime
    let h = 2166136261u32.wrapping_mul(16777619);
    assert_eq!(rlox::gc::hash_string(&"\u{0}".to_string()), h);
}
