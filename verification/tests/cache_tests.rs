use gust::cache::PackObjectCache;
use gust::errors::GitError;
use gust::object::{Object, ObjectType};
use std::rc::Rc;

fn id(first: u8, last: u8) -> gust::hash::Hash {
    let mut bytes = [0u8; 20];
    bytes[0] = first;
    bytes[19] = last;
    gust::hash::Hash(bytes)
}

fn object(data: &[u8], hash: gust::hash::Hash) -> Rc<Object> {
    Rc::new(Object::new(ObjectType::Blob, data.to_vec(), hash))
}

#[test]
fn hash_and_offset_resolve_to_the_object_that_was_put_in() {
    let mut cache = PackObjectCache::new();
    let obj = object(b"content", id(1, 2));
    cache.update(obj.clone(), 12);
    let by_hash = cache.hash_object(id(1, 2)).unwrap().clone();
    let by_offset = cache.offset_object(12).unwrap().clone();
    assert!(by_hash.id.same(&obj.id));
    assert!(by_offset.id.same(&obj.id));
    assert_eq!(by_hash.data, b"content".to_vec());
    assert_eq!(by_offset.data, b"content".to_vec());
    assert!(Rc::ptr_eq(&by_hash, &obj));
    assert!(Rc::ptr_eq(&by_offset, &obj));
}

#[test]
fn what_is_not_registered_is_not_found() {
    let mut cache = PackObjectCache::new();
    assert!(cache.hash_object(id(1, 2)).is_none());
    assert!(cache.offset_object(0).is_none());
    cache.update(object(b"a", id(1, 2)), 12);
    assert!(cache.hash_object(id(1, 3)).is_none());
    assert!(cache.hash_object(id(2, 2)).is_none());
    assert!(cache.offset_object(13).is_none());
}

#[test]
fn the_last_write_wins() {
    let mut cache = PackObjectCache::new();
    cache.update(object(b"first", id(1, 2)), 12);
    cache.update(object(b"second", id(1, 2)), 40);
    // the hash resolves to the object that came last, from both offsets
    assert_eq!(cache.hash_object(id(1, 2)).unwrap().data, b"second".to_vec());
    assert_eq!(cache.offset_object(12).unwrap().data, b"second".to_vec());
    assert_eq!(cache.offset_object(40).unwrap().data, b"second".to_vec());
    // an offset that is taken again leads to the new hash
    cache.update(object(b"third", id(9, 9)), 12);
    assert_eq!(cache.offset_object(12).unwrap().data, b"third".to_vec());
    assert_eq!(cache.hash_object(id(1, 2)).unwrap().data, b"second".to_vec());
}

#[test]
fn update_with_the_same_pair_changes_nothing() {
    let mut cache = PackObjectCache::new();
    let obj = object(b"x", id(7, 7));
    cache.update(obj.clone(), 5);
    cache.update(obj.clone(), 5);
    assert!(Rc::ptr_eq(cache.hash_object(id(7, 7)).unwrap(), &obj));
    assert!(Rc::ptr_eq(cache.offset_object(5).unwrap(), &obj));
}

#[test]
fn hashes_that_share_their_first_bytes_are_kept_apart() {
    let mut cache = PackObjectCache::new();
    for last in 0..50u8 {
        cache.update(object(&[last], id(3, last)), last as u64 * 100);
    }
    for last in 0..50u8 {
        assert_eq!(cache.hash_object(id(3, last)).unwrap().data, vec![last]);
        assert_eq!(cache.offset_object(last as u64 * 100).unwrap().data, vec![last]);
    }
}

#[test]
fn clean_empties_the_three_mappings() {
    let mut cache = PackObjectCache::new();
    cache.update(object(b"a", id(1, 2)), 12);
    cache.clean();
    assert!(cache.hash_object(id(1, 2)).is_none());
    assert!(cache.offset_object(12).is_none());
    cache.update(object(b"b", id(1, 2)), 13);
    assert_eq!(cache.offset_object(13).unwrap().data, b"b".to_vec());
}

#[test]
fn deltas_are_applied_to_the_base_in_the_cache() {
    let mut cache = PackObjectCache::default();
    cache.update(object(b"hello world", id(1, 2)), 12);
    let delta = [11u8, 17, 0x90, 6, 6, b't', b'h', b'e', b'r', b'e', b' ', 0x91, 6, 5];
    assert_eq!(cache.offset_delta(12, &delta), Ok(b"hello there world".to_vec()));
    assert_eq!(cache.hash_delta(id(1, 2), &delta), Ok(b"hello there world".to_vec()));
    // the base has not arrived
    assert_eq!(cache.offset_delta(13, &delta), Err(GitError::LookupError));
    assert_eq!(cache.hash_delta(id(2, 2), &delta), Err(GitError::LookupError));
    // the base is there and the delta is for another base
    cache.update(object(b"hello", id(3, 3)), 40);
    assert_eq!(cache.offset_delta(40, &delta), Err(GitError::FormatError));
    assert_eq!(cache.hash_delta(id(3, 3), &delta), Err(GitError::FormatError));
}
