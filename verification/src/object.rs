//! Decoded Git objects.

use vstd::prelude::*;

verus! {

/// The kinds of object that a pack holds.
#[derive(Clone, Copy, Debug, PartialEq, Eq, Structural)]
pub enum ObjectType {
    Blob,
    Tree,
    Commit,
    Tag,
    OffsetDelta,
    HashDelta,
}

/// A decoded object: its kind, its content, the size it declares and its id.
#[derive(Clone, Debug)]
pub struct Object {
    pub t: ObjectType,
    pub data: Vec<u8>,
    pub size: usize,
    pub id: crate::hash::Hash,
}

impl Object {
    /// An object of kind `t` with content `data` and id `id`; the declared size
    /// is the length of the content.
    pub fn new(t: ObjectType, data: Vec<u8>, id: crate::hash::Hash) -> (o: Object)
        ensures
            o.t == t,
            o.data == data,
            o.size == data@.len(),
            o.id == id,
    {
        let size: usize = data.len();
        Object { t, data, size, id }
    }

    /// The id of the object.
    pub fn hash(&self) -> (h: crate::hash::Hash)
        ensures
            h == self.id,
    {
        self.id
    }
}

} // verus!
