//! A scene as a tree of objects held in a slot map.
use vstd::prelude::*;
use slotmap::{DefaultKey, KeyData, SlotMap};
use crate::geometry::Matrix4;
use crate::scene::SceneInfo3;

verus! {

/// The key of an object of a document, in the 64-bit form that
/// `slotmap::KeyData::as_ffi` gives.
#[derive(Debug, Clone, Copy, PartialEq, Eq, Structural)]
pub struct ObjectKey {
    pub id: u64,
}

impl ObjectKey {
    /// The form in which the slot map holds the key: rebuilding a key with
    /// `KeyData::from_ffi` makes its version, the upper half, odd.
    pub open spec fn stored(self) -> u64 {
        self.id | 0x1_0000_0000u64
    }
}

/// What a document holds of one object.
pub struct ObjectInternal {
    pub parent: Option<ObjectKey>,
    pub first_child: Option<ObjectKey>,
    pub next_sibling: Option<ObjectKey>,
    pub name: String,
    pub transform: Matrix4,
    pub pivot_transform: Matrix4,
}

/// What a document holds of a camera.
pub struct CameraInternal {
    pub fov: u64,
    pub far_clip: u64,
    pub near_clip: u64,
    pub target_key: ObjectKey,
    pub target_distance: u64,
    pub aspect_ratio: u64,
}

/// The objects of a document, in a `slotmap::SlotMap`.
#[verifier::external_body]
pub struct ObjectSlots {
    slots: SlotMap<DefaultKey, ObjectInternal>,
}

/// The objects that a slot map holds, by the 64-bit form of their keys.
pub uninterp spec fn slot_objects(m: ObjectSlots) -> Map<u64, ObjectInternal>;

impl ObjectSlots {
    /// Calls `SlotMap::contains_key` with the key that `KeyData::from_ffi`
    /// rebuilds: true exactly where the map holds an object under that key.
    #[verifier::external_body]
    fn contains_key(&self, key: ObjectKey) -> (r: bool)
        ensures
            r == slot_objects(*self).dom().contains(key.stored()),
    {
        self.slots.contains_key(KeyData::from_ffi(key.id).into())
    }

    /// Calls `SlotMap::get` with the key that `KeyData::from_ffi` rebuilds:
    /// the object held under that key, if there is one.
    #[verifier::external_body]
    fn get(&self, key: ObjectKey) -> (r: Option<&ObjectInternal>)
        ensures
            match r {
                Some(o) => {
                    &&& slot_objects(*self).dom().contains(key.stored())
                    &&& *o == slot_objects(*self)[key.stored()]
                },
                None => !slot_objects(*self).dom().contains(key.stored()),
            },
    {
        self.slots.get(KeyData::from_ffi(key.id).into())
    }
}

/// A scene: its information, its materials and its tree of objects.
pub struct Document {
    scene_info: SceneInfo3,
    material_xml: String,
    objects: ObjectSlots,
    root_object: Option<ObjectKey>,
}

impl Document {
    /// The objects of the document, by the form in which their keys are held.
    pub closed spec fn objects(&self) -> Map<u64, ObjectInternal> {
        slot_objects(self.objects)
    }

    pub open spec fn has_object(&self, key: ObjectKey) -> bool {
        self.objects().dom().contains(key.stored())
    }

    /// The object under `key`, where the document holds one.
    pub fn get_object(&self, key: ObjectKey) -> (r: Option<Object<'_>>)
        ensures
            match r {
                Some(o) => self.has_object(key) && o.document() == self && o.key() == key,
                None => !self.has_object(key),
            },
    {
        if self.objects.contains_key(key) {
            Some(Object(self, key))
        } else {
            None
        }
    }
}

impl Document {
    /// The object under `key`, where the document holds one; the document is
    /// left as it was.
    pub fn get_object_mut(&mut self, key: ObjectKey) -> (r: Option<Object<'_>>)
        ensures
            *final(self) == *old(self),
            match r {
                Some(o) => old(self).has_object(key) && *o.document() == *old(self) && o.key() == key,
                None => !old(self).has_object(key),
            },
    {
        if self.objects.contains_key(key) {
            Some(Object(self, key))
        } else {
            None
        }
    }
}

/// An object of a document, seen through the document.
pub struct Object<'a>(&'a Document, ObjectKey);

impl<'a> Object<'a> {
    /// An object is always one that its document holds.
    #[verifier::type_invariant]
    spec fn held(self) -> bool {
        self.0.has_object(self.1)
    }

    pub closed spec fn document(&self) -> &'a Document {
        self.0
    }

    pub closed spec fn key(&self) -> ObjectKey {
        self.1
    }

    /// What the document holds of the object.
    pub open spec fn record(&self) -> ObjectInternal {
        self.document().objects()[self.key().stored()]
    }

    /// The object that `link` names, where the document holds it.
    pub open spec fn linked(&self, link: Option<ObjectKey>, r: Option<Object<'a>>) -> bool {
        match link {
            Some(k) => if self.document().has_object(k) {
                r matches Some(o) && o.document() == self.document() && o.key() == k
            } else {
                r is None
            },
            None => r is None,
        }
    }

    fn follow(&self, link: Option<ObjectKey>) -> (r: Option<Object<'a>>)
        ensures
            self.linked(link, r),
    {
        match link {
            Some(k) => self.0.get_object(k),
            None => None,
        }
    }

    fn internal(&self) -> (r: &'a ObjectInternal)
        ensures
            *r == self.record(),
    {
        proof {
            use_type_invariant(self);
        }
        self.0.objects.get(self.1).unwrap()
    }

    pub fn parent(&self) -> (r: Option<Object<'a>>)
        ensures
            self.linked(self.record().parent, r),
    {
        let obj = self.internal();
        self.follow(obj.parent)
    }

    pub fn first_child(&self) -> (r: Option<Object<'a>>)
        ensures
            self.linked(self.record().first_child, r),
    {
        let obj = self.internal();
        self.follow(obj.first_child)
    }

    pub fn next_sibling(&self) -> (r: Option<Object<'a>>)
        ensures
            self.linked(self.record().next_sibling, r),
    {
        let obj = self.internal();
        self.follow(obj.next_sibling)
    }

    pub fn name(&self) -> (r: &'a str)
        ensures
            r@ == self.record().name@,
    {
        let obj = self.internal();
        obj.name.as_str()
    }

    pub fn transform(&self) -> (r: &'a Matrix4)
        ensures
            *r == self.record().transform,
    {
        let obj = self.internal();
        &obj.transform
    }

    pub fn pivot_transform(&self) -> (r: &'a Matrix4)
        ensures
            *r == self.record().pivot_transform,
    {
        let obj = self.internal();
        &obj.pivot_transform
    }
}

} // verus!
