//! The document schema: the object types a page can be classified as, and how they nest.
//!
//! The schema here describes documents shaped `chapter -> subchapter -> (diagram, datatable)
//! pairs`, with `UNKNOWN` standing for a page that is none of them.
use vstd::prelude::*;
use crate::constraints::overrides::{MultiPageHierarchyBreak, OverrideConstraints};

verus! {

/// The number of object types, `UNKNOWN` included.
pub const OBJECT_COUNT: u8 = 5;

/// An object type that a page can be classified as.
#[allow(non_camel_case_types)]
#[derive(Clone, Copy, Debug, PartialEq, Eq, Structural, Hash)]
pub enum KnownObject {
    UNKNOWN,
    CHAPTER,
    SUBCHAPTER,
    DIAGRAM,
    DATATABLE,
}

/// A discriminant that names no object type.
#[derive(Clone, Copy, Debug, PartialEq, Eq, Structural)]
pub enum ObjectCastError {
    OutOfBounds(u8),
}

/// The discriminant of each object type, in declaration order from 0.
pub open spec fn spec_discriminant(o: KnownObject) -> u8 {
    match o {
        KnownObject::UNKNOWN => 0,
        KnownObject::CHAPTER => 1,
        KnownObject::SUBCHAPTER => 2,
        KnownObject::DIAGRAM => 3,
        KnownObject::DATATABLE => 4,
    }
}

/// The object type with the given discriminant, for discriminants below `OBJECT_COUNT`.
pub open spec fn spec_object_of(d: u8) -> KnownObject {
    if d == 0 {
        KnownObject::UNKNOWN
    } else if d == 1 {
        KnownObject::CHAPTER
    } else if d == 2 {
        KnownObject::SUBCHAPTER
    } else if d == 3 {
        KnownObject::DIAGRAM
    } else {
        KnownObject::DATATABLE
    }
}

/// The name of an object type, as the schema spells it.
pub open spec fn spec_class_name(o: KnownObject) -> Seq<char> {
    match o {
        KnownObject::UNKNOWN => "UNKNOWN"@,
        KnownObject::CHAPTER => "CHAPTER"@,
        KnownObject::SUBCHAPTER => "SUBCHAPTER"@,
        KnownObject::DIAGRAM => "DIAGRAM"@,
        KnownObject::DATATABLE => "DATATABLE"@,
    }
}

/// The root of the schema: the object type a document starts with.
pub open spec fn spec_root() -> KnownObject {
    KnownObject::CHAPTER
}

/// Whether an object type opens a new level of the document's structure.
pub open spec fn spec_is_independent(o: KnownObject) -> bool {
    o == KnownObject::CHAPTER || o == KnownObject::SUBCHAPTER
}

/// The object types that sit directly under `parent`, in schema order.
pub open spec fn spec_dependents(parent: KnownObject) -> Seq<KnownObject> {
    match parent {
        KnownObject::CHAPTER => seq![KnownObject::SUBCHAPTER],
        KnownObject::SUBCHAPTER => seq![KnownObject::DIAGRAM, KnownObject::DATATABLE],
        _ => seq![],
    }
}

/// Whether `class` sits directly under `parent`.
pub open spec fn spec_is_child(parent: KnownObject, class: KnownObject) -> bool {
    spec_dependents(parent).contains(class)
}

/// The independent object types, in schema order.
pub open spec fn spec_global_independents() -> Seq<KnownObject> {
    seq![KnownObject::CHAPTER, KnownObject::SUBCHAPTER]
}

impl KnownObject {
    /// Whether this object type belongs to a two-page pair.
    pub open spec fn spec_has_pair(self) -> bool {
        self == KnownObject::DIAGRAM || self == KnownObject::DATATABLE
    }

    /// Whether this object type opens a pair.
    pub open spec fn spec_is_first_in_pair(self) -> bool {
        self == KnownObject::DIAGRAM
    }

    /// Whether this object type closes a pair.
    pub open spec fn spec_is_second_in_pair(self) -> bool {
        self == KnownObject::DATATABLE
    }

    /// The discriminant of this object type.
    pub fn discriminant(self) -> (r: u8)
        ensures
            r == spec_discriminant(self),
            r < OBJECT_COUNT,
    {
        match self {
            KnownObject::UNKNOWN => 0,
            KnownObject::CHAPTER => 1,
            KnownObject::SUBCHAPTER => 2,
            KnownObject::DIAGRAM => 3,
            KnownObject::DATATABLE => 4,
        }
    }

    /// The object type with discriminant `v`, or an error when `v` names none.
    pub fn try_from_u8(v: u8) -> (r: Result<KnownObject, ObjectCastError>)
        ensures
            v < OBJECT_COUNT ==> r == Ok::<KnownObject, ObjectCastError>(spec_object_of(v)),
            v >= OBJECT_COUNT ==> r == Err::<KnownObject, ObjectCastError>(
                ObjectCastError::OutOfBounds(v),
            ),
    {
        if v == 0 {
            Ok(KnownObject::UNKNOWN)
        } else if v == 1 {
            Ok(KnownObject::CHAPTER)
        } else if v == 2 {
            Ok(KnownObject::SUBCHAPTER)
        } else if v == 3 {
            Ok(KnownObject::DIAGRAM)
        } else if v == 4 {
            Ok(KnownObject::DATATABLE)
        } else {
            Err(ObjectCastError::OutOfBounds(v))
        }
    }

    /// The name of this object type, as the schema spells it.
    pub fn name(&self) -> (r: &'static str)
        ensures
            r@ == spec_class_name(*self),
    {
        match self {
            KnownObject::UNKNOWN => "UNKNOWN",
            KnownObject::CHAPTER => "CHAPTER",
            KnownObject::SUBCHAPTER => "SUBCHAPTER",
            KnownObject::DIAGRAM => "DIAGRAM",
            KnownObject::DATATABLE => "DATATABLE",
        }
    }

    /// Whether this object type belongs to a two-page pair.
    pub fn has_pair(&self) -> (r: bool)
        ensures
            r == self.spec_has_pair(),
    {
        *self == KnownObject::DIAGRAM || *self == KnownObject::DATATABLE
    }

    /// Whether this object type opens a pair.
    pub fn is_first_in_pair(&self) -> (r: bool)
        ensures
            r == self.spec_is_first_in_pair(),
    {
        *self == KnownObject::DIAGRAM
    }

    /// Whether this object type closes a pair.
    pub fn is_second_in_pair(&self) -> (r: bool)
        ensures
            r == self.spec_is_second_in_pair(),
    {
        *self == KnownObject::DATATABLE
    }
}

/// The root of the schema: the object type a document starts with.
pub fn root_object() -> (r: KnownObject)
    ensures
        r == spec_root(),
{
    KnownObject::CHAPTER
}

/// Whether an object type opens a new level of the document's structure.
pub fn is_independent(o: KnownObject) -> (r: bool)
    ensures
        r == spec_is_independent(o),
{
    o == KnownObject::CHAPTER || o == KnownObject::SUBCHAPTER
}

/// Whether `class` sits directly under `parent`.
pub fn is_child(parent: KnownObject, class: KnownObject) -> (r: bool)
    ensures
        r == spec_is_child(parent, class),
{
    let deps = get_all_dependents(parent);
    let mut i: usize = 0;
    while i < deps.len()
        invariant
            deps@ == spec_dependents(parent),
            i <= deps.len(),
            forall|j: int| 0 <= j < i ==> deps@[j] != class,
        decreases deps.len() - i,
    {
        if deps[i] == class {
            return true;
        }
        i = i + 1;
    }
    false
}

/// Whether `prev` followed by `class` is a valid pair: the first of a pair, then the second.
pub fn is_pair(prev: KnownObject, class: KnownObject) -> (r: bool)
    ensures
        r == (prev.spec_is_first_in_pair() && class.spec_is_second_in_pair()),
{
    prev.is_first_in_pair() && class.is_second_in_pair()
}

/// The object types that sit directly under `parent`, in schema order.
pub fn get_all_dependents(parent: KnownObject) -> (r: Vec<KnownObject>)
    ensures
        r@ == spec_dependents(parent),
{
    match parent {
        KnownObject::CHAPTER => vec![KnownObject::SUBCHAPTER],
        KnownObject::SUBCHAPTER => vec![KnownObject::DIAGRAM, KnownObject::DATATABLE],
        _ => Vec::new(),
    }
}

/// The independent object types, in schema order.
pub fn get_global_independents() -> (r: Vec<KnownObject>)
    ensures
        r@ == spec_global_independents(),
{
    vec![KnownObject::CHAPTER, KnownObject::SUBCHAPTER]
}

/// The overrides the schema declares, in the order they are tried: none for this schema.
pub fn overrides() -> (r: Vec<OverrideConstraints>)
    ensures
        r@.len() == 0,
{
    Vec::new()
}

/// The override streams the schema declares: none for this schema.
pub fn override_streams() -> (r: Vec<MultiPageHierarchyBreak>)
    ensures
        r@.len() == 0,
{
    Vec::new()
}

} // verus!
