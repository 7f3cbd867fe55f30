//! The method area: the process-wide table of loaded classes, methods and
//! fields, with interned identity and reference-resolution caches.
//!
//! Classes, methods and fields live in typed arenas (vectors) and reference
//! each other by integer ids; an id is stable for the lifetime of the area.
//! The well-formedness predicate `MethodArea::wf` ties the arenas together:
//! ids in class records are in bounds, a super class always has a smaller id
//! than its subclasses (which grounds every walk up the chain), class names
//! are interned (one id per name), array classes are interned by element
//! type, and every class's instance-field layout is aligned, in bounds and
//! non-overlapping.

use crate::class_file::{ClassFile, CodeAttribute, ConstantPool, FieldInfo, MethodInfo, ACC_STATIC};
use crate::descriptor::{
    ft_chars, ft_eq, ft_name, md_chars, BaseType, FieldDescriptor, FieldType, MethodDescriptor,
};
use crate::error::VmError;
use crate::heap::ObjectRef;
use crate::text::str_eq;
use crate::value::{default_value, extend_32_spec, store_ty_spec, Value};
use vstd::prelude::*;
use vstd::string::StringExecFns;

verus! {

/// The id of a loaded class: an index into `MethodArea::classes`.
#[derive(Debug, Clone, Copy, PartialEq, Eq, Hash, Structural)]
pub struct ClassId(pub usize);

/// The id of a method: an index into `MethodArea::methods`.
#[derive(Debug, Clone, Copy, PartialEq, Eq, Hash, Structural)]
pub struct MethodId(pub usize);

/// The id of a field: an index into `MethodArea::fields`.
#[derive(Debug, Clone, Copy, PartialEq, Eq, Hash, Structural)]
pub struct FieldId(pub usize);

/// The loader that defined a class.  Only the bootstrap loader exists today.
#[derive(Debug, Clone, Copy, PartialEq, Eq, Structural)]
pub enum ClassLoader {
    Bootstrap,
    UserDefined,
}

/// Where a field's value lives: a static slot of its own, or a byte offset
/// inside every instance.  The two are mutually exclusive and decided at
/// load time.
#[derive(Debug)]
pub enum FieldBacking {
    StaticValue(Value),
    /// Stored in the object at the given offset.
    Instance(u32),
}

#[derive(Debug)]
pub struct Field {
    pub name: String,
    pub defining_class: ClassId,
    pub access_flags: u16,
    pub descriptor: FieldDescriptor,
    pub backing: FieldBacking,
}

impl Field {
    /// Read the static slot, widening a sub-int value to `Int` as every load
    /// from narrow storage does.
    pub fn load_static(&self) -> (r: Value)
        requires
            self.backing is StaticValue,
        ensures
            match self.backing {
                FieldBacking::StaticValue(v) => r == extend_32_spec(v),
                _ => true,
            },
    {
        match &self.backing {
            FieldBacking::StaticValue(v) => (*v).extend_32(),
            _ => Value::Int(0),
        }
    }

    /// Write the static slot, narrowing the value to the field's declared
    /// width first.
    pub fn store_static(&mut self, val: Value)
        requires
            old(self).backing is StaticValue,
        ensures
            final(self).backing == FieldBacking::StaticValue(
                store_ty_spec(val, old(self).descriptor.0),
            ),
            final(self).name == old(self).name,
            final(self).defining_class == old(self).defining_class,
            final(self).access_flags == old(self).access_flags,
            final(self).descriptor == old(self).descriptor,
    {
        let narrowed = val.store_ty(&self.descriptor.0);
        self.backing = FieldBacking::StaticValue(narrowed);
    }

    pub fn is_static(&self) -> (r: bool)
        ensures
            r == (self.access_flags & ACC_STATIC != 0),
    {
        self.access_flags & ACC_STATIC != 0
    }
}

#[derive(Debug)]
pub struct Method {
    pub defining_class: ClassId,
    pub name: String,
    pub descriptor: MethodDescriptor,
    pub code: Option<CodeAttribute>,
    pub access_flags: u16,
}

/// A resolution-cache slot: a constant-pool symbolic reference, either still
/// unresolved or bound to the id it resolved to.  A slot only ever moves
/// from `Unresolved` to one of the resolved states, never back.
#[derive(Debug, Clone, Copy, PartialEq, Eq, Structural)]
pub enum Reference {
    Unresolved,
    Field(FieldId),
    Method(MethodId),
    Class(ClassId),
}

impl Reference {
    pub fn is_unresolved(self) -> (r: bool)
        ensures
            r == (self is Unresolved),
    {
        matches!(self, Reference::Unresolved)
    }

    pub fn field(self) -> (r: Option<FieldId>)
        ensures
            match self {
                Reference::Field(id) => r == Some(id),
                _ => r is None,
            },
    {
        match self {
            Reference::Field(id) => Some(id),
            _ => None,
        }
    }

    pub fn method(self) -> (r: Option<MethodId>)
        ensures
            match self {
                Reference::Method(id) => r == Some(id),
                _ => r is None,
            },
    {
        match self {
            Reference::Method(id) => Some(id),
            _ => None,
        }
    }

    pub fn class(self) -> (r: Option<ClassId>)
        ensures
            match self {
                Reference::Class(id) => r == Some(id),
                _ => r is None,
            },
    {
        match self {
            Reference::Class(id) => Some(id),
            _ => None,
        }
    }
}

/// A loaded class: a regular class linked from a class file, or a synthetic
/// array class interned by element type.
#[derive(Debug)]
pub struct Class {
    pub constant_pool: ConstantPool,
    /// The resolution cache, indexed by constant-pool index (slot 0 unused);
    /// its length is always the table length plus one.
    pub references: Vec<Reference>,
    pub initialized: bool,
    pub class_obj: Option<ObjectRef>,
    pub defining_loader: ClassLoader,
    pub name: String,
    pub super_class: Option<ClassId>,
    pub interfaces: Vec<ClassId>,
    pub access_flags: u16,
    pub methods: Vec<MethodId>,
    pub fields: Vec<FieldId>,
    /// The element type; `Some` exactly for array classes.
    pub elem_ty: Option<FieldType>,
    /// Instance size in bytes, header included.
    pub size: u32,
    /// Instance alignment in bytes.
    pub alignment: u8,
}

/// The bytes every instance begins with: the slot that stores its class id.
pub const OBJECT_HEADER_SIZE: u32 = 8;

pub const OBJECT_HEADER_ALIGNMENT: u8 = 8;

/// The size in bytes a field of this type occupies in an object or array.
pub open spec fn field_size(t: FieldType) -> nat {
    match t {
        FieldType::BaseType(BaseType::B) => 1,
        FieldType::BaseType(BaseType::C) => 2,
        FieldType::BaseType(BaseType::D) => 8,
        FieldType::BaseType(BaseType::F) => 4,
        FieldType::BaseType(BaseType::I) => 4,
        FieldType::BaseType(BaseType::J) => 8,
        FieldType::BaseType(BaseType::S) => 2,
        FieldType::BaseType(BaseType::Z) => 1,
        FieldType::ObjectType(_) => 8,
        FieldType::ArrayType(_) => 8,
    }
}

/// The alignment of a field of this type; always its size here, since every
/// width is a power of two.
pub open spec fn field_align(t: FieldType) -> nat {
    field_size(t)
}

/// The byte size and alignment of a field of the given type.  Primitives use
/// their natural width; references use pointer width.
pub fn layout_for_field(field_ty: &FieldType) -> (r: (usize, usize))
    ensures
        r.0 == field_size(*field_ty),
        r.1 == field_align(*field_ty),
{
    match field_ty {
        FieldType::BaseType(ty) => match ty {
            BaseType::B => (1, 1),
            BaseType::C => (2, 2),
            BaseType::D => (8, 8),
            BaseType::F => (4, 4),
            BaseType::I => (4, 4),
            BaseType::J => (8, 8),
            BaseType::S => (2, 2),
            BaseType::Z => (1, 1),
        },
        FieldType::ObjectType(_) => (8, 8),
        FieldType::ArrayType(_) => (8, 8),
    }
}

/// The byte size and alignment of a field with the given descriptor.
pub fn size_and_alignment_of_field(field_desc: &FieldDescriptor) -> (r: (usize, usize))
    ensures
        r.0 == field_size(field_desc.0),
        r.1 == field_align(field_desc.0),
{
    layout_for_field(&field_desc.0)
}

/// The process-wide store of loaded classes, methods and fields.
#[derive(Debug)]
pub struct MethodArea {
    pub classes: Vec<Class>,
    pub methods: Vec<Method>,
    pub fields: Vec<Field>,
    /// Which heap object reifies which class, for the runtime's class
    /// mirrors.
    pub class_objs: Vec<(ObjectRef, ClassId)>,
    /// The interned classes standing for the primitive types, keyed by the
    /// primitive's name.
    pub primitive_classes: Vec<(String, ClassId)>,
}

/// The instance bytes a class inherits before its own declared fields: its
/// super class's size, or the object header for a root class.
pub open spec fn base_size(ma: MethodArea, i: int) -> int {
    match ma.classes@[i].super_class {
        Some(s) => ma.classes@[s.0 as int].size as int,
        None => OBJECT_HEADER_SIZE as int,
    }
}

/// Layout well-formedness of the class at index `i`: declared instance
/// fields lie between the inherited bytes and the class size, are aligned,
/// and appear at strictly increasing, non-overlapping offsets.
pub open spec fn layout_wf(ma: MethodArea, i: int) -> bool {
    let c = ma.classes@[i];
    &&& c.alignment >= 1
    &&& (c.super_class matches Some(s) ==> ma.classes@[s.0 as int].alignment <= c.alignment)
    &&& base_size(ma, i) <= c.size as int
    &&& forall|k: int|
        #![trigger c.fields@[k]]
        0 <= k < c.fields@.len() ==> {
            let f = ma.fields@[c.fields@[k].0 as int];
            f.backing matches FieldBacking::Instance(off) ==> {
                &&& base_size(ma, i) <= off as int
                &&& off as int % field_align(f.descriptor.0) as int == 0
                &&& off + field_size(f.descriptor.0) <= c.size
                &&& field_align(f.descriptor.0) <= c.alignment
            }
        }
    &&& forall|k1: int, k2: int|
        #![trigger c.fields@[k1], c.fields@[k2]]
        0 <= k1 < k2 < c.fields@.len() ==> {
            let f1 = ma.fields@[c.fields@[k1].0 as int];
            let f2 = ma.fields@[c.fields@[k2].0 as int];
            match (f1.backing, f2.backing) {
                (FieldBacking::Instance(off1), FieldBacking::Instance(off2)) => off1
                    + field_size(f1.descriptor.0) <= off2 as int,
                _ => true,
            }
        }
}

/// Well-formedness of the class record at index `i`.
pub open spec fn wf_class_at(ma: MethodArea, i: int) -> bool {
    let c = ma.classes@[i];
    &&& (c.super_class matches Some(s) ==> s.0 < i)
    &&& forall|k: int| 0 <= k < c.interfaces@.len() ==> #[trigger] c.interfaces@[k].0 < i
    &&& forall|k: int|
        0 <= k < c.methods@.len() ==> #[trigger] c.methods@[k].0 < ma.methods@.len()
    &&& forall|k: int| 0 <= k < c.fields@.len() ==> #[trigger] c.fields@[k].0 < ma.fields@.len()
    &&& c.references@.len() == c.constant_pool.table@.len() + 1
    &&& layout_wf(ma, i)
}

/// Well-formedness of the whole method area.
impl MethodArea {
    pub open spec fn wf(self) -> bool {
        &&& forall|i: int| 0 <= i < self.classes@.len() ==> wf_class_at(self, i)
        &&& forall|i: int, j: int|
            0 <= i < j < self.classes@.len() ==> self.classes@[i].name@ != self.classes@[j].name@
        &&& forall|i: int, j: int|
            #![trigger self.classes@[i].elem_ty, self.classes@[j].elem_ty]
            0 <= i < self.classes@.len() && 0 <= j < self.classes@.len() && i != j ==> match (
            self.classes@[i].elem_ty,
            self.classes@[j].elem_ty,
            ) {
                (Some(ti), Some(tj)) => ft_chars(ti) != ft_chars(tj),
                _ => true,
            }
        &&& forall|j: int|
            0 <= j < self.methods@.len() ==> (#[trigger] self.methods@[j]).defining_class.0
                < self.classes@.len()
        &&& forall|j: int|
            0 <= j < self.fields@.len() ==> (#[trigger] self.fields@[j]).defining_class.0
                < self.classes@.len() && ((self.fields@[j].access_flags & ACC_STATIC != 0)
                <==> self.fields@[j].backing is StaticValue)
        &&& forall|j: int|
            0 <= j < self.class_objs@.len() ==> (#[trigger] self.class_objs@[j]).1.0
                < self.classes@.len()
        &&& forall|j: int|
            0 <= j < self.primitive_classes@.len() ==> (#[trigger] self.primitive_classes@[j]).1.0
                < self.classes@.len()
    }

    /// A fresh, empty method area.
    pub fn new() -> (r: MethodArea)
        ensures
            r.wf(),
            r.classes@.len() == 0,
            r.methods@.len() == 0,
            r.fields@.len() == 0,
    {
        MethodArea {
            classes: Vec::new(),
            methods: Vec::new(),
            fields: Vec::new(),
            class_objs: Vec::new(),
            primitive_classes: Vec::new(),
        }
    }
}

/// Class names are interned: within a well-formed method area, equal names
/// mean equal ids, so re-resolving the name of any loaded class yields that
/// class again.
pub proof fn lemma_class_name_identifies(ma: MethodArea, i: int, j: int)
    requires
        ma.wf(),
        0 <= i < ma.classes@.len(),
        0 <= j < ma.classes@.len(),
        ma.classes@[i].name@ == ma.classes@[j].name@,
    ensures
        i == j,
{
    if i < j {
        assert(ma.classes@[i].name@ != ma.classes@[j].name@);
    } else if j < i {
        assert(ma.classes@[j].name@ != ma.classes@[i].name@);
    }
}

/// Whether `anc` lies on the super-class chain of `c` (inclusively).
pub open spec fn is_ancestor(ma: MethodArea, c: int, anc: int) -> bool
    decreases c,
{
    if !(0 <= c < ma.classes@.len()) {
        false
    } else if c == anc {
        true
    } else {
        match ma.classes@[c].super_class {
            Some(s) => if s.0 < c {
                is_ancestor(ma, s.0 as int, anc)
            } else {
                false
            },
            None => false,
        }
    }
}

/// Instance size is monotonic along the super-class chain: a subclass's
/// layout contains all of its ancestors' instance bytes, so every inherited
/// field keeps its offset and stays in bounds in the subclass.
pub proof fn lemma_size_monotonic(ma: MethodArea, c: int, anc: int)
    requires
        ma.wf(),
        0 <= c < ma.classes@.len(),
        is_ancestor(ma, c, anc),
    ensures
        0 <= anc < ma.classes@.len(),
        ma.classes@[anc].size <= ma.classes@[c].size,
    decreases c,
{
    if c != anc {
        let s = ma.classes@[c].super_class.unwrap();
        assert(wf_class_at(ma, c));
        lemma_size_monotonic(ma, s.0 as int, anc);
    }
}

/// Alignment is monotonic along the super-class chain as well: a subclass
/// is at least as strictly aligned as each of its ancestors.
pub proof fn lemma_alignment_monotonic(ma: MethodArea, c: int, anc: int)
    requires
        ma.wf(),
        0 <= c < ma.classes@.len(),
        is_ancestor(ma, c, anc),
    ensures
        0 <= anc < ma.classes@.len(),
        ma.classes@[anc].alignment <= ma.classes@[c].alignment,
    decreases c,
{
    if c != anc {
        let s = ma.classes@[c].super_class.unwrap();
        assert(wf_class_at(ma, c));
        lemma_alignment_monotonic(ma, s.0 as int, anc);
    }
}

/// Every instance field of an ancestor class occupies bytes below the
/// subclass's own declared fields, and lies within the subclass's size: the
/// inherited part of the layout is shared verbatim.
pub proof fn lemma_inherited_field_in_bounds(ma: MethodArea, c: int, anc: int, k: int)
    requires
        ma.wf(),
        0 <= c < ma.classes@.len(),
        is_ancestor(ma, c, anc),
        0 <= k < ma.classes@[anc].fields@.len(),
        ma.fields@[ma.classes@[anc].fields@[k].0 as int].backing matches FieldBacking::Instance(_),
    ensures
        ({
            let f = ma.fields@[ma.classes@[anc].fields@[k].0 as int];
            match f.backing {
                FieldBacking::Instance(off) => off + field_size(f.descriptor.0)
                    <= ma.classes@[c].size,
                _ => true,
            }
        }),
{
    lemma_size_monotonic(ma, c, anc);
    assert(wf_class_at(ma, anc));
    let f = ma.fields@[ma.classes@[anc].fields@[k].0 as int];
    assert(match f.backing {
        FieldBacking::Instance(off) => off + field_size(f.descriptor.0) <= ma.classes@[anc].size,
        _ => true,
    });
}

} // verus!

verus! {

impl MethodArea {
    /// The index of the class named `name`, if one is loaded.
    pub fn find_class_index(&self, name: &str) -> (r: Option<usize>)
        ensures
            match r {
                Some(i) => i < self.classes@.len() && self.classes@[i as int].name@ == name@,
                None => forall|m: int|
                    0 <= m < self.classes@.len() ==> self.classes@[m].name@ != name@,
            },
    {
        let mut i: usize = 0;
        while i < self.classes.len()
            invariant
                i <= self.classes@.len(),
                forall|m: int| 0 <= m < i ==> self.classes@[m].name@ != name@,
            decreases self.classes@.len() - i,
        {
            if str_eq(self.classes[i].name.as_str(), name) {
                return Some(i);
            }
            i = i + 1;
        }
        None
    }

    /// The index of the interned array class for element type `elem_ty`, if
    /// one exists.
    fn find_array_class(&self, elem_ty: &FieldType) -> (r: Option<usize>)
        ensures
            match r {
                Some(i) => i < self.classes@.len() && match self.classes@[i as int].elem_ty {
                    Some(t) => ft_chars(t) == ft_chars(*elem_ty),
                    None => false,
                },
                None => forall|m: int|
                    #![trigger self.classes@[m].elem_ty]
                    0 <= m < self.classes@.len() ==> match self.classes@[m].elem_ty {
                        Some(t) => ft_chars(t) != ft_chars(*elem_ty),
                        None => true,
                    },
            },
    {
        let mut i: usize = 0;
        while i < self.classes.len()
            invariant
                i <= self.classes@.len(),
                forall|m: int|
                    #![trigger self.classes@[m].elem_ty]
                    0 <= m < i ==> match self.classes@[m].elem_ty {
                        Some(t) => ft_chars(t) != ft_chars(*elem_ty),
                        None => true,
                    },
            decreases self.classes@.len() - i,
        {
            let hit = match &self.classes[i].elem_ty {
                Some(t) => ft_eq(t, elem_ty),
                None => false,
            };
            if hit {
                return Some(i);
            }
            i = i + 1;
        }
        None
    }

    /// Return the interned array class of the given element type, creating
    /// it on first use.  The element type is the sole identity of an array
    /// class: resolving the same element type again yields the same id and
    /// leaves the method area unchanged.
    pub fn resolve_arr_class(&mut self, elem_ty: &FieldType) -> (r: Result<ClassId, VmError>)
        requires
            old(self).wf(),
        ensures
            final(self).wf(),
            final(self).methods@ == old(self).methods@,
            final(self).fields@ == old(self).fields@,
            final(self).class_objs@ == old(self).class_objs@,
            final(self).primitive_classes@ == old(self).primitive_classes@,
            old(self).classes@.len() <= final(self).classes@.len(),
            forall|i: int|
                0 <= i < old(self).classes@.len() ==> final(self).classes@[i] == old(
                    self,
                ).classes@[i],
            (exists|i: int|
                0 <= i < old(self).classes@.len() && match (#[trigger] old(
                    self,
                ).classes@[i]).elem_ty {
                    Some(t) => ft_chars(t) == ft_chars(*elem_ty),
                    None => false,
                }) ==> r is Ok,
            match r {
                Ok(id) => {
                    &&& id.0 < final(self).classes@.len()
                    &&& match final(self).classes@[id.0 as int].elem_ty {
                        Some(t) => ft_chars(t) == ft_chars(*elem_ty),
                        None => false,
                    }
                    &&& forall|i: int|
                        #![trigger old(self).classes@[i].elem_ty]
                        0 <= i < old(self).classes@.len() ==> match old(
                            self,
                        ).classes@[i].elem_ty {
                            Some(t) => ft_chars(t) == ft_chars(*elem_ty) ==> id.0 == i,
                            None => true,
                        }
                    &&& (forall|i: int|
                        #![trigger old(self).classes@[i].elem_ty]
                        0 <= i < old(self).classes@.len() ==> match old(
                            self,
                        ).classes@[i].elem_ty {
                            Some(t) => ft_chars(t) != ft_chars(*elem_ty),
                            None => true,
                        }) ==> {
                        // First use: the synthetic class is fresh, has the
                        // root object class as its super, and no members.
                        &&& final(self).classes@[id.0 as int].methods@.len() == 0
                        &&& final(self).classes@[id.0 as int].fields@.len() == 0
                        &&& final(self).classes@[id.0 as int].initialized == false
                        &&& match final(self).classes@[id.0 as int].super_class {
                            Some(sup) => final(self).classes@[sup.0 as int].name@
                                == "java/lang/Object"@,
                            None => false,
                        }
                    }
                },
                Err(_) => true,
            },
    {
        match self.find_array_class(elem_ty) {
            Some(i) => {
                assert(forall|m: int|
                    #![trigger self.classes@[m].elem_ty]
                    0 <= m < self.classes@.len() && m != i ==> match self.classes@[m].elem_ty {
                        Some(t) => ft_chars(t) != ft_chars(*elem_ty),
                        None => true,
                    });
                Ok(ClassId(i))
            },
            None => {
                let super_idx = match self.find_class_index("java/lang/Object") {
                    Some(i) => i,
                    None => {
                        return Err(
                            VmError::ClassNotFound(String::from_str("java/lang/Object")),
                        );
                    },
                };
                let mut name = elem_ty.display_name();
                name.append("[]");
                let name_chars = crate::text::str_chars(name.as_str());
                if name_chars.len() > 0 && name_chars[0] == '[' {
                    // A display name led by `[` (an element class itself so
                    // named) would collide with the array-descriptor
                    // resolution path; refuse to intern it.
                    return Err(VmError::ClassFormatError);
                }
                if self.find_class_index(name.as_str()).is_some() {
                    return Err(VmError::LinkageError);
                }
                let super_class = &self.classes[super_idx];
                let size = super_class.size;
                let alignment = super_class.alignment;
                let mut references: Vec<Reference> = Vec::new();
                references.push(Reference::Unresolved);
                let class = Class {
                    initialized: false,
                    defining_loader: ClassLoader::Bootstrap,
                    references,
                    class_obj: None,
                    name,
                    super_class: Some(ClassId(super_idx)),
                    interfaces: Vec::new(),
                    methods: Vec::new(),
                    fields: Vec::new(),
                    access_flags: 0,
                    constant_pool: ConstantPool::empty(),
                    elem_ty: Some(elem_ty.clone()),
                    size,
                    alignment,
                };
                let id: usize = self.classes.len();
                self.classes.push(class);
                proof {
                    assert forall|i: int| 0 <= i < final(self).classes@.len() implies wf_class_at(
                        *self,
                        i,
                    ) by {
                        if i < id {
                            assert(wf_class_at(*old(self), i));
                            assert(final(self).classes@[i] == old(self).classes@[i]);
                        } else {
                            assert(wf_class_at(*old(self), super_idx as int));
                        }
                    }
                }
                Ok(ClassId(id))
            },
        }
    }
}

} // verus!

verus! {

/// Whether method `m` has the given name and descriptor text.
pub open spec fn method_matches(ma: MethodArea, m: MethodId, name: Seq<char>, desc: Seq<char>) -> bool {
    &&& m.0 < ma.methods@.len()
    &&& ma.methods@[m.0 as int].name@ == name
    &&& md_chars(ma.methods@[m.0 as int].descriptor) == desc
}

/// The first id in `ms` whose method has the given name and descriptor.
pub open spec fn first_method_in(
    ma: MethodArea,
    ms: Seq<MethodId>,
    name: Seq<char>,
    desc: Seq<char>,
) -> Option<MethodId>
    decreases ms.len(),
{
    if ms.len() == 0 {
        None
    } else if method_matches(ma, ms[0], name, desc) {
        Some(ms[0])
    } else {
        first_method_in(ma, ms.drop_first(), name, desc)
    }
}

/// Method resolution: the first declared `(name, descriptor)` match on the
/// super-class chain starting at class index `c`.
pub open spec fn method_search(ma: MethodArea, c: int, name: Seq<char>, desc: Seq<char>) -> Option<
    MethodId,
>
    decreases c,
{
    if !(0 <= c < ma.classes@.len()) {
        None
    } else {
        match first_method_in(ma, ma.classes@[c].methods@, name, desc) {
            Some(m) => Some(m),
            None => match ma.classes@[c].super_class {
                Some(s) => if s.0 < c {
                    method_search(ma, s.0 as int, name, desc)
                } else {
                    None
                },
                None => None,
            },
        }
    }
}

proof fn lemma_first_method_skip(
    ma: MethodArea,
    ms: Seq<MethodId>,
    name: Seq<char>,
    desc: Seq<char>,
    k: int,
)
    requires
        0 <= k <= ms.len(),
        forall|m: int| 0 <= m < k ==> !method_matches(ma, #[trigger] ms[m], name, desc),
    ensures
        first_method_in(ma, ms, name, desc) == first_method_in(ma, ms.skip(k), name, desc),
    decreases k,
{
    if k > 0 {
        assert(ms.drop_first().skip(k - 1) =~= ms.skip(k));
        lemma_first_method_skip(ma, ms.drop_first(), name, desc, k - 1);
    } else {
        assert(ms.skip(0) =~= ms);
    }
}

/// Whether field `f` has the given name.
pub open spec fn field_matches(ma: MethodArea, f: FieldId, name: Seq<char>) -> bool {
    &&& f.0 < ma.fields@.len()
    &&& ma.fields@[f.0 as int].name@ == name
}

/// The first id in `fs` whose field has the given name.
pub open spec fn first_field_in(ma: MethodArea, fs: Seq<FieldId>, name: Seq<char>) -> Option<
    FieldId,
>
    decreases fs.len(),
{
    if fs.len() == 0 {
        None
    } else if field_matches(ma, fs[0], name) {
        Some(fs[0])
    } else {
        first_field_in(ma, fs.drop_first(), name)
    }
}

/// Field resolution: the first declared name match on the super-class chain
/// starting at class index `c`.  Interfaces are not walked; that is a known
/// limitation of this design.
pub open spec fn field_search(ma: MethodArea, c: int, name: Seq<char>) -> Option<FieldId>
    decreases c,
{
    if !(0 <= c < ma.classes@.len()) {
        None
    } else {
        match first_field_in(ma, ma.classes@[c].fields@, name) {
            Some(f) => Some(f),
            None => match ma.classes@[c].super_class {
                Some(s) => if s.0 < c {
                    field_search(ma, s.0 as int, name)
                } else {
                    None
                },
                None => None,
            },
        }
    }
}

proof fn lemma_first_field_skip(ma: MethodArea, fs: Seq<FieldId>, name: Seq<char>, k: int)
    requires
        0 <= k <= fs.len(),
        forall|m: int| 0 <= m < k ==> !field_matches(ma, #[trigger] fs[m], name),
    ensures
        first_field_in(ma, fs, name) == first_field_in(ma, fs.skip(k), name),
    decreases k,
{
    if k > 0 {
        assert(fs.drop_first().skip(k - 1) =~= fs.skip(k));
        lemma_first_field_skip(ma, fs.drop_first(), name, k - 1);
    } else {
        assert(fs.skip(0) =~= fs);
    }
}

impl MethodArea {
    /// Search the class's declared methods for an exact (name, descriptor)
    /// match, walking into the super class on a miss.
    pub fn resolve_method(
        &self,
        class: ClassId,
        name: &str,
        descriptor: &MethodDescriptor,
    ) -> (r: Result<MethodId, VmError>)
        requires
            self.wf(),
            class.0 < self.classes@.len(),
        ensures
            match r {
                Ok(m) => {
                    &&& method_search(*self, class.0 as int, name@, md_chars(*descriptor))
                        == Some(m)
                    &&& m.0 < self.methods@.len()
                    &&& self.methods@[m.0 as int].name@ == name@
                    &&& md_chars(self.methods@[m.0 as int].descriptor) == md_chars(*descriptor)
                },
                Err(e) => {
                    &&& e == VmError::NoSuchMethodError
                    &&& method_search(*self, class.0 as int, name@, md_chars(*descriptor))
                        is None
                },
            },
    {
        let mut cur: usize = class.0;
        loop
            invariant
                self.wf(),
                cur < self.classes@.len(),
                method_search(*self, class.0 as int, name@, md_chars(*descriptor))
                    == method_search(*self, cur as int, name@, md_chars(*descriptor)),
            decreases cur,
        {
            let ms = &self.classes[cur].methods;
            let mut k: usize = 0;
            while k < ms.len()
                invariant
                    self.wf(),
                    cur < self.classes@.len(),
                    ms@ == self.classes@[cur as int].methods@,
                    method_search(*self, class.0 as int, name@, md_chars(*descriptor))
                        == method_search(*self, cur as int, name@, md_chars(*descriptor)),
                    k <= ms@.len(),
                    forall|m: int|
                        0 <= m < k ==> !method_matches(
                            *self,
                            #[trigger] ms@[m],
                            name@,
                            md_chars(*descriptor),
                        ),
                decreases ms@.len() - k,
            {
                let m_id = ms[k];
                assert(m_id.0 < self.methods@.len()) by {
                    assert(wf_class_at(*self, cur as int));
                }
                let m = &self.methods[m_id.0];
                if str_eq(m.name.as_str(), name) && crate::descriptor::md_eq(
                    &m.descriptor,
                    descriptor,
                ) {
                    proof {
                        lemma_first_method_skip(*self, ms@, name@, md_chars(*descriptor), k as int);
                        assert(ms@.skip(k as int)[0] == ms@[k as int]);
                        assert(first_method_in(*self, ms@.skip(k as int), name@, md_chars(*descriptor))
                            == Some(m_id));
                    }
                    return Ok(m_id);
                }
                k = k + 1;
            }
            proof {
                lemma_first_method_skip(*self, ms@, name@, md_chars(*descriptor), ms@.len() as int);
                assert(ms@.skip(ms@.len() as int) =~= Seq::<MethodId>::empty());
            }
            let super_class = self.classes[cur].super_class;
            match super_class {
                Some(s) => {
                    assert(s.0 < cur) by {
                        assert(wf_class_at(*self, cur as int));
                    }
                    cur = s.0;
                },
                None => {
                    return Err(VmError::NoSuchMethodError);
                },
            }
        }
    }

    /// Search the class's declared fields for a name match, walking into the
    /// super class on a miss.
    pub fn resolve_field(&self, class: ClassId, name: &str) -> (r: Result<FieldId, VmError>)
        requires
            self.wf(),
            class.0 < self.classes@.len(),
        ensures
            match r {
                Ok(f) => {
                    &&& field_search(*self, class.0 as int, name@) == Some(f)
                    &&& f.0 < self.fields@.len()
                    &&& self.fields@[f.0 as int].name@ == name@
                },
                Err(e) => {
                    &&& e == VmError::NoSuchFieldError
                    &&& field_search(*self, class.0 as int, name@) is None
                },
            },
    {
        let mut cur: usize = class.0;
        loop
            invariant
                self.wf(),
                cur < self.classes@.len(),
                field_search(*self, class.0 as int, name@) == field_search(
                    *self,
                    cur as int,
                    name@,
                ),
            decreases cur,
        {
            let fs = &self.classes[cur].fields;
            let mut k: usize = 0;
            while k < fs.len()
                invariant
                    self.wf(),
                    cur < self.classes@.len(),
                    fs@ == self.classes@[cur as int].fields@,
                    field_search(*self, class.0 as int, name@) == field_search(
                        *self,
                        cur as int,
                        name@,
                    ),
                    k <= fs@.len(),
                    forall|m: int|
                        0 <= m < k ==> !field_matches(*self, #[trigger] fs@[m], name@),
                decreases fs@.len() - k,
            {
                let f_id = fs[k];
                assert(f_id.0 < self.fields@.len()) by {
                    assert(wf_class_at(*self, cur as int));
                }
                let f = &self.fields[f_id.0];
                if str_eq(f.name.as_str(), name) {
                    proof {
                        lemma_first_field_skip(*self, fs@, name@, k as int);
                        assert(fs@.skip(k as int)[0] == fs@[k as int]);
                        assert(first_field_in(*self, fs@.skip(k as int), name@) == Some(f_id));
                    }
                    return Ok(f_id);
                }
                k = k + 1;
            }
            proof {
                lemma_first_field_skip(*self, fs@, name@, fs@.len() as int);
                assert(fs@.skip(fs@.len() as int) =~= Seq::<FieldId>::empty());
            }
            let super_class = self.classes[cur].super_class;
            match super_class {
                Some(s) => {
                    assert(s.0 < cur) by {
                        assert(wf_class_at(*self, cur as int));
                    }
                    cur = s.0;
                },
                None => {
                    return Err(VmError::NoSuchFieldError);
                },
            }
        }
    }

    /// Resolve a class by name: an already-loaded class, or, for a name
    /// beginning with `[`, the interned array class of the element type the
    /// rest of the name describes.  This table never does I/O: a regular
    /// class that has not been defined is `ClassNotFound`.
    pub fn resolve_class(&mut self, name: &str) -> (r: Result<ClassId, VmError>)
        requires
            old(self).wf(),
        ensures
            final(self).wf(),
            final(self).methods@ == old(self).methods@,
            final(self).fields@ == old(self).fields@,
            final(self).class_objs@ == old(self).class_objs@,
            final(self).primitive_classes@ == old(self).primitive_classes@,
            old(self).classes@.len() <= final(self).classes@.len(),
            forall|i: int|
                0 <= i < old(self).classes@.len() ==> final(self).classes@[i] == old(
                    self,
                ).classes@[i],
            match r {
                Ok(id) => {
                    &&& id.0 < final(self).classes@.len()
                    &&& if name@.len() > 0 && name@[0] == '[' {
                        match final(self).classes@[id.0 as int].elem_ty {
                            Some(t) => seq!['['] + ft_chars(t) == name@,
                            None => false,
                        }
                    } else {
                        final(self).classes@[id.0 as int].name@ == name@
                    }
                },
                Err(_) => true,
            },
            (name@.len() == 0 || name@[0] != '[') ==> {
                &&& *final(self) == *old(self)
                &&& (r is Ok <==> exists|i: int|
                    0 <= i < old(self).classes@.len() && (#[trigger] old(
                        self,
                    ).classes@[i]).name@ == name@)
                &&& (r matches Err(e) ==> e is ClassNotFound)
            },
    {
        let cs = crate::text::str_chars(name);
        if cs.len() > 0 && cs[0] == '[' {
            let desc = FieldDescriptor::read(name)?;
            match desc.0 {
                FieldType::ArrayType(at) => {
                    let component = at.0.0;
                    assert(seq!['['] + ft_chars(component) =~= name@);
                    self.resolve_arr_class(&component)
                },
                _ => {
                    proof {
                        assert(ft_chars(desc.0) == name@);
                        match desc.0 {
                            FieldType::BaseType(b) => {
                                assert(name@[0] == crate::descriptor::base_char(b));
                            },
                            FieldType::ObjectType(o) => {
                                assert(name@[0] == 'L');
                            },
                            _ => {},
                        }
                    }
                    Err(VmError::ClassFormatError)
                },
            }
        } else {
            match self.find_class_index(name) {
                Some(i) => Ok(ClassId(i)),
                None => Err(VmError::ClassNotFound(String::from_str(name))),
            }
        }
    }
}

} // verus!

verus! {

impl MethodArea {
    /// Link a decoded class file: resolve its super class and interfaces
    /// (which must already be defined), allocate method and field records,
    /// compute the instance-field layout, build the unresolved reference
    /// cache, and intern the class under its constant-pool name.
    ///
    /// Load-time errors: bad magic or an unsupported version is
    /// `ClassFormatError`, a taken name is `LinkageError`, a class listing
    /// itself among its interfaces is `ClassCircularityError`, and an
    /// undefined super class or interface is `ClassNotFound`.
    #[verifier::rlimit(100)]
    pub fn define_class(&mut self, cf: ClassFile) -> (r: Result<ClassId, VmError>)
        requires
            old(self).wf(),
        ensures
            final(self).wf(),
            final(self).class_objs@ == old(self).class_objs@,
            final(self).primitive_classes@ == old(self).primitive_classes@,
            old(self).classes@.len() <= final(self).classes@.len(),
            forall|i: int|
                0 <= i < old(self).classes@.len() ==> final(self).classes@[i] == old(
                    self,
                ).classes@[i],
            forall|i: int|
                0 <= i < old(self).methods@.len() ==> final(self).methods@[i] == old(
                    self,
                ).methods@[i],
            forall|i: int|
                0 <= i < old(self).fields@.len() ==> final(self).fields@[i] == old(
                    self,
                ).fields@[i],
            cf.magic != 0xCAFEBABEu32 ==> r == Err::<ClassId, VmError>(VmError::ClassFormatError),
            cf.magic == 0xCAFEBABEu32 && (cf.major_version < 45 || cf.major_version > 66) ==> r
                == Err::<ClassId, VmError>(VmError::ClassFormatError),
            r == Err::<ClassId, VmError>(VmError::LinkageError) ==> exists|i: int|
                0 <= i < final(self).classes@.len() && Some(
                    vstd::utf8::encode_utf8((#[trigger] final(self).classes@[i]).name@),
                ) == crate::class_file::cp_class_name_bytes(
                    cf.constant_pool,
                    cf.this_class as int,
                ),
            r == Err::<ClassId, VmError>(VmError::ClassCircularityError) ==> exists|k: int|
                0 <= k < cf.interfaces@.len() && crate::class_file::cp_class_name_bytes(
                    cf.constant_pool,
                    (#[trigger] cf.interfaces@[k]) as int,
                ) == crate::class_file::cp_class_name_bytes(cf.constant_pool, cf.this_class as int)
                && crate::class_file::cp_class_name_bytes(
                    cf.constant_pool,
                    cf.this_class as int,
                ) is Some,
            match r {
                Ok(id) => {
                    &&& old(self).classes@.len() <= id.0 < final(self).classes@.len()
                    &&& final(self).classes@[id.0 as int].initialized == false
                    &&& final(self).classes@[id.0 as int].elem_ty is None
                    &&& forall|i: int|
                        0 <= i < old(self).classes@.len() ==> (#[trigger] old(
                            self,
                        ).classes@[i]).name@ != final(self).classes@[id.0 as int].name@
                    &&& crate::class_file::cp_class_name_bytes(cf.constant_pool, cf.this_class as int)
                        == Some(vstd::utf8::encode_utf8(final(self).classes@[id.0 as int].name@))
                    &&& !(final(self).classes@[id.0 as int].name@.len() > 0
                        && final(self).classes@[id.0 as int].name@[0] == '[')
                    &&& final(self).classes@[id.0 as int].references@.len()
                        == cf.constant_pool.table@.len() + 1
                    &&& forall|j: int|
                        0 <= j < final(self).classes@[id.0 as int].references@.len()
                            ==> #[trigger] final(self).classes@[id.0 as int].references@[j]
                            == Reference::Unresolved
                    &&& final(self).classes@[id.0 as int].methods@.len() == cf.methods@.len()
                    &&& final(self).classes@[id.0 as int].fields@.len() == cf.fields@.len()
                    &&& (cf.super_class == 0
                        <==> final(self).classes@[id.0 as int].super_class is None)
                    &&& forall|j: int|
                        #![trigger final(self).classes@[id.0 as int].fields@[j]]
                        0 <= j < final(self).classes@[id.0 as int].fields@.len() ==> {
                            let f =
                                final(self).fields@[final(self).classes@[id.0 as int].fields@[j].0 as int];
                            (f.access_flags & ACC_STATIC != 0) ==> f.backing
                                == FieldBacking::StaticValue(default_value(f.descriptor.0))
                        }
                },
                Err(_) => true,
            },
    {
        if cf.magic != 0xCAFEBABEu32 {
            return Err(VmError::ClassFormatError);
        }
        // Major version 66 corresponds to the newest supported release.
        if cf.major_version < 45 || cf.major_version > 66 {
            return Err(VmError::ClassFormatError);
        }
        let ClassFile {
            constant_pool,
            access_flags,
            this_class,
            super_class,
            interfaces: cf_interfaces,
            fields: mut cf_fields,
            methods: mut cf_methods,
            ..
        } = cf;
        if constant_pool.table.len() > 65534 {
            return Err(VmError::ClassFormatError);
        }
        let name = constant_pool.class_name(this_class)?;
        let name_chars = crate::text::str_chars(name.as_str());
        if name_chars.len() > 0 && name_chars[0] == '[' {
            // A loaded class may not carry an array descriptor as its name:
            // names beginning with `[` belong to the array-class path.
            return Err(VmError::ClassFormatError);
        }
        if self.find_class_index(name.as_str()).is_some() {
            return Err(VmError::LinkageError);
        }
        let super_class_id: Option<ClassId> = if super_class > 0 {
            let super_name = constant_pool.class_name(super_class)?;
            let super_chars = crate::text::str_chars(super_name.as_str());
            if super_chars.len() > 0 && super_chars[0] == '[' {
                // A super class is a class, never an array descriptor.
                return Err(VmError::ClassFormatError);
            }
            Some(self.resolve_class(super_name.as_str())?)
        } else {
            // Only the root object class has no super class.
            None
        };
        let (base_size_v, base_alignment): (u32, u8) = match super_class_id {
            Some(s) => {
                proof {
                    assert(wf_class_at(*self, s.0 as int));
                }
                let sc = &self.classes[s.0];
                (sc.size, sc.alignment)
            },
            None => (OBJECT_HEADER_SIZE, OBJECT_HEADER_ALIGNMENT),
        };
        let mut interfaces: Vec<ClassId> = Vec::new();
        let mut ki: usize = 0;
        while ki < cf_interfaces.len()
            invariant
                cf.magic == 0xCAFEBABEu32,
                45 <= cf.major_version <= 66,
                self.wf(),
                self.methods@ == old(self).methods@,
                self.fields@ == old(self).fields@,
                self.class_objs@ == old(self).class_objs@,
                self.primitive_classes@ == old(self).primitive_classes@,
                old(self).classes@.len() <= self.classes@.len(),
                forall|i: int|
                    0 <= i < old(self).classes@.len() ==> self.classes@[i] == old(
                        self,
                    ).classes@[i],
                forall|j: int|
                    0 <= j < interfaces@.len() ==> (#[trigger] interfaces@[j]).0
                        < self.classes@.len(),
                match super_class_id {
                    Some(s) => s.0 < self.classes@.len() && self.classes@[s.0 as int].size
                        == base_size_v && self.classes@[s.0 as int].alignment == base_alignment
                        && base_alignment >= 1,
                    None => base_size_v == OBJECT_HEADER_SIZE && base_alignment
                        == OBJECT_HEADER_ALIGNMENT,
                },
                constant_pool == cf.constant_pool,
                this_class == cf.this_class,
                cf_interfaces@ == cf.interfaces@,
                crate::class_file::cp_class_name_bytes(cf.constant_pool, cf.this_class as int)
                    == Some(vstd::utf8::encode_utf8(name@)),
            decreases cf_interfaces@.len() - ki,
        {
            let interface_name = constant_pool.class_name(cf_interfaces[ki])?;
            let interface_chars = crate::text::str_chars(interface_name.as_str());
            if interface_chars.len() > 0 && interface_chars[0] == '[' {
                // An implemented interface is a class, never an array
                // descriptor.
                return Err(VmError::ClassFormatError);
            }
            if str_eq(interface_name.as_str(), name.as_str()) {
                // A class that lists itself as one of its own interfaces.
                proof {
                    assert(crate::class_file::cp_class_name_bytes(
                        cf.constant_pool,
                        cf.interfaces@[ki as int] as int,
                    ) == Some(vstd::utf8::encode_utf8(interface_name@)));
                }
                return Err(VmError::ClassCircularityError);
            }
            let iid = self.resolve_class(interface_name.as_str())?;
            interfaces.push(iid);
            ki = ki + 1;
        }
        // No new classes load from here on: the next index is this class's id.
        let new_id: usize = self.classes.len();

        // Gather the method records; nothing is interned yet.
        let mut methods_data: Vec<Method> = Vec::new();
        let mut km: usize = 0;
        while km < cf_methods.len()
            invariant
                cf.magic == 0xCAFEBABEu32,
                45 <= cf.major_version <= 66,
                crate::class_file::cp_class_name_bytes(cf.constant_pool, cf.this_class as int)
                    == Some(vstd::utf8::encode_utf8(name@)),
                self.wf(),
                self.methods@ == old(self).methods@,
                self.fields@ == old(self).fields@,
                self.class_objs@ == old(self).class_objs@,
                self.primitive_classes@ == old(self).primitive_classes@,
                old(self).classes@.len() <= self.classes@.len(),
                forall|i: int|
                    0 <= i < old(self).classes@.len() ==> self.classes@[i] == old(
                        self,
                    ).classes@[i],
                km <= cf_methods@.len(),
                methods_data@.len() == km,
                cf_methods@.len() == cf.methods@.len(),
                name@.len() == 0 || name@[0] != '[',
                forall|i: int|
                    0 <= i < methods_data@.len() ==> (#[trigger] methods_data@[i]).defining_class
                        == ClassId(new_id),
            decreases cf_methods@.len() - km,
        {
            let mut info = MethodInfo {
                access_flags: 0,
                name_index: 0,
                descriptor_index: 0,
                attributes: Vec::new(),
            };
            core::mem::swap(&mut info, &mut cf_methods[km]);
            let m_name = constant_pool.utf8(info.name_index)?;
            let m_desc_str = constant_pool.utf8(info.descriptor_index)?;
            let m_desc = MethodDescriptor::read(m_desc_str.as_str())?;
            let mut code: Option<CodeAttribute> = None;
            let mut ka: usize = 0;
            let n_attrs = info.attributes.len();
            while ka < n_attrs
                invariant
                    cf.magic == 0xCAFEBABEu32,
                    45 <= cf.major_version <= 66,
                    self.wf(),
                    self.methods@ == old(self).methods@,
                    self.fields@ == old(self).fields@,
                    self.class_objs@ == old(self).class_objs@,
                    self.primitive_classes@ == old(self).primitive_classes@,
                    old(self).classes@.len() <= self.classes@.len(),
                    forall|i: int|
                        0 <= i < old(self).classes@.len() ==> self.classes@[i] == old(
                            self,
                        ).classes@[i],
                    n_attrs == info.attributes@.len(),
                decreases n_attrs - ka,
            {
                let attr_name = match constant_pool.utf8(info.attributes[ka].attribute_name_index) {
                    Ok(s) => s,
                    Err(_) => {
                        ka = ka + 1;
                        continue ;
                    },
                };
                if str_eq(attr_name.as_str(), "Code") {
                    code = Some(info.attributes[ka].code()?);
                }
                ka = ka + 1;
            }
            methods_data.push(
                Method {
                    defining_class: ClassId(new_id),
                    name: m_name,
                    descriptor: m_desc,
                    access_flags: info.access_flags,
                    code,
                },
            );
            km = km + 1;
        }

        // Gather the field records, assigning instance offsets in declaration
        // order: round the running size up to the field's alignment, place
        // the field, and widen the class alignment as needed.  Static fields
        // get a slot holding the type's zero instead.
        let mut size: u32 = base_size_v;
        let mut alignment: u8 = base_alignment;
        let mut fields_data: Vec<Field> = Vec::new();
        let mut kf: usize = 0;
        while kf < cf_fields.len()
            invariant
                cf.magic == 0xCAFEBABEu32,
                45 <= cf.major_version <= 66,
                crate::class_file::cp_class_name_bytes(cf.constant_pool, cf.this_class as int)
                    == Some(vstd::utf8::encode_utf8(name@)),
                self.wf(),
                self.methods@ == old(self).methods@,
                self.fields@ == old(self).fields@,
                self.class_objs@ == old(self).class_objs@,
                self.primitive_classes@ == old(self).primitive_classes@,
                old(self).classes@.len() <= self.classes@.len(),
                forall|i: int|
                    0 <= i < old(self).classes@.len() ==> self.classes@[i] == old(
                        self,
                    ).classes@[i],
                kf <= cf_fields@.len(),
                fields_data@.len() == kf,
                cf_fields@.len() == cf.fields@.len(),
                name@.len() == 0 || name@[0] != '[',
                base_size_v <= size,
                alignment >= 1,
                alignment >= base_alignment,
                forall|i: int|
                    0 <= i < fields_data@.len() ==> {
                        let f = #[trigger] fields_data@[i];
                        &&& f.defining_class == ClassId(new_id)
                        &&& ((f.access_flags & ACC_STATIC != 0) <==> f.backing is StaticValue)
                        &&& (f.backing matches FieldBacking::StaticValue(v) ==> v == default_value(
                            f.descriptor.0,
                        ))
                        &&& match f.backing {
                            FieldBacking::Instance(off) => {
                                &&& base_size_v <= off
                                &&& off as int % field_align(f.descriptor.0) as int == 0
                                &&& off + field_size(f.descriptor.0) <= size
                                &&& field_align(f.descriptor.0) <= alignment
                            },
                            _ => true,
                        }
                    },
                forall|i1: int, i2: int|
                    #![trigger fields_data@[i1], fields_data@[i2]]
                    0 <= i1 < i2 < fields_data@.len() ==> match (
                        fields_data@[i1].backing,
                        fields_data@[i2].backing,
                    ) {
                        (FieldBacking::Instance(off1), FieldBacking::Instance(off2)) => off1
                            + field_size(fields_data@[i1].descriptor.0) <= off2 as int,
                        _ => true,
                    },
            decreases cf_fields@.len() - kf,
        {
            let mut info = FieldInfo {
                access_flags: 0,
                name_index: 0,
                descriptor_index: 0,
                attributes: Vec::new(),
            };
            core::mem::swap(&mut info, &mut cf_fields[kf]);
            let f_name = constant_pool.utf8(info.name_index)?;
            let f_desc_str = constant_pool.utf8(info.descriptor_index)?;
            let descriptor = FieldDescriptor::read(f_desc_str.as_str())?;
            let is_static = info.access_flags & ACC_STATIC != 0;
            let backing = if is_static {
                FieldBacking::StaticValue(Value::default_for_ty(&descriptor.0))
            } else {
                let (field_size_v, field_alignment) = size_and_alignment_of_field(&descriptor);
                assert(1 <= field_align(descriptor.0) <= 8);
                let falign: u32 = field_alignment as u32;
                let rem: u32 = size % falign;
                let pad: u32 = if rem == 0 {
                    0
                } else {
                    falign - rem
                };
                let offset: u32 = match size.checked_add(pad) {
                    Some(v) => v,
                    None => {
                        return Err(VmError::ClassFormatError);
                    },
                };
                assert(offset as int % falign as int == 0) by (nonlinear_arith)
                    requires
                        falign >= 1,
                        rem == size as int % falign as int,
                        pad == (if rem == 0 {
                            0int
                        } else {
                            falign - rem
                        }),
                        offset == size + pad,
                ;
                let new_size: u32 = match offset.checked_add(field_size_v as u32) {
                    Some(v) => v,
                    None => {
                        return Err(VmError::ClassFormatError);
                    },
                };
                size = new_size;
                if field_alignment as u8 > alignment {
                    alignment = field_alignment as u8;
                }
                FieldBacking::Instance(offset)
            };
            fields_data.push(
                Field {
                    name: f_name,
                    defining_class: ClassId(new_id),
                    access_flags: info.access_flags,
                    descriptor,
                    backing,
                },
            );
            kf = kf + 1;
        }

        // A super-class or interface resolution above may not shadow the new
        // name; re-check before interning it.
        if self.find_class_index(name.as_str()).is_some() {
            return Err(VmError::LinkageError);
        }

        // Commit: append the member records and intern the class.
        let ghost mid = *self;
        let ghost g_methods_data = methods_data@;
        let ghost g_fields_data = fields_data@;
        let old_m: usize = self.methods.len();
        let old_f: usize = self.fields.len();
        let n_methods: usize = methods_data.len();
        let n_fields: usize = fields_data.len();
        self.methods.append(&mut methods_data);
        self.fields.append(&mut fields_data);
        let total_m: usize = self.methods.len();
        let total_f: usize = self.fields.len();
        assert(total_m == old_m + n_methods);
        assert(total_f == old_f + n_fields);
        let mut method_ids: Vec<MethodId> = Vec::new();
        let mut k: usize = 0;
        while k < n_methods
            invariant
                old_m + n_methods <= usize::MAX,
                method_ids@.len() == k,
                k <= n_methods,
                forall|j: int|
                    0 <= j < method_ids@.len() ==> (#[trigger] method_ids@[j]).0 == old_m + j,
            decreases n_methods - k,
        {
            method_ids.push(MethodId(old_m + k));
            k = k + 1;
        }
        let mut field_ids: Vec<FieldId> = Vec::new();
        let mut k2: usize = 0;
        while k2 < n_fields
            invariant
                old_f + n_fields <= usize::MAX,
                field_ids@.len() == k2,
                k2 <= n_fields,
                forall|j: int|
                    0 <= j < field_ids@.len() ==> (#[trigger] field_ids@[j]).0 == old_f + j,
            decreases n_fields - k2,
        {
            field_ids.push(FieldId(old_f + k2));
            k2 = k2 + 1;
        }
        let n_cp: usize = constant_pool.table.len();
        let mut references: Vec<Reference> = Vec::new();
        let mut kr: usize = 0;
        while kr < n_cp + 1
            invariant
                n_cp <= 65534,
                references@.len() == kr,
                kr <= n_cp + 1,
                forall|j: int| 0 <= j < kr ==> #[trigger] references@[j] == Reference::Unresolved,
            decreases n_cp + 1 - kr,
        {
            references.push(Reference::Unresolved);
            kr = kr + 1;
        }
        let class = Class {
            initialized: false,
            defining_loader: ClassLoader::Bootstrap,
            references,
            class_obj: None,
            name,
            super_class: super_class_id,
            interfaces,
            methods: method_ids,
            fields: field_ids,
            access_flags,
            constant_pool,
            elem_ty: None,
            size,
            alignment,
        };
        self.classes.push(class);
        proof {
            let cur = *self;
            assert(cur.classes@.len() == new_id + 1);
            assert(cur.methods@ == mid.methods@ + g_methods_data);
            assert(cur.fields@ == mid.fields@ + g_fields_data);
            assert forall|i: int| 0 <= i < new_id implies cur.classes@[i] == mid.classes@[i] by {}
            assert forall|i: int| 0 <= i < cur.classes@.len() implies wf_class_at(cur, i) by {
                if i < new_id {
                    assert(wf_class_at(mid, i));
                    assert(cur.classes@[i] == mid.classes@[i]);
                    assert forall|kk: int|
                        0 <= kk < cur.classes@[i].fields@.len() implies cur.fields@[cur.classes@[i].fields@[kk].0 as int]
                        == mid.fields@[mid.classes@[i].fields@[kk].0 as int] by {
                        assert(mid.classes@[i].fields@[kk].0 < mid.fields@.len());
                    }
                    assert(base_size(cur, i) == base_size(mid, i));
                } else {
                    let c = cur.classes@[new_id as int];
                    assert forall|kk: int|
                        0 <= kk < c.fields@.len() implies cur.fields@[c.fields@[kk].0 as int]
                        == g_fields_data[kk] by {
                        assert(c.fields@[kk].0 == old_f + kk);
                    }
                    assert(base_size(cur, i) == base_size_v);
                    assert(layout_wf(cur, i));
                }
            }
        }
        Ok(ClassId(new_id))
    }
}

} // verus!

verus! {

/// The two class records agree on everything but the resolution cache, and
/// the cache only moves forward: a slot that was resolved stays exactly as
/// it was; only `Unresolved` slots may become resolved.
pub open spec fn class_refs_monotonic(c1: Class, c2: Class) -> bool {
    &&& c2.constant_pool == c1.constant_pool
    &&& c2.references@.len() == c1.references@.len()
    &&& forall|j: int|
        0 <= j < c1.references@.len() && c1.references@[j] != Reference::Unresolved
            ==> c2.references@[j] == c1.references@[j]
    &&& c2.initialized == c1.initialized
    &&& c2.class_obj == c1.class_obj
    &&& c2.defining_loader == c1.defining_loader
    &&& c2.name == c1.name
    &&& c2.super_class == c1.super_class
    &&& c2.interfaces == c1.interfaces
    &&& c2.access_flags == c1.access_flags
    &&& c2.methods == c1.methods
    &&& c2.fields == c1.fields
    &&& c2.elem_ty == c1.elem_ty
    &&& c2.size == c1.size
    &&& c2.alignment == c1.alignment
}

impl Class {
    /// Resolve the `Class` constant-pool entry at `cp_idx` of class `id`,
    /// memoizing the result: the first call binds the slot, and any call
    /// that finds the slot bound returns the bound id and changes nothing.
    pub fn class_reference(ma: &mut MethodArea, id: ClassId, cp_idx: u16) -> (r: Result<
        ClassId,
        VmError,
    >)
        requires
            old(ma).wf(),
            id.0 < old(ma).classes@.len(),
        ensures
            final(ma).wf(),
            final(ma).methods@ == old(ma).methods@,
            final(ma).fields@ == old(ma).fields@,
            final(ma).class_objs@ == old(ma).class_objs@,
            final(ma).primitive_classes@ == old(ma).primitive_classes@,
            old(ma).classes@.len() <= final(ma).classes@.len(),
            forall|i: int|
                0 <= i < old(ma).classes@.len() && i != id.0 ==> final(ma).classes@[i] == old(
                    ma,
                ).classes@[i],
            class_refs_monotonic(
                old(ma).classes@[id.0 as int],
                final(ma).classes@[id.0 as int],
            ),
            match r {
                Ok(c) => {
                    &&& c.0 < final(ma).classes@.len()
                    &&& cp_idx < final(ma).classes@[id.0 as int].references@.len()
                    &&& final(ma).classes@[id.0 as int].references@[cp_idx as int]
                        == Reference::Class(c)
                    &&& (old(ma).classes@[id.0 as int].references@[cp_idx as int] matches
                    Reference::Class(x) ==> c == x && final(ma).classes@ == old(ma).classes@)
                    &&& (old(ma).classes@[id.0 as int].references@[cp_idx as int]
                        == Reference::Unresolved ==> exists|nm: Seq<char>|
                        {
                            &&& crate::class_file::cp_class_name_bytes(
                                old(ma).classes@[id.0 as int].constant_pool,
                                cp_idx as int,
                            ) == Some(#[trigger] vstd::utf8::encode_utf8(nm))
                            &&& if nm.len() > 0 && nm[0] == '[' {
                                final(ma).classes@[c.0 as int].elem_ty is Some
                            } else {
                                final(ma).classes@[c.0 as int].name@ == nm
                            }
                        })
                },
                Err(_) => true,
            },
    {
        if (cp_idx as usize) >= ma.classes[id.0].references.len() {
            return Err(VmError::ClassFormatError);
        }
        let slot = ma.classes[id.0].references[cp_idx as usize];
        match slot {
            Reference::Class(c) => {
                proof {
                    assert(wf_class_at(*ma, id.0 as int));
                }
                if c.0 < ma.classes.len() {
                    Ok(c)
                } else {
                    // A cache can only hold ids the area issued; an out of
                    // range id cannot arise, but the check keeps the result
                    // usable without trusting the cache.
                    Err(VmError::ClassFormatError)
                }
            },
            Reference::Unresolved => {
                let name = ma.classes[id.0].constant_pool.class_name(cp_idx)?;
                let c = ma.resolve_class(name.as_str())?;
                let ghost pre = *ma;
                ma.classes[id.0].references[cp_idx as usize] = Reference::Class(c);
                proof {
                    let cur = *ma;
                    assert forall|i: int| 0 <= i < cur.classes@.len() implies wf_class_at(
                        cur,
                        i,
                    ) by {
                        assert(wf_class_at(pre, i));
                        if i != id.0 {
                            assert(cur.classes@[i] == pre.classes@[i]);
                        }
                    }
                }
                Ok(c)
            },
            _ => Err(VmError::ClassFormatError),
        }
    }

    /// Resolve the field symbolic reference at `cp_idx` of class `id`,
    /// memoizing the result as `class_reference` does.
    pub fn field_reference(ma: &mut MethodArea, id: ClassId, cp_idx: u16) -> (r: Result<
        FieldId,
        VmError,
    >)
        requires
            old(ma).wf(),
            id.0 < old(ma).classes@.len(),
        ensures
            final(ma).wf(),
            final(ma).methods@ == old(ma).methods@,
            final(ma).fields@ == old(ma).fields@,
            final(ma).class_objs@ == old(ma).class_objs@,
            final(ma).primitive_classes@ == old(ma).primitive_classes@,
            old(ma).classes@.len() <= final(ma).classes@.len(),
            forall|i: int|
                0 <= i < old(ma).classes@.len() && i != id.0 ==> final(ma).classes@[i] == old(
                    ma,
                ).classes@[i],
            class_refs_monotonic(
                old(ma).classes@[id.0 as int],
                final(ma).classes@[id.0 as int],
            ),
            match r {
                Ok(f) => {
                    &&& f.0 < final(ma).fields@.len()
                    &&& cp_idx < final(ma).classes@[id.0 as int].references@.len()
                    &&& final(ma).classes@[id.0 as int].references@[cp_idx as int]
                        == Reference::Field(f)
                    &&& (old(ma).classes@[id.0 as int].references@[cp_idx as int] matches
                    Reference::Field(x) ==> f == x && final(ma).classes@ == old(ma).classes@)
                    &&& (old(ma).classes@[id.0 as int].references@[cp_idx as int]
                        == Reference::Unresolved ==> exists|nm: Seq<char>|
                        {
                            &&& match crate::class_file::cp_member_nat(
                                old(ma).classes@[id.0 as int].constant_pool,
                                cp_idx as int,
                            ) {
                                Some(p) => p.0 == #[trigger] vstd::utf8::encode_utf8(nm),
                                None => false,
                            }
                            &&& final(ma).fields@[f.0 as int].name@ == nm
                        })
                },
                Err(_) => true,
            },
    {
        if (cp_idx as usize) >= ma.classes[id.0].references.len() {
            return Err(VmError::ClassFormatError);
        }
        let slot = ma.classes[id.0].references[cp_idx as usize];
        match slot {
            Reference::Field(f) => {
                if f.0 < ma.fields.len() {
                    Ok(f)
                } else {
                    Err(VmError::ClassFormatError)
                }
            },
            Reference::Unresolved => {
                let (class_idx, nat_idx) = ma.classes[id.0].constant_pool.any_ref(cp_idx)?;
                let (f_name, _f_desc) = ma.classes[id.0].constant_pool.name_and_type(nat_idx)?;
                let class_id = Class::class_reference(ma, id, class_idx)?;
                let field = ma.resolve_field(class_id, f_name.as_str())?;
                let ghost pre = *ma;
                if (cp_idx as usize) >= ma.classes[id.0].references.len() {
                    return Err(VmError::ClassFormatError);
                }
                ma.classes[id.0].references[cp_idx as usize] = Reference::Field(field);
                proof {
                    let cur = *ma;
                    assert forall|i: int| 0 <= i < cur.classes@.len() implies wf_class_at(
                        cur,
                        i,
                    ) by {
                        assert(wf_class_at(pre, i));
                        if i != id.0 {
                            assert(cur.classes@[i] == pre.classes@[i]);
                        }
                    }
                }
                Ok(field)
            },
            _ => Err(VmError::ClassFormatError),
        }
    }

    /// Resolve the method symbolic reference at `cp_idx` of class `id`,
    /// memoizing the result as `class_reference` does.
    pub fn method_reference(ma: &mut MethodArea, id: ClassId, cp_idx: u16) -> (r: Result<
        MethodId,
        VmError,
    >)
        requires
            old(ma).wf(),
            id.0 < old(ma).classes@.len(),
        ensures
            final(ma).wf(),
            final(ma).methods@ == old(ma).methods@,
            final(ma).fields@ == old(ma).fields@,
            final(ma).class_objs@ == old(ma).class_objs@,
            final(ma).primitive_classes@ == old(ma).primitive_classes@,
            old(ma).classes@.len() <= final(ma).classes@.len(),
            forall|i: int|
                0 <= i < old(ma).classes@.len() && i != id.0 ==> final(ma).classes@[i] == old(
                    ma,
                ).classes@[i],
            class_refs_monotonic(
                old(ma).classes@[id.0 as int],
                final(ma).classes@[id.0 as int],
            ),
            match r {
                Ok(m) => {
                    &&& m.0 < final(ma).methods@.len()
                    &&& cp_idx < final(ma).classes@[id.0 as int].references@.len()
                    &&& final(ma).classes@[id.0 as int].references@[cp_idx as int]
                        == Reference::Method(m)
                    &&& (old(ma).classes@[id.0 as int].references@[cp_idx as int] matches
                    Reference::Method(x) ==> m == x && final(ma).classes@ == old(ma).classes@)
                    &&& (old(ma).classes@[id.0 as int].references@[cp_idx as int]
                        == Reference::Unresolved ==> exists|nm: Seq<char>, dm: Seq<char>|
                        {
                            &&& match crate::class_file::cp_member_nat(
                                old(ma).classes@[id.0 as int].constant_pool,
                                cp_idx as int,
                            ) {
                                Some(p) => p.0 == #[trigger] vstd::utf8::encode_utf8(nm) && p.1
                                    == #[trigger] vstd::utf8::encode_utf8(dm),
                                None => false,
                            }
                            &&& final(ma).methods@[m.0 as int].name@ == nm
                            &&& crate::descriptor::md_valid(dm)
                            &&& md_chars(final(ma).methods@[m.0 as int].descriptor) == dm
                        })
                },
                Err(_) => true,
            },
    {
        if (cp_idx as usize) >= ma.classes[id.0].references.len() {
            return Err(VmError::ClassFormatError);
        }
        let slot = ma.classes[id.0].references[cp_idx as usize];
        match slot {
            Reference::Method(m) => {
                if m.0 < ma.methods.len() {
                    Ok(m)
                } else {
                    Err(VmError::ClassFormatError)
                }
            },
            Reference::Unresolved => {
                let (class_idx, nat_idx) = ma.classes[id.0].constant_pool.any_ref(cp_idx)?;
                let (m_name, m_desc_str) = ma.classes[id.0].constant_pool.name_and_type(nat_idx)?;
                let descriptor = MethodDescriptor::read(m_desc_str.as_str())?;
                let class_id = Class::class_reference(ma, id, class_idx)?;
                let method = ma.resolve_method(class_id, m_name.as_str(), &descriptor)?;
                let ghost pre = *ma;
                if (cp_idx as usize) >= ma.classes[id.0].references.len() {
                    return Err(VmError::ClassFormatError);
                }
                ma.classes[id.0].references[cp_idx as usize] = Reference::Method(method);
                proof {
                    let cur = *ma;
                    assert forall|i: int| 0 <= i < cur.classes@.len() implies wf_class_at(
                        cur,
                        i,
                    ) by {
                        assert(wf_class_at(pre, i));
                        if i != id.0 {
                            assert(cur.classes@[i] == pre.classes@[i]);
                        }
                    }
                }
                Ok(method)
            },
            _ => Err(VmError::ClassFormatError),
        }
    }

    /// The class a field type denotes: the interned array class for an array
    /// type, the named class for a class type.  A primitive type denotes no
    /// class.
    pub fn of_field_ty(ma: &mut MethodArea, field_ty: &FieldType) -> (r: Result<ClassId, VmError>)
        requires
            old(ma).wf(),
        ensures
            final(ma).wf(),
            final(ma).methods@ == old(ma).methods@,
            final(ma).fields@ == old(ma).fields@,
            final(ma).class_objs@ == old(ma).class_objs@,
            final(ma).primitive_classes@ == old(ma).primitive_classes@,
            old(ma).classes@.len() <= final(ma).classes@.len(),
            forall|i: int|
                0 <= i < old(ma).classes@.len() ==> final(ma).classes@[i] == old(ma).classes@[i],
            match r {
                Ok(id) => id.0 < final(ma).classes@.len(),
                Err(_) => true,
            },
    {
        match field_ty {
            FieldType::ArrayType(arr_ty) => {
                let elem_ty = &arr_ty.0.0;
                ma.resolve_arr_class(elem_ty)
            },
            FieldType::ObjectType(obj_ty) => ma.resolve_class(obj_ty.class_name.as_str()),
            _ => Err(VmError::Unsupported),
        }
    }
}

/// Whether class `of` is `c` itself, a direct interface of a class on `c`'s
/// super-class chain, or an ancestor of `c`.
pub open spec fn chain_instance(ma: MethodArea, c: int, of: int) -> bool
    decreases c,
{
    if !(0 <= c < ma.classes@.len()) {
        false
    } else if c == of || (exists|k: int|
        0 <= k < ma.classes@[c].interfaces@.len() && (#[trigger] ma.classes@[c].interfaces@[k]).0
            == of) {
        true
    } else {
        match ma.classes@[c].super_class {
            Some(s) => if s.0 < c {
                chain_instance(ma, s.0 as int, of)
            } else {
                false
            },
            None => false,
        }
    }
}

impl Class {
    /// Walk `this`'s super-class chain looking for `of` itself or `of` among
    /// each class's direct interfaces.
    pub fn instance_of_chain(ma: &MethodArea, this: ClassId, of: ClassId) -> (r: bool)
        requires
            ma.wf(),
            this.0 < ma.classes@.len(),
        ensures
            r == chain_instance(*ma, this.0 as int, of.0 as int),
    {
        let mut cur: usize = this.0;
        loop
            invariant
                ma.wf(),
                cur < ma.classes@.len(),
                chain_instance(*ma, this.0 as int, of.0 as int) == chain_instance(
                    *ma,
                    cur as int,
                    of.0 as int,
                ),
            decreases cur,
        {
            if cur == of.0 {
                return true;
            }
            let interfaces = &ma.classes[cur].interfaces;
            let mut k: usize = 0;
            let mut found: bool = false;
            while k < interfaces.len()
                invariant
                    interfaces@ == ma.classes@[cur as int].interfaces@,
                    cur < ma.classes@.len(),
                    k <= interfaces@.len(),
                    found == exists|m: int|
                        0 <= m < k && (#[trigger] interfaces@[m]).0 == of.0,
                decreases interfaces@.len() - k,
            {
                if interfaces[k].0 == of.0 {
                    found = true;
                }
                k = k + 1;
            }
            if found {
                return true;
            }
            let super_class = ma.classes[cur].super_class;
            match super_class {
                Some(s) => {
                    assert(s.0 < cur) by {
                        assert(wf_class_at(*ma, cur as int));
                    }
                    cur = s.0;
                },
                None => {
                    return false;
                },
            }
        }
    }
}

} // verus!

verus! {

impl Class {
    /// Assignability of one array element type to another: equal primitives;
    /// reference elements recurse on their classes; a nested array element
    /// recurses on its component.
    pub fn elem_instance_of(ma: &mut MethodArea, x: &FieldType, y: &FieldType) -> (r: Result<
        bool,
        VmError,
    >)
        requires
            old(ma).wf(),
        ensures
            final(ma).wf(),
            final(ma).methods@ == old(ma).methods@,
            final(ma).fields@ == old(ma).fields@,
            final(ma).class_objs@ == old(ma).class_objs@,
            final(ma).primitive_classes@ == old(ma).primitive_classes@,
            old(ma).classes@.len() <= final(ma).classes@.len(),
            forall|i: int|
                0 <= i < old(ma).classes@.len() ==> final(ma).classes@[i] == old(ma).classes@[i],
        decreases *x,
    {
        match (x, y) {
            (FieldType::BaseType(a), FieldType::BaseType(b)) => Ok(*a == *b),
            (FieldType::ArrayType(ax), FieldType::ArrayType(ay)) => Class::elem_instance_of(
                ma,
                &ax.0.0,
                &ay.0.0,
            ),
            (FieldType::ObjectType(_), FieldType::ObjectType(oy)) => {
                let cx = Class::of_field_ty(ma, x)?;
                let cy = ma.resolve_class(oy.class_name.as_str())?;
                Ok(Class::instance_of_chain(ma, cx, cy))
            },
            (FieldType::ArrayType(_), FieldType::ObjectType(oy)) => {
                let cx = Class::of_field_ty(ma, x)?;
                let cy = ma.resolve_class(oy.class_name.as_str())?;
                Ok(Class::instance_of_chain(ma, cx, cy))
            },
            _ => Ok(false),
        }
    }

    /// Whether a value of class `this` is an instance of class `of`.  Array
    /// classes compare by element type (recursively for reference
    /// elements); an array is an instance of a non-array class exactly when
    /// that class is the root object class; anything else walks `this`'s
    /// super-class chain and interface lists.
    pub fn instance_of(ma: &mut MethodArea, this: ClassId, of: ClassId) -> (r: Result<
        bool,
        VmError,
    >)
        requires
            old(ma).wf(),
            this.0 < old(ma).classes@.len(),
            of.0 < old(ma).classes@.len(),
        ensures
            final(ma).wf(),
            final(ma).methods@ == old(ma).methods@,
            final(ma).fields@ == old(ma).fields@,
            final(ma).class_objs@ == old(ma).class_objs@,
            final(ma).primitive_classes@ == old(ma).primitive_classes@,
            old(ma).classes@.len() <= final(ma).classes@.len(),
            forall|i: int|
                0 <= i < old(ma).classes@.len() ==> final(ma).classes@[i] == old(ma).classes@[i],
            old(ma).classes@[this.0 as int].elem_ty is None ==> r == Ok::<bool, VmError>(
                chain_instance(*old(ma), this.0 as int, of.0 as int),
            ),
            match (old(ma).classes@[this.0 as int].elem_ty, old(ma).classes@[of.0 as int].elem_ty) {
                (Some(FieldType::BaseType(a)), Some(FieldType::BaseType(b))) => r == Ok::<
                    bool,
                    VmError,
                >(a == b),
                _ => true,
            },
            (old(ma).classes@[this.0 as int].elem_ty is Some && old(
                ma,
            ).classes@[of.0 as int].elem_ty is None) ==> r == Ok::<bool, VmError>(
                old(ma).classes@[of.0 as int].name@ == "java/lang/Object"@,
            ),
    {
        // A pair of primitive-element arrays compares by element tag alone.
        let prim_pair: Option<(BaseType, BaseType)> = match (
            &ma.classes[this.0].elem_ty,
            &ma.classes[of.0].elem_ty,
        ) {
            (Some(FieldType::BaseType(a)), Some(FieldType::BaseType(b))) => Some((*a, *b)),
            _ => None,
        };
        if let Some((a, b)) = prim_pair {
            return Ok(a == b);
        }
        let this_elem: Option<FieldType> = match &ma.classes[this.0].elem_ty {
            Some(t) => Some(t.clone()),
            None => None,
        };
        match this_elem {
            Some(tx) => {
                let of_elem: Option<FieldType> = match &ma.classes[of.0].elem_ty {
                    Some(t) => Some(t.clone()),
                    None => None,
                };
                match of_elem {
                    Some(ty_) => {
                        match (&tx, &ty_) {
                            (FieldType::BaseType(a), FieldType::BaseType(b)) => Ok(*a == *b),
                            _ => Class::elem_instance_of(ma, &tx, &ty_),
                        }
                    },
                    None => {
                        // An array is an instance of exactly one non-array
                        // class: the root object class.
                        match ma.find_class_index("java/lang/Object") {
                            Some(i) => {
                                proof {
                                    if old(ma).classes@[of.0 as int].name@
                                        == "java/lang/Object"@ {
                                        lemma_class_name_identifies(*ma, i as int, of.0 as int);
                                    }
                                }
                                Ok(i == of.0)
                            },
                            None => Ok(false),
                        }
                    },
                }
            },
            None => Ok(Class::instance_of_chain(ma, this, of)),
        }
    }
}

} // verus!

verus! {

/// Field types with the same descriptor text occupy the same storage width:
/// the first character of the text decides the width.
pub proof fn lemma_ft_text_same_size(a: FieldType, b: FieldType)
    requires
        ft_chars(a) == ft_chars(b),
    ensures
        field_size(a) == field_size(b),
{
    assert(ft_chars(a)[0] == ft_chars(b)[0]);
    match a {
        FieldType::BaseType(x) => {
            assert(ft_chars(a)[0] == crate::descriptor::base_char(x));
            match b {
                FieldType::BaseType(y) => {
                    assert(crate::descriptor::base_char(x) == crate::descriptor::base_char(y));
                    assert(x == y);
                },
                FieldType::ObjectType(_) => {
                    assert(ft_chars(b)[0] == 'L');
                    assert(false);
                },
                FieldType::ArrayType(_) => {
                    assert(ft_chars(b)[0] == '[');
                    assert(false);
                },
            }
        },
        FieldType::ObjectType(_) => {
            match b {
                FieldType::BaseType(y) => {
                    assert(ft_chars(a)[0] == 'L');
                    assert(ft_chars(b)[0] == crate::descriptor::base_char(y));
                    assert(false);
                },
                _ => {},
            }
        },
        FieldType::ArrayType(_) => {
            match b {
                FieldType::BaseType(y) => {
                    assert(ft_chars(a)[0] == '[');
                    assert(ft_chars(b)[0] == crate::descriptor::base_char(y));
                    assert(false);
                },
                _ => {},
            }
        },
    }
}

} // verus!

verus! {

impl MethodArea {
    /// Overwrite a static field's slot, narrowing the value to the field's
    /// declared width.
    pub fn set_static_field(&mut self, fid: FieldId, val: Value) -> (r: Result<(), VmError>)
        requires
            old(self).wf(),
        ensures
            final(self).wf(),
            final(self).classes@ == old(self).classes@,
            final(self).class_objs@ == old(self).class_objs@,
            final(self).primitive_classes@ == old(self).primitive_classes@,
            final(self).methods@ == old(self).methods@,
            final(self).fields@.len() == old(self).fields@.len(),
            forall|i: int|
                0 <= i < old(self).fields@.len() && i != fid.0 ==> final(self).fields@[i] == old(
                    self,
                ).fields@[i],
            match r {
                Ok(_) => {
                    &&& fid.0 < old(self).fields@.len()
                    &&& old(self).fields@[fid.0 as int].backing is StaticValue
                    &&& final(self).fields@[fid.0 as int].backing == FieldBacking::StaticValue(
                        store_ty_spec(val, old(self).fields@[fid.0 as int].descriptor.0),
                    )
                },
                Err(e) => {
                    &&& final(self).fields@ == old(self).fields@
                    &&& e == VmError::InvalidType
                    &&& !(fid.0 < old(self).fields@.len() && old(
                        self,
                    ).fields@[fid.0 as int].backing is StaticValue)
                },
            },
    {
        if fid.0 >= self.fields.len() {
            return Err(VmError::InvalidType);
        }
        let is_static_slot = match &self.fields[fid.0].backing {
            FieldBacking::StaticValue(_) => true,
            _ => false,
        };
        if !is_static_slot {
            return Err(VmError::InvalidType);
        }
        self.fields[fid.0].store_static(val);
        proof {
            let cur = *self;
            assert forall|i: int| 0 <= i < cur.classes@.len() implies wf_class_at(cur, i) by {
                assert(wf_class_at(*old(self), i));
                assert(cur.classes@[i] == old(self).classes@[i]);
                assert forall|k: int|
                    #![trigger cur.classes@[i].fields@[k]]
                    0 <= k < cur.classes@[i].fields@.len() implies {
                    let f_new = cur.fields@[cur.classes@[i].fields@[k].0 as int];
                    let f_old = old(self).fields@[old(self).classes@[i].fields@[k].0 as int];
                    f_new.backing is StaticValue == f_old.backing is StaticValue && (f_new.backing
                        matches FieldBacking::Instance(o1) ==> f_old.backing matches
                        FieldBacking::Instance(o2) && o1 == o2) && f_new.descriptor
                        == f_old.descriptor
                } by {
                    assert(old(self).classes@[i].fields@[k].0 < old(self).fields@.len());
                }
            }
        }
        Ok(())
    }
}

} // verus!

verus! {

/// The method area only ever grows in ways running code relies on: methods
/// keep their ids and bodies, fields keep their count, classes keep their
/// ids, and an initialized class never becomes uninitialized.
pub open spec fn ma_evolves(ma0: MethodArea, ma1: MethodArea) -> bool {
    &&& ma1.methods@ == ma0.methods@
    &&& ma1.fields@.len() == ma0.fields@.len()
    &&& ma0.classes@.len() <= ma1.classes@.len()
    &&& forall|i: int|
        0 <= i < ma0.classes@.len() && ma0.classes@[i].initialized ==> (
        #[trigger] ma1.classes@[i]).initialized
    &&& forall|i: int|
        0 <= i < ma0.classes@.len() ==> (#[trigger] ma1.classes@[i]).references@.len()
            == ma0.classes@[i].references@.len()
    &&& forall|i: int, j: int|
        #![trigger ma1.classes@[i].references@[j]]
        0 <= i < ma0.classes@.len() && 0 <= j < ma0.classes@[i].references@.len()
            && ma0.classes@[i].references@[j] != Reference::Unresolved
            ==> ma1.classes@[i].references@[j] == ma0.classes@[i].references@[j]
}

/// Keeping every existing class record as it was is one way to evolve.
pub proof fn lemma_evolves_from_prefix(a: MethodArea, b: MethodArea)
    requires
        b.methods@ == a.methods@,
        b.fields@.len() == a.fields@.len(),
        a.classes@.len() <= b.classes@.len(),
        forall|i: int| 0 <= i < a.classes@.len() ==> b.classes@[i] == a.classes@[i],
    ensures
        ma_evolves(a, b),
{
    assert forall|i: int|
        0 <= i < a.classes@.len() && a.classes@[i].initialized implies (
    #[trigger] b.classes@[i]).initialized by {
        assert(b.classes@[i] == a.classes@[i]);
    }
    assert forall|i: int|
        0 <= i < a.classes@.len() implies (#[trigger] b.classes@[i]).references@.len()
        == a.classes@[i].references@.len() by {
        assert(b.classes@[i] == a.classes@[i]);
    }
    assert forall|i: int, j: int|
        #![trigger b.classes@[i].references@[j]]
        0 <= i < a.classes@.len() && 0 <= j < a.classes@[i].references@.len()
            && a.classes@[i].references@[j] != Reference::Unresolved implies b.classes@[i].references@[j]
        == a.classes@[i].references@[j] by {
        assert(b.classes@[i] == a.classes@[i]);
    }
}

/// Evolution composes.
pub proof fn lemma_evolves_trans(a: MethodArea, b: MethodArea, c: MethodArea)
    requires
        ma_evolves(a, b),
        ma_evolves(b, c),
    ensures
        ma_evolves(a, c),
{
    assert forall|i: int|
        0 <= i < a.classes@.len() && a.classes@[i].initialized implies (
    #[trigger] c.classes@[i]).initialized by {
        assert(b.classes@[i].initialized);
    }
    assert forall|i: int|
        0 <= i < a.classes@.len() implies (#[trigger] c.classes@[i]).references@.len()
        == a.classes@[i].references@.len() by {
        assert(b.classes@[i].references@.len() == a.classes@[i].references@.len());
    }
    assert forall|i: int, j: int|
        #![trigger c.classes@[i].references@[j]]
        0 <= i < a.classes@.len() && 0 <= j < a.classes@[i].references@.len()
            && a.classes@[i].references@[j] != Reference::Unresolved implies c.classes@[i].references@[j]
        == a.classes@[i].references@[j] by {
        assert(b.classes@[i].references@[j] == a.classes@[i].references@[j]);
    }
}

/// Flipping bookkeeping bits of one class record (its initialization flag
/// or class-object link) cannot unsettle the method area: nothing the
/// well-formedness predicate reads has changed.
pub proof fn lemma_wf_after_class_update(ma0: MethodArea, ma1: MethodArea, i: int)
    requires
        ma0.wf(),
        ma1.classes@.len() == ma0.classes@.len(),
        ma1.methods@ == ma0.methods@,
        ma1.fields@ == ma0.fields@,
        ma1.class_objs@ == ma0.class_objs@,
        ma1.primitive_classes@ == ma0.primitive_classes@,
        0 <= i < ma0.classes@.len(),
        forall|j: int| 0 <= j < ma0.classes@.len() && j != i ==> ma1.classes@[j] == ma0.classes@[j],
        ma1.classes@[i].name == ma0.classes@[i].name,
        ma1.classes@[i].super_class == ma0.classes@[i].super_class,
        ma1.classes@[i].interfaces == ma0.classes@[i].interfaces,
        ma1.classes@[i].methods == ma0.classes@[i].methods,
        ma1.classes@[i].fields == ma0.classes@[i].fields,
        ma1.classes@[i].elem_ty == ma0.classes@[i].elem_ty,
        ma1.classes@[i].size == ma0.classes@[i].size,
        ma1.classes@[i].alignment == ma0.classes@[i].alignment,
        ma1.classes@[i].references@.len() == ma0.classes@[i].references@.len(),
        ma1.classes@[i].constant_pool == ma0.classes@[i].constant_pool,
    ensures
        ma1.wf(),
{
    assert forall|j: int| 0 <= j < ma1.classes@.len() implies wf_class_at(ma1, j) by {
        assert(wf_class_at(ma0, j));
        if j != i {
            assert(ma1.classes@[j] == ma0.classes@[j]);
        }
    }
    assert forall|a: int, b: int|
        0 <= a < b < ma1.classes@.len() implies ma1.classes@[a].name@ != ma1.classes@[b].name@ by {
        assert(ma1.classes@[a].name@ == ma0.classes@[a].name@);
        assert(ma1.classes@[b].name@ == ma0.classes@[b].name@);
    }
    assert forall|a: int, b: int|
        #![trigger ma1.classes@[a].elem_ty, ma1.classes@[b].elem_ty]
        0 <= a < ma1.classes@.len() && 0 <= b < ma1.classes@.len() && a != b implies match (
        ma1.classes@[a].elem_ty,
        ma1.classes@[b].elem_ty,
    ) {
        (Some(ta), Some(tb)) => ft_chars(ta) != ft_chars(tb),
        _ => true,
    } by {
        assert(ma1.classes@[a].elem_ty == ma0.classes@[a].elem_ty);
        assert(ma1.classes@[b].elem_ty == ma0.classes@[b].elem_ty);
    }
}

} // verus!

verus! {

/// Updating one class's cache slots, initialization flag or class-object
/// link is an evolution.
pub proof fn lemma_evolves_from_class_update(a: MethodArea, b: MethodArea, id: int)
    requires
        b.methods@ == a.methods@,
        b.fields@.len() == a.fields@.len(),
        a.classes@.len() <= b.classes@.len(),
        forall|i: int| 0 <= i < a.classes@.len() && i != id ==> b.classes@[i] == a.classes@[i],
        0 <= id < a.classes@.len() ==> (a.classes@[id].initialized
            ==> b.classes@[id].initialized),
        0 <= id < a.classes@.len() ==> b.classes@[id].references@.len()
            == a.classes@[id].references@.len(),
        0 <= id < a.classes@.len() ==> forall|j: int|
            0 <= j < a.classes@[id].references@.len() && (#[trigger] a.classes@[id].references@[j])
                != Reference::Unresolved ==> b.classes@[id].references@[j]
                == a.classes@[id].references@[j],
    ensures
        ma_evolves(a, b),
{
    assert forall|i: int|
        0 <= i < a.classes@.len() && a.classes@[i].initialized implies (
    #[trigger] b.classes@[i]).initialized by {
        if i != id {
            assert(b.classes@[i] == a.classes@[i]);
        }
    }
    assert forall|i: int|
        0 <= i < a.classes@.len() implies (#[trigger] b.classes@[i]).references@.len()
        == a.classes@[i].references@.len() by {
        if i != id {
            assert(b.classes@[i] == a.classes@[i]);
        }
    }
    assert forall|i: int, j: int|
        #![trigger b.classes@[i].references@[j]]
        0 <= i < a.classes@.len() && 0 <= j < a.classes@[i].references@.len()
            && a.classes@[i].references@[j] != Reference::Unresolved implies b.classes@[i].references@[j]
        == a.classes@[i].references@[j] by {
        if i != id {
            assert(b.classes@[i] == a.classes@[i]);
        }
    }
}

} // verus!

verus! {

/// Interning one primitive-class pair leaves the area well formed.
pub proof fn lemma_wf_after_primitive_intern(ma0: MethodArea, ma1: MethodArea, p: (String, ClassId))
    requires
        ma0.wf(),
        ma1.classes@ == ma0.classes@,
        ma1.methods@ == ma0.methods@,
        ma1.fields@ == ma0.fields@,
        ma1.class_objs@ == ma0.class_objs@,
        ma1.primitive_classes@ == ma0.primitive_classes@.push(p),
        p.1.0 < ma0.classes@.len(),
    ensures
        ma1.wf(),
{
    assert forall|j: int| 0 <= j < ma1.classes@.len() implies wf_class_at(ma1, j) by {
        assert(wf_class_at(ma0, j));
        assert(ma1.classes@[j] == ma0.classes@[j]);
    }
    assert forall|j: int|
        0 <= j < ma1.primitive_classes@.len() implies (#[trigger] ma1.primitive_classes@[j]).1.0
        < ma1.classes@.len() by {
        if j < ma0.primitive_classes@.len() {
            assert(ma1.primitive_classes@[j] == ma0.primitive_classes@[j]);
        } else {
            assert(ma1.primitive_classes@[j] == p);
        }
    }
}

} // verus!

verus! {

/// Every instance field of a well-formed class is aligned to its type's
/// alignment and lies within the class's instance size.
pub proof fn lemma_field_layout(ma: MethodArea, c: int, k: int)
    requires
        ma.wf(),
        0 <= c < ma.classes@.len(),
        0 <= k < ma.classes@[c].fields@.len(),
    ensures
        ({
            let f = ma.fields@[ma.classes@[c].fields@[k].0 as int];
            match f.backing {
                FieldBacking::Instance(off) => {
                    &&& off as int % field_align(f.descriptor.0) as int == 0
                    &&& off + field_size(f.descriptor.0) <= ma.classes@[c].size
                },
                _ => true,
            }
        }),
{
    assert(wf_class_at(ma, c));
}

/// Distinct instance fields declared by one class occupy disjoint byte
/// ranges.
pub proof fn lemma_fields_disjoint(ma: MethodArea, c: int, k1: int, k2: int)
    requires
        ma.wf(),
        0 <= c < ma.classes@.len(),
        0 <= k1 < ma.classes@[c].fields@.len(),
        0 <= k2 < ma.classes@[c].fields@.len(),
        k1 != k2,
    ensures
        ({
            let f1 = ma.fields@[ma.classes@[c].fields@[k1].0 as int];
            let f2 = ma.fields@[ma.classes@[c].fields@[k2].0 as int];
            match (f1.backing, f2.backing) {
                (FieldBacking::Instance(o1), FieldBacking::Instance(o2)) => o1 + field_size(
                    f1.descriptor.0,
                ) <= o2 as int || o2 + field_size(f2.descriptor.0) <= o1 as int,
                _ => true,
            }
        }),
{
    assert(wf_class_at(ma, c));
}

} // verus!
