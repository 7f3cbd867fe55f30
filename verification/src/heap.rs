//! The managed heap: allocation of typed objects and arrays as byte regions,
//! typed field and element access, and bulk copy.
//!
//! Every allocation is a zeroed byte buffer.  An object's buffer is as large
//! as its class's computed instance size; fields live at their class-assigned
//! offsets.  An array's buffer holds a header followed by `length` elements
//! of the element type's width.  Values are stored little-endian at the width
//! the type prescribes, and `load(store(v)) == store_ty(v)` is proved for
//! every storable value.
//!
//! References into the heap are indices into the allocation table; they are
//! not stable across a future garbage-collection pass.

use crate::class_file::CodeAttribute;
use crate::descriptor::{ft_chars, ft_eq, FieldType};
use crate::error::VmError;
use crate::method_area::{
    field_search, field_size, Class, ClassId, FieldBacking, FieldId, MethodArea,
    OBJECT_HEADER_SIZE,
};
use crate::value::{default_value, store_ty_spec, Value};
use vstd::prelude::*;

verus! {

/// A non-null reference to an object allocation: an index into the heap's
/// allocation table.  Nullability is expressed by `Option` around it.
#[derive(Debug, Clone, Copy, PartialEq, Eq, Hash, Structural)]
pub struct ObjectRef(pub usize);

/// A non-null reference to an array allocation, indexing the same allocation
/// table as `ObjectRef`.
#[derive(Debug, Clone, Copy, PartialEq, Eq, Hash, Structural)]
pub struct ArrayRef(pub usize);

impl ArrayRef {
    /// Arrays are assignable where an object is expected: the same
    /// allocation, seen as an object.
    pub fn cast_to_object(self) -> (r: ObjectRef)
        ensures
            r.0 == self.0,
    {
        ObjectRef(self.0)
    }
}

/// The bytes before an array's element region: the object header plus the
/// element type tag, length, and data offset of the design's array header.
pub const ARRAY_HEADER_SIZE: usize = 24;

/// One heap allocation: an instance of a class, or an array.  Both begin
/// with the allocating class's id, so an array is usable wherever an object
/// is expected.
#[derive(Debug)]
pub enum Alloc {
    Object { class: ClassId, data: Vec<u8> },
    Array { class: ClassId, elem_ty: FieldType, length: usize, data: Vec<u8> },
}

/// The heap: the allocation table.  Allocations are never reclaimed under
/// the current design; a future collector would walk this table.
#[derive(Debug)]
pub struct Heap {
    pub allocs: Vec<Alloc>,
}

/// The little-endian bytes of the low `n` bytes of `w`, for the widths the
/// value model stores.
pub open spec fn le_bytes_of(w: u64, n: nat) -> Seq<u8> {
    if n == 1 {
        seq![(w % 0x100) as u8]
    } else if n == 2 {
        seq![(w % 0x100) as u8, ((w / 0x100) % 0x100) as u8]
    } else if n == 4 {
        seq![
            (w % 0x100) as u8,
            ((w / 0x100) % 0x100) as u8,
            ((w / 0x1_0000) % 0x100) as u8,
            ((w / 0x100_0000) % 0x100) as u8,
        ]
    } else {
        seq![
            (w % 0x100) as u8,
            ((w / 0x100) % 0x100) as u8,
            ((w / 0x1_0000) % 0x100) as u8,
            ((w / 0x100_0000) % 0x100) as u8,
            ((w / 0x1_0000_0000) % 0x100) as u8,
            ((w / 0x100_0000_0000) % 0x100) as u8,
            ((w / 0x1_0000_0000_0000) % 0x100) as u8,
            ((w / 0x100_0000_0000_0000) % 0x100) as u8,
        ]
    }
}

/// The word the `n` bytes at `off` in `data` spell, little-endian.
pub open spec fn word_at(data: Seq<u8>, off: int, n: nat) -> u64 {
    let b0 = data[off] as u64;
    let b1 = data[off + 1] as u64;
    let b2 = data[off + 2] as u64;
    let b3 = data[off + 3] as u64;
    let b4 = data[off + 4] as u64;
    let b5 = data[off + 5] as u64;
    let b6 = data[off + 6] as u64;
    let b7 = data[off + 7] as u64;
    if n == 1 {
        b0
    } else if n == 2 {
        (b0 + b1 * 0x100) as u64
    } else if n == 4 {
        (b0 + b1 * 0x100 + b2 * 0x1_0000 + b3 * 0x100_0000) as u64
    } else {
        (b0 + b1 * 0x100 + b2 * 0x1_0000 + b3 * 0x100_0000 + b4 * 0x1_0000_0000 + b5
            * 0x100_0000_0000 + b6 * 0x1_0000_0000_0000 + b7 * 0x100_0000_0000_0000) as u64
    }
}

/// The storage word of a value: its bits, zero-extended to 64.
pub open spec fn value_word(v: Value) -> u64 {
    match v {
        Value::Byte(x) => (x as u8) as u64,
        Value::Char(x) => x as u64,
        Value::Double(b) => b,
        Value::Float(b) => b as u64,
        Value::Int(x) => (x as u32) as u64,
        Value::Long(x) => x as u64,
        Value::Short(x) => (x as u16) as u64,
        Value::Boolean(b) => if b {
            1
        } else {
            0
        },
        Value::Object(o) => match o {
            Some(r) => (r.0 + 1) as u64,
            None => 0,
        },
        Value::Array(a) => match a {
            Some(r) => (r.0 + 1) as u64,
            None => 0,
        },
    }
}

/// The value a storage word denotes under a field type.
pub open spec fn decode_word(w: u64, ty: FieldType) -> Value {
    match ty {
        FieldType::BaseType(crate::descriptor::BaseType::B) => Value::Byte((w as u8) as i8),
        FieldType::BaseType(crate::descriptor::BaseType::C) => Value::Char(w as u16),
        FieldType::BaseType(crate::descriptor::BaseType::D) => Value::Double(w),
        FieldType::BaseType(crate::descriptor::BaseType::F) => Value::Float(w as u32),
        FieldType::BaseType(crate::descriptor::BaseType::I) => Value::Int((w as u32) as i32),
        FieldType::BaseType(crate::descriptor::BaseType::J) => Value::Long(w as i64),
        FieldType::BaseType(crate::descriptor::BaseType::S) => Value::Short((w as u16) as i16),
        FieldType::BaseType(crate::descriptor::BaseType::Z) => Value::Boolean(w != 0),
        FieldType::ObjectType(_) => if w == 0 {
            Value::Object(None)
        } else {
            Value::Object(Some(ObjectRef((w - 1) as usize)))
        },
        FieldType::ArrayType(_) => if w == 0 {
            Value::Array(None)
        } else {
            Value::Array(Some(ArrayRef((w - 1) as usize)))
        },
    }
}

/// The value stored at byte offset `off` of `data` under field type `ty`.
pub open spec fn value_at(data: Seq<u8>, off: int, ty: FieldType) -> Value {
    decode_word(word_at(data, off, field_size(ty)), ty)
}

/// Whether a value has the variant that storage of type `ty` holds, with
/// reference indices small enough to round-trip through a word.
pub open spec fn value_fits(v: Value, ty: FieldType) -> bool {
    match (v, ty) {
        (Value::Byte(_), FieldType::BaseType(crate::descriptor::BaseType::B)) => true,
        (Value::Char(_), FieldType::BaseType(crate::descriptor::BaseType::C)) => true,
        (Value::Double(_), FieldType::BaseType(crate::descriptor::BaseType::D)) => true,
        (Value::Float(_), FieldType::BaseType(crate::descriptor::BaseType::F)) => true,
        (Value::Int(_), FieldType::BaseType(crate::descriptor::BaseType::I)) => true,
        (Value::Long(_), FieldType::BaseType(crate::descriptor::BaseType::J)) => true,
        (Value::Short(_), FieldType::BaseType(crate::descriptor::BaseType::S)) => true,
        (Value::Boolean(_), FieldType::BaseType(crate::descriptor::BaseType::Z)) => true,
        (Value::Object(o), FieldType::ObjectType(_)) => match o {
            Some(r) => r.0 < usize::MAX,
            None => true,
        },
        (Value::Array(a), FieldType::ArrayType(_)) => match a {
            Some(r) => r.0 < usize::MAX,
            None => true,
        },
        _ => false,
    }
}

proof fn lemma_u8_i8_roundtrip(x: i8)
    ensures
        (((x as u8) as u64) as u8) as i8 == x,
{
    assert((((x as u8) as u64) as u8) as i8 == x) by (bit_vector);
}

proof fn lemma_u16_i16_roundtrip(x: i16)
    ensures
        (((x as u16) as u64) as u16) as i16 == x,
{
    assert((((x as u16) as u64) as u16) as i16 == x) by (bit_vector);
}

proof fn lemma_u32_i32_roundtrip(x: i32)
    ensures
        (((x as u32) as u64) as u32) as i32 == x,
{
    assert((((x as u32) as u64) as u32) as i32 == x) by (bit_vector);
}

proof fn lemma_u64_i64_roundtrip(x: i64)
    ensures
        ((x as u64) as i64) == x,
{
    assert(((x as u64) as i64) == x) by (bit_vector);
}

/// A word narrowed to its width round-trips through little-endian bytes.
proof fn lemma_word_bytes_roundtrip(w: u64, n: nat)
    requires
        n == 1 || n == 2 || n == 4 || n == 8,
        n == 1 ==> w < 0x100,
        n == 2 ==> w < 0x1_0000,
        n == 4 ==> w < 0x1_0000_0000,
    ensures
        le_bytes_of(w, n).len() == n,
        word_at(le_bytes_of(w, n), 0, n) == w,
{
    let s = le_bytes_of(w, n);
    if n == 1 {
        assert((w % 0x100) as u8 as u64 == w) by (bit_vector)
            requires
                w < 0x100,
        ;
    } else if n == 2 {
        assert((w % 0x100) as u8 as u64 + ((w / 0x100) % 0x100) as u8 as u64 * 0x100 == w)
            by (bit_vector)
            requires
                w < 0x1_0000,
        ;
    } else if n == 4 {
        assert((w % 0x100) as u8 as u64 + ((w / 0x100) % 0x100) as u8 as u64 * 0x100 + ((w
            / 0x1_0000) % 0x100) as u8 as u64 * 0x1_0000 + ((w / 0x100_0000) % 0x100) as u8 as u64
            * 0x100_0000 == w) by (bit_vector)
            requires
                w < 0x1_0000_0000,
        ;
    } else {
        assert((w % 0x100) as u8 as u64 + ((w / 0x100) % 0x100) as u8 as u64 * 0x100 + ((w
            / 0x1_0000) % 0x100) as u8 as u64 * 0x1_0000 + ((w / 0x100_0000) % 0x100) as u8 as u64
            * 0x100_0000 + ((w / 0x1_0000_0000) % 0x100) as u8 as u64 * 0x1_0000_0000 + ((w
            / 0x100_0000_0000) % 0x100) as u8 as u64 * 0x100_0000_0000 + ((w / 0x1_0000_0000_0000)
            % 0x100) as u8 as u64 * 0x1_0000_0000_0000 + ((w / 0x100_0000_0000_0000) % 0x100) as u8 as u64
            * 0x100_0000_0000_0000 == w) by (bit_vector);
    }
}

/// Write the low `n` bytes of `w` at `off`, little-endian.  Nothing else in
/// the buffer moves.
fn store_word(data: &mut Vec<u8>, off: usize, w: u64, n: usize)
    requires
        n == 1 || n == 2 || n == 4 || n == 8,
        off + n <= old(data)@.len(),
    ensures
        final(data)@.len() == old(data)@.len(),
        forall|j: int|
            0 <= j < old(data)@.len() && !(off <= j < off + n) ==> final(data)@[j] == old(
                data,
            )@[j],
        final(data)@.subrange(off as int, off + n) == le_bytes_of(mask_word(w, n as nat), n as nat),
{
    let total: usize = data.len();
    assert(off + n <= total);
    let w_masked: u64 = if n == 1 {
        w % 0x100
    } else if n == 2 {
        w % 0x1_0000
    } else if n == 4 {
        w % 0x1_0000_0000
    } else {
        w
    };
    data[off] = (w_masked % 0x100) as u8;
    if n >= 2 {
        data[off + 1] = ((w_masked / 0x100) % 0x100) as u8;
    }
    if n >= 4 {
        data[off + 2] = ((w_masked / 0x1_0000) % 0x100) as u8;
        data[off + 3] = ((w_masked / 0x100_0000) % 0x100) as u8;
    }
    if n >= 8 {
        data[off + 4] = ((w_masked / 0x1_0000_0000) % 0x100) as u8;
        data[off + 5] = ((w_masked / 0x100_0000_0000) % 0x100) as u8;
        data[off + 6] = ((w_masked / 0x1_0000_0000_0000) % 0x100) as u8;
        data[off + 7] = ((w_masked / 0x100_0000_0000_0000) % 0x100) as u8;
    }
    proof {
        assert(data@.subrange(off as int, off + n) =~= le_bytes_of(
            mask_word(w, n as nat),
            n as nat,
        ));
    }
}

/// The word `w` reduced to what `n` bytes can hold.
pub open spec fn mask_word(w: u64, n: nat) -> u64 {
    if n == 1 {
        (w % 0x100) as u64
    } else if n == 2 {
        (w % 0x1_0000) as u64
    } else if n == 4 {
        (w % 0x1_0000_0000) as u64
    } else {
        w
    }
}

/// Read the `n`-byte little-endian word at `off`.
fn load_word(data: &Vec<u8>, off: usize, n: usize) -> (r: u64)
    requires
        n == 1 || n == 2 || n == 4 || n == 8,
        off + n <= data@.len(),
    ensures
        r == word_at(data@, off as int, n as nat),
{
    let total: usize = data.len();
    assert(off + n <= total);
    if n == 1 {
        data[off] as u64
    } else if n == 2 {
        data[off] as u64 + data[off + 1] as u64 * 0x100
    } else if n == 4 {
        data[off] as u64 + data[off + 1] as u64 * 0x100 + data[off + 2] as u64 * 0x1_0000 + data[off
            + 3] as u64 * 0x100_0000
    } else {
        data[off] as u64 + data[off + 1] as u64 * 0x100 + data[off + 2] as u64 * 0x1_0000 + data[off
            + 3] as u64 * 0x100_0000 + data[off + 4] as u64 * 0x1_0000_0000 + data[off + 5] as u64
            * 0x100_0000_0000 + data[off + 6] as u64 * 0x1_0000_0000_0000 + data[off + 7] as u64
            * 0x100_0000_0000_0000
    }
}

/// Storing a fitting value and reading the slot back yields the value: the
/// storage word survives the trip through bytes and decodes to where it
/// came from.
pub proof fn lemma_value_roundtrip(v: Value, ty: FieldType)
    requires
        value_fits(v, ty),
    ensures
        decode_word(
            word_at(
                le_bytes_of(
                    mask_word(value_word(v), field_size(ty)),
                    field_size(ty),
                ),
                0,
                field_size(ty),
            ),
            ty,
        ) == v,
{
    let n = field_size(ty);
    let w = value_word(v);
    match v {
        Value::Byte(x) => {
            assert(w < 0x100);
            lemma_word_bytes_roundtrip(w, n);
            lemma_u8_i8_roundtrip(x);
        },
        Value::Char(x) => {
            lemma_word_bytes_roundtrip(w, n);
        },
        Value::Short(x) => {
            assert(w < 0x1_0000);
            lemma_word_bytes_roundtrip(w, n);
            lemma_u16_i16_roundtrip(x);
        },
        Value::Boolean(b) => {
            lemma_word_bytes_roundtrip(w, n);
        },
        Value::Int(x) => {
            assert(w < 0x1_0000_0000);
            lemma_word_bytes_roundtrip(w, n);
            lemma_u32_i32_roundtrip(x);
        },
        Value::Float(b) => {
            assert(w < 0x1_0000_0000);
            lemma_word_bytes_roundtrip(w, n);
        },
        Value::Long(x) => {
            lemma_word_bytes_roundtrip(w, n);
            lemma_u64_i64_roundtrip(x);
        },
        Value::Double(b) => {
            lemma_word_bytes_roundtrip(w, n);
        },
        Value::Object(o) => {
            lemma_word_bytes_roundtrip(w, n);
        },
        Value::Array(a) => {
            lemma_word_bytes_roundtrip(w, n);
        },
    }
}

/// A zeroed slot decodes to the type's zero value.
pub proof fn lemma_zero_value(data: Seq<u8>, off: int, ty: FieldType)
    requires
        0 <= off,
        off + field_size(ty) <= data.len(),
        forall|j: int| off <= j < off + field_size(ty) ==> data[j] == 0u8,
    ensures
        value_at(data, off, ty) == default_value(ty),
{
    assert(word_at(data, off, field_size(ty)) == 0);
}

} // verus!

verus! {

/// An allocation is well formed against a method area when its class id is
/// in bounds and its buffer has exactly the bytes its layout calls for.
pub open spec fn alloc_wf(a: Alloc, ma: MethodArea) -> bool {
    match a {
        Alloc::Object { class, data } => class.0 < ma.classes@.len() && data@.len()
            == ma.classes@[class.0 as int].size,
        Alloc::Array { class, elem_ty, length, data } => class.0 < ma.classes@.len() && data@.len()
            == ARRAY_HEADER_SIZE + length * field_size(elem_ty),
    }
}

impl Heap {
    pub open spec fn wf(self, ma: MethodArea) -> bool {
        forall|i: int| 0 <= i < self.allocs@.len() ==> alloc_wf(#[trigger] self.allocs@[i], ma)
    }

    /// A fresh, empty heap.
    pub fn new() -> (r: Heap)
        ensures
            r.allocs@.len() == 0,
            forall|ma: MethodArea| r.wf(ma),
    {
        Heap { allocs: Vec::new() }
    }
}

/// Growing the method area cannot unsettle the heap: allocations refer to
/// classes by id, and existing class records never change.
pub proof fn lemma_heap_wf_grow(h: Heap, ma1: MethodArea, ma2: MethodArea)
    requires
        h.wf(ma1),
        ma1.classes@.len() <= ma2.classes@.len(),
        forall|i: int| 0 <= i < ma1.classes@.len() ==> ma2.classes@[i] == ma1.classes@[i],
    ensures
        h.wf(ma2),
{
    assert forall|i: int| 0 <= i < h.allocs@.len() implies alloc_wf(h.allocs@[i], ma2) by {
        assert(alloc_wf(h.allocs@[i], ma1));
    }
}

/// The layout of an array of `len` elements: total byte size, the offset of
/// the element region, and the element stride.
pub fn arr_layout(elem_ty: &FieldType, len: usize) -> (r: Result<(usize, usize, usize), VmError>)
    ensures
        match r {
            Ok((total, offset, stride)) => {
                &&& stride == field_size(*elem_ty)
                &&& offset == ARRAY_HEADER_SIZE
                &&& total == ARRAY_HEADER_SIZE + len * field_size(*elem_ty)
            },
            Err(e) => e == VmError::OutOfMemory && ARRAY_HEADER_SIZE + len * field_size(*elem_ty)
                > usize::MAX,
        },
{
    let (stride, _align) = crate::method_area::layout_for_field(elem_ty);
    let bytes = match len.checked_mul(stride) {
        Some(b) => b,
        None => {
            return Err(VmError::OutOfMemory);
        },
    };
    let total = match ARRAY_HEADER_SIZE.checked_add(bytes) {
        Some(t) => t,
        None => {
            return Err(VmError::OutOfMemory);
        },
    };
    Ok((total, ARRAY_HEADER_SIZE, stride))
}

/// A zero-filled buffer of `n` bytes.
fn zeroed(n: usize) -> (r: Vec<u8>)
    ensures
        r@.len() == n,
        forall|j: int| 0 <= j < n ==> r@[j] == 0u8,
{
    let mut out: Vec<u8> = Vec::new();
    let mut k: usize = 0;
    while k < n
        invariant
            k <= n,
            out@.len() == k,
            forall|j: int| 0 <= j < k ==> out@[j] == 0u8,
        decreases n - k,
    {
        out.push(0);
        k = k + 1;
    }
    out
}

/// The storage word of a value, as executable code.
fn word_of(v: &Value) -> (r: u64)
    requires
        match v {
            Value::Object(o) => o matches Some(x) ==> x.0 < usize::MAX,
            Value::Array(a) => a matches Some(x) ==> x.0 < usize::MAX,
            _ => true,
        },
    ensures
        r == value_word(*v),
{
    match v {
        Value::Byte(x) => (*x as u8) as u64,
        Value::Char(x) => *x as u64,
        Value::Double(b) => *b,
        Value::Float(b) => *b as u64,
        Value::Int(x) => (*x as u32) as u64,
        Value::Long(x) => *x as u64,
        Value::Short(x) => (*x as u16) as u64,
        Value::Boolean(b) => if *b {
            1
        } else {
            0
        },
        Value::Object(o) => match o {
            Some(r) => (r.0 as u64) + 1,
            None => 0,
        },
        Value::Array(a) => match a {
            Some(r) => (r.0 as u64) + 1,
            None => 0,
        },
    }
}

/// Whether storage of type `ty` can hold this value, as executable code.
fn fits(v: &Value, ty: &FieldType) -> (r: bool)
    ensures
        r == value_fits(*v, *ty),
{
    match (v, ty) {
        (Value::Byte(_), FieldType::BaseType(crate::descriptor::BaseType::B)) => true,
        (Value::Char(_), FieldType::BaseType(crate::descriptor::BaseType::C)) => true,
        (Value::Double(_), FieldType::BaseType(crate::descriptor::BaseType::D)) => true,
        (Value::Float(_), FieldType::BaseType(crate::descriptor::BaseType::F)) => true,
        (Value::Int(_), FieldType::BaseType(crate::descriptor::BaseType::I)) => true,
        (Value::Long(_), FieldType::BaseType(crate::descriptor::BaseType::J)) => true,
        (Value::Short(_), FieldType::BaseType(crate::descriptor::BaseType::S)) => true,
        (Value::Boolean(_), FieldType::BaseType(crate::descriptor::BaseType::Z)) => true,
        (Value::Object(o), FieldType::ObjectType(_)) => match o {
            Some(r) => r.0 < usize::MAX,
            None => true,
        },
        (Value::Array(a), FieldType::ArrayType(_)) => match a {
            Some(r) => r.0 < usize::MAX,
            None => true,
        },
        _ => false,
    }
}

/// Decode the word read from storage of type `ty`, as executable code.
fn decode(w: u64, ty: &FieldType) -> (r: Value)
    ensures
        r == decode_word(w, *ty),
{
    match ty {
        FieldType::BaseType(crate::descriptor::BaseType::B) => Value::Byte((w as u8) as i8),
        FieldType::BaseType(crate::descriptor::BaseType::C) => Value::Char(w as u16),
        FieldType::BaseType(crate::descriptor::BaseType::D) => Value::Double(w),
        FieldType::BaseType(crate::descriptor::BaseType::F) => Value::Float(w as u32),
        FieldType::BaseType(crate::descriptor::BaseType::I) => Value::Int((w as u32) as i32),
        FieldType::BaseType(crate::descriptor::BaseType::J) => Value::Long(w as i64),
        FieldType::BaseType(crate::descriptor::BaseType::S) => Value::Short((w as u16) as i16),
        FieldType::BaseType(crate::descriptor::BaseType::Z) => Value::Boolean(w != 0),
        FieldType::ObjectType(_) => if w == 0 {
            Value::Object(None)
        } else {
            Value::Object(Some(ObjectRef((w - 1) as usize)))
        },
        FieldType::ArrayType(_) => if w == 0 {
            Value::Array(None)
        } else {
            Value::Array(Some(ArrayRef((w - 1) as usize)))
        },
    }
}

/// Store a fitting value into `data` at `off` under type `ty`.  Reading the
/// slot back yields exactly the value; bytes outside the slot do not move.
pub fn store_value(data: &mut Vec<u8>, off: usize, val: &Value, ty: &FieldType) -> (r: Result<
    (),
    VmError,
>)
    requires
        off + field_size(*ty) <= old(data)@.len(),
    ensures
        match r {
            Ok(_) => {
                &&& value_fits(*val, *ty)
                &&& final(data)@.len() == old(data)@.len()
                &&& forall|j: int|
                    0 <= j < old(data)@.len() && !(off <= j < off + field_size(*ty))
                        ==> final(data)@[j] == old(data)@[j]
                &&& value_at(final(data)@, off as int, *ty) == *val
            },
            Err(e) => {
                &&& e == VmError::InvalidType
                &&& !value_fits(*val, *ty)
                &&& *final(data) == *old(data)
            },
        },
{
    if !fits(val, ty) {
        return Err(VmError::InvalidType);
    }
    let w = word_of(val);
    let (n, _a) = crate::method_area::layout_for_field(ty);
    store_word(data, off, w, n);
    proof {
        lemma_value_roundtrip(*val, *ty);
        assert(data@.subrange(off as int, off + field_size(*ty)) == le_bytes_of(
            mask_word(value_word(*val), field_size(*ty)),
            field_size(*ty),
        ));
        assert(word_at(data@, off as int, field_size(*ty)) == word_at(
            le_bytes_of(mask_word(value_word(*val), field_size(*ty)), field_size(*ty)),
            0,
            field_size(*ty),
        )) by {
            let sub = data@.subrange(off as int, off + field_size(*ty));
            assert(field_size(*ty) >= 1);
            assert forall|j: int| 0 <= j < field_size(*ty) implies data@[off + j] == sub[j] by {}
        }
    }
    Ok(())
}

/// Load the value stored at `off` in `data` under type `ty`.
pub fn load_value(data: &Vec<u8>, off: usize, ty: &FieldType) -> (r: Value)
    requires
        off + field_size(*ty) <= data@.len(),
    ensures
        r == value_at(data@, off as int, *ty),
{
    let (n, _a) = crate::method_area::layout_for_field(ty);
    let w = load_word(data, off, n);
    decode(w, ty)
}

} // verus!

verus! {

/// The byte buffer of an allocation.
pub open spec fn alloc_data(a: Alloc) -> Seq<u8> {
    match a {
        Alloc::Object { data, .. } => data@,
        Alloc::Array { data, .. } => data@,
    }
}

/// The class of an allocation (an array's is its interned array class).
pub open spec fn alloc_class(a: Alloc) -> ClassId {
    match a {
        Alloc::Object { class, .. } => class,
        Alloc::Array { class, .. } => class,
    }
}

pub open spec fn alloc_arr_len(a: Alloc) -> nat {
    match a {
        Alloc::Array { length, .. } => length as nat,
        Alloc::Object { .. } => 0,
    }
}

pub open spec fn alloc_elem_ty(a: Alloc) -> FieldType {
    match a {
        Alloc::Array { elem_ty, .. } => elem_ty,
        Alloc::Object { .. } => vstd::pervasive::arbitrary(),
    }
}

/// An array's element region holds exactly `length` elements.
pub open spec fn alloc_len_wf(a: Alloc) -> bool {
    match a {
        Alloc::Array { elem_ty, length, data, .. } => data@.len() == ARRAY_HEADER_SIZE + length
            * field_size(elem_ty),
        Alloc::Object { .. } => true,
    }
}

impl Heap {
    /// Array buffers are sized by their length and element type; this holds
    /// of every heap the library builds, independent of any method area.
    pub open spec fn len_wf(self) -> bool {
        forall|i: int| 0 <= i < self.allocs@.len() ==> alloc_len_wf(#[trigger] self.allocs@[i])
    }

    /// Allocate a zeroed instance of the class.  Every field of the new
    /// object reads back as its type's zero value.
    pub fn new_object(&mut self, ma: &MethodArea, class_id: ClassId) -> (r: ObjectRef)
        requires
            ma.wf(),
            class_id.0 < ma.classes@.len(),
            old(self).wf(*ma),
        ensures
            final(self).wf(*ma),
            final(self).len_wf() == old(self).len_wf(),
            r.0 == old(self).allocs@.len(),
            final(self).allocs@.len() == old(self).allocs@.len() + 1,
            forall|i: int|
                0 <= i < old(self).allocs@.len() ==> final(self).allocs@[i] == old(
                    self,
                ).allocs@[i],
            final(self).allocs@[r.0 as int] matches Alloc::Object { class, data } && class
                == class_id && data@.len() == ma.classes@[class_id.0 as int].size && (forall|
                ty: FieldType,
                off: int,
            |
                0 <= off && off + field_size(ty) <= data@.len() ==> #[trigger] value_at(
                    data@,
                    off,
                    ty,
                ) == default_value(ty)),
    {
        let size = ma.classes[class_id.0].size;
        let data = zeroed(size as usize);
        let obj_ref = ObjectRef(self.allocs.len());
        proof {
            assert forall|ty: FieldType, off: int|
                0 <= off && off + field_size(ty) <= data@.len() implies value_at(data@, off, ty)
                == default_value(ty) by {
                lemma_zero_value(data@, off, ty);
            }
        }
        self.allocs.push(Alloc::Object { class: class_id, data });
        obj_ref
    }

    /// Allocate a zeroed array of `len` elements of `elem_ty`, interning the
    /// array class for the element type.  The new array's length is `len`
    /// and every element reads back as the element type's zero value.
    pub fn new_array(&mut self, ma: &mut MethodArea, elem_ty: FieldType, len: usize) -> (r: Result<
        ArrayRef,
        VmError,
    >)
        requires
            old(ma).wf(),
            old(self).wf(*old(ma)),
        ensures
            final(ma).wf(),
            final(ma).methods@ == old(ma).methods@,
            final(ma).fields@ == old(ma).fields@,
            final(ma).class_objs@ == old(ma).class_objs@,
            final(ma).primitive_classes@ == old(ma).primitive_classes@,
            old(ma).classes@.len() <= final(ma).classes@.len(),
            forall|i: int|
                0 <= i < old(ma).classes@.len() ==> final(ma).classes@[i] == old(ma).classes@[i],
            final(self).wf(*final(ma)),
            ({
                (exists|i: int|
                    0 <= i < old(ma).classes@.len() && match (#[trigger] old(ma).classes@[i]).elem_ty {
                        Some(t) => crate::descriptor::ft_chars(t) == crate::descriptor::ft_chars(
                            elem_ty,
                        ),
                        None => false,
                    }) && ARRAY_HEADER_SIZE + len * field_size(elem_ty) <= usize::MAX ==> r is Ok
            }),
            match r {
                Ok(arr) => {
                    &&& arr.0 == old(self).allocs@.len()
                    &&& final(self).allocs@.len() == old(self).allocs@.len() + 1
                    &&& forall|i: int|
                        0 <= i < old(self).allocs@.len() ==> final(self).allocs@[i] == old(
                            self,
                        ).allocs@[i]
                    &&& alloc_class(final(self).allocs@[arr.0 as int]).0
                        < final(ma).classes@.len()
                    &&& match final(ma).classes@[alloc_class(
                        final(self).allocs@[arr.0 as int],
                    ).0 as int].elem_ty {
                        Some(t) => crate::descriptor::ft_chars(t) == crate::descriptor::ft_chars(
                            elem_ty,
                        ),
                        None => false,
                    }
                    &&& final(self).allocs@[arr.0 as int] matches Alloc::Array {
                        elem_ty: t,
                        length,
                        data,
                        ..
                    } && length == len && t == elem_ty && (forall|i: int|
                        0 <= i < len ==> #[trigger] value_at(
                            data@,
                            ARRAY_HEADER_SIZE + i * field_size(elem_ty),
                            elem_ty,
                        ) == default_value(elem_ty))
                },
                Err(_) => final(self).allocs@ == old(self).allocs@,
            },
    {
        let class = match ma.resolve_arr_class(&elem_ty) {
            Ok(c) => c,
            Err(e) => {
                proof {
                    lemma_heap_wf_grow(*self, *old(ma), *ma);
                }
                return Err(e);
            },
        };
        let (total, offset, stride) = match arr_layout(&elem_ty, len) {
            Ok(t) => t,
            Err(e) => {
                proof {
                    lemma_heap_wf_grow(*self, *old(ma), *ma);
                    assert(ARRAY_HEADER_SIZE + len * field_size(elem_ty) > usize::MAX);
                }
                return Err(e);
            },
        };
        let data = zeroed(total);
        proof {
            assert forall|i: int|
                0 <= i < len implies #[trigger] value_at(
                data@,
                ARRAY_HEADER_SIZE + i * field_size(elem_ty),
                elem_ty,
            ) == default_value(elem_ty) by {
                let fs = field_size(elem_ty) as int;
                assert(0 <= i * fs && i * fs + fs <= len * fs) by (nonlinear_arith)
                    requires
                        0 <= i < len,
                        fs >= 0,
                ;
                lemma_zero_value(data@, ARRAY_HEADER_SIZE + i * fs, elem_ty);
            }
        }
        let arr_ref = ArrayRef(self.allocs.len());
        self.allocs.push(Alloc::Array { class, elem_ty, length: len, data });
        proof {
            lemma_heap_wf_grow(*old(self), *old(ma), *ma);
        }
        Ok(arr_ref)
    }

    /// The length an array was allocated with.
    pub fn arr_len(&self, arr: ArrayRef) -> (r: Result<usize, VmError>)
        ensures
            match r {
                Ok(n) => arr.0 < self.allocs@.len() && (self.allocs@[arr.0 as int] matches
                    Alloc::Array { length, .. } && n == length),
                Err(e) => {
                    &&& e == VmError::InvalidType
                    &&& !(arr.0 < self.allocs@.len() && self.allocs@[arr.0 as int] is Array)
                },
            },
    {
        if arr.0 < self.allocs.len() {
            match &self.allocs[arr.0] {
                Alloc::Array { length, .. } => Ok(*length),
                _ => Err(VmError::InvalidType),
            }
        } else {
            Err(VmError::InvalidType)
        }
    }

    /// The element type an array was allocated with.
    pub fn arr_ty(&self, arr: ArrayRef) -> (r: Result<&FieldType, VmError>)
        ensures
            match r {
                Ok(t) => arr.0 < self.allocs@.len() && (self.allocs@[arr.0 as int] matches
                    Alloc::Array { elem_ty, .. } && *t == elem_ty),
                Err(e) => {
                    &&& e == VmError::InvalidType
                    &&& !(arr.0 < self.allocs@.len() && self.allocs@[arr.0 as int] is Array)
                },
            },
    {
        if arr.0 < self.allocs.len() {
            match &self.allocs[arr.0] {
                Alloc::Array { elem_ty, .. } => Ok(elem_ty),
                _ => Err(VmError::InvalidType),
            }
        } else {
            Err(VmError::InvalidType)
        }
    }

    /// The class of the allocation behind an object reference; for an array
    /// this is its interned array class.
    pub fn get_obj_class(&self, obj_ref: ObjectRef) -> (r: Result<ClassId, VmError>)
        ensures
            match r {
                Ok(c) => obj_ref.0 < self.allocs@.len() && c == alloc_class(
                    self.allocs@[obj_ref.0 as int],
                ),
                Err(e) => e == VmError::InvalidType && obj_ref.0 >= self.allocs@.len(),
            },
    {
        if obj_ref.0 < self.allocs.len() {
            match &self.allocs[obj_ref.0] {
                Alloc::Object { class, .. } => Ok(*class),
                Alloc::Array { class, .. } => Ok(*class),
            }
        } else {
            Err(VmError::InvalidType)
        }
    }

    /// Read the instance field `field_id` of the allocation behind
    /// `obj_ref`.  Reading a static-backed field this way is an error.
    pub fn load_field(&self, ma: &MethodArea, obj_ref: ObjectRef, field_id: FieldId) -> (r: Result<
        Value,
        VmError,
    >)
        ensures
            r is Ok <==> {
                &&& field_id.0 < ma.fields@.len()
                &&& obj_ref.0 < self.allocs@.len()
                &&& ma.fields@[field_id.0 as int].backing matches FieldBacking::Instance(off)
                    && off + field_size(ma.fields@[field_id.0 as int].descriptor.0) <= alloc_data(
                    self.allocs@[obj_ref.0 as int],
                ).len()
            },
            match r {
                Ok(v) => {
                    &&& field_id.0 < ma.fields@.len()
                    &&& obj_ref.0 < self.allocs@.len()
                    &&& match ma.fields@[field_id.0 as int].backing {
                        FieldBacking::Instance(off) => v == value_at(
                            alloc_data(self.allocs@[obj_ref.0 as int]),
                            off as int,
                            ma.fields@[field_id.0 as int].descriptor.0,
                        ),
                        _ => false,
                    }
                },
                Err(_) => true,
            },
    {
        if field_id.0 >= ma.fields.len() {
            return Err(VmError::InvalidType);
        }
        let fld = &ma.fields[field_id.0];
        let off_u32 = match fld.backing {
            FieldBacking::Instance(o) => o,
            _ => {
                return Err(VmError::InvalidType);
            },
        };
        if obj_ref.0 >= self.allocs.len() {
            return Err(VmError::InvalidType);
        }
        let (sz, _a) = crate::method_area::layout_for_field(&fld.descriptor.0);
        let data = match &self.allocs[obj_ref.0] {
            Alloc::Object { data, .. } => data,
            Alloc::Array { data, .. } => data,
        };
        let off = off_u32 as usize;
        if off > data.len() || sz > data.len() - off {
            return Err(VmError::ClassFormatError);
        }
        Ok(load_value(data, off, &fld.descriptor.0))
    }

    /// Write the instance field `field_id` of the allocation behind
    /// `obj_ref`, narrowing the value to the field's declared width first.
    pub fn store_field(
        &mut self,
        ma: &MethodArea,
        obj_ref: ObjectRef,
        field_id: FieldId,
        val: Value,
    ) -> (r: Result<(), VmError>)
        ensures
            final(self).allocs@.len() == old(self).allocs@.len(),
            old(self).len_wf() ==> final(self).len_wf(),
            forall|gma: MethodArea| old(self).wf(gma) ==> final(self).wf(gma),
            forall|i: int|
                0 <= i < old(self).allocs@.len() && i != obj_ref.0 ==> final(self).allocs@[i]
                    == old(self).allocs@[i],
            r is Ok <==> {
                &&& field_id.0 < ma.fields@.len()
                &&& obj_ref.0 < old(self).allocs@.len()
                &&& ma.fields@[field_id.0 as int].backing matches FieldBacking::Instance(off)
                    && off + field_size(ma.fields@[field_id.0 as int].descriptor.0) <= alloc_data(
                    old(self).allocs@[obj_ref.0 as int],
                ).len()
                &&& value_fits(
                    store_ty_spec(val, ma.fields@[field_id.0 as int].descriptor.0),
                    ma.fields@[field_id.0 as int].descriptor.0,
                )
            },
            match r {
                Ok(_) => {
                    &&& field_id.0 < ma.fields@.len()
                    &&& obj_ref.0 < final(self).allocs@.len()
                    &&& alloc_class(final(self).allocs@[obj_ref.0 as int]) == alloc_class(
                        old(self).allocs@[obj_ref.0 as int],
                    )
                    &&& final(self).allocs@[obj_ref.0 as int] is Object == old(
                        self,
                    ).allocs@[obj_ref.0 as int] is Object
                    &&& alloc_data(final(self).allocs@[obj_ref.0 as int]).len() == alloc_data(
                        old(self).allocs@[obj_ref.0 as int],
                    ).len()
                    &&& match ma.fields@[field_id.0 as int].backing {
                        FieldBacking::Instance(off) => {
                            &&& value_at(
                                alloc_data(final(self).allocs@[obj_ref.0 as int]),
                                off as int,
                                ma.fields@[field_id.0 as int].descriptor.0,
                            ) == store_ty_spec(val, ma.fields@[field_id.0 as int].descriptor.0)
                            &&& forall|j: int|
                                0 <= j < alloc_data(old(self).allocs@[obj_ref.0 as int]).len() && !(
                                off <= j < off + field_size(
                                    ma.fields@[field_id.0 as int].descriptor.0,
                                )) ==> alloc_data(final(self).allocs@[obj_ref.0 as int])[j]
                                    == alloc_data(old(self).allocs@[obj_ref.0 as int])[j]
                        },
                        _ => false,
                    }
                },
                Err(_) => final(self).allocs@ == old(self).allocs@,
            },
    {
        if field_id.0 >= ma.fields.len() {
            return Err(VmError::InvalidType);
        }
        let fld = &ma.fields[field_id.0];
        let off_u32 = match fld.backing {
            FieldBacking::Instance(o) => o,
            _ => {
                return Err(VmError::InvalidType);
            },
        };
        if obj_ref.0 >= self.allocs.len() {
            return Err(VmError::InvalidType);
        }
        let (sz, _a) = crate::method_area::layout_for_field(&fld.descriptor.0);
        let narrowed = val.store_ty(&fld.descriptor.0);
        let off = off_u32 as usize;
        let stored = match &mut self.allocs[obj_ref.0] {
            Alloc::Object { data, .. } => {
                if off > data.len() || sz > data.len() - off {
                    Err(VmError::ClassFormatError)
                } else {
                    store_value(data, off, &narrowed, &fld.descriptor.0)
                }
            },
            Alloc::Array { data, .. } => {
                if off > data.len() || sz > data.len() - off {
                    Err(VmError::ClassFormatError)
                } else {
                    store_value(data, off, &narrowed, &fld.descriptor.0)
                }
            },
        };
        match stored {
            Ok(_) => {
                proof {
                    if old(self).len_wf() {
                        assert forall|i: int|
                            0 <= i < self.allocs@.len() implies alloc_len_wf(
                            #[trigger] self.allocs@[i],
                        ) by {
                            assert(alloc_len_wf(old(self).allocs@[i]));
                        }
                    }
                    assert forall|gma: MethodArea| old(self).wf(gma) implies self.wf(gma) by {
                        assert forall|i: int|
                            0 <= i < self.allocs@.len() implies alloc_wf(
                            #[trigger] self.allocs@[i],
                            gma,
                        ) by {
                            assert(alloc_wf(old(self).allocs@[i], gma));
                        }
                    }
                }
                Ok(())
            },
            Err(e) => {
                proof {
                    assert(self.allocs@ =~= old(self).allocs@);
                }
                Err(e)
            },
        }
    }
}

} // verus!

verus! {

/// Equal byte runs decode to equal element runs: if `count * stride` bytes
/// agree between two buffers, so does every element read inside them.
pub proof fn lemma_elements_from_bytes(
    d1: Seq<u8>,
    d2: Seq<u8>,
    o1: int,
    o2: int,
    count: int,
    ty: FieldType,
)
    requires
        0 <= o1,
        0 <= o2,
        0 <= count,
        forall|t: int| 0 <= t < count * field_size(ty) ==> #[trigger] d1[o1 + t] == d2[o2 + t],
    ensures
        forall|i: int|
            0 <= i < count ==> #[trigger] value_at(d1, o1 + i * field_size(ty), ty) == value_at(
                d2,
                o2 + i * field_size(ty),
                ty,
            ),
{
    let fs = field_size(ty) as int;
    assert forall|i: int|
        0 <= i < count implies #[trigger] value_at(d1, o1 + i * fs, ty) == value_at(
        d2,
        o2 + i * fs,
        ty,
    ) by {
        assert forall|k: int| 0 <= k < 8 implies (#[trigger] d1[o1 + i * fs + k]) == d2[o2 + i * fs
            + k] || k >= fs by {
            if k < fs {
                assert(0 <= i * fs + k < count * fs) by (nonlinear_arith)
                    requires
                        0 <= i < count,
                        0 <= k < fs,
                ;
                assert(d1[o1 + (i * fs + k)] == d2[o2 + (i * fs + k)]);
            }
        }
        assert(word_at(d1, o1 + i * fs, fs as nat) == word_at(d2, o2 + i * fs, fs as nat));
    }
}

impl Heap {
    /// Read element `idx` of the array; bounds are enforced.
    pub fn load_arr_elem(&self, arr_ref: ArrayRef, idx: usize) -> (r: Result<Value, VmError>)
        requires
            self.len_wf(),
        ensures
            match r {
                Ok(v) => {
                    &&& arr_ref.0 < self.allocs@.len()
                    &&& self.allocs@[arr_ref.0 as int] is Array
                    &&& idx < alloc_arr_len(self.allocs@[arr_ref.0 as int])
                    &&& v == value_at(
                        alloc_data(self.allocs@[arr_ref.0 as int]),
                        ARRAY_HEADER_SIZE + idx * field_size(
                            alloc_elem_ty(self.allocs@[arr_ref.0 as int]),
                        ),
                        alloc_elem_ty(self.allocs@[arr_ref.0 as int]),
                    )
                },
                Err(e) => {
                    ||| (e == VmError::InvalidType && !(arr_ref.0 < self.allocs@.len()
                        && self.allocs@[arr_ref.0 as int] is Array))
                    ||| (e == VmError::ArrayIndexOutOfBounds && arr_ref.0 < self.allocs@.len()
                        && self.allocs@[arr_ref.0 as int] is Array && idx >= alloc_arr_len(
                        self.allocs@[arr_ref.0 as int],
                    ))
                },
            },
    {
        if arr_ref.0 >= self.allocs.len() {
            return Err(VmError::InvalidType);
        }
        match &self.allocs[arr_ref.0] {
            Alloc::Array { elem_ty, length, data, .. } => {
                if idx >= *length {
                    return Err(VmError::ArrayIndexOutOfBounds);
                }
                let (stride, _a) = crate::method_area::layout_for_field(elem_ty);
                let dlen: usize = data.len();
                proof {
                    assert(alloc_len_wf(self.allocs@[arr_ref.0 as int]));
                    let fs = field_size(*elem_ty) as int;
                    assert(idx * fs + fs <= (*length) * fs) by (nonlinear_arith)
                        requires
                            idx < (*length),
                            fs >= 0,
                    ;
                    assert(ARRAY_HEADER_SIZE + idx * fs + fs <= dlen);
                }
                let off = ARRAY_HEADER_SIZE + idx * stride;
                Ok(load_value(data, off, elem_ty))
            },
            _ => Err(VmError::InvalidType),
        }
    }

    /// Write element `idx` of the array, narrowing the value to the element
    /// type first; bounds are enforced, and no other element moves.
    pub fn store_arr_elem(&mut self, arr_ref: ArrayRef, idx: usize, val: Value) -> (r: Result<
        (),
        VmError,
    >)
        requires
            old(self).len_wf(),
        ensures
            final(self).len_wf(),
            final(self).allocs@.len() == old(self).allocs@.len(),
            forall|gma: MethodArea| old(self).wf(gma) ==> final(self).wf(gma),
            forall|i: int|
                0 <= i < old(self).allocs@.len() && i != arr_ref.0 ==> final(self).allocs@[i]
                    == old(self).allocs@[i],
            r is Ok <==> {
                &&& arr_ref.0 < old(self).allocs@.len()
                &&& old(self).allocs@[arr_ref.0 as int] is Array
                &&& idx < alloc_arr_len(old(self).allocs@[arr_ref.0 as int])
                &&& value_fits(
                    store_ty_spec(val, alloc_elem_ty(old(self).allocs@[arr_ref.0 as int])),
                    alloc_elem_ty(old(self).allocs@[arr_ref.0 as int]),
                )
            },
            match r {
                Ok(_) => {
                    &&& arr_ref.0 < old(self).allocs@.len()
                    &&& old(self).allocs@[arr_ref.0 as int] is Array
                    &&& final(self).allocs@[arr_ref.0 as int] is Array
                    &&& idx < alloc_arr_len(old(self).allocs@[arr_ref.0 as int])
                    &&& alloc_elem_ty(final(self).allocs@[arr_ref.0 as int]) == alloc_elem_ty(
                        old(self).allocs@[arr_ref.0 as int],
                    )
                    &&& alloc_arr_len(final(self).allocs@[arr_ref.0 as int]) == alloc_arr_len(
                        old(self).allocs@[arr_ref.0 as int],
                    )
                    &&& alloc_class(final(self).allocs@[arr_ref.0 as int]) == alloc_class(
                        old(self).allocs@[arr_ref.0 as int],
                    )
                    &&& ({
                        let ty = alloc_elem_ty(old(self).allocs@[arr_ref.0 as int]);
                        let d0 = alloc_data(old(self).allocs@[arr_ref.0 as int]);
                        let d1 = alloc_data(final(self).allocs@[arr_ref.0 as int]);
                        &&& d1.len() == d0.len()
                        &&& value_at(d1, ARRAY_HEADER_SIZE + idx * field_size(ty), ty)
                            == store_ty_spec(val, ty)
                        &&& forall|j: int|
                            0 <= j < d0.len() && !(ARRAY_HEADER_SIZE + idx * field_size(ty) <= j
                                < ARRAY_HEADER_SIZE + idx * field_size(ty) + field_size(ty))
                                ==> d1[j] == d0[j]
                        &&& forall|i: int|
                            0 <= i < alloc_arr_len(old(self).allocs@[arr_ref.0 as int]) && i != idx
                                ==> #[trigger] value_at(
                                d1,
                                ARRAY_HEADER_SIZE + i * field_size(ty),
                                ty,
                            ) == value_at(d0, ARRAY_HEADER_SIZE + i * field_size(ty), ty)
                    })
                },
                Err(_) => final(self).allocs@ == old(self).allocs@,
            },
    {
        if arr_ref.0 >= self.allocs.len() {
            return Err(VmError::InvalidType);
        }
        let stored = match &mut self.allocs[arr_ref.0] {
            Alloc::Array { elem_ty, length, data, .. } => {
                if idx >= *length {
                    Err(VmError::ArrayIndexOutOfBounds)
                } else {
                    let (stride, _a) = crate::method_area::layout_for_field(elem_ty);
                    let dlen: usize = data.len();
                    proof {
                        assert(alloc_len_wf(old(self).allocs@[arr_ref.0 as int]));
                        let fs = field_size(*elem_ty) as int;
                        assert(idx * fs + fs <= (*length) * fs) by (nonlinear_arith)
                            requires
                                idx < (*length),
                                fs >= 0,
                        ;
                        assert(ARRAY_HEADER_SIZE + idx * fs + fs <= dlen);
                    }
                    let off = ARRAY_HEADER_SIZE + idx * stride;
                    let narrowed = val.store_ty(elem_ty);
                    store_value(data, off, &narrowed, elem_ty)
                }
            },
            _ => Err(VmError::InvalidType),
        };
        match stored {
            Ok(_) => {
                proof {
                    let a0 = old(self).allocs@[arr_ref.0 as int];
                    let a1 = self.allocs@[arr_ref.0 as int];
                    let ty = alloc_elem_ty(a0);
                    let fs = field_size(ty) as int;
                    let d0 = alloc_data(a0);
                    let d1 = alloc_data(a1);
                    assert forall|i: int|
                        0 <= i < alloc_arr_len(a0) && i != idx implies #[trigger] value_at(
                        d1,
                        ARRAY_HEADER_SIZE + i * fs,
                        ty,
                    ) == value_at(d0, ARRAY_HEADER_SIZE + i * fs, ty) by {
                        let o1 = ARRAY_HEADER_SIZE + i * fs;
                        assert forall|j: int| o1 <= j < o1 + fs implies (#[trigger] d1[j])
                            == d0[j] by {
                            assert(j < ARRAY_HEADER_SIZE + idx * fs || j >= ARRAY_HEADER_SIZE + idx
                                * fs + fs) by (nonlinear_arith)
                                requires
                                    o1 == ARRAY_HEADER_SIZE + i * fs,
                                    o1 <= j < o1 + fs,
                                    0 <= i,
                                    0 <= idx,
                                    i != idx,
                                    fs >= 1,
                            ;
                            assert(o1 + fs <= ARRAY_HEADER_SIZE + alloc_arr_len(a0) * fs)
                                by (nonlinear_arith)
                                requires
                                    o1 == ARRAY_HEADER_SIZE + i * fs,
                                    0 <= i < alloc_arr_len(a0),
                                    fs >= 1,
                            ;
                        }
                        assert(word_at(d1, o1, fs as nat) == word_at(d0, o1, fs as nat));
                    }
                    assert forall|i: int|
                        0 <= i < self.allocs@.len() implies alloc_len_wf(
                        #[trigger] self.allocs@[i],
                    ) by {
                        assert(alloc_len_wf(old(self).allocs@[i]));
                    }
                    assert forall|gma: MethodArea| old(self).wf(gma) implies self.wf(gma) by {
                        assert forall|i: int|
                            0 <= i < self.allocs@.len() implies alloc_wf(
                            #[trigger] self.allocs@[i],
                            gma,
                        ) by {
                            assert(alloc_wf(old(self).allocs@[i], gma));
                        }
                    }
                }
                Ok(())
            },
            Err(e) => {
                proof {
                    assert(self.allocs@ =~= old(self).allocs@);
                }
                Err(e)
            },
        }
    }
}

} // verus!

verus! {

/// Copy `n` bytes starting at `start` out of a buffer.
fn take_bytes(data: &Vec<u8>, start: usize, n: usize) -> (r: Vec<u8>)
    requires
        start + n <= data@.len(),
    ensures
        r@ == data@.subrange(start as int, start + n),
{
    let mut out: Vec<u8> = Vec::new();
    let mut k: usize = 0;
    let total: usize = data.len();
    assert(out@ =~= data@.subrange(start as int, start as int));
    while k < n
        invariant
            k <= n,
            start + n <= total,
            total == data@.len(),
            out@ == data@.subrange(start as int, start + k),
        decreases n - k,
    {
        out.push(data[start + k]);
        k = k + 1;
        assert(out@ =~= data@.subrange(start as int, start + k));
    }
    out
}

/// Overwrite the bytes at `start` with `src`; nothing else moves.
fn write_bytes(data: &mut Vec<u8>, start: usize, src: &Vec<u8>)
    requires
        start + src@.len() <= old(data)@.len(),
    ensures
        final(data)@.len() == old(data)@.len(),
        forall|j: int|
            0 <= j < old(data)@.len() && !(start <= j < start + src@.len()) ==> final(data)@[j]
                == old(data)@[j],
        forall|t: int| 0 <= t < src@.len() ==> final(data)@[start + t] == src@[t],
{
    let mut k: usize = 0;
    let n: usize = src.len();
    let total: usize = data.len();
    while k < n
        invariant
            k <= n,
            n == src@.len(),
            start + n <= total,
            total == data@.len(),
            data@.len() == old(data)@.len(),
            forall|j: int|
                0 <= j < old(data)@.len() && !(start <= j < start + k) ==> data@[j] == old(
                    data,
                )@[j],
            forall|t: int| 0 <= t < k ==> data@[start + t] == src@[t],
        decreases n - k,
    {
        data[start + k] = src[k];
        k = k + 1;
    }
}

impl Heap {
    /// Bulk element copy between two arrays of the same element type, with
    /// `memmove` overlap semantics: the destination range ends up holding
    /// what the source range held before the call.
    pub fn array_copy(
        &mut self,
        src_ref: ArrayRef,
        src_idx: usize,
        dst_ref: ArrayRef,
        dst_idx: usize,
        len: usize,
    ) -> (r: Result<(), VmError>)
        requires
            old(self).len_wf(),
        ensures
            final(self).len_wf(),
            final(self).allocs@.len() == old(self).allocs@.len(),
            forall|gma: MethodArea| old(self).wf(gma) ==> final(self).wf(gma),
            forall|i: int|
                0 <= i < old(self).allocs@.len() && i != dst_ref.0 ==> final(self).allocs@[i]
                    == old(self).allocs@[i],
            r is Ok <==> {
                &&& src_ref.0 < old(self).allocs@.len()
                &&& dst_ref.0 < old(self).allocs@.len()
                &&& old(self).allocs@[src_ref.0 as int] is Array
                &&& old(self).allocs@[dst_ref.0 as int] is Array
                &&& ft_chars(alloc_elem_ty(old(self).allocs@[src_ref.0 as int])) == ft_chars(
                    alloc_elem_ty(old(self).allocs@[dst_ref.0 as int]),
                )
                &&& src_idx + len <= alloc_arr_len(old(self).allocs@[src_ref.0 as int])
                &&& dst_idx + len <= alloc_arr_len(old(self).allocs@[dst_ref.0 as int])
            },
            match r {
                Ok(_) => {
                    &&& src_ref.0 < old(self).allocs@.len()
                    &&& dst_ref.0 < old(self).allocs@.len()
                    &&& old(self).allocs@[src_ref.0 as int] is Array
                    &&& old(self).allocs@[dst_ref.0 as int] is Array
                    &&& src_idx + len <= alloc_arr_len(old(self).allocs@[src_ref.0 as int])
                    &&& dst_idx + len <= alloc_arr_len(old(self).allocs@[dst_ref.0 as int])
                    &&& ({
                        let ty = alloc_elem_ty(old(self).allocs@[dst_ref.0 as int]);
                        let fs = field_size(ty) as int;
                        let d0 = alloc_data(old(self).allocs@[dst_ref.0 as int]);
                        let s0 = alloc_data(old(self).allocs@[src_ref.0 as int]);
                        let d1 = alloc_data(final(self).allocs@[dst_ref.0 as int]);
                        &&& ft_chars(alloc_elem_ty(old(self).allocs@[src_ref.0 as int]))
                            == ft_chars(ty)
                        &&& final(self).allocs@[dst_ref.0 as int] is Array
                        &&& alloc_elem_ty(final(self).allocs@[dst_ref.0 as int]) == ty
                        &&& alloc_arr_len(final(self).allocs@[dst_ref.0 as int]) == alloc_arr_len(
                            old(self).allocs@[dst_ref.0 as int],
                        )
                        &&& alloc_class(final(self).allocs@[dst_ref.0 as int]) == alloc_class(
                            old(self).allocs@[dst_ref.0 as int],
                        )
                        &&& d1.len() == d0.len()
                        &&& forall|j: int|
                            0 <= j < d0.len() && !(ARRAY_HEADER_SIZE + dst_idx * fs <= j
                                < ARRAY_HEADER_SIZE + dst_idx * fs + len * fs) ==> d1[j] == d0[j]
                        &&& forall|i: int|
                            0 <= i < len ==> #[trigger] value_at(
                                d1,
                                ARRAY_HEADER_SIZE + dst_idx * fs + i * fs,
                                ty,
                            ) == value_at(s0, ARRAY_HEADER_SIZE + src_idx * fs + i * fs, ty)
                    })
                },
                Err(_) => final(self).allocs@ == old(self).allocs@,
            },
    {
        if src_ref.0 >= self.allocs.len() || dst_ref.0 >= self.allocs.len() {
            return Err(VmError::InvalidType);
        }
        let (src_len, stride, types_ok): (usize, usize, bool) = match (
            &self.allocs[src_ref.0],
            &self.allocs[dst_ref.0],
        ) {
            (
                Alloc::Array { elem_ty: se, length: sl, .. },
                Alloc::Array { elem_ty: de, length: dl, .. },
            ) => {
                let (st, _a) = crate::method_area::layout_for_field(se);
                let same = ft_eq(se, de);
                proof {
                    if same {
                        // Equal descriptor text means equal width, so one
                        // stride serves both arrays.
                        crate::method_area::lemma_ft_text_same_size(*se, *de);
                    }
                }
                (*sl, st, same)
            },
            _ => {
                return Err(VmError::InvalidType);
            },
        };
        if !types_ok {
            return Err(VmError::InvalidType);
        }
        let dst_len = match self.arr_len(dst_ref) {
            Ok(n) => n,
            Err(e) => {
                return Err(e);
            },
        };
        if src_idx > src_len || len > src_len - src_idx {
            return Err(VmError::ArrayIndexOutOfBounds);
        }
        if dst_idx > dst_len || len > dst_len - dst_idx {
            return Err(VmError::ArrayIndexOutOfBounds);
        }
        let tmp: Vec<u8> = match &self.allocs[src_ref.0] {
            Alloc::Array { elem_ty, length, data, .. } => {
                let dlen: usize = data.len();
                proof {
                    assert(alloc_len_wf(self.allocs@[src_ref.0 as int]));
                    let fs = field_size(*elem_ty) as int;
                    assert(src_idx * fs + len * fs <= (*length) * fs) by (nonlinear_arith)
                        requires
                            src_idx + len <= (*length),
                            fs >= 0,
                    ;
                }
                take_bytes(data, ARRAY_HEADER_SIZE + src_idx * stride, len * stride)
            },
            _ => {
                return Err(VmError::InvalidType);
            },
        };
        let ghost pre = *self;
        let copied: bool = match &mut self.allocs[dst_ref.0] {
            Alloc::Array { elem_ty, length, data, .. } => {
                let dlen: usize = data.len();
                proof {
                    assert(alloc_len_wf(old(self).allocs@[dst_ref.0 as int]));
                    let fs = field_size(*elem_ty) as int;
                    assert(dst_idx * fs + len * fs <= (*length) * fs) by (nonlinear_arith)
                        requires
                            dst_idx + len <= (*length),
                            fs >= 0,
                    ;
                }
                write_bytes(data, ARRAY_HEADER_SIZE + dst_idx * stride, &tmp);
                true
            },
            _ => false,
        };
        if !copied {
            proof {
                assert(self.allocs@ =~= old(self).allocs@);
            }
            return Err(VmError::InvalidType);
        }
        proof {
            let ty = alloc_elem_ty(old(self).allocs@[dst_ref.0 as int]);
            let fs = field_size(ty) as int;
            let d1 = alloc_data(self.allocs@[dst_ref.0 as int]);
            let s0 = alloc_data(old(self).allocs@[src_ref.0 as int]);
            assert forall|t: int|
                0 <= t < len * fs implies #[trigger] d1[ARRAY_HEADER_SIZE + dst_idx * fs + t]
                == s0[ARRAY_HEADER_SIZE + src_idx * fs + t] by {
                assert(tmp@[t] == s0[ARRAY_HEADER_SIZE + src_idx * fs + t]);
            }
            lemma_elements_from_bytes(
                d1,
                s0,
                ARRAY_HEADER_SIZE + dst_idx * fs,
                ARRAY_HEADER_SIZE + src_idx * fs,
                len as int,
                ty,
            );
            assert forall|i: int|
                0 <= i < self.allocs@.len() implies alloc_len_wf(#[trigger] self.allocs@[i]) by {
                assert(alloc_len_wf(old(self).allocs@[i]));
            }
            assert forall|gma: MethodArea| old(self).wf(gma) implies self.wf(gma) by {
                assert forall|i: int|
                    0 <= i < self.allocs@.len() implies alloc_wf(
                    #[trigger] self.allocs@[i],
                    gma,
                ) by {
                    assert(alloc_wf(old(self).allocs@[i], gma));
                }
            }
        }
        Ok(())
    }

    /// All elements of the array, in index order.
    pub fn array_contents(&self, arr_ref: ArrayRef) -> (r: Result<Vec<Value>, VmError>)
        requires
            self.len_wf(),
        ensures
            r is Ok <==> (arr_ref.0 < self.allocs@.len() && self.allocs@[arr_ref.0 as int]
                is Array),
            match r {
                Ok(vs) => {
                    &&& arr_ref.0 < self.allocs@.len()
                    &&& self.allocs@[arr_ref.0 as int] is Array
                    &&& vs@.len() == alloc_arr_len(self.allocs@[arr_ref.0 as int])
                    &&& forall|i: int|
                        0 <= i < vs@.len() ==> #[trigger] vs@[i] == value_at(
                            alloc_data(self.allocs@[arr_ref.0 as int]),
                            ARRAY_HEADER_SIZE + i * field_size(
                                alloc_elem_ty(self.allocs@[arr_ref.0 as int]),
                            ),
                            alloc_elem_ty(self.allocs@[arr_ref.0 as int]),
                        )
                },
                Err(_) => true,
            },
    {
        let n = self.arr_len(arr_ref)?;
        let mut out: Vec<Value> = Vec::new();
        let mut k: usize = 0;
        while k < n
            invariant
                self.len_wf(),
                k <= n,
                arr_ref.0 < self.allocs@.len(),
                self.allocs@[arr_ref.0 as int] is Array,
                n == alloc_arr_len(self.allocs@[arr_ref.0 as int]),
                out@.len() == k,
                forall|i: int|
                    0 <= i < k ==> #[trigger] out@[i] == value_at(
                        alloc_data(self.allocs@[arr_ref.0 as int]),
                        ARRAY_HEADER_SIZE + i * field_size(
                            alloc_elem_ty(self.allocs@[arr_ref.0 as int]),
                        ),
                        alloc_elem_ty(self.allocs@[arr_ref.0 as int]),
                    ),
            decreases n - k,
        {
            let v = self.load_arr_elem(arr_ref, k)?;
            out.push(v);
            k = k + 1;
        }
        Ok(out)
    }

    /// Allocate a copy of the allocation behind `obj`: same class, same
    /// bytes.
    pub fn clone_object(&mut self, obj: ObjectRef) -> (r: Result<ObjectRef, VmError>)
        requires
            old(self).len_wf(),
        ensures
            final(self).len_wf(),
            forall|gma: MethodArea| old(self).wf(gma) ==> final(self).wf(gma),
            forall|i: int|
                0 <= i < old(self).allocs@.len() ==> final(self).allocs@[i] == old(
                    self,
                ).allocs@[i],
            match r {
                Ok(new_obj) => {
                    &&& obj.0 < old(self).allocs@.len()
                    &&& new_obj.0 == old(self).allocs@.len()
                    &&& final(self).allocs@.len() == old(self).allocs@.len() + 1
                    &&& alloc_class(final(self).allocs@[new_obj.0 as int]) == alloc_class(
                        old(self).allocs@[obj.0 as int],
                    )
                    &&& alloc_data(final(self).allocs@[new_obj.0 as int]) == alloc_data(
                        old(self).allocs@[obj.0 as int],
                    )
                },
                Err(_) => final(self).allocs@ == old(self).allocs@,
            },
    {
        if obj.0 >= self.allocs.len() {
            return Err(VmError::InvalidType);
        }
        let new_alloc: Alloc = match &self.allocs[obj.0] {
            Alloc::Object { class, data } => {
                let copy = take_bytes(data, 0, data.len());
                proof {
                    assert(copy@ =~= data@);
                }
                Alloc::Object { class: *class, data: copy }
            },
            Alloc::Array { class, elem_ty, length, data } => {
                let copy = take_bytes(data, 0, data.len());
                let elem_copy = elem_ty.clone();
                proof {
                    assert(copy@ =~= data@);
                    crate::method_area::lemma_ft_text_same_size(elem_copy, *elem_ty);
                }
                Alloc::Array { class: *class, elem_ty: elem_copy, length: *length, data: copy }
            },
        };
        let new_ref = ObjectRef(self.allocs.len());
        self.allocs.push(new_alloc);
        proof {
            assert forall|gma: MethodArea| old(self).wf(gma) implies self.wf(gma) by {
                assert forall|i: int|
                    0 <= i < self.allocs@.len() implies alloc_wf(
                    #[trigger] self.allocs@[i],
                    gma,
                ) by {
                    if i < old(self).allocs@.len() {
                        assert(alloc_wf(old(self).allocs@[i], gma));
                    } else {
                        assert(alloc_wf(old(self).allocs@[obj.0 as int], gma));
                    }
                }
            }
        }
        Ok(new_ref)
    }
}

} // verus!

verus! {

/// Full well-formedness against a method area includes the array-length
/// discipline.
pub proof fn lemma_wf_implies_len_wf(h: Heap, ma: MethodArea)
    requires
        h.wf(ma),
    ensures
        h.len_wf(),
{
    assert forall|i: int| 0 <= i < h.allocs@.len() implies alloc_len_wf(
        #[trigger] h.allocs@[i],
    ) by {
        assert(alloc_wf(h.allocs@[i], ma));
    }
}

/// An in-place update that keeps an allocation's kind, class, element type,
/// length and byte count keeps the heap well formed.
pub proof fn lemma_wf_after_update(h0: Heap, h1: Heap, ma: MethodArea, i: int)
    requires
        h0.wf(ma),
        h1.allocs@.len() == h0.allocs@.len(),
        forall|j: int| 0 <= j < h0.allocs@.len() && j != i ==> h1.allocs@[j] == h0.allocs@[j],
        0 <= i < h0.allocs@.len(),
        alloc_class(h1.allocs@[i]) == alloc_class(h0.allocs@[i]),
        h1.allocs@[i] is Array == h0.allocs@[i] is Array,
        h1.allocs@[i] is Array ==> alloc_elem_ty(h1.allocs@[i]) == alloc_elem_ty(h0.allocs@[i])
            && alloc_arr_len(h1.allocs@[i]) == alloc_arr_len(h0.allocs@[i]),
        alloc_data(h1.allocs@[i]).len() == alloc_data(h0.allocs@[i]).len(),
    ensures
        h1.wf(ma),
{
    assert forall|j: int| 0 <= j < h1.allocs@.len() implies alloc_wf(
        #[trigger] h1.allocs@[j],
        ma,
    ) by {
        assert(alloc_wf(h0.allocs@[j], ma));
    }
}

/// The element bytes of a byte array: the data after the header, one byte
/// per element.
pub open spec fn arr_bytes(a: Alloc) -> Seq<u8> {
    alloc_data(a).subrange(
        ARRAY_HEADER_SIZE as int,
        ARRAY_HEADER_SIZE + alloc_arr_len(a),
    )
}

/// Consecutive little-endian byte pairs as UTF-16 code units.
pub open spec fn le_units(b: Seq<u8>) -> Seq<u16> {
    Seq::new((b.len() / 2) as nat, |i: int| (b[2 * i] as u16 + b[2 * i + 1] as u16 * 0x100) as u16)
}

proof fn lemma_u8_signed_roundtrip(d: u8)
    ensures
        ((d as i8) as u8) == d,
        (((d as u64) as u8) as i8) as u8 == d,
{
    assert(((d as i8) as u8) == d) by (bit_vector);
    assert((((d as u64) as u8) as i8) as u8 == d) by (bit_vector);
}

/// What a string object's `value` and `coder` fields say about a decoded
/// host string: the fields resolve on the object's class, the value field
/// holds a byte array, and the string is the UTF-8 decoding of its bytes
/// for coder 0 and the UTF-16 decoding of its little-endian byte pairs for
/// any other coder.
pub open spec fn decodes_string(
    heap: Heap,
    ma: MethodArea,
    str_obj: ObjectRef,
    fv: FieldId,
    fc: FieldId,
    va: ArrayRef,
    coder: i8,
    s: Seq<char>,
) -> bool {
    &&& str_obj.0 < heap.allocs@.len()
    &&& alloc_class(heap.allocs@[str_obj.0 as int]).0 < ma.classes@.len()
    &&& crate::method_area::field_search(
        ma,
        alloc_class(heap.allocs@[str_obj.0 as int]).0 as int,
        "value"@,
    ) == Some(fv)
    &&& crate::method_area::field_search(
        ma,
        alloc_class(heap.allocs@[str_obj.0 as int]).0 as int,
        "coder"@,
    ) == Some(fc)
    &&& fv.0 < ma.fields@.len()
    &&& fc.0 < ma.fields@.len()
    &&& (ma.fields@[fv.0 as int].backing matches FieldBacking::Instance(offv) && offv
        + field_size(ma.fields@[fv.0 as int].descriptor.0) <= alloc_data(
        heap.allocs@[str_obj.0 as int],
    ).len() && value_at(
        alloc_data(heap.allocs@[str_obj.0 as int]),
        offv as int,
        ma.fields@[fv.0 as int].descriptor.0,
    ) == Value::Array(Some(va)))
    &&& (ma.fields@[fc.0 as int].backing matches FieldBacking::Instance(offc) && offc
        + field_size(ma.fields@[fc.0 as int].descriptor.0) <= alloc_data(
        heap.allocs@[str_obj.0 as int],
    ).len() && value_at(
        alloc_data(heap.allocs@[str_obj.0 as int]),
        offc as int,
        ma.fields@[fc.0 as int].descriptor.0,
    ) == Value::Byte(coder))
    &&& va.0 < heap.allocs@.len()
    &&& heap.allocs@[va.0 as int] is Array
    &&& (alloc_arr_len(heap.allocs@[va.0 as int]) > 0 ==> alloc_elem_ty(
        heap.allocs@[va.0 as int],
    ) == FieldType::BaseType(crate::descriptor::BaseType::B))
    &&& ({
        let b = arr_bytes(heap.allocs@[va.0 as int]);
        if coder == 0 {
            vstd::utf8::valid_utf8(b) && vstd::utf8::encode_utf8(s) == b
        } else {
            crate::text::utf16_ok(le_units(b)) && s == crate::text::utf16_chars(le_units(b))
        }
    })
}

/// The little-endian byte pairs of a UTF-16 unit sequence.
pub open spec fn le_pair_bytes(u: Seq<u16>) -> Seq<u8> {
    Seq::new(
        2 * u.len(),
        |i: int|
            if i % 2 == 0 {
                (u[i / 2] % 0x100) as u8
            } else {
                (u[i / 2] / 0x100) as u8
            },
    )
}

/// What `create_string` builds for host string `s`: a fresh object whose
/// resolvable `value` field holds a fresh byte array carrying the
/// little-endian pairs of the string's UTF-16 units, and whose `coder`
/// slot holds 1 narrowed to its declared width (stated where the two
/// fields' byte ranges do not overlap, as any sane string class has them).
pub open spec fn creates_string(
    heap: Heap,
    ma: MethodArea,
    obj: ObjectRef,
    fv: FieldId,
    fc: FieldId,
    va: ArrayRef,
    s: Seq<char>,
) -> bool {
    &&& obj.0 < heap.allocs@.len()
    &&& heap.allocs@[obj.0 as int] is Object
    &&& alloc_class(heap.allocs@[obj.0 as int]).0 < ma.classes@.len()
    &&& field_search(ma, alloc_class(heap.allocs@[obj.0 as int]).0 as int, "value"@) == Some(fv)
    &&& field_search(ma, alloc_class(heap.allocs@[obj.0 as int]).0 as int, "coder"@) == Some(fc)
    &&& fv.0 < ma.fields@.len()
    &&& fc.0 < ma.fields@.len()
    &&& (ma.fields@[fv.0 as int].backing matches FieldBacking::Instance(offv) && value_at(
        alloc_data(heap.allocs@[obj.0 as int]),
        offv as int,
        ma.fields@[fv.0 as int].descriptor.0,
    ) == Value::Array(Some(va)))
    &&& match (ma.fields@[fv.0 as int].backing, ma.fields@[fc.0 as int].backing) {
        (FieldBacking::Instance(offv), FieldBacking::Instance(offc)) => (offv + field_size(
            ma.fields@[fv.0 as int].descriptor.0,
        ) <= offc as int || offc + field_size(ma.fields@[fc.0 as int].descriptor.0)
            <= offv as int) ==> value_at(
            alloc_data(heap.allocs@[obj.0 as int]),
            offc as int,
            ma.fields@[fc.0 as int].descriptor.0,
        ) == store_ty_spec(Value::Int(1), ma.fields@[fc.0 as int].descriptor.0),
        _ => false,
    }
    &&& va.0 < heap.allocs@.len()
    &&& heap.allocs@[va.0 as int] is Array
    &&& alloc_arr_len(heap.allocs@[va.0 as int]) == 2 * crate::text::utf16_units(s).len()
    &&& arr_bytes(heap.allocs@[va.0 as int]) == le_pair_bytes(crate::text::utf16_units(s))
}

pub open spec fn built_string(heap: Heap, ma: MethodArea, obj: ObjectRef, s: Seq<char>) -> bool {
    exists|fv: FieldId, fc: FieldId, va: ArrayRef| #[trigger] creates_string(
        heap,
        ma,
        obj,
        fv,
        fc,
        va,
        s,
    )
}

/// The object is a built string for the text whose UTF-8 encoding is
/// `bytes`.
pub open spec fn built_string_of_utf8(
    heap: Heap,
    ma: MethodArea,
    obj: ObjectRef,
    bytes: Seq<u8>,
) -> bool {
    exists|tm: Seq<char>|
        #[trigger] vstd::utf8::encode_utf8(tm) == bytes && built_string(heap, ma, obj, tm)
}

/// A string object decodes to `s`: some resolvable `value`/`coder` field
/// pair and byte array witness it.
pub open spec fn string_decodes(heap: Heap, ma: MethodArea, str_obj: ObjectRef, s: Seq<char>) -> bool {
    exists|fv: FieldId, fc: FieldId, va: ArrayRef, coder: i8|
        #[trigger] decodes_string(heap, ma, str_obj, fv, fc, va, coder, s)
}

impl Heap {
    /// Decode a runtime string object: its `value` byte array, interpreted
    /// per its `coder` byte (0 for UTF-8-compatible bytes, anything else
    /// for UTF-16 units in little-endian byte pairs).
    #[verifier::rlimit(100)]
    pub fn read_string(&self, ma: &MethodArea, str_obj: ObjectRef) -> (r: Result<String, VmError>)
        requires
            ma.wf(),
            self.wf(*ma),
        ensures
            match r {
                Ok(s) => string_decodes(*self, *ma, str_obj, s@),
                Err(_) => !(exists|s2: Seq<char>| string_decodes(*self, *ma, str_obj, s2)),
            },
    {
        proof {
            lemma_wf_implies_len_wf(*self, *ma);
        }
        let str_class = match self.get_obj_class(str_obj) {
            Ok(c) => c,
            Err(e) => {
                proof {
                    assert forall|s2: Seq<char>| !string_decodes(*self, *ma, str_obj, s2) by {
                        assert forall|fv: FieldId, fc: FieldId, va: ArrayRef, c: i8| !decodes_string(
                            *self,
                            *ma,
                            str_obj,
                            fv,
                            fc,
                            va,
                            c,
                            s2,
                        ) by {
                            if decodes_string(*self, *ma, str_obj, fv, fc, va, c, s2) {
                                assert(false);
                            }
                        }
                    }
                }
                return Err(e);
            },
        };
        proof {
            assert(alloc_wf(self.allocs@[str_obj.0 as int], *ma));
        }
        let value_field = match ma.resolve_field(str_class, "value") {
            Ok(f) => f,
            Err(e) => {
                proof {
                    assert forall|s2: Seq<char>| !string_decodes(*self, *ma, str_obj, s2) by {
                        assert forall|fv: FieldId, fc: FieldId, va: ArrayRef, c: i8| !decodes_string(
                            *self,
                            *ma,
                            str_obj,
                            fv,
                            fc,
                            va,
                            c,
                            s2,
                        ) by {
                            if decodes_string(*self, *ma, str_obj, fv, fc, va, c, s2) {
                                assert(false);
                            }
                        }
                    }
                }
                return Err(e);
            },
        };
        let coder_field = match ma.resolve_field(str_class, "coder") {
            Ok(f) => f,
            Err(e) => {
                proof {
                    assert forall|s2: Seq<char>| !string_decodes(*self, *ma, str_obj, s2) by {
                        assert forall|fv: FieldId, fc: FieldId, va: ArrayRef, c: i8| !decodes_string(
                            *self,
                            *ma,
                            str_obj,
                            fv,
                            fc,
                            va,
                            c,
                            s2,
                        ) by {
                            if decodes_string(*self, *ma, str_obj, fv, fc, va, c, s2) {
                                assert(false);
                            }
                        }
                    }
                }
                return Err(e);
            },
        };
        let value_arr = match self.load_field(ma, str_obj, value_field) {
            Ok(Value::Array(Some(arr))) => arr,
            loaded => {
                proof {
                    assert forall|s2: Seq<char>| !string_decodes(*self, *ma, str_obj, s2) by {
                        assert forall|fv: FieldId, fc: FieldId, va: ArrayRef, c: i8| !decodes_string(
                            *self,
                            *ma,
                            str_obj,
                            fv,
                            fc,
                            va,
                            c,
                            s2,
                        ) by {
                            if decodes_string(*self, *ma, str_obj, fv, fc, va, c, s2) {
                                assert(fv == value_field);
                                assert(false);
                            }
                        }
                    }
                }
                let _ = loaded;
                return Err(VmError::InvalidType);
            },
        };
        let coder = match self.load_field(ma, str_obj, coder_field) {
            Ok(Value::Byte(v)) => v,
            loaded => {
                proof {
                    assert forall|s2: Seq<char>| !string_decodes(*self, *ma, str_obj, s2) by {
                        assert forall|fv: FieldId, fc: FieldId, va: ArrayRef, c: i8| !decodes_string(
                            *self,
                            *ma,
                            str_obj,
                            fv,
                            fc,
                            va,
                            c,
                            s2,
                        ) by {
                            if decodes_string(*self, *ma, str_obj, fv, fc, va, c, s2) {
                                assert(fc == coder_field);
                                assert(false);
                            }
                        }
                    }
                }
                let _ = loaded;
                return Err(VmError::InvalidType);
            },
        };
        let ghost cls = crate::heap::alloc_class(self.allocs@[str_obj.0 as int]).0 as int;
        let elems = match self.array_contents(value_arr) {
            Ok(es) => es,
            Err(e) => {
                proof {
                    assert forall|s2: Seq<char>| !string_decodes(*self, *ma, str_obj, s2) by {
                        assert forall|fv: FieldId, fc: FieldId, va: ArrayRef, c: i8| !decodes_string(
                            *self,
                            *ma,
                            str_obj,
                            fv,
                            fc,
                            va,
                            c,
                            s2,
                        ) by {
                            if decodes_string(*self, *ma, str_obj, fv, fc, va, c, s2) {
                                assert(fv == value_field);
                                assert(va == value_arr);
                                assert(false);
                            }
                        }
                    }
                }
                return Err(e);
            },
        };
        let ghost va_alloc = self.allocs@[value_arr.0 as int];
        let mut bytes: Vec<u8> = Vec::new();
        let mut k: usize = 0;
        let n = elems.len();
        while k < n
            invariant
                k <= n,
                n == elems@.len(),
                ma.wf(),
                str_obj.0 < self.allocs@.len(),
                crate::method_area::field_search(*ma, cls, "value"@) == Some(value_field),
                crate::method_area::field_search(*ma, cls, "coder"@) == Some(coder_field),
                cls == crate::heap::alloc_class(self.allocs@[str_obj.0 as int]).0 as int,
                value_field.0 < ma.fields@.len(),
                coder_field.0 < ma.fields@.len(),
                ma.fields@[value_field.0 as int].backing matches FieldBacking::Instance(offv)
                    && offv + field_size(ma.fields@[value_field.0 as int].descriptor.0)
                    <= alloc_data(self.allocs@[str_obj.0 as int]).len() && value_at(
                    alloc_data(self.allocs@[str_obj.0 as int]),
                    offv as int,
                    ma.fields@[value_field.0 as int].descriptor.0,
                ) == Value::Array(Some(value_arr)),
                ma.fields@[coder_field.0 as int].backing matches FieldBacking::Instance(offc)
                    && offc + field_size(ma.fields@[coder_field.0 as int].descriptor.0)
                    <= alloc_data(self.allocs@[str_obj.0 as int]).len() && value_at(
                    alloc_data(self.allocs@[str_obj.0 as int]),
                    offc as int,
                    ma.fields@[coder_field.0 as int].descriptor.0,
                ) == Value::Byte(coder),
                value_arr.0 < self.allocs@.len(),
                va_alloc == self.allocs@[value_arr.0 as int],
                va_alloc is Array,
                alloc_len_wf(va_alloc),
                n == alloc_arr_len(va_alloc),
                forall|i: int|
                    0 <= i < n ==> #[trigger] elems@[i] == value_at(
                        alloc_data(va_alloc),
                        ARRAY_HEADER_SIZE + i * field_size(alloc_elem_ty(va_alloc)),
                        alloc_elem_ty(va_alloc),
                    ),
                bytes@.len() == k,
                k > 0 ==> alloc_elem_ty(va_alloc) == FieldType::BaseType(
                    crate::descriptor::BaseType::B,
                ),
                forall|i: int|
                    0 <= i < k ==> #[trigger] bytes@[i] == alloc_data(va_alloc)[ARRAY_HEADER_SIZE
                        + i],
            decreases n - k,
        {
            match elems[k] {
                Value::Byte(b) => {
                    proof {
                        // Only a byte-typed element decodes to `Byte`, so
                        // the element type is `B` and the stride is one.
                        assert(alloc_elem_ty(va_alloc) == FieldType::BaseType(
                            crate::descriptor::BaseType::B,
                        ));
                        lemma_u8_signed_roundtrip(
                            alloc_data(va_alloc)[ARRAY_HEADER_SIZE + k],
                        );
                    }
                    bytes.push(#[verifier::truncate] (b as u8));
                },
                _ => {
                    proof {
                        assert forall|s2: Seq<char>| !string_decodes(*self, *ma, str_obj, s2) by {
                            assert forall|fv: FieldId, fc: FieldId, va: ArrayRef, c: i8| !decodes_string(
                                *self,
                                *ma,
                                str_obj,
                                fv,
                                fc,
                                va,
                                c,
                                s2,
                            ) by {
                                if decodes_string(*self, *ma, str_obj, fv, fc, va, c, s2) {
                                    assert(fv == value_field);
                                    assert(va == value_arr);
                                    assert(alloc_elem_ty(va_alloc) == FieldType::BaseType(
                                        crate::descriptor::BaseType::B,
                                    ));
                                    assert(elems@[k as int] == value_at(
                                        alloc_data(va_alloc),
                                        ARRAY_HEADER_SIZE + k * 1,
                                        alloc_elem_ty(va_alloc),
                                    ));
                                    assert(false);
                                }
                            }
                        }
                    }
                    return Err(VmError::InvalidType);
                },
            }
            k = k + 1;
        }
        proof {
            let fs = field_size(alloc_elem_ty(va_alloc)) as int;
            assert(alloc_data(va_alloc).len() == ARRAY_HEADER_SIZE + n * fs);
            if n > 0 {
                assert(fs == 1);
                assert(n * fs == n) by (nonlinear_arith)
                    requires
                        fs == 1,
                ;
            } else {
                assert(n * fs == 0) by (nonlinear_arith)
                    requires
                        n == 0,
                ;
            }
            assert(ARRAY_HEADER_SIZE + n <= alloc_data(va_alloc).len());
            assert(bytes@.len() == arr_bytes(va_alloc).len());
            assert forall|i: int| 0 <= i < n implies bytes@[i] == arr_bytes(va_alloc)[i] by {
                assert(bytes@[i] == alloc_data(va_alloc)[ARRAY_HEADER_SIZE + i]);
            }
            assert(bytes@ =~= arr_bytes(va_alloc));
        }
        if coder == 0 {
            match crate::text::utf8_to_string(&bytes) {
                Some(s) => {
                    proof {
                        assert(decodes_string(
                            *self,
                            *ma,
                            str_obj,
                            value_field,
                            coder_field,
                            value_arr,
                            coder,
                            s@,
                        ));
                        assert(string_decodes(*self, *ma, str_obj, s@));
                    }
                    Ok(s)
                },
                None => {
                    proof {
                        assert forall|s2: Seq<char>| !string_decodes(*self, *ma, str_obj, s2) by {
                            assert forall|fv: FieldId, fc: FieldId, va: ArrayRef, c: i8| !decodes_string(
                                *self,
                                *ma,
                                str_obj,
                                fv,
                                fc,
                                va,
                                c,
                                s2,
                            ) by {
                                if decodes_string(*self, *ma, str_obj, fv, fc, va, c, s2) {
                                    assert(fc == coder_field);
                                    assert(c == coder);
                                    assert(fv == value_field);
                                    assert(va == value_arr);
                                    assert(false);
                                }
                            }
                        }
                    }
                    Err(VmError::ClassFormatError)
                },
            }
        } else {
            let mut units: Vec<u16> = Vec::new();
            let mut m: usize = 0;
            while m < bytes.len() && bytes.len() - m >= 2
                invariant
                    m <= bytes@.len(),
                    m == 2 * units@.len(),
                    forall|i: int|
                        0 <= i < units@.len() ==> #[trigger] units@[i] == (bytes@[2 * i] as u16
                            + bytes@[2 * i + 1] as u16 * 0x100) as u16,
                decreases bytes@.len() - m,
            {
                let lo = bytes[m] as u16;
                let hi = bytes[m + 1] as u16;
                units.push(lo + hi * 0x100);
                m = m + 2;
            }
            proof {
                assert(units@ =~= le_units(bytes@));
            }
            match crate::text::utf16_to_string(&units) {
                Some(s) => {
                    proof {
                        assert(decodes_string(
                            *self,
                            *ma,
                            str_obj,
                            value_field,
                            coder_field,
                            value_arr,
                            coder,
                            s@,
                        ));
                        assert(string_decodes(*self, *ma, str_obj, s@));
                    }
                    Ok(s)
                },
                None => {
                    proof {
                        assert forall|s2: Seq<char>| !string_decodes(*self, *ma, str_obj, s2) by {
                            assert forall|fv: FieldId, fc: FieldId, va: ArrayRef, c: i8| !decodes_string(
                                *self,
                                *ma,
                                str_obj,
                                fv,
                                fc,
                                va,
                                c,
                                s2,
                            ) by {
                                if decodes_string(*self, *ma, str_obj, fv, fc, va, c, s2) {
                                    assert(fc == coder_field);
                                    assert(c == coder);
                                    assert(fv == value_field);
                                    assert(va == value_arr);
                                    assert(false);
                                }
                            }
                        }
                    }
                    Err(VmError::ClassFormatError)
                },
            }
        }
    }

    /// Encode a host string as a runtime string object: a fresh instance of
    /// `java/lang/String` whose `value` field holds the UTF-16 code units
    /// as little-endian byte pairs and whose `coder` is 1.
    pub fn create_string(&mut self, ma: &mut MethodArea, s: &str) -> (r: Result<
        ObjectRef,
        VmError,
    >)
        requires
            old(ma).wf(),
            old(self).wf(*old(ma)),
        ensures
            final(ma).wf(),
            final(self).wf(*final(ma)),
            final(ma).methods@ == old(ma).methods@,
            final(ma).fields@ == old(ma).fields@,
            old(ma).classes@.len() <= final(ma).classes@.len(),
            forall|i: int|
                0 <= i < old(ma).classes@.len() ==> final(ma).classes@[i] == old(ma).classes@[i],
            old(self).allocs@.len() <= final(self).allocs@.len(),
            forall|i: int|
                0 <= i < old(self).allocs@.len() ==> final(self).allocs@[i] == old(
                    self,
                ).allocs@[i],
            match r {
                Ok(obj) => {
                    &&& old(self).allocs@.len() <= obj.0 < final(self).allocs@.len()
                    &&& built_string(*final(self), *final(ma), obj, s@)
                },
                Err(_) => true,
            },
    {
        let string_class = match ma.resolve_class("java/lang/String") {
            Ok(c) => c,
            Err(e) => {
                proof {
                    lemma_heap_wf_grow(*self, *old(ma), *ma);
                }
                return Err(e);
            },
        };
        proof {
            lemma_heap_wf_grow(*self, *old(ma), *ma);
        }
        let units = crate::text::string_to_utf16(s);
        let mut bytes: Vec<u8> = Vec::new();
        let mut k: usize = 0;
        let n_units = units.len();
        if n_units > usize::MAX / 2 {
            return Err(VmError::OutOfMemory);
        }
        while k < n_units
            invariant
                k <= n_units,
                n_units == units@.len(),
                n_units <= usize::MAX / 2,
                bytes@.len() == 2 * k,
                forall|j: int|
                    0 <= j < 2 * k ==> #[trigger] bytes@[j] == (if j % 2 == 0 {
                        (units@[j / 2] % 0x100) as u8
                    } else {
                        (units@[j / 2] / 0x100) as u8
                    }),
            decreases n_units - k,
        {
            let u = units[k];
            bytes.push((u % 0x100) as u8);
            bytes.push((u / 0x100) as u8);
            k = k + 1;
        }
        proof {
            assert(bytes@ =~= le_pair_bytes(units@));
        }
        let arr = self.new_array(
            ma,
            FieldType::BaseType(crate::descriptor::BaseType::B),
            bytes.len(),
        )?;
        // The method area is settled from here on; resolve the two string
        // fields against its final state.
        let value_field = match ma.resolve_field(string_class, "value") {
            Ok(f) => f,
            Err(e) => {
                return Err(e);
            },
        };
        let coder_field = match ma.resolve_field(string_class, "coder") {
            Ok(f) => f,
            Err(e) => {
                return Err(e);
            },
        };
        let obj = self.new_object(ma, string_class);
        let ghost ma_fixed = *ma;
        let ghost b_elem = FieldType::BaseType(crate::descriptor::BaseType::B);
        let mut m: usize = 0;
        proof {
            lemma_wf_implies_len_wf(*self, *ma);
        }
        while m < bytes.len()
            invariant
                *ma == ma_fixed,
                ma_fixed.wf(),
                ma_fixed.methods@ == old(ma).methods@,
                ma_fixed.fields@ == old(ma).fields@,
                old(ma).classes@.len() <= ma_fixed.classes@.len(),
                forall|i: int|
                    0 <= i < old(ma).classes@.len() ==> ma_fixed.classes@[i] == old(
                        ma,
                    ).classes@[i],
                string_class.0 < ma_fixed.classes@.len(),
                crate::method_area::field_search(ma_fixed, string_class.0 as int, "value"@)
                    == Some(value_field),
                crate::method_area::field_search(ma_fixed, string_class.0 as int, "coder"@)
                    == Some(coder_field),
                value_field.0 < ma_fixed.fields@.len(),
                coder_field.0 < ma_fixed.fields@.len(),
                ma.wf(),
                self.wf(*ma),
                self.len_wf(),
                m <= bytes@.len(),
                old(self).allocs@.len() <= self.allocs@.len(),
                obj.0 >= old(self).allocs@.len(),
                arr.0 >= old(self).allocs@.len(),
                forall|i: int|
                    0 <= i < old(self).allocs@.len() ==> self.allocs@[i] == old(self).allocs@[i],
                arr.0 < self.allocs@.len(),
                obj.0 < self.allocs@.len(),
                arr.0 != obj.0,
                self.allocs@[obj.0 as int] is Object,
                alloc_class(self.allocs@[obj.0 as int]) == string_class,
                self.allocs@[arr.0 as int] is Array,
                alloc_elem_ty(self.allocs@[arr.0 as int]) == b_elem,
                alloc_arr_len(self.allocs@[arr.0 as int]) == bytes@.len(),
                forall|i: int|
                    0 <= i < m ==> #[trigger] value_at(
                        alloc_data(self.allocs@[arr.0 as int]),
                        ARRAY_HEADER_SIZE + i,
                        b_elem,
                    ) == Value::Byte(bytes@[i] as i8),
            decreases bytes@.len() - m,
        {
            let ghost h_pre = *self;
            match self.store_arr_elem(arr, m, Value::Byte(#[verifier::truncate] (bytes[m] as i8))) {
                Ok(_) => {
                    proof {
                        lemma_wf_after_update(h_pre, *self, *ma, arr.0 as int);
                        assert(field_size(b_elem) == 1);
                        assert forall|i: int|
                            0 <= i < m + 1 implies #[trigger] value_at(
                            alloc_data(self.allocs@[arr.0 as int]),
                            ARRAY_HEADER_SIZE + i,
                            b_elem,
                        ) == Value::Byte(bytes@[i] as i8) by {
                            if i < m {
                                assert(value_at(
                                    alloc_data(h_pre.allocs@[arr.0 as int]),
                                    ARRAY_HEADER_SIZE + i * 1,
                                    b_elem,
                                ) == Value::Byte(bytes@[i] as i8));
                            } else {
                                assert(value_at(
                                    alloc_data(self.allocs@[arr.0 as int]),
                                    ARRAY_HEADER_SIZE + m * 1,
                                    b_elem,
                                ) == store_ty_spec(
                                    Value::Byte(#[verifier::truncate] (bytes@[m as int] as i8)),
                                    b_elem,
                                ));
                            }
                        }
                    }
                },
                Err(e) => {
                    return Err(e);
                },
            }
            m = m + 1;
        }
        // The coder byte first, the value reference second, so the value
        // slot is exact in the final state.
        let ghost h_pre2 = *self;
        match self.store_field(ma, obj, coder_field, Value::Int(1)) {
            Ok(_) => {
                proof {
                    lemma_wf_after_update(h_pre2, *self, *ma, obj.0 as int);
                }
            },
            Err(e) => {
                return Err(e);
            },
        }
        let ghost h_pre3 = *self;
        match self.store_field(ma, obj, value_field, Value::Array(Some(arr))) {
            Ok(_) => {
                proof {
                    lemma_wf_after_update(h_pre3, *self, *ma, obj.0 as int);
                }
            },
            Err(e) => {
                return Err(e);
            },
        }
        proof {
            let hf = *self;
            let d_obj = alloc_data(hf.allocs@[obj.0 as int]);
            let fvr = ma_fixed.fields@[value_field.0 as int];
            let fcr = ma_fixed.fields@[coder_field.0 as int];
            match (fvr.backing, fcr.backing) {
                (FieldBacking::Instance(offv), FieldBacking::Instance(offc)) => {
                    // The value store framed everything outside its slot; if
                    // the coder slot is disjoint, its bytes are untouched.
                    if offv + field_size(fvr.descriptor.0) <= offc as int || offc + field_size(
                        fcr.descriptor.0,
                    ) <= offv as int {
                        let d_mid = alloc_data(h_pre3.allocs@[obj.0 as int]);
                        assert forall|j: int|
                            offc <= j < offc + field_size(fcr.descriptor.0) implies (
                        #[trigger] d_obj[j]) == d_mid[j] by {}
                        assert(word_at(d_obj, offc as int, field_size(fcr.descriptor.0))
                            == word_at(d_mid, offc as int, field_size(fcr.descriptor.0)));
                    }
                },
                _ => {},
            }
            assert forall|i: int|
                0 <= i < bytes@.len() implies #[trigger] arr_bytes(hf.allocs@[arr.0 as int])[i]
                == bytes@[i] by {
                assert(value_at(
                    alloc_data(hf.allocs@[arr.0 as int]),
                    ARRAY_HEADER_SIZE + i,
                    b_elem,
                ) == Value::Byte(bytes@[i] as i8));
                lemma_u8_signed_roundtrip(bytes@[i]);
                lemma_u8_signed_roundtrip(alloc_data(hf.allocs@[arr.0 as int])[ARRAY_HEADER_SIZE
                    + i]);
            }
            assert(arr_bytes(hf.allocs@[arr.0 as int]) =~= bytes@);
            assert(creates_string(*self, *ma, obj, value_field, coder_field, arr, s@));
            assert(built_string(*self, *ma, obj, s@));
        }
        Ok(obj)
    }
}

} // verus!

verus! {

impl Class {
    /// The heap object reifying class `id`, created on first use: an
    /// instance of `java/lang/Class`, linked to the class record and entered
    /// in the class-object table.
    pub fn obj(ma: &mut MethodArea, heap: &mut Heap, id: ClassId) -> (r: Result<
        ObjectRef,
        VmError,
    >)
        requires
            old(ma).wf(),
            old(heap).wf(*old(ma)),
            id.0 < old(ma).classes@.len(),
        ensures
            final(ma).wf(),
            final(heap).wf(*final(ma)),
            final(ma).methods@ == old(ma).methods@,
            final(ma).fields@ == old(ma).fields@,
            old(ma).classes@.len() <= final(ma).classes@.len(),
            forall|i: int|
                0 <= i < old(ma).classes@.len() && i != id.0 ==> final(ma).classes@[i] == old(
                    ma,
                ).classes@[i],
            final(ma).classes@[id.0 as int].initialized == old(ma).classes@[id.0 as int].initialized,
            final(ma).classes@[id.0 as int].size == old(ma).classes@[id.0 as int].size,
            final(ma).classes@[id.0 as int].references@ == old(
                ma,
            ).classes@[id.0 as int].references@,
            old(heap).allocs@.len() <= final(heap).allocs@.len(),
            forall|i: int|
                0 <= i < old(heap).allocs@.len() ==> final(heap).allocs@[i] == old(
                    heap,
                ).allocs@[i],
            // An unlinked mirror is created whenever the mirror class
            // itself is interned.
            (old(ma).classes@[id.0 as int].class_obj is None && (exists|i: int|
                0 <= i < old(ma).classes@.len() && (#[trigger] old(ma).classes@[i]).name@
                    == "java/lang/Class"@)) ==> r is Ok,
            // The mirror is unique: once linked, the same reference comes
            // back and nothing moves.
            old(ma).classes@[id.0 as int].class_obj matches Some(x) ==> *final(ma) == *old(ma)
                && *final(heap) == *old(heap) && (x.0 < old(heap).allocs@.len() ==> r == Ok::<
            ObjectRef,
            VmError,
            >(x)),
            match r {
                Ok(o) => o.0 < final(heap).allocs@.len()
                    && final(ma).classes@[id.0 as int].class_obj == Some(o),
                Err(_) => true,
            },
    {
        let cached = ma.classes[id.0].class_obj;
        if let Some(o) = cached {
            if o.0 < heap.allocs.len() {
                return Ok(o);
            } else {
                return Err(VmError::InvalidType);
            }
        }
        let class_class = match ma.resolve_class("java/lang/Class") {
            Ok(c) => c,
            Err(e) => {
                proof {
                    lemma_heap_wf_grow(*heap, *old(ma), *ma);
                    reveal_strlit("java/lang/Class");
                    assert("java/lang/Class"@.len() == 15);
                    assert("java/lang/Class"@[0] != '[');
                }
                return Err(e);
            },
        };
        proof {
            lemma_heap_wf_grow(*heap, *old(ma), *ma);
        }
        let obj = heap.new_object(ma, class_class);
        let ghost pre = *ma;
        ma.classes[id.0].class_obj = Some(obj);
        ma.class_objs.push((obj, id));
        proof {
            let cur = *ma;
            assert forall|i: int| 0 <= i < cur.classes@.len() implies crate::method_area::wf_class_at(
                cur,
                i,
            ) by {
                assert(crate::method_area::wf_class_at(pre, i));
                if i != id.0 {
                    assert(cur.classes@[i] == pre.classes@[i]);
                }
            }
            assert forall|i: int, j: int|
                0 <= i < j < cur.classes@.len() implies cur.classes@[i].name@
                != cur.classes@[j].name@ by {
                assert(cur.classes@[i].name@ == pre.classes@[i].name@);
                assert(cur.classes@[j].name@ == pre.classes@[j].name@);
            }
            assert forall|i: int, j: int|
                #![trigger cur.classes@[i].elem_ty, cur.classes@[j].elem_ty]
                0 <= i < cur.classes@.len() && 0 <= j < cur.classes@.len() && i != j implies match (
                cur.classes@[i].elem_ty,
                cur.classes@[j].elem_ty,
            ) {
                (Some(ti), Some(tj)) => crate::descriptor::ft_chars(ti)
                    != crate::descriptor::ft_chars(tj),
                _ => true,
            } by {
                assert(cur.classes@[i].elem_ty == pre.classes@[i].elem_ty);
                assert(cur.classes@[j].elem_ty == pre.classes@[j].elem_ty);
            }
            assert forall|i: int| 0 <= i < heap.allocs@.len() implies alloc_wf(
                #[trigger] heap.allocs@[i],
                *ma,
            ) by {
                assert(alloc_wf(heap.allocs@[i], pre));
            }
        }
        Ok(obj)
    }
}

} // verus!

verus! {

impl Heap {
    /// Read a value of type `ty` at a raw byte offset of an allocation, as
    /// the field-offset intrinsics do.
    pub fn load_raw(&self, obj: ObjectRef, off: usize, ty: &FieldType) -> (r: Result<
        Value,
        VmError,
    >) {
        if obj.0 >= self.allocs.len() {
            return Err(VmError::InvalidType);
        }
        let (sz, _a) = crate::method_area::layout_for_field(ty);
        let data = match &self.allocs[obj.0] {
            Alloc::Object { data, .. } => data,
            Alloc::Array { data, .. } => data,
        };
        if off > data.len() || sz > data.len() - off {
            return Err(VmError::ArrayIndexOutOfBounds);
        }
        Ok(load_value(data, off, ty))
    }

    /// Write a value of type `ty` at a raw byte offset of an allocation.
    pub fn store_raw(&mut self, obj: ObjectRef, off: usize, val: &Value, ty: &FieldType) -> (r:
        Result<(), VmError>)
        ensures
            final(self).allocs@.len() == old(self).allocs@.len(),
            forall|gma: MethodArea| old(self).wf(gma) ==> final(self).wf(gma),
            old(self).len_wf() ==> final(self).len_wf(),
    {
        if obj.0 >= self.allocs.len() {
            return Err(VmError::InvalidType);
        }
        let (sz, _a) = crate::method_area::layout_for_field(ty);
        let stored = match &mut self.allocs[obj.0] {
            Alloc::Object { data, .. } => {
                if off > data.len() || sz > data.len() - off {
                    Err(VmError::ArrayIndexOutOfBounds)
                } else {
                    store_value(data, off, val, ty)
                }
            },
            Alloc::Array { data, .. } => {
                if off > data.len() || sz > data.len() - off {
                    Err(VmError::ArrayIndexOutOfBounds)
                } else {
                    store_value(data, off, val, ty)
                }
            },
        };
        proof {
            if old(self).len_wf() {
                assert forall|i: int|
                    0 <= i < self.allocs@.len() implies alloc_len_wf(
                    #[trigger] self.allocs@[i],
                ) by {
                    assert(alloc_len_wf(old(self).allocs@[i]));
                }
            }
            assert forall|gma: MethodArea| old(self).wf(gma) implies self.wf(gma) by {
                assert forall|i: int|
                    0 <= i < self.allocs@.len() implies alloc_wf(
                    #[trigger] self.allocs@[i],
                    gma,
                ) by {
                    assert(alloc_wf(old(self).allocs@[i], gma));
                }
            }
        }
        stored
    }
}

} // verus!

verus! {

/// The heap only reads class sizes out of the method area; any change that
/// keeps every existing class's size keeps the heap well formed.
pub proof fn lemma_heap_wf_classes_compatible(h: Heap, ma1: MethodArea, ma2: MethodArea)
    requires
        h.wf(ma1),
        ma1.classes@.len() <= ma2.classes@.len(),
        forall|i: int|
            0 <= i < ma1.classes@.len() ==> (#[trigger] ma2.classes@[i]).size
                == ma1.classes@[i].size,
    ensures
        h.wf(ma2),
{
    assert forall|i: int| 0 <= i < h.allocs@.len() implies alloc_wf(#[trigger] h.allocs@[i], ma2) by {
        assert(alloc_wf(h.allocs@[i], ma1));
    }
}

} // verus!
