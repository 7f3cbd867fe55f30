//! The binary class-file model and its big-endian decoder.
//!
//! The decoder turns a byte image into a constant pool and member tables; it
//! does no semantic linking.  Multi-byte fields are big-endian.  The constant
//! pool is 1-based, and an 8-byte constant (`Long`, `Double`) reserves the
//! slot after its own, which is parked as `Unusable`.

use crate::error::VmError;
use vstd::prelude::*;

verus! {

// Access-flag bits shared by classes, fields and methods.
pub const ACC_PUBLIC: u16 = 0x0001;

pub const ACC_PRIVATE: u16 = 0x0002;

pub const ACC_PROTECTED: u16 = 0x0004;

pub const ACC_STATIC: u16 = 0x0008;

pub const ACC_FINAL: u16 = 0x0010;

pub const ACC_SUPER: u16 = 0x0020;

pub const ACC_NATIVE: u16 = 0x0100;

pub const ACC_INTERFACE: u16 = 0x0200;

pub const ACC_ABSTRACT: u16 = 0x0400;

/// One constant-pool entry.  `Float` and `Double` literals are held as their
/// IEEE 754 bit patterns.
#[derive(Debug, PartialEq, Eq, Clone)]
pub enum CPInfo {
    Utf8 { length: u16, bytes: Vec<u8> },
    Integer { val: i32 },
    Float { bits: u32 },
    Long { val: i64 },
    Double { bits: u64 },
    Class { name_index: u16 },
    Str { string_index: u16 },
    Fieldref { class_index: u16, name_and_type_index: u16 },
    Methodref { class_index: u16, name_and_type_index: u16 },
    InterfaceMethodref { class_index: u16, name_and_type_index: u16 },
    NameAndType { name_index: u16, descriptor_index: u16 },
    MethodHandle { reference_kind: u8, reference_index: u16 },
    MethodType { descriptor_index: u16 },
    Dynamic { bootstrap_method_attr_index: u16, name_and_type_index: u16 },
    InvokeDynamic { bootstrap_method_attr_index: u16, name_and_type_index: u16 },
    Module { name_index: u16 },
    Package { name_index: u16 },
    /// The reserved slot following a `Long` or `Double` entry.
    Unusable,
}

/// The constant pool: `count` as read from the file, and the table of
/// `count - 1` entries, indexed from 1.
#[derive(Debug, PartialEq, Eq, Clone)]
pub struct ConstantPool {
    pub count: u16,
    pub table: Vec<CPInfo>,
}

#[derive(Debug, PartialEq, Eq, Clone)]
pub struct AttributeInfo {
    pub attribute_name_index: u16,
    pub attribute_length: u32,
    pub info: Vec<u8>,
}

#[derive(Debug, PartialEq, Eq, Clone)]
pub struct ExceptionTableEntry {
    pub start_pc: u16,
    pub end_pc: u16,
    pub handler_pc: u16,
    pub catch_type: u16,
}

#[derive(Debug, PartialEq, Eq, Clone)]
pub struct CodeAttribute {
    pub max_stack: u16,
    pub max_locals: u16,
    pub code: Vec<u8>,
    pub exception_table: Vec<ExceptionTableEntry>,
    pub attributes: Vec<AttributeInfo>,
}

#[derive(Debug, PartialEq, Eq, Clone)]
pub struct FieldInfo {
    pub access_flags: u16,
    pub name_index: u16,
    pub descriptor_index: u16,
    pub attributes: Vec<AttributeInfo>,
}

#[derive(Debug, PartialEq, Eq, Clone)]
pub struct MethodInfo {
    pub access_flags: u16,
    pub name_index: u16,
    pub descriptor_index: u16,
    pub attributes: Vec<AttributeInfo>,
}

/// A decoded class file: the structure as laid out on disk, before any
/// linking.
#[derive(Debug, PartialEq, Eq, Clone)]
pub struct ClassFile {
    pub magic: u32,
    pub minor_version: u16,
    pub major_version: u16,
    pub constant_pool: ConstantPool,
    pub access_flags: u16,
    pub this_class: u16,
    pub super_class: u16,
    pub interfaces: Vec<u16>,
    pub fields: Vec<FieldInfo>,
    pub methods: Vec<MethodInfo>,
    pub attributes: Vec<AttributeInfo>,
}

/// The big-endian value of two bytes.
pub open spec fn be16(hi: u8, lo: u8) -> u16 {
    (hi as int * 0x100 + lo as int) as u16
}

/// The big-endian value of four bytes.
pub open spec fn be32(b0: u8, b1: u8, b2: u8, b3: u8) -> u32 {
    (b0 as int * 0x100_0000 + b1 as int * 0x1_0000 + b2 as int * 0x100 + b3 as int) as u32
}

/// The UTF-8 bytes of the class name a `Class` entry at 1-based index `idx`
/// refers to, when the pool has that shape.
pub open spec fn cp_class_name_bytes(cp: ConstantPool, idx: int) -> Option<Seq<u8>> {
    if 1 <= idx <= cp.table@.len() {
        match cp.table@[idx - 1] {
            CPInfo::Class { name_index } => if 1 <= name_index <= cp.table@.len() {
                match cp.table@[name_index - 1] {
                    CPInfo::Utf8 { bytes, .. } => Some(bytes@),
                    _ => None,
                }
            } else {
                None
            },
            _ => None,
        }
    } else {
        None
    }
}

fn read_u8(data: &Vec<u8>, pos: usize) -> (r: Result<(u8, usize), VmError>)
    ensures
        match r {
            Ok((v, p)) => pos < data@.len() && v == data@[pos as int] && p == pos + 1,
            Err(e) => pos >= data@.len() && e == VmError::ClassFormatError,
        },
{
    if pos < data.len() {
        Ok((data[pos], pos + 1))
    } else {
        Err(VmError::ClassFormatError)
    }
}

fn read_u16(data: &Vec<u8>, pos: usize) -> (r: Result<(u16, usize), VmError>)
    ensures
        match r {
            Ok((v, p)) => {
                &&& pos + 2 <= data@.len()
                &&& v == be16(data@[pos as int], data@[pos + 1])
                &&& p == pos + 2
            },
            Err(e) => pos + 2 > data@.len() && e == VmError::ClassFormatError,
        },
{
    if pos <= data.len() && data.len() - pos >= 2 {
        let hi = data[pos];
        let lo = data[pos + 1];
        Ok(((hi as u16) * 0x100 + (lo as u16), pos + 2))
    } else {
        Err(VmError::ClassFormatError)
    }
}

fn read_u32(data: &Vec<u8>, pos: usize) -> (r: Result<(u32, usize), VmError>)
    ensures
        match r {
            Ok((v, p)) => {
                &&& pos + 4 <= data@.len()
                &&& v == be32(data@[pos as int], data@[pos + 1], data@[pos + 2], data@[pos + 3])
                &&& p == pos + 4
            },
            Err(e) => pos + 4 > data@.len() && e == VmError::ClassFormatError,
        },
{
    if pos <= data.len() && data.len() - pos >= 4 {
        let b0 = data[pos];
        let b1 = data[pos + 1];
        let b2 = data[pos + 2];
        let b3 = data[pos + 3];
        Ok(
            (
                (b0 as u32) * 0x100_0000 + (b1 as u32) * 0x1_0000 + (b2 as u32) * 0x100 + (
                b3 as u32),
                pos + 4,
            ),
        )
    } else {
        Err(VmError::ClassFormatError)
    }
}

/// Copy `n` bytes starting at `pos` out of the image.
fn read_bytes(data: &Vec<u8>, pos: usize, n: usize) -> (r: Result<(Vec<u8>, usize), VmError>)
    ensures
        match r {
            Ok((v, p)) => {
                &&& pos + n <= data@.len()
                &&& v@ == data@.subrange(pos as int, pos + n)
                &&& p == pos + n
            },
            Err(e) => pos + n > data@.len() && e == VmError::ClassFormatError,
        },
{
    if pos <= data.len() && n <= data.len() - pos {
        let len: usize = data.len();
        let mut out: Vec<u8> = Vec::new();
        let mut k: usize = 0;
        assert(out@ =~= data@.subrange(pos as int, pos as int));
        while k < n
            invariant
                k <= n,
                pos + n <= len,
                len == data@.len(),
                out@ == data@.subrange(pos as int, pos + k),
            decreases n - k,
        {
            out.push(data[pos + k]);
            k = k + 1;
            assert(out@ =~= data@.subrange(pos as int, pos + k));
        }
        Ok((out, pos + n))
    } else {
        Err(VmError::ClassFormatError)
    }
}

/// Decode one constant-pool entry at `pos`.  The boolean says whether the
/// entry is 8 bytes wide and so reserves the following index.
fn parse_cp_entry(data: &Vec<u8>, pos: usize) -> (r: Result<(CPInfo, usize, bool), VmError>)
    ensures
        match r {
            Ok((info, p, wide)) => {
                &&& pos < p <= data@.len()
                &&& (wide <==> (info is Long || info is Double))
                &&& !(info is Unusable)
            },
            Err(e) => e == VmError::ClassFormatError,
        },
        // A zero tag byte is never a valid entry.
        pos < data@.len() && data@[pos as int] == 0 ==> r is Err,
{
    let (tag, p) = read_u8(data, pos)?;
    match tag {
        1u8 => {
            let (length, p) = read_u16(data, p)?;
            let (bytes, p) = read_bytes(data, p, length as usize)?;
            Ok((CPInfo::Utf8 { length, bytes }, p, false))
        },
        3u8 => {
            let (v, p) = read_u32(data, p)?;
            Ok((CPInfo::Integer { val: v as i32 }, p, false))
        },
        4u8 => {
            let (v, p) = read_u32(data, p)?;
            Ok((CPInfo::Float { bits: v }, p, false))
        },
        5u8 => {
            let (hi, p) = read_u32(data, p)?;
            let (lo, p) = read_u32(data, p)?;
            let v = (hi as u64) * 0x1_0000_0000 + (lo as u64);
            Ok((CPInfo::Long { val: v as i64 }, p, true))
        },
        6u8 => {
            let (hi, p) = read_u32(data, p)?;
            let (lo, p) = read_u32(data, p)?;
            let v = (hi as u64) * 0x1_0000_0000 + (lo as u64);
            Ok((CPInfo::Double { bits: v }, p, true))
        },
        7u8 => {
            let (name_index, p) = read_u16(data, p)?;
            Ok((CPInfo::Class { name_index }, p, false))
        },
        8u8 => {
            let (string_index, p) = read_u16(data, p)?;
            Ok((CPInfo::Str { string_index }, p, false))
        },
        9u8 => {
            let (class_index, p) = read_u16(data, p)?;
            let (name_and_type_index, p) = read_u16(data, p)?;
            Ok((CPInfo::Fieldref { class_index, name_and_type_index }, p, false))
        },
        10u8 => {
            let (class_index, p) = read_u16(data, p)?;
            let (name_and_type_index, p) = read_u16(data, p)?;
            Ok((CPInfo::Methodref { class_index, name_and_type_index }, p, false))
        },
        11u8 => {
            let (class_index, p) = read_u16(data, p)?;
            let (name_and_type_index, p) = read_u16(data, p)?;
            Ok((CPInfo::InterfaceMethodref { class_index, name_and_type_index }, p, false))
        },
        12u8 => {
            let (name_index, p) = read_u16(data, p)?;
            let (descriptor_index, p) = read_u16(data, p)?;
            Ok((CPInfo::NameAndType { name_index, descriptor_index }, p, false))
        },
        15u8 => {
            let (reference_kind, p) = read_u8(data, p)?;
            let (reference_index, p) = read_u16(data, p)?;
            Ok((CPInfo::MethodHandle { reference_kind, reference_index }, p, false))
        },
        16u8 => {
            let (descriptor_index, p) = read_u16(data, p)?;
            Ok((CPInfo::MethodType { descriptor_index }, p, false))
        },
        17u8 => {
            let (bootstrap_method_attr_index, p) = read_u16(data, p)?;
            let (name_and_type_index, p) = read_u16(data, p)?;
            Ok((CPInfo::Dynamic { bootstrap_method_attr_index, name_and_type_index }, p, false))
        },
        18u8 => {
            let (bootstrap_method_attr_index, p) = read_u16(data, p)?;
            let (name_and_type_index, p) = read_u16(data, p)?;
            Ok(
                (CPInfo::InvokeDynamic { bootstrap_method_attr_index, name_and_type_index }, p, false),
            )
        },
        19u8 => {
            let (name_index, p) = read_u16(data, p)?;
            Ok((CPInfo::Module { name_index }, p, false))
        },
        20u8 => {
            let (name_index, p) = read_u16(data, p)?;
            Ok((CPInfo::Package { name_index }, p, false))
        },
        _ => Err(VmError::ClassFormatError),
    }
}

/// Decode the constant-pool table: `count - 1` slots, where an 8-byte entry
/// fills its own slot and parks `Unusable` in the next.
pub fn parse_cp_table(data: &Vec<u8>, pos: usize, count: u16) -> (r: Result<
    (Vec<CPInfo>, usize),
    VmError,
>)
    requires
        pos <= data@.len(),
    ensures
        match r {
            Ok((table, p)) => {
                &&& table@.len() + 1 == count
                &&& pos <= p <= data@.len()
                &&& forall|j: int|
                    0 <= j < table@.len() && ((#[trigger] table@[j]) is Long || table@[j]
                        is Double) ==> j + 1 < table@.len() && table@[j + 1] == CPInfo::Unusable
                &&& forall|j: int|
                    0 <= j < table@.len() && (#[trigger] table@[j]) is Unusable ==> j > 0 && (
                    table@[j - 1] is Long || table@[j - 1] is Double)
            },
            Err(e) => e == VmError::ClassFormatError,
        },
{
    if count == 0 {
        return Err(VmError::ClassFormatError);
    }
    let want: usize = (count - 1) as usize;
    let mut table: Vec<CPInfo> = Vec::new();
    let mut p: usize = pos;
    loop
        invariant
            table@.len() <= want,
            pos <= p <= data@.len(),
            forall|j: int|
                0 <= j < table@.len() && ((#[trigger] table@[j]) is Long || table@[j] is Double)
                    ==> j + 1 < table@.len() && table@[j + 1] == CPInfo::Unusable,
            forall|j: int|
                0 <= j < table@.len() && (#[trigger] table@[j]) is Unusable ==> j > 0 && (
                table@[j - 1] is Long || table@[j - 1] is Double),
        ensures
            table@.len() == want,
            pos <= p <= data@.len(),
            forall|j: int|
                0 <= j < table@.len() && ((#[trigger] table@[j]) is Long || table@[j] is Double)
                    ==> j + 1 < table@.len() && table@[j + 1] == CPInfo::Unusable,
            forall|j: int|
                0 <= j < table@.len() && (#[trigger] table@[j]) is Unusable ==> j > 0 && (
                table@[j - 1] is Long || table@[j - 1] is Double),
        decreases want - table@.len(),
    {
        if table.len() >= want {
            break;
        }
        let (info, p2, wide) = parse_cp_entry(data, p)?;
        p = p2;
        table.push(info);
        if wide {
            if table.len() >= want {
                // The reserved slot would fall outside the table.
                return Err(VmError::ClassFormatError);
            }
            table.push(CPInfo::Unusable);
        }
    }
    Ok((table, p))
}

fn parse_attribute(data: &Vec<u8>, pos: usize) -> (r: Result<(AttributeInfo, usize), VmError>)
    ensures
        match r {
            Ok((_, p)) => pos < p <= data@.len(),
            Err(e) => e == VmError::ClassFormatError,
        },
{
    let (attribute_name_index, p) = read_u16(data, pos)?;
    let (attribute_length, p) = read_u32(data, p)?;
    let (info, p) = read_bytes(data, p, attribute_length as usize)?;
    Ok((AttributeInfo { attribute_name_index, attribute_length, info }, p))
}

fn parse_attributes(data: &Vec<u8>, pos: usize) -> (r: Result<(Vec<AttributeInfo>, usize), VmError>)
    ensures
        match r {
            Ok((_, p)) => pos <= p <= data@.len(),
            Err(e) => e == VmError::ClassFormatError,
        },
{
    let (n, mut p) = read_u16(data, pos)?;
    let mut attrs: Vec<AttributeInfo> = Vec::new();
    let mut k: u16 = 0;
    while k < n
        invariant
            pos <= p <= data@.len(),
        decreases n - k,
    {
        let (a, p2) = parse_attribute(data, p)?;
        p = p2;
        attrs.push(a);
        k = k + 1;
    }
    Ok((attrs, p))
}

fn parse_member(data: &Vec<u8>, pos: usize) -> (r: Result<
    ((u16, u16, u16, Vec<AttributeInfo>), usize),
    VmError,
>)
    ensures
        match r {
            Ok((_, p)) => pos < p <= data@.len(),
            Err(e) => e == VmError::ClassFormatError,
        },
{
    let (access_flags, p) = read_u16(data, pos)?;
    let (name_index, p) = read_u16(data, p)?;
    let (descriptor_index, p) = read_u16(data, p)?;
    let (attributes, p) = parse_attributes(data, p)?;
    Ok(((access_flags, name_index, descriptor_index, attributes), p))
}

/// Decode a whole class-file image.  The result is the file's structure as
/// laid out on disk; magic and version checking is the linker's business.
pub fn parse_class_file(data: &Vec<u8>) -> (r: Result<ClassFile, VmError>)
    ensures
        match r {
            Ok(cf) => cf.constant_pool.table@.len() + 1 == cf.constant_pool.count,
            Err(e) => e == VmError::ClassFormatError,
        },
{
    let (magic, p) = read_u32(data, 0)?;
    let (minor_version, p) = read_u16(data, p)?;
    let (major_version, p) = read_u16(data, p)?;
    let (count, p) = read_u16(data, p)?;
    let (table, p) = parse_cp_table(data, p, count)?;
    let constant_pool = ConstantPool { count, table };
    let (access_flags, p) = read_u16(data, p)?;
    let (this_class, p) = read_u16(data, p)?;
    let (super_class, p) = read_u16(data, p)?;
    let (n_interfaces, mut p) = read_u16(data, p)?;
    let mut interfaces: Vec<u16> = Vec::new();
    let mut k: u16 = 0;
    while k < n_interfaces
        invariant
            p <= data@.len(),
        decreases n_interfaces - k,
    {
        let (idx, p2) = read_u16(data, p)?;
        p = p2;
        interfaces.push(idx);
        k = k + 1;
    }
    let (n_fields, p2) = read_u16(data, p)?;
    p = p2;
    let mut fields: Vec<FieldInfo> = Vec::new();
    let mut k2: u16 = 0;
    while k2 < n_fields
        invariant
            p <= data@.len(),
        decreases n_fields - k2,
    {
        let ((access_flags, name_index, descriptor_index, attributes), p2) = parse_member(data, p)?;
        p = p2;
        fields.push(FieldInfo { access_flags, name_index, descriptor_index, attributes });
        k2 = k2 + 1;
    }
    let (n_methods, p2) = read_u16(data, p)?;
    p = p2;
    let mut methods: Vec<MethodInfo> = Vec::new();
    let mut k3: u16 = 0;
    while k3 < n_methods
        invariant
            p <= data@.len(),
        decreases n_methods - k3,
    {
        let ((access_flags, name_index, descriptor_index, attributes), p2) = parse_member(data, p)?;
        p = p2;
        methods.push(MethodInfo { access_flags, name_index, descriptor_index, attributes });
        k3 = k3 + 1;
    }
    let (attributes, _) = parse_attributes(data, p)?;
    Ok(
        ClassFile {
            magic,
            minor_version,
            major_version,
            constant_pool,
            access_flags,
            this_class,
            super_class,
            interfaces,
            fields,
            methods,
            attributes,
        },
    )
}

/// The UTF-8 name and descriptor bytes of the symbolic member reference at
/// 1-based index `idx`, when the pool has that shape.
pub open spec fn cp_member_nat(cp: ConstantPool, idx: int) -> Option<(Seq<u8>, Seq<u8>)> {
    if 1 <= idx <= cp.table@.len() {
        let nat_idx = match cp.table@[idx - 1] {
            CPInfo::Fieldref { name_and_type_index, .. } => name_and_type_index as int,
            CPInfo::Methodref { name_and_type_index, .. } => name_and_type_index as int,
            CPInfo::InterfaceMethodref { name_and_type_index, .. } => name_and_type_index as int,
            _ => 0,
        };
        if 1 <= nat_idx <= cp.table@.len() {
            match cp.table@[nat_idx - 1] {
                CPInfo::NameAndType { name_index, descriptor_index } => if 1 <= name_index
                    <= cp.table@.len() && 1 <= descriptor_index <= cp.table@.len() {
                    match (cp.table@[name_index - 1], cp.table@[descriptor_index - 1]) {
                        (
                            CPInfo::Utf8 { bytes: nb, .. },
                            CPInfo::Utf8 { bytes: db, .. },
                        ) => Some((nb@, db@)),
                        _ => None,
                    }
                } else {
                    None
                },
                _ => None,
            }
        } else {
            None
        }
    } else {
        None
    }
}

impl AttributeInfo {
    /// Decode this attribute's payload as a `Code` attribute.
    pub fn code(&self) -> (r: Result<CodeAttribute, VmError>)
        ensures
            r matches Err(e) ==> e == VmError::ClassFormatError,
    {
        let data = &self.info;
        let (max_stack, p) = read_u16(data, 0)?;
        let (max_locals, p) = read_u16(data, p)?;
        let (code_length, p) = read_u32(data, p)?;
        let (code, p) = read_bytes(data, p, code_length as usize)?;
        let (n_entries, mut p) = read_u16(data, p)?;
        let mut exception_table: Vec<ExceptionTableEntry> = Vec::new();
        let mut k: u16 = 0;
        while k < n_entries
            invariant
                p <= data@.len(),
            decreases n_entries - k,
        {
            let (start_pc, p2) = read_u16(data, p)?;
            let (end_pc, p2) = read_u16(data, p2)?;
            let (handler_pc, p2) = read_u16(data, p2)?;
            let (catch_type, p2) = read_u16(data, p2)?;
            p = p2;
            exception_table.push(ExceptionTableEntry { start_pc, end_pc, handler_pc, catch_type });
            k = k + 1;
        }
        let (attributes, _) = parse_attributes(data, p)?;
        Ok(CodeAttribute { max_stack, max_locals, code, exception_table, attributes })
    }
}

impl ConstantPool {
    /// An empty pool: count 1, no entries.
    pub fn empty() -> (r: ConstantPool)
        ensures
            r.table@.len() == 0,
    {
        ConstantPool { count: 1, table: Vec::new() }
    }

    /// The UTF-8 entry at 1-based index `idx`, decoded to a host string.
    /// Succeeds exactly when the index holds a `Utf8` entry of valid UTF-8;
    /// the returned string's UTF-8 encoding is that entry's bytes.
    pub fn utf8(&self, idx: u16) -> (r: Result<String, VmError>)
        ensures
            match r {
                Ok(s) => {
                    &&& 1 <= idx <= self.table@.len()
                    &&& self.table@[idx - 1] matches CPInfo::Utf8 { bytes, .. }
                        && vstd::utf8::valid_utf8(bytes@) && vstd::utf8::encode_utf8(s@) == bytes@
                },
                Err(e) => {
                    &&& e == VmError::ClassFormatError
                    &&& !(1 <= idx <= self.table@.len()
                        && (self.table@[idx - 1] matches CPInfo::Utf8 { bytes, .. }
                        && vstd::utf8::valid_utf8(bytes@)))
                },
            },
    {
        if idx >= 1 && (idx as usize) <= self.table.len() {
            match &self.table[(idx - 1) as usize] {
                CPInfo::Utf8 { bytes, .. } => match crate::text::utf8_to_string(bytes) {
                    Some(s) => Ok(s),
                    None => Err(VmError::ClassFormatError),
                },
                _ => Err(VmError::ClassFormatError),
            }
        } else {
            Err(VmError::ClassFormatError)
        }
    }

    /// The class name the `Class` entry at `idx` refers to.
    pub fn class_name(&self, idx: u16) -> (r: Result<String, VmError>)
        ensures
            match r {
                Ok(s) => {
                    &&& 1 <= idx <= self.table@.len()
                    &&& self.table@[idx - 1] matches CPInfo::Class { name_index } && 1 <= name_index
                        <= self.table@.len() && (self.table@[name_index - 1] matches CPInfo::Utf8 {
                        bytes,
                        ..
                    } && vstd::utf8::encode_utf8(s@) == bytes@)
                    &&& cp_class_name_bytes(*self, idx as int) == Some(
                        vstd::utf8::encode_utf8(s@),
                    )
                },
                Err(e) => e == VmError::ClassFormatError,
            },
    {
        if idx >= 1 && (idx as usize) <= self.table.len() {
            match self.table[(idx - 1) as usize] {
                CPInfo::Class { name_index } => self.utf8(name_index),
                _ => Err(VmError::ClassFormatError),
            }
        } else {
            Err(VmError::ClassFormatError)
        }
    }

    /// The `{class, name-and-type}` pair of any of the three symbolic
    /// reference kinds at `idx`.
    pub fn any_ref(&self, idx: u16) -> (r: Result<(u16, u16), VmError>)
        ensures
            match r {
                Ok((c, nat_idx)) => {
                    &&& 1 <= idx <= self.table@.len()
                    &&& {
                        ||| self.table@[idx - 1] matches CPInfo::Fieldref {
                            class_index,
                            name_and_type_index,
                        } && c == class_index && nat_idx == name_and_type_index
                        ||| self.table@[idx - 1] matches CPInfo::Methodref {
                            class_index,
                            name_and_type_index,
                        } && c == class_index && nat_idx == name_and_type_index
                        ||| self.table@[idx - 1] matches CPInfo::InterfaceMethodref {
                            class_index,
                            name_and_type_index,
                        } && c == class_index && nat_idx == name_and_type_index
                    }
                },
                Err(e) => e == VmError::ClassFormatError,
            },
    {
        if idx >= 1 && (idx as usize) <= self.table.len() {
            match self.table[(idx - 1) as usize] {
                CPInfo::Fieldref { class_index, name_and_type_index } => Ok(
                    (class_index, name_and_type_index),
                ),
                CPInfo::Methodref { class_index, name_and_type_index } => Ok(
                    (class_index, name_and_type_index),
                ),
                CPInfo::InterfaceMethodref { class_index, name_and_type_index } => Ok(
                    (class_index, name_and_type_index),
                ),
                _ => Err(VmError::ClassFormatError),
            }
        } else {
            Err(VmError::ClassFormatError)
        }
    }

    /// The name and descriptor strings of the `NameAndType` entry at `idx`.
    pub fn name_and_type(&self, idx: u16) -> (r: Result<(String, String), VmError>)
        ensures
            match r {
                Ok((name, desc)) => {
                    &&& 1 <= idx <= self.table@.len()
                    &&& self.table@[idx - 1] matches CPInfo::NameAndType {
                        name_index,
                        descriptor_index,
                    }
                        && 1 <= name_index <= self.table@.len() && 1 <= descriptor_index
                        <= self.table@.len() && (self.table@[name_index - 1] matches CPInfo::Utf8 {
                        bytes,
                        ..
                    } && vstd::utf8::encode_utf8(name@) == bytes@) && (
                    self.table@[descriptor_index - 1] matches CPInfo::Utf8 { bytes, .. }
                        && vstd::utf8::encode_utf8(desc@) == bytes@)
                },
                Err(e) => e == VmError::ClassFormatError,
            },
    {
        if idx >= 1 && (idx as usize) <= self.table.len() {
            match self.table[(idx - 1) as usize] {
                CPInfo::NameAndType { name_index, descriptor_index } => {
                    let name = self.utf8(name_index)?;
                    let desc = self.utf8(descriptor_index)?;
                    Ok((name, desc))
                },
                _ => Err(VmError::ClassFormatError),
            }
        } else {
            Err(VmError::ClassFormatError)
        }
    }
}

} // verus!
