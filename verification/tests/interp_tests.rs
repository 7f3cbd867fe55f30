use jvmrt::class_file::{
    AttributeInfo, ClassFile, CodeAttribute, ConstantPool, CPInfo, FieldInfo, MethodInfo,
};
use jvmrt::descriptor::MethodDescriptor;
use jvmrt::error::VmError;
use jvmrt::heap::Heap;
use jvmrt::interp::{HostContext, Thread};
use jvmrt::method_area::{Class, ClassId, MethodArea, MethodId};
use jvmrt::value::Value;

const FUEL: u64 = 100_000;

struct CpBuilder {
    table: Vec<CPInfo>,
}

impl CpBuilder {
    fn new() -> CpBuilder {
        CpBuilder { table: Vec::new() }
    }
    fn utf8(&mut self, s: &str) -> u16 {
        self.table.push(CPInfo::Utf8 {
            length: s.as_bytes().len() as u16,
            bytes: s.as_bytes().to_vec(),
        });
        self.table.len() as u16
    }
    fn class(&mut self, name: &str) -> u16 {
        let n = self.utf8(name);
        self.table.push(CPInfo::Class { name_index: n });
        self.table.len() as u16
    }
    fn name_and_type(&mut self, name: &str, desc: &str) -> u16 {
        let n = self.utf8(name);
        let d = self.utf8(desc);
        self.table.push(CPInfo::NameAndType { name_index: n, descriptor_index: d });
        self.table.len() as u16
    }
    fn fieldref(&mut self, class_index: u16, name: &str, desc: &str) -> u16 {
        let nat = self.name_and_type(name, desc);
        self.table.push(CPInfo::Fieldref { class_index, name_and_type_index: nat });
        self.table.len() as u16
    }
    fn methodref(&mut self, class_index: u16, name: &str, desc: &str) -> u16 {
        let nat = self.name_and_type(name, desc);
        self.table.push(CPInfo::Methodref { class_index, name_and_type_index: nat });
        self.table.len() as u16
    }
    fn long(&mut self, val: i64) -> u16 {
        self.table.push(CPInfo::Long { val });
        self.table.push(CPInfo::Unusable);
        (self.table.len() - 1) as u16
    }
    fn double_bits(&mut self, bits: u64) -> u16 {
        self.table.push(CPInfo::Double { bits });
        self.table.push(CPInfo::Unusable);
        (self.table.len() - 1) as u16
    }
    fn float_bits(&mut self, bits: u32) -> u16 {
        self.table.push(CPInfo::Float { bits });
        self.table.len() as u16
    }
}

fn code_attr(cp: &mut CpBuilder, max_stack: u16, max_locals: u16, code: &[u8]) -> AttributeInfo {
    let name_index = cp.utf8("Code");
    let mut info: Vec<u8> = Vec::new();
    info.extend_from_slice(&max_stack.to_be_bytes());
    info.extend_from_slice(&max_locals.to_be_bytes());
    info.extend_from_slice(&(code.len() as u32).to_be_bytes());
    info.extend_from_slice(code);
    info.extend_from_slice(&0u16.to_be_bytes());
    info.extend_from_slice(&0u16.to_be_bytes());
    AttributeInfo { attribute_name_index: name_index, attribute_length: info.len() as u32, info }
}

fn method(
    cp: &mut CpBuilder,
    name: &str,
    desc: &str,
    flags: u16,
    max_stack: u16,
    max_locals: u16,
    code: &[u8],
) -> MethodInfo {
    let name_index = cp.utf8(name);
    let descriptor_index = cp.utf8(desc);
    let attr = code_attr(cp, max_stack, max_locals, code);
    MethodInfo { access_flags: flags, name_index, descriptor_index, attributes: vec![attr] }
}

fn native_method(cp: &mut CpBuilder, name: &str, desc: &str, flags: u16) -> MethodInfo {
    let name_index = cp.utf8(name);
    let descriptor_index = cp.utf8(desc);
    MethodInfo { access_flags: flags | 0x0100, name_index, descriptor_index, attributes: vec![] }
}

fn field(cp: &mut CpBuilder, name: &str, desc: &str, flags: u16) -> FieldInfo {
    let name_index = cp.utf8(name);
    let descriptor_index = cp.utf8(desc);
    FieldInfo { access_flags: flags, name_index, descriptor_index, attributes: vec![] }
}

fn class_file(
    cp: CpBuilder,
    this_class: u16,
    super_class: u16,
    interfaces: Vec<u16>,
    fields: Vec<FieldInfo>,
    methods: Vec<MethodInfo>,
) -> ClassFile {
    let count = cp.table.len() as u16 + 1;
    ClassFile {
        magic: 0xCAFEBABE,
        minor_version: 0,
        major_version: 52,
        constant_pool: ConstantPool { count, table: cp.table },
        access_flags: 0x0021,
        this_class,
        super_class,
        interfaces,
        fields,
        methods,
        attributes: vec![],
    }
}

fn base_area() -> MethodArea {
    let mut ma = MethodArea::new();
    let mut cp = CpBuilder::new();
    let this = cp.class("java/lang/Object");
    ma.define_class(class_file(cp, this, 0, vec![], vec![], vec![])).unwrap();
    ma
}

fn run_method(ma: &mut MethodArea, cid: ClassId, name: &str, desc: &str) -> Result<Option<Value>, VmError> {
    run_method_with(ma, cid, name, desc, &[])
}

fn run_method_with(
    ma: &mut MethodArea,
    cid: ClassId,
    name: &str,
    desc: &str,
    locals: &[Value],
) -> Result<Option<Value>, VmError> {
    let mut heap = Heap::new();
    run_method_on(ma, &mut heap, cid, name, desc, locals)
}

fn run_method_on(
    ma: &mut MethodArea,
    heap: &mut Heap,
    cid: ClassId,
    name: &str,
    desc: &str,
    locals: &[Value],
) -> Result<Option<Value>, VmError> {
    let md = MethodDescriptor::read(desc).unwrap();
    let mid: MethodId = ma.resolve_method(cid, name, &md).unwrap();
    let mut thread = Thread::new(ma, mid).unwrap();
    for (i, v) in locals.iter().enumerate() {
        thread.locals[i] = Some(*v);
    }
    let host = HostContext::new();
    thread.run(ma, heap, &host, FUEL)
}

#[test]
fn static_field_and_sum() {
    // static int x = 7; static int sum() { return x + 3; }
    let mut ma = base_area();
    let mut cp = CpBuilder::new();
    let this = cp.class("TestA");
    let sup = cp.class("java/lang/Object");
    let f = cp.fieldref(this, "x", "I");
    let fh = (f >> 8) as u8;
    let fl = (f & 0xFF) as u8;
    let clinit = method(&mut cp, "<clinit>", "()V", 0x0008, 1, 0, &[16, 7, 179, fh, fl, 177]);
    let sum = method(&mut cp, "sum", "()I", 0x0008, 2, 0, &[178, fh, fl, 6, 96, 172]);
    let fields = vec![field(&mut cp, "x", "I", 0x0008)];
    let cid = ma
        .define_class(class_file(cp, this, sup, vec![], fields, vec![clinit, sum]))
        .unwrap();
    assert_eq!(run_method(&mut ma, cid, "sum", "()I"), Ok(Some(Value::Int(10))));
}

#[test]
fn class_initializer_runs_at_most_once() {
    // <clinit> does x = x + 7; running sum() twice must not re-run it.
    let mut ma = base_area();
    let mut cp = CpBuilder::new();
    let this = cp.class("OnceK");
    let sup = cp.class("java/lang/Object");
    let f = cp.fieldref(this, "x", "I");
    let fh = (f >> 8) as u8;
    let fl = (f & 0xFF) as u8;
    let clinit = method(
        &mut cp,
        "<clinit>",
        "()V",
        0x0008,
        2,
        0,
        &[178, fh, fl, 16, 7, 96, 179, fh, fl, 177],
    );
    let sum = method(&mut cp, "sum", "()I", 0x0008, 2, 0, &[178, fh, fl, 6, 96, 172]);
    let fields = vec![field(&mut cp, "x", "I", 0x0008)];
    let cid = ma
        .define_class(class_file(cp, this, sup, vec![], fields, vec![clinit, sum]))
        .unwrap();
    let mut heap = Heap::new();
    assert_eq!(
        run_method_on(&mut ma, &mut heap, cid, "sum", "()I", &[]),
        Ok(Some(Value::Int(10)))
    );
    assert_eq!(
        run_method_on(&mut ma, &mut heap, cid, "sum", "()I", &[]),
        Ok(Some(Value::Int(10)))
    );
}

#[test]
fn static_long_initializer() {
    // static long y = 5L; after initialization getstatic pushes Long(5).
    let mut ma = base_area();
    let mut cp = CpBuilder::new();
    let this = cp.class("LongK");
    let sup = cp.class("java/lang/Object");
    let f = cp.fieldref(this, "y", "J");
    let fh = (f >> 8) as u8;
    let fl = (f & 0xFF) as u8;
    let l = cp.long(5);
    let lh = (l >> 8) as u8;
    let ll = (l & 0xFF) as u8;
    let clinit = method(&mut cp, "<clinit>", "()V", 0x0008, 2, 0, &[20, lh, ll, 179, fh, fl, 177]);
    let gety = method(&mut cp, "gety", "()J", 0x0008, 2, 0, &[178, fh, fl, 173]);
    let fields = vec![field(&mut cp, "y", "J", 0x0008)];
    let cid = ma
        .define_class(class_file(cp, this, sup, vec![], fields, vec![clinit, gety]))
        .unwrap();
    assert_eq!(run_method(&mut ma, cid, "gety", "()J"), Ok(Some(Value::Long(5))));
}

fn define_virtual_pair(ma: &mut MethodArea) -> (ClassId, ClassId, ClassId) {
    // class BaseK { int f() { return 1; } }
    let mut cp = CpBuilder::new();
    let this = cp.class("BaseK");
    let sup = cp.class("java/lang/Object");
    let f1 = method(&mut cp, "f", "()I", 0, 1, 1, &[4, 172]);
    let base = ma.define_class(class_file(cp, this, sup, vec![], vec![], vec![f1])).unwrap();
    // class SubK extends BaseK { int f() { return 2; } }
    let mut cp = CpBuilder::new();
    let this = cp.class("SubK");
    let sup = cp.class("BaseK");
    let f2 = method(&mut cp, "f", "()I", 0, 1, 1, &[5, 172]);
    let sub = ma.define_class(class_file(cp, this, sup, vec![], vec![], vec![f2])).unwrap();
    // class CallK { int call(Object receiver-in-local-0) }
    let mut cp = CpBuilder::new();
    let this = cp.class("CallK");
    let sup = cp.class("java/lang/Object");
    let base_ref = cp.class("BaseK");
    let m = cp.methodref(base_ref, "f", "()I");
    let mh = (m >> 8) as u8;
    let ml = (m & 0xFF) as u8;
    let call = method(&mut cp, "call", "()I", 0x0008, 2, 1, &[42, 182, mh, ml, 172]);
    let caller = ma.define_class(class_file(cp, this, sup, vec![], vec![], vec![call])).unwrap();
    (base, sub, caller)
}

#[test]
fn invokevirtual_selects_by_receiver_class() {
    let mut ma = base_area();
    let (base, sub, caller) = define_virtual_pair(&mut ma);
    let mut heap = Heap::new();
    let sub_obj = heap.new_object(&ma, sub);
    assert_eq!(
        run_method_on(&mut ma, &mut heap, caller, "call", "()I", &[Value::Object(Some(sub_obj))]),
        Ok(Some(Value::Int(2)))
    );
    let base_obj = heap.new_object(&ma, base);
    assert_eq!(
        run_method_on(&mut ma, &mut heap, caller, "call", "()I", &[Value::Object(Some(base_obj))]),
        Ok(Some(Value::Int(1)))
    );
}

#[test]
fn checkcast_null_passes_and_downcast_fails() {
    let mut ma = base_area();
    let (base, _sub, _caller) = define_virtual_pair(&mut ma);
    let mut cp = CpBuilder::new();
    let this = cp.class("CastK");
    let sup = cp.class("java/lang/Object");
    let sub_ref = cp.class("SubK");
    let ch = (sub_ref >> 8) as u8;
    let cl = (sub_ref & 0xFF) as u8;
    let cast_null = method(
        &mut cp,
        "castNull",
        "()Ljava/lang/Object;",
        0x0008,
        1,
        0,
        &[1, 192, ch, cl, 176],
    );
    let cast_bad = method(&mut cp, "castBad", "()V", 0x0008, 1, 1, &[42, 192, ch, cl, 177]);
    let inst = method(&mut cp, "isInst", "()I", 0x0008, 1, 1, &[42, 193, ch, cl, 172]);
    let cid = ma
        .define_class(class_file(cp, this, sup, vec![], vec![], vec![cast_null, cast_bad, inst]))
        .unwrap();
    let mut heap = Heap::new();
    assert_eq!(
        run_method_on(&mut ma, &mut heap, cid, "castNull", "()Ljava/lang/Object;", &[]),
        Ok(Some(Value::Object(None)))
    );
    let base_obj = heap.new_object(&ma, base);
    assert_eq!(
        run_method_on(&mut ma, &mut heap, cid, "castBad", "()V", &[Value::Object(Some(base_obj))]),
        Err(VmError::ClassCastException)
    );
    assert_eq!(
        run_method_on(&mut ma, &mut heap, cid, "isInst", "()I", &[Value::Object(Some(base_obj))]),
        Ok(Some(Value::Int(0)))
    );
}

#[test]
fn int_array_store_load_and_length() {
    // int[] a = new int[3]; a[0]=1; a[1]=2; a[2]=3;
    let mut ma = base_area();
    let mut cp = CpBuilder::new();
    let this = cp.class("ArrK");
    let sup = cp.class("java/lang/Object");
    let len = method(
        &mut cp,
        "len",
        "()I",
        0x0008,
        3,
        1,
        &[
            16, 3, 188, 10, 75, 42, 3, 4, 79, 42, 4, 5, 79, 42, 5, 6, 79, 42, 190, 172,
        ],
    );
    let elems = method(
        &mut cp,
        "elems",
        "()I",
        0x0008,
        3,
        1,
        &[
            16, 3, 188, 10, 75, 42, 3, 4, 79, 42, 4, 5, 79, 42, 5, 6, 79, 42, 3, 46, 16, 100, 104,
            42, 4, 46, 16, 10, 104, 96, 42, 5, 46, 96, 172,
        ],
    );
    let cid = ma.define_class(class_file(cp, this, sup, vec![], vec![], vec![len, elems])).unwrap();
    assert_eq!(run_method(&mut ma, cid, "len", "()I"), Ok(Some(Value::Int(3))));
    assert_eq!(run_method(&mut ma, cid, "elems", "()I"), Ok(Some(Value::Int(123))));
}

#[test]
fn negative_array_length_raises() {
    let mut ma = base_area();
    let mut cp = CpBuilder::new();
    let this = cp.class("NegArr");
    let sup = cp.class("java/lang/Object");
    let neg = method(&mut cp, "neg", "()V", 0x0008, 1, 0, &[16, 0xF6, 188, 10, 177]);
    let obj_ref = cp.class("java/lang/Object");
    let oh = (obj_ref >> 8) as u8;
    let ol = (obj_ref & 0xFF) as u8;
    let nega = method(&mut cp, "nega", "()V", 0x0008, 1, 0, &[2, 189, oh, ol, 177]);
    let cid = ma.define_class(class_file(cp, this, sup, vec![], vec![], vec![neg, nega])).unwrap();
    assert_eq!(
        run_method(&mut ma, cid, "neg", "()V"),
        Err(VmError::NegativeArraySize)
    );
    assert_eq!(
        run_method(&mut ma, cid, "nega", "()V"),
        Err(VmError::NegativeArraySize)
    );
    assert_eq!(Thread::check_array_count(-1), Err(VmError::NegativeArraySize));
    assert_eq!(Thread::check_array_count(4), Ok(4));
}

#[test]
fn iinc_wraps_on_overflow() {
    let mut ma = base_area();
    let mut cp = CpBuilder::new();
    let this = cp.class("IncK");
    let sup = cp.class("java/lang/Object");
    let inc = method(&mut cp, "inc", "()I", 0x0008, 1, 1, &[132, 0, 1, 26, 172]);
    let cid = ma.define_class(class_file(cp, this, sup, vec![], vec![], vec![inc])).unwrap();
    assert_eq!(
        run_method_with(&mut ma, cid, "inc", "()I", &[Value::Int(i32::MAX)]),
        Ok(Some(Value::Int(i32::MIN)))
    );
}

fn switch_code(leading_nops: usize) -> Vec<u8> {
    // iload_0 then a tableswitch with low=1, high=2, plus a default arm.
    let mut code: Vec<u8> = Vec::new();
    for _ in 0..leading_nops {
        code.push(0);
    }
    code.push(26); // iload_0
    let base_pc = code.len();
    code.push(170); // tableswitch
    while code.len() % 4 != 0 {
        code.push(0); // padding to a 4-byte boundary
    }
    let operands_at = code.len();
    let t1 = operands_at + 20;
    let t2 = t1 + 2;
    let def = t2 + 2;
    code.extend_from_slice(&((def - base_pc) as i32).to_be_bytes());
    code.extend_from_slice(&1i32.to_be_bytes());
    code.extend_from_slice(&2i32.to_be_bytes());
    code.extend_from_slice(&((t1 - base_pc) as i32).to_be_bytes());
    code.extend_from_slice(&((t2 - base_pc) as i32).to_be_bytes());
    code.extend_from_slice(&[4, 172]); // case 1 -> 1
    code.extend_from_slice(&[5, 172]); // case 2 -> 2
    code.extend_from_slice(&[16, 99, 172]); // default -> 99
    code
}

#[test]
fn tableswitch_pads_at_any_offset() {
    let mut ma = base_area();
    let mut cp = CpBuilder::new();
    let this = cp.class("SwK");
    let sup = cp.class("java/lang/Object");
    let mut methods = Vec::new();
    methods.push(method(&mut cp, "sw0", "(I)I", 0x0008, 2, 1, &switch_code(0)));
    methods.push(method(&mut cp, "sw1", "(I)I", 0x0008, 2, 1, &switch_code(1)));
    methods.push(method(&mut cp, "sw2", "(I)I", 0x0008, 2, 1, &switch_code(2)));
    methods.push(method(&mut cp, "sw3", "(I)I", 0x0008, 2, 1, &switch_code(3)));
    let cid = ma.define_class(class_file(cp, this, sup, vec![], vec![], methods)).unwrap();
    for name in ["sw0", "sw1", "sw2", "sw3"] {
        assert_eq!(
            run_method_with(&mut ma, cid, name, "(I)I", &[Value::Int(1)]),
            Ok(Some(Value::Int(1))),
        );
        assert_eq!(
            run_method_with(&mut ma, cid, name, "(I)I", &[Value::Int(2)]),
            Ok(Some(Value::Int(2))),
        );
        assert_eq!(
            run_method_with(&mut ma, cid, name, "(I)I", &[Value::Int(7)]),
            Ok(Some(Value::Int(99))),
        );
    }
}

#[test]
fn lookupswitch_matches_key() {
    let mut ma = base_area();
    let mut cp = CpBuilder::new();
    let this = cp.class("LkK");
    let sup = cp.class("java/lang/Object");
    let mut code: Vec<u8> = Vec::new();
    code.push(26); // iload_0
    let base_pc = code.len();
    code.push(171); // lookupswitch
    while code.len() % 4 != 0 {
        code.push(0);
    }
    let operands_at = code.len();
    let t1 = operands_at + 16;
    let def = t1 + 2;
    code.extend_from_slice(&((def - base_pc) as i32).to_be_bytes());
    code.extend_from_slice(&1i32.to_be_bytes()); // one pair
    code.extend_from_slice(&7i32.to_be_bytes()); // match
    code.extend_from_slice(&((t1 - base_pc) as i32).to_be_bytes());
    code.extend_from_slice(&[4, 172]); // key 7 -> 1
    code.extend_from_slice(&[16, 99, 172]); // default -> 99
    let lk = method(&mut cp, "lk", "(I)I", 0x0008, 2, 1, &code);
    let cid = ma.define_class(class_file(cp, this, sup, vec![], vec![], vec![lk])).unwrap();
    assert_eq!(
        run_method_with(&mut ma, cid, "lk", "(I)I", &[Value::Int(7)]),
        Ok(Some(Value::Int(1)))
    );
    assert_eq!(
        run_method_with(&mut ma, cid, "lk", "(I)I", &[Value::Int(8)]),
        Ok(Some(Value::Int(99)))
    );
}

fn bare_thread(stack: Vec<Value>) -> Thread {
    Thread {
        method: MethodId(0),
        code: CodeAttribute {
            max_stack: 0,
            max_locals: 0,
            code: vec![],
            exception_table: vec![],
            attributes: vec![],
        },
        pc: 0,
        operand_stack: stack,
        locals: vec![],
        stack_frames: vec![],
    }
}

#[test]
fn dup_x2_inserts_at_the_right_depth() {
    // A category-2 value at depth 2: one value goes under it.
    let mut t = bare_thread(vec![Value::Long(7), Value::Int(1)]);
    t.dup_x2().unwrap();
    assert_eq!(t.operand_stack, vec![Value::Int(1), Value::Long(7), Value::Int(1)]);
    // Three category-1 values: the top goes three down.
    let mut t = bare_thread(vec![Value::Int(9), Value::Int(8), Value::Int(7)]);
    t.dup_x2().unwrap();
    assert_eq!(
        t.operand_stack,
        vec![Value::Int(7), Value::Int(9), Value::Int(8), Value::Int(7)]
    );
}

#[test]
fn dup_family_shapes() {
    let mut t = bare_thread(vec![Value::Int(1)]);
    t.dup().unwrap();
    assert_eq!(t.operand_stack, vec![Value::Int(1), Value::Int(1)]);
    let mut t = bare_thread(vec![Value::Int(2), Value::Int(1)]);
    t.dup_x1().unwrap();
    assert_eq!(t.operand_stack, vec![Value::Int(1), Value::Int(2), Value::Int(1)]);
    let mut t = bare_thread(vec![Value::Long(3)]);
    t.dup2().unwrap();
    assert_eq!(t.operand_stack, vec![Value::Long(3), Value::Long(3)]);
    let mut t = bare_thread(vec![Value::Int(2), Value::Int(1)]);
    t.dup2().unwrap();
    assert_eq!(
        t.operand_stack,
        vec![Value::Int(2), Value::Int(1), Value::Int(2), Value::Int(1)]
    );
    let mut t = bare_thread(vec![Value::Int(2), Value::Int(1)]);
    t.swap_top().unwrap();
    assert_eq!(t.operand_stack, vec![Value::Int(1), Value::Int(2)]);
}

#[test]
fn pad_to_int_aligns_forward() {
    for (pc, expect) in [(0usize, 0usize), (1, 4), (2, 4), (3, 4), (4, 4), (5, 8)] {
        let mut t = bare_thread(vec![]);
        t.pc = pc;
        t.pad_to_int().unwrap();
        assert_eq!(t.pc, expect);
    }
}

#[test]
fn conversion_chain_through_floats() {
    let mut ma = base_area();
    let mut cp = CpBuilder::new();
    let this = cp.class("ConvK");
    let sup = cp.class("java/lang/Object");
    // bipush 7; i2f; f2i; ireturn
    let conv = method(&mut cp, "conv", "()I", 0x0008, 1, 0, &[16, 7, 134, 139, 172]);
    let d = cp.double_bits(2.5f64.to_bits());
    let dh = (d >> 8) as u8;
    let dl = (d & 0xFF) as u8;
    // ldc2_w 2.5; d2f; f2d; dreturn
    let dfd = method(&mut cp, "dfd", "()D", 0x0008, 2, 0, &[20, dh, dl, 144, 141, 175]);
    // ldc2_w 2.5; d2i; ireturn
    let d2i = method(&mut cp, "dtoi", "()I", 0x0008, 2, 0, &[20, dh, dl, 142, 172]);
    // iconst_m1; i2c; ireturn
    let i2c = method(&mut cp, "itoc", "()I", 0x0008, 1, 0, &[2, 146, 172]);
    let l = cp.long(5);
    let lh = (l >> 8) as u8;
    let ll = (l & 0xFF) as u8;
    // ldc2_w 5L; l2d; d2l; lreturn
    let ldl = method(&mut cp, "ldl", "()J", 0x0008, 2, 0, &[20, lh, ll, 138, 143, 173]);
    let cid = ma
        .define_class(class_file(cp, this, sup, vec![], vec![], vec![conv, dfd, d2i, i2c, ldl]))
        .unwrap();
    assert_eq!(run_method(&mut ma, cid, "conv", "()I"), Ok(Some(Value::Int(7))));
    assert_eq!(
        run_method(&mut ma, cid, "dfd", "()D"),
        Ok(Some(Value::Double(2.5f64.to_bits())))
    );
    assert_eq!(run_method(&mut ma, cid, "dtoi", "()I"), Ok(Some(Value::Int(2))));
    assert_eq!(run_method(&mut ma, cid, "itoc", "()I"), Ok(Some(Value::Int(0xFFFF))));
    assert_eq!(run_method(&mut ma, cid, "ldl", "()J"), Ok(Some(Value::Long(5))));
}

#[test]
fn float_comparisons_with_nan_bias() {
    let mut ma = base_area();
    let mut cp = CpBuilder::new();
    let this = cp.class("CmpK");
    let sup = cp.class("java/lang/Object");
    let f1 = cp.float_bits(1.5f32.to_bits());
    let f2 = cp.float_bits(2.5f32.to_bits());
    let fnan = cp.float_bits(f32::NAN.to_bits());
    let (a1, b1) = ((f1 & 0xFF) as u8, (f2 & 0xFF) as u8);
    let n = (fnan & 0xFF) as u8;
    // ldc 1.5; ldc 2.5; fcmpg; ireturn
    let lt = method(&mut cp, "lt", "()I", 0x0008, 2, 0, &[18, a1, 18, b1, 150, 172]);
    // ldc NaN; ldc 1.5; fcmpl; ireturn  (NaN biases toward -1)
    let nanl = method(&mut cp, "nanl", "()I", 0x0008, 2, 0, &[18, n, 18, a1, 149, 172]);
    // ldc NaN; ldc 1.5; fcmpg; ireturn  (NaN biases toward 1)
    let nang = method(&mut cp, "nang", "()I", 0x0008, 2, 0, &[18, n, 18, a1, 150, 172]);
    let d1 = cp.double_bits(1.5f64.to_bits());
    let d1h = (d1 >> 8) as u8;
    let d1l = (d1 & 0xFF) as u8;
    let d2 = cp.double_bits(2.5f64.to_bits());
    let d2h = (d2 >> 8) as u8;
    let d2l = (d2 & 0xFF) as u8;
    // ldc2_w 2.5; ldc2_w 1.5; dcmpg; ireturn
    let dgt = method(
        &mut cp,
        "dgt",
        "()I",
        0x0008,
        4,
        0,
        &[20, d2h, d2l, 20, d1h, d1l, 152, 172],
    );
    let cid = ma
        .define_class(class_file(cp, this, sup, vec![], vec![], vec![lt, nanl, nang, dgt]))
        .unwrap();
    assert_eq!(run_method(&mut ma, cid, "lt", "()I"), Ok(Some(Value::Int(-1))));
    assert_eq!(run_method(&mut ma, cid, "nanl", "()I"), Ok(Some(Value::Int(-1))));
    assert_eq!(run_method(&mut ma, cid, "nang", "()I"), Ok(Some(Value::Int(1))));
    assert_eq!(run_method(&mut ma, cid, "dgt", "()I"), Ok(Some(Value::Int(1))));
}

#[test]
fn native_float_bits_round_trip() {
    // A native method dispatches to the built-in table; the raw-bits
    // conversions are the identity on this value model.
    let mut ma = base_area();
    let mut cp = CpBuilder::new();
    let this = cp.class("java/lang/Float");
    let sup = cp.class("java/lang/Object");
    let nm = native_method(&mut cp, "intBitsToFloat", "(I)F", 0x0008);
    let m = cp.methodref(this, "intBitsToFloat", "(I)F");
    let mh = (m >> 8) as u8;
    let ml = (m & 0xFF) as u8;
    let i = {
        cp.table.push(CPInfo::Integer { val: 0x40490FDB });
        cp.table.len() as u16
    };
    let il = (i & 0xFF) as u8;
    let call = method(&mut cp, "call", "()F", 0x0008, 1, 0, &[18, il, 184, mh, ml, 174]);
    let cid = ma.define_class(class_file(cp, this, sup, vec![], vec![], vec![nm, call])).unwrap();
    assert_eq!(
        run_method(&mut ma, cid, "call", "()F"),
        Ok(Some(Value::Float(0x40490FDB)))
    );
}

#[test]
fn error_variants_from_bytecode() {
    let mut ma = base_area();
    let mut cp = CpBuilder::new();
    let this = cp.class("ErrK");
    let sup = cp.class("java/lang/Object");
    // idiv by zero
    let div0 = method(&mut cp, "div0", "()I", 0x0008, 2, 0, &[4, 3, 108, 172]);
    // pop from an empty stack
    let under = method(&mut cp, "under", "()V", 0x0008, 1, 0, &[87, 177]);
    // arraylength of null
    let npe = method(&mut cp, "npe", "()V", 0x0008, 1, 0, &[1, 190, 177]);
    // a goto loop that never returns exhausts the budget
    let spin = method(&mut cp, "spin", "()V", 0x0008, 1, 0, &[0, 167, 0xFF, 0xFF, 177]);
    // iadd on mismatched tags
    let mixed = method(&mut cp, "mixed", "()V", 0x0008, 3, 0, &[4, 9, 96, 177]);
    // an opcode outside the supported set
    let unsup = method(&mut cp, "unsup", "()V", 0x0008, 1, 0, &[186, 0, 0, 0, 0, 177]);
    // out-of-bounds array store
    let oob = method(&mut cp, "oob", "()V", 0x0008, 3, 1, &[16, 1, 188, 10, 75, 42, 8, 4, 79, 177]);
    let cid = ma
        .define_class(class_file(
            cp,
            this,
            sup,
            vec![],
            vec![],
            vec![div0, under, npe, spin, mixed, unsup, oob],
        ))
        .unwrap();
    assert_eq!(run_method(&mut ma, cid, "div0", "()I"), Err(VmError::ArithmeticException));
    assert_eq!(run_method(&mut ma, cid, "under", "()V"), Err(VmError::StackUnderflow));
    assert_eq!(run_method(&mut ma, cid, "npe", "()V"), Err(VmError::NullPointerException));
    assert_eq!(run_method(&mut ma, cid, "spin", "()V"), Err(VmError::StackOverflow));
    assert_eq!(run_method(&mut ma, cid, "mixed", "()V"), Err(VmError::InvalidType));
    assert_eq!(run_method(&mut ma, cid, "unsup", "()V"), Err(VmError::Unsupported));
    assert_eq!(run_method(&mut ma, cid, "oob", "()V"), Err(VmError::ArrayIndexOutOfBounds));
}

#[test]
fn circular_interface_is_rejected() {
    let mut ma = base_area();
    let mut cp = CpBuilder::new();
    let this = cp.class("Loop");
    let sup = cp.class("java/lang/Object");
    let cf = class_file(cp, this, sup, vec![this], vec![], vec![]);
    assert_eq!(ma.define_class(cf), Err(VmError::ClassCircularityError));
}

#[test]
fn bad_magic_and_version_are_format_errors() {
    let mut ma = base_area();
    let mut cp = CpBuilder::new();
    let this = cp.class("BadMagic");
    let sup = cp.class("java/lang/Object");
    let mut cf = class_file(cp, this, sup, vec![], vec![], vec![]);
    cf.magic = 0xDEADBEEF;
    assert_eq!(ma.define_class(cf), Err(VmError::ClassFormatError));
    let mut cp = CpBuilder::new();
    let this = cp.class("BadVersion");
    let sup = cp.class("java/lang/Object");
    let mut cf = class_file(cp, this, sup, vec![], vec![], vec![]);
    cf.major_version = 99;
    assert_eq!(ma.define_class(cf), Err(VmError::ClassFormatError));
}

#[test]
fn out_of_memory_on_oversized_array_layout() {
    let r = jvmrt::heap::arr_layout(
        &jvmrt::descriptor::FieldType::BaseType(jvmrt::descriptor::BaseType::J),
        usize::MAX / 4,
    );
    assert_eq!(r, Err(VmError::OutOfMemory));
}

#[test]
fn unknown_native_is_reported() {
    let mut ma = base_area();
    let mut cp = CpBuilder::new();
    let this = cp.class("NatK");
    let sup = cp.class("java/lang/Object");
    let nm = native_method(&mut cp, "mystery", "()V", 0x0008);
    let m = cp.methodref(this, "mystery", "()V");
    let mh = (m >> 8) as u8;
    let ml = (m & 0xFF) as u8;
    let call = method(&mut cp, "call", "()V", 0x0008, 1, 0, &[184, mh, ml, 177]);
    let cid = ma.define_class(class_file(cp, this, sup, vec![], vec![], vec![nm, call])).unwrap();
    assert_eq!(run_method(&mut ma, cid, "call", "()V"), Err(VmError::UnknownNative));
}

#[test]
fn resolution_is_memoized() {
    let mut ma = base_area();
    let mut cp = CpBuilder::new();
    let this = cp.class("MemoK");
    let sup = cp.class("java/lang/Object");
    let cid = ma.define_class(class_file(cp, this, sup, vec![], vec![], vec![])).unwrap();
    // Slot `this` is the class's own Class entry.
    let a = Class::class_reference(&mut ma, cid, 2).unwrap();
    let b = Class::class_reference(&mut ma, cid, 2).unwrap();
    assert_eq!(a, b);
    assert_eq!(a, cid);
    // Every loaded class resolves back to its own id by name.
    for i in 0..ma.classes.len() {
        let name = ma.classes[i].name.clone();
        assert_eq!(ma.resolve_class(&name).unwrap(), ClassId(i));
    }
}


#[test]
fn ldc_string_materializes_on_the_heap() {
    let mut ma = base_area();
    // The runtime string class must exist for interning to allocate.
    let mut cp = CpBuilder::new();
    let this = cp.class("java/lang/String");
    let sup = cp.class("java/lang/Object");
    let fields = vec![field(&mut cp, "value", "[B", 0), field(&mut cp, "coder", "B", 0)];
    ma.define_class(class_file(cp, this, sup, vec![], fields, vec![])).unwrap();
    let mut cp = CpBuilder::new();
    let this = cp.class("StrK");
    let sup = cp.class("java/lang/Object");
    let text = cp.utf8("salve");
    let si = {
        cp.table.push(CPInfo::Str { string_index: text });
        cp.table.len() as u16
    };
    let sl = (si & 0xFF) as u8;
    let lit = method(
        &mut cp,
        "lit",
        "()Ljava/lang/String;",
        0x0008,
        1,
        0,
        &[18, sl, 176],
    );
    let cid = ma.define_class(class_file(cp, this, sup, vec![], vec![], vec![lit])).unwrap();
    let mut heap = Heap::new();
    let r = run_method_on(&mut ma, &mut heap, cid, "lit", "()Ljava/lang/String;", &[]).unwrap();
    match r {
        Some(Value::Object(Some(obj))) => {
            assert_eq!(heap.read_string(&ma, obj).unwrap(), "salve");
        }
        other => panic!("expected a string object, got {:?}", other),
    }
}

#[test]
fn array_descriptor_class_name_is_rejected() {
    // A loaded class may not pose as an array: resolution by name must keep
    // its array/non-array split sound.
    let mut ma = base_area();
    let mut cp = CpBuilder::new();
    let this = cp.class("[I");
    let sup = cp.class("java/lang/Object");
    assert_eq!(
        ma.define_class(class_file(cp, this, sup, vec![], vec![], vec![])),
        Err(VmError::ClassFormatError)
    );
}

#[test]
fn class_mirror_is_unique() {
    let mut ma = base_area();
    // The mirror class itself must exist for reification.
    let mut cp = CpBuilder::new();
    let this = cp.class("java/lang/Class");
    let sup = cp.class("java/lang/Object");
    ma.define_class(class_file(cp, this, sup, vec![], vec![], vec![])).unwrap();
    let mut heap = Heap::new();
    let target = ma.resolve_class("java/lang/Object").unwrap();
    let a = Class::obj(&mut ma, &mut heap, target).unwrap();
    let b = Class::obj(&mut ma, &mut heap, target).unwrap();
    assert_eq!(a, b);
}
