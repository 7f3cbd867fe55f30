//! The bytecode interpreter: per-thread frame stack, operand stack, locals,
//! opcode dispatch, method invocation and selection, and the
//! class-initialization interlock.
//!
//! The decode-execute loop is fuel-bounded: every instruction and every
//! nested invocation consumes budget, and an exhausted budget ends the run
//! with `StackOverflow`.  All stack, local and heap accesses are checked;
//! an ill-formed operand is an error result, never a fault.

use crate::class_file::{be16, be32, CodeAttribute, CPInfo, ACC_NATIVE, ACC_STATIC};
use crate::descriptor::{BaseType, FieldType, MethodDescriptor, ObjectType, ReturnDescriptor};
use crate::error::VmError;
use crate::floats::{
    f32_cmp, f32_of_long, f32_to_f64, f32_to_int, f64_cmp, f64_of_long, f64_to_f32, f64_to_int,
};
use crate::heap::{ArrayRef, Heap, ObjectRef};
use crate::method_area::{
    ma_evolves, Class, ClassId, FieldBacking, MethodArea, MethodId, Reference,
};
use crate::value::{is_cat2, Value};
use vstd::prelude::*;
use vstd::wrapping::i32_specs;

verus! {

/// A saved caller context: where to resume when the callee returns.
pub struct StackFrame {
    pub method: MethodId,
    pub return_pc: usize,
    pub operand_stack: Vec<Value>,
    pub locals: Vec<Option<Value>>,
}

/// Host-supplied facts the built-in natives answer from: system property
/// raw material and file-descriptor state.  The embedder fills this once;
/// the interpreter only reads it.
pub struct HostContext {
    pub java_home: String,
    pub tmp_dir: String,
    pub os_name: String,
    pub os_arch: String,
    pub os_version: String,
    pub user_name: String,
    pub user_home: String,
    pub user_dir: String,
    /// Whether the descriptor is open in append mode, per descriptor.
    pub fd_append: Vec<(i32, bool)>,
}

impl HostContext {
    /// A context with empty host facts, enough for code that never asks.
    pub fn new() -> HostContext {
        HostContext {
            java_home: String::new(),
            tmp_dir: String::new(),
            os_name: String::new(),
            os_arch: String::new(),
            os_version: String::new(),
            user_name: String::new(),
            user_home: String::new(),
            user_dir: String::new(),
            fd_append: Vec::new(),
        }
    }
}

/// One interpreter: the only active component; it pulls from the method
/// area, mutates the heap, and consults the native table.
pub struct Thread {
    pub method: MethodId,
    pub code: CodeAttribute,
    pub pc: usize,
    pub operand_stack: Vec<Value>,
    pub locals: Vec<Option<Value>>,
    pub stack_frames: Vec<StackFrame>,
}

impl Thread {
    /// The thread's structural tie to the method area: the running method
    /// and every suspended frame's method exist.
    pub open spec fn wf(self, ma: MethodArea) -> bool {
        &&& self.method.0 < ma.methods@.len()
        &&& forall|i: int|
            0 <= i < self.stack_frames@.len() ==> (#[trigger] self.stack_frames@[i]).method.0
                < ma.methods@.len()
    }

    /// A fresh thread poised at the entry of `entry_method`, which must have
    /// a bytecode body.
    pub fn new(ma: &MethodArea, entry_method: MethodId) -> (r: Result<Thread, VmError>)
        ensures
            match r {
                Ok(t) => t.wf(*ma) && t.stack_frames@.len() == 0,
                Err(_) => true,
            },
    {
        if entry_method.0 >= ma.methods.len() {
            return Err(VmError::NoSuchMethodError);
        }
        let code = match &ma.methods[entry_method.0].code {
            Some(c) => c.clone(),
            None => {
                return Err(VmError::NoSuchMethodError);
            },
        };
        let max_locals = code.max_locals as usize;
        let mut locals: Vec<Option<Value>> = Vec::new();
        let mut k: usize = 0;
        while k < max_locals
            decreases max_locals - k,
        {
            locals.push(None);
            k = k + 1;
        }
        Ok(
            Thread {
                method: entry_method,
                code,
                pc: 0,
                operand_stack: Vec::new(),
                stack_frames: Vec::new(),
                locals,
            },
        )
    }

    /// The class defining the method this thread is executing.
    pub fn class_id(&self, ma: &MethodArea) -> (r: ClassId)
        requires
            self.wf(*ma),
            ma.wf(),
        ensures
            r == ma.methods@[self.method.0 as int].defining_class,
            r.0 < ma.classes@.len(),
    {
        ma.methods[self.method.0].defining_class
    }

    /// Read the byte at the program counter and advance.
    fn read_ins(&mut self) -> (r: Result<u8, VmError>)
        ensures
            *final(self) == (Thread { pc: final(self).pc, ..*old(self) }),
            match r {
                Ok(b) => {
                    &&& old(self).pc < old(self).code.code@.len()
                    &&& b == old(self).code.code@[old(self).pc as int]
                    &&& final(self).pc == old(self).pc + 1
                },
                Err(e) => {
                    &&& e == VmError::ClassFormatError
                    &&& old(self).pc >= old(self).code.code@.len()
                    &&& final(self).pc == old(self).pc
                },
            },
    {
        if self.pc < self.code.code.len() {
            let b = self.code.code[self.pc];
            self.pc = self.pc + 1;
            Ok(b)
        } else {
            Err(VmError::ClassFormatError)
        }
    }

    /// Read a big-endian 16-bit operand.
    fn read_u16(&mut self) -> (r: Result<u16, VmError>)
        ensures
            *final(self) == (Thread { pc: final(self).pc, ..*old(self) }),
            match r {
                Ok(v) => {
                    &&& old(self).pc + 2 <= old(self).code.code@.len()
                    &&& v == be16(
                        old(self).code.code@[old(self).pc as int],
                        old(self).code.code@[old(self).pc + 1],
                    )
                    &&& final(self).pc == old(self).pc + 2
                },
                Err(e) => {
                    &&& e == VmError::ClassFormatError
                    &&& old(self).pc + 2 > old(self).code.code@.len()
                    &&& old(self).pc <= final(self).pc <= old(self).pc + 1
                },
            },
    {
        let hi = self.read_ins()?;
        let lo = self.read_ins()?;
        Ok((hi as u16) * 0x100 + (lo as u16))
    }

    /// Read a big-endian 32-bit operand, as a signed value.
    fn read_i32(&mut self) -> (r: Result<i32, VmError>)
        ensures
            *final(self) == (Thread { pc: final(self).pc, ..*old(self) }),
            match r {
                Ok(v) => {
                    &&& old(self).pc + 4 <= old(self).code.code@.len()
                    &&& v == be32(
                        old(self).code.code@[old(self).pc as int],
                        old(self).code.code@[old(self).pc + 1],
                        old(self).code.code@[old(self).pc + 2],
                        old(self).code.code@[old(self).pc + 3],
                    ) as i32
                    &&& final(self).pc == old(self).pc + 4
                },
                Err(e) => e == VmError::ClassFormatError && old(self).pc <= final(self).pc
                    <= old(self).pc + 3,
            },
    {
        let b0 = self.read_ins()?;
        let b1 = self.read_ins()?;
        let b2 = self.read_ins()?;
        let b3 = self.read_ins()?;
        let w: u32 = (b0 as u32) * 0x100_0000 + (b1 as u32) * 0x1_0000 + (b2 as u32) * 0x100 + (
        b3 as u32);
        Ok(#[verifier::truncate] (w as i32))
    }

    /// Align the program counter to the next 4-byte boundary relative to
    /// the method start, as `tableswitch` and `lookupswitch` require: the
    /// new counter is the smallest multiple of four at or after the old one.
    pub fn pad_to_int(&mut self) -> (r: Result<(), VmError>)
        ensures
            *final(self) == (Thread { pc: final(self).pc, ..*old(self) }),
            old(self).pc + 3 <= usize::MAX ==> r is Ok,
            match r {
                Ok(_) => final(self).pc as int % 4 == 0 && old(self).pc <= final(self).pc < old(
                    self,
                ).pc + 4,
                Err(_) => final(self).pc == old(self).pc,
            },
    {
        let rem = self.pc % 4;
        if rem != 0 {
            let adjust: usize = 4 - rem;
            if self.pc <= usize::MAX - adjust {
                self.pc = self.pc + adjust;
            } else {
                return Err(VmError::ClassFormatError);
            }
        }
        Ok(())
    }

    /// Pop the top of the operand stack; an empty stack is an invariant
    /// violation.
    pub fn pop(&mut self) -> (r: Result<Value, VmError>)
        ensures
            *final(self) == (Thread { operand_stack: final(self).operand_stack, ..*old(self) }),
            match r {
                Ok(v) => {
                    &&& old(self).operand_stack@.len() > 0
                    &&& v == old(self).operand_stack@.last()
                    &&& final(self).operand_stack@ == old(self).operand_stack@.drop_last()
                },
                Err(e) => {
                    &&& e == VmError::StackUnderflow
                    &&& old(self).operand_stack@.len() == 0
                    &&& final(self).operand_stack@ == old(self).operand_stack@
                },
            },
    {
        match self.operand_stack.pop() {
            Some(v) => Ok(v),
            None => Err(VmError::StackUnderflow),
        }
    }

    /// Conditionally branch by the signed 16-bit offset that follows the
    /// opcode, relative to the opcode's own position `cur_pc`.
    pub fn br_if(&mut self, cur_pc: usize, cond: bool) -> (r: Result<(), VmError>)
        ensures
            *final(self) == (Thread { pc: final(self).pc, ..*old(self) }),
            ({
                let code = old(self).code.code@;
                let pc = old(self).pc as int;
                pc + 2 <= code.len() && (cond ==> 0 <= cur_pc + (be16(code[pc], code[pc + 1]) as i16)
                    <= code.len()) ==> r is Ok
            }),
            r is Err ==> old(self).pc <= final(self).pc <= old(self).pc + 2,
            match r {
                Ok(_) => {
                    &&& old(self).pc + 2 <= old(self).code.code@.len()
                    &&& ({
                        let off = be16(
                            old(self).code.code@[old(self).pc as int],
                            old(self).code.code@[old(self).pc + 1],
                        ) as i16;
                        if cond {
                            final(self).pc == cur_pc + off
                        } else {
                            final(self).pc == old(self).pc + 2
                        }
                    })
                },
                Err(_) => true,
            },
    {
        let off_u = self.read_u16()?;
        let off: i16 = #[verifier::truncate] (off_u as i16);
        if cond {
            let target: i128 = cur_pc as i128 + off as i128;
            if target < 0 || target > self.code.code.len() as i128 {
                return Err(VmError::ClassFormatError);
            }
            self.pc = target as usize;
        }
        Ok(())
    }

    /// `iinc`: add the signed constant to the `Int` local at `idx`,
    /// wrapping on overflow.
    pub fn iinc_local(&mut self, idx: usize, c: i32) -> (r: Result<(), VmError>)
        ensures
            *final(self) == (Thread { locals: final(self).locals, ..*old(self) }),
            match r {
                Ok(_) => {
                    &&& idx < old(self).locals@.len()
                    &&& old(self).locals@[idx as int] matches Some(Value::Int(_))
                    &&& ({
                        let v0 = match old(self).locals@[idx as int] {
                            Some(Value::Int(x)) => x,
                            _ => 0,
                        };
                        final(self).locals@ == old(self).locals@.update(
                            idx as int,
                            Some(Value::Int(i32_specs::wrapping_add(v0, c))),
                        )
                    })
                },
                Err(e) => {
                    &&& e == VmError::InvalidType
                    &&& final(self).locals@ == old(self).locals@
                },
            },
    {
        if idx >= self.locals.len() {
            return Err(VmError::InvalidType);
        }
        match self.locals[idx] {
            Some(Value::Int(v)) => {
                self.locals[idx] = Some(Value::Int(v.wrapping_add(c)));
                Ok(())
            },
            _ => Err(VmError::InvalidType),
        }
    }

    /// `dup`: duplicate the top value.
    pub fn dup(&mut self) -> (r: Result<(), VmError>)
        ensures
            *final(self) == (Thread { operand_stack: final(self).operand_stack, ..*old(self) }),
            match r {
                Ok(_) => old(self).operand_stack@.len() >= 1 && final(self).operand_stack@ == old(
                    self,
                ).operand_stack@.push(old(self).operand_stack@.last()),
                Err(e) => e == VmError::StackUnderflow && old(self).operand_stack@.len() == 0,
            },
    {
        let v1 = self.pop()?;
        self.operand_stack.push(v1);
        self.operand_stack.push(v1);
        proof {
            assert(self.operand_stack@ =~= old(self).operand_stack@.push(
                old(self).operand_stack@.last(),
            ));
        }
        Ok(())
    }

    /// `dup_x1`: duplicate the top value beneath the second.
    pub fn dup_x1(&mut self) -> (r: Result<(), VmError>)
        ensures
            *final(self) == (Thread { operand_stack: final(self).operand_stack, ..*old(self) }),
            match r {
                Ok(_) => {
                    let s = old(self).operand_stack@;
                    let n = s.len() as int;
                    &&& s.len() >= 2
                    &&& final(self).operand_stack@ == s.take(n - 2) + seq![s[n - 1], s[n - 2], s[n
                        - 1]]
                },
                Err(e) => e == VmError::StackUnderflow && old(self).operand_stack@.len() < 2,
            },
    {
        let v1 = self.pop()?;
        let v2 = self.pop()?;
        self.operand_stack.push(v1);
        self.operand_stack.push(v2);
        self.operand_stack.push(v1);
        proof {
            let s = old(self).operand_stack@;
            assert(self.operand_stack@ =~= s.take(s.len() - 2) + seq![
                s[s.len() - 1],
                s[s.len() - 2],
                s[s.len() - 1],
            ]);
        }
        Ok(())
    }

    /// `dup_x2`: duplicate the top value and insert it below the value (one
    /// category-2 value, or two category-1 values) beneath it.
    pub fn dup_x2(&mut self) -> (r: Result<(), VmError>)
        ensures
            *final(self) == (Thread { operand_stack: final(self).operand_stack, ..*old(self) }),
            ({
                let s = old(self).operand_stack@;
                let n = s.len() as int;
                &&& (s.len() >= 2 && is_cat2(s[n - 2]) ==> r is Ok)
                &&& (s.len() >= 3 && !is_cat2(s[n - 2]) ==> r is Ok)
            }),
            match r {
                Ok(_) => {
                    let s = old(self).operand_stack@;
                    let n = s.len() as int;
                    &&& s.len() >= 2
                    &&& if is_cat2(s[n - 2]) {
                        final(self).operand_stack@ == s.take(n - 2) + seq![s[n - 1], s[n - 2], s[n
                            - 1]]
                    } else {
                        s.len() >= 3 && final(self).operand_stack@ == s.take(n - 3) + seq![
                            s[n - 1],
                            s[n - 3],
                            s[n - 2],
                            s[n - 1],
                        ]
                    }
                },
                Err(e) => e == VmError::StackUnderflow,
            },
    {
        let v1 = self.pop()?;
        let v2 = self.pop()?;
        if v2.is_cat_2() {
            self.operand_stack.push(v1);
            self.operand_stack.push(v2);
            self.operand_stack.push(v1);
            proof {
                let s = old(self).operand_stack@;
                assert(self.operand_stack@ =~= s.take(s.len() - 2) + seq![
                    s[s.len() - 1],
                    s[s.len() - 2],
                    s[s.len() - 1],
                ]);
            }
            Ok(())
        } else {
            let v3 = self.pop()?;
            self.operand_stack.push(v1);
            self.operand_stack.push(v3);
            self.operand_stack.push(v2);
            self.operand_stack.push(v1);
            proof {
                let s = old(self).operand_stack@;
                assert(self.operand_stack@ =~= s.take(s.len() - 3) + seq![
                    s[s.len() - 1],
                    s[s.len() - 3],
                    s[s.len() - 2],
                    s[s.len() - 1],
                ]);
            }
            Ok(())
        }
    }

    /// `dup2`: duplicate one category-2 value or the top two category-1
    /// values.
    pub fn dup2(&mut self) -> (r: Result<(), VmError>)
        ensures
            *final(self) == (Thread { operand_stack: final(self).operand_stack, ..*old(self) }),
            match r {
                Ok(_) => {
                    let s = old(self).operand_stack@;
                    let n = s.len() as int;
                    &&& s.len() >= 1
                    &&& if is_cat2(s[n - 1]) {
                        final(self).operand_stack@ == s.push(s[n - 1])
                    } else {
                        s.len() >= 2 && final(self).operand_stack@ == s + seq![s[n - 2], s[n - 1]]
                    }
                },
                Err(e) => e == VmError::StackUnderflow,
            },
    {
        let v1 = self.pop()?;
        if v1.is_cat_2() {
            self.operand_stack.push(v1);
            self.operand_stack.push(v1);
            proof {
                let s = old(self).operand_stack@;
                assert(self.operand_stack@ =~= s.push(s[s.len() - 1]));
            }
            Ok(())
        } else {
            let v2 = self.pop()?;
            self.operand_stack.push(v2);
            self.operand_stack.push(v1);
            self.operand_stack.push(v2);
            self.operand_stack.push(v1);
            proof {
                let s = old(self).operand_stack@;
                assert(self.operand_stack@ =~= s + seq![s[s.len() - 2], s[s.len() - 1]]);
            }
            Ok(())
        }
    }

    /// `dup2_x1`: duplicate the top one or two values beneath the third
    /// slot.
    pub fn dup2_x1(&mut self) -> (r: Result<(), VmError>)
        ensures
            *final(self) == (Thread { operand_stack: final(self).operand_stack, ..*old(self) }),
            match r {
                Ok(_) => {
                    let s = old(self).operand_stack@;
                    let n = s.len() as int;
                    &&& s.len() >= 2
                    &&& !is_cat2(s[n - 2])
                    &&& if is_cat2(s[n - 1]) {
                        final(self).operand_stack@ == s.take(n - 2) + seq![s[n - 1], s[n - 2], s[n
                            - 1]]
                    } else {
                        s.len() >= 3 && final(self).operand_stack@ == s.take(n - 3) + seq![
                            s[n - 2],
                            s[n - 1],
                            s[n - 3],
                            s[n - 2],
                            s[n - 1],
                        ]
                    }
                },
                Err(e) => e == VmError::StackUnderflow || e == VmError::InvalidType,
            },
    {
        let v1 = self.pop()?;
        let v2 = self.pop()?;
        if v2.is_cat_2() {
            return Err(VmError::InvalidType);
        }
        if v1.is_cat_2() {
            self.operand_stack.push(v1);
            self.operand_stack.push(v2);
            self.operand_stack.push(v1);
            proof {
                let s = old(self).operand_stack@;
                assert(self.operand_stack@ =~= s.take(s.len() - 2) + seq![
                    s[s.len() - 1],
                    s[s.len() - 2],
                    s[s.len() - 1],
                ]);
            }
            Ok(())
        } else {
            let v3 = self.pop()?;
            self.operand_stack.push(v2);
            self.operand_stack.push(v1);
            self.operand_stack.push(v3);
            self.operand_stack.push(v2);
            self.operand_stack.push(v1);
            proof {
                let s = old(self).operand_stack@;
                assert(self.operand_stack@ =~= s.take(s.len() - 3) + seq![
                    s[s.len() - 2],
                    s[s.len() - 1],
                    s[s.len() - 3],
                    s[s.len() - 2],
                    s[s.len() - 1],
                ]);
            }
            Ok(())
        }
    }

    /// `dup2_x2`: duplicate the top one or two values and insert them two
    /// slots (in category units) further down.
    pub fn dup2_x2(&mut self) -> (r: Result<(), VmError>)
        ensures
            *final(self) == (Thread { operand_stack: final(self).operand_stack, ..*old(self) }),
            match r {
                Ok(_) => old(self).operand_stack@.len() >= 2,
                Err(e) => e == VmError::StackUnderflow || e == VmError::InvalidType,
            },
    {
        let v1 = self.pop()?;
        if v1.is_cat_2() {
            let v2 = self.pop()?;
            if v2.is_cat_2() {
                // One category-2 value inserted below one category-2 value.
                self.operand_stack.push(v1);
                self.operand_stack.push(v2);
                self.operand_stack.push(v1);
                Ok(())
            } else {
                let v3 = self.pop()?;
                if v3.is_cat_2() {
                    return Err(VmError::InvalidType);
                }
                self.operand_stack.push(v1);
                self.operand_stack.push(v3);
                self.operand_stack.push(v2);
                self.operand_stack.push(v1);
                Ok(())
            }
        } else {
            let v2 = self.pop()?;
            if v2.is_cat_2() {
                return Err(VmError::InvalidType);
            }
            let v3 = self.pop()?;
            if v3.is_cat_2() {
                self.operand_stack.push(v2);
                self.operand_stack.push(v1);
                self.operand_stack.push(v3);
                self.operand_stack.push(v2);
                self.operand_stack.push(v1);
                Ok(())
            } else {
                let v4 = self.pop()?;
                if v4.is_cat_2() {
                    return Err(VmError::InvalidType);
                }
                self.operand_stack.push(v2);
                self.operand_stack.push(v1);
                self.operand_stack.push(v4);
                self.operand_stack.push(v3);
                self.operand_stack.push(v2);
                self.operand_stack.push(v1);
                Ok(())
            }
        }
    }

    /// `swap`: exchange the top two category-1 values.
    pub fn swap_top(&mut self) -> (r: Result<(), VmError>)
        ensures
            *final(self) == (Thread { operand_stack: final(self).operand_stack, ..*old(self) }),
            match r {
                Ok(_) => {
                    let s = old(self).operand_stack@;
                    let n = s.len() as int;
                    &&& s.len() >= 2
                    &&& final(self).operand_stack@ == s.take(n - 2) + seq![s[n - 1], s[n - 2]]
                },
                Err(e) => e == VmError::StackUnderflow,
            },
    {
        let v1 = self.pop()?;
        let v2 = self.pop()?;
        self.operand_stack.push(v1);
        self.operand_stack.push(v2);
        proof {
            let s = old(self).operand_stack@;
            assert(self.operand_stack@ =~= s.take(s.len() - 2) + seq![s[s.len() - 1], s[s.len()
                - 2]]);
        }
        Ok(())
    }
}

} // verus!

verus! {

impl Thread {
    /// Push a value.
    fn push_val(&mut self, v: Value)
        ensures
            *final(self) == (Thread { operand_stack: final(self).operand_stack, ..*old(self) }),
            final(self).operand_stack@ == old(self).operand_stack@.push(v),
    {
        self.operand_stack.push(v);
    }

    /// Load the local at `idx` onto the operand stack.
    fn load_local(&mut self, idx: usize) -> (r: Result<(), VmError>)
        ensures
            *final(self) == (Thread { operand_stack: final(self).operand_stack, ..*old(self) }),
            match r {
                Ok(_) => {
                    &&& idx < old(self).locals@.len()
                    &&& old(self).locals@[idx as int] is Some
                    &&& final(self).operand_stack@ == old(self).operand_stack@.push(
                        old(self).locals@[idx as int].unwrap(),
                    )
                },
                Err(_) => true,
            },
    {
        if idx >= self.locals.len() {
            return Err(VmError::InvalidType);
        }
        match self.locals[idx] {
            Some(v) => {
                self.operand_stack.push(v);
                Ok(())
            },
            None => Err(VmError::InvalidType),
        }
    }

    /// Pop into the local at `idx`.
    fn store_local(&mut self, idx: usize) -> (r: Result<(), VmError>)
        ensures
            *final(self) == (Thread {
                operand_stack: final(self).operand_stack,
                locals: final(self).locals,
                ..*old(self)
            }),
            match r {
                Ok(_) => {
                    &&& idx < old(self).locals@.len()
                    &&& old(self).operand_stack@.len() > 0
                    &&& final(self).operand_stack@ == old(self).operand_stack@.drop_last()
                    &&& final(self).locals@ == old(self).locals@.update(
                        idx as int,
                        Some(old(self).operand_stack@.last()),
                    )
                },
                Err(_) => true,
            },
    {
        if idx >= self.locals.len() {
            return Err(VmError::InvalidType);
        }
        let v = self.pop()?;
        self.locals[idx] = Some(v);
        Ok(())
    }

    /// Constants, local access and stack plumbing: opcodes 0 through 95
    /// except the `ldc` family and array access.
    fn step_stack(&mut self, opcode: u8) -> (r: Result<(), VmError>)
        ensures
            *final(self) == (Thread {
                operand_stack: final(self).operand_stack,
                locals: final(self).locals,
                pc: final(self).pc,
                ..*old(self)
            }),
            opcode == 87 && old(self).operand_stack@.len() == 0 ==> r == Err::<(), VmError>(
                VmError::StackUnderflow,
            ),
            opcode == 89 && old(self).operand_stack@.len() >= 1 ==> r is Ok
                && final(self).operand_stack@ == old(self).operand_stack@.push(
                old(self).operand_stack@.last(),
            ),
            // dup_x2 inserts the top value below one category-2 value or two
            // category-1 values.
            opcode == 91 ==> ({
                let s = old(self).operand_stack@;
                let n = s.len() as int;
                &&& (s.len() >= 2 && is_cat2(s[n - 2]) ==> r is Ok && final(self).operand_stack@
                    == s.take(n - 2) + seq![s[n - 1], s[n - 2], s[n - 1]])
                &&& (s.len() >= 3 && !is_cat2(s[n - 2]) ==> r is Ok && final(self).operand_stack@
                    == s.take(n - 3) + seq![s[n - 1], s[n - 3], s[n - 2], s[n - 1]])
            }),
    {
        match opcode {
            0u8 => Ok(()),
            1u8 => {
                self.push_val(Value::Object(None));
                Ok(())
            },
            2u8 => {
                self.push_val(Value::Int(-1));
                Ok(())
            },
            3u8 => {
                self.push_val(Value::Int(0));
                Ok(())
            },
            4u8 => {
                self.push_val(Value::Int(1));
                Ok(())
            },
            5u8 => {
                self.push_val(Value::Int(2));
                Ok(())
            },
            6u8 => {
                self.push_val(Value::Int(3));
                Ok(())
            },
            7u8 => {
                self.push_val(Value::Int(4));
                Ok(())
            },
            8u8 => {
                self.push_val(Value::Int(5));
                Ok(())
            },
            9u8 => {
                self.push_val(Value::Long(0));
                Ok(())
            },
            10u8 => {
                self.push_val(Value::Long(1));
                Ok(())
            },
            // Floating constants are their IEEE 754 bit patterns.
            11u8 => {
                self.push_val(Value::Float(0));
                Ok(())
            },
            12u8 => {
                self.push_val(Value::Float(0x3F80_0000));
                Ok(())
            },
            13u8 => {
                self.push_val(Value::Float(0x4000_0000));
                Ok(())
            },
            14u8 => {
                self.push_val(Value::Double(0));
                Ok(())
            },
            15u8 => {
                self.push_val(Value::Double(0x3FF0_0000_0000_0000));
                Ok(())
            },
            16u8 => {
                let b = self.read_ins()?;
                self.push_val(Value::Int((#[verifier::truncate] (b as i8)) as i32));
                Ok(())
            },
            17u8 => {
                let s = self.read_u16()?;
                self.push_val(Value::Int((#[verifier::truncate] (s as i16)) as i32));
                Ok(())
            },
            21u8 | 22u8 | 23u8 | 24u8 | 25u8 => {
                let idx = self.read_ins()?;
                self.load_local(idx as usize)
            },
            26u8 | 30u8 | 34u8 | 38u8 | 42u8 => self.load_local(0),
            27u8 | 31u8 | 35u8 | 39u8 | 43u8 => self.load_local(1),
            28u8 | 32u8 | 36u8 | 40u8 | 44u8 => self.load_local(2),
            29u8 | 33u8 | 37u8 | 41u8 | 45u8 => self.load_local(3),
            54u8 | 55u8 | 56u8 | 57u8 | 58u8 => {
                let idx = self.read_ins()?;
                self.store_local(idx as usize)
            },
            59u8 | 63u8 | 67u8 | 71u8 | 75u8 => self.store_local(0),
            60u8 | 64u8 | 68u8 | 72u8 | 76u8 => self.store_local(1),
            61u8 | 65u8 | 69u8 | 73u8 | 77u8 => self.store_local(2),
            62u8 | 66u8 | 70u8 | 74u8 | 78u8 => self.store_local(3),
            87u8 => {
                let _ = self.pop()?;
                Ok(())
            },
            89u8 => self.dup(),
            90u8 => self.dup_x1(),
            91u8 => self.dup_x2(),
            92u8 => self.dup2(),
            93u8 => self.dup2_x1(),
            94u8 => self.dup2_x2(),
            95u8 => self.swap_top(),
            _ => Err(VmError::Unsupported),
        }
    }

    /// Arithmetic, conversions and comparisons: opcodes 96 through 152
    /// except `iinc`.
    fn step_arith(&mut self, opcode: u8) -> (r: Result<(), VmError>)
        ensures
            *final(self) == (Thread { operand_stack: final(self).operand_stack, ..*old(self) }),
            // Integer division by a zero divisor raises the arithmetic
            // error, for both widths and for the remainder forms.
            ({
                let s = old(self).operand_stack@;
                (opcode == 108 || opcode == 112) && s.len() >= 2 && s.last() == Value::Int(0)
                    && s[s.len() - 2] is Int ==> r == Err::<(), VmError>(
                    VmError::ArithmeticException,
                )
            }),
            ({
                let s = old(self).operand_stack@;
                (opcode == 109 || opcode == 113) && s.len() >= 2 && s.last() == Value::Long(0)
                    && s[s.len() - 2] is Long ==> r == Err::<(), VmError>(
                    VmError::ArithmeticException,
                )
            }),
            // iadd wraps.
            opcode == 96 ==> ({
                let s = old(self).operand_stack@;
                s.len() >= 2 ==> match (s[s.len() - 2], s.last()) {
                    (Value::Int(a), Value::Int(b)) => r is Ok && final(self).operand_stack@
                        == s.drop_last().drop_last().push(
                        Value::Int(i32_specs::wrapping_add(a, b)),
                    ),
                    _ => true,
                }
            }),
            // i2c masks to 16 bits.
            opcode == 146 ==> ({
                let s = old(self).operand_stack@;
                s.len() >= 1 ==> match s.last() {
                    Value::Int(v) => r is Ok && final(self).operand_stack@ == s.drop_last().push(
                        Value::Int(v & 0xFFFF),
                    ),
                    _ => true,
                }
            }),
    {
        match opcode {
            96u8 | 97u8 | 98u8 | 99u8 => {
                let rhs = self.pop()?;
                let lhs = self.pop()?;
                let v = lhs.add_val(rhs)?;
                self.push_val(v);
                Ok(())
            },
            100u8 | 101u8 | 102u8 | 103u8 => {
                let rhs = self.pop()?;
                let lhs = self.pop()?;
                let v = lhs.sub_val(rhs)?;
                self.push_val(v);
                Ok(())
            },
            104u8 | 105u8 | 106u8 | 107u8 => {
                let rhs = self.pop()?;
                let lhs = self.pop()?;
                let v = lhs.mul_val(rhs)?;
                self.push_val(v);
                Ok(())
            },
            108u8 | 109u8 | 110u8 | 111u8 => {
                let rhs = self.pop()?;
                let lhs = self.pop()?;
                let v = lhs.div_val(rhs)?;
                self.push_val(v);
                Ok(())
            },
            112u8 | 113u8 | 114u8 | 115u8 => {
                let rhs = self.pop()?;
                let lhs = self.pop()?;
                let v = lhs.rem_val(rhs)?;
                self.push_val(v);
                Ok(())
            },
            116u8 | 117u8 | 118u8 | 119u8 => {
                let v = self.pop()?;
                let n = v.neg_val()?;
                self.push_val(n);
                Ok(())
            },
            120u8 | 121u8 => {
                let rhs = self.pop()?;
                let lhs = self.pop()?;
                let v = lhs.shl_val(rhs)?;
                self.push_val(v);
                Ok(())
            },
            122u8 | 123u8 => {
                let rhs = self.pop()?;
                let lhs = self.pop()?;
                let v = lhs.shr_val(rhs)?;
                self.push_val(v);
                Ok(())
            },
            124u8 | 125u8 => {
                let rhs = self.pop()?;
                let lhs = self.pop()?;
                let v = lhs.ushr(rhs)?;
                self.push_val(v);
                Ok(())
            },
            126u8 | 127u8 => {
                let rhs = self.pop()?;
                let lhs = self.pop()?;
                let v = lhs.and_val(rhs)?;
                self.push_val(v);
                Ok(())
            },
            128u8 | 129u8 => {
                let rhs = self.pop()?;
                let lhs = self.pop()?;
                let v = lhs.or_val(rhs)?;
                self.push_val(v);
                Ok(())
            },
            130u8 | 131u8 => {
                let rhs = self.pop()?;
                let lhs = self.pop()?;
                let v = lhs.xor_val(rhs)?;
                self.push_val(v);
                Ok(())
            },
            133u8 => {
                // i2l
                match self.pop()? {
                    Value::Int(v) => {
                        self.push_val(Value::Long(v as i64));
                        Ok(())
                    },
                    _ => Err(VmError::InvalidType),
                }
            },
            134u8 => {
                // i2f
                match self.pop()? {
                    Value::Int(v) => {
                        self.push_val(Value::Float(f32_of_long(v as i64)));
                        Ok(())
                    },
                    _ => Err(VmError::InvalidType),
                }
            },
            135u8 => {
                // i2d
                match self.pop()? {
                    Value::Int(v) => {
                        self.push_val(Value::Double(f64_of_long(v as i64)));
                        Ok(())
                    },
                    _ => Err(VmError::InvalidType),
                }
            },
            136u8 => {
                // l2i
                match self.pop()? {
                    Value::Long(v) => {
                        self.push_val(Value::Int(#[verifier::truncate] (v as i32)));
                        Ok(())
                    },
                    _ => Err(VmError::InvalidType),
                }
            },
            137u8 => {
                // l2f
                match self.pop()? {
                    Value::Long(v) => {
                        self.push_val(Value::Float(f32_of_long(v)));
                        Ok(())
                    },
                    _ => Err(VmError::InvalidType),
                }
            },
            138u8 => {
                // l2d
                match self.pop()? {
                    Value::Long(v) => {
                        self.push_val(Value::Double(f64_of_long(v)));
                        Ok(())
                    },
                    _ => Err(VmError::InvalidType),
                }
            },
            139u8 => {
                // f2i
                match self.pop()? {
                    Value::Float(b) => {
                        let v = f32_to_int(b, 32);
                        self.push_val(Value::Int(v as i32));
                        Ok(())
                    },
                    _ => Err(VmError::InvalidType),
                }
            },
            140u8 => {
                // f2l
                match self.pop()? {
                    Value::Float(b) => {
                        self.push_val(Value::Long(f32_to_int(b, 64)));
                        Ok(())
                    },
                    _ => Err(VmError::InvalidType),
                }
            },
            141u8 => {
                // f2d
                match self.pop()? {
                    Value::Float(b) => {
                        self.push_val(Value::Double(f32_to_f64(b)));
                        Ok(())
                    },
                    _ => Err(VmError::InvalidType),
                }
            },
            142u8 => {
                // d2i
                match self.pop()? {
                    Value::Double(b) => {
                        let v = f64_to_int(b, 32);
                        self.push_val(Value::Int(v as i32));
                        Ok(())
                    },
                    _ => Err(VmError::InvalidType),
                }
            },
            143u8 => {
                // d2l
                match self.pop()? {
                    Value::Double(b) => {
                        self.push_val(Value::Long(f64_to_int(b, 64)));
                        Ok(())
                    },
                    _ => Err(VmError::InvalidType),
                }
            },
            144u8 => {
                // d2f
                match self.pop()? {
                    Value::Double(b) => {
                        self.push_val(Value::Float(f64_to_f32(b)));
                        Ok(())
                    },
                    _ => Err(VmError::InvalidType),
                }
            },
            145u8 => {
                // i2b
                match self.pop()? {
                    Value::Int(v) => {
                        self.push_val(
                            Value::Int((#[verifier::truncate] (v as i8)) as i32),
                        );
                        Ok(())
                    },
                    _ => Err(VmError::InvalidType),
                }
            },
            146u8 => {
                // i2c masks to 16 bits
                match self.pop()? {
                    Value::Int(v) => {
                        self.push_val(Value::Int(v & 0xFFFF));
                        Ok(())
                    },
                    _ => Err(VmError::InvalidType),
                }
            },
            147u8 => {
                // i2s
                match self.pop()? {
                    Value::Int(v) => {
                        self.push_val(
                            Value::Int((#[verifier::truncate] (v as i16)) as i32),
                        );
                        Ok(())
                    },
                    _ => Err(VmError::InvalidType),
                }
            },
            148u8 => {
                // lcmp
                let v2 = self.pop()?;
                let v1 = self.pop()?;
                match (v1, v2) {
                    (Value::Long(a), Value::Long(b)) => {
                        let res: i32 = if a > b {
                            1
                        } else if a == b {
                            0
                        } else {
                            -1
                        };
                        self.push_val(Value::Int(res));
                        Ok(())
                    },
                    _ => Err(VmError::InvalidType),
                }
            },
            149u8 | 150u8 => {
                // fcmpl, fcmpg: NaN biases toward -1 and 1 respectively
                let v2 = self.pop()?;
                let v1 = self.pop()?;
                match (v1, v2) {
                    (Value::Float(a), Value::Float(b)) => {
                        let c = f32_cmp(a, b);
                        let res: i32 = if c == 2 {
                            if opcode == 149 {
                                -1
                            } else {
                                1
                            }
                        } else {
                            c
                        };
                        self.push_val(Value::Int(res));
                        Ok(())
                    },
                    _ => Err(VmError::InvalidType),
                }
            },
            151u8 | 152u8 => {
                // dcmpl, dcmpg
                let v2 = self.pop()?;
                let v1 = self.pop()?;
                match (v1, v2) {
                    (Value::Double(a), Value::Double(b)) => {
                        let c = f64_cmp(a, b);
                        let res: i32 = if c == 2 {
                            if opcode == 151 {
                                -1
                            } else {
                                1
                            }
                        } else {
                            c
                        };
                        self.push_val(Value::Int(res));
                        Ok(())
                    },
                    _ => Err(VmError::InvalidType),
                }
            },
            _ => Err(VmError::Unsupported),
        }
    }

    /// Array loads and stores, and `arraylength`.
    fn step_array(&mut self, opcode: u8, heap: &mut Heap) -> (r: Result<(), VmError>)
        requires
            old(heap).len_wf(),
        ensures
            *final(self) == (Thread { operand_stack: final(self).operand_stack, ..*old(self) }),
            final(heap).len_wf(),
            forall|gma: MethodArea| old(heap).wf(gma) ==> final(heap).wf(gma),
            final(heap).allocs@.len() == old(heap).allocs@.len(),
    {
        match opcode {
            46u8 | 47u8 | 48u8 | 49u8 | 50u8 => {
                // iaload..aaload
                let idx = match self.pop()? {
                    Value::Int(i) => i,
                    _ => {
                        return Err(VmError::InvalidType);
                    },
                };
                let arr = match self.pop()? {
                    Value::Array(Some(a)) => a,
                    Value::Array(None) | Value::Object(None) => {
                        return Err(VmError::NullPointerException);
                    },
                    _ => {
                        return Err(VmError::InvalidType);
                    },
                };
                if idx < 0 {
                    return Err(VmError::ArrayIndexOutOfBounds);
                }
                let v = heap.load_arr_elem(arr, idx as usize)?;
                self.push_val(v);
                Ok(())
            },
            51u8 | 52u8 | 53u8 => {
                // baload, caload, saload widen to Int
                let idx = match self.pop()? {
                    Value::Int(i) => i,
                    _ => {
                        return Err(VmError::InvalidType);
                    },
                };
                let arr = match self.pop()? {
                    Value::Array(Some(a)) => a,
                    Value::Array(None) | Value::Object(None) => {
                        return Err(VmError::NullPointerException);
                    },
                    _ => {
                        return Err(VmError::InvalidType);
                    },
                };
                if idx < 0 {
                    return Err(VmError::ArrayIndexOutOfBounds);
                }
                let v = heap.load_arr_elem(arr, idx as usize)?;
                self.push_val(v.extend_32());
                Ok(())
            },
            79u8 | 80u8 | 81u8 | 82u8 | 83u8 | 84u8 | 85u8 | 86u8 => {
                // iastore..sastore; the store narrows by the element type
                let val = self.pop()?;
                let idx = match self.pop()? {
                    Value::Int(i) => i,
                    _ => {
                        return Err(VmError::InvalidType);
                    },
                };
                let arr = match self.pop()? {
                    Value::Array(Some(a)) => a,
                    Value::Array(None) | Value::Object(None) => {
                        return Err(VmError::NullPointerException);
                    },
                    _ => {
                        return Err(VmError::InvalidType);
                    },
                };
                if idx < 0 {
                    return Err(VmError::ArrayIndexOutOfBounds);
                }
                heap.store_arr_elem(arr, idx as usize, val)?;
                Ok(())
            },
            190u8 => {
                let arr = match self.pop()? {
                    Value::Array(Some(a)) => a,
                    Value::Array(None) | Value::Object(None) => {
                        return Err(VmError::NullPointerException);
                    },
                    _ => {
                        return Err(VmError::InvalidType);
                    },
                };
                let n = heap.arr_len(arr)?;
                if n > i32::MAX as usize {
                    return Err(VmError::OutOfMemory);
                }
                self.push_val(Value::Int(n as i32));
                Ok(())
            },
            _ => Err(VmError::Unsupported),
        }
    }

    /// Conditional and unconditional branches, and the two switches.
    fn step_branch(&mut self, opcode: u8, cur_pc: usize) -> (r: Result<(), VmError>)
        ensures
            *final(self) == (Thread {
                operand_stack: final(self).operand_stack,
                pc: final(self).pc,
                ..*old(self)
            }),
    {
        match opcode {
            153u8 | 154u8 | 155u8 | 156u8 | 157u8 | 158u8 => {
                let v = match self.pop()? {
                    Value::Int(v) => v,
                    _ => {
                        return Err(VmError::InvalidType);
                    },
                };
                let cond = match opcode {
                    153u8 => v == 0,
                    154u8 => v != 0,
                    155u8 => v < 0,
                    156u8 => v >= 0,
                    157u8 => v > 0,
                    _ => v <= 0,
                };
                self.br_if(cur_pc, cond)
            },
            159u8 | 160u8 | 161u8 | 162u8 | 163u8 | 164u8 => {
                let rhs = match self.pop()? {
                    Value::Int(v) => v,
                    _ => {
                        return Err(VmError::InvalidType);
                    },
                };
                let lhs = match self.pop()? {
                    Value::Int(v) => v,
                    _ => {
                        return Err(VmError::InvalidType);
                    },
                };
                let cond = match opcode {
                    159u8 => lhs == rhs,
                    160u8 => lhs != rhs,
                    161u8 => lhs < rhs,
                    162u8 => lhs >= rhs,
                    163u8 => lhs > rhs,
                    _ => lhs <= rhs,
                };
                self.br_if(cur_pc, cond)
            },
            165u8 | 166u8 => {
                let rhs = self.pop()?;
                let lhs = self.pop()?;
                let rr = match rhs {
                    Value::Object(o) => o,
                    Value::Array(a) => match a {
                        Some(x) => Some(x.cast_to_object()),
                        None => None,
                    },
                    _ => {
                        return Err(VmError::InvalidType);
                    },
                };
                let lr = match lhs {
                    Value::Object(o) => o,
                    Value::Array(a) => match a {
                        Some(x) => Some(x.cast_to_object()),
                        None => None,
                    },
                    _ => {
                        return Err(VmError::InvalidType);
                    },
                };
                let same = match (lr, rr) {
                    (Some(a), Some(b)) => a.0 == b.0,
                    (None, None) => true,
                    _ => false,
                };
                let cond = if opcode == 165 {
                    same
                } else {
                    !same
                };
                self.br_if(cur_pc, cond)
            },
            167u8 => self.br_if(cur_pc, true),
            170u8 => {
                // tableswitch
                let idx = match self.pop()? {
                    Value::Int(v) => v,
                    _ => {
                        return Err(VmError::InvalidType);
                    },
                };
                self.pad_to_int()?;
                let default = self.read_i32()?;
                let low = self.read_i32()?;
                let high = self.read_i32()?;
                if low > high {
                    return Err(VmError::ClassFormatError);
                }
                let offset: i32 = if idx < low || idx > high {
                    default
                } else {
                    let slot: i128 = idx as i128 - low as i128;
                    let skip: i128 = slot * 4;
                    if skip < 0 || skip > usize::MAX as i128 - self.pc as i128 {
                        return Err(VmError::ClassFormatError);
                    }
                    self.pc = self.pc + skip as usize;
                    self.read_i32()?
                };
                let target: i128 = cur_pc as i128 + offset as i128;
                if target < 0 || target > self.code.code.len() as i128 {
                    return Err(VmError::ClassFormatError);
                }
                self.pc = target as usize;
                Ok(())
            },
            171u8 => {
                // lookupswitch
                let key = match self.pop()? {
                    Value::Int(v) => v,
                    _ => {
                        return Err(VmError::InvalidType);
                    },
                };
                self.pad_to_int()?;
                let default = self.read_i32()?;
                let num_pairs = self.read_i32()?;
                if num_pairs < 0 {
                    return Err(VmError::ClassFormatError);
                }
                let mut offset: i32 = default;
                let mut matched: bool = false;
                let mut k: i32 = 0;
                let ghost snap = *self;
                while k < num_pairs
                    invariant
                        0 <= k <= num_pairs,
                        snap.method == old(self).method,
                        snap.code == old(self).code,
                        snap.locals == old(self).locals,
                        snap.stack_frames == old(self).stack_frames,
                        self.method == snap.method,
                        self.code == snap.code,
                        self.locals == snap.locals,
                        self.stack_frames == snap.stack_frames,
                        self.operand_stack == snap.operand_stack,
                    decreases num_pairs - k,
                {
                    let m = self.read_i32()?;
                    let off = self.read_i32()?;
                    if !matched && key == m {
                        offset = off;
                        matched = true;
                    }
                    k = k + 1;
                }
                let target: i128 = cur_pc as i128 + offset as i128;
                if target < 0 || target > self.code.code.len() as i128 {
                    return Err(VmError::ClassFormatError);
                }
                self.pc = target as usize;
                Ok(())
            },
            198u8 | 199u8 => {
                let v = self.pop()?;
                let is_some = match v {
                    Value::Object(o) => o.is_some(),
                    Value::Array(a) => a.is_some(),
                    _ => {
                        return Err(VmError::InvalidType);
                    },
                };
                let cond = if opcode == 198 {
                    !is_some
                } else {
                    is_some
                };
                self.br_if(cur_pc, cond)
            },
            _ => Err(VmError::Unsupported),
        }
    }
}

} // verus!

verus! {

impl Thread {
    /// Load a constant-pool literal: an integer, float, long or double
    /// constant, an interned string (materialized on the heap), or a class
    /// mirror.
    pub fn ldc(&mut self, ma: &mut MethodArea, heap: &mut Heap, cp_idx: u16) -> (r: Result<
        (),
        VmError,
    >)
        requires
            old(ma).wf(),
            old(heap).wf(*old(ma)),
            old(self).wf(*old(ma)),
        ensures
            final(ma).wf(),
            final(heap).wf(*final(ma)),
            ma_evolves(*old(ma), *final(ma)),
            final(self).wf(*final(ma)),
            final(self).method == old(self).method,
            final(self).code == old(self).code,
            final(self).pc == old(self).pc,
            final(self).stack_frames@ == old(self).stack_frames@,
            ({
                let cid = old(ma).methods@[old(self).method.0 as int].defining_class;
                let tbl = old(ma).classes@[cid.0 as int].constant_pool.table@;
                (1 <= cp_idx <= tbl.len() && match tbl[cp_idx - 1] {
                    CPInfo::Integer { .. } => true,
                    CPInfo::Float { .. } => true,
                    CPInfo::Long { .. } => true,
                    CPInfo::Double { .. } => true,
                    _ => false,
                }) ==> r is Ok
            }),
            r is Ok ==> ({
                let cid = old(ma).methods@[old(self).method.0 as int].defining_class;
                let tbl = old(ma).classes@[cid.0 as int].constant_pool.table@;
                1 <= cp_idx <= tbl.len() ==> match tbl[cp_idx - 1] {
                    CPInfo::Integer { val } => final(self).operand_stack@ == old(
                        self,
                    ).operand_stack@.push(Value::Int(val)),
                    CPInfo::Float { bits } => final(self).operand_stack@ == old(
                        self,
                    ).operand_stack@.push(Value::Float(bits)),
                    CPInfo::Long { val } => final(self).operand_stack@ == old(
                        self,
                    ).operand_stack@.push(Value::Long(val)),
                    CPInfo::Double { bits } => final(self).operand_stack@ == old(
                        self,
                    ).operand_stack@.push(Value::Double(bits)),
                    CPInfo::Str { string_index } => final(self).operand_stack@.len() == old(
                        self,
                    ).operand_stack@.len() + 1 && match final(self).operand_stack@.last() {
                        Value::Object(o) => match o {
                            Some(obj) => 1 <= string_index <= tbl.len() && match tbl[string_index
                                - 1] {
                                CPInfo::Utf8 { bytes, .. } => crate::heap::built_string_of_utf8(
                                    *final(heap),
                                    *final(ma),
                                    obj,
                                    bytes@,
                                ),
                                _ => false,
                            },
                            None => false,
                        },
                        _ => false,
                    },
                    _ => true,
                }
            }),
    {
        let class_id = self.class_id(ma);
        if cp_idx == 0 || (cp_idx as usize) > ma.classes[class_id.0].constant_pool.table.len() {
            proof {
                crate::method_area::lemma_evolves_from_prefix(*old(ma), *ma);
            }
            return Err(VmError::ClassFormatError);
        }
        let entry_kind: u8 = match &ma.classes[class_id.0].constant_pool.table[(cp_idx - 1) as usize] {
            CPInfo::Integer { .. } => 1,
            CPInfo::Float { .. } => 2,
            CPInfo::Long { .. } => 3,
            CPInfo::Double { .. } => 4,
            CPInfo::Str { .. } => 5,
            CPInfo::Class { .. } => 6,
            _ => 0,
        };
        match entry_kind {
            1u8 => {
                let v = match &ma.classes[class_id.0].constant_pool.table[(cp_idx - 1) as usize] {
                    CPInfo::Integer { val } => *val,
                    _ => 0,
                };
                self.push_val(Value::Int(v));
                proof {
                    crate::method_area::lemma_evolves_from_prefix(*old(ma), *ma);
                }
                Ok(())
            },
            2u8 => {
                let v = match &ma.classes[class_id.0].constant_pool.table[(cp_idx - 1) as usize] {
                    CPInfo::Float { bits } => *bits,
                    _ => 0,
                };
                self.push_val(Value::Float(v));
                proof {
                    crate::method_area::lemma_evolves_from_prefix(*old(ma), *ma);
                }
                Ok(())
            },
            3u8 => {
                let v = match &ma.classes[class_id.0].constant_pool.table[(cp_idx - 1) as usize] {
                    CPInfo::Long { val } => *val,
                    _ => 0,
                };
                self.push_val(Value::Long(v));
                proof {
                    crate::method_area::lemma_evolves_from_prefix(*old(ma), *ma);
                }
                Ok(())
            },
            4u8 => {
                let v = match &ma.classes[class_id.0].constant_pool.table[(cp_idx - 1) as usize] {
                    CPInfo::Double { bits } => *bits,
                    _ => 0,
                };
                self.push_val(Value::Double(v));
                proof {
                    crate::method_area::lemma_evolves_from_prefix(*old(ma), *ma);
                }
                Ok(())
            },
            5u8 => {
                let string_index = match &ma.classes[class_id.0].constant_pool.table[(cp_idx
                    - 1) as usize] {
                    CPInfo::Str { string_index } => *string_index,
                    _ => 0,
                };
                let text = ma.classes[class_id.0].constant_pool.utf8(string_index)?;
                let obj = heap.create_string(ma, text.as_str())?;
                self.push_val(Value::Object(Some(obj)));
                proof {
                    crate::method_area::lemma_evolves_from_prefix(*old(ma), *ma);
                    assert(crate::heap::built_string(*heap, *ma, obj, text@));
                    assert(crate::heap::built_string_of_utf8(
                        *heap,
                        *ma,
                        obj,
                        vstd::utf8::encode_utf8(text@),
                    ));
                }
                Ok(())
            },
            6u8 => {
                let ghost m0 = *ma;
                let c = Class::class_reference(ma, class_id, cp_idx)?;
                proof {
                    lemma_step_frame(m0, *ma, *heap, class_id.0 as int);
                }
                let ghost m1 = *ma;
                let obj = match Class::obj(ma, heap, c) {
                    Ok(o) => o,
                    Err(e) => {
                        proof {
                            crate::method_area::lemma_evolves_from_class_update(
                                m1,
                                *ma,
                                c.0 as int,
                            );
                            crate::method_area::lemma_evolves_trans(m0, m1, *ma);
                        }
                        return Err(e);
                    },
                };
                self.push_val(Value::Object(Some(obj)));
                proof {
                    crate::method_area::lemma_evolves_from_class_update(m1, *ma, c.0 as int);
                    crate::method_area::lemma_evolves_trans(m0, m1, *ma);
                }
                Ok(())
            },
            _ => {
                proof {
                    crate::method_area::lemma_evolves_from_prefix(*old(ma), *ma);
                }
                Err(VmError::Unsupported)
            },
        }
    }

    /// Method selection for `invokevirtual` and `invokeinterface`: from the
    /// receiver's class, the first override of the declared method's name
    /// and descriptor on the super-class chain, or the declared method
    /// itself.
    pub fn select_method(&self, ma: &MethodArea, heap: &Heap, method_id: MethodId) -> (r: Result<
        MethodId,
        VmError,
    >)
        requires
            ma.wf(),
            heap.wf(*ma),
            method_id.0 < ma.methods@.len(),
        ensures
            r == Err::<MethodId, VmError>(VmError::StackUnderflow) <==> self.operand_stack@.len()
                <= ma.methods@[method_id.0 as int].descriptor.0@.len(),
            r == Err::<MethodId, VmError>(VmError::NullPointerException) <==> ({
                let np = ma.methods@[method_id.0 as int].descriptor.0@.len() as int;
                let stack = self.operand_stack@;
                stack.len() > np && match stack[stack.len() - 1 - np] {
                    Value::Object(o) => o is None,
                    Value::Array(a) => a is None,
                    _ => false,
                }
            }),
            // A live non-null receiver always selects: an override if the
            // chain has one, the declared method otherwise.
            ({
                let np = ma.methods@[method_id.0 as int].descriptor.0@.len() as int;
                let stack = self.operand_stack@;
                stack.len() > np && (match stack[stack.len() - 1 - np] {
                    Value::Object(o) => match o {
                        Some(x) => x.0 < heap.allocs@.len(),
                        None => false,
                    },
                    Value::Array(a) => match a {
                        Some(x) => x.0 < heap.allocs@.len(),
                        None => false,
                    },
                    _ => false,
                }) ==> r is Ok
            }),
            match r {
                Ok(m) => {
                    &&& m.0 < ma.methods@.len()
                    &&& ({
                        let np = ma.methods@[method_id.0 as int].descriptor.0@.len() as int;
                        let stack = self.operand_stack@;
                        &&& stack.len() > np
                        &&& ({
                            let receiver_idx = match stack[stack.len() - 1 - np] {
                                Value::Object(o) => match o {
                                    Some(x) => x.0 as int,
                                    None => -1,
                                },
                                Value::Array(a) => match a {
                                    Some(x) => x.0 as int,
                                    None => -1,
                                },
                                _ => -1,
                            };
                            &&& 0 <= receiver_idx < heap.allocs@.len()
                            &&& ({
                                let oc = crate::heap::alloc_class(
                                    heap.allocs@[receiver_idx],
                                );
                                match crate::method_area::method_search(
                                    *ma,
                                    oc.0 as int,
                                    ma.methods@[method_id.0 as int].name@,
                                    crate::descriptor::md_chars(
                                        ma.methods@[method_id.0 as int].descriptor,
                                    ),
                                ) {
                                    Some(m2) => m == m2,
                                    None => m == method_id,
                                }
                            })
                        })
                    })
                },
                Err(_) => true,
            },
    {
        let num_params = ma.methods[method_id.0].descriptor.0.len();
        if self.operand_stack.len() <= num_params {
            return Err(VmError::StackUnderflow);
        }
        let receiver_idx = self.operand_stack.len() - num_params - 1;
        let receiver = self.operand_stack[receiver_idx];
        let obj = match receiver {
            Value::Object(Some(o)) => o,
            Value::Array(Some(a)) => a.cast_to_object(),
            Value::Object(None) | Value::Array(None) => {
                return Err(VmError::NullPointerException);
            },
            _ => {
                return Err(VmError::InvalidType);
            },
        };
        let obj_class = heap.get_obj_class(obj)?;
        proof {
            assert(crate::heap::alloc_wf(heap.allocs@[obj.0 as int], *ma));
        }
        let name = ma.methods[method_id.0].name.clone();
        match ma.resolve_method(obj_class, name.as_str(), &ma.methods[method_id.0].descriptor) {
            Ok(m) => Ok(m),
            Err(_) => Ok(method_id),
        }
    }

    /// The initialization interlock: if the class is not yet marked
    /// initialized, mark it first (so a re-entrant reference does not run
    /// the initializer again) and then execute its `<clinit>` if it has
    /// one.  A class that is already marked is left untouched, and nothing
    /// ever clears the mark: the initializer runs at most once per class.
    pub fn ensure_initialized(
        &mut self,
        ma: &mut MethodArea,
        heap: &mut Heap,
        host: &HostContext,
        class_id: ClassId,
        fuel: u64,
    ) -> (r: Result<(), VmError>)
        requires
            old(ma).wf(),
            old(heap).wf(*old(ma)),
            old(self).wf(*old(ma)),
            class_id.0 < old(ma).classes@.len(),
        ensures
            final(ma).wf(),
            final(heap).wf(*final(ma)),
            ma_evolves(*old(ma), *final(ma)),
            final(self).wf(*final(ma)),
            old(ma).classes@[class_id.0 as int].initialized ==> *final(ma) == *old(ma)
                && *final(heap) == *old(heap) && *final(self) == *old(self),
            r is Err ==> !old(ma).classes@[class_id.0 as int].initialized,
            (!old(ma).classes@[class_id.0 as int].initialized && r is Ok && (forall|k: int|
                0 <= k < old(ma).classes@[class_id.0 as int].methods@.len() ==> old(
                    ma,
                ).methods@[(#[trigger] old(ma).classes@[class_id.0 as int].methods@[k]).0 as int].name@
                    != "<clinit>"@)) ==> {
                // With no declared initializer, only the flag changes.
                &&& *final(heap) == *old(heap)
                &&& *final(self) == *old(self)
                &&& final(ma).classes@ == old(ma).classes@.update(
                    class_id.0 as int,
                    (crate::method_area::Class {
                        initialized: true,
                        ..old(ma).classes@[class_id.0 as int]
                    }),
                )
                &&& final(ma).methods@ == old(ma).methods@
                &&& final(ma).fields@ == old(ma).fields@
                &&& final(ma).class_objs@ == old(ma).class_objs@
                &&& final(ma).primitive_classes@ == old(ma).primitive_classes@
            },
            r is Ok ==> final(ma).classes@[class_id.0 as int].initialized
                && final(self).stack_frames@ == old(self).stack_frames@,
        decreases fuel,
    {
        if ma.classes[class_id.0].initialized {
            proof {
                crate::method_area::lemma_evolves_from_prefix(*old(ma), *ma);
            }
            return Ok(());
        }
        let ghost m0 = *ma;
        ma.classes[class_id.0].initialized = true;
        proof {
            crate::method_area::lemma_wf_after_class_update(m0, *ma, class_id.0 as int);
            crate::method_area::lemma_evolves_from_class_update(m0, *ma, class_id.0 as int);
            assert forall|i: int| 0 <= i < heap.allocs@.len() implies crate::heap::alloc_wf(
                #[trigger] heap.allocs@[i],
                *ma,
            ) by {
                assert(crate::heap::alloc_wf(heap.allocs@[i], m0));
            }
        }
        // Find a declared `<clinit>`.
        let ghost m_set = *ma;
        let n_methods = ma.classes[class_id.0].methods.len();
        let mut clinit: Option<MethodId> = None;
        let mut k: usize = 0;
        while k < n_methods
            invariant
                *ma == m_set,
                *heap == *old(heap),
                *self == *old(self),
                m_set.classes@ == old(ma).classes@.update(
                    class_id.0 as int,
                    (crate::method_area::Class {
                        initialized: true,
                        ..old(ma).classes@[class_id.0 as int]
                    }),
                ),
                m_set.methods@ == old(ma).methods@,
                m_set.fields@ == old(ma).fields@,
                m_set.class_objs@ == old(ma).class_objs@,
                m_set.primitive_classes@ == old(ma).primitive_classes@,
                ma.wf(),
                class_id.0 < ma.classes@.len(),
                n_methods == ma.classes@[class_id.0 as int].methods@.len(),
                clinit matches Some(m) ==> m.0 < ma.methods@.len(),
                clinit matches Some(m) ==> exists|j: int|
                    0 <= j < ma.classes@[class_id.0 as int].methods@.len() && (#[trigger] ma.classes@[class_id.0 as int].methods@[j])
                        == m && ma.methods@[m.0 as int].name@ == "<clinit>"@,
            decreases n_methods - k,
        {
            let m_id = ma.classes[class_id.0].methods[k];
            proof {
                assert(crate::method_area::wf_class_at(*ma, class_id.0 as int));
            }
            if crate::text::str_eq(ma.methods[m_id.0].name.as_str(), "<clinit>") {
                clinit = Some(m_id);
            }
            k = k + 1;
        }
        match clinit {
            Some(m_id) => {
                if fuel == 0 {
                    return Err(VmError::StackOverflow);
                }
                let ghost m1 = *ma;
                let res = self.call_method(ma, heap, host, m_id, (fuel - 1) as u64);
                proof {
                    crate::method_area::lemma_evolves_trans(m0, m1, *ma);
                }
                match res {
                    Ok(_) => {
                        assert(ma.classes@[class_id.0 as int].initialized);
                        Ok(())
                    },
                    Err(e) => Err(e),
                }
            },
            None => Ok(()),
        }
    }

    /// Invoke a method: dispatch a native to the built-in table, or set up
    /// the callee frame (arguments into locals, category-2 values taking
    /// two slots), run the body, restore the caller, and push the returned
    /// value if any.
    pub fn call_method(
        &mut self,
        ma: &mut MethodArea,
        heap: &mut Heap,
        host: &HostContext,
        method_id: MethodId,
        fuel: u64,
    ) -> (r: Result<(), VmError>)
        requires
            old(ma).wf(),
            old(heap).wf(*old(ma)),
            old(self).wf(*old(ma)),
            method_id.0 < old(ma).methods@.len(),
        ensures
            final(ma).wf(),
            final(heap).wf(*final(ma)),
            ma_evolves(*old(ma), *final(ma)),
            final(self).wf(*final(ma)),
            r is Ok ==> final(self).stack_frames@ == old(self).stack_frames@,
            r is Ok && old(ma).methods@[method_id.0 as int].access_flags & ACC_NATIVE == 0 ==> ({
                // The calling convention: the callee consumed its arguments
                // (an implicit receiver counts for a non-static method) and
                // left at most its return value; the caller's position and
                // locals are restored.
                let m = old(ma).methods@[method_id.0 as int];
                let np = m.descriptor.0@.len() + (if m.access_flags & ACC_STATIC == 0 {
                    1int
                } else {
                    0int
                });
                let kept = old(self).operand_stack@.take(
                    old(self).operand_stack@.len() - np,
                );
                &&& np <= old(self).operand_stack@.len()
                &&& final(self).method == old(self).method
                &&& final(self).pc == old(self).pc
                &&& final(self).locals@ == old(self).locals@
                &&& kept.len() <= final(self).operand_stack@.len() <= kept.len() + 1
                &&& final(self).operand_stack@.take(kept.len() as int) == kept
                &&& (m.descriptor.1 is Void ==> final(self).operand_stack@ == kept)
                &&& (!(m.descriptor.1 is Void) ==> final(self).operand_stack@.len() == kept.len()
                    + 1)
            }),
        decreases fuel,
    {
        let is_native = ma.methods[method_id.0].access_flags & ACC_NATIVE != 0;
        let is_static = ma.methods[method_id.0].access_flags & ACC_STATIC != 0;
        if is_native {
            let defining = ma.methods[method_id.0].defining_class;
            let class_name = ma.classes[defining.0].name.clone();
            let method_name = ma.methods[method_id.0].name.clone();
            return self.run_native(ma, heap, host, class_name.as_str(), method_name.as_str());
        }
        let code = match &ma.methods[method_id.0].code {
            Some(c) => c.clone(),
            None => {
                proof {
                    crate::method_area::lemma_evolves_from_prefix(*old(ma), *ma);
                }
                return Err(VmError::NoSuchMethodError);
            },
        };
        let arity = ma.methods[method_id.0].descriptor.0.len();
        if arity >= usize::MAX {
            proof {
                crate::method_area::lemma_evolves_from_prefix(*old(ma), *ma);
            }
            return Err(VmError::StackOverflow);
        }
        let num_params: usize = if is_static {
            arity
        } else {
            arity + 1
        };
        if self.operand_stack.len() < num_params {
            proof {
                crate::method_area::lemma_evolves_from_prefix(*old(ma), *ma);
            }
            return Err(VmError::StackUnderflow);
        }
        let max_locals = code.max_locals as usize;
        let mut callee_locals: Vec<Option<Value>> = Vec::new();
        let mut k: usize = 0;
        while k < max_locals
            invariant
                callee_locals@.len() == k,
                k <= max_locals,
            decreases max_locals - k,
        {
            callee_locals.push(None);
            k = k + 1;
        }
        let stack_len: usize = self.operand_stack.len();
        let start = stack_len - num_params;
        let mut cur_local: usize = 0;
        let mut i: usize = 0;
        while i < num_params
            invariant
                *ma == *old(ma),
                *heap == *old(heap),
                *self == *old(self),
                ma.wf(),
                heap.wf(*ma),
                self.wf(*ma),
                i <= num_params,
                stack_len == self.operand_stack@.len(),
                num_params <= stack_len,
                start == stack_len - num_params,
                callee_locals@.len() == max_locals,
                max_locals <= 65535,
                cur_local <= max_locals + 2,
            decreases num_params - i,
        {
            let val = self.operand_stack[start + i];
            if cur_local >= callee_locals.len() {
                proof {
                    crate::method_area::lemma_evolves_from_prefix(*old(ma), *ma);
                }
                return Err(VmError::ClassFormatError);
            }
            callee_locals[cur_local] = Some(val);
            if val.is_cat_2() {
                cur_local = cur_local + 2;
            } else {
                cur_local = cur_local + 1;
            }
            i = i + 1;
        }
        self.operand_stack.truncate(start);
        let mut caller_stack: Vec<Value> = Vec::new();
        core::mem::swap(&mut caller_stack, &mut self.operand_stack);
        core::mem::swap(&mut callee_locals, &mut self.locals);
        let frame = StackFrame {
            method: self.method,
            return_pc: self.pc,
            operand_stack: caller_stack,
            locals: callee_locals,
        };
        self.stack_frames.push(frame);
        let mut code_slot = code;
        core::mem::swap(&mut code_slot, &mut self.code);
        self.method = method_id;
        self.pc = 0;
        if fuel == 0 {
            return Err(VmError::StackOverflow);
        }
        let res = match self.run(ma, heap, host, (fuel - 1) as u64) {
            Ok(v) => v,
            Err(e) => {
                return Err(e);
            },
        };
        let frame = match self.stack_frames.pop() {
            Some(f) => f,
            None => {
                return Err(VmError::StackUnderflow);
            },
        };
        let caller_code = match &ma.methods[frame.method.0].code {
            Some(c) => c.clone(),
            None => {
                return Err(VmError::NoSuchMethodError);
            },
        };
        self.method = frame.method;
        self.code = caller_code;
        self.pc = frame.return_pc;
        self.operand_stack = frame.operand_stack;
        self.locals = frame.locals;
        proof {
            let m = old(ma).methods@[method_id.0 as int];
            let np = m.descriptor.0@.len() + (if m.access_flags & ACC_STATIC == 0 {
                1int
            } else {
                0int
            });
            assert(self.operand_stack@ =~= old(self).operand_stack@.take(
                old(self).operand_stack@.len() - np,
            ));
        }
        // The returned value must agree with the declared return kind: a
        // void method leaves nothing, any other must have produced a value.
        let is_void = match &ma.methods[method_id.0].descriptor.1 {
            ReturnDescriptor::Void => true,
            _ => false,
        };
        match (is_void, res) {
            (true, None) => {},
            (false, Some(v)) => {
                self.push_val(v);
            },
            _ => {
                return Err(VmError::InvalidType);
            },
        }
        proof {
            let m = old(ma).methods@[method_id.0 as int];
            let np = m.descriptor.0@.len() + (if m.access_flags & ACC_STATIC == 0 {
                1int
            } else {
                0int
            });
            let kept = old(self).operand_stack@.take(old(self).operand_stack@.len() - np);
            assert(np <= old(self).operand_stack@.len());
            assert(self.method == old(self).method);
            assert(self.pc == old(self).pc);
            assert(self.locals@ == old(self).locals@);
            assert(self.stack_frames@ == old(self).stack_frames@);
            if res is Some {
                assert(self.operand_stack@ == kept.push(res.unwrap()));
                assert(self.operand_stack@.take(kept.len() as int) =~= kept);
            } else {
                assert(self.operand_stack@ == kept);
                assert(self.operand_stack@.take(kept.len() as int) =~= kept);
            }
            assert(old(ma).methods@[method_id.0 as int].descriptor
                == ma.methods@[method_id.0 as int].descriptor);
        }
        Ok(())
    }
}

} // verus!

verus! {

/// One resolution step touched at most the class record `id`, and only its
/// bookkeeping: the method area evolved and the untouched heap stays well
/// formed against it.
proof fn lemma_step_frame(m0: MethodArea, m1: MethodArea, h: Heap, id: int)
    requires
        h.wf(m0),
        m1.methods@ == m0.methods@,
        m1.fields@.len() == m0.fields@.len(),
        m0.classes@.len() <= m1.classes@.len(),
        forall|i: int| 0 <= i < m0.classes@.len() && i != id ==> m1.classes@[i] == m0.classes@[i],
        0 <= id < m0.classes@.len() ==> (m0.classes@[id].initialized
            ==> m1.classes@[id].initialized) && m1.classes@[id].size == m0.classes@[id].size,
        0 <= id < m0.classes@.len() ==> m1.classes@[id].references@.len()
            == m0.classes@[id].references@.len(),
        0 <= id < m0.classes@.len() ==> forall|j: int|
            0 <= j < m0.classes@[id].references@.len() && (
            #[trigger] m0.classes@[id].references@[j]) != Reference::Unresolved
                ==> m1.classes@[id].references@[j] == m0.classes@[id].references@[j],
    ensures
        ma_evolves(m0, m1),
        h.wf(m1),
{
    crate::method_area::lemma_evolves_from_class_update(m0, m1, id);
    assert forall|i: int|
        0 <= i < m0.classes@.len() implies (#[trigger] m1.classes@[i]).size
        == m0.classes@[i].size by {
        if i != id {
            assert(m1.classes@[i] == m0.classes@[i]);
        }
    }
    crate::heap::lemma_heap_wf_classes_compatible(h, m0, m1);
}

/// The boundary shapes of the first pending instruction for which `run`'s
/// own contract pins the outcome: a return opcode, an integer division or
/// remainder with a zero divisor, a negative `newarray` count, or a throw
/// of a null reference.
pub open spec fn run_boundary(t: Thread) -> bool {
    let code = t.code.code@;
    let pc = t.pc as int;
    let stack = t.operand_stack@;
    pc < code.len() && {
        ||| code[pc] == 177
        ||| 172 <= code[pc] <= 176
        ||| ((code[pc] == 108 || code[pc] == 112) && stack.len() >= 2 && stack.last()
            == Value::Int(0) && stack[stack.len() - 2] is Int)
        ||| ((code[pc] == 109 || code[pc] == 113) && stack.len() >= 2 && stack.last()
            == Value::Long(0) && stack[stack.len() - 2] is Long)
        ||| (code[pc] == 188 && pc + 2 <= code.len() && stack.len() >= 1 && match stack.last() {
            Value::Int(n) => n < 0,
            _ => false,
        })
        ||| (code[pc] == 191 && stack.len() >= 1 && match stack.last() {
            Value::Object(o) => o is None,
            Value::Array(a) => a is None,
            _ => false,
        })
    }
}

impl Thread {
    /// The decode-execute loop: run bytecode in the current frame until a
    /// return opcode fires there, yielding the returned value if any.
    /// Execution is budgeted by `fuel`; each instruction and each nested
    /// call consumes budget.
    #[verifier::rlimit(100)]
    pub fn run(
        &mut self,
        ma: &mut MethodArea,
        heap: &mut Heap,
        host: &HostContext,
        fuel: u64,
    ) -> (r: Result<Option<Value>, VmError>)
        requires
            old(ma).wf(),
            old(heap).wf(*old(ma)),
            old(self).wf(*old(ma)),
        ensures
            final(ma).wf(),
            final(heap).wf(*final(ma)),
            ma_evolves(*old(ma), *final(ma)),
            final(self).wf(*final(ma)),
            r is Ok ==> final(self).stack_frames@ == old(self).stack_frames@,
            fuel == 0 ==> r == Err::<Option<Value>, VmError>(VmError::StackOverflow),
            // What the first instruction does, when it is one of the
            // boundary shapes: a bare `return` yields no value, a typed
            // return yields the stack top, a zero integer divisor raises
            // the arithmetic error, a negative array count raises the
            // negative-size error, and throwing a null raises the null
            // error.
            ({
                let code = old(self).code.code@;
                let pc = old(self).pc as int;
                fuel >= 1 && pc < code.len() ==> {
                    &&& (code[pc] == 177 ==> r == Ok::<Option<Value>, VmError>(None))
                    &&& (172 <= code[pc] <= 176 ==> r == Ok::<Option<Value>, VmError>(
                        if old(self).operand_stack@.len() > 0 {
                            Some(old(self).operand_stack@.last())
                        } else {
                            None
                        },
                    ))
                    &&& ((code[pc] == 108 || code[pc] == 112) && old(
                        self,
                    ).operand_stack@.len() >= 2 && old(self).operand_stack@.last() == Value::Int(0)
                        && old(self).operand_stack@[old(self).operand_stack@.len() - 2] is Int
                        ==> r == Err::<Option<Value>, VmError>(VmError::ArithmeticException))
                    &&& ((code[pc] == 109 || code[pc] == 113) && old(
                        self,
                    ).operand_stack@.len() >= 2 && old(self).operand_stack@.last() == Value::Long(
                        0,
                    ) && old(self).operand_stack@[old(self).operand_stack@.len() - 2] is Long
                        ==> r == Err::<Option<Value>, VmError>(VmError::ArithmeticException))
                    &&& (code[pc] == 188 && pc + 2 <= code.len() && old(
                        self,
                    ).operand_stack@.len() >= 1 && (match old(self).operand_stack@.last() {
                        Value::Int(n) => n < 0,
                        _ => false,
                    }) ==> r == Err::<Option<Value>, VmError>(VmError::NegativeArraySize))
                    &&& (code[pc] == 191 && old(self).operand_stack@.len() >= 1 && (match old(
                        self,
                    ).operand_stack@.last() {
                        Value::Object(o) => o is None,
                        Value::Array(a) => a is None,
                        _ => false,
                    }) ==> r == Err::<Option<Value>, VmError>(VmError::NullPointerException))
                }
            }),
        decreases fuel,
    {
        let mut remaining: u64 = fuel;
        loop
            invariant
                ma.wf(),
                heap.wf(*ma),
                self.wf(*ma),
                ma_evolves(*old(ma), *ma),
                self.stack_frames@ == old(self).stack_frames@,
                remaining <= fuel,
                run_boundary(*old(self)) && fuel >= 1 ==> *self == *old(self) && *ma == *old(ma)
                    && *heap == *old(heap) && remaining == fuel,
            decreases remaining,
        {
            if remaining == 0 {
                return Err(VmError::StackOverflow);
            }
            remaining = remaining - 1;
            let cur_pc = self.pc;
            let opcode = self.read_ins()?;
            match opcode {
                0u8..=17u8 => {
                    self.step_stack(opcode)?;
                },
                18u8 => {
                    let idx = self.read_ins()?;
                    let ghost m0 = *ma;
                    self.ldc(ma, heap, idx as u16)?;
                    proof {
                        crate::method_area::lemma_evolves_trans(*old(ma), m0, *ma);
                    }
                },
                19u8 | 20u8 => {
                    let idx = self.read_u16()?;
                    let ghost m0 = *ma;
                    self.ldc(ma, heap, idx)?;
                    proof {
                        crate::method_area::lemma_evolves_trans(*old(ma), m0, *ma);
                    }
                },
                21u8..=45u8 => {
                    self.step_stack(opcode)?;
                },
                46u8..=53u8 => {
                    proof {
                        crate::heap::lemma_wf_implies_len_wf(*heap, *ma);
                    }
                    self.step_array(opcode, heap)?;
                },
                54u8..=95u8 => {
                    if opcode >= 79 && opcode <= 86 {
                        proof {
                            crate::heap::lemma_wf_implies_len_wf(*heap, *ma);
                        }
                        self.step_array(opcode, heap)?;
                    } else {
                        self.step_stack(opcode)?;
                    }
                },
                132u8 => {
                    let idx = self.read_ins()?;
                    let c = self.read_ins()?;
                    self.iinc_local(idx as usize, (#[verifier::truncate] (c as i8)) as i32)?;
                },
                96u8..=152u8 => {
                    self.step_arith(opcode)?;
                },
                153u8..=171u8 => {
                    self.step_branch(opcode, cur_pc)?;
                },
                172u8..=176u8 => {
                    return Ok(self.operand_stack.pop());
                },
                177u8 => {
                    return Ok(None);
                },
                178u8 => {
                    // getstatic
                    let idx = self.read_u16()?;
                    let class_id = self.class_id(ma);
                    let ghost m0 = *ma;
                    let field = Class::field_reference(ma, class_id, idx)?;
                    proof {
                        lemma_step_frame(m0, *ma, *heap, class_id.0 as int);
                        crate::method_area::lemma_evolves_trans(*old(ma), m0, *ma);
                    }
                    let defining = ma.fields[field.0].defining_class;
                    assert(defining.0 < ma.classes@.len());
                    let ghost m1 = *ma;
                    self.ensure_initialized(ma, heap, host, defining, remaining)?;
                    proof {
                        crate::method_area::lemma_evolves_trans(*old(ma), m1, *ma);
                    }
                    match &ma.fields[field.0].backing {
                        FieldBacking::StaticValue(_) => {
                            let v = ma.fields[field.0].load_static();
                            self.push_val(v);
                        },
                        _ => {
                            return Err(VmError::InvalidType);
                        },
                    }
                },
                179u8 => {
                    // putstatic
                    let idx = self.read_u16()?;
                    let class_id = self.class_id(ma);
                    let ghost m0 = *ma;
                    let field = Class::field_reference(ma, class_id, idx)?;
                    proof {
                        lemma_step_frame(m0, *ma, *heap, class_id.0 as int);
                        crate::method_area::lemma_evolves_trans(*old(ma), m0, *ma);
                    }
                    let defining = ma.fields[field.0].defining_class;
                    let ghost m1 = *ma;
                    self.ensure_initialized(ma, heap, host, defining, remaining)?;
                    proof {
                        crate::method_area::lemma_evolves_trans(*old(ma), m1, *ma);
                    }
                    let val = self.pop()?;
                    let ghost m2 = *ma;
                    ma.set_static_field(field, val)?;
                    proof {
                        lemma_step_frame(m2, *ma, *heap, -1);
                        crate::method_area::lemma_evolves_trans(*old(ma), m2, *ma);
                    }
                },
                180u8 => {
                    // getfield
                    let idx = self.read_u16()?;
                    let class_id = self.class_id(ma);
                    let ghost m0 = *ma;
                    let field = Class::field_reference(ma, class_id, idx)?;
                    proof {
                        lemma_step_frame(m0, *ma, *heap, class_id.0 as int);
                        crate::method_area::lemma_evolves_trans(*old(ma), m0, *ma);
                    }
                    let obj = match self.pop()? {
                        Value::Object(Some(o)) => o,
                        Value::Array(Some(a)) => a.cast_to_object(),
                        Value::Object(None) | Value::Array(None) => {
                            return Err(VmError::NullPointerException);
                        },
                        _ => {
                            return Err(VmError::InvalidType);
                        },
                    };
                    let v = heap.load_field(ma, obj, field)?;
                    self.push_val(v.extend_32());
                },
                181u8 => {
                    // putfield
                    let idx = self.read_u16()?;
                    let class_id = self.class_id(ma);
                    let ghost m0 = *ma;
                    let field = Class::field_reference(ma, class_id, idx)?;
                    proof {
                        lemma_step_frame(m0, *ma, *heap, class_id.0 as int);
                        crate::method_area::lemma_evolves_trans(*old(ma), m0, *ma);
                    }
                    let val = self.pop()?;
                    let obj = match self.pop()? {
                        Value::Object(Some(o)) => o,
                        Value::Array(Some(a)) => a.cast_to_object(),
                        Value::Object(None) | Value::Array(None) => {
                            return Err(VmError::NullPointerException);
                        },
                        _ => {
                            return Err(VmError::InvalidType);
                        },
                    };
                    heap.store_field(ma, obj, field, val)?;
                },
                182u8 | 185u8 => {
                    // invokevirtual, invokeinterface
                    let idx = self.read_u16()?;
                    let class_id = self.class_id(ma);
                    let ghost m0 = *ma;
                    let declared = Class::method_reference(ma, class_id, idx)?;
                    proof {
                        lemma_step_frame(m0, *ma, *heap, class_id.0 as int);
                        crate::method_area::lemma_evolves_trans(*old(ma), m0, *ma);
                    }
                    let selected = self.select_method(ma, heap, declared)?;
                    if opcode == 185 {
                        let defining = ma.methods[selected.0].defining_class;
                        let ghost m1 = *ma;
                        self.ensure_initialized(ma, heap, host, defining, remaining)?;
                        proof {
                            crate::method_area::lemma_evolves_trans(*old(ma), m1, *ma);
                        }
                    }
                    let ghost m2 = *ma;
                    self.call_method(ma, heap, host, selected, remaining)?;
                    proof {
                        crate::method_area::lemma_evolves_trans(*old(ma), m2, *ma);
                    }
                    if opcode == 185 {
                        let _count = self.read_ins()?;
                        let _z = self.read_ins()?;
                    }
                },
                183u8 => {
                    // invokespecial
                    let idx = self.read_u16()?;
                    let class_id = self.class_id(ma);
                    let ghost m0 = *ma;
                    let method = Class::method_reference(ma, class_id, idx)?;
                    proof {
                        lemma_step_frame(m0, *ma, *heap, class_id.0 as int);
                        crate::method_area::lemma_evolves_trans(*old(ma), m0, *ma);
                    }
                    let ghost m2 = *ma;
                    self.call_method(ma, heap, host, method, remaining)?;
                    proof {
                        crate::method_area::lemma_evolves_trans(*old(ma), m2, *ma);
                    }
                },
                184u8 => {
                    // invokestatic
                    let idx = self.read_u16()?;
                    let class_id = self.class_id(ma);
                    let ghost m0 = *ma;
                    let method = Class::method_reference(ma, class_id, idx)?;
                    proof {
                        lemma_step_frame(m0, *ma, *heap, class_id.0 as int);
                        crate::method_area::lemma_evolves_trans(*old(ma), m0, *ma);
                    }
                    let defining = ma.methods[method.0].defining_class;
                    let ghost m1 = *ma;
                    self.ensure_initialized(ma, heap, host, defining, remaining)?;
                    proof {
                        crate::method_area::lemma_evolves_trans(*old(ma), m1, *ma);
                    }
                    let ghost m2 = *ma;
                    self.call_method(ma, heap, host, method, remaining)?;
                    proof {
                        crate::method_area::lemma_evolves_trans(*old(ma), m2, *ma);
                    }
                },
                187u8 => {
                    // new
                    let idx = self.read_u16()?;
                    let class_id = self.class_id(ma);
                    let ghost m0 = *ma;
                    let obj_class = Class::class_reference(ma, class_id, idx)?;
                    proof {
                        lemma_step_frame(m0, *ma, *heap, class_id.0 as int);
                        crate::method_area::lemma_evolves_trans(*old(ma), m0, *ma);
                    }
                    let ghost m1 = *ma;
                    self.ensure_initialized(ma, heap, host, obj_class, remaining)?;
                    proof {
                        crate::method_area::lemma_evolves_trans(*old(ma), m1, *ma);
                    }
                    let obj_ref = heap.new_object(ma, obj_class);
                    self.push_val(Value::Object(Some(obj_ref)));
                },
                188u8 => {
                    // newarray: a negative count raises NegativeArraySize
                    let atype = self.read_ins()?;
                    let count = match self.pop()? {
                        Value::Int(v) => v,
                        _ => {
                            return Err(VmError::InvalidType);
                        },
                    };
                    let count_u = Self::check_array_count(count)?;
                    let ty = match atype {
                        4u8 => FieldType::BaseType(BaseType::Z),
                        5u8 => FieldType::BaseType(BaseType::C),
                        6u8 => FieldType::BaseType(BaseType::F),
                        7u8 => FieldType::BaseType(BaseType::D),
                        8u8 => FieldType::BaseType(BaseType::B),
                        9u8 => FieldType::BaseType(BaseType::S),
                        10u8 => FieldType::BaseType(BaseType::I),
                        11u8 => FieldType::BaseType(BaseType::J),
                        _ => {
                            return Err(VmError::ClassFormatError);
                        },
                    };
                    let ghost m1 = *ma;
                    let arr = heap.new_array(ma, ty, count_u)?;
                    proof {
                        crate::method_area::lemma_evolves_from_prefix(m1, *ma);
                        crate::method_area::lemma_evolves_trans(*old(ma), m1, *ma);
                    }
                    self.push_val(Value::Array(Some(arr)));
                },
                189u8 => {
                    // anewarray
                    let idx = self.read_u16()?;
                    let class_id = self.class_id(ma);
                    let ghost m0 = *ma;
                    let item_class = Class::class_reference(ma, class_id, idx)?;
                    proof {
                        lemma_step_frame(m0, *ma, *heap, class_id.0 as int);
                        crate::method_area::lemma_evolves_trans(*old(ma), m0, *ma);
                    }
                    let class_name = ma.classes[item_class.0].name.clone();
                    let count = match self.pop()? {
                        Value::Int(v) => v,
                        _ => {
                            return Err(VmError::InvalidType);
                        },
                    };
                    let count_u = Self::check_array_count(count)?;
                    let ty = FieldType::ObjectType(ObjectType { class_name });
                    let ghost m1 = *ma;
                    let arr = heap.new_array(ma, ty, count_u)?;
                    proof {
                        crate::method_area::lemma_evolves_from_prefix(m1, *ma);
                        crate::method_area::lemma_evolves_trans(*old(ma), m1, *ma);
                    }
                    self.push_val(Value::Array(Some(arr)));
                },
                190u8 => {
                    proof {
                        crate::heap::lemma_wf_implies_len_wf(*heap, *ma);
                    }
                    self.step_array(opcode, heap)?;
                },
                191u8 => {
                    // athrow: propagation is out of scope; a throw aborts
                    match self.pop()? {
                        Value::Object(None) | Value::Array(None) => {
                            return Err(VmError::NullPointerException);
                        },
                        _ => {
                            return Err(VmError::Unsupported);
                        },
                    }
                },
                192u8 | 193u8 => {
                    // checkcast, instanceof
                    let val = self.pop()?;
                    let idx = self.read_u16()?;
                    let is_null = match val {
                        Value::Object(None) | Value::Array(None) => true,
                        Value::Object(Some(_)) | Value::Array(Some(_)) => false,
                        _ => {
                            return Err(VmError::InvalidType);
                        },
                    };
                    if is_null {
                        // A null reference passes checkcast and is an
                        // instance of nothing.
                        if opcode == 192 {
                            self.push_val(val);
                        } else {
                            self.push_val(Value::Int(0));
                        }
                    } else {
                        let class_id = self.class_id(ma);
                        let ghost m0 = *ma;
                        let ref_class = Class::class_reference(ma, class_id, idx)?;
                        proof {
                            lemma_step_frame(m0, *ma, *heap, class_id.0 as int);
                            crate::method_area::lemma_evolves_trans(*old(ma), m0, *ma);
                        }
                        let obj_class = match val {
                            Value::Object(Some(o)) => {
                                let c = heap.get_obj_class(o)?;
                                proof {
                                    assert(crate::heap::alloc_wf(heap.allocs@[o.0 as int], *ma));
                                }
                                c
                            },
                            Value::Array(Some(a)) => {
                                let elem = heap.arr_ty(a)?.clone();
                                let ghost m1 = *ma;
                                let c = ma.resolve_arr_class(&elem)?;
                                proof {
                                    lemma_step_frame(m1, *ma, *heap, -1);
                                    crate::method_area::lemma_evolves_trans(*old(ma), m1, *ma);
                                }
                                c
                            },
                            _ => {
                                return Err(VmError::InvalidType);
                            },
                        };
                        let ghost m2 = *ma;
                        let is_inst = Class::instance_of(ma, obj_class, ref_class)?;
                        proof {
                            lemma_step_frame(m2, *ma, *heap, -1);
                            crate::method_area::lemma_evolves_trans(*old(ma), m2, *ma);
                        }
                        if opcode == 192 {
                            if !is_inst {
                                return Err(VmError::ClassCastException);
                            }
                            self.push_val(val);
                        } else {
                            self.push_val(Value::Int(if is_inst {
                                1
                            } else {
                                0
                            }));
                        }
                    }
                },
                194u8 | 195u8 => {
                    // monitorenter, monitorexit: accepted; mutual exclusion
                    // is out of scope
                    let _ = self.pop()?;
                },
                198u8 | 199u8 => {
                    self.step_branch(opcode, cur_pc)?;
                },
                _ => {
                    return Err(VmError::Unsupported);
                },
            }
        }
    }
}

} // verus!

verus! {

impl Thread {
    /// Store the popped reference into the named static field of the class
    /// defining the current method, as the stream-installation natives do.
    fn native_set_static(&mut self, ma: &mut MethodArea, field_name: &str) -> (r: Result<
        (),
        VmError,
    >)
        requires
            old(ma).wf(),
            old(self).wf(*old(ma)),
        ensures
            final(ma).wf(),
            ma_evolves(*old(ma), *final(ma)),
            final(ma).classes@ == old(ma).classes@,
            *final(self) == (Thread { operand_stack: final(self).operand_stack, ..*old(self) }),
    {
        let val = self.pop()?;
        let class_id = self.class_id(ma);
        let field_id = ma.resolve_field(class_id, field_name)?;
        let res = ma.set_static_field(field_id, val);
        proof {
            crate::method_area::lemma_evolves_from_prefix(*old(ma), *ma);
        }
        match res {
            Ok(_) => Ok(()),
            Err(e) => Err(e),
        }
    }

    /// The class id a class-mirror object stands for.
    fn class_of_mirror(&self, ma: &MethodArea, obj: ObjectRef) -> (r: Result<ClassId, VmError>)
        requires
            ma.wf(),
        ensures
            match r {
                Ok(c) => c.0 < ma.classes@.len(),
                Err(_) => true,
            },
    {
        let mut k: usize = 0;
        while k < ma.class_objs.len()
            invariant
                ma.wf(),
            decreases ma.class_objs@.len() - k,
        {
            let (o, c) = ma.class_objs[k];
            if o.0 == obj.0 {
                assert(c == ma.class_objs@[k as int].1);
                return Ok(c);
            }
            k = k + 1;
        }
        Err(VmError::InvalidType)
    }

    /// `Float.intBitsToFloat`: the top `Int` becomes a `Float` of the same
    /// bits; the reinterpretation is the identity in this value model.
    fn native_int_bits_to_float(&mut self) -> (r: Result<(), VmError>)
        ensures
            *final(self) == (Thread { operand_stack: final(self).operand_stack, ..*old(self) }),
            old(self).operand_stack@.len() >= 1 && (old(self).operand_stack@.last() matches
            Value::Int(_)) ==> r is Ok,
            match r {
                Ok(_) => old(self).operand_stack@.len() > 0 && match old(
                    self,
                ).operand_stack@.last() {
                    Value::Int(v) => final(self).operand_stack@ == old(
                        self,
                    ).operand_stack@.drop_last().push(Value::Float(v as u32)),
                    _ => false,
                },
                Err(_) => true,
            },
    {
        match self.pop()? {
            Value::Int(v) => {
                self.push_val(Value::Float(#[verifier::truncate] (v as u32)));
                Ok(())
            },
            _ => Err(VmError::InvalidType),
        }
    }

    /// `Float.floatToRawIntBits`: the top `Float` becomes an `Int` of the
    /// same bits.
    fn native_float_to_int_bits(&mut self) -> (r: Result<(), VmError>)
        ensures
            *final(self) == (Thread { operand_stack: final(self).operand_stack, ..*old(self) }),
            old(self).operand_stack@.len() >= 1 && (old(self).operand_stack@.last() matches
            Value::Float(_)) ==> r is Ok,
            match r {
                Ok(_) => old(self).operand_stack@.len() > 0 && match old(
                    self,
                ).operand_stack@.last() {
                    Value::Float(b) => final(self).operand_stack@ == old(
                        self,
                    ).operand_stack@.drop_last().push(Value::Int(b as i32)),
                    _ => false,
                },
                Err(_) => true,
            },
    {
        match self.pop()? {
            Value::Float(b) => {
                self.push_val(Value::Int(#[verifier::truncate] (b as i32)));
                Ok(())
            },
            _ => Err(VmError::InvalidType),
        }
    }

    /// `Double.longBitsToDouble`: the top `Long` becomes a `Double` of the
    /// same bits.
    fn native_long_bits_to_double(&mut self) -> (r: Result<(), VmError>)
        ensures
            *final(self) == (Thread { operand_stack: final(self).operand_stack, ..*old(self) }),
            old(self).operand_stack@.len() >= 1 && (old(self).operand_stack@.last() matches
            Value::Long(_)) ==> r is Ok,
            match r {
                Ok(_) => old(self).operand_stack@.len() > 0 && match old(
                    self,
                ).operand_stack@.last() {
                    Value::Long(v) => final(self).operand_stack@ == old(
                        self,
                    ).operand_stack@.drop_last().push(Value::Double(v as u64)),
                    _ => false,
                },
                Err(_) => true,
            },
    {
        match self.pop()? {
            Value::Long(v) => {
                self.push_val(Value::Double(#[verifier::truncate] (v as u64)));
                Ok(())
            },
            _ => Err(VmError::InvalidType),
        }
    }

    /// `Double.doubleToRawLongBits`: the top `Double` becomes a `Long` of
    /// the same bits.
    fn native_double_to_long_bits(&mut self) -> (r: Result<(), VmError>)
        ensures
            *final(self) == (Thread { operand_stack: final(self).operand_stack, ..*old(self) }),
            old(self).operand_stack@.len() >= 1 && (old(self).operand_stack@.last() matches
            Value::Double(_)) ==> r is Ok,
            match r {
                Ok(_) => old(self).operand_stack@.len() > 0 && match old(
                    self,
                ).operand_stack@.last() {
                    Value::Double(b) => final(self).operand_stack@ == old(
                        self,
                    ).operand_stack@.drop_last().push(Value::Long(b as i64)),
                    _ => false,
                },
                Err(_) => true,
            },
    {
        match self.pop()? {
            Value::Double(b) => {
                self.push_val(Value::Long(#[verifier::truncate] (b as i64)));
                Ok(())
            },
            _ => Err(VmError::InvalidType),
        }
    }

    /// The built-in native table: the dispatch contract between the
    /// interpreter and the host-implemented stubs, keyed by class and
    /// method name.  Unknown pairs fail with `UnknownNative`.
    #[verifier::rlimit(100)]
    pub fn run_native(
        &mut self,
        ma: &mut MethodArea,
        heap: &mut Heap,
        host: &HostContext,
        class_name: &str,
        method_name: &str,
    ) -> (r: Result<(), VmError>)
        requires
            old(ma).wf(),
            old(heap).wf(*old(ma)),
            old(self).wf(*old(ma)),
        ensures
            final(ma).wf(),
            final(heap).wf(*final(ma)),
            ma_evolves(*old(ma), *final(ma)),
            final(self).wf(*final(ma)),
            final(self).stack_frames@ == old(self).stack_frames@,
            // The bit-reinterpretation intrinsics replace the top value by
            // the same bits under the other tag.
            class_name@ == "java/lang/Float"@ && method_name@ == "intBitsToFloat"@ ==> ({
                let s = old(self).operand_stack@;
                s.len() >= 1 ==> match s.last() {
                    Value::Int(v) => r is Ok && final(self).operand_stack@ == s.drop_last().push(
                        Value::Float(v as u32),
                    ),
                    _ => true,
                }
            }),
            class_name@ == "java/lang/Float"@ && method_name@ == "floatToRawIntBits"@ ==> ({
                let s = old(self).operand_stack@;
                s.len() >= 1 ==> match s.last() {
                    Value::Float(b) => r is Ok && final(self).operand_stack@ == s.drop_last().push(
                        Value::Int(b as i32),
                    ),
                    _ => true,
                }
            }),
            class_name@ == "java/lang/Double"@ && method_name@ == "longBitsToDouble"@ ==> ({
                let s = old(self).operand_stack@;
                s.len() >= 1 ==> match s.last() {
                    Value::Long(v) => r is Ok && final(self).operand_stack@ == s.drop_last().push(
                        Value::Double(v as u64),
                    ),
                    _ => true,
                }
            }),
            class_name@ == "java/lang/Double"@ && method_name@ == "doubleToRawLongBits"@ ==> ({
                let s = old(self).operand_stack@;
                s.len() >= 1 ==> match s.last() {
                    Value::Double(b) => r is Ok && final(self).operand_stack@ == s.drop_last().push(
                        Value::Long(b as i64),
                    ),
                    _ => true,
                }
            }),
            // The raw property table is a 42-slot string array.
            class_name@ == "jdk/internal/util/SystemProps$Raw"@ && method_name@
                == "vmProperties"@ && r is Ok ==> final(self).operand_stack@.len() == old(
                self,
            ).operand_stack@.len() + 1 && match final(self).operand_stack@.last() {
                Value::Array(Some(a)) => {
                    &&& a.0 < final(heap).allocs@.len()
                    &&& final(heap).allocs@[a.0 as int] is Array
                    &&& crate::heap::alloc_arr_len(final(heap).allocs@[a.0 as int]) == 42
                },
                _ => false,
            },
    {
        if crate::text::str_eq(class_name, "java/lang/Float") {
            if crate::text::str_eq(method_name, "intBitsToFloat") {
                proof {
                    crate::method_area::lemma_evolves_from_prefix(*old(ma), *ma);
                    // Distinct intrinsic names are distinct strings; the
                    // per-intrinsic clauses rely on telling them apart.
                    reveal_strlit("java/lang/Float");
                    reveal_strlit("java/lang/Double");
                    reveal_strlit("intBitsToFloat");
                    reveal_strlit("floatToRawIntBits");
                    reveal_strlit("longBitsToDouble");
                    reveal_strlit("doubleToRawLongBits");
                    reveal_strlit("jdk/internal/util/SystemProps$Raw");
                    reveal_strlit("vmProperties");
                    reveal_strlit("platformProperties");
                    assert("intBitsToFloat"@.len() == 14);
                    assert("floatToRawIntBits"@.len() == 17);
                    assert("longBitsToDouble"@.len() == 16);
                    assert("doubleToRawLongBits"@.len() == 19);
                    assert("vmProperties"@.len() == 12);
                    assert("platformProperties"@.len() == 18);
                    assert("java/lang/Float"@.len() == 15);
                    assert("java/lang/Double"@.len() == 16);
                    assert("jdk/internal/util/SystemProps$Raw"@.len() == 33);
                    assert("intBitsToFloat"@ != "floatToRawIntBits"@);
                    assert("longBitsToDouble"@ != "doubleToRawLongBits"@);
                    assert("vmProperties"@ != "platformProperties"@);
                    assert("java/lang/Float"@ != "java/lang/Double"@);
                    assert("java/lang/Float"@ != "jdk/internal/util/SystemProps$Raw"@);
                    assert("java/lang/Double"@ != "jdk/internal/util/SystemProps$Raw"@);
                }
                return self.native_int_bits_to_float();
            }
            if crate::text::str_eq(method_name, "floatToRawIntBits") {
                proof {
                    crate::method_area::lemma_evolves_from_prefix(*old(ma), *ma);
                    // Distinct intrinsic names are distinct strings; the
                    // per-intrinsic clauses rely on telling them apart.
                    reveal_strlit("java/lang/Float");
                    reveal_strlit("java/lang/Double");
                    reveal_strlit("intBitsToFloat");
                    reveal_strlit("floatToRawIntBits");
                    reveal_strlit("longBitsToDouble");
                    reveal_strlit("doubleToRawLongBits");
                    reveal_strlit("jdk/internal/util/SystemProps$Raw");
                    reveal_strlit("vmProperties");
                    reveal_strlit("platformProperties");
                    assert("intBitsToFloat"@.len() == 14);
                    assert("floatToRawIntBits"@.len() == 17);
                    assert("longBitsToDouble"@.len() == 16);
                    assert("doubleToRawLongBits"@.len() == 19);
                    assert("vmProperties"@.len() == 12);
                    assert("platformProperties"@.len() == 18);
                    assert("java/lang/Float"@.len() == 15);
                    assert("java/lang/Double"@.len() == 16);
                    assert("jdk/internal/util/SystemProps$Raw"@.len() == 33);
                    assert("intBitsToFloat"@ != "floatToRawIntBits"@);
                    assert("longBitsToDouble"@ != "doubleToRawLongBits"@);
                    assert("vmProperties"@ != "platformProperties"@);
                    assert("java/lang/Float"@ != "java/lang/Double"@);
                    assert("java/lang/Float"@ != "jdk/internal/util/SystemProps$Raw"@);
                    assert("java/lang/Double"@ != "jdk/internal/util/SystemProps$Raw"@);
                }
                return self.native_float_to_int_bits();
            }
        }
        if crate::text::str_eq(class_name, "java/lang/Double") {
            if crate::text::str_eq(method_name, "longBitsToDouble") {
                proof {
                    crate::method_area::lemma_evolves_from_prefix(*old(ma), *ma);
                    // Distinct intrinsic names are distinct strings; the
                    // per-intrinsic clauses rely on telling them apart.
                    reveal_strlit("java/lang/Float");
                    reveal_strlit("java/lang/Double");
                    reveal_strlit("intBitsToFloat");
                    reveal_strlit("floatToRawIntBits");
                    reveal_strlit("longBitsToDouble");
                    reveal_strlit("doubleToRawLongBits");
                    reveal_strlit("jdk/internal/util/SystemProps$Raw");
                    reveal_strlit("vmProperties");
                    reveal_strlit("platformProperties");
                    assert("intBitsToFloat"@.len() == 14);
                    assert("floatToRawIntBits"@.len() == 17);
                    assert("longBitsToDouble"@.len() == 16);
                    assert("doubleToRawLongBits"@.len() == 19);
                    assert("vmProperties"@.len() == 12);
                    assert("platformProperties"@.len() == 18);
                    assert("java/lang/Float"@.len() == 15);
                    assert("java/lang/Double"@.len() == 16);
                    assert("jdk/internal/util/SystemProps$Raw"@.len() == 33);
                    assert("intBitsToFloat"@ != "floatToRawIntBits"@);
                    assert("longBitsToDouble"@ != "doubleToRawLongBits"@);
                    assert("vmProperties"@ != "platformProperties"@);
                    assert("java/lang/Float"@ != "java/lang/Double"@);
                    assert("java/lang/Float"@ != "jdk/internal/util/SystemProps$Raw"@);
                    assert("java/lang/Double"@ != "jdk/internal/util/SystemProps$Raw"@);
                }
                return self.native_long_bits_to_double();
            }
            if crate::text::str_eq(method_name, "doubleToRawLongBits") {
                proof {
                    crate::method_area::lemma_evolves_from_prefix(*old(ma), *ma);
                    // Distinct intrinsic names are distinct strings; the
                    // per-intrinsic clauses rely on telling them apart.
                    reveal_strlit("java/lang/Float");
                    reveal_strlit("java/lang/Double");
                    reveal_strlit("intBitsToFloat");
                    reveal_strlit("floatToRawIntBits");
                    reveal_strlit("longBitsToDouble");
                    reveal_strlit("doubleToRawLongBits");
                    reveal_strlit("jdk/internal/util/SystemProps$Raw");
                    reveal_strlit("vmProperties");
                    reveal_strlit("platformProperties");
                    assert("intBitsToFloat"@.len() == 14);
                    assert("floatToRawIntBits"@.len() == 17);
                    assert("longBitsToDouble"@.len() == 16);
                    assert("doubleToRawLongBits"@.len() == 19);
                    assert("vmProperties"@.len() == 12);
                    assert("platformProperties"@.len() == 18);
                    assert("java/lang/Float"@.len() == 15);
                    assert("java/lang/Double"@.len() == 16);
                    assert("jdk/internal/util/SystemProps$Raw"@.len() == 33);
                    assert("intBitsToFloat"@ != "floatToRawIntBits"@);
                    assert("longBitsToDouble"@ != "doubleToRawLongBits"@);
                    assert("vmProperties"@ != "platformProperties"@);
                    assert("java/lang/Float"@ != "java/lang/Double"@);
                    assert("java/lang/Float"@ != "jdk/internal/util/SystemProps$Raw"@);
                    assert("java/lang/Double"@ != "jdk/internal/util/SystemProps$Raw"@);
                }
                return self.native_double_to_long_bits();
            }
        }
        if crate::text::str_eq(class_name, "jdk/internal/util/SystemProps$Raw") {
            if crate::text::str_eq(method_name, "platformProperties") {
                let ty = FieldType::ObjectType(
                    ObjectType { class_name: String::from_str("java/lang/String") },
                );
                let ghost m0 = *ma;
                let arr = heap.new_array(ma, ty, 39)?;
                proof {
                    crate::method_area::lemma_evolves_from_prefix(m0, *ma);
                    // Distinct intrinsic names are distinct strings; the
                    // per-intrinsic clauses rely on telling them apart.
                    reveal_strlit("java/lang/Float");
                    reveal_strlit("java/lang/Double");
                    reveal_strlit("intBitsToFloat");
                    reveal_strlit("floatToRawIntBits");
                    reveal_strlit("longBitsToDouble");
                    reveal_strlit("doubleToRawLongBits");
                    reveal_strlit("jdk/internal/util/SystemProps$Raw");
                    reveal_strlit("vmProperties");
                    reveal_strlit("platformProperties");
                    assert("intBitsToFloat"@.len() == 14);
                    assert("floatToRawIntBits"@.len() == 17);
                    assert("longBitsToDouble"@.len() == 16);
                    assert("doubleToRawLongBits"@.len() == 19);
                    assert("vmProperties"@.len() == 12);
                    assert("platformProperties"@.len() == 18);
                    assert("java/lang/Float"@.len() == 15);
                    assert("java/lang/Double"@.len() == 16);
                    assert("jdk/internal/util/SystemProps$Raw"@.len() == 33);
                    assert("intBitsToFloat"@ != "floatToRawIntBits"@);
                    assert("longBitsToDouble"@ != "doubleToRawLongBits"@);
                    assert("vmProperties"@ != "platformProperties"@);
                    assert("java/lang/Float"@ != "java/lang/Double"@);
                    assert("java/lang/Float"@ != "jdk/internal/util/SystemProps$Raw"@);
                    assert("java/lang/Double"@ != "jdk/internal/util/SystemProps$Raw"@);
                }
                self.push_val(Value::Array(Some(arr)));
                return Ok(());
            }
            if crate::text::str_eq(method_name, "vmProperties") {
                proof {
                    // Distinct intrinsic names are distinct strings; the
                    // per-intrinsic clauses rely on telling them apart.
                    reveal_strlit("java/lang/Float");
                    reveal_strlit("java/lang/Double");
                    reveal_strlit("intBitsToFloat");
                    reveal_strlit("floatToRawIntBits");
                    reveal_strlit("longBitsToDouble");
                    reveal_strlit("doubleToRawLongBits");
                    reveal_strlit("jdk/internal/util/SystemProps$Raw");
                    reveal_strlit("vmProperties");
                    reveal_strlit("platformProperties");
                    assert("intBitsToFloat"@.len() == 14);
                    assert("floatToRawIntBits"@.len() == 17);
                    assert("longBitsToDouble"@.len() == 16);
                    assert("doubleToRawLongBits"@.len() == 19);
                    assert("vmProperties"@.len() == 12);
                    assert("platformProperties"@.len() == 18);
                    assert("java/lang/Float"@.len() == 15);
                    assert("java/lang/Double"@.len() == 16);
                    assert("jdk/internal/util/SystemProps$Raw"@.len() == 33);
                    assert("intBitsToFloat"@ != "floatToRawIntBits"@);
                    assert("longBitsToDouble"@ != "doubleToRawLongBits"@);
                    assert("vmProperties"@ != "platformProperties"@);
                    assert("java/lang/Float"@ != "java/lang/Double"@);
                    assert("java/lang/Float"@ != "jdk/internal/util/SystemProps$Raw"@);
                    assert("java/lang/Double"@ != "jdk/internal/util/SystemProps$Raw"@);
                }
                return self.native_vm_properties(ma, heap, host);
            }
        }
        let is_system = crate::text::str_eq(class_name, "java/lang/System");
        let is_class = crate::text::str_eq(class_name, "java/lang/Class");
        let is_unsafe = crate::text::str_eq(class_name, "jdk/internal/misc/Unsafe");
        if (is_system || is_class || is_unsafe) && crate::text::str_eq(
            method_name,
            "registerNatives",
        ) {
            proof {
                crate::method_area::lemma_evolves_from_prefix(*old(ma), *ma);
            }
            return Ok(());
        }
        if crate::text::str_eq(class_name, "jdk/internal/misc/VM") && crate::text::str_eq(
            method_name,
            "initialize",
        ) {
            proof {
                crate::method_area::lemma_evolves_from_prefix(*old(ma), *ma);
            }
            return Ok(());
        }
        if (crate::text::str_eq(class_name, "java/io/FileInputStream") || crate::text::str_eq(
            class_name,
            "java/io/FileOutputStream",
        ) || crate::text::str_eq(class_name, "java/io/FileDescriptor")) && crate::text::str_eq(
            method_name,
            "initIDs",
        ) {
            proof {
                crate::method_area::lemma_evolves_from_prefix(*old(ma), *ma);
            }
            return Ok(());
        }
        if is_system {
            if crate::text::str_eq(method_name, "arraycopy") {
                let length = match self.pop()? {
                    Value::Int(v) => v,
                    _ => {
                        return Err(VmError::InvalidType);
                    },
                };
                let dest_pos = match self.pop()? {
                    Value::Int(v) => v,
                    _ => {
                        return Err(VmError::InvalidType);
                    },
                };
                let dest = match self.pop()? {
                    Value::Array(Some(a)) => a,
                    _ => {
                        return Err(VmError::NullPointerException);
                    },
                };
                let src_pos = match self.pop()? {
                    Value::Int(v) => v,
                    _ => {
                        return Err(VmError::InvalidType);
                    },
                };
                let src = match self.pop()? {
                    Value::Array(Some(a)) => a,
                    _ => {
                        return Err(VmError::NullPointerException);
                    },
                };
                if length < 0 || dest_pos < 0 || src_pos < 0 {
                    return Err(VmError::ArrayIndexOutOfBounds);
                }
                proof {
                    crate::heap::lemma_wf_implies_len_wf(*heap, *ma);
                    crate::method_area::lemma_evolves_from_prefix(*old(ma), *ma);
                }
                heap.array_copy(
                    src,
                    src_pos as usize,
                    dest,
                    dest_pos as usize,
                    length as usize,
                )?;
                return Ok(());
            }
            if crate::text::str_eq(method_name, "setIn0") {
                let ghost m0 = *ma;
                let res = self.native_set_static(ma, "in");
                proof {
                    crate::heap::lemma_heap_wf_classes_compatible(*heap, m0, *ma);
                }
                return res;
            }
            if crate::text::str_eq(method_name, "setOut0") {
                let ghost m0 = *ma;
                let res = self.native_set_static(ma, "out");
                proof {
                    crate::heap::lemma_heap_wf_classes_compatible(*heap, m0, *ma);
                }
                return res;
            }
            if crate::text::str_eq(method_name, "setErr0") {
                let ghost m0 = *ma;
                let res = self.native_set_static(ma, "err");
                proof {
                    crate::heap::lemma_heap_wf_classes_compatible(*heap, m0, *ma);
                }
                return res;
            }
        }
        if crate::text::str_eq(class_name, "java/lang/Runtime") {
            if crate::text::str_eq(method_name, "availableProcessors") {
                self.push_val(Value::Int(1));
                proof {
                    crate::method_area::lemma_evolves_from_prefix(*old(ma), *ma);
                }
                return Ok(());
            }
            if crate::text::str_eq(method_name, "maxMemory") {
                self.push_val(Value::Long(i64::MAX));
                proof {
                    crate::method_area::lemma_evolves_from_prefix(*old(ma), *ma);
                }
                return Ok(());
            }
        }
        if crate::text::str_eq(class_name, "java/lang/Object") {
            if crate::text::str_eq(method_name, "getClass") {
                let obj = match self.pop()? {
                    Value::Object(Some(o)) => o,
                    Value::Array(Some(a)) => a.cast_to_object(),
                    _ => {
                        return Err(VmError::NullPointerException);
                    },
                };
                let class = heap.get_obj_class(obj)?;
                proof {
                    assert(crate::heap::alloc_wf(heap.allocs@[obj.0 as int], *ma));
                }
                let ghost m0 = *ma;
                let mirror = match Class::obj(ma, heap, class) {
                    Ok(o) => o,
                    Err(e) => {
                        proof {
                            crate::method_area::lemma_evolves_from_class_update(
                                m0,
                                *ma,
                                class.0 as int,
                            );
                        }
                        return Err(e);
                    },
                };
                proof {
                    crate::method_area::lemma_evolves_from_class_update(m0, *ma, class.0 as int);
                }
                self.push_val(Value::Object(Some(mirror)));
                return Ok(());
            }
            if crate::text::str_eq(method_name, "hashCode") {
                let _obj = self.pop()?;
                self.push_val(Value::Int(69));
                proof {
                    crate::method_area::lemma_evolves_from_prefix(*old(ma), *ma);
                }
                return Ok(());
            }
            if crate::text::str_eq(method_name, "clone") {
                let obj = match self.pop()? {
                    Value::Object(Some(o)) => o,
                    Value::Array(Some(a)) => a.cast_to_object(),
                    _ => {
                        return Err(VmError::NullPointerException);
                    },
                };
                proof {
                    crate::heap::lemma_wf_implies_len_wf(*heap, *ma);
                    crate::method_area::lemma_evolves_from_prefix(*old(ma), *ma);
                }
                let new_obj = heap.clone_object(obj)?;
                self.push_val(Value::Object(Some(new_obj)));
                return Ok(());
            }
        }
        if is_class {
            if crate::text::str_eq(method_name, "desiredAssertionStatus0") {
                let _class = self.pop()?;
                self.push_val(Value::Int(0));
                proof {
                    crate::method_area::lemma_evolves_from_prefix(*old(ma), *ma);
                }
                return Ok(());
            }
            if crate::text::str_eq(method_name, "getPrimitiveClass") {
                let str_obj = match self.pop()? {
                    Value::Object(Some(o)) => o,
                    _ => {
                        return Err(VmError::NullPointerException);
                    },
                };
                let prim = heap.read_string(ma, str_obj)?;
                // The interned class standing for this primitive, made on
                // first use.
                let mut found: Option<ClassId> = None;
                let mut k: usize = 0;
                while k < ma.primitive_classes.len()
                    invariant
                        ma.wf(),
                        found matches Some(c) ==> c.0 < ma.classes@.len(),
                    decreases ma.primitive_classes@.len() - k,
                {
                    if crate::text::str_eq(ma.primitive_classes[k].0.as_str(), prim.as_str()) {
                        let c = ma.primitive_classes[k].1;
                        assert(c == ma.primitive_classes@[k as int].1);
                        found = Some(c);
                    }
                    k = k + 1;
                }
                let class = match found {
                    Some(c) => c,
                    None => {
                        let boxed: &str = if crate::text::str_eq(prim.as_str(), "byte") {
                            "java/lang/Byte"
                        } else if crate::text::str_eq(prim.as_str(), "short") {
                            "java/lang/Short"
                        } else if crate::text::str_eq(prim.as_str(), "int") {
                            "java/lang/Integer"
                        } else if crate::text::str_eq(prim.as_str(), "long") {
                            "java/lang/Long"
                        } else if crate::text::str_eq(prim.as_str(), "char") {
                            "java/lang/Character"
                        } else if crate::text::str_eq(prim.as_str(), "float") {
                            "java/lang/Float"
                        } else if crate::text::str_eq(prim.as_str(), "double") {
                            "java/lang/Double"
                        } else if crate::text::str_eq(prim.as_str(), "boolean") {
                            "java/lang/Boolean"
                        } else if crate::text::str_eq(prim.as_str(), "void") {
                            "java/lang/Void"
                        } else {
                            return Err(VmError::UnknownNative);
                        };
                        let ghost m0 = *ma;
                        let c = ma.resolve_class(boxed)?;
                        proof {
                            lemma_step_frame(m0, *ma, *heap, -1);
                        }
                        let ghost m0b = *ma;
                        ma.primitive_classes.push((prim, c));
                        proof {
                            crate::method_area::lemma_wf_after_primitive_intern(
                                m0b,
                                *ma,
                                ma.primitive_classes@.last(),
                            );
                            lemma_step_frame(m0b, *ma, *heap, -1);
                            crate::method_area::lemma_evolves_trans(m0, m0b, *ma);
                        }
                        c
                    },
                };
                let ghost m1 = *ma;
                let mirror = match Class::obj(ma, heap, class) {
                    Ok(o) => o,
                    Err(e) => {
                        proof {
                            crate::method_area::lemma_evolves_from_class_update(
                                m1,
                                *ma,
                                class.0 as int,
                            );
                            crate::method_area::lemma_evolves_trans(*old(ma), m1, *ma);
                        }
                        return Err(e);
                    },
                };
                proof {
                    crate::method_area::lemma_evolves_from_class_update(m1, *ma, class.0 as int);
                    crate::method_area::lemma_evolves_trans(*old(ma), m1, *ma);
                }
                self.push_val(Value::Object(Some(mirror)));
                return Ok(());
            }
            if crate::text::str_eq(method_name, "isPrimitive") {
                let class_obj = match self.pop()? {
                    Value::Object(Some(o)) => o,
                    _ => {
                        return Err(VmError::NullPointerException);
                    },
                };
                let class = self.class_of_mirror(ma, class_obj)?;
                let mut is_primitive: bool = false;
                let mut k: usize = 0;
                while k < ma.primitive_classes.len()
                    decreases ma.primitive_classes@.len() - k,
                {
                    if ma.primitive_classes[k].1.0 == class.0 {
                        is_primitive = true;
                    }
                    k = k + 1;
                }
                self.push_val(Value::Int(if is_primitive {
                    1
                } else {
                    0
                }));
                proof {
                    crate::method_area::lemma_evolves_from_prefix(*old(ma), *ma);
                }
                return Ok(());
            }
            if crate::text::str_eq(method_name, "initClassName") {
                let class_obj = match self.pop()? {
                    Value::Object(Some(o)) => o,
                    _ => {
                        return Err(VmError::NullPointerException);
                    },
                };
                let class_class = {
                    let ghost m0 = *ma;
                    let c = ma.resolve_class("java/lang/Class")?;
                    proof {
                        lemma_step_frame(m0, *ma, *heap, -1);
                    }
                    c
                };
                let name_field = ma.resolve_field(class_class, "name")?;
                let target = self.class_of_mirror(ma, class_obj)?;
                let name = ma.classes[target.0].name.clone();
                let ghost m1 = *ma;
                let str_obj = heap.create_string(ma, name.as_str())?;
                proof {
                    crate::method_area::lemma_evolves_from_prefix(m1, *ma);
                    crate::method_area::lemma_evolves_trans(*old(ma), m1, *ma);
                }
                heap.store_field(ma, class_obj, name_field, Value::Object(Some(str_obj)))?;
                self.push_val(Value::Object(Some(str_obj)));
                return Ok(());
            }
        }
        if crate::text::str_eq(class_name, "java/lang/StringUTF16") && crate::text::str_eq(
            method_name,
            "isBigEndian",
        ) {
            // The runtime's own string storage is little-endian regardless
            // of the host, so the byte-order query must agree with it.
            self.push_val(Value::Int(0));
            proof {
                crate::method_area::lemma_evolves_from_prefix(*old(ma), *ma);
            }
            return Ok(());
        }
        if crate::text::str_eq(class_name, "java/lang/Throwable") && crate::text::str_eq(
            method_name,
            "fillInStackTrace",
        ) {
            let _dummy = self.pop()?;
            let _obj = self.pop()?;
            self.push_val(Value::Object(None));
            proof {
                crate::method_area::lemma_evolves_from_prefix(*old(ma), *ma);
            }
            return Ok(());
        }
        if crate::text::str_eq(class_name, "java/io/FileDescriptor") {
            if crate::text::str_eq(method_name, "getHandle") {
                let _fd = self.pop()?;
                self.push_val(Value::Long(0));
                proof {
                    crate::method_area::lemma_evolves_from_prefix(*old(ma), *ma);
                }
                return Ok(());
            }
            if crate::text::str_eq(method_name, "getAppend") {
                let fd = match self.pop()? {
                    Value::Int(v) => v,
                    _ => {
                        return Err(VmError::InvalidType);
                    },
                };
                let mut append: bool = false;
                let mut k: usize = 0;
                while k < host.fd_append.len()
                    decreases host.fd_append@.len() - k,
                {
                    if host.fd_append[k].0 == fd {
                        append = host.fd_append[k].1;
                    }
                    k = k + 1;
                }
                self.push_val(Value::Int(if append {
                    1
                } else {
                    0
                }));
                proof {
                    crate::method_area::lemma_evolves_from_prefix(*old(ma), *ma);
                }
                return Ok(());
            }
        }
        if crate::text::str_eq(class_name, "jdk/internal/misc/CDS") {
            if crate::text::str_eq(method_name, "isDumpingClassList0") || crate::text::str_eq(
                method_name,
                "isDumpingArchive0",
            ) || crate::text::str_eq(method_name, "isSharingEnabled0") {
                self.push_val(Value::Int(0));
                proof {
                    crate::method_area::lemma_evolves_from_prefix(*old(ma), *ma);
                }
                return Ok(());
            }
            if crate::text::str_eq(method_name, "getRandomSeedForDumping") {
                self.push_val(Value::Long(0));
                proof {
                    crate::method_area::lemma_evolves_from_prefix(*old(ma), *ma);
                }
                return Ok(());
            }
            if crate::text::str_eq(method_name, "initializeFromArchive") {
                let _class = self.pop()?;
                proof {
                    crate::method_area::lemma_evolves_from_prefix(*old(ma), *ma);
                }
                return Ok(());
            }
        }
        if crate::text::str_eq(class_name, "java/lang/ref/Finalizer") && crate::text::str_eq(
            method_name,
            "isFinalizationEnabled",
        ) {
            self.push_val(Value::Int(0));
            proof {
                crate::method_area::lemma_evolves_from_prefix(*old(ma), *ma);
            }
            return Ok(());
        }
        if crate::text::str_eq(class_name, "jdk/internal/misc/Signal") {
            if crate::text::str_eq(method_name, "findSignal0") || crate::text::str_eq(
                method_name,
                "findSignal",
            ) {
                let name_obj = match self.pop()? {
                    Value::Object(Some(o)) => o,
                    _ => {
                        return Err(VmError::NullPointerException);
                    },
                };
                let sig_name = heap.read_string(ma, name_obj)?;
                // The POSIX-mandated numbers for the signals the runtime
                // cares about.
                let sig: i32 = if crate::text::str_eq(sig_name.as_str(), "INT") {
                    2
                } else if crate::text::str_eq(sig_name.as_str(), "HUP") {
                    1
                } else if crate::text::str_eq(sig_name.as_str(), "TERM") {
                    15
                } else {
                    -1
                };
                self.push_val(Value::Int(sig));
                proof {
                    crate::method_area::lemma_evolves_from_prefix(*old(ma), *ma);
                }
                return Ok(());
            }
            if crate::text::str_eq(method_name, "handle0") || crate::text::str_eq(
                method_name,
                "handle",
            ) {
                let _native_handler = self.pop()?;
                let _sig = self.pop()?;
                self.push_val(Value::Long(0));
                proof {
                    crate::method_area::lemma_evolves_from_prefix(*old(ma), *ma);
                }
                return Ok(());
            }
        }
        if is_unsafe {
            return self.run_native_unsafe(ma, heap, method_name);
        }
        if crate::text::str_eq(class_name, "jdk/internal/reflect/Reflection")
            && crate::text::str_eq(method_name, "getCallerClass") {
            if self.stack_frames.len() == 0 {
                return Err(VmError::StackUnderflow);
            }
            let frame_method = self.stack_frames[self.stack_frames.len() - 1].method;
            let class_id = ma.methods[frame_method.0].defining_class;
            let ghost m0 = *ma;
            let mirror = match Class::obj(ma, heap, class_id) {
                Ok(o) => o,
                Err(e) => {
                    proof {
                        crate::method_area::lemma_evolves_from_class_update(
                            m0,
                            *ma,
                            class_id.0 as int,
                        );
                    }
                    return Err(e);
                },
            };
            proof {
                crate::method_area::lemma_evolves_from_class_update(m0, *ma, class_id.0 as int);
            }
            self.push_val(Value::Object(Some(mirror)));
            return Ok(());
        }
        Err(VmError::UnknownNative)
    }
}

} // verus!

verus! {

impl Thread {
    /// The memory-access intrinsics: layout queries, raw-offset reads and
    /// writes, and compare-and-set, which behave sequentially under the
    /// single-threaded execution model.
    #[verifier::rlimit(100)]
    fn run_native_unsafe(
        &mut self,
        ma: &mut MethodArea,
        heap: &mut Heap,
        method_name: &str,
    ) -> (r: Result<(), VmError>)
        requires
            old(ma).wf(),
            old(heap).wf(*old(ma)),
            old(self).wf(*old(ma)),
        ensures
            final(ma).wf(),
            final(heap).wf(*final(ma)),
            ma_evolves(*old(ma), *final(ma)),
            final(self).wf(*final(ma)),
            final(self).stack_frames@ == old(self).stack_frames@,
    {
        if crate::text::str_eq(method_name, "arrayIndexScale0") || crate::text::str_eq(
            method_name,
            "arrayBaseOffset0",
        ) {
            let class_obj = match self.pop()? {
                Value::Object(Some(o)) => o,
                _ => {
                    return Err(VmError::NullPointerException);
                },
            };
            let arr_class = self.class_of_mirror(ma, class_obj)?;
            let elem = match &ma.classes[arr_class.0].elem_ty {
                Some(t) => t.clone(),
                None => {
                    return Err(VmError::InvalidType);
                },
            };
            let (_total, base, stride) = crate::heap::arr_layout(&elem, 128)?;
            let v: usize = if crate::text::str_eq(method_name, "arrayBaseOffset0") {
                base
            } else {
                stride
            };
            if v > i32::MAX as usize {
                return Err(VmError::OutOfMemory);
            }
            self.push_val(Value::Int(v as i32));
            proof {
                crate::method_area::lemma_evolves_from_prefix(*old(ma), *ma);
            }
            return Ok(());
        }
        if crate::text::str_eq(method_name, "objectFieldOffset1") {
            let name_obj = match self.pop()? {
                Value::Object(Some(o)) => o,
                _ => {
                    return Err(VmError::NullPointerException);
                },
            };
            let class_obj = match self.pop()? {
                Value::Object(Some(o)) => o,
                _ => {
                    return Err(VmError::NullPointerException);
                },
            };
            let field_name = heap.read_string(ma, name_obj)?;
            let class_id = self.class_of_mirror(ma, class_obj)?;
            let field_id = ma.resolve_field(class_id, field_name.as_str())?;
            let off = match ma.fields[field_id.0].backing {
                FieldBacking::Instance(o) => o,
                _ => {
                    return Err(VmError::InvalidType);
                },
            };
            self.push_val(Value::Long(off as i64));
            proof {
                crate::method_area::lemma_evolves_from_prefix(*old(ma), *ma);
            }
            return Ok(());
        }
        if crate::text::str_eq(method_name, "fullFence") {
            // Sequential execution already orders everything.
            proof {
                crate::method_area::lemma_evolves_from_prefix(*old(ma), *ma);
            }
            return Ok(());
        }
        if crate::text::str_eq(method_name, "compareAndSetInt") || crate::text::str_eq(
            method_name,
            "compareAndExchangeInt",
        ) {
            let x = match self.pop()? {
                Value::Int(v) => v,
                _ => {
                    return Err(VmError::InvalidType);
                },
            };
            let expected = match self.pop()? {
                Value::Int(v) => v,
                _ => {
                    return Err(VmError::InvalidType);
                },
            };
            let off = match self.pop()? {
                Value::Long(v) => v,
                _ => {
                    return Err(VmError::InvalidType);
                },
            };
            let obj = match self.pop()? {
                Value::Object(Some(o)) => o,
                Value::Array(Some(a)) => a.cast_to_object(),
                _ => {
                    return Err(VmError::NullPointerException);
                },
            };
            if off < 0 || off > usize::MAX as i64 {
                return Err(VmError::ArrayIndexOutOfBounds);
            }
            let ty = FieldType::BaseType(BaseType::I);
            let witnessed = match heap.load_raw(obj, off as usize, &ty)? {
                Value::Int(v) => v,
                _ => {
                    return Err(VmError::InvalidType);
                },
            };
            if witnessed == expected {
                heap.store_raw(obj, off as usize, &Value::Int(x), &ty)?;
            }
            if crate::text::str_eq(method_name, "compareAndSetInt") {
                self.push_val(Value::Int(if witnessed == expected {
                    1
                } else {
                    0
                }));
            } else {
                self.push_val(Value::Int(witnessed));
            }
            proof {
                crate::method_area::lemma_evolves_from_prefix(*old(ma), *ma);
            }
            return Ok(());
        }
        if crate::text::str_eq(method_name, "compareAndSetLong") || crate::text::str_eq(
            method_name,
            "compareAndExchangeLong",
        ) {
            let x = match self.pop()? {
                Value::Long(v) => v,
                _ => {
                    return Err(VmError::InvalidType);
                },
            };
            let expected = match self.pop()? {
                Value::Long(v) => v,
                _ => {
                    return Err(VmError::InvalidType);
                },
            };
            let off = match self.pop()? {
                Value::Long(v) => v,
                _ => {
                    return Err(VmError::InvalidType);
                },
            };
            let obj = match self.pop()? {
                Value::Object(Some(o)) => o,
                Value::Array(Some(a)) => a.cast_to_object(),
                _ => {
                    return Err(VmError::NullPointerException);
                },
            };
            if off < 0 || off > usize::MAX as i64 {
                return Err(VmError::ArrayIndexOutOfBounds);
            }
            let ty = FieldType::BaseType(BaseType::J);
            let witnessed = match heap.load_raw(obj, off as usize, &ty)? {
                Value::Long(v) => v,
                _ => {
                    return Err(VmError::InvalidType);
                },
            };
            if witnessed == expected {
                heap.store_raw(obj, off as usize, &Value::Long(x), &ty)?;
            }
            if crate::text::str_eq(method_name, "compareAndSetLong") {
                self.push_val(Value::Int(if witnessed == expected {
                    1
                } else {
                    0
                }));
            } else {
                self.push_val(Value::Long(witnessed));
            }
            proof {
                crate::method_area::lemma_evolves_from_prefix(*old(ma), *ma);
            }
            return Ok(());
        }
        if crate::text::str_eq(method_name, "compareAndSetReference") {
            let x = self.pop()?;
            let expected = self.pop()?;
            let off = match self.pop()? {
                Value::Long(v) => v,
                _ => {
                    return Err(VmError::InvalidType);
                },
            };
            let obj = match self.pop()? {
                Value::Object(Some(o)) => o,
                Value::Array(Some(a)) => a.cast_to_object(),
                _ => {
                    return Err(VmError::NullPointerException);
                },
            };
            let x_ref = match x {
                Value::Object(o) => o,
                Value::Array(a) => match a {
                    Some(ar) => Some(ar.cast_to_object()),
                    None => None,
                },
                _ => {
                    return Err(VmError::InvalidType);
                },
            };
            let expected_ref = match expected {
                Value::Object(o) => o,
                Value::Array(a) => match a {
                    Some(ar) => Some(ar.cast_to_object()),
                    None => None,
                },
                _ => {
                    return Err(VmError::InvalidType);
                },
            };
            if off < 0 || off > usize::MAX as i64 {
                return Err(VmError::ArrayIndexOutOfBounds);
            }
            let ty = FieldType::ObjectType(ObjectType { class_name: String::new() });
            let witnessed = match heap.load_raw(obj, off as usize, &ty)? {
                Value::Object(o) => o,
                _ => {
                    return Err(VmError::InvalidType);
                },
            };
            let same = match (witnessed, expected_ref) {
                (Some(a), Some(b)) => a.0 == b.0,
                (None, None) => true,
                _ => false,
            };
            if same {
                heap.store_raw(obj, off as usize, &Value::Object(x_ref), &ty)?;
            }
            self.push_val(Value::Int(if same {
                1
            } else {
                0
            }));
            proof {
                crate::method_area::lemma_evolves_from_prefix(*old(ma), *ma);
            }
            return Ok(());
        }
        if crate::text::str_eq(method_name, "getReferenceVolatile") {
            let off = match self.pop()? {
                Value::Long(v) => v,
                _ => {
                    return Err(VmError::InvalidType);
                },
            };
            let obj = match self.pop()? {
                Value::Object(Some(o)) => o,
                Value::Array(Some(a)) => a.cast_to_object(),
                _ => {
                    return Err(VmError::NullPointerException);
                },
            };
            if off < 0 || off > usize::MAX as i64 {
                return Err(VmError::ArrayIndexOutOfBounds);
            }
            let ty = FieldType::ObjectType(ObjectType { class_name: String::new() });
            let v = heap.load_raw(obj, off as usize, &ty)?;
            self.push_val(v);
            proof {
                crate::method_area::lemma_evolves_from_prefix(*old(ma), *ma);
            }
            return Ok(());
        }
        if crate::text::str_eq(method_name, "putReferenceVolatile") {
            let x = self.pop()?;
            let off = match self.pop()? {
                Value::Long(v) => v,
                _ => {
                    return Err(VmError::InvalidType);
                },
            };
            let obj = match self.pop()? {
                Value::Object(Some(o)) => o,
                Value::Array(Some(a)) => a.cast_to_object(),
                _ => {
                    return Err(VmError::NullPointerException);
                },
            };
            let x_ref = match x {
                Value::Object(o) => o,
                Value::Array(a) => match a {
                    Some(ar) => Some(ar.cast_to_object()),
                    None => None,
                },
                _ => {
                    return Err(VmError::InvalidType);
                },
            };
            if off < 0 || off > usize::MAX as i64 {
                return Err(VmError::ArrayIndexOutOfBounds);
            }
            let ty = FieldType::ObjectType(ObjectType { class_name: String::new() });
            heap.store_raw(obj, off as usize, &Value::Object(x_ref), &ty)?;
            proof {
                crate::method_area::lemma_evolves_from_prefix(*old(ma), *ma);
            }
            return Ok(());
        }
        Err(VmError::UnknownNative)
    }

    /// Build the raw VM property table: fixed identity properties plus the
    /// host-supplied paths and platform facts, as alternating key and value
    /// strings in a `String[]`.
    fn native_vm_properties(
        &mut self,
        ma: &mut MethodArea,
        heap: &mut Heap,
        host: &HostContext,
    ) -> (r: Result<(), VmError>)
        requires
            old(ma).wf(),
            old(heap).wf(*old(ma)),
            old(self).wf(*old(ma)),
        ensures
            final(ma).wf(),
            final(heap).wf(*final(ma)),
            ma_evolves(*old(ma), *final(ma)),
            final(self).wf(*final(ma)),
            final(self).stack_frames@ == old(self).stack_frames@,
            r is Ok ==> final(self).operand_stack@.len() == old(self).operand_stack@.len() + 1
                && match final(self).operand_stack@.last() {
                Value::Array(Some(a)) => {
                    &&& a.0 < final(heap).allocs@.len()
                    &&& final(heap).allocs@[a.0 as int] is Array
                    &&& crate::heap::alloc_arr_len(final(heap).allocs@[a.0 as int]) == 42
                },
                _ => false,
            },
    {
        let mut props: Vec<String> = Vec::new();
        props.push(String::from_str("java.version"));
        props.push(String::from_str("22"));
        props.push(String::from_str("java.vendor"));
        props.push(String::from_str("jvmrt"));
        props.push(String::from_str("java.home"));
        props.push(host.java_home.clone());
        props.push(String::from_str("java.vm.specification.version"));
        props.push(String::from_str("22"));
        props.push(String::from_str("java.vm.specification.vendor"));
        props.push(String::from_str("Oracle"));
        props.push(String::from_str("java.vm.specification.name"));
        props.push(String::from_str("Java Virtual Machine Specification"));
        props.push(String::from_str("java.vm.version"));
        props.push(String::from_str("0.1.0"));
        props.push(String::from_str("java.vm.name"));
        props.push(String::from_str("jvmrt"));
        props.push(String::from_str("java.specification.version"));
        props.push(String::from_str("22"));
        props.push(String::from_str("java.specification.vendor"));
        props.push(String::from_str("Oracle"));
        props.push(String::from_str("java.specification.name"));
        props.push(String::from_str("Java Platform API Specification"));
        props.push(String::from_str("java.io.tmpdir"));
        props.push(host.tmp_dir.clone());
        props.push(String::from_str("os.name"));
        props.push(host.os_name.clone());
        props.push(String::from_str("os.arch"));
        props.push(host.os_arch.clone());
        props.push(String::from_str("os.version"));
        props.push(host.os_version.clone());
        props.push(String::from_str("user.name"));
        props.push(host.user_name.clone());
        props.push(String::from_str("user.home"));
        props.push(host.user_home.clone());
        props.push(String::from_str("user.dir"));
        props.push(host.user_dir.clone());
        props.push(String::from_str("native.encoding"));
        props.push(String::from_str("UTF-8"));
        props.push(String::from_str("stdout.encoding"));
        props.push(String::from_str("UTF-8"));
        props.push(String::from_str("stderr.encoding"));
        props.push(String::from_str("UTF-8"));
        let ty = FieldType::ObjectType(
            ObjectType { class_name: String::from_str("java/lang/String") },
        );
        let ghost m0 = *ma;
        let arr = heap.new_array(ma, ty, props.len())?;
        proof {
            crate::method_area::lemma_evolves_from_prefix(m0, *ma);
        }
        let n = props.len();
        let mut k: usize = 0;
        while k < n
            invariant
                ma.wf(),
                heap.wf(*ma),
                self.wf(*ma),
                ma_evolves(*old(ma), *ma),
                self.stack_frames@ == old(self).stack_frames@,
                self.operand_stack@ == old(self).operand_stack@,
                n == props@.len(),
                n == 42,
                k <= n,
                arr.0 < heap.allocs@.len(),
                heap.allocs@[arr.0 as int] is Array,
                crate::heap::alloc_arr_len(heap.allocs@[arr.0 as int]) == 42,
            decreases n - k,
        {
            let s = props[k].clone();
            let ghost m1 = *ma;
            let str_obj = heap.create_string(ma, s.as_str())?;
            proof {
                crate::method_area::lemma_evolves_from_prefix(m1, *ma);
                crate::method_area::lemma_evolves_trans(*old(ma), m1, *ma);
            }
            proof {
                crate::heap::lemma_wf_implies_len_wf(*heap, *ma);
            }
            let _ = heap.store_arr_elem(arr, k, Value::Object(Some(str_obj)));
            k = k + 1;
        }
        self.push_val(Value::Array(Some(arr)));
        Ok(())
    }
}

} // verus!

verus! {

impl Thread {
    /// Vet an array-allocation count from the operand stack: a negative
    /// length raises `NegativeArraySize`, exactly then.
    pub fn check_array_count(count: i32) -> (r: Result<usize, VmError>)
        ensures
            count < 0 <==> r == Err::<usize, VmError>(VmError::NegativeArraySize),
            count >= 0 ==> r == Ok::<usize, VmError>(count as usize),
    {
        if count < 0 {
            Err(VmError::NegativeArraySize)
        } else {
            Ok(count as usize)
        }
    }
}

} // verus!
