//! Field and method descriptors: the textual type signatures of the class
//! file format, parsed into trees.
//!
//! The grammar of a field descriptor is `B|C|D|F|I|J|S|Z | L<name>; |
//! [<field>`, and a method descriptor is `(<field>*)(V|<field>)`.  Parsing is
//! exact: a parse succeeds if and only if the whole input belongs to the
//! grammar, and the parsed tree prints back to the original string.

use crate::error::VmError;
use crate::text::{str_chars, string_from_chars};
use vstd::prelude::*;
use vstd::string::StringExecFns;

verus! {

/// A primitive type tag.
#[derive(Debug, PartialEq, Eq, Hash, Clone, Copy, Structural)]
pub enum BaseType {
    /// byte
    B,
    /// char
    C,
    /// double
    D,
    /// float
    F,
    /// int
    I,
    /// long
    J,
    /// short
    S,
    /// boolean
    Z,
}

/// A field type: a primitive, a named class, or an array.
#[derive(Debug, PartialEq, Eq, Hash)]
pub enum FieldType {
    BaseType(BaseType),
    ObjectType(ObjectType),
    ArrayType(ArrayType),
}

#[derive(Debug, PartialEq, Eq, Hash, Clone)]
pub struct ObjectType {
    pub class_name: String,
}

#[derive(Debug, PartialEq, Eq, Hash)]
pub struct ArrayType(pub Box<ComponentType>);

#[derive(Debug, PartialEq, Eq, Hash)]
pub struct ComponentType(pub FieldType);

#[derive(Debug, PartialEq, Eq)]
pub struct FieldDescriptor(pub FieldType);

#[derive(Debug, PartialEq, Eq)]
pub struct MethodDescriptor(pub Vec<ParameterDescriptor>, pub ReturnDescriptor);

#[derive(Debug, PartialEq, Eq)]
pub struct ParameterDescriptor(pub FieldType);

#[derive(Debug, PartialEq, Eq)]
pub enum ReturnDescriptor {
    FieldType(FieldType),
    Void,
}

impl Clone for FieldType {
    /// A deep copy; the copy has the same descriptor text as the original.
    fn clone(&self) -> (r: Self)
        ensures
            ft_chars(r) == ft_chars(*self),
        decreases *self,
    {
        match self {
            FieldType::BaseType(b) => FieldType::BaseType(*b),
            FieldType::ObjectType(o) => FieldType::ObjectType(
                ObjectType { class_name: o.class_name.clone() },
            ),
            FieldType::ArrayType(a) => FieldType::ArrayType(
                ArrayType(Box::new(ComponentType(a.0.0.clone()))),
            ),
        }
    }
}

/// The descriptor character of a primitive type.
pub open spec fn base_char(b: BaseType) -> char {
    match b {
        BaseType::B => 'B',
        BaseType::C => 'C',
        BaseType::D => 'D',
        BaseType::F => 'F',
        BaseType::I => 'I',
        BaseType::J => 'J',
        BaseType::S => 'S',
        BaseType::Z => 'Z',
    }
}

pub open spec fn is_base_char(c: char) -> bool {
    c == 'B' || c == 'C' || c == 'D' || c == 'F' || c == 'I' || c == 'J' || c == 'S' || c == 'Z'
}

/// The textual form of a field type: its descriptor string.
pub open spec fn ft_chars(t: FieldType) -> Seq<char>
    decreases t,
{
    match t {
        FieldType::BaseType(b) => seq![base_char(b)],
        FieldType::ObjectType(o) => seq!['L'] + o.class_name@ + seq![';'],
        FieldType::ArrayType(a) => seq!['['] + ft_chars((*a.0).0),
    }
}

/// The textual form of a parameter list: the field descriptors, concatenated.
pub open spec fn params_chars(ps: Seq<ParameterDescriptor>) -> Seq<char>
    decreases ps.len(),
{
    if ps.len() == 0 {
        Seq::empty()
    } else {
        ft_chars(ps[0].0) + params_chars(ps.drop_first())
    }
}

pub open spec fn ret_chars(r: ReturnDescriptor) -> Seq<char> {
    match r {
        ReturnDescriptor::Void => seq!['V'],
        ReturnDescriptor::FieldType(t) => ft_chars(t),
    }
}

/// The textual form of a method descriptor.
pub open spec fn md_chars(d: MethodDescriptor) -> Seq<char> {
    seq!['('] + params_chars(d.0@) + seq![')'] + ret_chars(d.1)
}

/// The position of the first occurrence of `c` at or after `i`, if any.
pub open spec fn find_char(s: Seq<char>, c: char, i: int) -> Option<int>
    decreases s.len() - i,
{
    if i < 0 || i >= s.len() {
        None
    } else if s[i] == c {
        Some(i)
    } else {
        find_char(s, c, i + 1)
    }
}

/// Where a single field descriptor starting at `i` ends (one past its last
/// character), or `None` if no field descriptor starts there.
pub open spec fn ft_end(s: Seq<char>, i: int) -> Option<int>
    decreases s.len() - i,
{
    if i < 0 || i >= s.len() {
        None
    } else if is_base_char(s[i]) {
        Some(i + 1)
    } else if s[i] == 'L' {
        match find_char(s, ';', i + 1) {
            Some(k) => Some(k + 1),
            None => None,
        }
    } else if s[i] == '[' {
        ft_end(s, i + 1)
    } else {
        None
    }
}

/// Where a run of field descriptors starting at `i` reaches a `)`, if it does.
pub open spec fn params_end(s: Seq<char>, i: int) -> Option<int>
    decreases s.len() - i,
{
    if i < 0 || i >= s.len() {
        None
    } else if s[i] == ')' {
        Some(i)
    } else {
        match ft_end(s, i) {
            Some(j) => if i < j <= s.len() {
                params_end(s, j)
            } else {
                None
            },
            None => None,
        }
    }
}

/// Whether `s` is exactly one method descriptor.
pub open spec fn md_valid(s: Seq<char>) -> bool {
    &&& s.len() > 0
    &&& s[0] == '('
    &&& match params_end(s, 1) {
        Some(k) => {
            let r = k + 1;
            ||| (r < s.len() && s[r] == 'V' && r + 1 == s.len())
            ||| ft_end(s, r) == Some(s.len() as int)
        },
        None => false,
    }
}

/// A found `';'` really is the first one: everything before it differs.
proof fn lemma_find_char_first(s: Seq<char>, c: char, i: int, k: int)
    requires
        0 <= i <= k < s.len(),
        forall|m: int| i <= m < k ==> s[m] != c,
        s[k] == c,
    ensures
        find_char(s, c, i) == Some(k),
    decreases k - i,
{
    if i < k {
        lemma_find_char_first(s, c, i + 1, k);
    }
}

/// If `c` never occurs at or after `i`, the search fails.
proof fn lemma_find_char_none(s: Seq<char>, c: char, i: int)
    requires
        0 <= i,
        forall|m: int| i <= m < s.len() ==> s[m] != c,
    ensures
        find_char(s, c, i) is None,
    decreases s.len() - i,
{
    if i < s.len() {
        lemma_find_char_none(s, c, i + 1);
    }
}

/// Appending one parameter extends the parameter text at the end.
proof fn lemma_params_chars_push(ps: Seq<ParameterDescriptor>, p: ParameterDescriptor)
    ensures
        params_chars(ps.push(p)) == params_chars(ps) + ft_chars(p.0),
    decreases ps.len(),
{
    assert(ps.push(p)[0] == if ps.len() == 0 { p } else { ps[0] });
    if ps.len() == 0 {
        assert(ps.push(p).drop_first() =~= Seq::<ParameterDescriptor>::empty());
        assert(params_chars(Seq::<ParameterDescriptor>::empty()) == Seq::<char>::empty());
        assert(params_chars(ps.push(p)) == ft_chars(p.0) + Seq::<char>::empty());
        assert(params_chars(ps.push(p)) =~= params_chars(ps) + ft_chars(p.0));
    } else {
        assert(ps.push(p).drop_first() =~= ps.drop_first().push(p));
        lemma_params_chars_push(ps.drop_first(), p);
        assert(params_chars(ps.push(p)) == ft_chars(ps[0].0) + (params_chars(ps.drop_first())
            + ft_chars(p.0)));
        assert(params_chars(ps.push(p)) =~= params_chars(ps) + ft_chars(p.0));
    }
}

/// Parse one field type from `cs` starting at index `i`.
///
/// Succeeds exactly where the grammar has a field descriptor starting at `i`,
/// and the parsed tree prints back to the consumed characters.
pub fn parse_field_type(cs: &Vec<char>, i: usize) -> (r: Result<(FieldType, usize), VmError>)
    requires
        i <= cs@.len(),
    ensures
        match r {
            Ok((t, j)) => {
                &&& ft_end(cs@, i as int) == Some(j as int)
                &&& i < j <= cs@.len()
                &&& ft_chars(t) == cs@.subrange(i as int, j as int)
            },
            Err(e) => {
                &&& ft_end(cs@, i as int) is None
                &&& e == VmError::ClassFormatError
            },
        },
    decreases cs@.len() - i,
{
    if i >= cs.len() {
        return Err(VmError::ClassFormatError);
    }
    let c = cs[i];
    let base: Option<BaseType> = match c {
        'B' => Some(BaseType::B),
        'C' => Some(BaseType::C),
        'D' => Some(BaseType::D),
        'F' => Some(BaseType::F),
        'I' => Some(BaseType::I),
        'J' => Some(BaseType::J),
        'S' => Some(BaseType::S),
        'Z' => Some(BaseType::Z),
        _ => None,
    };
    if let Some(b) = base {
        let t = FieldType::BaseType(b);
        assert(ft_chars(t) =~= cs@.subrange(i as int, i + 1));
        return Ok((t, i + 1));
    }
    match c {
        'L' => {
            let mut name: Vec<char> = Vec::new();
            let mut cur: usize = i + 1;
            assert(name@ =~= cs@.subrange(i + 1, cur as int));
            loop
                invariant
                    i + 1 <= cur <= cs@.len(),
                    cs@.len() == cs.len(),
                    cs@[i as int] == 'L',
                    name@ == cs@.subrange(i + 1, cur as int),
                    forall|m: int| i + 1 <= m < cur ==> cs@[m] != ';',
                decreases cs@.len() - cur,
            {
                if cur >= cs.len() {
                    proof {
                        lemma_find_char_none(cs@, ';', i + 1);
                    }
                    return Err(VmError::ClassFormatError);
                }
                let ch = cs[cur];
                if ch == ';' {
                    proof {
                        lemma_find_char_first(cs@, ';', i + 1, cur as int);
                    }
                    let t = FieldType::ObjectType(
                        ObjectType { class_name: string_from_chars(&name) },
                    );
                    assert(ft_chars(t) =~= cs@.subrange(i as int, cur + 1));
                    return Ok((t, cur + 1));
                }
                name.push(ch);
                cur = cur + 1;
                assert(name@ =~= cs@.subrange(i + 1, cur as int));
            }
        },
        '[' => {
            let (inner, j) = parse_field_type(cs, i + 1)?;
            let t = FieldType::ArrayType(ArrayType(Box::new(ComponentType(inner))));
            assert(ft_chars(t) =~= cs@.subrange(i as int, j as int));
            Ok((t, j))
        },
        _ => Err(VmError::ClassFormatError),
    }
}

impl FieldDescriptor {
    /// Parse a complete field descriptor.  Succeeds exactly on the strings of
    /// the field-descriptor grammar; the result prints back to the input.
    pub fn read(s: &str) -> (r: Result<FieldDescriptor, VmError>)
        ensures
            match r {
                Ok(d) => {
                    &&& ft_end(s@, 0) == Some(s@.len() as int)
                    &&& ft_chars(d.0) == s@
                },
                Err(e) => ft_end(s@, 0) != Some(s@.len() as int) && e
                    == VmError::ClassFormatError,
            },
    {
        let cs = str_chars(s);
        let (t, j) = parse_field_type(&cs, 0)?;
        if j != cs.len() {
            return Err(VmError::ClassFormatError);
        }
        assert(ft_chars(t) =~= s@);
        Ok(FieldDescriptor(t))
    }
}

impl MethodDescriptor {
    /// Parse a complete method descriptor.  Succeeds exactly on the strings
    /// of the method-descriptor grammar; the result prints back to the input.
    pub fn read(s: &str) -> (r: Result<MethodDescriptor, VmError>)
        ensures
            match r {
                Ok(d) => md_valid(s@) && md_chars(d) == s@,
                Err(e) => !md_valid(s@) && e == VmError::ClassFormatError,
            },
    {
        let cs = str_chars(s);
        if cs.len() == 0 {
            return Err(VmError::ClassFormatError);
        }
        let c0 = cs[0];
        if c0 != '(' {
            return Err(VmError::ClassFormatError);
        }
        let mut params: Vec<ParameterDescriptor> = Vec::new();
        let mut cur: usize = 1;
        assert(params_chars(params@) =~= cs@.subrange(1, 1));
        loop
            invariant
                1 <= cur <= cs@.len(),
                cs@.len() == cs.len(),
                cs@[0] == '(',
                cs@ == s@,
                params_chars(params@) == cs@.subrange(1, cur as int),
                params_end(cs@, 1) == params_end(cs@, cur as int),
            decreases cs@.len() - cur,
        {
            if cur >= cs.len() {
                return Err(VmError::ClassFormatError);
            }
            let ch = cs[cur];
            if ch == ')' {
                // The parameter run ends here; parse the return descriptor.
                let r: usize = cur + 1;
                if r < cs.len() && cs[r] == 'V' {
                    if r + 1 == cs.len() {
                        let d = MethodDescriptor(params, ReturnDescriptor::Void);
                        assert(md_chars(d) =~= s@);
                        return Ok(d);
                    } else {
                        // A 'V' return admits nothing after it, and no field
                        // descriptor begins with 'V'.
                        assert(ft_end(cs@, r as int) is None);
                        return Err(VmError::ClassFormatError);
                    }
                }
                match parse_field_type(&cs, r) {
                    Ok((t, j)) => {
                        if j == cs.len() {
                            let d = MethodDescriptor(params, ReturnDescriptor::FieldType(t));
                            assert(md_chars(d) =~= s@);
                            return Ok(d);
                        } else {
                            return Err(VmError::ClassFormatError);
                        }
                    },
                    Err(_) => {
                        return Err(VmError::ClassFormatError);
                    },
                }
            }
            match parse_field_type(&cs, cur) {
                Ok((t, j)) => {
                    proof {
                        lemma_params_chars_push(params@, ParameterDescriptor(t));
                    }
                    params.push(ParameterDescriptor(t));
                    assert(params_chars(params@) =~= cs@.subrange(1, j as int));
                    cur = j;
                },
                Err(_) => {
                    return Err(VmError::ClassFormatError);
                },
            }
        }
    }
}

/// Append the descriptor text of a field type to `out`.
pub fn write_field_type(t: &FieldType, out: &mut Vec<char>)
    ensures
        final(out)@ == old(out)@ + ft_chars(*t),
    decreases *t,
{
    match t {
        FieldType::BaseType(b) => {
            let c = match b {
                BaseType::B => 'B',
                BaseType::C => 'C',
                BaseType::D => 'D',
                BaseType::F => 'F',
                BaseType::I => 'I',
                BaseType::J => 'J',
                BaseType::S => 'S',
                BaseType::Z => 'Z',
            };
            out.push(c);
            assert(out@ =~= old(out)@ + ft_chars(*t));
        },
        FieldType::ObjectType(o) => {
            out.push('L');
            let name = str_chars(o.class_name.as_str());
            let mut k: usize = 0;
            assert(out@ =~= old(out)@ + seq!['L'] + name@.subrange(0, 0));
            while k < name.len()
                invariant
                    k <= name@.len(),
                    name@ == o.class_name@,
                    out@ == old(out)@ + seq!['L'] + name@.subrange(0, k as int),
                decreases name@.len() - k,
            {
                out.push(name[k]);
                k = k + 1;
                assert(out@ =~= old(out)@ + seq!['L'] + name@.subrange(0, k as int));
            }
            assert(name@.subrange(0, name@.len() as int) =~= name@);
            out.push(';');
            assert(out@ =~= old(out)@ + ft_chars(*t));
        },
        FieldType::ArrayType(a) => {
            out.push('[');
            write_field_type(&a.0.0, out);
            assert(out@ =~= old(out)@ + ft_chars(*t));
        },
    }
}

impl FieldDescriptor {
    /// The descriptor string of this field type: the inverse of `read`.
    pub fn descriptor_string(&self) -> (r: String)
        ensures
            r@ == ft_chars(self.0),
    {
        let mut out: Vec<char> = Vec::new();
        write_field_type(&self.0, &mut out);
        string_from_chars(&out)
    }
}

impl MethodDescriptor {
    /// The descriptor string of this method signature: the inverse of `read`.
    pub fn descriptor_string(&self) -> (r: String)
        ensures
            r@ == md_chars(*self),
    {
        let mut out: Vec<char> = Vec::new();
        out.push('(');
        let mut k: usize = 0;
        assert(out@ =~= seq!['('] + params_chars(self.0@.subrange(0, 0)));
        while k < self.0.len()
            invariant
                k <= self.0@.len(),
                out@ == seq!['('] + params_chars(self.0@.subrange(0, k as int)),
            decreases self.0@.len() - k,
        {
            proof {
                assert(self.0@.subrange(0, k as int).push(self.0@[k as int]) =~= self.0@.subrange(
                    0,
                    k + 1,
                ));
                lemma_params_chars_push(self.0@.subrange(0, k as int), self.0@[k as int]);
            }
            write_field_type(&self.0[k].0, &mut out);
            k = k + 1;
        }
        assert(self.0@.subrange(0, self.0@.len() as int) =~= self.0@);
        out.push(')');
        match &self.1 {
            ReturnDescriptor::Void => {
                out.push('V');
            },
            ReturnDescriptor::FieldType(t) => {
                write_field_type(t, &mut out);
            },
        }
        assert(out@ =~= md_chars(*self));
        string_from_chars(&out)
    }
}

/// The display name of a primitive type, as used in array class names.
pub open spec fn base_name(b: BaseType) -> Seq<char> {
    match b {
        BaseType::B => "byte"@,
        BaseType::C => "char"@,
        BaseType::D => "double"@,
        BaseType::F => "float"@,
        BaseType::I => "int"@,
        BaseType::J => "long"@,
        BaseType::S => "short"@,
        BaseType::Z => "boolean"@,
    }
}

/// The display name of a field type: primitive name, class name, or the
/// component name followed by `[]`.
pub open spec fn ft_name(t: FieldType) -> Seq<char>
    decreases t,
{
    match t {
        FieldType::BaseType(b) => base_name(b),
        FieldType::ObjectType(o) => o.class_name@,
        FieldType::ArrayType(a) => ft_name((*a.0).0) + "[]"@,
    }
}

impl BaseType {
    /// The display name of this primitive type.
    pub fn display_name(&self) -> (r: &'static str)
        ensures
            r@ == base_name(*self),
    {
        match self {
            BaseType::B => "byte",
            BaseType::C => "char",
            BaseType::D => "double",
            BaseType::F => "float",
            BaseType::I => "int",
            BaseType::J => "long",
            BaseType::S => "short",
            BaseType::Z => "boolean",
        }
    }
}

impl FieldType {
    /// The display name of this field type.
    pub fn display_name(&self) -> (r: String)
        ensures
            r@ == ft_name(*self),
        decreases *self,
    {
        match self {
            FieldType::BaseType(b) => {
                let mut s = String::new();
                s.append(b.display_name());
                assert(s@ =~= base_name(*b));
                s
            },
            FieldType::ObjectType(o) => {
                let mut s = String::new();
                s.append(o.class_name.as_str());
                assert(s@ =~= o.class_name@);
                s
            },
            FieldType::ArrayType(a) => {
                let mut s = a.0.0.display_name();
                s.append("[]");
                s
            },
        }
    }
}

} // verus!

verus! {

/// Element-wise equality of two character vectors, stated over views.
pub fn chars_eq(a: &Vec<char>, b: &Vec<char>) -> (r: bool)
    ensures
        r == (a@ == b@),
{
    if a.len() != b.len() {
        return false;
    }
    let mut k: usize = 0;
    while k < a.len()
        invariant
            k <= a@.len(),
            a@.len() == b@.len(),
            forall|m: int| 0 <= m < k ==> a@[m] == b@[m],
        decreases a@.len() - k,
    {
        if a[k] != b[k] {
            return false;
        }
        k = k + 1;
    }
    assert(a@ =~= b@);
    true
}

/// Whether two field types have the same descriptor text; descriptor text is
/// the identity of a field type.
pub fn ft_eq(a: &FieldType, b: &FieldType) -> (r: bool)
    ensures
        r == (ft_chars(*a) == ft_chars(*b)),
{
    let mut va: Vec<char> = Vec::new();
    write_field_type(a, &mut va);
    let mut vb: Vec<char> = Vec::new();
    write_field_type(b, &mut vb);
    assert(va@ =~= ft_chars(*a));
    assert(vb@ =~= ft_chars(*b));
    chars_eq(&va, &vb)
}

/// Whether two method descriptors have the same text.
pub fn md_eq(a: &MethodDescriptor, b: &MethodDescriptor) -> (r: bool)
    ensures
        r == (md_chars(*a) == md_chars(*b)),
{
    let sa = a.descriptor_string();
    let sb = b.descriptor_string();
    crate::text::str_eq(sa.as_str(), sb.as_str())
}

} // verus!
