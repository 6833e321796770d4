use vstd::prelude::*;
use crate::descriptor::{FieldDescriptor, parse_field_spec, simple_type_of};
use crate::instruction::Type;
use classfile_parser::constant_info::ConstantInfo;

verus! {

/// One entry of a constant pool. Float and double constants are held as
/// their IEEE-754 bit patterns.
#[derive(Debug, Clone, PartialEq)]
pub enum Constant {
    Utf8(String),
    Integer(i32),
    Float(u32),
    Long(i64),
    Double(u64),
    Class(u16),
    String(u16),
    FieldRef(u16, u16),
    MethodRef(u16, u16),
    InterfaceMethodRef(u16, u16),
    NameAndType(u16, u16),
    /// Method handles, method types, invokedynamic entries and the unusable
    /// slot after a long or double.
    Other,
}

/// An attribute of a field, a method or a code block: its name's index and its raw bytes.
#[derive(Debug, Clone)]
pub struct AttributeInfo {
    pub attribute_name_index: u16,
    pub info: Vec<u8>,
}

/// A field or method entry of a class file.
#[derive(Debug, Clone)]
pub struct MemberInfo {
    pub access_flags: u16,
    pub name_index: u16,
    pub descriptor_index: u16,
    pub attributes: Vec<AttributeInfo>,
}

/// The structure of a class file as its parser yields it.
#[derive(Debug, Clone)]
pub struct ParsedClass {
    pub minor_version: u16,
    pub major_version: u16,
    pub const_pool: Vec<Constant>,
    pub access_flags: u16,
    pub this_class: u16,
    pub super_class: u16,
    pub interfaces: Vec<u16>,
    pub fields: Vec<MemberInfo>,
    pub methods: Vec<MemberInfo>,
}

/// The body of a `Code` attribute.
#[derive(Debug, Clone)]
pub struct CodeAttribute {
    pub max_stack: u16,
    pub max_locals: u16,
    pub code: Vec<u8>,
}

/// A reference to a field: declaring class, name and descriptor, with the
/// descriptor's simple type.
#[derive(Debug, Clone, PartialEq)]
pub struct FieldRef {
    pub name: String,
    pub class: String,
    pub descriptor: String,
    pub typ: Type,
}

/// A reference to a method: declaring class, name and descriptor.
#[derive(Debug, Clone, PartialEq)]
pub struct MethodRef {
    pub name: String,
    pub class: String,
    pub descriptor: String,
}

/// The entry at the 1-based `index` of a pool.
pub open spec fn constant_spec(pool: Seq<Constant>, index: u16) -> Option<Constant> {
    if index == 0 || index > pool.len() {
        None
    } else {
        Some(pool[index - 1])
    }
}

pub open spec fn utf8_spec(pool: Seq<Constant>, index: u16) -> Option<Seq<char>> {
    match constant_spec(pool, index) {
        Some(Constant::Utf8(s)) => Some(s@),
        _ => None,
    }
}

/// The name of the class entry at `index`.
pub open spec fn class_spec(pool: Seq<Constant>, index: u16) -> Option<Seq<char>> {
    match constant_spec(pool, index) {
        Some(Constant::Class(n)) => utf8_spec(pool, n),
        _ => None,
    }
}

pub open spec fn name_and_type_spec(pool: Seq<Constant>, index: u16) -> Option<(Seq<char>, Seq<char>)> {
    match constant_spec(pool, index) {
        Some(Constant::NameAndType(n, d)) => match (utf8_spec(pool, n), utf8_spec(pool, d)) {
            (Some(a), Some(b)) => Some((a, b)),
            _ => None,
        },
        _ => None,
    }
}

/// Class, name and descriptor of a member reference made of a class entry
/// and a name-and-type entry.
pub open spec fn member_ref_spec(pool: Seq<Constant>, class_index: u16, nat_index: u16) -> Option<
    (Seq<char>, Seq<char>, Seq<char>),
> {
    match (name_and_type_spec(pool, nat_index), class_spec(pool, class_index)) {
        (Some((n, d)), Some(c)) => Some((c, n, d)),
        _ => None,
    }
}

pub open spec fn field_ref_spec(pool: Seq<Constant>, index: u16) -> Option<(Seq<char>, Seq<char>, Seq<char>)> {
    match constant_spec(pool, index) {
        Some(Constant::FieldRef(c, n)) => match member_ref_spec(pool, c, n) {
            Some((cl, nm, d)) => if parse_field_spec(d) is Some {
                Some((cl, nm, d))
            } else {
                None
            },
            None => None,
        },
        _ => None,
    }
}

pub open spec fn method_ref_spec(pool: Seq<Constant>, index: u16) -> Option<(Seq<char>, Seq<char>, Seq<char>)> {
    match constant_spec(pool, index) {
        Some(Constant::MethodRef(c, n)) => member_ref_spec(pool, c, n),
        _ => None,
    }
}

pub open spec fn interface_method_ref_spec(pool: Seq<Constant>, index: u16) -> Option<
    (Seq<char>, Seq<char>, Seq<char>),
> {
    match constant_spec(pool, index) {
        Some(Constant::InterfaceMethodRef(c, n)) => member_ref_spec(pool, c, n),
        _ => None,
    }
}

impl FieldRef {
    /// A field reference; the descriptor must parse.
    pub fn new(name: &str, class: &str, descriptor: &str) -> (r: Result<FieldRef, String>)
        ensures
            r is Ok <==> parse_field_spec(descriptor@) is Some,
            r matches Ok(f) ==> f.name@ == name@ && f.class@ == class@ && f.descriptor@
                == descriptor@ && f.typ == simple_type_of(
                parse_field_spec(descriptor@)->Some_0.base,
                parse_field_spec(descriptor@)->Some_0.num_array,
            ),
    {
        let typ = match FieldDescriptor::parse(descriptor) {
            Some(d) => d.simple_typ(),
            None => {
                return Err("Invalid Field Descriptor".to_owned());
            },
        };
        Ok(FieldRef {
            name: name.to_owned(),
            class: class.to_owned(),
            descriptor: descriptor.to_owned(),
            typ: typ,
        })
    }

    pub fn name(&self) -> (r: &str)
        ensures
            r@ == self.name@,
    {
        self.name.as_str()
    }

    pub fn class(&self) -> (r: &str)
        ensures
            r@ == self.class@,
    {
        self.class.as_str()
    }

    pub fn descriptor(&self) -> (r: &str)
        ensures
            r@ == self.descriptor@,
    {
        self.descriptor.as_str()
    }

    pub fn typ(&self) -> (r: &Type)
        ensures
            *r == self.typ,
    {
        &self.typ
    }
}

impl MethodRef {
    pub fn new(name: &str, class: &str, descriptor: &str) -> (r: MethodRef)
        ensures
            r.name@ == name@,
            r.class@ == class@,
            r.descriptor@ == descriptor@,
    {
        MethodRef { name: name.to_owned(), class: class.to_owned(), descriptor: descriptor.to_owned() }
    }

    pub fn name(&self) -> (r: &str)
        ensures
            r@ == self.name@,
    {
        self.name.as_str()
    }

    pub fn class(&self) -> (r: &str)
        ensures
            r@ == self.class@,
    {
        self.class.as_str()
    }

    pub fn descriptor(&self) -> (r: &str)
        ensures
            r@ == self.descriptor@,
    {
        self.descriptor.as_str()
    }
}

impl ParsedClass {
    /// The entry at the 1-based `index`; 0 and indices past the end are errors.
    pub fn constant(&self, index: u16) -> (r: Result<&Constant, String>)
        ensures
            r is Ok <==> constant_spec(self.const_pool@, index) is Some,
            r matches Ok(c) ==> constant_spec(self.const_pool@, index) == Some(*c),
    {
        if index == 0 || index as usize > self.const_pool.len() {
            return Err("index out of bounds".to_owned());
        }
        Ok(&self.const_pool[(index - 1) as usize])
    }

    pub fn constant_utf8(&self, index: u16) -> (r: Result<&str, String>)
        ensures
            r is Ok <==> utf8_spec(self.const_pool@, index) is Some,
            r matches Ok(s) ==> utf8_spec(self.const_pool@, index) == Some(s@),
    {
        match self.constant(index)? {
            Constant::Utf8(s) => Ok(s.as_str()),
            _ => Err("Not a utf8 constant".to_owned()),
        }
    }

    pub fn constant_class(&self, index: u16) -> (r: Result<&str, String>)
        ensures
            r is Ok <==> class_spec(self.const_pool@, index) is Some,
            r matches Ok(s) ==> class_spec(self.const_pool@, index) == Some(s@),
    {
        match self.constant(index)? {
            Constant::Class(n) => self.constant_utf8(*n),
            _ => Err("Not a class constant".to_owned()),
        }
    }

    pub fn constant_name_and_type(&self, index: u16) -> (r: Result<(&str, &str), String>)
        ensures
            r is Ok <==> name_and_type_spec(self.const_pool@, index) is Some,
            r matches Ok((n, d)) ==> name_and_type_spec(self.const_pool@, index) == Some((n@, d@)),
    {
        match self.constant(index)? {
            Constant::NameAndType(n, d) => {
                let name = self.constant_utf8(*n)?;
                let desc = self.constant_utf8(*d)?;
                Ok((name, desc))
            },
            _ => Err("Not a name and type constant".to_owned()),
        }
    }

    fn member_ref(&self, class_index: u16, nat_index: u16) -> (r: Result<MethodRef, String>)
        ensures
            r is Ok <==> member_ref_spec(self.const_pool@, class_index, nat_index) is Some,
            r matches Ok(m) ==> member_ref_spec(self.const_pool@, class_index, nat_index) == Some(
                (m.class@, m.name@, m.descriptor@),
            ),
    {
        let (name, typ) = self.constant_name_and_type(nat_index)?;
        let class = self.constant_class(class_index)?;
        Ok(MethodRef::new(name, class, typ))
    }

    pub fn constant_field_ref(&self, index: u16) -> (r: Result<FieldRef, String>)
        ensures
            r is Ok <==> field_ref_spec(self.const_pool@, index) is Some,
            r matches Ok(f) ==> field_ref_spec(self.const_pool@, index) == Some(
                (f.class@, f.name@, f.descriptor@),
            ),
    {
        match self.constant(index)? {
            Constant::FieldRef(c, n) => {
                let m = self.member_ref(*c, *n)?;
                FieldRef::new(m.name.as_str(), m.class.as_str(), m.descriptor.as_str())
            },
            _ => Err("Not a field reference constant".to_owned()),
        }
    }

    pub fn constant_method_ref(&self, index: u16) -> (r: Result<MethodRef, String>)
        ensures
            r is Ok <==> method_ref_spec(self.const_pool@, index) is Some,
            r matches Ok(m) ==> method_ref_spec(self.const_pool@, index) == Some(
                (m.class@, m.name@, m.descriptor@),
            ),
    {
        match self.constant(index)? {
            Constant::MethodRef(c, n) => self.member_ref(*c, *n),
            _ => Err("Not a method reference constant".to_owned()),
        }
    }

    pub fn constant_interface_method_ref(&self, index: u16) -> (r: Result<MethodRef, String>)
        ensures
            r is Ok <==> interface_method_ref_spec(self.const_pool@, index) is Some,
            r matches Ok(m) ==> interface_method_ref_spec(self.const_pool@, index) == Some(
                (m.class@, m.name@, m.descriptor@),
            ),
    {
        match self.constant(index)? {
            Constant::InterfaceMethodRef(c, n) => self.member_ref(*c, *n),
            _ => Err("Not an interface method reference constant".to_owned()),
        }
    }
}

/// Whether classfile_parser reads these bytes as a class file.
pub uninterp spec fn class_bytes_parse(b: Seq<u8>) -> bool;

/// The version classfile_parser reads from the bytes of a class file:
/// minor, then major.
pub uninterp spec fn class_version_of(b: Seq<u8>) -> (u16, u16);

/// What classfile_parser reads from the bytes of a `Code` attribute:
/// maximum stack, maximum locals and the code bytes.
pub uninterp spec fn code_attribute_of(info: Seq<u8>) -> Option<(u16, u16, Seq<u8>)>;

/// Whether the pool count of a class file (bytes 8 and 9) is zero.
pub open spec fn zero_pool_count(b: Seq<u8>) -> bool {
    b.len() >= 10 && b[8] == 0 && b[9] == 0
}

#[verifier::external_type_specification]
#[verifier::external_body]
pub struct ExRawClassFile(classfile_parser::ClassFile);

/// Relies on classfile_parser::class_parser to read the bytes of a class file
/// into its structure, with its minor and major version. The parser
/// subtracts one from the pool count at bytes 8 and 9, so a zero count there
/// is left out.
#[verifier::external_body]
fn parse_raw(bytes: &[u8]) -> (r: Option<(classfile_parser::ClassFile, u16, u16)>)
    requires
        !(bytes@.len() >= 10 && bytes@[8] == 0 && bytes@[9] == 0),
    ensures
        r is Some <==> class_bytes_parse(bytes@),
        r matches Some((_, minor, major)) ==> class_version_of(bytes@) == (minor, major),
{
    match classfile_parser::class_parser(bytes) {
        Ok((_, c)) => {
            let (minor, major) = (c.minor_version, c.major_version);
            Some((c, minor, major))
        },
        Err(_) => None,
    }
}

/// Relies on the public header fields of classfile_parser::ClassFile: minor
/// and major version, access flag bits, this class and super class indices.
#[verifier::external_body]
fn raw_header(c: &classfile_parser::ClassFile) -> (r: (u16, u16, u16, u16, u16)) {
    (c.minor_version, c.major_version, c.access_flags.bits(), c.this_class, c.super_class)
}

/// Relies on the `interfaces` field of classfile_parser::ClassFile.
#[verifier::external_body]
fn raw_interfaces(c: &classfile_parser::ClassFile) -> (r: Vec<u16>) {
    c.interfaces.clone()
}

/// Relies on the `const_pool` field of classfile_parser::ClassFile: its length.
#[verifier::external_body]
fn raw_pool_len(c: &classfile_parser::ClassFile) -> (r: usize) {
    c.const_pool.len()
}

/// Relies on classfile_parser's `ConstantInfo::Utf8`: the decoded text of entry `i`.
#[verifier::external_body]
fn raw_utf8(c: &classfile_parser::ClassFile, i: usize) -> (r: Option<String>) {
    match c.const_pool.get(i) {
        Some(classfile_parser::constant_info::ConstantInfo::Utf8(u)) => Some(u.utf8_string.clone()),
        _ => None,
    }
}

/// Relies on classfile_parser's numeric `ConstantInfo` variants: the value of
/// entry `i` as a tag (3 integer, 4 float, 5 long, 6 double) and its 64 bits;
/// a float or a double is given by its bit pattern.
#[verifier::external_body]
fn raw_number(c: &classfile_parser::ClassFile, i: usize) -> (r: Option<(u8, u64)>) {
    match c.const_pool.get(i) {
        Some(ConstantInfo::Integer(v)) => Some((3, v.value as u32 as u64)),
        Some(ConstantInfo::Float(v)) => Some((4, v.value.to_bits() as u64)),
        Some(ConstantInfo::Long(v)) => Some((5, v.value as u64)),
        Some(ConstantInfo::Double(v)) => Some((6, v.value.to_bits())),
        _ => None,
    }
}

/// Relies on classfile_parser's index-valued `ConstantInfo` variants: the tag
/// of entry `i` (7 class, 8 string, 9 field, 10 method, 11 interface method,
/// 12 name and type) and its one or two indices.
#[verifier::external_body]
fn raw_indices(c: &classfile_parser::ClassFile, i: usize) -> (r: Option<(u8, u16, u16)>) {
    match c.const_pool.get(i) {
        Some(ConstantInfo::Class(v)) => Some((7, v.name_index, 0)),
        Some(ConstantInfo::String(v)) => Some((8, v.string_index, 0)),
        Some(ConstantInfo::FieldRef(v)) => Some((9, v.class_index, v.name_and_type_index)),
        Some(ConstantInfo::MethodRef(v)) => Some((10, v.class_index, v.name_and_type_index)),
        Some(ConstantInfo::InterfaceMethodRef(v)) => Some((11, v.class_index, v.name_and_type_index)),
        Some(ConstantInfo::NameAndType(v)) => Some((12, v.name_index, v.descriptor_index)),
        _ => None,
    }
}

/// Relies on the `fields` field of classfile_parser::ClassFile and its `FieldInfo` entries.
#[verifier::external_body]
fn raw_fields(c: &classfile_parser::ClassFile) -> (r: Vec<MemberInfo>) {
    c.fields.iter().map(|f| MemberInfo {
        access_flags: f.access_flags.bits(),
        name_index: f.name_index,
        descriptor_index: f.descriptor_index,
        attributes: f.attributes.iter().map(|a| AttributeInfo {
            attribute_name_index: a.attribute_name_index,
            info: a.info.clone(),
        }).collect(),
    }).collect()
}

/// Relies on the `methods` field of classfile_parser::ClassFile and its `MethodInfo` entries.
#[verifier::external_body]
fn raw_methods(c: &classfile_parser::ClassFile) -> (r: Vec<MemberInfo>) {
    c.methods.iter().map(|m| MemberInfo {
        access_flags: m.access_flags.bits(),
        name_index: m.name_index,
        descriptor_index: m.descriptor_index,
        attributes: m.attributes.iter().map(|a| AttributeInfo {
            attribute_name_index: a.attribute_name_index,
            info: a.info.clone(),
        }).collect(),
    }).collect()
}

/// Relies on classfile_parser::attribute_info::code_attribute_parser to read
/// the body of a `Code` attribute.
#[verifier::external_body]
pub(crate) fn raw_code_attribute(info: &[u8]) -> (r: Option<CodeAttribute>)
    ensures
        match r {
            Some(c) => code_attribute_of(info@) == Some((c.max_stack, c.max_locals, c.code@)),
            None => code_attribute_of(info@) is None,
        },
{
    match classfile_parser::attribute_info::code_attribute_parser(info) {
        Ok((_, c)) => Some(CodeAttribute { max_stack: c.max_stack, max_locals: c.max_locals, code: c.code }),
        Err(_) => None,
    }
}

impl ParsedClass {
    /// Reads the bytes of a class file into its structure. A file whose
    /// constant pool count (bytes 8 and 9) is zero is refused.
    pub fn parse(bytes: &[u8]) -> (r: Option<ParsedClass>)
        ensures
            r is Some <==> (!zero_pool_count(bytes@) && class_bytes_parse(bytes@)),
            r matches Some(p) ==> class_version_of(bytes@) == (p.minor_version, p.major_version),
    {
        if bytes.len() >= 10 && bytes[8] == 0 && bytes[9] == 0 {
            return None;
        }
        let (raw, minor_version, major_version) = match parse_raw(bytes) {
            Some(c) => c,
            None => {
                return None;
            },
        };
        let (_, _, access_flags, this_class, super_class) = raw_header(&raw);
        let n = raw_pool_len(&raw);
        let mut const_pool: Vec<Constant> = Vec::new();
        let mut i: usize = 0;
        while i < n
            decreases n - i,
        {
            let c = if let Some(s) = raw_utf8(&raw, i) {
                Constant::Utf8(s)
            } else if let Some((tag, v)) = raw_number(&raw, i) {
                if tag == 3 {
                    Constant::Integer(v as u32 as i32)
                } else if tag == 4 {
                    Constant::Float(v as u32)
                } else if tag == 5 {
                    Constant::Long(v as i64)
                } else {
                    Constant::Double(v)
                }
            } else if let Some((tag, a, b)) = raw_indices(&raw, i) {
                if tag == 7 {
                    Constant::Class(a)
                } else if tag == 8 {
                    Constant::String(a)
                } else if tag == 9 {
                    Constant::FieldRef(a, b)
                } else if tag == 10 {
                    Constant::MethodRef(a, b)
                } else if tag == 11 {
                    Constant::InterfaceMethodRef(a, b)
                } else {
                    Constant::NameAndType(a, b)
                }
            } else {
                Constant::Other
            };
            const_pool.push(c);
            i = i + 1;
        }
        Some(ParsedClass {
            minor_version,
            major_version,
            const_pool,
            access_flags,
            this_class,
            super_class,
            interfaces: raw_interfaces(&raw),
            fields: raw_fields(&raw),
            methods: raw_methods(&raw),
        })
    }
}

} // verus!
