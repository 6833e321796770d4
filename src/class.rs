use vstd::prelude::*;
use crate::parsed_class::Constant;
use crate::descriptor::{FieldDescriptor, MethodDescriptor, field_words, parse_field_spec};
use crate::instruction::{Instruction, Type, targets_valid, code_ok, code_starts, decodes_to, MAX_INSTRUCTIONS_PER_METHOD};
use crate::parsed_class::{AttributeInfo, CodeAttribute, MemberInfo, ParsedClass, class_spec, utf8_spec, raw_code_attribute, code_attribute_of};
use crate::descriptor::{is_method_text, valid_method, format_method, params_words};

verus! {

pub const OBJECT_NAME: &'static str = "java/lang/Object";

/// Interfaces that every array implements, besides being an `Object`.
pub const SERIALIZABLE_NAME: &'static str = "java/io/Serializable";

pub const CLONEABLE_NAME: &'static str = "java/lang/Cloneable";

pub const ACC_PUBLIC: u16 = 0x0001;

pub const ACC_STATIC: u16 = 0x0008;

/// Class flag that changes how `invokespecial` picks its method.
pub const ACC_SUPER: u16 = 0x0020;

pub const ACC_NATIVE: u16 = 0x0100;

pub const ACC_INTERFACE: u16 = 0x0200;

/// The largest number of instance or static fields a class may declare.
pub const MAX_FIELDS: usize = 0xffff;

/// A linked class.
#[derive(Debug)]
pub struct Class {
    pub name: String,
    pub super_class: Option<String>,
    pub interfaces: Vec<String>,
    pub access_flags: u16,
    pub methods: Vec<Method>,
    pub static_fields: Vec<Field>,
    pub instance_fields: Vec<Field>,
}

#[derive(Debug)]
pub struct Method {
    pub access_flags: u16,
    pub name: String,
    pub descriptor: String,
    pub code: Option<Code>,
    /// Words the parameters take, with one for `this` unless the method is static.
    pub words_for_params: usize,
}

#[derive(Debug)]
pub struct Field {
    pub access_flags: u16,
    pub name: String,
    pub descriptor: String,
    /// Words a value of the field takes: 1, or 2 for long and double.
    pub size: usize,
}

#[derive(Debug)]
pub struct Code {
    pub max_stack: usize,
    pub max_locals: usize,
    pub code: Vec<Instruction>,
}

impl Field {
    pub open spec fn wf(&self) -> bool {
        self.size == 1 || self.size == 2
    }

    /// Reads a field entry; its descriptor must parse.
    pub fn from_class_file(info: &MemberInfo, parsed: &ParsedClass) -> (r: Result<Field, String>)
        ensures
            r is Ok <==> (utf8_spec(parsed.const_pool@, info.name_index) is Some && (utf8_spec(
                parsed.const_pool@,
                info.descriptor_index,
            ) matches Some(d) && parse_field_spec(d) is Some)),
            r matches Ok(f) ==> {
                &&& f.wf()
                &&& utf8_spec(parsed.const_pool@, info.name_index) == Some(f.name@)
                &&& utf8_spec(parsed.const_pool@, info.descriptor_index) == Some(f.descriptor@)
                &&& f.size == field_words(parse_field_spec(f.descriptor@)->Some_0)
                &&& f.access_flags == info.access_flags
            },
    {
        let name = parsed.constant_utf8(info.name_index)?;
        let descriptor = parsed.constant_utf8(info.descriptor_index)?;
        let parsed_descriptor = match FieldDescriptor::parse(descriptor) {
            Some(c) => c,
            None => {
                return Err("invalid field descriptor".to_owned());
            },
        };
        Ok(Field {
            access_flags: info.access_flags,
            name: name.to_owned(),
            descriptor: descriptor.to_owned(),
            size: parsed_descriptor.word_size(),
        })
    }

    pub fn name(&self) -> (r: &str)
        ensures
            r@ == self.name@,
    {
        self.name.as_str()
    }

    pub fn descriptor(&self) -> (r: &str)
        ensures
            r@ == self.descriptor@,
    {
        self.descriptor.as_str()
    }

    pub fn size(&self) -> (r: usize)
        ensures
            r == self.size,
    {
        self.size
    }

    pub fn is_static(&self) -> (r: bool)
        ensures
            r == (self.access_flags & ACC_STATIC != 0),
    {
        self.access_flags & ACC_STATIC != 0
    }
}

impl Code {
    pub open spec fn wf(&self) -> bool {
        &&& 0 < self.code.len() <= MAX_INSTRUCTIONS_PER_METHOD
        &&& targets_valid(self.code@)
        &&& self.max_stack <= 0xffff
        &&& self.max_locals <= 0xffff
    }

    /// Decodes the body of a `Code` attribute.
    pub fn from_class_file(attr: &CodeAttribute, parsed: &ParsedClass) -> (r: Result<Code, String>)
        ensures
            r matches Ok(c) ==> c.max_stack == attr.max_stack && c.max_locals == attr.max_locals
                && targets_valid(c.code@) && c.code.len() <= attr.code.len(),
            r is Ok <==> code_ok(attr.code@, parsed.const_pool@),
            r matches Ok(c) ==> c.code.len() == code_starts(attr.code@).len(),
            r matches Ok(c) ==> decodes_to(attr.code@, c.code@),
    {
        Ok(Code {
            max_stack: attr.max_stack as usize,
            max_locals: attr.max_locals as usize,
            code: Instruction::decode(attr.code.as_slice(), parsed)?,
        })
    }

    pub fn max_stack(&self) -> (r: usize)
        ensures
            r == self.max_stack,
    {
        self.max_stack
    }

    pub fn max_locals(&self) -> (r: usize)
        ensures
            r == self.max_locals,
    {
        self.max_locals
    }

    pub fn code(&self) -> (r: &Vec<Instruction>)
        ensures
            r == &self.code,
    {
        &self.code
    }
}

/// `a` and `b` hold the same text.
pub fn str_eq(a: &str, b: &str) -> (r: bool)
    ensures
        r == (a@ == b@),
{
    a.to_owned() == b.to_owned()
}

/// The attribute is a `Code` attribute.
pub open spec fn is_code_attr(pool: Seq<Constant>, a: AttributeInfo) -> bool {
    utf8_spec(pool, a.attribute_name_index) == Some("Code"@)
}

/// The body of a `Code` attribute does not parse, or holds no code or more
/// than `MAX_INSTRUCTIONS_PER_METHOD` bytes of it.
pub open spec fn code_bad(a: AttributeInfo) -> bool {
    match code_attribute_of(a.info@) {
        None => true,
        Some((_, _, b)) => b.len() == 0 || b.len() > MAX_INSTRUCTIONS_PER_METHOD,
    }
}

pub open spec fn attr_named_not_code(pool: Seq<Constant>, a: AttributeInfo) -> bool {
    utf8_spec(pool, a.attribute_name_index) matches Some(n) && n != "Code"@
}

/// `c` was read from the `Code` attribute `a`: its limits, and the decoding
/// of its code bytes.
pub open spec fn code_from_attr(a: AttributeInfo, c: Code) -> bool {
    code_attribute_of(a.info@) matches Some((ms, ml, b)) && c.max_stack == ms && c.max_locals == ml
        && c.code.len() <= b.len() && 0 < b.len() <= MAX_INSTRUCTIONS_PER_METHOD && decodes_to(b, c.code@)
}

/// A method entry that links without code: its name and descriptor resolve,
/// the descriptor is a method descriptor, every attribute name resolves and
/// none is `Code`.
pub open spec fn method_ok_without_code(pool: Seq<Constant>, info: MemberInfo) -> bool {
    &&& utf8_spec(pool, info.name_index) is Some
    &&& utf8_spec(pool, info.descriptor_index) matches Some(d) && is_method_text(d)
    &&& forall|k: int|
        0 <= k < info.attributes.len() ==> attr_named_not_code(pool, #[trigger] info.attributes[k])
}

/// A `Code` attribute whose body parses and holds between 1 and
/// `MAX_INSTRUCTIONS_PER_METHOD` bytes of code that decodes.
pub open spec fn code_attr_ok(pool: Seq<Constant>, a: AttributeInfo) -> bool {
    code_attribute_of(a.info@) matches Some((_, _, b)) && 0 < b.len() <= MAX_INSTRUCTIONS_PER_METHOD
        && code_ok(b, pool)
}

/// A method entry links: its name and descriptor resolve, the descriptor is
/// a method descriptor, every attribute name resolves, and there is at most
/// one `Code` attribute, whose code decodes.
pub open spec fn method_ok(pool: Seq<Constant>, info: MemberInfo) -> bool {
    &&& utf8_spec(pool, info.name_index) is Some
    &&& utf8_spec(pool, info.descriptor_index) matches Some(d) && is_method_text(d)
    &&& forall|k: int|
        0 <= k < info.attributes.len() ==> (#[trigger] utf8_spec(pool, info.attributes[k].attribute_name_index)) is Some
    &&& forall|k: int|
        0 <= k < info.attributes.len() && is_code_attr(pool, #[trigger] info.attributes[k]) ==> code_attr_ok(
            pool,
            info.attributes[k],
        )
    &&& forall|j: int, k: int|
        0 <= j < k < info.attributes.len() && is_code_attr(pool, #[trigger] info.attributes[j]) ==> !is_code_attr(
            pool,
            #[trigger] info.attributes[k],
        )
}

impl Method {
    pub open spec fn wf(&self) -> bool {
        &&& self.words_for_params <= 2 * crate::descriptor::MAX_PARAMS + 1
        &&& self.code matches Some(c) ==> c.wf()
    }

    /// Reads a method entry: its name, its descriptor, which must parse, and
    /// its one `Code` attribute if it has one, which must be non-empty and at
    /// most `MAX_INSTRUCTIONS_PER_METHOD` bytes long.
    pub fn from_class_file(info: &MemberInfo, parsed: &ParsedClass) -> (r: Result<Method, String>)
        ensures
            r matches Ok(m) ==> {
                &&& m.wf()
                &&& utf8_spec(parsed.const_pool@, info.name_index) == Some(m.name@)
                &&& utf8_spec(parsed.const_pool@, info.descriptor_index) == Some(m.descriptor@)
                &&& m.access_flags == info.access_flags
            },
            utf8_spec(parsed.const_pool@, info.name_index) is None ==> r is Err,
            utf8_spec(parsed.const_pool@, info.descriptor_index) is None ==> r is Err,
            utf8_spec(parsed.const_pool@, info.descriptor_index) matches Some(d) ==> (!is_method_text(d)
                ==> r is Err),
            r matches Ok(m) ==> exists|w: (Seq<crate::descriptor::FieldDescriptorView>, Option<crate::descriptor::FieldDescriptorView>)|
                #![auto]
                valid_method(w.0, w.1) && format_method(w.0, w.1) == m.descriptor@ && m.words_for_params
                    == params_words(w.0) + (if info.access_flags & ACC_STATIC == 0 {
                    1int
                } else {
                    0int
                }),
            r is Ok ==> forall|k: int|
                0 <= k < info.attributes.len() ==> (#[trigger] utf8_spec(
                    parsed.const_pool@,
                    info.attributes[k].attribute_name_index,
                )) is Some,
            r is Ok ==> forall|k: int|
                0 <= k < info.attributes.len() && is_code_attr(parsed.const_pool@, #[trigger] info.attributes[k])
                    ==> !code_bad(info.attributes[k]),
            r is Ok ==> forall|j: int, k: int|
                0 <= j < k < info.attributes.len() && is_code_attr(parsed.const_pool@, #[trigger] info.attributes[j])
                    ==> !is_code_attr(parsed.const_pool@, #[trigger] info.attributes[k]),
            r matches Ok(m) ==> (m.code is Some <==> exists|k: int|
                0 <= k < info.attributes.len() && is_code_attr(parsed.const_pool@, #[trigger] info.attributes[k])),
            r matches Ok(m) ==> (m.code matches Some(c) ==> exists|k: int|
                0 <= k < info.attributes.len() && is_code_attr(parsed.const_pool@, #[trigger] info.attributes[k])
                    && code_from_attr(info.attributes[k], c)),
            method_ok_without_code(parsed.const_pool@, *info) ==> (r matches Ok(m) && m.code is None),
            method_ok(parsed.const_pool@, *info) ==> r is Ok,
    {
        let name = parsed.constant_utf8(info.name_index)?;
        let descriptor = parsed.constant_utf8(info.descriptor_index)?;
        let mut code: Option<Code> = None;
        let mut i: usize = 0;
        while i < info.attributes.len()
            invariant
                i <= info.attributes.len(),
                code matches Some(c) ==> c.wf(),
                forall|k: int|
                    0 <= k < i ==> (#[trigger] utf8_spec(parsed.const_pool@, info.attributes[k].attribute_name_index))
                        is Some,
                forall|k: int|
                    0 <= k < i && is_code_attr(parsed.const_pool@, #[trigger] info.attributes[k]) ==> !code_bad(
                        info.attributes[k],
                    ),
                forall|j: int, k: int|
                    0 <= j < k < i && is_code_attr(parsed.const_pool@, #[trigger] info.attributes[j]) ==> !is_code_attr(
                        parsed.const_pool@,
                        #[trigger] info.attributes[k],
                    ),
                code is Some <==> exists|k: int| 0 <= k < i && is_code_attr(parsed.const_pool@, #[trigger] info.attributes[k]),
                code matches Some(c) ==> exists|k: int|
                    0 <= k < i && is_code_attr(parsed.const_pool@, #[trigger] info.attributes[k])
                        && code_from_attr(info.attributes[k], c),
                method_ok_without_code(parsed.const_pool@, *info) ==> code is None,
                method_ok(parsed.const_pool@, *info) ==> (code is Some <==> exists|k: int| 0 <= k < i && is_code_attr(parsed.const_pool@, #[trigger] info.attributes[k])),
            decreases info.attributes.len() - i,
        {
            let attr = &info.attributes[i];
            let attr_name = parsed.constant_utf8(attr.attribute_name_index)?;
            proof {
                if method_ok_without_code(parsed.const_pool@, *info) {
                    assert(attr_named_not_code(parsed.const_pool@, info.attributes[i as int]));
                }
            }
            if str_eq(attr_name, "Code") {
                if code.is_some() {
                    proof {
                        if method_ok(parsed.const_pool@, *info) {
                            let j = choose|j: int| 0 <= j < i && is_code_attr(parsed.const_pool@, #[trigger] info.attributes[j]);
                            assert(!is_code_attr(parsed.const_pool@, info.attributes[i as int]));
                        }
                    }
                    return Err("two code attributes".to_owned());
                }
                proof {
                    if method_ok(parsed.const_pool@, *info) {
                        assert(code_attr_ok(parsed.const_pool@, info.attributes[i as int]));
                    }
                }
                let code_attr = match raw_code_attribute(attr.info.as_slice()) {
                    Some(c) => c,
                    None => {
                        return Err("invalid code attribute".to_owned());
                    },
                };
                if code_attr.code.len() == 0 {
                    return Err("Code may not be empty".to_owned());
                }
                if code_attr.code.len() > MAX_INSTRUCTIONS_PER_METHOD {
                    return Err("Code of method is bigger than the maximum".to_owned());
                }
                let c = Code::from_class_file(&code_attr, parsed)?;
                if c.code.len() == 0 {
                    return Err("Code may not be empty".to_owned());
                }
                code = Some(c);
                proof {
                    assert(is_code_attr(parsed.const_pool@, info.attributes[i as int]));
                }
            }
            i = i + 1;
        }
        let parsed_descriptor = match MethodDescriptor::parse(descriptor) {
            Some(c) => c,
            None => {
                return Err("invalid method descriptor".to_owned());
            },
        };
        let mut words_for_params = parsed_descriptor.words_for_params();
        proof {
            lemma_params_words_bound(parsed_descriptor);
            let w = (crate::descriptor::views_of(parsed_descriptor.params@), crate::descriptor::opt_view(parsed_descriptor.ret_type));
            assert(valid_method(w.0, w.1));
        }
        if info.access_flags & ACC_STATIC == 0 {
            words_for_params = words_for_params + Type::Reference.word_size();
        }
        Ok(Method {
            access_flags: info.access_flags,
            name: name.to_owned(),
            descriptor: descriptor.to_owned(),
            code: code,
            words_for_params: words_for_params,
        })
    }

    pub fn name(&self) -> (r: &str)
        ensures
            r@ == self.name@,
    {
        self.name.as_str()
    }

    pub fn descriptor(&self) -> (r: &str)
        ensures
            r@ == self.descriptor@,
    {
        self.descriptor.as_str()
    }

    pub fn access_flags(&self) -> (r: u16)
        ensures
            r == self.access_flags,
    {
        self.access_flags
    }

    pub fn code(&self) -> (r: Option<&Code>)
        ensures
            r matches Some(c) ==> self.code == Some(*c),
            r is None <==> self.code is None,
    {
        self.code.as_ref()
    }

    pub fn words_for_params(&self) -> (r: usize)
        ensures
            r == self.words_for_params,
    {
        self.words_for_params
    }
}

/// The entries of a prefix of `fs` of each kind are no more than those of `fs`.
proof fn lemma_members_prefix_len(fs: Seq<MemberInfo>, n: int, stat: bool)
    requires
        0 <= n <= fs.len(),
    ensures
        members_with(fs.subrange(0, n), stat).len() <= members_with(fs, stat).len(),
    decreases fs.len(),
{
    if n < fs.len() {
        assert(fs.drop_last().subrange(0, n) =~= fs.subrange(0, n));
        lemma_members_prefix_len(fs.drop_last(), n, stat);
    } else {
        assert(fs.subrange(0, n) =~= fs);
    }
}

proof fn lemma_params_words_bound(m: MethodDescriptor)
    requires
        m.wf(),
    ensures
        crate::descriptor::params_words(crate::descriptor::views_of(m.params@)) <= 2 * m.params.len(),
{
    let vs = crate::descriptor::views_of(m.params@);
    assert forall|k: nat| k <= vs.len() implies crate::descriptor::params_words(#[trigger] vs.subrange(0, k as int))
        <= 2 * k by {
        lemma_prefix_words(vs, k);
    }
    assert(vs.subrange(0, vs.len() as int) =~= vs);
}

proof fn lemma_prefix_words(vs: Seq<crate::descriptor::FieldDescriptorView>, k: nat)
    requires
        k <= vs.len(),
    ensures
        crate::descriptor::params_words(vs.subrange(0, k as int)) <= 2 * k,
    decreases k,
{
    if k > 0 {
        lemma_prefix_words(vs, (k - 1) as nat);
        assert(vs.subrange(0, k as int).drop_last() =~= vs.subrange(0, k - 1));
    }
}

/// The entries of `fs` that are static (`stat`) or not, in order.
pub open spec fn members_with(fs: Seq<MemberInfo>, stat: bool) -> Seq<MemberInfo>
    decreases fs.len(),
{
    if fs.len() == 0 {
        Seq::empty()
    } else {
        let r = members_with(fs.drop_last(), stat);
        if (fs.last().access_flags & ACC_STATIC != 0) == stat {
            r.push(fs.last())
        } else {
            r
        }
    }
}

/// Field `f` was read from entry `info`.
pub open spec fn field_from(pool: Seq<Constant>, info: MemberInfo, f: Field) -> bool {
    &&& utf8_spec(pool, info.name_index) == Some(f.name@)
    &&& utf8_spec(pool, info.descriptor_index) == Some(f.descriptor@)
    &&& f.access_flags == info.access_flags
    &&& f.size == field_words(parse_field_spec(f.descriptor@)->Some_0)
}

/// Method `m` was read from entry `info`.
pub open spec fn method_from(pool: Seq<Constant>, info: MemberInfo, m: Method) -> bool {
    &&& utf8_spec(pool, info.name_index) == Some(m.name@)
    &&& utf8_spec(pool, info.descriptor_index) == Some(m.descriptor@)
    &&& m.access_flags == info.access_flags
}

pub open spec fn field_ok(pool: Seq<Constant>, info: MemberInfo) -> bool {
    utf8_spec(pool, info.name_index) is Some && (utf8_spec(pool, info.descriptor_index) matches Some(d)
        && parse_field_spec(d) is Some)
}

/// A parsed class links: its name resolves; `java/lang/Object` has no
/// superclass and every other class has one, `java/lang/Object` for an
/// interface; its interfaces resolve; every field links and every method
/// links; at most `MAX_FIELDS` fields of each kind.
pub open spec fn link_ok(p: ParsedClass) -> bool {
    let pool = p.const_pool@;
    &&& class_spec(pool, p.this_class) matches Some(n) && (if n == OBJECT_NAME@ {
        p.super_class == 0
    } else {
        p.super_class != 0 && (class_spec(pool, p.super_class) matches Some(s) && (p.access_flags
            & ACC_INTERFACE != 0 ==> s == OBJECT_NAME@))
    })
    &&& forall|i: int| 0 <= i < p.interfaces.len() ==> (#[trigger] class_spec(pool, p.interfaces[i])) is Some
    &&& forall|i: int| 0 <= i < p.methods.len() ==> method_ok(pool, #[trigger] p.methods[i])
    &&& forall|i: int| 0 <= i < p.fields.len() ==> field_ok(pool, #[trigger] p.fields[i])
    &&& members_with(p.fields@, true).len() <= MAX_FIELDS
    &&& members_with(p.fields@, false).len() <= MAX_FIELDS
}

pub open spec fn names_of(s: Seq<String>) -> Seq<Seq<char>> {
    s.map_values(|x: String| x@)
}

impl Class {
    pub open spec fn wf(&self) -> bool {
        &&& self.instance_fields.len() <= MAX_FIELDS
        &&& forall|i: int| 0 <= i < self.instance_fields.len() ==> #[trigger] self.instance_fields[i].wf()
        &&& self.static_fields.len() <= MAX_FIELDS
        &&& forall|i: int| 0 <= i < self.static_fields.len() ==> #[trigger] self.static_fields[i].wf()
        &&& forall|i: int| 0 <= i < self.methods.len() ==> #[trigger] self.methods[i].wf()
    }

    /// Links a parsed class. `java/lang/Object` must have no superclass and
    /// every other class must have one; an interface's superclass must be
    /// `java/lang/Object`. Fields are split into static and instance fields,
    /// each in the order of the file.
    pub fn from_class_file(parsed: &ParsedClass) -> (r: Result<Class, String>)
        ensures
            r matches Ok(c) ==> {
                &&& c.wf()
                &&& class_spec(parsed.const_pool@, parsed.this_class) == Some(c.name@)
                &&& c.access_flags == parsed.access_flags
                &&& (c.name@ == OBJECT_NAME@ <==> c.super_class is None)
                &&& (c.super_class matches Some(s) ==> class_spec(parsed.const_pool@, parsed.super_class)
                    == Some(s@))
                &&& c.interfaces.len() == parsed.interfaces.len()
                &&& forall|i: int|
                    0 <= i < c.interfaces.len() ==> class_spec(parsed.const_pool@, parsed.interfaces[i])
                        == Some(#[trigger] c.interfaces[i]@)
                &&& c.methods.len() == parsed.methods.len()
                &&& c.instance_fields.len() + c.static_fields.len() == parsed.fields.len()
                &&& forall|i: int| 0 <= i < c.static_fields.len() ==> #[trigger] c.static_fields[i].access_flags & ACC_STATIC != 0
                &&& forall|i: int| 0 <= i < c.instance_fields.len() ==> #[trigger] c.instance_fields[i].access_flags & ACC_STATIC == 0
                &&& c.instance_fields.len() == members_with(parsed.fields@, false).len()
                &&& c.static_fields.len() == members_with(parsed.fields@, true).len()
                &&& forall|i: int| 0 <= i < c.instance_fields.len() ==> field_from(parsed.const_pool@, members_with(parsed.fields@, false)[i], #[trigger] c.instance_fields[i])
                &&& forall|i: int| 0 <= i < c.static_fields.len() ==> field_from(parsed.const_pool@, members_with(parsed.fields@, true)[i], #[trigger] c.static_fields[i])
                &&& forall|i: int| 0 <= i < c.methods.len() ==> method_from(parsed.const_pool@, parsed.methods[i], #[trigger] c.methods[i])
            },
            link_ok(*parsed) ==> r is Ok,
            class_spec(parsed.const_pool@, parsed.this_class) is None ==> r is Err,
            class_spec(parsed.const_pool@, parsed.this_class) == Some(OBJECT_NAME@) && parsed.super_class != 0
                ==> r is Err,
            class_spec(parsed.const_pool@, parsed.this_class) matches Some(n) ==> (n != OBJECT_NAME@
                && parsed.super_class == 0 ==> r is Err),
            class_spec(parsed.const_pool@, parsed.super_class) matches Some(s) ==> (parsed.access_flags
                & ACC_INTERFACE != 0 && s != OBJECT_NAME@ && class_spec(parsed.const_pool@, parsed.this_class)
                != Some(OBJECT_NAME@) ==> r is Err),
    {
        let name = parsed.constant_class(parsed.this_class)?;
        let super_class = if str_eq(name, OBJECT_NAME) {
            if parsed.super_class != 0 {
                return Err("Object must not have a superclass".to_owned());
            }
            None
        } else {
            if parsed.super_class == 0 {
                return Err("Non-Object-Class must have a superclass".to_owned());
            }
            let super_class_name = parsed.constant_class(parsed.super_class)?;
            if parsed.access_flags & ACC_INTERFACE != 0 && !str_eq(super_class_name, OBJECT_NAME) {
                return Err("Interfaces must have Object as Superclass".to_owned());
            }
            Some(super_class_name.to_owned())
        };
        let mut interfaces: Vec<String> = Vec::new();
        let mut i: usize = 0;
        while i < parsed.interfaces.len()
            invariant
                i <= parsed.interfaces.len(),
                interfaces.len() == i,
                forall|k: int|
                    0 <= k < i ==> class_spec(parsed.const_pool@, parsed.interfaces[k]) == Some(
                        #[trigger] interfaces[k]@,
                    ),
            decreases parsed.interfaces.len() - i,
        {
            let n = parsed.constant_class(parsed.interfaces[i])?;
            interfaces.push(n.to_owned());
            i = i + 1;
        }
        let mut methods: Vec<Method> = Vec::new();
        let mut i: usize = 0;
        while i < parsed.methods.len()
            invariant
                i <= parsed.methods.len(),
                methods.len() == i,
                forall|k: int| 0 <= k < i ==> #[trigger] methods[k].wf(),
                forall|k: int| 0 <= k < i ==> method_from(parsed.const_pool@, parsed.methods[k], #[trigger] methods[k]),
                link_ok(*parsed) ==> forall|k: int| 0 <= k < parsed.methods.len() ==> method_ok(parsed.const_pool@, #[trigger] parsed.methods[k]),
            decreases parsed.methods.len() - i,
        {
            let m = Method::from_class_file(&parsed.methods[i], parsed)?;
            let ghost before = methods@;
            methods.push(m);
            proof {
                assert forall|k: int| 0 <= k < i + 1 implies method_from(parsed.const_pool@, parsed.methods[k], #[trigger] methods[k]) by {
                    if k < i {
                        assert(methods[k] == before[k]);
                    }
                }
            }
            i = i + 1;
        }
        let mut static_fields: Vec<Field> = Vec::new();
        let mut instance_fields: Vec<Field> = Vec::new();
        let mut i: usize = 0;
        while i < parsed.fields.len()
            invariant
                i <= parsed.fields.len(),
                instance_fields.len() + static_fields.len() == i,
                instance_fields.len() <= MAX_FIELDS,
                forall|k: int| 0 <= k < instance_fields.len() ==> #[trigger] instance_fields[k].wf(),
                static_fields.len() <= MAX_FIELDS,
                forall|k: int| 0 <= k < static_fields.len() ==> #[trigger] static_fields[k].wf(),
                forall|k: int| 0 <= k < static_fields.len() ==> #[trigger] static_fields[k].access_flags & ACC_STATIC != 0,
                forall|k: int| 0 <= k < instance_fields.len() ==> #[trigger] instance_fields[k].access_flags & ACC_STATIC == 0,
                instance_fields.len() == members_with(parsed.fields@.subrange(0, i as int), false).len(),
                static_fields.len() == members_with(parsed.fields@.subrange(0, i as int), true).len(),
                forall|k: int| 0 <= k < instance_fields.len() ==> field_from(parsed.const_pool@, members_with(parsed.fields@.subrange(0, i as int), false)[k], #[trigger] instance_fields[k]),
                forall|k: int| 0 <= k < static_fields.len() ==> field_from(parsed.const_pool@, members_with(parsed.fields@.subrange(0, i as int), true)[k], #[trigger] static_fields[k]),
                link_ok(*parsed) ==> forall|k: int| 0 <= k < parsed.fields.len() ==> field_ok(parsed.const_pool@, #[trigger] parsed.fields[k]),
                link_ok(*parsed) ==> members_with(parsed.fields@, true).len() <= MAX_FIELDS,
                link_ok(*parsed) ==> members_with(parsed.fields@, false).len() <= MAX_FIELDS,
            decreases parsed.fields.len() - i,
        {
            let f = Field::from_class_file(&parsed.fields[i], parsed)?;
            let ghost sub = parsed.fields@.subrange(0, i + 1);
            let ghost prev = parsed.fields@.subrange(0, i as int);
            proof {
                assert(sub.drop_last() =~= prev);
                if link_ok(*parsed) {
                    lemma_members_prefix_len(parsed.fields@, i + 1, true);
                    lemma_members_prefix_len(parsed.fields@, i + 1, false);
                }
            }
            let ghost before_s = static_fields@;
            let ghost before_i = instance_fields@;
            if f.is_static() {
                if static_fields.len() >= MAX_FIELDS {
                    return Err("too many fields".to_owned());
                }
                static_fields.push(f);
                proof {
                    assert forall|k: int| 0 <= k < static_fields.len() implies field_from(parsed.const_pool@, members_with(sub, true)[k], #[trigger] static_fields[k]) by {
                        if k < before_s.len() {
                            assert(static_fields[k] == before_s[k]);
                        }
                    }
                }
            } else {
                if instance_fields.len() >= MAX_FIELDS {
                    return Err("too many fields".to_owned());
                }
                instance_fields.push(f);
                proof {
                    assert forall|k: int| 0 <= k < instance_fields.len() implies field_from(parsed.const_pool@, members_with(sub, false)[k], #[trigger] instance_fields[k]) by {
                        if k < before_i.len() {
                            assert(instance_fields[k] == before_i[k]);
                        }
                    }
                }
            }
            i = i + 1;
        }
        proof {
            assert(parsed.fields@.subrange(0, i as int) =~= parsed.fields@);
        }
        Ok(Class {
            name: name.to_owned(),
            super_class,
            interfaces,
            access_flags: parsed.access_flags,
            methods,
            instance_fields,
            static_fields,
        })
    }

    /// The first method of this class with the given name and descriptor.
    pub fn method_by_signature(&self, name: &str, descriptor: &str) -> (r: Option<&Method>)
        ensures
            r matches Some(m) ==> declares_at(self.methods@, name@, descriptor@, *m),
            r is None <==> !declares(self.methods@, name@, descriptor@),
    {
        let mut i: usize = 0;
        while i < self.methods.len()
            invariant
                i <= self.methods.len(),
                forall|k: int|
                    0 <= k < i ==> !(#[trigger] self.methods[k].name@ == name@ && self.methods[k].descriptor@
                        == descriptor@),
            decreases self.methods.len() - i,
        {
            let m = &self.methods[i];
            if str_eq(m.name.as_str(), name) && str_eq(m.descriptor.as_str(), descriptor) {
                return Some(m);
            }
            i = i + 1;
        }
        None
    }

    /// The position of the first method with the given name and descriptor.
    pub fn method_index(&self, name: &str, descriptor: &str) -> (r: Option<usize>)
        ensures
            r matches Some(i) ==> i < self.methods.len() && declares_at(self.methods@, name@, descriptor@, self.methods[i as int]),
            r is None <==> !declares(self.methods@, name@, descriptor@),
    {
        let mut i: usize = 0;
        while i < self.methods.len()
            invariant
                i <= self.methods.len(),
                forall|k: int|
                    0 <= k < i ==> !(#[trigger] self.methods[k].name@ == name@ && self.methods[k].descriptor@
                        == descriptor@),
            decreases self.methods.len() - i,
        {
            let m = &self.methods[i];
            if str_eq(m.name.as_str(), name) && str_eq(m.descriptor.as_str(), descriptor) {
                return Some(i);
            }
            i = i + 1;
        }
        None
    }

    pub fn name(&self) -> (r: &str)
        ensures
            r@ == self.name@,
    {
        self.name.as_str()
    }

    pub fn methods(&self) -> (r: &Vec<Method>)
        ensures
            r == &self.methods,
    {
        &self.methods
    }

    pub fn instance_fields(&self) -> (r: &Vec<Field>)
        ensures
            r == &self.instance_fields,
    {
        &self.instance_fields
    }

    pub fn static_fields(&self) -> (r: &Vec<Field>)
        ensures
            r == &self.static_fields,
    {
        &self.static_fields
    }

    pub fn super_class(&self) -> (r: Option<&String>)
        ensures
            r matches Some(c) ==> self.super_class == Some(*c),
            r is None <==> self.super_class is None,
    {
        self.super_class.as_ref()
    }

    pub fn interfaces(&self) -> (r: &Vec<String>)
        ensures
            r == &self.interfaces,
    {
        &self.interfaces
    }

    pub fn has_acc_super_flag(&self) -> (r: bool)
        ensures
            r == (self.access_flags & ACC_SUPER != 0),
    {
        self.access_flags & ACC_SUPER != 0
    }
}

/// `m` is the first of `ms` with this name and descriptor.
pub open spec fn declares_at(ms: Seq<Method>, name: Seq<char>, desc: Seq<char>, m: Method) -> bool {
    exists|i: int|
        0 <= i < ms.len() && ms[i] == m && m.name@ == name && m.descriptor@ == desc && forall|k: int|
            0 <= k < i ==> !(#[trigger] ms[k].name@ == name && ms[k].descriptor@ == desc)
}

/// Some method of `ms` has this name and descriptor.
pub open spec fn declares(ms: Seq<Method>, name: Seq<char>, desc: Seq<char>) -> bool {
    exists|i: int| 0 <= i < ms.len() && #[trigger] ms[i].name@ == name && ms[i].descriptor@ == desc
}

} // verus!
