use vstd::prelude::*;
use crate::class::{
    Class,
    Field,
    str_eq,
    declares,
    names_of,
    MAX_FIELDS,
    OBJECT_NAME,
    CLONEABLE_NAME,
    SERIALIZABLE_NAME,
};
use crate::class_loader::{ClassLoader, class_named, MAX_LOADED_CLASSES};
use crate::descriptor::{BaseView, FieldDescriptor, FieldDescriptorView, simple_type_of};
use crate::errors::ClassLoadingError;
use crate::instruction::Type;
use crate::parsed_class::FieldRef;

verus! {

/// Why a walk up the class hierarchy stopped: a class that is not loaded, or
/// a chain longer than the number of loaded classes, which only a cycle makes.
pub enum ChainFault {
    Missing(Seq<char>),
    Circular,
}

/// `e` is the error that reports `f`.
pub open spec fn fault_is(e: ClassLoadingError, f: ChainFault) -> bool {
    match f {
        ChainFault::Missing(n) => e matches ClassLoadingError::NoClassDefFound(m) && m@ == n,
        ChainFault::Circular => e is ClassCircularity,
    }
}

/// The most words of instance fields one class declares.
pub const MAX_CLASS_WORDS: usize = 2 * MAX_FIELDS;

/// Words taken by a list of fields.
pub open spec fn fields_words(fs: Seq<Field>) -> int
    decreases fs.len(),
{
    if fs.len() == 0 {
        0
    } else {
        fields_words(fs.drop_last()) + fs.last().size
    }
}

/// Words of an instance of `name`: its own instance fields and those of
/// every superclass up to `java/lang/Object`.
pub open spec fn instance_size_spec(cs: Seq<Class>, name: Seq<char>, fuel: nat) -> Result<int, ChainFault>
    decreases fuel,
{
    if fuel == 0 {
        Err(ChainFault::Circular)
    } else {
        match class_named(cs, name) {
            None => Err(ChainFault::Missing(name)),
            Some(c) => {
                let own = fields_words(c.instance_fields@);
                match c.super_class {
                    None => Ok(own),
                    Some(s) => match instance_size_spec(cs, s@, (fuel - 1) as nat) {
                        Ok(v) => Ok(own + v),
                        Err(f) => Err(f),
                    },
                }
            },
        }
    }
}

pub open spec fn field_matches(f: Field, name: Seq<char>, desc: Seq<char>) -> bool {
    f.name@ == name && f.descriptor@ == desc
}

/// `j` is the first position of `fs` with this name and descriptor.
pub open spec fn first_field_at(fs: Seq<Field>, name: Seq<char>, desc: Seq<char>, j: int) -> bool {
    0 <= j < fs.len() && field_matches(fs[j], name, desc) && forall|k: int|
        0 <= k < j ==> !field_matches(#[trigger] fs[k], name, desc)
}

pub open spec fn first_field(fs: Seq<Field>, name: Seq<char>, desc: Seq<char>) -> Option<int> {
    if exists|j: int| first_field_at(fs, name, desc, j) {
        Some(choose|j: int| first_field_at(fs, name, desc, j))
    } else {
        None
    }
}

/// Walking up from class `name`: the offset of the field `fname: fdesc` in
/// the nearest class that declares it (the words of its superclasses, then
/// of the fields before it), if any does, and the instance size.
pub open spec fn offset_spec(
    cs: Seq<Class>,
    fname: Seq<char>,
    fdesc: Seq<char>,
    name: Seq<char>,
    fuel: nat,
) -> Result<(Option<int>, int), ChainFault>
    decreases fuel,
{
    if fuel == 0 {
        Err(ChainFault::Circular)
    } else {
        match class_named(cs, name) {
            None => Err(ChainFault::Missing(name)),
            Some(c) => {
                let fs = c.instance_fields@;
                let rest = match c.super_class {
                    None => Ok((None, 0)),
                    Some(s) => offset_spec(cs, fname, fdesc, s@, (fuel - 1) as nat),
                };
                match rest {
                    Err(f) => Err(f),
                    Ok((o, t)) => Ok(
                        (
                            match first_field(fs, fname, fdesc) {
                                Some(j) => Some(fields_words(fs.subrange(0, j)) + t),
                                None => o,
                            },
                            fields_words(fs) + t,
                        ),
                    ),
                }
            },
        }
    }
}

/// Whether `sup` stands strictly above `name` in its superclass chain.
pub open spec fn strict_super_spec(cs: Seq<Class>, sup: Seq<char>, name: Seq<char>, fuel: nat) -> Result<
    bool,
    ChainFault,
>
    decreases fuel,
{
    if fuel == 0 {
        Err(ChainFault::Circular)
    } else {
        match class_named(cs, name) {
            None => Err(ChainFault::Missing(name)),
            Some(c) => match c.super_class {
                None => Ok(false),
                Some(s) => if s@ == sup {
                    Ok(true)
                } else {
                    strict_super_spec(cs, sup, s@, (fuel - 1) as nat)
                },
            },
        }
    }
}

/// The first class, from `name` upwards, that declares the method `mname: mdesc`.
pub open spec fn method_owner_spec(
    cs: Seq<Class>,
    name: Seq<char>,
    mname: Seq<char>,
    mdesc: Seq<char>,
    fuel: nat,
) -> Result<Option<Seq<char>>, ChainFault>
    decreases fuel,
{
    if fuel == 0 {
        Err(ChainFault::Circular)
    } else {
        match class_named(cs, name) {
            None => Err(ChainFault::Missing(name)),
            Some(c) => if declares(c.methods@, mname, mdesc) {
                Ok(Some(name))
            } else {
                match c.super_class {
                    None => Ok(None),
                    Some(s) => method_owner_spec(cs, s@, mname, mdesc, (fuel - 1) as nat),
                }
            },
        }
    }
}

/// The first class strictly above `name` that declares `mname: mdesc`.
pub open spec fn super_method_owner_spec(
    cs: Seq<Class>,
    name: Seq<char>,
    mname: Seq<char>,
    mdesc: Seq<char>,
    fuel: nat,
) -> Result<Option<Seq<char>>, ChainFault> {
    match class_named(cs, name) {
        None => Err(ChainFault::Missing(name)),
        Some(c) => match c.super_class {
            None => Ok(None),
            Some(s) => method_owner_spec(cs, s@, mname, mdesc, fuel),
        },
    }
}

/// Whether `target` is `name` or is reached from it through superclasses
/// and interfaces, searching the superclass first.
pub open spec fn reaches_spec(cs: Seq<Class>, name: Seq<char>, target: Seq<char>, fuel: nat) -> Result<
    bool,
    ChainFault,
>
    decreases fuel, 0nat, 0nat,
{
    if name == target {
        Ok(true)
    } else if fuel == 0 {
        Err(ChainFault::Circular)
    } else {
        match class_named(cs, name) {
            None => Err(ChainFault::Missing(name)),
            Some(c) => {
                let via_super = match c.super_class {
                    None => Ok(false),
                    Some(s) => reaches_spec(cs, s@, target, (fuel - 1) as nat),
                };
                match via_super {
                    Err(f) => Err(f),
                    Ok(true) => Ok(true),
                    Ok(false) => reaches_any_spec(cs, names_of(c.interfaces@), 0, target, (fuel - 1) as nat),
                }
            },
        }
    }
}

/// Whether `target` is reached from one of `ps[i..]`, tried in order.
pub open spec fn reaches_any_spec(
    cs: Seq<Class>,
    ps: Seq<Seq<char>>,
    i: int,
    target: Seq<char>,
    fuel: nat,
) -> Result<bool, ChainFault>
    decreases fuel, 1nat, ps.len() - i,
{
    if i < 0 || i >= ps.len() {
        Ok(false)
    } else {
        match reaches_spec(cs, ps[i], target, fuel) {
            Err(f) => Err(f),
            Ok(true) => Ok(true),
            Ok(false) => reaches_any_spec(cs, ps, i + 1, target, fuel),
        }
    }
}

/// The class name of a plain reference descriptor.
pub open spec fn class_of(d: FieldDescriptorView) -> Option<Seq<char>> {
    match d.base {
        BaseView::Reference(n) => if d.num_array == 0 {
            Some(n)
        } else {
            None
        },
        _ => None,
    }
}

pub open spec fn less_array(d: FieldDescriptorView) -> FieldDescriptorView {
    FieldDescriptorView { num_array: (d.num_array - 1) as nat, base: d.base }
}

/// Whether a value of type `src` is an instance of type `dst`.
pub open spec fn instance_of_spec(
    cs: Seq<Class>,
    src: FieldDescriptorView,
    dst: FieldDescriptorView,
    fuel: nat,
) -> Result<bool, ChainFault>
    decreases src.num_array,
{
    if src.num_array > 0 {
        if dst.num_array > 0 {
            let s2 = less_array(src);
            let d2 = less_array(dst);
            if simple_type_of(s2.base, s2.num_array) == Type::Reference {
                instance_of_spec(cs, s2, d2, fuel)
            } else {
                Ok(simple_type_of(s2.base, s2.num_array) == simple_type_of(d2.base, d2.num_array))
            }
        } else {
            match class_of(dst) {
                Some(n) => Ok(n == OBJECT_NAME@ || n == CLONEABLE_NAME@ || n == SERIALIZABLE_NAME@),
                None => Ok(false),
            }
        }
    } else {
        match (class_of(src), class_of(dst)) {
            (Some(a), Some(b)) => if a == b {
                Ok(true)
            } else {
                reaches_spec(cs, a, b, fuel)
            },
            _ => Ok(false),
        }
    }
}

/// Words taken by `fields`.
fn own_words(fields: &Vec<Field>) -> (r: usize)
    requires
        fields.len() <= MAX_FIELDS,
        forall|i: int| 0 <= i < fields.len() ==> #[trigger] fields[i].wf(),
    ensures
        r == fields_words(fields@),
        r <= 2 * fields.len(),
{
    let mut sum: usize = 0;
    let mut i: usize = 0;
    while i < fields.len()
        invariant
            fields.len() <= MAX_FIELDS,
            forall|i: int| 0 <= i < fields.len() ==> #[trigger] fields[i].wf(),
            i <= fields.len(),
            sum == fields_words(fields@.subrange(0, i as int)),
            sum <= 2 * i,
        decreases fields.len() - i,
    {
        proof {
            assert(fields@.subrange(0, i + 1).drop_last() =~= fields@.subrange(0, i as int));
            assert(fields[i as int].wf());
        }
        sum = sum + fields[i].size;
        i = i + 1;
    }
    proof {
        assert(fields@.subrange(0, i as int) =~= fields@);
    }
    sum
}

proof fn lemma_fuel_bound(fuel: nat, rest: int, own: int)
    requires
        fuel >= 1,
        0 <= rest <= (fuel - 1) * MAX_CLASS_WORDS,
        0 <= own <= MAX_CLASS_WORDS,
    ensures
        own + rest <= fuel * MAX_CLASS_WORDS,
{
    assert((fuel - 1) * MAX_CLASS_WORDS + MAX_CLASS_WORDS == fuel * MAX_CLASS_WORDS) by (nonlinear_arith);
}

proof fn lemma_fuel_max(fuel: nat)
    requires
        fuel <= MAX_LOADED_CLASSES + 1,
    ensures
        fuel * MAX_CLASS_WORDS <= (MAX_LOADED_CLASSES + 1) * MAX_CLASS_WORDS,
{
    assert(fuel * MAX_CLASS_WORDS <= (MAX_LOADED_CLASSES + 1) * MAX_CLASS_WORDS) by (nonlinear_arith)
        requires
            fuel <= MAX_LOADED_CLASSES + 1,
    ;
}

fn instance_size_rec(loader: &ClassLoader, name: &str, fuel: usize) -> (r: Result<usize, ClassLoadingError>)
    requires
        loader.wf(),
        fuel <= MAX_LOADED_CLASSES + 1,
    ensures
        r matches Ok(v) ==> instance_size_spec(loader.classes@, name@, fuel as nat) == Ok::<int, ChainFault>(
            v as int,
        ) && v <= fuel * MAX_CLASS_WORDS,
        r matches Err(e) ==> (instance_size_spec(loader.classes@, name@, fuel as nat) matches Err(f)
            && fault_is(e, f)),
        r is Ok <==> instance_size_spec(loader.classes@, name@, fuel as nat) is Ok,
    decreases fuel,
{
    if fuel == 0 {
        return Err(ClassLoadingError::ClassCircularity);
    }
    let class = match loader.load_class(name) {
        Ok(c) => c,
        Err(e) => {
            return Err(e);
        },
    };
    proof {
        let i = choose|i: int| 0 <= i < loader.classes.len() && #[trigger] loader.classes[i].name@ == name@;
        assert(loader.classes[i].wf());
    }
    let own = own_words(&class.instance_fields);
    match &class.super_class {
        None => {
            proof {
                lemma_fuel_bound(fuel as nat, 0, own as int);
            }
            Ok(own)
        },
        Some(s) => {
            match instance_size_rec(loader, s.as_str(), fuel - 1) {
                Ok(rest) => {
                    proof {
                        lemma_fuel_bound(fuel as nat, rest as int, own as int);
                        lemma_fuel_max(fuel as nat);
                    }
                    Ok(own + rest)
                },
                Err(e) => Err(e),
            }
        },
    }
}

/// The offset, within `fields`, of the first field `name: desc`.
fn find_field(fields: &Vec<Field>, name: &str, desc: &str) -> (r: Option<usize>)
    requires
        fields.len() <= MAX_FIELDS,
        forall|i: int| 0 <= i < fields.len() ==> #[trigger] fields[i].wf(),
    ensures
        match first_field(fields@, name@, desc@) {
            Some(j) => r == Some(fields_words(fields@.subrange(0, j)) as usize) && 0 <= fields_words(
                fields@.subrange(0, j),
            ) < fields_words(fields@),
            None => r is None,
        },
{
    let mut sum: usize = 0;
    let mut i: usize = 0;
    while i < fields.len()
        invariant
            fields.len() <= MAX_FIELDS,
            forall|i: int| 0 <= i < fields.len() ==> #[trigger] fields[i].wf(),
            i <= fields.len(),
            sum == fields_words(fields@.subrange(0, i as int)),
            sum <= 2 * i,
            forall|k: int| 0 <= k < i ==> !field_matches(#[trigger] fields@[k], name@, desc@),
        decreases fields.len() - i,
    {
        if str_eq(fields[i].name.as_str(), name) && str_eq(fields[i].descriptor.as_str(), desc) {
            proof {
                assert(first_field_at(fields@, name@, desc@, i as int));
                let j = choose|j: int| first_field_at(fields@, name@, desc@, j);
                if j < i {
                    assert(!field_matches(fields@[j], name@, desc@));
                }
                if j > i {
                    assert(!field_matches(fields@[i as int], name@, desc@));
                }
                lemma_words_prefix_lt(fields@, i as int);
            }
            return Some(sum);
        }
        proof {
            assert(fields@.subrange(0, i + 1).drop_last() =~= fields@.subrange(0, i as int));
            assert(fields[i as int].wf());
        }
        sum = sum + fields[i].size;
        i = i + 1;
    }
    proof {
        if exists|j: int| first_field_at(fields@, name@, desc@, j) {
            let j = choose|j: int| first_field_at(fields@, name@, desc@, j);
            assert(!field_matches(fields@[j], name@, desc@));
        }
    }
    None
}

/// The words before position `j` are fewer than all the words.
proof fn lemma_words_prefix_lt(fs: Seq<Field>, j: int)
    requires
        0 <= j < fs.len(),
        forall|i: int| 0 <= i < fs.len() ==> #[trigger] fs[i].wf(),
    ensures
        fields_words(fs.subrange(0, j)) < fields_words(fs),
    decreases fs.len(),
{
    assert(fs[fs.len() - 1].wf());
    if j == fs.len() - 1 {
        assert(fs.drop_last() =~= fs.subrange(0, j));
    } else {
        let d = fs.drop_last();
        assert(d.subrange(0, j) =~= fs.subrange(0, j));
        assert forall|i: int| 0 <= i < d.len() implies #[trigger] d[i].wf() by {
            assert(d[i] == fs[i]);
        }
        lemma_words_prefix_lt(d, j);
    }
}

fn offset_rec(loader: &ClassLoader, fieldref: &FieldRef, name: &str, fuel: usize) -> (r: Result<
    (Option<usize>, usize),
    ClassLoadingError,
>)
    requires
        loader.wf(),
        fuel <= MAX_LOADED_CLASSES + 1,
    ensures
        r matches Ok((o, t)) ==> {
            &&& offset_spec(loader.classes@, fieldref.name@, fieldref.descriptor@, name@, fuel as nat)
                == Ok::<(Option<int>, int), ChainFault>(
                (
                    match o {
                        Some(v) => Some(v as int),
                        None => None,
                    },
                    t as int,
                ),
            )
            &&& t <= fuel * MAX_CLASS_WORDS
            &&& o matches Some(v) ==> v < t
        },
        r matches Err(e) ==> (offset_spec(
            loader.classes@,
            fieldref.name@,
            fieldref.descriptor@,
            name@,
            fuel as nat,
        ) matches Err(f) && fault_is(e, f)),
        r is Ok <==> offset_spec(loader.classes@, fieldref.name@, fieldref.descriptor@, name@, fuel as nat) is Ok,
    decreases fuel,
{
    if fuel == 0 {
        return Err(ClassLoadingError::ClassCircularity);
    }
    let class = match loader.load_class(name) {
        Ok(c) => c,
        Err(e) => {
            return Err(e);
        },
    };
    proof {
        let i = choose|i: int| 0 <= i < loader.classes.len() && #[trigger] loader.classes[i].name@ == name@;
        assert(loader.classes[i].wf());
    }
    let (rest_offset, rest_total): (Option<usize>, usize) = match &class.super_class {
        None => (None, 0),
        Some(s) => {
            match offset_rec(loader, fieldref, s.as_str(), fuel - 1) {
                Ok(p) => p,
                Err(e) => {
                    return Err(e);
                },
            }
        },
    };
    let own = own_words(&class.instance_fields);
    proof {
        lemma_fuel_bound(fuel as nat, rest_total as int, own as int);
        lemma_fuel_max(fuel as nat);
    }
    let found = find_field(&class.instance_fields, fieldref.name.as_str(), fieldref.descriptor.as_str());
    let offset = match found {
        Some(pos) => {
            assert(pos < own);
            Some(pos + rest_total)
        },
        None => rest_offset,
    };
    proof {
        let cs = loader.classes@;
        let c = class_named(cs, name@)->Some_0;
        assert(c == *class);
        let rest_spec = match c.super_class {
            None => Ok((None, 0)),
            Some(s) => offset_spec(cs, fieldref.name@, fieldref.descriptor@, s@, (fuel - 1) as nat),
        };
        assert(rest_spec == Ok::<(Option<int>, int), ChainFault>(
            (
                match rest_offset {
                    Some(v) => Some(v as int),
                    None => None,
                },
                rest_total as int,
            ),
        ));
    }
    Ok((offset, own + rest_total))
}

fn strict_super_rec(loader: &ClassLoader, superclass: &str, class: &str, fuel: usize) -> (r: Result<
    bool,
    ClassLoadingError,
>)
    requires
        loader.wf(),
    ensures
        r matches Ok(b) ==> strict_super_spec(loader.classes@, superclass@, class@, fuel as nat) == Ok::<
            bool,
            ChainFault,
        >(b),
        r matches Err(e) ==> (strict_super_spec(loader.classes@, superclass@, class@, fuel as nat) matches Err(
            f,
        ) && fault_is(e, f)),
    decreases fuel,
{
    if fuel == 0 {
        return Err(ClassLoadingError::ClassCircularity);
    }
    let c = match loader.load_class(class) {
        Ok(c) => c,
        Err(e) => {
            return Err(e);
        },
    };
    match &c.super_class {
        None => Ok(false),
        Some(s) => {
            if str_eq(s.as_str(), superclass) {
                Ok(true)
            } else {
                strict_super_rec(loader, superclass, s.as_str(), fuel - 1)
            }
        },
    }
}

fn method_owner_rec(loader: &ClassLoader, class: &str, name: &str, descriptor: &str, fuel: usize) -> (r:
    Result<Option<String>, ClassLoadingError>)
    requires
        loader.wf(),
    ensures
        r matches Ok(o) ==> method_owner_spec(loader.classes@, class@, name@, descriptor@, fuel as nat) == Ok::<
            Option<Seq<char>>,
            ChainFault,
        >(
            match o {
                Some(s) => Some(s@),
                None => None,
            },
        ),
        r matches Err(e) ==> (method_owner_spec(
            loader.classes@,
            class@,
            name@,
            descriptor@,
            fuel as nat,
        ) matches Err(f) && fault_is(e, f)),
    decreases fuel,
{
    if fuel == 0 {
        return Err(ClassLoadingError::ClassCircularity);
    }
    let c = match loader.load_class(class) {
        Ok(c) => c,
        Err(e) => {
            return Err(e);
        },
    };
    if c.method_by_signature(name, descriptor).is_some() {
        return Ok(Some(class.to_owned()));
    }
    match &c.super_class {
        None => Ok(None),
        Some(s) => method_owner_rec(loader, s.as_str(), name, descriptor, fuel - 1),
    }
}

fn reaches_rec(loader: &ClassLoader, class: &str, target: &str, fuel: usize) -> (r: Result<bool, ClassLoadingError>)
    requires
        loader.wf(),
    ensures
        r matches Ok(b) ==> reaches_spec(loader.classes@, class@, target@, fuel as nat) == Ok::<bool, ChainFault>(b),
        r matches Err(e) ==> (reaches_spec(loader.classes@, class@, target@, fuel as nat) matches Err(f)
            && fault_is(e, f)),
    decreases fuel, 0nat, 0nat,
{
    if str_eq(class, target) {
        return Ok(true);
    }
    if fuel == 0 {
        return Err(ClassLoadingError::ClassCircularity);
    }
    let c = match loader.load_class(class) {
        Ok(c) => c,
        Err(e) => {
            return Err(e);
        },
    };
    match &c.super_class {
        None => {},
        Some(s) => {
            match reaches_rec(loader, s.as_str(), target, fuel - 1) {
                Ok(true) => {
                    return Ok(true);
                },
                Ok(false) => {},
                Err(e) => {
                    return Err(e);
                },
            }
        },
    }
    reaches_any_rec(loader, &c.interfaces, target, fuel - 1)
}

fn reaches_any_rec(loader: &ClassLoader, ps: &Vec<String>, target: &str, fuel: usize) -> (r: Result<
    bool,
    ClassLoadingError,
>)
    requires
        loader.wf(),
    ensures
        r matches Ok(b) ==> reaches_any_spec(loader.classes@, names_of(ps@), 0, target@, fuel as nat) == Ok::<
            bool,
            ChainFault,
        >(b),
        r matches Err(e) ==> (reaches_any_spec(loader.classes@, names_of(ps@), 0, target@, fuel as nat) matches Err(
            f,
        ) && fault_is(e, f)),
    decreases fuel, 1nat, ps.len(),
{
    let ghost names = names_of(ps@);
    let mut i: usize = 0;
    while i < ps.len()
        invariant
            loader.wf(),
            i <= ps.len(),
            names == names_of(ps@),
            reaches_any_spec(loader.classes@, names, 0, target@, fuel as nat) == reaches_any_spec(
                loader.classes@,
                names,
                i as int,
                target@,
                fuel as nat,
            ),
        decreases ps.len() - i,
    {
        match reaches_rec(loader, ps[i].as_str(), target, fuel) {
            Ok(true) => {
                return Ok(true);
            },
            Ok(false) => {},
            Err(e) => {
                return Err(e);
            },
        }
        i = i + 1;
    }
    Ok(false)
}

impl Class {
    /// Words of an instance of `classname`, its superclasses' fields included.
    pub fn get_instance_size(classname: &str, classloader: &ClassLoader) -> (r: Result<usize, ClassLoadingError>)
        requires
            classloader.wf(),
        ensures
            r matches Ok(v) ==> instance_size_spec(classloader.classes@, classname@, (classloader.classes.len() + 1) as nat)
                == Ok::<int, ChainFault>(v as int),
            r matches Err(e) ==> (instance_size_spec(
                classloader.classes@,
                classname@,
                (classloader.classes.len() + 1) as nat,
            ) matches Err(f) && fault_is(e, f)),
    {
        instance_size_rec(classloader, classname, classloader.classes.len() + 1)
    }

    /// The word offset of a field within an instance of `fieldref.class`.
    /// The fields of `java/lang/Object` come first and those of the class
    /// itself last, so widening to a superclass keeps every offset.
    pub fn get_field_offset(fieldref: &FieldRef, classloader: &ClassLoader) -> (r: Result<usize, ClassLoadingError>)
        requires
            classloader.wf(),
        ensures
            r matches Ok(v) ==> (offset_spec(
                classloader.classes@,
                fieldref.name@,
                fieldref.descriptor@,
                fieldref.class@,
                (classloader.classes.len() + 1) as nat,
            ) matches Ok((Some(o), t)) && o == v && v < t),
            r matches Err(e) ==> match offset_spec(
                classloader.classes@,
                fieldref.name@,
                fieldref.descriptor@,
                fieldref.class@,
                (classloader.classes.len() + 1) as nat,
            ) {
                Ok((None, _)) => e is NoSuchFieldError,
                Err(f) => fault_is(e, f),
                Ok((Some(_), _)) => false,
            },
    {
        match offset_rec(classloader, fieldref, fieldref.class.as_str(), classloader.classes.len() + 1) {
            Ok((Some(o), _)) => Ok(o),
            Ok((None, _)) => Err(ClassLoadingError::NoSuchFieldError(fieldref.clone())),
            Err(e) => Err(e),
        }
    }

    /// Where the static field `fieldref` lives: the first class from
    /// `fieldref.class` upwards that declares it, the field's word offset
    /// among that class's static fields, and the words those take together.
    pub fn get_static_field_slot(fieldref: &FieldRef, classloader: &ClassLoader) -> (r: Result<
        (String, usize, usize),
        ClassLoadingError,
    >)
        requires
            classloader.wf(),
        ensures
            r matches Ok((c, off, total)) ==> off < total && static_slot_spec(
                classloader.classes@,
                fieldref.name@,
                fieldref.descriptor@,
                fieldref.class@,
                (classloader.classes.len() + 1) as nat,
            ) == Ok::<Option<(Seq<char>, int, int)>, ChainFault>(Some((c@, off as int, total as int))),
            r matches Err(e) ==> match static_slot_spec(
                classloader.classes@,
                fieldref.name@,
                fieldref.descriptor@,
                fieldref.class@,
                (classloader.classes.len() + 1) as nat,
            ) {
                Ok(None) => e is NoSuchFieldError,
                Err(f) => fault_is(e, f),
                Ok(Some(_)) => false,
            },
    {
        match static_slot_rec(classloader, fieldref, fieldref.class.as_str(), classloader.classes.len() + 1) {
            Ok(Some(t)) => Ok(t),
            Ok(None) => Err(ClassLoadingError::NoSuchFieldError(fieldref.clone())),
            Err(e) => Err(e),
        }
    }

    /// Whether `superclass` stands strictly above `class` in its chain.
    pub fn is_real_super_class(superclass: &str, class: &str, classloader: &ClassLoader) -> (r: Result<
        bool,
        ClassLoadingError,
    >)
        requires
            classloader.wf(),
        ensures
            r matches Ok(b) ==> strict_super_spec(
                classloader.classes@,
                superclass@,
                class@,
                (classloader.classes.len() + 1) as nat,
            ) == Ok::<bool, ChainFault>(b),
            r matches Err(e) ==> (strict_super_spec(
                classloader.classes@,
                superclass@,
                class@,
                (classloader.classes.len() + 1) as nat,
            ) matches Err(f) && fault_is(e, f)),
    {
        strict_super_rec(classloader, superclass, class, classloader.classes.len() + 1)
    }

    /// The first class strictly above `classname` that declares `name: descriptor`.
    pub fn find_first_real_super_class_with_method(
        classname: &str,
        name: &str,
        descriptor: &str,
        classloader: &ClassLoader,
    ) -> (r: Result<Option<String>, ClassLoadingError>)
        requires
            classloader.wf(),
        ensures
            r matches Ok(o) ==> super_method_owner_spec(
                classloader.classes@,
                classname@,
                name@,
                descriptor@,
                (classloader.classes.len() + 1) as nat,
            ) == Ok::<Option<Seq<char>>, ChainFault>(
                match o {
                    Some(s) => Some(s@),
                    None => None,
                },
            ),
            r matches Err(e) ==> (super_method_owner_spec(
                classloader.classes@,
                classname@,
                name@,
                descriptor@,
                (classloader.classes.len() + 1) as nat,
            ) matches Err(f) && fault_is(e, f)),
    {
        let class = match classloader.load_class(classname) {
            Ok(c) => c,
            Err(e) => {
                return Err(e);
            },
        };
        match &class.super_class {
            None => Ok(None),
            Some(s) => Class::find_first_super_class_with_method(s.as_str(), name, descriptor, classloader),
        }
    }

    /// The first class, from `class` upwards, that declares `name: descriptor`.
    pub fn find_first_super_class_with_method(
        class: &str,
        name: &str,
        descriptor: &str,
        classloader: &ClassLoader,
    ) -> (r: Result<Option<String>, ClassLoadingError>)
        requires
            classloader.wf(),
        ensures
            r matches Ok(o) ==> method_owner_spec(
                classloader.classes@,
                class@,
                name@,
                descriptor@,
                (classloader.classes.len() + 1) as nat,
            ) == Ok::<Option<Seq<char>>, ChainFault>(
                match o {
                    Some(s) => Some(s@),
                    None => None,
                },
            ),
            r matches Err(e) ==> (method_owner_spec(
                classloader.classes@,
                class@,
                name@,
                descriptor@,
                (classloader.classes.len() + 1) as nat,
            ) matches Err(f) && fault_is(e, f)),
    {
        method_owner_rec(classloader, class, name, descriptor, classloader.classes.len() + 1)
    }

    /// Whether a value of type `class` is an instance of type `dest`: arrays
    /// by their element types, or as `Object`, `Cloneable` and `Serializable`;
    /// classes by their superclasses and interfaces.
    pub fn is_instance_of(class: &FieldDescriptor, dest: FieldDescriptor, classloader: &ClassLoader) -> (r: Result<
        bool,
        ClassLoadingError,
    >)
        requires
            classloader.wf(),
            class.wf(),
            dest.wf(),
        ensures
            r matches Ok(b) ==> instance_of_spec(
                classloader.classes@,
                class@,
                dest@,
                (classloader.classes.len() + 1) as nat,
            ) == Ok::<bool, ChainFault>(b),
            r matches Err(e) ==> (instance_of_spec(
                classloader.classes@,
                class@,
                dest@,
                (classloader.classes.len() + 1) as nat,
            ) matches Err(f) && fault_is(e, f)),
        decreases class@.num_array,
    {
        let mut dest = dest;
        if class.is_array() {
            if dest.is_array() {
                let mut new_class = class.duplicate();
                new_class.remove_array();
                dest.remove_array();
                if new_class.simple_typ() == Type::Reference {
                    Class::is_instance_of(&new_class, dest, classloader)
                } else {
                    Ok(new_class.simple_typ() == dest.simple_typ())
                }
            } else {
                match dest.get_class() {
                    Some(s) => Ok(str_eq(s, OBJECT_NAME) || str_eq(s, CLONEABLE_NAME) || str_eq(s, SERIALIZABLE_NAME)),
                    None => Ok(false),
                }
            }
        } else {
            match (class.get_class(), dest.get_class()) {
                (Some(class_name), Some(dest_name)) => {
                    if str_eq(class_name, dest_name) {
                        return Ok(true);
                    }
                    Class::has_interface_or_superclass(class_name, dest_name, classloader)
                },
                _ => Ok(false),
            }
        }
    }

    /// Whether `super_name` is `class` or one of its superclasses or
    /// interfaces, directly or further up.
    pub fn has_interface_or_superclass(class: &str, super_name: &str, classloader: &ClassLoader) -> (r: Result<
        bool,
        ClassLoadingError,
    >)
        requires
            classloader.wf(),
        ensures
            r matches Ok(b) ==> reaches_spec(
                classloader.classes@,
                class@,
                super_name@,
                (classloader.classes.len() + 1) as nat,
            ) == Ok::<bool, ChainFault>(b),
            r matches Err(e) ==> (reaches_spec(
                classloader.classes@,
                class@,
                super_name@,
                (classloader.classes.len() + 1) as nat,
            ) matches Err(f) && fault_is(e, f)),
    {
        reaches_rec(classloader, class, super_name, classloader.classes.len() + 1)
    }
}


/// The class `k` levels above `name` in its superclass chain.
pub open spec fn ancestor(cs: Seq<Class>, name: Seq<char>, k: nat) -> Option<Seq<char>>
    decreases k,
{
    if k == 0 {
        Some(name)
    } else {
        match class_named(cs, name) {
            Some(c) => match c.super_class {
                Some(s) => ancestor(cs, s@, (k - 1) as nat),
                None => None,
            },
            None => None,
        }
    }
}

/// No class from `name` up to, not including, `k` levels above it declares
/// an instance field `fname: fdesc`.
pub open spec fn undeclared_below(cs: Seq<Class>, name: Seq<char>, k: nat, fname: Seq<char>, fdesc: Seq<char>) -> bool {
    forall|j: nat|
        j < k ==> (#[trigger] ancestor(cs, name, j) matches Some(n) && class_named(cs, n) matches Some(c)
            && first_field(c.instance_fields@, fname, fdesc) is None)
}

proof fn lemma_size_fuel(cs: Seq<Class>, name: Seq<char>, f1: nat, f2: nat)
    requires
        f1 <= f2,
        instance_size_spec(cs, name, f1) is Ok,
    ensures
        instance_size_spec(cs, name, f2) == instance_size_spec(cs, name, f1),
    decreases f1,
{
    if f1 > 0 {
        if let Some(c) = class_named(cs, name) {
            if let Some(s) = c.super_class {
                lemma_size_fuel(cs, s@, (f1 - 1) as nat, (f2 - 1) as nat);
            }
        }
    }
}

proof fn lemma_offset_fuel(cs: Seq<Class>, fname: Seq<char>, fdesc: Seq<char>, name: Seq<char>, f1: nat, f2: nat)
    requires
        f1 <= f2,
        offset_spec(cs, fname, fdesc, name, f1) is Ok,
    ensures
        offset_spec(cs, fname, fdesc, name, f2) == offset_spec(cs, fname, fdesc, name, f1),
    decreases f1,
{
    if f1 > 0 {
        if let Some(c) = class_named(cs, name) {
            if let Some(s) = c.super_class {
                lemma_offset_fuel(cs, fname, fdesc, s@, (f1 - 1) as nat, (f2 - 1) as nat);
            }
        }
    }
}

/// The size of an instance of a class is the words of the class's own
/// instance fields plus the size of an instance of its superclass.
pub proof fn lemma_instance_size_layout(cs: Seq<Class>, name: Seq<char>)
    requires
        instance_size_spec(cs, name, cs.len() + 1) is Ok,
        class_named(cs, name) is Some,
    ensures
        ({
            let c = class_named(cs, name)->Some_0;
            let own = fields_words(c.instance_fields@);
            match c.super_class {
                None => instance_size_spec(cs, name, cs.len() + 1) == Ok::<int, ChainFault>(own),
                Some(s) => instance_size_spec(cs, s@, cs.len() + 1) matches Ok(v) && instance_size_spec(
                    cs,
                    name,
                    cs.len() + 1,
                ) == Ok::<int, ChainFault>(own + v),
            }
        }),
{
    let c = class_named(cs, name)->Some_0;
    if let Some(s) = c.super_class {
        lemma_size_fuel(cs, s@, cs.len() as nat, cs.len() + 1);
    }
}

proof fn lemma_upcast_fuel(
    cs: Seq<Class>,
    sub: Seq<char>,
    k: nat,
    fname: Seq<char>,
    fdesc: Seq<char>,
    fuel: nat,
)
    requires
        ancestor(cs, sub, k) is Some,
        undeclared_below(cs, sub, k, fname, fdesc),
        offset_spec(cs, fname, fdesc, sub, fuel) is Ok,
    ensures
        fuel >= k,
        offset_spec(cs, fname, fdesc, ancestor(cs, sub, k)->Some_0, (fuel - k) as nat) matches Ok((o2, _))
            && offset_spec(cs, fname, fdesc, sub, fuel)->Ok_0.0 == o2,
    decreases k,
{
    if k > 0 {
        assert(ancestor(cs, sub, 0) == Some(sub));
        let c = class_named(cs, sub)->Some_0;
        let s = c.super_class->Some_0;
        assert(first_field(c.instance_fields@, fname, fdesc) is None);
        assert(fuel > 0);
        assert(ancestor(cs, s@, (k - 1) as nat) == ancestor(cs, sub, k));
        assert forall|j: nat| j < k - 1 implies (#[trigger] ancestor(cs, s@, j) matches Some(n) && class_named(
            cs,
            n,
        ) matches Some(c) && first_field(c.instance_fields@, fname, fdesc) is None) by {
            assert(ancestor(cs, sub, j + 1) == ancestor(cs, s@, j));
        }
        lemma_upcast_fuel(cs, s@, (k - 1) as nat, fname, fdesc, (fuel - 1) as nat);
    }
}

/// Widening a reference to a superclass keeps field offsets: a field
/// declared in the class `k` levels above `sub`, and in no class between,
/// has the same offset in an instance of `sub` as in one of that class.
pub proof fn lemma_upcast_keeps_offset(cs: Seq<Class>, sub: Seq<char>, k: nat, fname: Seq<char>, fdesc: Seq<char>)
    requires
        ancestor(cs, sub, k) matches Some(sup) && class_named(cs, sup) matches Some(c) && first_field(
            c.instance_fields@,
            fname,
            fdesc,
        ) is Some,
        undeclared_below(cs, sub, k, fname, fdesc),
        offset_spec(cs, fname, fdesc, sub, cs.len() + 1) is Ok,
    ensures
        offset_spec(cs, fname, fdesc, sub, cs.len() + 1) matches Ok((Some(o1), _)) && offset_spec(
            cs,
            fname,
            fdesc,
            ancestor(cs, sub, k)->Some_0,
            cs.len() + 1,
        ) matches Ok((Some(o2), _)) && o1 == o2,
{
    let sup = ancestor(cs, sub, k)->Some_0;
    lemma_upcast_fuel(cs, sub, k, fname, fdesc, cs.len() + 1);
    lemma_offset_fuel(cs, fname, fdesc, sup, (cs.len() + 1 - k) as nat, cs.len() + 1);
}


/// Walking up from class `name`: the first class that declares the static
/// field `fname: fdesc`, the offset of that field among the class's static
/// fields and the words of all of them.
pub open spec fn static_slot_spec(
    cs: Seq<Class>,
    fname: Seq<char>,
    fdesc: Seq<char>,
    name: Seq<char>,
    fuel: nat,
) -> Result<Option<(Seq<char>, int, int)>, ChainFault>
    decreases fuel,
{
    if fuel == 0 {
        Err(ChainFault::Circular)
    } else {
        match class_named(cs, name) {
            None => Err(ChainFault::Missing(name)),
            Some(c) => {
                let fs = c.static_fields@;
                match first_field(fs, fname, fdesc) {
                    Some(j) => Ok(Some((name, fields_words(fs.subrange(0, j)), fields_words(fs)))),
                    None => match c.super_class {
                        None => Ok(None),
                        Some(s) => static_slot_spec(cs, fname, fdesc, s@, (fuel - 1) as nat),
                    },
                }
            },
        }
    }
}

fn static_slot_rec(loader: &ClassLoader, fieldref: &FieldRef, name: &str, fuel: usize) -> (r: Result<
    Option<(String, usize, usize)>,
    ClassLoadingError,
>)
    requires
        loader.wf(),
    ensures
        r matches Ok(o) ==> static_slot_spec(
            loader.classes@,
            fieldref.name@,
            fieldref.descriptor@,
            name@,
            fuel as nat,
        ) == Ok::<Option<(Seq<char>, int, int)>, ChainFault>(
            match o {
                Some((c, off, total)) => Some((c@, off as int, total as int)),
                None => None,
            },
        ),
        r matches Ok(Some((c, off, total))) ==> off < total,
        r matches Err(e) ==> (static_slot_spec(
            loader.classes@,
            fieldref.name@,
            fieldref.descriptor@,
            name@,
            fuel as nat,
        ) matches Err(f) && fault_is(e, f)),
    decreases fuel,
{
    if fuel == 0 {
        return Err(ClassLoadingError::ClassCircularity);
    }
    let class = match loader.load_class(name) {
        Ok(c) => c,
        Err(e) => {
            return Err(e);
        },
    };
    proof {
        let i = choose|i: int| 0 <= i < loader.classes.len() && #[trigger] loader.classes[i].name@ == name@;
        assert(loader.classes[i].wf());
    }
    match find_field(&class.static_fields, fieldref.name.as_str(), fieldref.descriptor.as_str()) {
        Some(pos) => Ok(Some((name.to_owned(), pos, own_words(&class.static_fields)))),
        None => match &class.super_class {
            None => Ok(None),
            Some(s) => static_slot_rec(loader, fieldref, s.as_str(), fuel - 1),
        },
    }
}

} // verus!
