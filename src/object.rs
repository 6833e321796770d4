use vstd::prelude::*;
use crate::class::Class;
use crate::class_loader::ClassLoader;
use crate::descriptor::{FieldDescriptor, FieldDescriptorView, BaseView, field_words};
use crate::errors::ClassLoadingError;
use crate::hierarchy::{fault_is, instance_size_spec, offset_spec, ChainFault};
use crate::parsed_class::FieldRef;

verus! {

/// An object on the heap: an array or an instance of a class.
#[derive(Debug)]
pub enum Object {
    Array(ArrayObject),
    Instance(InstanceObject),
}

/// An array of `length` elements, each one or two words, zero at birth.
#[derive(Debug)]
pub struct ArrayObject {
    pub length: i32,
    pub data: Vec<i32>,
    /// The descriptor of the array itself (one array level above its elements).
    pub typ: FieldDescriptor,
    pub content_needs_two_words: bool,
}

/// An instance of a class: one word per word of its instance fields, those
/// of its superclasses first.
#[derive(Debug)]
pub struct InstanceObject {
    pub typ: FieldDescriptor,
    pub data: Vec<i32>,
}

/// `n` words of zero.
fn zeros(n: usize) -> (r: Vec<i32>)
    ensures
        r@ == Seq::new(n as nat, |i: int| 0i32),
{
    let mut v: Vec<i32> = Vec::new();
    while v.len() < n
        invariant
            v.len() <= n,
            v@ == Seq::new(v.len() as nat, |i: int| 0i32),
        decreases n - v.len(),
    {
        v.push(0);
        assert(v@ =~= Seq::new(v.len() as nat, |i: int| 0i32));
    }
    v
}

impl ArrayObject {
    pub open spec fn wf(&self) -> bool {
        &&& self.length >= 0
        &&& self.typ.wf()
        &&& self.typ.num_array >= 1
        &&& self.data.len() == self.length * (if self.content_needs_two_words {
            2int
        } else {
            1int
        })
    }

    /// An array of `length` zero elements of type `typ`.
    pub fn new(length: i32, typ: FieldDescriptor) -> (r: ArrayObject)
        requires
            length >= 0,
            typ.wf(),
            typ.num_array < usize::MAX,
        ensures
            r.wf(),
            r.length == length,
            r.content_needs_two_words == (field_words(typ@) == 2),
            r.typ@ == (FieldDescriptorView { num_array: typ@.num_array + 1, base: typ@.base }),
            r.data@ == Seq::new(r.data.len() as nat, |i: int| 0i32),
    {
        let mut typ = typ;
        let w = typ.word_size();
        let cap = (length as usize) * w;
        let data = zeros(cap);
        let content_needs_two_words = w == 2;
        typ.add_array();
        ArrayObject { length, content_needs_two_words, typ, data }
    }

    pub fn length(&self) -> (r: i32)
        ensures
            r == self.length,
    {
        self.length
    }

    pub fn typ(&self) -> (r: &FieldDescriptor)
        ensures
            r == &self.typ,
    {
        &self.typ
    }

    /// Element `index` of an array of one-word elements.
    pub fn get(&self, index: i32) -> (r: i32)
        requires
            !self.content_needs_two_words,
            0 <= index < self.data.len(),
        ensures
            r == self.data[index as int],
    {
        self.data[index as usize]
    }

    /// Element `index` of an array of two-word elements: its high and low word.
    pub fn get2(&self, index: i32) -> (r: [i32; 2])
        requires
            self.content_needs_two_words,
            0 <= index,
            2 * index + 1 < self.data.len(),
        ensures
            r[0] == self.data[2 * index],
            r[1] == self.data[2 * index + 1],
    {
        let i = index as usize;
        [self.data[2 * i], self.data[2 * i + 1]]
    }

    pub fn set(&mut self, index: i32, val: i32)
        requires
            !old(self).content_needs_two_words,
            0 <= index < old(self).data.len(),
        ensures
            final(self).data@ == old(self).data@.update(index as int, val),
            final(self).length == old(self).length,
            final(self).typ == old(self).typ,
            final(self).content_needs_two_words == old(self).content_needs_two_words,
    {
        self.data.set(index as usize, val);
    }

    pub fn set2(&mut self, index: i32, val: [i32; 2])
        requires
            old(self).content_needs_two_words,
            0 <= index,
            2 * index + 1 < old(self).data.len(),
        ensures
            final(self).data@ == old(self).data@.update(2 * index, val[0]).update(2 * index + 1, val[1]),
            final(self).length == old(self).length,
            final(self).typ == old(self).typ,
            final(self).content_needs_two_words == old(self).content_needs_two_words,
    {
        let i = index as usize;
        self.data.set(2 * i, val[0]);
        self.data.set(2 * i + 1, val[1]);
    }
}

impl InstanceObject {
    /// A zeroed instance of `classname`, sized by its instance fields and
    /// those of its superclasses.
    pub fn new(classname: &str, classloader: &ClassLoader) -> (r: Result<InstanceObject, ClassLoadingError>)
        requires
            classloader.wf(),
        ensures
            r matches Ok(o) ==> {
                &&& instance_size_spec(classloader.classes@, classname@, (classloader.classes.len() + 1) as nat)
                    == Ok::<int, ChainFault>(o.data.len() as int)
                &&& o.data@ == Seq::new(o.data.len() as nat, |i: int| 0i32)
                &&& o.typ.wf()
                &&& o.typ@ == (FieldDescriptorView { num_array: 0, base: BaseView::Reference(classname@) })
            },
            r matches Err(e) ==> (instance_size_spec(
                classloader.classes@,
                classname@,
                (classloader.classes.len() + 1) as nat,
            ) matches Err(f) && fault_is(e, f)),
    {
        let len = match Class::get_instance_size(classname, classloader) {
            Ok(l) => l,
            Err(e) => {
                return Err(e);
            },
        };
        Ok(InstanceObject { typ: FieldDescriptor::from_class(classname), data: zeros(len) })
    }

    pub fn typ(&self) -> (r: &FieldDescriptor)
        ensures
            r == &self.typ,
    {
        &self.typ
    }

    /// The class of the instance.
    pub fn class(&self) -> (r: &str)
        requires
            self.typ@.num_array == 0,
            self.typ@.base is Reference,
        ensures
            self.typ@.base == BaseView::Reference(r@),
    {
        match self.typ.get_class() {
            Some(c) => c,
            None => "",
        }
    }

    /// The word at the offset of `fieldref`; a field that lies outside this
    /// instance is an `IncompatibleClassChange`.
    pub fn get_field(&self, fieldref: &FieldRef, classloader: &ClassLoader) -> (r: Result<i32, ClassLoadingError>)
        requires
            classloader.wf(),
        ensures
            r matches Ok(v) ==> exists|o: int, t: int|
                #![auto]
                offset_spec(
                    classloader.classes@,
                    fieldref.name@,
                    fieldref.descriptor@,
                    fieldref.class@,
                    (classloader.classes.len() + 1) as nat,
                ) == Ok::<(Option<int>, int), ChainFault>((Some(o), t)) && 0 <= o < self.data.len() && v
                    == self.data[o],
            offset_spec(
                classloader.classes@,
                fieldref.name@,
                fieldref.descriptor@,
                fieldref.class@,
                (classloader.classes.len() + 1) as nat,
            ) matches Ok((Some(o), _)) ==> (o < self.data.len() ==> r is Ok),
    {
        let offset = match Class::get_field_offset(fieldref, classloader) {
            Ok(o) => o,
            Err(e) => {
                return Err(e);
            },
        };
        if offset >= self.data.len() {
            return Err(ClassLoadingError::IncompatibleClassChange);
        }
        Ok(self.data[offset])
    }

    /// The two words at the offset of `fieldref`.
    pub fn get_field2(&self, fieldref: &FieldRef, classloader: &ClassLoader) -> (r: Result<
        [i32; 2],
        ClassLoadingError,
    >)
        requires
            classloader.wf(),
        ensures
            r matches Ok(v) ==> exists|o: int, t: int|
                #![auto]
                offset_spec(
                    classloader.classes@,
                    fieldref.name@,
                    fieldref.descriptor@,
                    fieldref.class@,
                    (classloader.classes.len() + 1) as nat,
                ) == Ok::<(Option<int>, int), ChainFault>((Some(o), t)) && 0 <= o && o + 1 < self.data.len()
                    && v[0] == self.data[o] && v[1] == self.data[o + 1],
            offset_spec(
                classloader.classes@,
                fieldref.name@,
                fieldref.descriptor@,
                fieldref.class@,
                (classloader.classes.len() + 1) as nat,
            ) matches Ok((Some(o), _)) ==> (o + 1 < self.data.len() ==> r is Ok),
    {
        let offset = match Class::get_field_offset(fieldref, classloader) {
            Ok(o) => o,
            Err(e) => {
                return Err(e);
            },
        };
        if offset >= self.data.len() || offset + 1 >= self.data.len() {
            return Err(ClassLoadingError::IncompatibleClassChange);
        }
        Ok([self.data[offset], self.data[offset + 1]])
    }

    pub fn set_field(&mut self, fieldref: &FieldRef, val: i32, classloader: &ClassLoader) -> (r: Result<
        (),
        ClassLoadingError,
    >)
        requires
            classloader.wf(),
        ensures
            final(self).typ == old(self).typ,
            final(self).data.len() == old(self).data.len(),
            r is Err ==> final(self).data@ == old(self).data@,
            r is Ok ==> exists|o: int, t: int|
                #![auto]
                offset_spec(
                    classloader.classes@,
                    fieldref.name@,
                    fieldref.descriptor@,
                    fieldref.class@,
                    (classloader.classes.len() + 1) as nat,
                ) == Ok::<(Option<int>, int), ChainFault>((Some(o), t)) && 0 <= o < old(self).data.len()
                    && final(self).data@ == old(self).data@.update(o, val),
            offset_spec(
                classloader.classes@,
                fieldref.name@,
                fieldref.descriptor@,
                fieldref.class@,
                (classloader.classes.len() + 1) as nat,
            ) matches Ok((Some(o), _)) ==> (o < old(self).data.len() ==> r is Ok),
    {
        let offset = match Class::get_field_offset(fieldref, classloader) {
            Ok(o) => o,
            Err(e) => {
                return Err(e);
            },
        };
        if offset >= self.data.len() {
            return Err(ClassLoadingError::IncompatibleClassChange);
        }
        self.data.set(offset, val);
        Ok(())
    }

    pub fn set_field2(&mut self, fieldref: &FieldRef, val: [i32; 2], classloader: &ClassLoader) -> (r: Result<
        (),
        ClassLoadingError,
    >)
        requires
            classloader.wf(),
        ensures
            final(self).typ == old(self).typ,
            final(self).data.len() == old(self).data.len(),
            r is Err ==> final(self).data@ == old(self).data@,
            r is Ok ==> exists|o: int, t: int|
                #![auto]
                offset_spec(
                    classloader.classes@,
                    fieldref.name@,
                    fieldref.descriptor@,
                    fieldref.class@,
                    (classloader.classes.len() + 1) as nat,
                ) == Ok::<(Option<int>, int), ChainFault>((Some(o), t)) && 0 <= o && o + 1 < old(
                    self,
                ).data.len() && final(self).data@ == old(self).data@.update(o, val[0]).update(o + 1, val[1]),
            offset_spec(
                classloader.classes@,
                fieldref.name@,
                fieldref.descriptor@,
                fieldref.class@,
                (classloader.classes.len() + 1) as nat,
            ) matches Ok((Some(o), _)) ==> (o + 1 < old(self).data.len() ==> r is Ok),
    {
        let offset = match Class::get_field_offset(fieldref, classloader) {
            Ok(o) => o,
            Err(e) => {
                return Err(e);
            },
        };
        if offset >= self.data.len() || offset + 1 >= self.data.len() {
            return Err(ClassLoadingError::IncompatibleClassChange);
        }
        self.data.set(offset, val[0]);
        self.data.set(offset + 1, val[1]);
        Ok(())
    }
}

impl Object {
    pub fn new_array(length: i32, typ: FieldDescriptor) -> (r: Object)
        requires
            length >= 0,
            typ.wf(),
            typ.num_array < usize::MAX,
        ensures
            r matches Object::Array(a) && a.wf() && a.length == length && a.typ@ == (FieldDescriptorView {
                num_array: typ@.num_array + 1,
                base: typ@.base,
            }),
    {
        Object::Array(ArrayObject::new(length, typ))
    }

    pub fn new_instance(class: &str, class_loader: &ClassLoader) -> (r: Result<Object, ClassLoadingError>)
        requires
            class_loader.wf(),
        ensures
            r matches Ok(o) ==> o is Instance,
            r is Ok <==> instance_size_spec(class_loader.classes@, class@, (class_loader.classes.len() + 1) as nat) is Ok,
    {
        match InstanceObject::new(class, class_loader) {
            Ok(i) => Ok(Object::Instance(i)),
            Err(e) => Err(e),
        }
    }

    /// The array this object is; it must be one.
    pub fn as_array(&mut self) -> (r: &mut ArrayObject)
        requires
            *old(self) is Array,
        ensures
            *r == (*old(self))->Array_0,
            *final(self) == Object::Array(*final(r)),
    {
        match self {
            Object::Array(a) => a,
            Object::Instance(_) => {
                unreached()
            },
        }
    }

    /// The instance this object is; it must be one.
    pub fn as_instance(&mut self) -> (r: &mut InstanceObject)
        requires
            *old(self) is Instance,
        ensures
            *r == (*old(self))->Instance_0,
            *final(self) == Object::Instance(*final(r)),
    {
        match self {
            Object::Instance(a) => a,
            Object::Array(_) => {
                unreached()
            },
        }
    }

    /// The descriptor of the object's own type.
    pub fn typ(&self) -> (r: &FieldDescriptor)
        ensures
            r == match self {
                Object::Array(a) => &a.typ,
                Object::Instance(i) => &i.typ,
            },
    {
        match self {
            Object::Array(a) => a.typ(),
            Object::Instance(a) => a.typ(),
        }
    }
}

} // verus!
