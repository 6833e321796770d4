use vstd::prelude::*;
use crate::instruction::{Type, type_words};

verus! {

/// The base of a field descriptor, below all array levels.
#[derive(Debug, PartialEq, Eq, Clone)]
pub enum FieldDescriptorType {
    Byte,
    Char,
    Double,
    Float,
    Int,
    Long,
    Reference(String),
    Short,
    Boolean,
}

/// The mathematical value of a `FieldDescriptorType`.
pub enum BaseView {
    Byte,
    Char,
    Double,
    Float,
    Int,
    Long,
    Reference(Seq<char>),
    Short,
    Boolean,
}

impl View for FieldDescriptorType {
    type V = BaseView;

    open spec fn view(&self) -> BaseView {
        match self {
            FieldDescriptorType::Byte => BaseView::Byte,
            FieldDescriptorType::Char => BaseView::Char,
            FieldDescriptorType::Double => BaseView::Double,
            FieldDescriptorType::Float => BaseView::Float,
            FieldDescriptorType::Int => BaseView::Int,
            FieldDescriptorType::Long => BaseView::Long,
            FieldDescriptorType::Reference(s) => BaseView::Reference(s@),
            FieldDescriptorType::Short => BaseView::Short,
            FieldDescriptorType::Boolean => BaseView::Boolean,
        }
    }
}

/// A field descriptor: `num_array` array levels around a base type.
pub struct FieldDescriptorView {
    pub num_array: nat,
    pub base: BaseView,
}

/// A parsed field descriptor such as `I`, `[[D` or `Ljava/lang/Object;`.
#[derive(Debug, PartialEq, Eq, Clone)]
pub struct FieldDescriptor {
    pub num_array: usize,
    pub typ: FieldDescriptorType,
    pub simple_typ: Type,
}

/// A parsed method descriptor such as `(I[DLjava/lang/Thread;)V`.
#[derive(Debug, PartialEq, Eq)]
pub struct MethodDescriptor {
    pub params: Vec<FieldDescriptor>,
    pub ret_type: Option<FieldDescriptor>,
}

/// The largest number of parameters a method descriptor may hold.
pub const MAX_PARAMS: usize = 0xffff;

pub open spec fn base_type(b: BaseView) -> Type {
    match b {
        BaseView::Byte => Type::Byte,
        BaseView::Char => Type::Char,
        BaseView::Double => Type::Double,
        BaseView::Float => Type::Float,
        BaseView::Int => Type::Int,
        BaseView::Long => Type::Long,
        BaseView::Reference(_) => Type::Reference,
        BaseView::Short => Type::Short,
        BaseView::Boolean => Type::Boolean,
    }
}

/// The simple type of a descriptor: Reference for any array, else that of the base.
pub open spec fn simple_type_of(b: BaseView, num_array: nat) -> Type {
    if num_array > 0 {
        Type::Reference
    } else {
        base_type(b)
    }
}

/// The letter that starts the text of a base type.
pub open spec fn base_letter(b: BaseView) -> char {
    match b {
        BaseView::Byte => 'B',
        BaseView::Char => 'C',
        BaseView::Double => 'D',
        BaseView::Float => 'F',
        BaseView::Int => 'I',
        BaseView::Long => 'J',
        BaseView::Reference(_) => 'L',
        BaseView::Short => 'S',
        BaseView::Boolean => 'Z',
    }
}

pub open spec fn format_base(b: BaseView) -> Seq<char> {
    match b {
        BaseView::Reference(name) => seq!['L'] + name + seq![';'],
        _ => seq![base_letter(b)],
    }
}

/// The text of a field descriptor.
pub open spec fn format_field(d: FieldDescriptorView) -> Seq<char> {
    Seq::new(d.num_array, |i: int| '[') + format_base(d.base)
}

/// A descriptor that has a text: a class name holds no `;`.
pub open spec fn formattable(d: FieldDescriptorView) -> bool {
    match d.base {
        BaseView::Reference(name) => !name.contains(';'),
        _ => true,
    }
}

/// What parsing a whole text as a field descriptor gives.
pub open spec fn parse_field_spec(s: Seq<char>) -> Option<FieldDescriptorView> {
    if exists|d: FieldDescriptorView| formattable(d) && format_field(d) == s {
        Some(choose|d: FieldDescriptorView| formattable(d) && format_field(d) == s)
    } else {
        None
    }
}

pub open spec fn field_words(d: FieldDescriptorView) -> nat {
    type_words(simple_type_of(d.base, d.num_array))
}

pub open spec fn fields_text(ps: Seq<FieldDescriptorView>) -> Seq<char>
    decreases ps.len(),
{
    if ps.len() == 0 {
        Seq::empty()
    } else {
        fields_text(ps.drop_last()) + format_field(ps.last())
    }
}

/// The text of a method descriptor.
pub open spec fn format_method(ps: Seq<FieldDescriptorView>, ret: Option<FieldDescriptorView>) -> Seq<char> {
    seq!['('] + fields_text(ps) + seq![')'] + match ret {
        None => seq!['V'],
        Some(d) => format_field(d),
    }
}

pub open spec fn params_words(ps: Seq<FieldDescriptorView>) -> nat
    decreases ps.len(),
{
    if ps.len() == 0 {
        0
    } else {
        params_words(ps.drop_last()) + field_words(ps.last())
    }
}

pub open spec fn views_of(ps: Seq<FieldDescriptor>) -> Seq<FieldDescriptorView> {
    ps.map_values(|d: FieldDescriptor| d@)
}

pub open spec fn opt_view(r: Option<FieldDescriptor>) -> Option<FieldDescriptorView> {
    match r {
        Some(d) => Some(d@),
        None => None,
    }
}

/// The simple type of `typ` with `num_array` array levels around it.
pub fn as_type(typ: &FieldDescriptorType, num_array: usize) -> (r: Type)
    ensures
        r == simple_type_of(typ@, num_array as nat),
{
    if num_array > 0 {
        return Type::Reference;
    }
    match *typ {
        FieldDescriptorType::Byte => Type::Byte,
        FieldDescriptorType::Char => Type::Char,
        FieldDescriptorType::Double => Type::Double,
        FieldDescriptorType::Float => Type::Float,
        FieldDescriptorType::Int => Type::Int,
        FieldDescriptorType::Long => Type::Long,
        FieldDescriptorType::Reference(..) => Type::Reference,
        FieldDescriptorType::Short => Type::Short,
        FieldDescriptorType::Boolean => Type::Boolean,
    }
}

/// If `format_field(d1)` is a prefix of `format_field(d2)`, the two are the same.
proof fn lemma_format_prefix_free(d1: FieldDescriptorView, d2: FieldDescriptorView, s: Seq<char>)
    requires
        formattable(d1),
        formattable(d2),
        format_field(d2) == s,
        format_field(d1).len() <= s.len(),
        s.subrange(0, format_field(d1).len() as int) == format_field(d1),
    ensures
        d1 == d2,
        format_field(d1).len() == s.len(),
{
    let f1 = format_field(d1);
    let n1 = d1.num_array as int;
    let n2 = d2.num_array as int;
    assert(f1[n1] == base_letter(d1.base));
    assert(s[n2] == base_letter(d2.base));
    if n1 < n2 {
        assert(s[n1] == f1[n1]);
        assert(s[n1] == '[');
    }
    if n2 < n1 {
        assert(s[n2] == f1[n2]);
        assert(f1[n2] == '[');
    }
    assert(n1 == n2);
    assert(s[n1] == f1[n1]);
    match d1.base {
        BaseView::Reference(a) => {
            match d2.base {
                BaseView::Reference(b) => {
                    if a.len() < b.len() {
                        assert(s[n1 + 1 + a.len()] == f1[n1 + 1 + a.len()]);
                        assert(b[a.len() as int] == ';');
                        assert(b.contains(';'));
                    }
                    assert(a.len() == b.len());
                    assert forall|k: int| 0 <= k < a.len() implies a[k] == b[k] by {
                        assert(s[n1 + 1 + k] == f1[n1 + 1 + k]);
                    }
                    assert(a =~= b);
                },
                _ => {},
            }
        },
        _ => {
            match d2.base {
                BaseView::Reference(b) => {},
                _ => {},
            }
        },
    }
    assert(Seq::new(d1.num_array, |i: int| '[') =~= Seq::new(d2.num_array, |i: int| '['));
}

/// Parses one field descriptor that starts at `pos` in `s`, giving it and the
/// position just after it.
fn parse_field_at(s: &str, len: usize, pos: usize) -> (r: Option<(FieldDescriptor, usize)>)
    requires
        len == s@.len(),
        pos <= len,
    ensures
        match r {
            Some((d, end)) => {
                &&& d.wf()
                &&& formattable(d@)
                &&& pos < end <= len
                &&& s@.subrange(pos as int, end as int) == format_field(d@)
            },
            None => forall|d: FieldDescriptorView|
                formattable(d) && pos + format_field(d).len() <= len ==> s@.subrange(
                    pos as int,
                    pos + format_field(d).len(),
                ) != format_field(d),
        },
{
    let mut i: usize = pos;
    while i < len && s.get_char(i) == '['
        invariant
            pos <= i <= len,
            len == s@.len(),
            forall|k: int| pos <= k < i ==> s@[k] == '[',
        decreases len - i,
    {
        i = i + 1;
    }
    let ghost n: nat = (i - pos) as nat;
    if i >= len {
        proof {
            assert forall|d: FieldDescriptorView|
                formattable(d) && pos + format_field(d).len() <= len implies s@.subrange(
                pos as int,
                pos + format_field(d).len(),
            ) != format_field(d) by {
                let f = format_field(d);
                if s@.subrange(pos as int, pos + f.len()) == f {
                    let m = d.num_array as int;
                    assert(f[m] == base_letter(d.base));
                    assert(s@[pos + m] == f[m]);
                }
            }
        }
        return None;
    }
    let c = s.get_char(i);
    let base = if c == 'B' {
        FieldDescriptorType::Byte
    } else if c == 'C' {
        FieldDescriptorType::Char
    } else if c == 'D' {
        FieldDescriptorType::Double
    } else if c == 'F' {
        FieldDescriptorType::Float
    } else if c == 'I' {
        FieldDescriptorType::Int
    } else if c == 'J' {
        FieldDescriptorType::Long
    } else if c == 'S' {
        FieldDescriptorType::Short
    } else if c == 'Z' {
        FieldDescriptorType::Boolean
    } else if c == 'L' {
        let mut j: usize = i + 1;
        while j < len && s.get_char(j) != ';'
            invariant
                i < j <= len,
                len == s@.len(),
                forall|k: int| i < k < j ==> s@[k] != ';',
            decreases len - j,
        {
            j = j + 1;
        }
        if j >= len {
            proof {
                assert forall|d: FieldDescriptorView|
                    formattable(d) && pos + format_field(d).len() <= len implies s@.subrange(
                    pos as int,
                    pos + format_field(d).len(),
                ) != format_field(d) by {
                    let f = format_field(d);
                    if s@.subrange(pos as int, pos + f.len()) == f {
                        let m = d.num_array as int;
                        assert(f[m] == base_letter(d.base));
                        assert(s@[pos + m] == f[m]);
                        if m < n {
                            assert(s@[pos + m] == '[');
                        }
                        if m > n {
                            assert(f[n as int] == '[');
                            assert(s@[pos + n] == f[n as int]);
                        }
                        assert(m == n);
                        let name = d.base->Reference_0;
                        assert(f[f.len() - 1] == ';');
                        assert(s@[pos + f.len() - 1] == ';');
                    }
                }
            }
            return None;
        }
        let name = s.substring_char(i + 1, j).to_owned();
        let typ = FieldDescriptorType::Reference(name);
        let num_array = i - pos;
        let simple_typ = as_type(&typ, num_array);
        let d = FieldDescriptor { num_array, typ, simple_typ };
        proof {
            let dv = d@;
            let f = format_field(dv);
            assert(!name@.contains(';')) by {
                if name@.contains(';') {
                    let k = choose|k: int| 0 <= k < name@.len() && name@[k] == ';';
                    assert(s@[i + 1 + k] == ';');
                }
            }
            assert(s@.subrange(pos as int, j + 1) =~= f);
        }
        return Some((d, j + 1));
    } else {
        proof {
            assert forall|d: FieldDescriptorView|
                formattable(d) && pos + format_field(d).len() <= len implies s@.subrange(
                pos as int,
                pos + format_field(d).len(),
            ) != format_field(d) by {
                let f = format_field(d);
                if s@.subrange(pos as int, pos + f.len()) == f {
                    let m = d.num_array as int;
                    assert(f[m] == base_letter(d.base));
                    assert(s@[pos + m] == f[m]);
                    if m < n {
                        assert(s@[pos + m] == '[');
                    }
                    if m > n {
                        assert(f[n as int] == '[');
                        assert(s@[pos + n] == f[n as int]);
                    }
                }
            }
        }
        return None;
    };
    let num_array = i - pos;
    let simple_typ = as_type(&base, num_array);
    let d = FieldDescriptor { num_array, typ: base, simple_typ };
    proof {
        assert(s@.subrange(pos as int, i + 1) =~= format_field(d@));
    }
    Some((d, i + 1))
}

impl FieldDescriptorType {
    /// An equal copy.
    pub fn duplicate(&self) -> (r: FieldDescriptorType)
        ensures
            r == *self,
    {
        match self {
            FieldDescriptorType::Byte => FieldDescriptorType::Byte,
            FieldDescriptorType::Char => FieldDescriptorType::Char,
            FieldDescriptorType::Double => FieldDescriptorType::Double,
            FieldDescriptorType::Float => FieldDescriptorType::Float,
            FieldDescriptorType::Int => FieldDescriptorType::Int,
            FieldDescriptorType::Long => FieldDescriptorType::Long,
            FieldDescriptorType::Reference(s) => FieldDescriptorType::Reference(s.clone()),
            FieldDescriptorType::Short => FieldDescriptorType::Short,
            FieldDescriptorType::Boolean => FieldDescriptorType::Boolean,
        }
    }
}

impl View for FieldDescriptor {
    type V = FieldDescriptorView;

    open spec fn view(&self) -> FieldDescriptorView {
        FieldDescriptorView { num_array: self.num_array as nat, base: self.typ@ }
    }
}

impl FieldDescriptor {
    /// The cached simple type agrees with the array levels and the base.
    pub open spec fn wf(&self) -> bool {
        self.simple_typ == simple_type_of(self.typ@, self.num_array as nat)
    }

    /// An equal copy.
    pub fn duplicate(&self) -> (r: FieldDescriptor)
        ensures
            r == *self,
    {
        FieldDescriptor { num_array: self.num_array, typ: self.typ.duplicate(), simple_typ: self.simple_typ }
    }

    /// A descriptor with `num_array` array levels around `typ`.
    pub fn new(typ: FieldDescriptorType, num_array: usize) -> (r: FieldDescriptor)
        ensures
            r.wf(),
            r@ == (FieldDescriptorView { num_array: num_array as nat, base: typ@ }),
    {
        let simple_typ = as_type(&typ, num_array);
        FieldDescriptor { num_array, typ, simple_typ }
    }

    /// Parses a whole text as a field descriptor; trailing characters are an error.
    pub fn parse(desc: &str) -> (r: Option<FieldDescriptor>)
        ensures
            match r {
                Some(d) => d.wf() && Some(d@) == parse_field_spec(desc@),
                None => parse_field_spec(desc@) is None,
            },
    {
        let len = desc.unicode_len();
        match parse_field_at(desc, len, 0) {
            Some((d, end)) => {
                if end == len {
                    proof {
                        assert(desc@.subrange(0, len as int) =~= desc@);
                        lemma_parse_field_spec(d@, desc@);
                    }
                    Some(d)
                } else {
                    proof {
                        if exists|d2: FieldDescriptorView| formattable(d2) && format_field(d2) == desc@ {
                            let d2 = choose|d2: FieldDescriptorView|
                                formattable(d2) && format_field(d2) == desc@;
                            assert(desc@.subrange(0, end as int) == format_field(d@));
                            lemma_format_prefix_free(d@, d2, desc@);
                        }
                    }
                    None
                }
            },
            None => {
                proof {
                    if exists|d2: FieldDescriptorView| formattable(d2) && format_field(d2) == desc@ {
                        let d2 = choose|d2: FieldDescriptorView|
                            formattable(d2) && format_field(d2) == desc@;
                        assert(desc@.subrange(0, format_field(d2).len() as int) =~= desc@);
                    }
                }
                None
            },
        }
    }

    /// Adds one array level (`I` becomes `[I`).
    pub fn add_array(&mut self)
        requires
            old(self).wf(),
            old(self).num_array < usize::MAX,
        ensures
            final(self).wf(),
            final(self)@ == (FieldDescriptorView {
                num_array: old(self)@.num_array + 1,
                base: old(self)@.base,
            }),
    {
        self.num_array = self.num_array + 1;
        self.update_simple_typ();
    }

    /// Removes one array level (`[I` becomes `I`).
    pub fn remove_array(&mut self)
        requires
            old(self).wf(),
            old(self).num_array > 0,
        ensures
            final(self).wf(),
            final(self)@ == (FieldDescriptorView {
                num_array: (old(self)@.num_array - 1) as nat,
                base: old(self)@.base,
            }),
    {
        self.num_array = self.num_array - 1;
        self.update_simple_typ();
    }

    /// The simple type this descriptor would have with `num_less_arrays` fewer array levels.
    pub fn as_type_without_arrays(&self, num_less_arrays: usize) -> (r: Type)
        requires
            num_less_arrays <= self.num_array,
        ensures
            r == simple_type_of(self.typ@, (self.num_array - num_less_arrays) as nat),
    {
        as_type(&self.typ, self.num_array - num_less_arrays)
    }

    pub fn simple_typ(&self) -> (r: Type)
        requires
            self.wf(),
        ensures
            r == simple_type_of(self@.base, self@.num_array),
    {
        self.simple_typ
    }

    pub fn num_array(&self) -> (r: usize)
        ensures
            r == self@.num_array,
    {
        self.num_array
    }

    pub fn is_array(&self) -> (r: bool)
        ensures
            r == (self@.num_array > 0),
    {
        self.num_array > 0
    }

    /// Words a value of this descriptor takes: 2 for long and double, else 1.
    pub fn word_size(&self) -> (r: usize)
        requires
            self.wf(),
        ensures
            r == field_words(self@),
            r == 1 || r == 2,
    {
        self.simple_typ.word_size()
    }

    /// The class name of a plain (non-array) reference descriptor.
    pub fn get_class(&self) -> (r: Option<&str>)
        ensures
            match r {
                Some(s) => self@.num_array == 0 && self@.base == BaseView::Reference(s@),
                None => self@.num_array > 0 || !(self@.base is Reference),
            },
    {
        if self.num_array > 0 {
            return None;
        }
        match &self.typ {
            FieldDescriptorType::Reference(s) => Some(s.as_str()),
            _ => None,
        }
    }

    /// The descriptor of an instance of class `class`.
    pub fn from_class(class: &str) -> (r: FieldDescriptor)
        ensures
            r.wf(),
            r@ == (FieldDescriptorView { num_array: 0, base: BaseView::Reference(class@) }),
    {
        FieldDescriptor {
            num_array: 0,
            simple_typ: Type::Reference,
            typ: FieldDescriptorType::Reference(class.to_owned()),
        }
    }

    /// The descriptor of a value of a primitive type.
    pub fn from_type_without_reference(typ: Type) -> (r: FieldDescriptor)
        requires
            typ != Type::Reference,
        ensures
            r.wf(),
            r@.num_array == 0,
            base_type(r@.base) == typ,
            !(r@.base is Reference),
    {
        FieldDescriptor {
            num_array: 0,
            simple_typ: typ,
            typ: match typ {
                Type::Byte => FieldDescriptorType::Byte,
                Type::Char => FieldDescriptorType::Char,
                Type::Double => FieldDescriptorType::Double,
                Type::Float => FieldDescriptorType::Float,
                Type::Int => FieldDescriptorType::Int,
                Type::Long => FieldDescriptorType::Long,
                Type::Short => FieldDescriptorType::Short,
                _ => FieldDescriptorType::Boolean,
            },
        }
    }

    /// A class name as it stands in a constant pool: either a plain class
    /// name or, starting with `[`, an array descriptor.
    pub fn from_symbolic_reference(name: &str) -> (r: Option<FieldDescriptor>)
        ensures
            name@.len() > 0 && name@[0] == '[' ==> match r {
                Some(d) => d.wf() && Some(d@) == parse_field_spec(name@),
                None => parse_field_spec(name@) is None,
            },
            !(name@.len() > 0 && name@[0] == '[') ==> r is Some && r->Some_0.wf() && r->Some_0@
                == (FieldDescriptorView { num_array: 0, base: BaseView::Reference(name@) }),
    {
        let len = name.unicode_len();
        if len > 0 && name.get_char(0) == '[' {
            FieldDescriptor::parse(name)
        } else {
            Some(FieldDescriptor::from_class(name))
        }
    }

    fn update_simple_typ(&mut self)
        ensures
            final(self).wf(),
            final(self)@ == old(self)@,
    {
        self.simple_typ = as_type(&self.typ, self.num_array);
    }
}


/// A method descriptor that has a text.
pub open spec fn valid_method(ps: Seq<FieldDescriptorView>, ret: Option<FieldDescriptorView>) -> bool {
    &&& ps.len() <= MAX_PARAMS
    &&& forall|i: int| 0 <= i < ps.len() ==> formattable(#[trigger] ps[i])
    &&& ret matches Some(d) ==> formattable(d)
}

/// `s` is the text of some method descriptor.
pub open spec fn is_method_text(s: Seq<char>) -> bool {
    exists|w: (Seq<FieldDescriptorView>, Option<FieldDescriptorView>)|
        valid_method(w.0, w.1) && format_method(w.0, w.1) == s
}

/// Two descriptors whose texts both start `s` are the same.
proof fn lemma_common_prefix(d1: FieldDescriptorView, d2: FieldDescriptorView, s: Seq<char>)
    requires
        formattable(d1),
        formattable(d2),
        format_field(d1).len() <= s.len(),
        format_field(d2).len() <= s.len(),
        s.subrange(0, format_field(d1).len() as int) == format_field(d1),
        s.subrange(0, format_field(d2).len() as int) == format_field(d2),
    ensures
        d1 == d2,
{
    let f1 = format_field(d1);
    let f2 = format_field(d2);
    if f1.len() <= f2.len() {
        assert(f2.subrange(0, f1.len() as int) =~= s.subrange(0, f1.len() as int));
        lemma_format_prefix_free(d1, d2, f2);
    } else {
        assert(f1.subrange(0, f2.len() as int) =~= s.subrange(0, f2.len() as int));
        lemma_format_prefix_free(d2, d1, f1);
    }
}

/// The text of the parameters is that of the first `j` and that of the rest.
proof fn lemma_text_split(ps: Seq<FieldDescriptorView>, j: int)
    requires
        0 <= j <= ps.len(),
    ensures
        fields_text(ps) == fields_text(ps.subrange(0, j)) + fields_text(ps.subrange(j, ps.len() as int)),
    decreases ps.len(),
{
    if j == ps.len() {
        assert(ps.subrange(0, j) =~= ps);
        assert(fields_text(ps.subrange(j, ps.len() as int)) =~= Seq::<char>::empty());
        assert(fields_text(ps) + Seq::<char>::empty() =~= fields_text(ps));
    } else {
        let dl = ps.drop_last();
        lemma_text_split(dl, j);
        assert(dl.subrange(0, j) =~= ps.subrange(0, j));
        let tail = ps.subrange(j, ps.len() as int);
        assert(tail.drop_last() =~= dl.subrange(j, dl.len() as int));
        assert(tail.last() == ps.last());
        assert(fields_text(ps) =~= fields_text(ps.subrange(0, j)) + fields_text(tail));
    }
}

/// Where the first `k` parameters of a method text end, the next one's text begins.
proof fn lemma_next_param(
    ps: Seq<FieldDescriptorView>,
    ret: Option<FieldDescriptorView>,
    s: Seq<char>,
    k: nat,
    pos: int,
)
    requires
        valid_method(ps, ret),
        format_method(ps, ret) == s,
        k < ps.len(),
        pos == 1 + fields_text(ps.subrange(0, k as int)).len(),
    ensures
        pos + format_field(ps[k as int]).len() <= s.len(),
        s.subrange(pos, pos + format_field(ps[k as int]).len()) == format_field(ps[k as int]),
        s[pos] != ')',
        k < MAX_PARAMS,
{
    lemma_text_split(ps, k + 1 as int);
    let pre = ps.subrange(0, k + 1 as int);
    assert(pre.drop_last() =~= ps.subrange(0, k as int));
    let f = format_field(ps[k as int]);
    let t0 = fields_text(ps.subrange(0, k as int));
    let rest = fields_text(ps.subrange(k + 1 as int, ps.len() as int));
    let tail = seq![')'] + match ret {
        None => seq!['V'],
        Some(d) => format_field(d),
    };
    assert(s =~= seq!['('] + t0 + f + rest + tail);
    assert(s.subrange(pos, pos + f.len()) =~= f);
    let m = ps[k as int].num_array;
    if m > 0 {
        assert(f[0] == '[');
    } else {
        assert(f[0] == base_letter(ps[k as int].base));
    }
}

/// Where all the parameters of a method text end stands `)`, then the return type.
proof fn lemma_after_params(ps: Seq<FieldDescriptorView>, ret: Option<FieldDescriptorView>, s: Seq<char>, pos: int)
    requires
        valid_method(ps, ret),
        format_method(ps, ret) == s,
        pos == 1 + fields_text(ps).len(),
    ensures
        pos < s.len(),
        s[pos] == ')',
        s.subrange(pos + 1, s.len() as int) == match ret {
            None => seq!['V'],
            Some(d) => format_field(d),
        },
{
    let tail = match ret {
        None => seq!['V'],
        Some(d) => format_field(d),
    };
    assert(s =~= seq!['('] + fields_text(ps) + seq![')'] + tail);
    assert(s.subrange(pos + 1, s.len() as int) =~= tail);
}

pub open spec fn ret_text(ret: Option<FieldDescriptorView>) -> Seq<char> {
    match ret {
        None => seq!['V'],
        Some(d) => format_field(d),
    }
}

/// Two lists of parameters and return types whose texts agree are the same.
proof fn lemma_params_unique(
    ps1: Seq<FieldDescriptorView>,
    r1: Option<FieldDescriptorView>,
    ps2: Seq<FieldDescriptorView>,
    r2: Option<FieldDescriptorView>,
)
    requires
        valid_method(ps1, r1),
        valid_method(ps2, r2),
        fields_text(ps1) + seq![')'] + ret_text(r1) == fields_text(ps2) + seq![')'] + ret_text(r2),
    ensures
        ps1 == ps2,
        r1 == r2,
    decreases ps1.len() + ps2.len(),
{
    let t = fields_text(ps1) + seq![')'] + ret_text(r1);
    if ps1.len() > 0 && ps2.len() > 0 {
        lemma_text_split(ps1, 1);
        lemma_text_split(ps2, 1);
        assert(ps1.subrange(0, 1).drop_last() =~= Seq::<FieldDescriptorView>::empty());
        assert(ps2.subrange(0, 1).drop_last() =~= Seq::<FieldDescriptorView>::empty());
        assert(fields_text(Seq::<FieldDescriptorView>::empty()) =~= Seq::<char>::empty());
        assert(fields_text(ps1.subrange(0, 1)) =~= format_field(ps1[0]));
        assert(fields_text(ps2.subrange(0, 1)) =~= format_field(ps2[0]));
        let f1 = format_field(ps1[0]);
        let f2 = format_field(ps2[0]);
        let t1 = fields_text(ps1.subrange(1, ps1.len() as int)) + seq![')'] + ret_text(r1);
        let t2 = fields_text(ps2.subrange(1, ps2.len() as int)) + seq![')'] + ret_text(r2);
        assert(t =~= f1 + t1);
        assert(t =~= f2 + t2);
        assert(t.subrange(0, f1.len() as int) =~= f1);
        assert(t.subrange(0, f2.len() as int) =~= f2);
        lemma_common_prefix(ps1[0], ps2[0], t);
        assert(t1 =~= t.subrange(f1.len() as int, t.len() as int));
        assert(t2 =~= t.subrange(f2.len() as int, t.len() as int));
        let q1 = ps1.subrange(1, ps1.len() as int);
        let q2 = ps2.subrange(1, ps2.len() as int);
        assert(valid_method(q1, r1) && valid_method(q2, r2)) by {
            assert forall|i: int| 0 <= i < q1.len() implies formattable(#[trigger] q1[i]) by {
                assert(q1[i] == ps1[i + 1]);
            }
            assert forall|i: int| 0 <= i < q2.len() implies formattable(#[trigger] q2[i]) by {
                assert(q2[i] == ps2[i + 1]);
            }
        }
        lemma_params_unique(q1, r1, q2, r2);
        assert(ps1 =~= seq![ps1[0]] + q1);
        assert(ps2 =~= seq![ps2[0]] + q2);
    } else if ps1.len() > 0 {
        lemma_text_split(ps1, 1);
        assert(ps1.subrange(0, 1).drop_last() =~= Seq::<FieldDescriptorView>::empty());
        assert(fields_text(Seq::<FieldDescriptorView>::empty()) =~= Seq::<char>::empty());
        assert(fields_text(ps2) =~= Seq::<char>::empty());
        let f1 = format_field(ps1[0]);
        assert(t[0] == f1[0]);
        assert(t[0] == ')');
        if ps1[0].num_array > 0 {
            assert(f1[0] == '[');
        } else {
            assert(f1[0] == base_letter(ps1[0].base));
        }
    } else if ps2.len() > 0 {
        lemma_text_split(ps2, 1);
        assert(ps2.subrange(0, 1).drop_last() =~= Seq::<FieldDescriptorView>::empty());
        assert(fields_text(Seq::<FieldDescriptorView>::empty()) =~= Seq::<char>::empty());
        assert(fields_text(ps1) =~= Seq::<char>::empty());
        let f2 = format_field(ps2[0]);
        let u = fields_text(ps2) + seq![')'] + ret_text(r2);
        assert(u[0] == f2[0]);
        assert(t[0] == ')');
        if ps2[0].num_array > 0 {
            assert(f2[0] == '[');
        } else {
            assert(f2[0] == base_letter(ps2[0].base));
        }
    } else {
        assert(fields_text(ps1) =~= Seq::<char>::empty());
        assert(fields_text(ps2) =~= Seq::<char>::empty());
        assert(ret_text(r1) =~= t.subrange(1, t.len() as int));
        assert(ret_text(r2) =~= t.subrange(1, t.len() as int));
        match (r1, r2) {
            (Some(d1), Some(d2)) => {
                let f = format_field(d1);
                assert(f.subrange(0, f.len() as int) =~= f);
                lemma_format_prefix_free(d1, d2, f);
            },
            (Some(d1), None) => {
                let f = format_field(d1);
                assert(f[d1.num_array as int] == base_letter(d1.base));
            },
            (None, Some(d2)) => {
                let f = format_field(d2);
                assert(f[d2.num_array as int] == base_letter(d2.base));
            },
            (None, None) => {},
        }
        assert(ps1 =~= ps2);
    }
}

/// Parsing the text of a method descriptor gives it back: the text is that
/// of no other descriptor, and it is a method text, so parsing succeeds.
pub proof fn lemma_method_descriptor_round_trip(ps: Seq<FieldDescriptorView>, ret: Option<FieldDescriptorView>)
    requires
        valid_method(ps, ret),
    ensures
        is_method_text(format_method(ps, ret)),
        forall|ps2: Seq<FieldDescriptorView>, ret2: Option<FieldDescriptorView>|
            valid_method(ps2, ret2) && format_method(ps2, ret2) == format_method(ps, ret) ==> ps2 == ps && ret2
                == ret,
{
    let w = (ps, ret);
    assert(valid_method(w.0, w.1) && format_method(w.0, w.1) == format_method(ps, ret));
    assert forall|ps2: Seq<FieldDescriptorView>, ret2: Option<FieldDescriptorView>|
        valid_method(ps2, ret2) && format_method(ps2, ret2) == format_method(ps, ret) implies ps2 == ps && ret2
            == ret by {
        let a = format_method(ps, ret);
        assert(a.subrange(1, a.len() as int) =~= fields_text(ps) + seq![')'] + ret_text(ret));
        assert(format_method(ps2, ret2).subrange(1, a.len() as int) =~= fields_text(ps2) + seq![')'] + ret_text(ret2));
        lemma_params_unique(ps, ret, ps2, ret2);
    }
}

impl MethodDescriptor {
    pub open spec fn wf(&self) -> bool {
        &&& self.params.len() <= MAX_PARAMS
        &&& forall|i: int| 0 <= i < self.params.len() ==> #[trigger] self.params[i].wf()
        &&& match self.ret_type {
            Some(d) => d.wf(),
            None => true,
        }
    }

    pub fn new(params: Vec<FieldDescriptor>, ret_type: Option<FieldDescriptor>) -> (r: MethodDescriptor)
        ensures
            r.params == params,
            r.ret_type == ret_type,
    {
        MethodDescriptor { params, ret_type }
    }

    /// Parses `(` parameters `)` and `V` or a return descriptor; trailing
    /// characters are an error. A descriptor of more than `MAX_PARAMS`
    /// parameters is refused.
    pub fn parse(desc: &str) -> (r: Option<MethodDescriptor>)
        ensures
            r matches Some(m) ==> m.wf() && desc@ == format_method(views_of(m.params@), opt_view(m.ret_type)),
            r matches Some(m) ==> valid_method(views_of(m.params@), opt_view(m.ret_type)),
            r is None <==> !is_method_text(desc@),
    {
        let len = desc.unicode_len();
        let ghost has_w = is_method_text(desc@);
        let ghost w: (Seq<FieldDescriptorView>, Option<FieldDescriptorView>) = if has_w {
            choose|w: (Seq<FieldDescriptorView>, Option<FieldDescriptorView>)|
                valid_method(w.0, w.1) && format_method(w.0, w.1) == desc@
        } else {
            (Seq::empty(), None)
        };
        let ghost wps = w.0;
        proof {
            if has_w {
                assert(format_method(w.0, w.1)[0] == '(');
                assert(desc@.len() > 0 && desc@[0] == '(');
            }
        }
        if len == 0 || desc.get_char(0) != '(' {
            return None;
        }
        let mut pos: usize = 1;
        let mut params: Vec<FieldDescriptor> = Vec::new();
        proof {
            assert(desc@.subrange(0, 1) =~= seq!['('] + fields_text(views_of(params@)));
            assert(views_of(params@) =~= wps.subrange(0, 0));
        }
        while pos < len && desc.get_char(pos) != ')'
            invariant
                len == desc@.len(),
                1 <= pos <= len,
                desc@[0] == '(',
                params.len() <= MAX_PARAMS,
                forall|i: int| 0 <= i < params.len() ==> #[trigger] params[i].wf(),
                forall|i: int| 0 <= i < params.len() ==> formattable(#[trigger] params[i]@),
                desc@.subrange(0, pos as int) == seq!['('] + fields_text(views_of(params@)),
                has_w == is_method_text(desc@),
                has_w ==> valid_method(w.0, w.1) && format_method(w.0, w.1) == desc@,
                wps == w.0,
                has_w ==> params.len() <= wps.len() && views_of(params@) == wps.subrange(
                    0,
                    params.len() as int,
                ),
            decreases len - pos,
        {
            proof {
                if has_w {
                    let k = params.len() as int;
                    assert(desc@.subrange(0, pos as int).len() == pos);
                    assert(pos == 1 + fields_text(wps.subrange(0, k)).len());
                    if k == wps.len() {
                        assert(wps.subrange(0, k) =~= wps);
                        lemma_after_params(wps, w.1, desc@, pos as int);
                        assert(false);
                    }
                    lemma_next_param(wps, w.1, desc@, params.len() as nat, pos as int);
                }
            }
            if params.len() >= MAX_PARAMS {
                return None;
            }
            match parse_field_at(desc, len, pos) {
                Some((d, end)) => {
                    let ghost old_params = params@;
                    proof {
                        if has_w {
                            let k = params.len() as int;
                            let rest = desc@.subrange(pos as int, len as int);
                            let fk = format_field(wps[k]);
                            assert(rest.subrange(0, end - pos) =~= desc@.subrange(pos as int, end as int));
                            assert(rest.subrange(0, fk.len() as int) =~= desc@.subrange(pos as int, pos + fk.len()));
                            lemma_common_prefix(d@, wps[k], rest);
                        }
                    }
                    params.push(d);
                    proof {
                        let vs = views_of(params@);
                        assert(vs.drop_last() =~= views_of(old_params));
                        assert(desc@.subrange(0, end as int) =~= desc@.subrange(0, pos as int)
                            + desc@.subrange(pos as int, end as int));
                        if has_w {
                            assert(vs =~= wps.subrange(0, params.len() as int));
                        }
                    }
                    pos = end;
                },
                None => {
                    return None;
                },
            }
        }
        proof {
            if has_w {
                let k = params.len() as int;
                assert(desc@.subrange(0, pos as int).len() == pos);
                assert(pos == 1 + fields_text(wps.subrange(0, k)).len());
                if k < wps.len() {
                    lemma_next_param(wps, w.1, desc@, params.len() as nat, pos as int);
                    assert(false);
                }
                assert(wps.subrange(0, k) =~= wps);
                lemma_after_params(wps, w.1, desc@, pos as int);
            }
        }
        if pos >= len {
            return None;
        }
        let start = pos + 1;
        let ret_type = if start < len && len - start == 1 && desc.get_char(start) == 'V' {
            proof {
                if has_w {
                    if let Some(d0) = w.1 {
                        let f = format_field(d0);
                        assert(f[d0.num_array as int] == base_letter(d0.base));
                    }
                }
            }
            None
        } else {
            match parse_field_at(desc, len, start) {
                Some((d, end)) => {
                    proof {
                        if has_w {
                            let rest = desc@.subrange(start as int, len as int);
                            assert(rest.subrange(0, end - start) =~= desc@.subrange(start as int, end as int));
                            assert(rest.subrange(0, rest.len() as int) =~= rest);
                            lemma_common_prefix(d@, w.1->Some_0, rest);
                        }
                    }
                    if end != len {
                        return None;
                    }
                    Some(d)
                },
                None => {
                    return None;
                },
            }
        };
        let m = MethodDescriptor { params, ret_type };
        proof {
            assert(desc@ =~= desc@.subrange(0, pos as int) + seq![')'] + desc@.subrange(
                start as int,
                len as int,
            ));
            let vs = views_of(m.params@);
            assert forall|i: int| 0 <= i < vs.len() implies formattable(#[trigger] vs[i]) by {
                assert(vs[i] == m.params[i]@);
            }
            let wit = (vs, opt_view(m.ret_type));
            assert(valid_method(wit.0, wit.1) && format_method(wit.0, wit.1) == desc@);
        }
        Some(m)
    }

    /// Words that the parameters take on the operand stack.
    pub fn words_for_params(&self) -> (r: usize)
        requires
            self.wf(),
        ensures
            r == params_words(views_of(self.params@)),
    {
        let mut sum: usize = 0;
        let mut i: usize = 0;
        while i < self.params.len()
            invariant
                self.wf(),
                i <= self.params.len(),
                sum == params_words(views_of(self.params@.subrange(0, i as int))),
                sum <= 2 * i,
            decreases self.params.len() - i,
        {
            let w = self.params[i].word_size();
            proof {
                let vs = views_of(self.params@.subrange(0, i + 1));
                assert(vs.drop_last() =~= views_of(self.params@.subrange(0, i as int)));
            }
            sum = sum + w;
            i = i + 1;
        }
        proof {
            assert(self.params@.subrange(0, i as int) =~= self.params@);
        }
        sum
    }
}

/// A formattable descriptor is what parsing its own text gives.
proof fn lemma_parse_field_spec(d: FieldDescriptorView, s: Seq<char>)
    requires
        formattable(d),
        format_field(d) == s,
    ensures
        parse_field_spec(s) == Some(d),
{
    let d2 = choose|d2: FieldDescriptorView| formattable(d2) && format_field(d2) == s;
    assert(s.subrange(0, s.len() as int) =~= s);
    lemma_format_prefix_free(d2, d, s);
}

/// Parsing the text of a descriptor gives the descriptor back, and a
/// descriptor takes two words exactly when it is a long or a double.
pub proof fn lemma_field_descriptor_round_trip(d: FieldDescriptorView)
    requires
        formattable(d),
    ensures
        parse_field_spec(format_field(d)) == Some(d),
        field_words(d) == 1 || field_words(d) == 2,
        field_words(d) == 2 <==> (d.num_array == 0 && (d.base == BaseView::Long || d.base
            == BaseView::Double)),
{
    lemma_parse_field_spec(d, format_field(d));
}

} // verus!
