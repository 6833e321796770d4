use vstd::prelude::*;
use crate::class::{Class, str_eq, link_ok};
use crate::parsed_class::class_spec;
use crate::errors::ClassLoadingError;
use crate::parsed_class::{ParsedClass, class_bytes_parse, class_version_of, zero_pool_count};

verus! {

// the second edition of the virtual machine reads versions 45.0 to 46.0
pub const MIN_MAJOR_VERSION: u16 = 45;

pub const MIN_MINOR_VERSION: u16 = 0;

pub const MAX_MAJOR_VERSION: u16 = 46;

pub const MAX_MINOR_VERSION: u16 = 0;

/// The most classes one loader holds.
pub const MAX_LOADED_CLASSES: usize = 0x7fff;

/// The classes loaded so far, each linked once and kept for the loader's
/// lifetime. Reading class files is left to the caller, who hands their
/// bytes to `define_class`.
pub struct ClassLoader {
    pub load_dir: String,
    pub classes: Vec<Class>,
}

/// The loaded class called `name`, if there is one.
pub open spec fn class_named(cs: Seq<Class>, name: Seq<char>) -> Option<Class> {
    if exists|i: int| 0 <= i < cs.len() && #[trigger] cs[i].name@ == name {
        Some(cs[choose|i: int| 0 <= i < cs.len() && #[trigger] cs[i].name@ == name])
    } else {
        None
    }
}

pub open spec fn unique_names(cs: Seq<Class>) -> bool {
    forall|i: int, j: int|
        0 <= i < cs.len() && 0 <= j < cs.len() && #[trigger] cs[i].name@ == #[trigger] cs[j].name@ ==> i
            == j
}

pub open spec fn version_supported(major: u16, minor: u16) -> bool {
    !(major < MIN_MAJOR_VERSION || (major == MIN_MAJOR_VERSION && minor < MIN_MINOR_VERSION)
        || major > MAX_MAJOR_VERSION || (major == MAX_MAJOR_VERSION && minor > MAX_MINOR_VERSION))
}

/// Whether a class file of this version can be loaded.
pub fn is_supported_version(major: u16, minor: u16) -> (r: bool)
    ensures
        r == version_supported(major, minor),
{
    !(major < MIN_MAJOR_VERSION || (major == MIN_MAJOR_VERSION && minor < MIN_MINOR_VERSION)
        || major > MAX_MAJOR_VERSION || (major == MAX_MAJOR_VERSION && minor > MAX_MINOR_VERSION))
}

/// The text after the last `/` of `s`.
pub open spec fn last_segment(s: Seq<char>) -> Seq<char> {
    if exists|i: int| 0 <= i < s.len() && s[i] == '/' {
        let i = choose|i: int|
            0 <= i < s.len() && s[i] == '/' && forall|k: int| i < k < s.len() ==> s[k] != '/';
        s.subrange(i + 1, s.len() as int)
    } else {
        s
    }
}

/// The cache after an error: unchanged, or grown by one class that is not
/// called `name` (a linked class whose own name differs).
pub open spec fn cache_after_error(a: ClassLoader, b: ClassLoader, name: Seq<char>) -> bool {
    b.classes@ == a.classes@ || (b.classes@ == a.classes@.push(b.classes@.last()) && b.classes@.last().name@
        != name)
}

/// What both ways of loading a class do to loader `a` under `name`, giving
/// `b` and `r`.
pub open spec fn load_common_post(a: ClassLoader, b: ClassLoader, name: Seq<char>, r: Result<(), ClassLoadingError>) -> bool {
    &&& b.wf()
    &&& b.load_dir == a.load_dir
    &&& b.classes@.len() >= a.classes@.len()
    &&& b.classes@.subrange(0, a.classes@.len() as int) == a.classes@
    &&& a.lookup(name) is Some ==> r is Ok && b.classes@ == a.classes@
    &&& r is Ok ==> b.lookup(name) is Some
    &&& r is Err ==> cache_after_error(a, b, name)
    &&& (r is Err && r->Err_0 is UnsupportedClassVersion) ==> b.classes@ == a.classes@
    &&& r is Ok && a.lookup(name) is None ==> b.classes@ == a.classes@.push(b.classes@.last())
        && b.classes@.last().name@ == name
}

/// What loading the parsed class file `parsed` under `name` does to loader
/// `a`, giving `b` and `r`.
pub open spec fn load_parsed_post(
    a: ClassLoader,
    b: ClassLoader,
    name: Seq<char>,
    parsed: ParsedClass,
    r: Result<(), ClassLoadingError>,
) -> bool {
    &&& load_common_post(a, b, name, r)
    &&& a.lookup(name) is None && !version_supported(parsed.major_version, parsed.minor_version)
        ==> (r is Err && r->Err_0 is UnsupportedClassVersion)
    &&& a.lookup(name) is None && version_supported(parsed.major_version, parsed.minor_version) && link_ok(
        parsed,
    ) && class_spec(parsed.const_pool@, parsed.this_class) == Some(name) && a.classes.len()
        < MAX_LOADED_CLASSES ==> r is Ok
    &&& a.lookup(name) is None && version_supported(parsed.major_version, parsed.minor_version) && link_ok(
        parsed,
    ) && class_spec(parsed.const_pool@, parsed.this_class) != Some(name) ==> (r is Err && r->Err_0 is ClassFormatError)
}

/// What loading the class file `bytes` under `name` does to loader `a`,
/// giving `b` and `r`.
pub open spec fn define_post(
    a: ClassLoader,
    b: ClassLoader,
    name: Seq<char>,
    bytes: Seq<u8>,
    r: Result<(), ClassLoadingError>,
) -> bool {
    &&& load_common_post(a, b, name, r)
    &&& a.lookup(name) is None && (zero_pool_count(bytes) || !class_bytes_parse(bytes)) ==> (r is Err
        && r->Err_0 is ClassFormatError && b.classes@ == a.classes@)
    &&& a.lookup(name) is None && !zero_pool_count(bytes) && class_bytes_parse(bytes) && !version_supported(
        class_version_of(bytes).1,
        class_version_of(bytes).0,
    ) ==> (r is Err && r->Err_0 is UnsupportedClassVersion && b.classes@ == a.classes@)
}

impl ClassLoader {
    pub open spec fn wf(&self) -> bool {
        &&& self.classes.len() <= MAX_LOADED_CLASSES
        &&& unique_names(self.classes@)
        &&& forall|i: int| 0 <= i < self.classes.len() ==> #[trigger] self.classes[i].wf()
    }

    pub open spec fn lookup(&self, name: Seq<char>) -> Option<Class> {
        class_named(self.classes@, name)
    }

    /// An empty loader for class files in `load_dir`.
    pub fn new(load_dir: &str) -> (r: ClassLoader)
        ensures
            r.wf(),
            r.classes.len() == 0,
            r.load_dir@ == load_dir@,
    {
        ClassLoader { load_dir: load_dir.to_owned(), classes: Vec::new() }
    }

    pub fn load_dir(&self) -> (r: &str)
        ensures
            r@ == self.load_dir@,
    {
        self.load_dir.as_str()
    }

    /// The name of the file a class is read from: the last segment of its
    /// name, then `.class`. All class files sit in the one directory.
    pub fn class_file_name(name: &str) -> (r: String)
        ensures
            r@ == last_segment(name@) + ".class"@,
    {
        let len = name.unicode_len();
        let mut i: usize = len;
        while i > 0 && name.get_char(i - 1) != '/'
            invariant
                i <= len,
                len == name@.len(),
                forall|k: int| i <= k < len ==> name@[k] != '/',
            decreases i,
        {
            i = i - 1;
        }
        proof {
            if i > 0 {
                assert(name@[i - 1] == '/');
                let j = choose|j: int|
                    0 <= j < name@.len() && name@[j] == '/' && forall|k: int| j < k < name@.len() ==> name@[k] != '/';
                if j < i - 1 {
                    assert(name@[i - 1] != '/');
                }
                if j > i - 1 {
                    assert(name@[j] != '/');
                }
            } else {
                assert(name@.subrange(0, len as int) =~= name@);
            }
        }
        let base = name.substring_char(i, len).to_owned();
        base.concat(".class")
    }

    /// The position of the class called `name` among the loaded classes.
    pub fn find(&self, name: &str) -> (r: Option<usize>)
        requires
            self.wf(),
        ensures
            r matches Some(i) ==> i < self.classes.len() && self.classes[i as int].name@ == name@
                && self.lookup(name@) == Some(self.classes[i as int]),
            r is None ==> self.lookup(name@) is None,
    {
        let mut i: usize = 0;
        while i < self.classes.len()
            invariant
                self.wf(),
                i <= self.classes.len(),
                forall|k: int| 0 <= k < i ==> #[trigger] self.classes[k].name@ != name@,
            decreases self.classes.len() - i,
        {
            if str_eq(self.classes[i].name.as_str(), name) {
                proof {
                    let j = choose|j: int|
                        0 <= j < self.classes.len() && #[trigger] self.classes[j].name@ == name@;
                    assert(self.classes@[j].name@ == self.classes@[i as int].name@);
                    assert(j == i as int);
                }
                return Some(i);
            }
            i = i + 1;
        }
        None
    }

    /// Whether a class of this name is loaded.
    pub fn is_loaded(&self, name: &str) -> (r: bool)
        requires
            self.wf(),
        ensures
            r == self.lookup(name@) is Some,
    {
        self.find(name).is_some()
    }

    /// The loaded class called `name`; `NoClassDefFound` if there is none.
    pub fn load_class(&self, name: &str) -> (r: Result<&Class, ClassLoadingError>)
        requires
            self.wf(),
        ensures
            r matches Ok(c) ==> self.lookup(name@) == Some(*c),
            r matches Err(e) ==> self.lookup(name@) is None && (e matches ClassLoadingError::NoClassDefFound(
                n,
            ) && n@ == name@),
            r is Ok <==> self.lookup(name@) is Some,
    {
        match self.find(name) {
            Some(i) => Ok(&self.classes[i]),
            None => Err(ClassLoadingError::NoClassDefFound(name.to_owned())),
        }
    }

    /// Checks the version of a parsed class file, links it and adds it under
    /// its own name. A class already loaded under `name` is kept and this is
    /// `Ok`. The linked class must be called `name`; if it is not, it is
    /// still kept (unless its name is taken) and this is a `ClassFormatError`.
    pub fn load_parsed(&mut self, name: &str, parsed: &ParsedClass) -> (r: Result<(), ClassLoadingError>)
        requires
            old(self).wf(),
        ensures
            load_parsed_post(*old(self), *final(self), name@, *parsed, r),
    {
        if self.find(name).is_some() {
            proof {
                assert(self.classes@.subrange(0, self.classes@.len() as int) =~= self.classes@);
            }
            return Ok(());
        }
        if !is_supported_version(parsed.major_version, parsed.minor_version) {
            proof {
                assert(self.classes@.subrange(0, self.classes@.len() as int) =~= self.classes@);
            }
            return Err(ClassLoadingError::UnsupportedClassVersion);
        }
        let class = match Class::from_class_file(parsed) {
            Ok(c) => c,
            Err(s) => {
                proof {
                    assert(self.classes@.subrange(0, self.classes@.len() as int) =~= self.classes@);
                }
                return Err(ClassLoadingError::ClassFormatError(s));
            },
        };
        let matches_name = str_eq(class.name.as_str(), name);
        if self.find(class.name.as_str()).is_none() {
            if self.classes.len() >= MAX_LOADED_CLASSES {
                proof {
                    assert(self.classes@.subrange(0, self.classes@.len() as int) =~= self.classes@);
                }
                return Err(ClassLoadingError::ClassFormatError("too many classes loaded".to_owned()));
            }
            let ghost before = self.classes@;
            let ghost cname = class.name@;
            self.classes.push(class);
            proof {
                assert(self.classes@.subrange(0, before.len() as int) =~= before);
                assert forall|i: int, j: int|
                    0 <= i < self.classes.len() && 0 <= j < self.classes.len() && #[trigger] self.classes[i].name@
                        == #[trigger] self.classes[j].name@ implies i == j by {
                    if i < before.len() && j < before.len() {
                        assert(self.classes[i] == before[i]);
                        assert(self.classes[j] == before[j]);
                    } else if i < before.len() {
                        assert(self.classes[i] == before[i]);
                        assert(before[i].name@ != cname);
                    } else if j < before.len() {
                        assert(self.classes[j] == before[j]);
                        assert(before[j].name@ != cname);
                    }
                }
                assert forall|i: int| 0 <= i < self.classes.len() implies #[trigger] self.classes[i].wf() by {
                    if i < before.len() {
                        assert(self.classes[i] == before[i]);
                    }
                }
                let last = self.classes.len() - 1;
                assert(self.classes[last].name@ == cname);
            }
        }
        if !matches_name {
            proof {
                if self.classes@.len() == old(self).classes@.len() {
                    assert(self.classes@ =~= old(self).classes@);
                } else {
                    assert(self.classes@ =~= old(self).classes@.push(self.classes@.last()));
                }
            }
            return Err(ClassLoadingError::ClassFormatError("loaded class has another name".to_owned()));
        }
        Ok(())
    }

    /// Parses the bytes of a class file and loads it as `load_parsed` does.
    /// Bytes that do not parse are a `ClassFormatError`.
    pub fn define_class(&mut self, name: &str, bytes: &[u8]) -> (r: Result<(), ClassLoadingError>)
        requires
            old(self).wf(),
        ensures
            define_post(*old(self), *final(self), name@, bytes@, r),
    {
        if self.find(name).is_some() {
            proof {
                assert(self.classes@.subrange(0, self.classes@.len() as int) =~= self.classes@);
            }
            return Ok(());
        }
        let parsed = match ParsedClass::parse(bytes) {
            Some(p) => p,
            None => {
                proof {
                    assert(self.classes@.subrange(0, self.classes@.len() as int) =~= self.classes@);
                }
                return Err(ClassLoadingError::ClassFormatError("Can't parse class".to_owned()));
            },
        };
        self.load_parsed(name, &parsed)
    }
}

} // verus!
