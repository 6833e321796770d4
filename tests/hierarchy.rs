use rustyjvm::class::Class;
use rustyjvm::class_loader::ClassLoader;
use rustyjvm::descriptor::FieldDescriptor;
use rustyjvm::errors::ClassLoadingError;
use rustyjvm::object::InstanceObject;
use rustyjvm::parsed_class::{Constant, FieldRef, MemberInfo, MethodRef, ParsedClass};
use rustyjvm::vm::VM;

const OBJECT: &str = "java/lang/Object";
const SUPER: &str = "com/mackie/rustyjvm/TestClassSuper";
const TEST: &str = "com/mackie/rustyjvm/TestClass";
const IA: &str = "com/mackie/rustyjvm/TestClassInterfaceA";
const IB: &str = "com/mackie/rustyjvm/TestClassInterfaceB";
const IC: &str = "com/mackie/rustyjvm/TestClassInterfaceC";

fn utf8(pool: &mut Vec<Constant>, s: &str) -> u16 {
    pool.push(Constant::Utf8(s.to_owned()));
    pool.len() as u16
}

fn class_entry(pool: &mut Vec<Constant>, s: &str) -> u16 {
    let u = utf8(pool, s);
    pool.push(Constant::Class(u));
    pool.len() as u16
}

fn member(pool: &mut Vec<Constant>, name: &str, desc: &str, flags: u16) -> MemberInfo {
    MemberInfo {
        access_flags: flags,
        name_index: utf8(pool, name),
        descriptor_index: utf8(pool, desc),
        attributes: vec![],
    }
}

fn parsed(
    name: &str,
    super_name: Option<&str>,
    interfaces: &[&str],
    flags: u16,
    fields: &[(&str, &str, u16)],
    methods: &[(&str, &str, u16)],
) -> ParsedClass {
    let mut pool = vec![];
    let this_class = class_entry(&mut pool, name);
    let super_class = match super_name {
        Some(s) => class_entry(&mut pool, s),
        None => 0,
    };
    let interfaces = interfaces.iter().map(|i| class_entry(&mut pool, i)).collect();
    let fields = fields.iter().map(|(n, d, f)| member(&mut pool, n, d, *f)).collect();
    let methods = methods.iter().map(|(n, d, f)| member(&mut pool, n, d, *f)).collect();
    ParsedClass {
        minor_version: 0,
        major_version: 45,
        const_pool: pool,
        access_flags: flags,
        this_class,
        super_class,
        interfaces,
        fields,
        methods,
    }
}

fn define(loader: &mut ClassLoader, p: &ParsedClass, name: &str) {
    loader.load_parsed(name, p).unwrap();
}

/// Object; TestClassSuper (b:I, c:J, d:B, virtualMethod()V); TestClass
/// (a:I, static c:S, d:D, e:[D, virtualMethod()V) implementing interface B,
/// which extends A; interface C extends A too.
fn setup() -> ClassLoader {
    let mut loader = ClassLoader::new(".");
    define(&mut loader, &parsed(OBJECT, None, &[], 0x21, &[], &[("<init>", "()V", 1)]), OBJECT);
    define(
        &mut loader,
        &parsed(
            SUPER,
            Some(OBJECT),
            &[],
            0x21,
            &[("b", "I", 0), ("c", "J", 0), ("d", "B", 0)],
            &[("virtualMethod", "()V", 1)],
        ),
        SUPER,
    );
    define(&mut loader, &parsed(IA, Some(OBJECT), &[], 0x601, &[], &[]), IA);
    define(&mut loader, &parsed(IB, Some(OBJECT), &[IA], 0x601, &[], &[]), IB);
    define(&mut loader, &parsed(IC, Some(OBJECT), &[IA], 0x601, &[], &[]), IC);
    define(
        &mut loader,
        &parsed(
            TEST,
            Some(SUPER),
            &[IB],
            0x21,
            &[("a", "I", 0), ("c", "S", 8), ("d", "D", 0), ("e", "[D", 0)],
            &[("<init>", "()V", 1), ("main", "([Ljava/lang/String;)V", 9), ("virtualMethod", "()V", 1)],
        ),
        TEST,
    );
    loader
}

#[test]
fn field_offset() {
    let loader = setup();
    let off = |n: &str, d: &str| Class::get_field_offset(&FieldRef::new(n, TEST, d).unwrap(), &loader);
    assert_eq!(off("a", "I").unwrap(), 4);
    assert_eq!(off("c", "J").unwrap(), 1);
    assert_eq!(off("d", "B").unwrap(), 3);
    assert_eq!(off("d", "D").unwrap(), 5);
    assert_eq!(off("e", "[D").unwrap(), 7);
    assert_eq!(off("c", "S").is_err(), true);
    assert!(matches!(off("c", "S"), Err(ClassLoadingError::NoSuchFieldError(..))));
}

#[test]
fn field_size() {
    let loader = setup();
    assert_eq!(Class::get_instance_size(TEST, &loader).unwrap(), 8);
    assert_eq!(Class::get_instance_size(SUPER, &loader).unwrap(), 4);
    assert_eq!(Class::get_instance_size(OBJECT, &loader).unwrap(), 0);
}

#[test]
fn upcast_keeps_offsets() {
    let loader = setup();
    for (n, d) in [("b", "I"), ("c", "J"), ("d", "B")] {
        let on_sub = Class::get_field_offset(&FieldRef::new(n, TEST, d).unwrap(), &loader).unwrap();
        let on_super = Class::get_field_offset(&FieldRef::new(n, SUPER, d).unwrap(), &loader).unwrap();
        assert_eq!(on_sub, on_super);
    }
}

#[test]
fn fields_size() {
    let loader = setup();
    let class = loader.load_class(TEST).unwrap();
    assert_eq!(class.instance_fields().len(), 3);
    assert_eq!(class.instance_fields()[0].name(), "a");
    assert_eq!(class.instance_fields()[0].descriptor(), "I");
    assert_eq!(class.static_fields().len(), 1);
    assert_eq!(class.static_fields()[0].name(), "c");
    assert_eq!(class.static_fields()[0].descriptor(), "S");
}

#[test]
fn missing_superclass_is_reported() {
    let mut loader = ClassLoader::new(".");
    define(&mut loader, &parsed("Orphan", Some("Missing"), &[], 0x21, &[("x", "I", 0)], &[]), "Orphan");
    match Class::get_instance_size("Orphan", &loader) {
        Err(ClassLoadingError::NoClassDefFound(n)) => assert_eq!(n, "Missing"),
        other => panic!("unexpected {:?}", other),
    }
}

#[test]
fn circular_hierarchy_is_reported() {
    let mut loader = ClassLoader::new(".");
    define(&mut loader, &parsed("A", Some("B"), &[], 0x21, &[], &[]), "A");
    define(&mut loader, &parsed("B", Some("A"), &[], 0x21, &[], &[]), "B");
    assert!(matches!(Class::get_instance_size("A", &loader), Err(ClassLoadingError::ClassCircularity)));
    assert!(matches!(Class::is_real_super_class("C", "A", &loader), Err(ClassLoadingError::ClassCircularity)));
}

#[test]
fn is_super_class() {
    let loader = setup();
    assert_eq!(Class::is_real_super_class(TEST, TEST, &loader).unwrap(), false);
    assert_eq!(Class::is_real_super_class(TEST, SUPER, &loader).unwrap(), false);
    assert_eq!(Class::is_real_super_class(SUPER, TEST, &loader).unwrap(), true);
    assert_eq!(Class::is_real_super_class(OBJECT, TEST, &loader).unwrap(), true);
}

#[test]
fn find_methods() {
    let loader = setup();
    assert_eq!(
        Class::find_first_super_class_with_method(TEST, "virtualMethod", "()V", &loader).unwrap(),
        Some(TEST.to_owned())
    );
    assert_eq!(
        Class::find_first_real_super_class_with_method(TEST, "virtualMethod", "()V", &loader).unwrap(),
        Some(SUPER.to_owned())
    );
    assert_eq!(Class::find_first_super_class_with_method(TEST, "virtualMethod", "(I)V", &loader).unwrap(), None);
}

#[test]
fn has_interface() {
    let loader = setup();
    let check = |a: &str, b: &str| Class::has_interface_or_superclass(a, b, &loader).unwrap();
    assert_eq!(check(TEST, IA), true);
    assert_eq!(check(TEST, IB), true);
    assert_eq!(check(TEST, IC), false);
    assert_eq!(check(TEST, OBJECT), true);
    assert_eq!(check(SUPER, TEST), false);
    assert_eq!(check(IA, IA), true);
    assert_eq!(check(IB, IA), true);
    assert_eq!(check(IC, IA), true);
    assert_eq!(check(IA, IC), false);
    assert_eq!(check(IA, OBJECT), true);
    assert_eq!(check(IA, TEST), false);
}

#[test]
fn instance_of() {
    let loader = setup();
    let check = |a: &str, b: &str| {
        Class::is_instance_of(&FieldDescriptor::parse(a).unwrap(), FieldDescriptor::parse(b).unwrap(), &loader).unwrap()
    };
    let t = "Lcom/mackie/rustyjvm/TestClass;";
    let s = "Lcom/mackie/rustyjvm/TestClassSuper;";
    let a = "Lcom/mackie/rustyjvm/TestClassInterfaceA;";
    let b = "Lcom/mackie/rustyjvm/TestClassInterfaceB;";
    let c = "Lcom/mackie/rustyjvm/TestClassInterfaceC;";
    assert_eq!(check(t, t), true);
    assert_eq!(check(t, s), true);
    assert_eq!(check(t, "Ljava/lang/Object;"), true);
    assert_eq!(check(s, t), false);
    assert_eq!(check(t, a), true);
    assert_eq!(check(t, b), true);
    assert_eq!(check(t, c), false);
    assert_eq!(check(a, a), true);
    assert_eq!(check(b, a), true);
    assert_eq!(check(c, a), true);
    assert_eq!(check(a, c), false);
    assert_eq!(check(a, "Ljava/lang/Object;"), true);
    assert_eq!(check(a, t), false);
    assert_eq!(check("[Lcom/mackie/rustyjvm/TestClassSuper;", "Ljava/lang/Object;"), true);
    assert_eq!(check("[Lcom/mackie/rustyjvm/TestClassSuper;", t), false);
    assert_eq!(check("[Lcom/mackie/rustyjvm/TestClassSuper;", "[Lcom/mackie/rustyjvm/TestClassSuper;"), true);
    assert_eq!(check("[Lcom/mackie/rustyjvm/TestClassSuper;", "[Ljava/lang/Object;"), true);
    assert_eq!(check("[[[I", "[[[I"), true);
    assert_eq!(check("[[[I", "[[I"), false);
    assert_eq!(check("[[[I", "[[[D"), false);
    assert_eq!(check("[[[I", "Ljava/lang/Cloneable;"), true);
    assert_eq!(check("[[[I", "Ljava/io/Serializable;"), true);
    assert_eq!(check("[Lcom/mackie/rustyjvm/TestClassInterfaceA;", a), false);
}

#[test]
fn array_of_subclass_is_array_of_object() {
    let mut loader = ClassLoader::new(".");
    define(&mut loader, &parsed(OBJECT, None, &[], 0x21, &[], &[]), OBJECT);
    define(&mut loader, &parsed("com/a/X", Some(OBJECT), &[], 0x21, &[], &[]), "com/a/X");
    let src = FieldDescriptor::parse("[Lcom/a/X;").unwrap();
    let dst = FieldDescriptor::parse("[Ljava/lang/Object;").unwrap();
    assert_eq!(Class::is_instance_of(&src, dst, &loader).unwrap(), true);
}

#[test]
fn method_lookup() {
    let loader = setup();
    let class = loader.load_class(TEST).unwrap();
    assert_eq!(class.methods().len(), 3);
    let main = class.method_by_signature("main", "([Ljava/lang/String;)V").unwrap();
    assert_eq!(main.name(), "main");
    assert_eq!(main.access_flags(), 9);
    assert_eq!(main.words_for_params(), 1);
    assert_eq!(class.method_by_signature("virtualMethod", "()V").unwrap().words_for_params(), 1);
    assert!(class.method_by_signature("unknown method", "").is_none());
    assert_eq!(class.super_class().unwrap(), SUPER);
    assert!(class.has_acc_super_flag());
}

#[test]
fn object_must_not_have_a_superclass() {
    assert!(Class::from_class_file(&parsed(OBJECT, Some("X"), &[], 0x21, &[], &[])).is_err());
    assert!(Class::from_class_file(&parsed("Y", None, &[], 0x21, &[], &[])).is_err());
    assert!(Class::from_class_file(&parsed("I", Some("Z"), &[], 0x601, &[], &[])).is_err());
    assert!(Class::from_class_file(&parsed("Y", Some(OBJECT), &[], 0x21, &[("f", "Q", 0)], &[])).is_err());
}

#[test]
fn load_checks_version_and_name() {
    let mut loader = ClassLoader::new(".");
    let mut p = parsed("N", Some(OBJECT), &[], 0x21, &[], &[]);
    p.major_version = 47;
    assert!(matches!(loader.load_parsed("N", &p), Err(ClassLoadingError::UnsupportedClassVersion)));
    p.major_version = 46;
    p.minor_version = 1;
    assert!(matches!(loader.load_parsed("N", &p), Err(ClassLoadingError::UnsupportedClassVersion)));
    p.minor_version = 0;
    assert!(matches!(loader.load_parsed("Other", &p), Err(ClassLoadingError::ClassFormatError(..))));
    assert!(loader.is_loaded("N"));
    assert!(loader.load_parsed("N", &p).is_ok());
    assert!(matches!(loader.load_class("Absent"), Err(ClassLoadingError::NoClassDefFound(..))));
}

#[test]
fn class_file_names() {
    assert_eq!(ClassLoader::class_file_name("com/mackie/rustyjvm/TestClass"), "TestClass.class");
    assert_eq!(ClassLoader::class_file_name("Plain"), "Plain.class");
}

#[test]
fn invokespecial_super_rule() {
    let mut loader = ClassLoader::new(".");
    define(&mut loader, &parsed(OBJECT, None, &[], 0x21, &[], &[]), OBJECT);
    define(&mut loader, &parsed("A", Some(OBJECT), &[], 0x21, &[], &[("foo", "()V", 1)]), "A");
    define(&mut loader, &parsed("B", Some("A"), &[], 0x21, &[], &[]), "B");
    define(&mut loader, &parsed("C", Some("B"), &[], 0x21, &[], &[("foo", "()V", 1)]), "C");
    define(&mut loader, &parsed("D", Some("B"), &[], 0x01, &[], &[("foo", "()V", 1)]), "D");
    let foo = MethodRef::new("foo", "B", "()V");
    assert_eq!(VM::resolve_special(&loader, "C", &foo).unwrap(), Some("A".to_owned()));
    // without ACC_SUPER the named class is used as it is
    assert_eq!(VM::resolve_special(&loader, "D", &foo).unwrap(), Some("B".to_owned()));
    let init = MethodRef::new("<init>", "B", "()V");
    assert_eq!(VM::resolve_special(&loader, "C", &init).unwrap(), Some("B".to_owned()));
    assert_eq!(VM::resolve_virtual(&loader, "C", &foo).unwrap(), Some("C".to_owned()));
    assert_eq!(VM::resolve_virtual(&loader, "B", &foo).unwrap(), Some("A".to_owned()));
}

#[test]
fn instance() {
    let obj = "com/mackie/rustyjvm/TestObject";
    let mut loader = ClassLoader::new(".");
    define(&mut loader, &parsed(OBJECT, None, &[], 0x21, &[], &[]), OBJECT);
    define(
        &mut loader,
        &parsed(obj, Some(OBJECT), &[], 0x21, &[("a", "I", 0), ("b", "I", 0), ("c", "J", 0), ("d", "D", 0), ("e", "J", 0)], &[]),
        obj,
    );
    let classloader = loader;
    let mut instance = InstanceObject::new(obj, &classloader).unwrap();
    assert_eq!(instance.data.len(), 8);
    assert_eq!(instance.get_field(&FieldRef::new("a", obj, "I").unwrap(), &classloader).unwrap(), 0);
    assert_eq!(instance.get_field2(&FieldRef::new("c", obj, "J").unwrap(), &classloader).unwrap(), [0, 0]);
    assert_eq!(instance.set_field2(&FieldRef::new("c", obj, "J").unwrap(), [1, 2], &classloader).unwrap(), ());
    assert_eq!(instance.get_field(&FieldRef::new("a", obj, "I").unwrap(), &classloader).unwrap(), 0);
    assert_eq!(instance.get_field2(&FieldRef::new("c", obj, "J").unwrap(), &classloader).unwrap(), [1, 2]);
    assert_eq!(instance.set_field(&FieldRef::new("a", obj, "I").unwrap(), 3, &classloader).unwrap(), ());
    assert_eq!(instance.get_field(&FieldRef::new("a", obj, "I").unwrap(), &classloader).unwrap(), 3);
    assert_eq!(instance.get_field2(&FieldRef::new("c", obj, "J").unwrap(), &classloader).unwrap(), [1, 2]);
    assert_eq!(instance.class(), obj);
}

#[test]
fn field_of_another_class_is_incompatible() {
    let loader = setup();
    let small = InstanceObject::new(SUPER, &loader).unwrap();
    let far = FieldRef::new("e", TEST, "[D").unwrap();
    assert!(matches!(small.get_field(&far, &loader), Err(ClassLoadingError::IncompatibleClassChange)));
}

#[test]
fn field_ref_needs_a_descriptor() {
    assert!(FieldRef::new("x", "A", "Q").is_err());
    let f = FieldRef::new("x", "A", "J").unwrap();
    assert_eq!(*f.typ(), rustyjvm::instruction::Type::Long);
    assert_eq!((f.name(), f.class(), f.descriptor()), ("x", "A", "J"));
}

#[test]
fn static_field_slots() {
    let mut loader = setup();
    define(&mut loader, &parsed("Sub", Some(TEST), &[], 0x21, &[("z", "J", 8)], &[]), "Sub");
    assert_eq!(
        Class::get_static_field_slot(&FieldRef::new("c", TEST, "S").unwrap(), &loader).unwrap(),
        (TEST.to_owned(), 0, 1)
    );
    assert_eq!(
        Class::get_static_field_slot(&FieldRef::new("c", "Sub", "S").unwrap(), &loader).unwrap(),
        (TEST.to_owned(), 0, 1)
    );
    assert_eq!(
        Class::get_static_field_slot(&FieldRef::new("z", "Sub", "J").unwrap(), &loader).unwrap(),
        ("Sub".to_owned(), 0, 2)
    );
    assert!(matches!(
        Class::get_static_field_slot(&FieldRef::new("a", TEST, "I").unwrap(), &loader),
        Err(ClassLoadingError::NoSuchFieldError(..))
    ));
}
