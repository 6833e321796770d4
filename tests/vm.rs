use rustyjvm::class_loader::ClassLoader;
use rustyjvm::errors::ClassLoadingError;
use rustyjvm::instruction::{Comparison, Instruction, Type};
use rustyjvm::object::Object;
use rustyjvm::parsed_class::{Constant, ParsedClass};
use rustyjvm::vm::{int_op, join_long, long_op, split_long, IntOp, StepResult, VmFault, VM};

/// Assembles a class file `Test` (version 45.0) whose `main` holds `code`,
/// with native methods `nativeInt(I)V`, `nativeLong(J)V`, `dump_char(C)V`.
/// Pool: #11 nativeInt, #15 nativeLong, #16 the int 0x7fffffff, #20
/// dump_char, #26 `Other.run()V`, #30 the static field `counter:I`, #34 the
/// instance field `value:J`, #38 `twice(I)I`.
fn class_bytes(code: &[u8]) -> Vec<u8> {
    let mut pool: Vec<Vec<u8>> = vec![];
    let utf8 = |s: &str| {
        let mut v = vec![1u8];
        v.extend_from_slice(&(s.len() as u16).to_be_bytes());
        v.extend_from_slice(s.as_bytes());
        v
    };
    let two = |tag: u8, a: u16, b: u16| {
        let mut v = vec![tag];
        v.extend_from_slice(&a.to_be_bytes());
        v.extend_from_slice(&b.to_be_bytes());
        v
    };
    let one = |tag: u8, a: u16| {
        let mut v = vec![tag];
        v.extend_from_slice(&a.to_be_bytes());
        v
    };
    pool.push(utf8("Test")); // 1
    pool.push(one(7, 1)); // 2
    pool.push(utf8("java/lang/Object")); // 3
    pool.push(one(7, 3)); // 4
    pool.push(utf8("main")); // 5
    pool.push(utf8("([Ljava/lang/String;)V")); // 6
    pool.push(utf8("Code")); // 7
    pool.push(utf8("nativeInt")); // 8
    pool.push(utf8("(I)V")); // 9
    pool.push(two(12, 8, 9)); // 10
    pool.push(two(10, 2, 10)); // 11
    pool.push(utf8("nativeLong")); // 12
    pool.push(utf8("(J)V")); // 13
    pool.push(two(12, 12, 13)); // 14
    pool.push(two(10, 2, 14)); // 15
    let mut int_const = vec![3u8];
    int_const.extend_from_slice(&0x7fff_ffffi32.to_be_bytes());
    pool.push(int_const); // 16
    pool.push(utf8("dump_char")); // 17
    pool.push(utf8("(C)V")); // 18
    pool.push(two(12, 17, 18)); // 19
    pool.push(two(10, 2, 19)); // 20
    pool.push(utf8("Other")); // 21
    pool.push(one(7, 21)); // 22 (class)
    pool.push(utf8("run")); // 23
    pool.push(utf8("()V")); // 24
    pool.push(two(12, 23, 24)); // 25
    pool.push(two(10, 22, 25)); // 26
    pool.push(utf8("counter")); // 27
    pool.push(utf8("I")); // 28
    pool.push(two(12, 27, 28)); // 29
    pool.push(two(9, 2, 29)); // 30 (field)
    pool.push(utf8("value")); // 31
    pool.push(utf8("J")); // 32
    pool.push(two(12, 31, 32)); // 33
    pool.push(two(9, 2, 33)); // 34 (field)
    pool.push(utf8("twice")); // 35
    pool.push(utf8("(I)I")); // 36
    pool.push(two(12, 35, 36)); // 37
    pool.push(two(10, 2, 37)); // 38

    let mut b = vec![0xca, 0xfe, 0xba, 0xbe, 0, 0, 0, 45];
    b.extend_from_slice(&((pool.len() + 1) as u16).to_be_bytes());
    for e in &pool {
        b.extend_from_slice(e);
    }
    b.extend_from_slice(&0x21u16.to_be_bytes());
    b.extend_from_slice(&2u16.to_be_bytes());
    b.extend_from_slice(&4u16.to_be_bytes());
    b.extend_from_slice(&0u16.to_be_bytes()); // interfaces
    b.extend_from_slice(&2u16.to_be_bytes()); // fields: static counter:I, value:J
    for (flags, name, desc) in [(0x0008u16, 27u16, 28u16), (0, 31, 32)] {
        b.extend_from_slice(&flags.to_be_bytes());
        b.extend_from_slice(&name.to_be_bytes());
        b.extend_from_slice(&desc.to_be_bytes());
        b.extend_from_slice(&0u16.to_be_bytes());
    }
    b.extend_from_slice(&5u16.to_be_bytes()); // methods
    // main, and twice(I)I: iload_0, iconst_2, imul, ireturn
    for (name, desc, body) in [(5u16, 6u16, code), (35, 36, &[0x1a, 0x05, 0x68, 0xac][..])] {
        b.extend_from_slice(&0x0009u16.to_be_bytes());
        b.extend_from_slice(&name.to_be_bytes());
        b.extend_from_slice(&desc.to_be_bytes());
        b.extend_from_slice(&1u16.to_be_bytes());
        b.extend_from_slice(&7u16.to_be_bytes());
        b.extend_from_slice(&((12 + body.len()) as u32).to_be_bytes());
        b.extend_from_slice(&6u16.to_be_bytes()); // max_stack
        b.extend_from_slice(&4u16.to_be_bytes()); // max_locals
        b.extend_from_slice(&(body.len() as u32).to_be_bytes());
        b.extend_from_slice(body);
        b.extend_from_slice(&0u16.to_be_bytes());
        b.extend_from_slice(&0u16.to_be_bytes());
    }
    for (name, desc) in [(8u16, 9u16), (12, 13), (17, 18)] {
        b.extend_from_slice(&0x0109u16.to_be_bytes());
        b.extend_from_slice(&name.to_be_bytes());
        b.extend_from_slice(&desc.to_be_bytes());
        b.extend_from_slice(&0u16.to_be_bytes());
    }
    b.extend_from_slice(&0u16.to_be_bytes()); // attributes
    b
}

fn started(code: &[u8]) -> VM {
    let mut vm = VM::new(ClassLoader::new("."));
    vm.define_class("Test", &class_bytes(code)).unwrap();
    vm.start("Test", &[]).unwrap();
    vm
}

fn run_to_end(vm: &mut VM) {
    loop {
        match vm.run(10_000) {
            StepResult::Finished => return,
            StepResult::Continue => {}
            other => panic!("unexpected {:?}", other),
        }
    }
}

fn calls(vm: &VM) -> Vec<(String, Vec<i32>)> {
    vm.native_calls().iter().map(|(n, _, a)| (n.clone(), a.clone())).collect()
}

#[test]
fn simple() {
    // iconst_1, invokestatic nativeInt, return
    let mut vm = started(&[0x04, 0xb8, 0, 11, 0xb1]);
    run_to_end(&mut vm);
    assert_eq!(calls(&vm), vec![("nativeInt".to_owned(), vec![1])]);
}

#[test]
fn adds_one_and_one() {
    let mut vm = started(&[0x04, 0x04, 0x60, 0xb8, 0, 11, 0xb1]);
    run_to_end(&mut vm);
    assert_eq!(calls(&vm), vec![("nativeInt".to_owned(), vec![2])]);
}

#[test]
fn int_add_wraps() {
    // ldc 0x7fffffff, iconst_1, iadd
    let mut vm = started(&[0x12, 16, 0x04, 0x60, 0xb8, 0, 11, 0xb1]);
    run_to_end(&mut vm);
    assert_eq!(calls(&vm), vec![("nativeInt".to_owned(), vec![i32::MIN])]);
}

#[test]
fn native_log_splits_longs_high_then_low() {
    // iconst_1, nativeInt; lconst_1, lconst_1, ladd, nativeLong
    let mut vm = started(&[0x04, 0xb8, 0, 11, 0x0a, 0x0a, 0x61, 0xb8, 0, 15, 0xb1]);
    run_to_end(&mut vm);
    assert_eq!(
        calls(&vm),
        vec![("nativeInt".to_owned(), vec![1]), ("nativeLong".to_owned(), vec![0, 2])]
    );
    assert_eq!(vm.native_calls()[1].1, "(J)V");
}

#[test]
fn loop_with_backward_branch() {
    // i = 0; do { i += 1 } while (i < 5); nativeInt(i)
    let code = [0x03, 0x3c, 0x84, 1, 1, 0x1b, 0x10, 5, 0xa1, 0xff, 0xfa, 0x1b, 0xb8, 0, 11, 0xb1];
    let mut vm = started(&code);
    run_to_end(&mut vm);
    assert_eq!(calls(&vm), vec![("nativeInt".to_owned(), vec![5])]);
}

#[test]
fn arrays_and_stack_shuffles() {
    // a = new int[3]; a[1] = 7; nativeInt(a[1] + a.length)
    let code = [
        0x06, 0xbc, 10, 0x4c, // iconst_3, newarray int, astore_1
        0x2b, 0x04, 0x10, 7, 0x4f, // aload_1, iconst_1, bipush 7, iastore
        0x2b, 0x04, 0x2e, // aload_1, iconst_1, iaload
        0x2b, 0xbe, 0x60, // aload_1, arraylength, iadd
        0x59, 0x57, // dup, pop
        0xb8, 0, 11, 0xb1,
    ];
    let mut vm = started(&code);
    run_to_end(&mut vm);
    assert_eq!(calls(&vm), vec![("nativeInt".to_owned(), vec![10])]);
}

#[test]
fn division_by_zero_faults() {
    let mut vm = started(&[0x04, 0x03, 0x6c, 0xb1]);
    assert!(matches!(vm.run(100), StepResult::Fault(VmFault::ArithmeticException)));
}

#[test]
fn array_index_out_of_bounds_faults() {
    let mut vm = started(&[0x04, 0xbc, 10, 0x05, 0x2e, 0xb1]);
    assert!(matches!(vm.run(100), StepResult::Fault(VmFault::ArrayIndexOutOfBounds)));
}

#[test]
fn null_array_faults() {
    // aconst_null, arraylength
    let mut vm = started(&[0x01, 0xbe, 0xb1]);
    assert!(matches!(vm.run(100), StepResult::Fault(VmFault::NullReference)));
}

#[test]
fn dump_char_prints() {
    let mut vm = started(&[0x10, 65, 0xb8, 0, 20, 0xb1]);
    assert!(matches!(vm.run(100), StepResult::Print(65)));
    assert!(vm.native_calls().is_empty());
    assert!(matches!(vm.run(100), StepResult::Finished));
}

#[test]
fn missing_class_is_asked_for_and_nothing_changes() {
    let mut vm = started(&[0xb8, 0, 26, 0xb1]);
    match vm.run(100) {
        StepResult::NeedClass(n) => assert_eq!(n, "Other"),
        other => panic!("unexpected {:?}", other),
    }
    match vm.step() {
        StepResult::NeedClass(n) => assert_eq!(n, "Other"),
        other => panic!("unexpected {:?}", other),
    }
}

#[test]
fn float_work_is_handed_out() {
    // fconst_1, fconst_1, fadd
    let mut vm = started(&[0x0c, 0x0c, 0x62, 0xb1]);
    assert!(matches!(vm.run(100), StepResult::Float(_)));
    assert_eq!(vm.pop_word(), Some(0x3f80_0000));
    assert_eq!(vm.pop_word(), Some(0x3f80_0000));
    assert!(vm.push_word(0x4000_0000));
    assert!(matches!(vm.run(100), StepResult::Finished));
}

#[test]
fn start_needs_main() {
    let mut vm = VM::new(ClassLoader::new("."));
    assert!(matches!(vm.start("Test", &[]), Err(VmFault::Linkage(ClassLoadingError::NoClassDefFound(..)))));
}

#[test]
fn heap_references_start_at_one() {
    let mut vm = VM::new(ClassLoader::new("."));
    let a = vm.allocate_object(Object::new_array(2, rustyjvm::descriptor::FieldDescriptor::from_type_without_reference(Type::Int))).unwrap();
    let b = vm.allocate_object(Object::new_array(1, rustyjvm::descriptor::FieldDescriptor::from_type_without_reference(Type::Long))).unwrap();
    assert!(a >= 1);
    assert!(b >= 1);
    assert_ne!(a, b);
    assert!(vm.get_object(0).is_err());
    assert!(vm.get_object(a).is_ok());
}

#[test]
fn bad_class_bytes_are_a_format_error() {
    let mut vm = VM::new(ClassLoader::new("."));
    assert!(matches!(vm.define_class("X", &[1, 2, 3]), Err(ClassLoadingError::ClassFormatError(..))));
    let zero_pool = [0xca, 0xfe, 0xba, 0xbe, 0, 0, 0, 45, 0, 0, 0, 0];
    assert!(matches!(vm.define_class("X", &zero_pool), Err(ClassLoadingError::ClassFormatError(..))));
    assert!(ParsedClass::parse(&zero_pool).is_none());
}

#[test]
fn parsed_class_reads_the_pool() {
    let bytes = class_bytes(&[0xb1]);
    let p = ParsedClass::parse(&bytes).unwrap();
    assert_eq!(p.major_version, 45);
    assert_eq!(p.constant_class(p.this_class).unwrap(), "Test");
    assert_eq!(p.constant_class(p.super_class).unwrap(), "java/lang/Object");
    let m = p.constant_method_ref(11).unwrap();
    assert_eq!((m.class(), m.name(), m.descriptor()), ("Test", "nativeInt", "(I)V"));
    assert!(p.constant(0).is_err());
    assert!(p.constant_utf8(2).is_err());
    assert_eq!(p.methods.len(), 5);
}

#[test]
fn decode_resolves_branches_to_indices() {
    let p = ParsedClass::parse(&class_bytes(&[0xb1])).unwrap();
    // iconst_0, ifeq +4, iconst_1, return
    let code = Instruction::decode(&[0x03, 0x99, 0x00, 0x04, 0x04, 0xb1], &p).unwrap();
    assert_eq!(
        code,
        vec![Instruction::BIPUSH(0), Instruction::IF(Comparison::EQ, 3), Instruction::BIPUSH(1), Instruction::RETURN(None)]
    );
    let looped = Instruction::decode(&[0x00, 0xa7, 0xff, 0xff], &p).unwrap();
    assert_eq!(looped, vec![Instruction::NOP, Instruction::GOTO(0)]);
    let ldc = Instruction::decode(&[0x12, 16, 0x13, 0, 16], &p).unwrap();
    assert_eq!(ldc, vec![Instruction::LDC_INT(0x7fff_ffff), Instruction::LDC_INT(0x7fff_ffff)]);
}

#[test]
fn decode_rejects_bad_code() {
    let p = ParsedClass::parse(&class_bytes(&[0xb1])).unwrap();
    // a branch into the middle of an instruction
    assert!(Instruction::decode(&[0x03, 0x99, 0x00, 0x02, 0xb1], &p).is_err());
    // a branch before the start
    assert!(Instruction::decode(&[0xa7, 0xff, 0xf0], &p).is_err());
    assert!(Instruction::decode(&[0xff], &p).is_err());
    assert!(Instruction::decode(&[0xaa], &p).is_err());
    assert!(Instruction::decode(&[0x10], &p).is_err());
    assert!(Instruction::decode(&[0xbc, 3], &p).is_err());
    assert_eq!(Instruction::decode(&[], &p).unwrap(), vec![]);
}

#[test]
fn int_operations_wrap() {
    assert_eq!(int_op(IntOp::Add, 1, 1), Some(2));
    assert_eq!(int_op(IntOp::Add, i32::MAX, 1), Some(i32::MIN));
    assert_eq!(int_op(IntOp::Sub, i32::MIN, 1), Some(i32::MAX));
    assert_eq!(int_op(IntOp::Mul, 0x10000, 0x10000), Some(0));
    assert_eq!(int_op(IntOp::Div, 7, -2), Some(-3));
    assert_eq!(int_op(IntOp::Div, i32::MIN, -1), Some(i32::MIN));
    assert_eq!(int_op(IntOp::Rem, -7, 2), Some(-1));
    assert_eq!(int_op(IntOp::Div, 1, 0), None);
    assert_eq!(int_op(IntOp::Rem, 1, 0), None);
    assert_eq!(int_op(IntOp::Shl, 1, 33), Some(2));
    assert_eq!(int_op(IntOp::Shr, -8, 1), Some(-4));
    assert_eq!(int_op(IntOp::UShr, -1, 28), Some(15));
    assert_eq!(int_op(IntOp::Xor, 6, 3), Some(5));
    assert_eq!(long_op(IntOp::Add, i64::MAX, 1), Some(i64::MIN));
    assert_eq!(long_op(IntOp::Shl, 1, 65), Some(2));
    assert_eq!(long_op(IntOp::Div, 1, 0), None);
    assert_eq!(long_op(IntOp::UShr, -1, 60), Some(15));
}

#[test]
fn long_words_round_trip() {
    assert_eq!(split_long(2), [0, 2]);
    assert_eq!(split_long(-1), [-1, -1]);
    assert_eq!(split_long(0x1_0000_0002), [1, 2]);
    for v in [0i64, 1, -2, i64::MIN, i64::MAX, 4294967297] {
        assert_eq!(join_long(split_long(v)), v);
    }
}

#[test]
fn static_fields_keep_their_value() {
    // counter = 42; nativeInt(counter + counter)
    let code = [0x10, 42, 0xb3, 0, 30, 0xb2, 0, 30, 0xb2, 0, 30, 0x60, 0xb8, 0, 11, 0xb1];
    let mut vm = started(&code);
    run_to_end(&mut vm);
    assert_eq!(calls(&vm), vec![("nativeInt".to_owned(), vec![84])]);
}

#[test]
fn static_fields_start_at_zero() {
    let mut vm = started(&[0xb2, 0, 30, 0xb8, 0, 11, 0xb1]);
    run_to_end(&mut vm);
    assert_eq!(calls(&vm), vec![("nativeInt".to_owned(), vec![0])]);
}

fn int_result(code: &[u8]) -> Vec<(String, Vec<i32>)> {
    let mut body = code.to_vec();
    body.extend_from_slice(&[0xb8, 0, 11, 0xb1]);
    let mut vm = started(&body);
    run_to_end(&mut vm);
    calls(&vm)
}

fn long_result(code: &[u8]) -> Vec<(String, Vec<i32>)> {
    let mut body = code.to_vec();
    body.extend_from_slice(&[0xb8, 0, 15, 0xb1]);
    let mut vm = started(&body);
    run_to_end(&mut vm);
    calls(&vm)
}

fn int_call(v: i32) -> Vec<(String, Vec<i32>)> {
    vec![("nativeInt".to_owned(), vec![v])]
}

fn long_call(v: i64) -> Vec<(String, Vec<i32>)> {
    vec![("nativeLong".to_owned(), split_long(v).to_vec())]
}

#[test]
fn add() {
    assert_eq!(int_result(&[0x10, 100, 0x10, 11, 0x60]), int_call(111));
    assert_eq!(long_result(&[0x0a, 0x0a, 0x61]), long_call(2));
}

#[test]
fn sub() {
    assert_eq!(int_result(&[0x10, 5, 0x10, 8, 0x64]), int_call(-3));
    assert_eq!(long_result(&[0x09, 0x0a, 0x65]), long_call(-1));
}

#[test]
fn mul() {
    assert_eq!(int_result(&[0x10, 6, 0x10, 7, 0x68]), int_call(42));
    assert_eq!(int_result(&[0x12, 16, 0x05, 0x68]), int_call(-2));
    assert_eq!(long_result(&[0x0a, 0x0a, 0x69]), long_call(1));
}

#[test]
fn div() {
    assert_eq!(int_result(&[0x10, 7, 0x10, 0xfe, 0x6c]), int_call(-3));
    assert_eq!(long_result(&[0x0a, 0x0a, 0x6d]), long_call(1));
}

#[test]
fn rem() {
    assert_eq!(int_result(&[0x10, 0xf9, 0x05, 0x70]), int_call(-1));
    assert_eq!(long_result(&[0x0a, 0x0a, 0x71]), long_call(0));
}

#[test]
fn neg() {
    assert_eq!(int_result(&[0x10, 5, 0x74]), int_call(-5));
    assert_eq!(long_result(&[0x0a, 0x75]), long_call(-1));
}

#[test]
fn shift() {
    assert_eq!(int_result(&[0x04, 0x10, 33, 0x78]), int_call(2));
    assert_eq!(int_result(&[0x10, 0xf8, 0x04, 0x7a]), int_call(-4));
    assert_eq!(int_result(&[0x02, 0x10, 28, 0x7c]), int_call(15));
    assert_eq!(long_result(&[0x0a, 0x10, 65, 0x79]), long_call(2));
    assert_eq!(long_result(&[0x0a, 0x75, 0x10, 60, 0x7d]), long_call(15));
}

#[test]
fn bitops() {
    assert_eq!(int_result(&[0x10, 6, 0x10, 3, 0x7e]), int_call(2));
    assert_eq!(int_result(&[0x10, 6, 0x10, 3, 0x80]), int_call(7));
    assert_eq!(int_result(&[0x10, 6, 0x10, 3, 0x82]), int_call(5));
    assert_eq!(long_result(&[0x0a, 0x09, 0x81]), long_call(1));
}

#[test]
fn iinc() {
    // i = 3; i += -10
    assert_eq!(int_result(&[0x06, 0x3c, 0x84, 1, 0xf6, 0x1b]), int_call(-7));
}

#[test]
fn constants() {
    assert_eq!(int_result(&[0x11, 0x05, 0x39]), int_call(1337));
    assert_eq!(int_result(&[0x02]), int_call(-1));
    assert_eq!(int_result(&[0x08]), int_call(5));
    assert_eq!(int_result(&[0x12, 16]), int_call(i32::MAX));
    assert_eq!(long_result(&[0x09]), long_call(0));
}

#[test]
fn conversions() {
    assert_eq!(int_result(&[0x11, 0x01, 0x80, 0x91]), int_call(-128));
    assert_eq!(int_result(&[0x12, 16, 0x93]), int_call(-1));
    assert_eq!(int_result(&[0x02, 0x92]), int_call(0xffff));
    assert_eq!(long_result(&[0x02, 0x85]), long_call(-1));
    // (1 << 32) + 1 as int is 1
    assert_eq!(int_result(&[0x0a, 0x10, 32, 0x79, 0x0a, 0x61, 0x88]), int_call(1));
}

#[test]
fn jumps() {
    // if (0 == 0) nativeInt(10) else nativeInt(11)
    assert_eq!(int_result(&[0x03, 0x9a, 0x00, 0x08, 0x10, 10, 0xa7, 0x00, 0x05, 0x10, 11]), int_call(10));
    assert_eq!(int_result(&[0x04, 0x9a, 0x00, 0x08, 0x10, 10, 0xa7, 0x00, 0x05, 0x10, 11]), int_call(11));
}

#[test]
fn arrays() {
    // a = new long[2]; a[1] = 1 + 1; nativeLong(a[1])
    let code = [0x05, 0xbc, 11, 0x4c, 0x2b, 0x04, 0x0a, 0x0a, 0x61, 0x50, 0x2b, 0x04, 0x2f];
    assert_eq!(long_result(&code), long_call(2));
}

#[test]
fn object() {
    let mut vm = VM::new(ClassLoader::new("."));
    let object = ParsedClass {
        minor_version: 0,
        major_version: 45,
        const_pool: vec![Constant::Utf8("java/lang/Object".to_owned()), Constant::Class(1)],
        access_flags: 0x21,
        this_class: 2,
        super_class: 0,
        interfaces: vec![],
        fields: vec![],
        methods: vec![],
    };
    vm.load_parsed("java/lang/Object", &object).unwrap();
    // o = new Test; o.value = 2; nativeLong(o.value)
    let code = [0xbb, 0, 2, 0x4c, 0x2b, 0x0a, 0x0a, 0x61, 0xb5, 0, 34, 0x2b, 0xb4, 0, 34, 0xb8, 0, 15, 0xb1];
    vm.define_class("Test", &class_bytes(&code)).unwrap();
    vm.start("Test", &[]).unwrap();
    run_to_end(&mut vm);
    assert_eq!(calls(&vm), long_call(2));
}

#[test]
fn invoke() {
    // nativeInt(twice(21)): the result comes back to the caller's stack
    assert_eq!(int_result(&[0x10, 21, 0xb8, 0, 38]), int_call(42));
}

#[test]
fn decode_examples() {
    let p = ParsedClass::parse(&class_bytes(&[0xb1])).unwrap();
    assert_eq!(
        Instruction::decode(&[0xa7, 0x00, 0x03, 0x00, 0xb1], &p).unwrap(),
        vec![Instruction::GOTO(1), Instruction::NOP, Instruction::RETURN(None)]
    );
    assert_eq!(
        Instruction::decode(&[0x04, 0x04, 0x60, 0xac], &p).unwrap(),
        vec![Instruction::BIPUSH(1), Instruction::BIPUSH(1), Instruction::ADD(Type::Int), Instruction::RETURN(Some(Type::Int))]
    );
    assert_eq!(
        Instruction::decode(&[0x02, 0x08, 0x1a, 0x3c, 0x15, 0x05, 0x09, 0x85, 0xb1], &p).unwrap(),
        vec![
            Instruction::BIPUSH(-1),
            Instruction::BIPUSH(5),
            Instruction::LOAD(Type::Int, 0),
            Instruction::STORE(Type::Int, 1),
            Instruction::LOAD(Type::Int, 5),
            Instruction::LCONST_0,
            Instruction::CONVERT(Type::Int, Type::Long),
            Instruction::RETURN(None)
        ]
    );
    let types = [Type::Boolean, Type::Char, Type::Float, Type::Double, Type::Byte, Type::Short, Type::Int, Type::Long];
    for t in 0u8..=20 {
        let r = Instruction::decode(&[0xbc, t, 0xb1], &p);
        if (4..=11).contains(&t) {
            assert_eq!(r.unwrap(), vec![Instruction::NEWARRAY(types[(t - 4) as usize]), Instruction::RETURN(None)]);
        } else {
            assert!(r.is_err());
        }
    }
    assert!(Instruction::decode(&[0xa7, 0x00, 0x02, 0x00], &p).is_err());
    assert!(Instruction::decode(&[0xa7, 0xff, 0xff], &p).is_err());
    assert!(Instruction::decode(&[0x00, 0xba], &p).is_err());
    assert!(Instruction::decode(&[0x00, 0xc4], &p).is_err());
}

// int MIN: ldc 0x7fffffff, iconst_1, iadd
const INT_MIN: [u8; 4] = [0x12, 16, 0x04, 0x60];

fn with(prefix: &[u8], rest: &[u8]) -> Vec<u8> {
    let mut v = prefix.to_vec();
    v.extend_from_slice(rest);
    v
}

#[test]
fn int_arithmetic_edges() {
    // 0x7ffffffe + 1
    assert_eq!(int_result(&[0x12, 16, 0x02, 0x60, 0x04, 0x60]), int_call(i32::MAX));
    assert_eq!(int_result(&with(&INT_MIN, &[0x04, 0x64])), int_call(i32::MAX));
    assert_eq!(int_result(&[0x12, 16, 0x05, 0x68]), int_call(-2));
    assert_eq!(int_result(&with(&INT_MIN, &[0x02, 0x6c])), int_call(i32::MIN));
    assert_eq!(int_result(&with(&INT_MIN, &[0x02, 0x70])), int_call(0));
    assert_eq!(int_result(&with(&INT_MIN, &[0x74])), int_call(i32::MIN));
    assert_eq!(int_result(&[0x10, 0xf9, 0x10, 2, 0x6c]), int_call(-3));
    assert_eq!(int_result(&[0x10, 7, 0x10, 0xfe, 0x70]), int_call(1));
    assert_eq!(int_result(&[0x02, 0x10, 31, 0x78]), int_call(i32::MIN));
    assert_eq!(int_result(&with(&INT_MIN, &[0x10, 31, 0x7a])), int_call(-1));
    assert_eq!(int_result(&with(&INT_MIN, &[0x10, 31, 0x7c])), int_call(1));
}

#[test]
fn long_arithmetic_edges() {
    // long max: -1 >>> 1
    let max = [0x0a, 0x75, 0x04, 0x7d];
    assert_eq!(long_result(&with(&max, &[0x0a, 0x61])), long_call(i64::MIN));
    assert_eq!(long_result(&with(&max, &[0x0a, 0x61, 0x0a, 0x75, 0x6d])), long_call(i64::MIN));
    assert_eq!(long_result(&with(&max, &[0x0a, 0x61, 0x0a, 0x75, 0x71])), long_call(0));
    assert_eq!(long_result(&with(&max, &[0x0a, 0x61, 0x75])), long_call(i64::MIN));
    assert_eq!(long_result(&[0x0a, 0x10, 63, 0x79]), long_call(i64::MIN));
    assert_eq!(long_result(&[0x0a, 0x10, 64, 0x79]), long_call(1));
}

#[test]
fn long_division_by_zero_faults() {
    let mut vm = started(&[0x0a, 0x09, 0x6d, 0xb1]);
    assert!(matches!(vm.run(100), StepResult::Fault(VmFault::ArithmeticException)));
    let mut vm = started(&[0x0a, 0x09, 0x71, 0xb1]);
    assert!(matches!(vm.run(100), StepResult::Fault(VmFault::ArithmeticException)));
}

#[test]
fn stack_shuffles() {
    // 1, 2, swap, isub -> 1
    assert_eq!(int_result(&[0x04, 0x05, 0x5f, 0x64]), int_call(1));
    // 3, 2, dup_x1 -> 2 3 2; isub isub -> 2 - (3 - 2) = 1
    assert_eq!(int_result(&[0x06, 0x05, 0x5a, 0x64, 0x64]), int_call(1));
    // long 1, dup2, ladd -> 2
    assert_eq!(long_result(&[0x0a, 0x5c, 0x61]), long_call(2));
}

#[test]
fn loader_rejects_wrong_name_and_version() {
    let mut vm = VM::new(ClassLoader::new("."));
    assert!(matches!(vm.define_class("Other", &class_bytes(&[0xb1])), Err(ClassLoadingError::ClassFormatError(..))));
    let mut bytes = class_bytes(&[0xb1]);
    bytes[7] = 50;
    let mut vm = VM::new(ClassLoader::new("."));
    assert!(matches!(vm.define_class("Test", &bytes), Err(ClassLoadingError::UnsupportedClassVersion)));
    assert!(vm.classloader.classes.is_empty());
}
