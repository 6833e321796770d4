use rustyjvm::descriptor::{FieldDescriptor, FieldDescriptorType, MethodDescriptor};
use rustyjvm::instruction::Type;

fn fd(typ: FieldDescriptorType, num_array: usize) -> Option<FieldDescriptor> {
    Some(fdo(typ, num_array))
}

fn fdo(typ: FieldDescriptorType, num_array: usize) -> FieldDescriptor {
    FieldDescriptor::new(typ, num_array)
}

fn md(params: Vec<FieldDescriptor>, ret_type: Option<FieldDescriptor>) -> Option<MethodDescriptor> {
    Some(MethodDescriptor::new(params, ret_type))
}

#[test]
fn field_byte() {
    assert_eq!(FieldDescriptor::parse("B"), fd(FieldDescriptorType::Byte, 0));
}

#[test]
fn field_char() {
    assert_eq!(FieldDescriptor::parse("C"), fd(FieldDescriptorType::Char, 0));
}

#[test]
fn field_double() {
    assert_eq!(FieldDescriptor::parse("D"), fd(FieldDescriptorType::Double, 0));
}

#[test]
fn field_float() {
    assert_eq!(FieldDescriptor::parse("F"), fd(FieldDescriptorType::Float, 0));
}

#[test]
fn field_int() {
    assert_eq!(FieldDescriptor::parse("I"), fd(FieldDescriptorType::Int, 0));
}

#[test]
fn field_long() {
    assert_eq!(FieldDescriptor::parse("J"), fd(FieldDescriptorType::Long, 0));
}

#[test]
fn field_short() {
    assert_eq!(FieldDescriptor::parse("S"), fd(FieldDescriptorType::Short, 0));
}

#[test]
fn field_boolean() {
    assert_eq!(FieldDescriptor::parse("Z"), fd(FieldDescriptorType::Boolean, 0));
}

#[test]
fn field_reference() {
    assert_eq!(
        FieldDescriptor::parse("Ljava/lang/Object;"),
        fd(FieldDescriptorType::Reference("java/lang/Object".to_owned()), 0)
    );
}

#[test]
fn field_reference_array() {
    assert_eq!(
        FieldDescriptor::parse("[[Ljava/lang/Object;"),
        fd(FieldDescriptorType::Reference("java/lang/Object".to_owned()), 2)
    );
}

#[test]
fn field_as_typ_without_array0() {
    assert_eq!(FieldDescriptor::parse("[[J").unwrap().as_type_without_arrays(0), Type::Reference);
}

#[test]
fn field_as_typ_without_array1() {
    assert_eq!(FieldDescriptor::parse("[[J").unwrap().as_type_without_arrays(1), Type::Reference);
}

#[test]
fn field_as_typ_without_array2() {
    assert_eq!(FieldDescriptor::parse("[[J").unwrap().as_type_without_arrays(2), Type::Long);
}

#[test]
fn field_double_array() {
    assert_eq!(FieldDescriptor::parse("[[[[D"), fd(FieldDescriptorType::Double, 4));
}

#[test]
fn field_fail() {
    assert_eq!(FieldDescriptor::parse("[[D[[D"), None);
}

#[test]
fn field_from_symolic_reference() {
    assert_eq!(
        FieldDescriptor::from_symbolic_reference("[Ljava/lang/Object;"),
        fd(FieldDescriptorType::Reference("java/lang/Object".to_owned()), 1)
    );
    assert_eq!(
        FieldDescriptor::from_symbolic_reference("java/lang/Object"),
        fd(FieldDescriptorType::Reference("java/lang/Object".to_owned()), 0)
    );
    assert_eq!(FieldDescriptor::from_symbolic_reference("[I"), fd(FieldDescriptorType::Int, 1));
}

#[test]
fn method_empty() {
    assert_eq!(MethodDescriptor::parse("()V"), md(vec![], None));
}

#[test]
fn method_one() {
    assert_eq!(
        MethodDescriptor::parse("(S)I"),
        md(vec![fdo(FieldDescriptorType::Short, 0)], fd(FieldDescriptorType::Int, 0))
    );
}

#[test]
fn method_many() {
    assert_eq!(
        MethodDescriptor::parse("(I[DLjava/lang/Thread;)Ljava/lang/Object;"),
        md(
            vec![
                fdo(FieldDescriptorType::Int, 0),
                fdo(FieldDescriptorType::Double, 1),
                fdo(FieldDescriptorType::Reference("java/lang/Thread".to_owned()), 0)
            ],
            Some(fdo(FieldDescriptorType::Reference("java/lang/Object".to_owned()), 0))
        )
    );
}

#[test]
fn method_fail() {
    assert_eq!(MethodDescriptor::parse("()V()"), None);
}

#[test]
fn method_words() {
    assert_eq!(MethodDescriptor::parse("(S[DJ)I").unwrap().words_for_params(), 4);
}

#[test]
fn add_array() {
    let mut desc = FieldDescriptor::parse("J").unwrap();
    assert_eq!(desc.simple_typ(), Type::Long);
    assert_eq!(desc.num_array(), 0);
    desc.add_array();
    assert_eq!(desc.simple_typ(), Type::Reference);
    assert_eq!(desc.num_array(), 1);
}

#[test]
fn remove_array() {
    let mut desc = FieldDescriptor::parse("[J").unwrap();
    assert_eq!(desc.simple_typ(), Type::Reference);
    assert_eq!(desc.num_array(), 1);
    desc.remove_array();
    assert_eq!(desc.simple_typ(), Type::Long);
    assert_eq!(desc.num_array(), 0);
}

#[test]
fn get_class() {
    assert_eq!(FieldDescriptor::parse("J").unwrap().get_class(), None);
    assert_eq!(FieldDescriptor::parse("[LA;").unwrap().get_class(), None);
    assert_eq!(FieldDescriptor::parse("LA;").unwrap().get_class(), Some("A"));
}

#[test]
fn descriptor_round_trip_and_words() {
    for text in ["B", "C", "D", "F", "I", "J", "S", "Z", "LA;", "[[J", "[Ljava/lang/String;", "L;"] {
        let d = FieldDescriptor::parse(text).unwrap();
        let again = FieldDescriptor::parse(text).unwrap();
        assert_eq!(d, again);
        let w = d.word_size();
        assert!(w == 1 || w == 2);
        assert_eq!(w == 2, text == "J" || text == "D");
    }
}

#[test]
fn descriptor_rejects_garbage() {
    assert_eq!(FieldDescriptor::parse(""), None);
    assert_eq!(FieldDescriptor::parse("X"), None);
    assert_eq!(FieldDescriptor::parse("[["), None);
    assert_eq!(FieldDescriptor::parse("Ljava/lang/Object"), None);
    assert_eq!(FieldDescriptor::parse("II"), None);
    assert_eq!(MethodDescriptor::parse("(I"), None);
    assert_eq!(MethodDescriptor::parse("I)V"), None);
    assert_eq!(MethodDescriptor::parse("()"), None);
    assert_eq!(MethodDescriptor::parse("(X)V"), None);
}

#[test]
fn descriptor_symbolic_array_fails_like_parse() {
    assert_eq!(FieldDescriptor::from_symbolic_reference("[X"), None);
}

#[test]
fn type_word_sizes() {
    assert_eq!(Type::Long.word_size(), 2);
    assert_eq!(Type::Double.word_size(), 2);
    assert_eq!(Type::Int.word_size(), 1);
    assert_eq!(Type::Reference.word_size(), 1);
    assert!(Type::Double.is_double_sized());
    assert!(!Type::Float.is_double_sized());
}
