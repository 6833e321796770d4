use rustyjvm::descriptor::FieldDescriptor;
use rustyjvm::instruction::Type;
use rustyjvm::object::ArrayObject;

#[test]
fn array() {
    let mut array = ArrayObject::new(3, FieldDescriptor::from_type_without_reference(Type::Long));
    array.set2(0, [1, 2]);
    array.set2(1, [3, 4]);
    assert_eq!(array.get2(0), [1, 2]);
    assert_eq!(array.get2(1), [3, 4]);
    assert_eq!(array.get2(2), [0, 0]);
}

#[test]
fn array_of_ints_is_one_word_each() {
    let mut array = ArrayObject::new(2, FieldDescriptor::from_type_without_reference(Type::Int));
    assert_eq!(array.length(), 2);
    assert_eq!(array.data.len(), 2);
    assert_eq!(array.typ(), &FieldDescriptor::parse("[I").unwrap());
    array.set(1, 7);
    assert_eq!(array.get(0), 0);
    assert_eq!(array.get(1), 7);
}

#[test]
fn empty_array() {
    let array = ArrayObject::new(0, FieldDescriptor::from_class("java/lang/Object"));
    assert_eq!(array.length(), 0);
    assert_eq!(array.data.len(), 0);
    assert_eq!(array.typ(), &FieldDescriptor::parse("[Ljava/lang/Object;").unwrap());
}
