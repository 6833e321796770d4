//! A bytecode interpreter for class files of the second edition of the
//! virtual machine specification (versions 45.0 to 46.0): descriptors, the
//! constant pool, the instruction decoder, the linked class model with its
//! inheritance queries, the object heap and the interpreter itself.
use vstd::prelude::*;

pub mod class;
pub mod class_loader;
pub mod descriptor;
pub mod errors;
pub mod hierarchy;
pub mod instruction;
pub mod object;
pub mod parsed_class;
pub mod vm;

verus! {

} // verus!
