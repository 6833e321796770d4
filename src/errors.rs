use vstd::prelude::*;
use crate::parsed_class::FieldRef;

verus! {

/// Why loading, linking or a hierarchy query failed.
#[derive(Debug, Clone)]
pub enum ClassLoadingError {
    /// The class is not there: its name, or what reading its file reported.
    NoClassDefFound(String),
    ClassFormatError(String),
    UnsupportedClassVersion,
    NoSuchFieldError(FieldRef),
    IncompatibleClassChange,
    ClassCircularity,
}

impl ClassLoadingError {
    /// The kind of the error, as a short name.
    pub fn description(&self) -> (r: &str)
        ensures
            r@ == match self {
                ClassLoadingError::NoClassDefFound(..) => "NoClassDefFound"@,
                ClassLoadingError::ClassFormatError(..) => "ClassFormatError"@,
                ClassLoadingError::NoSuchFieldError(..) => "NoSuchFieldError"@,
                ClassLoadingError::UnsupportedClassVersion => "UnsupportedClassVersion"@,
                ClassLoadingError::IncompatibleClassChange => "IncompatibleClassChange"@,
                ClassLoadingError::ClassCircularity => "ClassCircularity"@,
            },
    {
        match self {
            ClassLoadingError::NoClassDefFound(..) => "NoClassDefFound",
            ClassLoadingError::ClassFormatError(..) => "ClassFormatError",
            ClassLoadingError::NoSuchFieldError(..) => "NoSuchFieldError",
            ClassLoadingError::UnsupportedClassVersion => "UnsupportedClassVersion",
            ClassLoadingError::IncompatibleClassChange => "IncompatibleClassChange",
            ClassLoadingError::ClassCircularity => "ClassCircularity",
        }
    }
}

} // verus!
