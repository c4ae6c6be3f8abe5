use vstd::prelude::*;

verus! {

/// One step a printf-style format generator is asked to take, with each
/// argument kept as the text of its expression.
#[derive(Clone, Debug, PartialEq)]
pub enum PrintfTestGeneratorOps {
    Finalize,
    StringFragment(String),
    IntegerConversion { ty: String, arg: String },
    StringConversion(String),
    CharConversion(String),
    UntypedConversion(String),
}

} // verus!
