use vstd::prelude::*;

verus! {

/// The literal kinds that the tokenizer can tell apart.
#[derive(Debug, Clone, Copy, PartialEq, Eq, Structural)]
pub enum Type {
    String,
    Int,
    Float,
    Bool,
}

} // verus!
