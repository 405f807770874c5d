use vstd::prelude::*;

use crate::types::{Yaml, YamlV};

verus! {

/// Whether a document node is a terminal of the type system: one of the four
/// supported scalar kinds.
pub open spec fn is_terminal(y: YamlV) -> bool {
    y is Str || y is Real || y is Int || y is Bool
}

/// Whether a document node is a supported scalar.
pub fn is_terminal_type(value: &Yaml) -> (r: bool)
    ensures
        r == is_terminal(value@),
{
    match value {
        Yaml::String(_) => true,
        Yaml::Real(_) => true,
        Yaml::Integer(_) => true,
        Yaml::Boolean(_) => true,
        _ => false,
    }
}

} // verus!
