use vstd::prelude::*;

use crate::semantic_analysis::{build_root, parse};
use crate::types::{result_view, Ast, Error, Yaml};

verus! {

impl Ast {
    /// Infer the typed syntax tree of a whole document.
    ///
    /// The root must be a mapping; it becomes a record named after
    /// `base_name`, and the result is exactly what [`build_root`] states.
    pub fn from_yaml(base_name: String, yaml: Yaml) -> (r: Result<Ast, Error>)
        ensures
            result_view(r) == build_root(base_name@, yaml@),
    {
        match &yaml {
            Yaml::Hash(_) => {
                proof {
                    reveal_strlit("");
                    assert(""@ =~= Seq::<char>::empty());
                }
                parse("", base_name.as_str(), &yaml)
            },
            _ => Err(Error::NonMappingRoot),
        }
    }
}

} // verus!
