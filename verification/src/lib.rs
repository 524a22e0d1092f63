use vstd::prelude::*;

pub mod config_parser;
pub mod json_parser;
pub mod json_to_model;
pub mod laws;
pub mod model;
pub mod number;
pub mod policies;
pub mod policy_evaluator;
pub mod query;
pub mod relationships;
pub mod serializer;
pub mod text;

verus! {

/// Reads configuration templates into the resource tree; the file
/// handling around it lives with the caller.
pub struct CloudTemplateParser {}

impl CloudTemplateParser {
    pub fn new() -> (r: CloudTemplateParser)
        ensures
            r == (CloudTemplateParser {}),
    {
        CloudTemplateParser {}
    }
}

/// Container for the blocks parsed out of one configuration template.
pub struct ResourceTree {}

impl ResourceTree {
    pub fn new() -> (r: ResourceTree)
        ensures
            r == (ResourceTree {}),
    {
        ResourceTree {}
    }
}

} // verus!
