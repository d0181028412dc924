use vstd::prelude::*;

use crate::text::same_text;

verus! {

/// The stylesheet loader for `.less` files: files with that extension are
/// compiled to CSS by the `lessc` tool; other files are left to other
/// loaders.
pub struct LessPlugin {}

impl LessPlugin {
    pub fn name(&self) -> (r: &'static str)
        ensures
            r@ == "less"@,
    {
        proof {
            reveal_strlit("less");
        }
        "less"
    }

    /// Whether a file with extension `ext_name` is compiled by this loader.
    pub fn handles(&self, ext_name: &str) -> (r: bool)
        ensures
            r == (ext_name@ == "less"@),
    {
        same_text(ext_name, "less")
    }
}

} // verus!
