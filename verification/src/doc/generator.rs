//! Where generated documentation goes: an output directory and, within it, the
//! directory of templates.
use vstd::prelude::*;
use crate::text::{push_str, to_owned_string};

verus! {

/// A path with one more component, as `Path::join` adds a relative one: an
/// empty base gives the component alone; a separator is put between them
/// unless the base already ends with one.
pub open spec fn path_join(base: Seq<char>, part: Seq<char>) -> Seq<char> {
    if base.len() == 0 {
        part
    } else if base.last() == '/' {
        base + part
    } else {
        base + "/"@ + part
    }
}

/// A relative path with one more component.
pub fn join_path(base: &str, part: &str) -> (r: String)
    ensures
        r@ == path_join(base@, part@),
{
    let b = crate::text::str_to_chars(base);
    let mut out = to_owned_string(base);
    if b.len() > 0 && b[b.len() - 1] != '/' {
        push_str(&mut out, "/");
    }
    push_str(&mut out, part);
    out
}

/// The output directory of the documentation and its template directory.
#[derive(Debug)]
pub struct DocumentationGenerator {
    pub output_dir: String,
    pub template_dir: String,
}

impl DocumentationGenerator {
    /// A generator writing to `output_dir`, with its templates in the
    /// `templates` directory within it; the directory is made by the caller.
    pub fn new(output_dir: &str) -> (r: Self)
        ensures
            r.output_dir@ == output_dir@,
            r.template_dir@ == path_join(output_dir@, "templates"@),
    {
        DocumentationGenerator { output_dir: to_owned_string(output_dir), template_dir: join_path(output_dir, "templates") }
    }
}

} // verus!
