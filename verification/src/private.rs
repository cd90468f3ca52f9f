use vstd::prelude::*;

verus! {

/// An inline comment for one key of a configuration file, with the comments
/// for the keys nested under it.
pub struct Comment {
    /// The key the comment belongs to.
    pub key: &'static str,
    /// The comment text, if the key itself is commented.
    pub text: Option<&'static str>,
    /// Comments for keys of the table found under `key`.
    pub children: Vec<Comment>,
}

} // verus!
