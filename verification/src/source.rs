use vstd::prelude::*;

verus! {

/// An already UTF-8-validated source file and its logical diagnostic path.
#[derive(Clone, Debug, PartialEq, Eq)]
pub struct SourceFile {
    path: String,
    text: String,
}

impl SourceFile {
    /// The logical path.
    pub closed spec fn spec_path(&self) -> Seq<char> {
        self.path@
    }

    /// The complete source text.
    pub closed spec fn spec_text(&self) -> Seq<char> {
        self.text@
    }

    /// Constructs source from a Rust string, which is valid UTF-8 by type.
    pub fn new(path: &str, text: &str) -> (source: SourceFile)
        ensures
            source.spec_path() == path@,
            source.spec_text() == text@,
    {
        SourceFile { path: path.to_owned(), text: text.to_owned() }
    }

    /// Returns the logical path used in source diagnostics.
    pub fn path(&self) -> (path: &str)
        ensures
            path@ == self.spec_path(),
    {
        self.path.as_str()
    }

    /// Returns the complete source text.
    pub fn text(&self) -> (text: &str)
        ensures
            text@ == self.spec_text(),
    {
        self.text.as_str()
    }
}

} // verus!
