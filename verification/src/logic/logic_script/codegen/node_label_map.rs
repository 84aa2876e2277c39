use vstd::prelude::*;

verus! {

/// A label that was found, or one that was made up and recorded.
#[derive(Debug, Clone)]
pub enum GetOrInsertLabelResult {
    GotExisting(String),
    Inserted(String),
}

impl GetOrInsertLabelResult {
    pub open spec fn label_of(&self) -> Seq<char> {
        match self {
            GetOrInsertLabelResult::GotExisting(label) => label@,
            GetOrInsertLabelResult::Inserted(label) => label@,
        }
    }

    pub fn label(&self) -> (r: &str)
        ensures
            r@ == self.label_of(),
    {
        match self {
            GetOrInsertLabelResult::GotExisting(label) => label.as_str(),
            GetOrInsertLabelResult::Inserted(label) => label.as_str(),
        }
    }
}

} // verus!
