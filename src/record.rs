use vstd::prelude::*;

verus! {

/// One row of input as read from a delimited file, before the store gives it an id.
#[derive(Debug)]
pub struct Record {
    pub source_id: String,
    pub title: String,
    pub description: String,
    pub published_at: String,
    pub actual_start_at: String,
}

/// The mathematical content of a [`Record`].
pub struct RecordModel {
    pub source_id: Seq<char>,
    pub title: Seq<char>,
    pub description: Seq<char>,
    pub published_at: Seq<char>,
    pub actual_start_at: Seq<char>,
}

impl View for Record {
    type V = RecordModel;

    open spec fn view(&self) -> RecordModel {
        RecordModel {
            source_id: self.source_id@,
            title: self.title@,
            description: self.description@,
            published_at: self.published_at@,
            actual_start_at: self.actual_start_at@,
        }
    }
}

impl Record {
    /// A field-by-field copy.
    pub fn duplicate(&self) -> (r: Record)
        ensures
            r@ == self@,
    {
        Record {
            source_id: self.source_id.clone(),
            title: self.title.clone(),
            description: self.description.clone(),
            published_at: self.published_at.clone(),
            actual_start_at: self.actual_start_at.clone(),
        }
    }
}

} // verus!
