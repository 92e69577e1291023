use vstd::prelude::*;

use crate::record::{Record, RecordModel};

verus! {

/// A stored row: a record together with the identifier the store gave it.
#[derive(Debug)]
pub struct Description {
    pub id: i32,
    pub source_id: String,
    pub title: String,
    pub description: String,
    pub published_at: String,
    pub actual_start_at: String,
}

/// The mathematical content of a [`Description`].
pub struct DescriptionModel {
    pub id: int,
    pub record: RecordModel,
}

impl View for Description {
    type V = DescriptionModel;

    open spec fn view(&self) -> DescriptionModel {
        DescriptionModel {
            id: self.id as int,
            record: RecordModel {
                source_id: self.source_id@,
                title: self.title@,
                description: self.description@,
                published_at: self.published_at@,
                actual_start_at: self.actual_start_at@,
            },
        }
    }
}

impl Description {
    /// The row that stores `record` under `id`.
    pub fn from_record(id: i32, record: &Record) -> (r: Description)
        ensures
            r@ == (DescriptionModel { id: id as int, record: record@ }),
    {
        Description {
            id,
            source_id: record.source_id.clone(),
            title: record.title.clone(),
            description: record.description.clone(),
            published_at: record.published_at.clone(),
            actual_start_at: record.actual_start_at.clone(),
        }
    }

    /// A field-by-field copy.
    pub fn duplicate(&self) -> (r: Description)
        ensures
            r@ == self@,
    {
        Description {
            id: self.id,
            source_id: self.source_id.clone(),
            title: self.title.clone(),
            description: self.description.clone(),
            published_at: self.published_at.clone(),
            actual_start_at: self.actual_start_at.clone(),
        }
    }

    pub fn id(&self) -> (r: i32)
        ensures
            r == self.id,
    {
        self.id
    }

    pub fn source_id(&self) -> (r: &str)
        ensures
            r@ == self.source_id@,
    {
        self.source_id.as_str()
    }

    pub fn title(&self) -> (r: &str)
        ensures
            r@ == self.title@,
    {
        self.title.as_str()
    }

    pub fn description(&self) -> (r: &str)
        ensures
            r@ == self.description@,
    {
        self.description.as_str()
    }

    pub fn published_at(&self) -> (r: &str)
        ensures
            r@ == self.published_at@,
    {
        self.published_at.as_str()
    }

    pub fn actual_start_at(&self) -> (r: &str)
        ensures
            r@ == self.actual_start_at@,
    {
        self.actual_start_at.as_str()
    }
}

/// One entry of the log of loads: which file, how many rows, and when.
#[derive(Debug)]
pub struct History {
    pub id: i32,
    pub path: String,
    pub count: i32,
    pub loaded_at: String,
}

impl History {
    pub fn id(&self) -> (r: i32)
        ensures
            r == self.id,
    {
        self.id
    }

    pub fn path(&self) -> (r: &str)
        ensures
            r@ == self.path@,
    {
        self.path.as_str()
    }

    pub fn count(&self) -> (r: i32)
        ensures
            r == self.count,
    {
        self.count
    }

    pub fn loaded_at(&self) -> (r: &str)
        ensures
            r@ == self.loaded_at@,
    {
        self.loaded_at.as_str()
    }
}

/// One page of rows in ascending id order, with whether rows lie before and after it.
#[derive(Debug)]
pub struct PageResult {
    pub page: Vec<Description>,
    pub has_prev_page: bool,
    pub has_next_page: bool,
}

pub struct PageModel {
    pub items: Seq<DescriptionModel>,
    pub has_prev: bool,
    pub has_next: bool,
}

pub open spec fn descriptions_view(v: Seq<Description>) -> Seq<DescriptionModel> {
    v.map_values(|d: Description| d@)
}

impl View for PageResult {
    type V = PageModel;

    open spec fn view(&self) -> PageModel {
        PageModel {
            items: descriptions_view(self.page@),
            has_prev: self.has_prev_page,
            has_next: self.has_next_page,
        }
    }
}

/// Which way a page extends from its cursor.
#[derive(Debug, Clone, Copy, PartialEq, Eq, Structural)]
pub enum Direction {
    /// Rows with an id above the cursor.
    Forward,
    /// Rows with an id below the cursor.
    Backward,
}

} // verus!
