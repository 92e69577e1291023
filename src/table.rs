use vstd::prelude::*;
use vstd::string::StringExecFns;

use crate::description::{
    descriptions_view, Description, DescriptionModel, Direction, PageModel, PageResult,
};
use crate::error::{LoadError, QueryError};
use crate::parse::{agrees, csv_parse, csv_records_of, parse_outcome, records_view, ParseError};
use crate::record::{Record, RecordModel};

verus! {

/// The largest identifier a row can have.
pub const MAX_ID: i64 = 0x7fff_ffff;

/// The table of stored descriptions, kept in memory.
///
/// Identifiers come from a counter that only grows, so an id is never given twice,
/// not even across loads; rows are kept in ascending id order.
pub struct DescTable {
    rows: Vec<Description>,
    next_id: i64,
}

pub struct TableModel {
    /// The rows, in ascending id order.
    pub rows: Seq<DescriptionModel>,
    /// The id that the next inserted row receives.
    pub next_id: int,
}

impl View for DescTable {
    type V = TableModel;

    closed spec fn view(&self) -> TableModel {
        TableModel { rows: descriptions_view(self.rows@), next_id: self.next_id as int }
    }
}

pub open spec fn ids_increasing(rows: Seq<DescriptionModel>) -> bool {
    forall|i: int, j: int| 0 <= i < j < rows.len() ==> rows[i].id < rows[j].id
}

/// Ids strictly increase along the rows, lie in `[1, next_id)`, and `next_id`
/// is at most one past [`MAX_ID`].
pub open spec fn table_wf(t: TableModel) -> bool {
    &&& 1 <= t.next_id <= MAX_ID + 1
    &&& ids_increasing(t.rows)
    &&& forall|i: int| 0 <= i < t.rows.len() ==> 1 <= #[trigger] t.rows[i].id < t.next_id
}

/// The rows that a load of `records` creates: in input order, with consecutive ids from `first`.
pub open spec fn fresh_rows(records: Seq<RecordModel>, first: int) -> Seq<DescriptionModel> {
    Seq::new(records.len(), |i: int| DescriptionModel { id: first + i, record: records[i] })
}

/// Whether a load of `n` rows finds an id for each.
pub open spec fn load_fits(t: TableModel, n: int) -> bool {
    t.next_id + n <= MAX_ID + 1
}

/// The table after a successful load of `records`: the old rows are gone and
/// the new ones follow the id counter.
pub open spec fn replaced(t: TableModel, records: Seq<RecordModel>) -> TableModel {
    TableModel { rows: fresh_rows(records, t.next_id), next_id: t.next_id + records.len() }
}

pub open spec fn id_above(c: int) -> spec_fn(DescriptionModel) -> bool {
    |d: DescriptionModel| d.id > c
}

pub open spec fn id_below(c: int) -> spec_fn(DescriptionModel) -> bool {
    |d: DescriptionModel| d.id < c
}

pub open spec fn min(a: int, b: int) -> int {
    if a < b {
        a
    } else {
        b
    }
}

/// The page of at most `p` rows next to cursor `c` in direction `dir`.
///
/// Forward: the first rows with an id above `c`; there is a next page when more
/// than `p` such rows exist, and a previous one when some row has an id at most `c`.
/// Backward: the last rows with an id below `c`; there is a previous page when
/// more than `p` such rows exist, and a next one when some row has an id at least `c`.
pub open spec fn page_model(rows: Seq<DescriptionModel>, p: int, c: int, dir: Direction) -> PageModel {
    match dir {
        Direction::Forward => {
            let f = rows.filter(id_above(c));
            PageModel {
                items: f.take(min(p, f.len() as int)),
                has_prev: exists|i: int| 0 <= i < rows.len() && #[trigger] rows[i].id <= c,
                has_next: f.len() > p,
            }
        },
        Direction::Backward => {
            let b = rows.filter(id_below(c));
            PageModel {
                items: b.subrange(b.len() - min(p, b.len() as int), b.len() as int),
                has_prev: b.len() > p,
                has_next: exists|i: int| 0 <= i < rows.len() && #[trigger] rows[i].id >= c,
            }
        },
    }
}

/// Row `i` is the first whose source id is `s`.
pub open spec fn is_first_match(rows: Seq<DescriptionModel>, s: Seq<char>, i: int) -> bool {
    &&& 0 <= i < rows.len()
    &&& rows[i].record.source_id == s
    &&& forall|j: int| 0 <= j < i ==> rows[j].record.source_id != s
}

pub(crate) proof fn lemma_filter_all(s: Seq<DescriptionModel>, pred: spec_fn(DescriptionModel) -> bool)
    requires
        forall|i: int| 0 <= i < s.len() ==> pred(s[i]),
    ensures
        s.filter(pred) == s,
    decreases s.len(),
{
    reveal(Seq::filter);
    if s.len() > 0 {
        lemma_filter_all(s.drop_last(), pred);
        assert(s.drop_last().push(s.last()) =~= s);
    }
}

pub(crate) proof fn lemma_filter_none(s: Seq<DescriptionModel>, pred: spec_fn(DescriptionModel) -> bool)
    requires
        forall|i: int| 0 <= i < s.len() ==> !pred(s[i]),
    ensures
        s.filter(pred) == Seq::<DescriptionModel>::empty(),
    decreases s.len(),
{
    reveal(Seq::filter);
    if s.len() > 0 {
        lemma_filter_none(s.drop_last(), pred);
    }
}

/// Filtering a sequence whose elements fail `pred` up to `j` and pass it from `j` on.
pub(crate) proof fn lemma_filter_split(
    s: Seq<DescriptionModel>,
    pred: spec_fn(DescriptionModel) -> bool,
    j: int,
    tail_passes: bool,
)
    requires
        0 <= j <= s.len(),
        forall|i: int| 0 <= i < j ==> pred(s[i]) != tail_passes,
        forall|i: int| j <= i < s.len() ==> pred(s[i]) == tail_passes,
    ensures
        tail_passes ==> s.filter(pred) == s.subrange(j, s.len() as int),
        !tail_passes ==> s.filter(pred) == s.subrange(0, j),
{
    let a = s.subrange(0, j);
    let b = s.subrange(j, s.len() as int);
    assert(s =~= a + b);
    Seq::filter_distributes_over_add(a, b, pred);
    if tail_passes {
        lemma_filter_none(a, pred);
        lemma_filter_all(b, pred);
        assert(a.filter(pred) + b.filter(pred) =~= b);
    } else {
        lemma_filter_all(a, pred);
        lemma_filter_none(b, pred);
        assert(a.filter(pred) + b.filter(pred) =~= a);
    }
}

/// A load's result `r`, taking the table from `before` to `after`, is what the
/// parse outcome `o` calls for: a parse error leaves the table alone, and parsed
/// records replace it as [`DescTable::replace_all`] does.
pub open spec fn load_agrees(
    before: TableModel,
    after: TableModel,
    r: Result<usize, LoadError>,
    o: Result<Seq<RecordModel>, ParseError>,
) -> bool {
    match o {
        Err(e) => r == Err::<usize, LoadError>(LoadError::Parse(e)) && after == before,
        Ok(recs) => if load_fits(before, recs.len() as int) {
            r == Ok::<usize, LoadError>(recs.len() as usize) && after == replaced(before, recs)
        } else {
            (r matches Err(LoadError::Write(_))) && after == before
        },
    }
}

impl DescTable {
    pub closed spec fn wf(&self) -> bool {
        &&& table_wf(self@)
        &&& self.rows@.len() == self@.rows.len()
    }

    /// An empty table whose first row will get id 1.
    pub fn new() -> (r: DescTable)
        ensures
            r.wf(),
            r@.rows.len() == 0,
            r@.next_id == 1,
    {
        DescTable { rows: Vec::new(), next_id: 1 }
    }

    /// An empty table whose first row will get id `first_id`, as a store does
    /// whose id counter already stands there.
    pub fn with_first_id(first_id: i32) -> (r: DescTable)
        requires
            first_id >= 1,
        ensures
            r.wf(),
            r@.rows.len() == 0,
            r@.next_id == first_id,
    {
        DescTable { rows: Vec::new(), next_id: first_id as i64 }
    }

    /// The number of rows.
    pub fn len(&self) -> (r: usize)
        requires
            self.wf(),
        ensures
            r == self@.rows.len(),
    {
        self.rows.len()
    }

    /// Copies of all rows, in ascending id order.
    pub fn all_rows(&self) -> (r: Vec<Description>)
        requires
            self.wf(),
        ensures
            descriptions_view(r@) == self@.rows,
    {
        self.copy_range(0, self.rows.len())
    }

    fn copy_range(&self, from: usize, to: usize) -> (r: Vec<Description>)
        requires
            self.wf(),
            from <= to <= self@.rows.len(),
        ensures
            descriptions_view(r@) == self@.rows.subrange(from as int, to as int),
    {
        let mut out: Vec<Description> = Vec::new();
        let mut i: usize = from;
        while i < to
            invariant
                self.wf(),
                from <= i <= to <= self@.rows.len(),
                out@.len() == i - from,
                descriptions_view(out@) == self@.rows.subrange(from as int, i as int),
            decreases to - i,
        {
            let ghost prev = out@;
            let d = self.rows[i].duplicate();
            out.push(d);
            proof {
                assert(out@ == prev.push(d));
                assert(self@.rows[i as int] == self.rows@[i as int]@);
                assert forall|k: int| 0 <= k < out@.len() implies descriptions_view(out@)[k]
                    == self@.rows.subrange(from as int, i + 1)[k] by {
                    if k < out@.len() - 1 {
                        assert(out@[k] == prev[k]);
                        assert(descriptions_view(prev)[k] == self@.rows.subrange(
                            from as int,
                            i as int,
                        )[k]);
                    }
                }
                assert(descriptions_view(out@) =~= self@.rows.subrange(from as int, i + 1));
            }
            i = i + 1;
        }
        out
    }

    /// The number of leading rows whose id is at most `t`.
    fn count_up_to(&self, t: i64) -> (j: usize)
        requires
            self.wf(),
        ensures
            j <= self@.rows.len(),
            forall|i: int| 0 <= i < j ==> self@.rows[i].id <= t,
            forall|i: int| j <= i < self@.rows.len() ==> self@.rows[i].id > t,
    {
        let mut j: usize = 0;
        while j < self.rows.len()
            invariant
                self.wf(),
                j <= self@.rows.len(),
                forall|i: int| 0 <= i < j ==> self@.rows[i].id <= t,
            decreases self@.rows.len() - j,
        {
            assert(self@.rows[j as int].id == self.rows@[j as int].id);
            if self.rows[j].id as i64 > t {
                return j;
            }
            j = j + 1;
        }
        j
    }

    /// Replaces every row by the rows of `records`, in input order, all or nothing.
    ///
    /// Each new row gets the next id of the counter. When the ids run out before the
    /// last record, the load fails with a write error and the table is left exactly
    /// as it was.
    pub fn replace_all(&mut self, records: Vec<Record>) -> (r: Result<usize, LoadError>)
        requires
            old(self).wf(),
        ensures
            final(self).wf(),
            load_fits(old(self)@, records@.len() as int) ==> r == Ok::<usize, LoadError>(
                records.len(),
            ) && final(self)@ == replaced(old(self)@, records_view(records@)),
            !load_fits(old(self)@, records@.len() as int) ==> (r matches Err(LoadError::Write(_)))
                && final(self)@ == old(self)@,
    {
        let ghost recs = records_view(records@);
        let first = self.next_id;
        let mut staged: Vec<Description> = Vec::new();
        let mut next: i64 = first;
        let mut i: usize = 0;
        while i < records.len()
            invariant
                self.wf(),
                *self == *old(self),
                first == self.next_id,
                recs == records_view(records@),
                i <= records@.len(),
                next == first + i,
                next <= MAX_ID + 1,
                staged@.len() == i,
                descriptions_view(staged@) == fresh_rows(recs.take(i as int), first as int),
            decreases records@.len() - i,
        {
            if next > MAX_ID {
                return Err(LoadError::Write(String::from_str("no id is left for a new row")));
            }
            let ghost prev = staged@;
            let d = Description::from_record(next as i32, &records[i]);
            staged.push(d);
            proof {
                assert(staged@ == prev.push(d));
                let want = fresh_rows(recs.take(i + 1), first as int);
                assert forall|k: int| 0 <= k < staged@.len() implies descriptions_view(staged@)[k]
                    == want[k] by {
                    if k < staged@.len() - 1 {
                        assert(staged@[k] == prev[k]);
                        assert(descriptions_view(prev)[k] == fresh_rows(
                            recs.take(i as int),
                            first as int,
                        )[k]);
                    }
                }
                assert(descriptions_view(staged@) =~= want);
            }
            next = next + 1;
            i = i + 1;
        }
        assert(recs.take(i as int) =~= recs);
        self.rows = staged;
        self.next_id = next;
        proof {
            let t = self@;
            assert forall|a: int, b: int| 0 <= a < b < t.rows.len() implies t.rows[a].id
                < t.rows[b].id by {}
        }
        Ok(records.len())
    }

    /// Parses `data` and, only if every row is valid, replaces the table's rows by
    /// the records read. On any error the table is left as it was.
    pub fn load_from_stream(&mut self, data: &[u8]) -> (r: Result<usize, LoadError>)
        requires
            old(self).wf(),
        ensures
            final(self).wf(),
            csv_records_of(data@).0.len() < usize::MAX ==> exists|f: Option<String>|
                f.is_some() == csv_records_of(data@).1 && #[trigger] load_agrees(
                    old(self)@,
                    final(self)@,
                    r,
                    parse_outcome(csv_records_of(data@).0, f),
                ),
            csv_records_of(data@).0.len() >= usize::MAX ==> r is Err && final(self)@ == old(
                self,
            )@,
    {
        let ghost before = self@;
        let ghost rows = csv_records_of(data@).0;
        let parsed = csv_parse(data);
        let r = match parsed {
            Err(e) => Err(LoadError::Parse(e)),
            Ok(recs) => self.replace_all(recs),
        };
        proof {
            if rows.len() < usize::MAX {
                let f = choose|f: Option<String>|
                    f.is_some() == csv_records_of(data@).1 && #[trigger] agrees(
                        parsed,
                        parse_outcome(rows, f),
                    );
                assert(load_agrees(before, self@, r, parse_outcome(rows, f)));
            }
        }
        r
    }

    /// The first row, in id order, whose source id is `source_id`.
    pub fn get_by_source_id(&self, source_id: &str) -> (r: Result<Description, QueryError>)
        requires
            self.wf(),
        ensures
            match r {
                Ok(d) => exists|i: int|
                    is_first_match(self@.rows, source_id@, i) && d@ == #[trigger] self@.rows[i],
                Err(e) => e == QueryError::NotFound && forall|i: int|
                    0 <= i < self@.rows.len() ==> #[trigger] self@.rows[i].record.source_id
                        != source_id@,
            },
    {
        let key = source_id.to_owned();
        let mut i: usize = 0;
        while i < self.rows.len()
            invariant
                self.wf(),
                key@ == source_id@,
                i <= self@.rows.len(),
                forall|j: int| 0 <= j < i ==> self@.rows[j].record.source_id != source_id@,
            decreases self@.rows.len() - i,
        {
            assert(self@.rows[i as int] == self.rows@[i as int]@);
            if self.rows[i].source_id == key {
                let d = self.rows[i].duplicate();
                assert(is_first_match(self@.rows, source_id@, i as int));
                return Ok(d);
            }
            i = i + 1;
        }
        Err(QueryError::NotFound)
    }

    /// The page of at most `page_size` rows next to the cursor `last_id` in
    /// `direction` (see [`page_model`]). A cursor of 0 going forward asks for the first page.
    pub fn get_page(&self, page_size: i32, last_id: i32, direction: Direction) -> (r: Result<
        PageResult,
        QueryError,
    >)
        requires
            self.wf(),
        ensures
            page_size <= 0 ==> r == Err::<PageResult, QueryError>(QueryError::InvalidArgument),
            page_size > 0 ==> r is Ok && r->Ok_0@ == page_model(
                self@.rows,
                page_size as int,
                last_id as int,
                direction,
            ),
    {
        if page_size <= 0 {
            return Err(QueryError::InvalidArgument);
        }
        let ghost rows = self@.rows;
        let ghost p = page_size as int;
        let ghost c = last_id as int;
        let n = self.rows.len();
        let p_us = page_size as usize;
        match direction {
            Direction::Forward => {
                let j = self.count_up_to(last_id as i64);
                proof {
                    lemma_filter_split(rows, id_above(c), j as int, true);
                }
                let avail = n - j;
                let k = if avail < p_us {
                    avail
                } else {
                    p_us
                };
                let page = self.copy_range(j, j + k);
                let has_prev = j > 0;
                proof {
                    let f = rows.filter(id_above(c));
                    assert(f.take(min(p, f.len() as int)) =~= rows.subrange(j as int, j + k));
                    if has_prev {
                        assert(rows[0].id <= c);
                    }
                }
                Ok(PageResult { page, has_prev_page: has_prev, has_next_page: avail > p_us })
            },
            Direction::Backward => {
                let j = self.count_up_to(last_id as i64 - 1);
                proof {
                    lemma_filter_split(rows, id_below(c), j as int, false);
                }
                let k = if j < p_us {
                    j
                } else {
                    p_us
                };
                let page = self.copy_range(j - k, j);
                let has_next = j < n;
                proof {
                    let b = rows.filter(id_below(c));
                    assert(b.subrange(b.len() - min(p, b.len() as int), b.len() as int)
                        =~= rows.subrange(j - k, j as int));
                    if has_next {
                        assert(rows[j as int].id >= c);
                    }
                }
                Ok(PageResult { page, has_prev_page: j > p_us, has_next_page: has_next })
            },
        }
    }
}

} // verus!
