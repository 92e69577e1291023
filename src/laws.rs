use vstd::prelude::*;

use crate::description::{DescriptionModel, Direction, PageModel};
use crate::record::RecordModel;
use crate::table::{
    fresh_rows, id_above, ids_increasing, lemma_filter_all, lemma_filter_split, load_fits,
    page_model, replaced, table_wf, TableModel,
};

verus! {

/// Where a cursor splits sorted rows: those at or below it come first.
proof fn lemma_split(rows: Seq<DescriptionModel>, c: int) -> (j: int)
    requires
        ids_increasing(rows),
    ensures
        0 <= j <= rows.len(),
        forall|i: int| 0 <= i < j ==> rows[i].id <= c,
        forall|i: int| j <= i < rows.len() ==> rows[i].id > c,
    decreases rows.len(),
{
    if rows.len() == 0 {
        0
    } else if rows.last().id <= c {
        rows.len() as int
    } else {
        let j = lemma_split(rows.drop_last(), c);
        assert forall|i: int| j <= i < rows.len() implies rows[i].id > c by {
            if i < rows.len() - 1 {
                assert(rows.drop_last()[i] == rows[i]);
            }
        }
        assert forall|i: int| 0 <= i < j implies rows[i].id <= c by {
            assert(rows.drop_last()[i] == rows[i]);
        }
        j
    }
}

/// The rows visited by paging forward from cursor `c` with page size `p`, each
/// next page starting after the last row of the one before, until no next page is left.
pub open spec fn forward_walk(rows: Seq<DescriptionModel>, p: int, c: int) -> Seq<DescriptionModel>
    decreases rows.filter(id_above(c)).len(),
    when ids_increasing(rows) && p >= 1
    via forward_walk_decreases
{
    let pg = page_model(rows, p, c, Direction::Forward);
    if pg.has_next {
        pg.items + forward_walk(rows, p, pg.items.last().id)
    } else {
        pg.items
    }
}

/// The rows above `c` after the full page that starts at split point `j`.
proof fn lemma_after_full_page(rows: Seq<DescriptionModel>, p: int, c: int, j: int)
    requires
        ids_increasing(rows),
        p >= 1,
        0 <= j <= rows.len(),
        forall|i: int| 0 <= i < j ==> rows[i].id <= c,
        forall|i: int| j <= i < rows.len() ==> rows[i].id > c,
        rows.len() - j > p,
    ensures
        page_model(rows, p, c, Direction::Forward).items == rows.subrange(j, j + p),
        page_model(rows, p, c, Direction::Forward).has_next,
        rows.filter(id_above(rows[j + p - 1].id)) == rows.subrange(j + p, rows.len() as int),
{
    lemma_filter_split(rows, id_above(c), j, true);
    let f = rows.filter(id_above(c));
    assert(f.take(p) =~= rows.subrange(j, j + p));
    let c2 = rows[j + p - 1].id;
    assert forall|i: int| 0 <= i < j + p implies id_above(c2)(rows[i]) != true by {
        if i < j + p - 1 {
            assert(rows[i].id < rows[j + p - 1].id);
        }
    }
    assert forall|i: int| j + p <= i < rows.len() implies id_above(c2)(rows[i]) == true by {
        assert(rows[j + p - 1].id < rows[i].id);
    }
    lemma_filter_split(rows, id_above(c2), j + p, true);
}

#[via_fn]
proof fn forward_walk_decreases(rows: Seq<DescriptionModel>, p: int, c: int) {
    if ids_increasing(rows) && p >= 1 {
        let j = lemma_split(rows, c);
        lemma_filter_split(rows, id_above(c), j, true);
        let pg = page_model(rows, p, c, Direction::Forward);
        if pg.has_next {
            lemma_after_full_page(rows, p, c, j);
            assert(pg.items.last() == rows[j + p - 1]);
        }
    }
}

proof fn lemma_walk_from(rows: Seq<DescriptionModel>, p: int, c: int)
    requires
        ids_increasing(rows),
        p >= 1,
    ensures
        forward_walk(rows, p, c) == rows.filter(id_above(c)),
    decreases rows.filter(id_above(c)).len(),
{
    let j = lemma_split(rows, c);
    lemma_filter_split(rows, id_above(c), j, true);
    let pg = page_model(rows, p, c, Direction::Forward);
    let f = rows.filter(id_above(c));
    if pg.has_next {
        lemma_after_full_page(rows, p, c, j);
        assert(pg.items.last() == rows[j + p - 1]);
        lemma_walk_from(rows, p, rows[j + p - 1].id);
        assert(rows.subrange(j, j + p) + rows.subrange(j + p, rows.len() as int) =~= f);
    } else {
        assert(f.take(f.len() as int) =~= f);
    }
}

/// Paging forward from the start cursor 0 until no next page is left visits
/// every row of a table exactly once, in ascending id order.
pub proof fn lemma_forward_walk_visits_all(t: TableModel, p: int)
    requires
        table_wf(t),
        p >= 1,
    ensures
        forward_walk(t.rows, p, 0) == t.rows,
{
    lemma_walk_from(t.rows, p, 0);
    lemma_filter_all(t.rows, id_above(0));
}

/// Going forward from the largest id in a non-empty table gives an empty page
/// with a previous page and no next one.
pub proof fn lemma_page_after_last(t: TableModel, p: int)
    requires
        table_wf(t),
        t.rows.len() > 0,
        p >= 1,
    ensures
        page_model(t.rows, p, t.rows.last().id, Direction::Forward) == (PageModel {
            items: Seq::<DescriptionModel>::empty(),
            has_prev: true,
            has_next: false,
        }),
{
    let rows = t.rows;
    let c = rows.last().id;
    assert forall|i: int| 0 <= i < rows.len() implies id_above(c)(rows[i]) != true by {
        if i < rows.len() - 1 {
            assert(rows[i].id < rows[rows.len() - 1].id);
        }
    }
    lemma_filter_split(rows, id_above(c), rows.len() as int, true);
    let pg = page_model(rows, p, c, Direction::Forward);
    assert(rows[rows.len() - 1].id <= c);
    assert(pg.items =~= Seq::<DescriptionModel>::empty());
}

/// A table holding the rows of a successful load is well formed.
pub proof fn lemma_replaced_wf(t: TableModel, records: Seq<RecordModel>)
    requires
        table_wf(t),
        load_fits(t, records.len() as int),
    ensures
        table_wf(replaced(t, records)),
{
}

/// After a successful load of `records`, the first forward page from cursor 0
/// with a page size of at least the number of records holds exactly those
/// records, in input order, and there is no page before or after it.
pub proof fn lemma_load_then_first_page(t: TableModel, records: Seq<RecordModel>, p: int)
    requires
        table_wf(t),
        load_fits(t, records.len() as int),
        p >= 1,
        p >= records.len(),
    ensures
        ({
            let pg = page_model(replaced(t, records).rows, p, 0, Direction::Forward);
            &&& pg.items == fresh_rows(records, t.next_id)
            &&& pg.items.map_values(|d: DescriptionModel| d.record) == records
            &&& !pg.has_prev
            &&& !pg.has_next
        }),
{
    let rows = replaced(t, records).rows;
    lemma_filter_all(rows, id_above(0));
    let pg = page_model(rows, p, 0, Direction::Forward);
    assert(rows.take(rows.len() as int) =~= rows);
    assert(pg.items.map_values(|d: DescriptionModel| d.record) =~= records);
}

/// Loading the same records twice gives rows with the same content, whose ids are
/// new: each id of the second load is above every id of the first, and the ids
/// still increase along the rows.
pub proof fn lemma_reload_fresh_ids(t: TableModel, records: Seq<RecordModel>)
    requires
        table_wf(t),
        load_fits(t, 2 * records.len() as int),
    ensures
        ({
            let first = replaced(t, records);
            let second = replaced(first, records);
            &&& table_wf(first)
            &&& table_wf(second)
            &&& second.rows.len() == first.rows.len()
            &&& forall|i: int|
                0 <= i < first.rows.len() ==> #[trigger] second.rows[i].record
                    == first.rows[i].record
            &&& forall|i: int, j: int|
                0 <= i < first.rows.len() && 0 <= j < second.rows.len() ==> first.rows[i].id
                    < second.rows[j].id
        }),
{
    lemma_replaced_wf(t, records);
    lemma_replaced_wf(replaced(t, records), records);
}

} // verus!
