use vstd::prelude::*;

use crate::description::{
    descriptions_view, Description, DescriptionModel, Direction, PageModel, PageResult,
};
use crate::error::QueryError;
use crate::table::{id_above, id_below, min, page_model};

verus! {

pub open spec fn reversed(s: Seq<DescriptionModel>) -> Seq<DescriptionModel> {
    Seq::new(s.len(), |i: int| s[s.len() - 1 - i])
}

/// What a store query for the page next to cursor `c` returns: at most `p + 1`
/// rows beyond the cursor, nearest first (ascending ids going forward,
/// descending ids going backward).
pub open spec fn fetched_rows(rows: Seq<DescriptionModel>, p: int, c: int, dir: Direction) -> Seq<
    DescriptionModel,
> {
    match dir {
        Direction::Forward => {
            let f = rows.filter(id_above(c));
            f.take(min(p + 1, f.len() as int))
        },
        Direction::Backward => {
            let b = reversed(rows.filter(id_below(c)));
            b.take(min(p + 1, b.len() as int))
        },
    }
}

/// Whether a row lies on the other side of cursor `c`: at or below it going
/// forward, at or above it going backward.
pub open spec fn behind_cursor(rows: Seq<DescriptionModel>, c: int, dir: Direction) -> bool {
    match dir {
        Direction::Forward => exists|i: int| 0 <= i < rows.len() && #[trigger] rows[i].id <= c,
        Direction::Backward => exists|i: int| 0 <= i < rows.len() && #[trigger] rows[i].id >= c,
    }
}

/// The page made of the rows `fetched` by a query for at most `p + 1` rows
/// (nearest first), where `behind` tells whether a row lies behind the cursor.
pub open spec fn assembled(fetched: Seq<DescriptionModel>, p: int, dir: Direction, behind: bool) -> PageModel {
    let k = min(p, fetched.len() as int);
    match dir {
        Direction::Forward => PageModel {
            items: fetched.take(k),
            has_prev: behind,
            has_next: fetched.len() > p,
        },
        Direction::Backward => PageModel {
            items: reversed(fetched.take(k)),
            has_prev: fetched.len() > p,
            has_next: behind,
        },
    }
}

/// Builds a page from the rows that a store query returned for it: up to
/// `page_size + 1` rows beyond the cursor, nearest first. The extra row, if
/// any, only tells that a further page exists and is dropped; `behind` tells
/// whether some row lies on the other side of the cursor. Items come out in
/// ascending id order.
pub fn page_from_fetched(
    fetched: Vec<Description>,
    page_size: i32,
    direction: Direction,
    behind: bool,
) -> (r: Result<PageResult, QueryError>)
    ensures
        page_size <= 0 ==> r == Err::<PageResult, QueryError>(QueryError::InvalidArgument),
        page_size > 0 ==> r is Ok && r->Ok_0@ == assembled(
            descriptions_view(fetched@),
            page_size as int,
            direction,
            behind,
        ),
{
    if page_size <= 0 {
        return Err(QueryError::InvalidArgument);
    }
    let ghost all = descriptions_view(fetched@);
    let p = page_size as usize;
    let more = fetched.len() > p;
    let mut items = fetched;
    items.truncate(p);
    let ghost kept = items@;
    assert(descriptions_view(kept) =~= all.take(min(p as int, all.len() as int)));
    match direction {
        Direction::Forward => Ok(PageResult { page: items, has_prev_page: behind, has_next_page: more }),
        Direction::Backward => {
            let mut out: Vec<Description> = Vec::new();
            while items.len() > 0
                invariant
                    items@ == kept.take(items@.len() as int),
                    items@.len() <= kept.len(),
                    out@.len() + items@.len() == kept.len(),
                    descriptions_view(out@) == reversed(descriptions_view(kept)).take(
                        out@.len() as int,
                    ),
                decreases items@.len(),
            {
                let ghost prev = out@;
                let d = items.pop().unwrap();
                out.push(d);
                proof {
                    let want = reversed(descriptions_view(kept)).take(out@.len() as int);
                    assert(out@ == prev.push(d));
                    assert forall|k: int| 0 <= k < out@.len() implies descriptions_view(out@)[k]
                        == want[k] by {
                        if k < out@.len() - 1 {
                            assert(out@[k] == prev[k]);
                            assert(descriptions_view(prev)[k] == reversed(
                                descriptions_view(kept),
                            ).take(prev.len() as int)[k]);
                        }
                    }
                    assert(descriptions_view(out@) =~= want);
                }
            }
            assert(reversed(descriptions_view(kept)).take(out@.len() as int) =~= reversed(
                descriptions_view(kept),
            ));
            Ok(PageResult { page: out, has_prev_page: more, has_next_page: behind })
        },
    }
}

/// A page assembled from what a store query returns is the page that
/// [`page_model`] describes for the same rows, cursor, size and direction.
pub proof fn lemma_fetched_page_agrees(rows: Seq<DescriptionModel>, p: int, c: int, dir: Direction)
    requires
        p >= 1,
    ensures
        assembled(fetched_rows(rows, p, c, dir), p, dir, behind_cursor(rows, c, dir)) == page_model(
            rows,
            p,
            c,
            dir,
        ),
{
    let got = assembled(fetched_rows(rows, p, c, dir), p, dir, behind_cursor(rows, c, dir));
    let want = page_model(rows, p, c, dir);
    match dir {
        Direction::Forward => {
            let f = rows.filter(id_above(c));
            let fetched = f.take(min(p + 1, f.len() as int));
            assert(fetched.take(min(p, fetched.len() as int)) =~= f.take(min(p, f.len() as int)));
        },
        Direction::Backward => {
            let b = rows.filter(id_below(c));
            let rb = reversed(b);
            let fetched = rb.take(min(p + 1, rb.len() as int));
            let k = min(p, b.len() as int);
            assert(reversed(fetched.take(min(p, fetched.len() as int))) =~= b.subrange(
                b.len() - k,
                b.len() as int,
            ));
        },
    }
    assert(got == want);
}

} // verus!
