use desc_loader::description::{Description, Direction, History};
use desc_loader::error::{LoadError, QueryError};
use desc_loader::parse::{ParseCause, ParseError};
use desc_loader::record::Record;
use desc_loader::table::{DescTable, MAX_ID};

const TWO_ROWS: &str = "source_id,title,description,published_at,actual_start_at\nS1,T1,D1,2024-01-01T00:00:00Z,2024-01-02T00:00:00Z\nS2,T2,D2,2024-01-03T00:00:00Z,2024-01-04T00:00:00Z\n";

fn record(n: usize) -> Record {
    Record {
        source_id: format!("S{}", n),
        title: format!("T{}", n),
        description: format!("D{}", n),
        published_at: "2024-01-01T00:00:00Z".to_string(),
        actual_start_at: "2024-01-02T00:00:00Z".to_string(),
    }
}

fn table_of(k: usize) -> DescTable {
    let mut t = DescTable::new();
    t.replace_all((1..=k).map(record).collect()).unwrap();
    t
}

fn ids(rows: &[Description]) -> Vec<i32> {
    rows.iter().map(|d| d.id()).collect()
}

#[test]
fn two_row_scenario_pages_one_at_a_time() {
    let mut t = DescTable::new();
    assert_eq!(t.load_from_stream(TWO_ROWS.as_bytes()), Ok(2));
    let first = t.get_page(1, 0, Direction::Forward).unwrap();
    assert_eq!(first.page.len(), 1);
    assert_eq!(first.page[0].source_id(), "S1");
    assert!(first.has_next_page);
    assert!(!first.has_prev_page);
    let second = t.get_page(1, first.page[0].id(), Direction::Forward).unwrap();
    assert_eq!(second.page.len(), 1);
    assert_eq!(second.page[0].source_id(), "S2");
    assert!(!second.has_next_page);
    assert!(second.has_prev_page);
}

#[test]
fn malformed_input_leaves_table_unchanged() {
    let mut t = table_of(3);
    let before = ids(&t.all_rows());
    let data = format!("{}S3,T3,D3,not-a-date,2024-01-05T00:00:00Z\n", TWO_ROWS);
    let r = t.load_from_stream(data.as_bytes());
    assert_eq!(r, Err(LoadError::Parse(ParseError { row: 4, cause: ParseCause::BadTimestamp })));
    assert_eq!(ids(&t.all_rows()), before);
    assert_eq!(t.all_rows()[0].source_id(), "S1");
    assert_eq!(t.len(), 3);
}

#[test]
fn load_then_single_page_returns_input() {
    let mut t = table_of(2);
    let recs: Vec<Record> = (10..15).map(record).collect();
    assert_eq!(t.replace_all(recs), Ok(5));
    let pg = t.get_page(5, 0, Direction::Forward).unwrap();
    let got: Vec<&str> = pg.page.iter().map(|d| d.source_id()).collect();
    assert_eq!(got, vec!["S10", "S11", "S12", "S13", "S14"]);
    assert_eq!(pg.page[2].title(), "T12");
    assert!(!pg.has_next_page);
    assert!(!pg.has_prev_page);
    let bigger = t.get_page(100, 0, Direction::Forward).unwrap();
    assert_eq!(bigger.page.len(), 5);
    assert!(!bigger.has_next_page);
}

#[test]
fn reload_assigns_fresh_ids() {
    let mut t = DescTable::new();
    t.load_from_stream(TWO_ROWS.as_bytes()).unwrap();
    let first = t.all_rows();
    assert_eq!(ids(&first), vec![1, 2]);
    t.load_from_stream(TWO_ROWS.as_bytes()).unwrap();
    let second = t.all_rows();
    assert_eq!(ids(&second), vec![3, 4]);
    for (a, b) in first.iter().zip(second.iter()) {
        assert_eq!(a.source_id(), b.source_id());
        assert_eq!(a.title(), b.title());
        assert_eq!(a.description(), b.description());
        assert_eq!(a.published_at(), b.published_at());
        assert_eq!(a.actual_start_at(), b.actual_start_at());
    }
}

#[test]
fn failure_on_third_insert_rolls_back() {
    let mut t = DescTable::with_first_id((MAX_ID - 4) as i32);
    t.replace_all((1..=3).map(record).collect()).unwrap();
    let before = ids(&t.all_rows());
    assert_eq!(before, vec![(MAX_ID - 4) as i32, (MAX_ID - 3) as i32, (MAX_ID - 2) as i32]);
    // ids MAX_ID - 1 and MAX_ID are left: the third insert finds none
    let r = t.replace_all((7..=9).map(record).collect());
    assert!(matches!(r, Err(LoadError::Write(_))));
    assert_eq!(ids(&t.all_rows()), before);
    assert_eq!(t.all_rows()[0].source_id(), "S1");
    // two records still fit
    assert_eq!(t.replace_all((7..=8).map(record).collect()), Ok(2));
    assert_eq!(ids(&t.all_rows()), vec![(MAX_ID - 1) as i32, MAX_ID as i32]);
}

#[test]
fn forward_walk_visits_every_row_once() {
    for k in 0..8 {
        for p in 1..5 {
            let t = table_of(k);
            let mut seen = Vec::new();
            let mut cursor = 0;
            loop {
                let pg = t.get_page(p, cursor, Direction::Forward).unwrap();
                assert!(pg.page.len() <= p as usize);
                seen.extend(ids(&pg.page));
                if !pg.has_next_page {
                    break;
                }
                cursor = pg.page.last().unwrap().id();
            }
            assert_eq!(seen, (1..=k as i32).collect::<Vec<_>>());
        }
    }
}

#[test]
fn page_after_last_id_is_empty() {
    let t = table_of(4);
    let pg = t.get_page(3, 4, Direction::Forward).unwrap();
    assert!(pg.page.is_empty());
    assert!(!pg.has_next_page);
    assert!(pg.has_prev_page);
}

#[test]
fn empty_table_first_page() {
    let t = DescTable::new();
    let pg = t.get_page(3, 0, Direction::Forward).unwrap();
    assert!(pg.page.is_empty());
    assert!(!pg.has_next_page);
    assert!(!pg.has_prev_page);
}

#[test]
fn backward_pages() {
    let t = table_of(5);
    let pg = t.get_page(2, 5, Direction::Backward).unwrap();
    assert_eq!(ids(&pg.page), vec![3, 4]);
    assert!(pg.has_prev_page);
    assert!(pg.has_next_page);
    let pg = t.get_page(2, 3, Direction::Backward).unwrap();
    assert_eq!(ids(&pg.page), vec![1, 2]);
    assert!(!pg.has_prev_page);
    assert!(pg.has_next_page);
    let pg = t.get_page(10, 6, Direction::Backward).unwrap();
    assert_eq!(ids(&pg.page), vec![1, 2, 3, 4, 5]);
    assert!(!pg.has_prev_page);
    assert!(!pg.has_next_page);
}

#[test]
fn page_size_below_one_is_invalid() {
    let t = table_of(2);
    assert!(matches!(t.get_page(0, 0, Direction::Forward), Err(QueryError::InvalidArgument)));
    assert!(matches!(t.get_page(-3, 0, Direction::Backward), Err(QueryError::InvalidArgument)));
}

#[test]
fn lookup_by_source_id() {
    let mut t = DescTable::new();
    let mut recs: Vec<Record> = (1..=3).map(record).collect();
    let mut dup = record(2);
    dup.title = "second".to_string();
    recs.push(dup);
    t.replace_all(recs).unwrap();
    let d = t.get_by_source_id("S2").unwrap();
    assert_eq!(d.id(), 2);
    assert_eq!(d.title(), "T2");
    assert!(matches!(t.get_by_source_id("S9"), Err(QueryError::NotFound)));
}

#[test]
fn empty_load_empties_the_table() {
    let mut t = table_of(3);
    assert_eq!(t.replace_all(Vec::new()), Ok(0));
    assert_eq!(t.len(), 0);
    t.replace_all(vec![record(1)]).unwrap();
    assert_eq!(ids(&t.all_rows()), vec![4]);
}

#[test]
fn history_accessors() {
    let h = History { id: 7, path: "/data/in.csv".to_string(), count: 42, loaded_at: "2024-03-01T00:00:00Z".to_string() };
    assert_eq!(h.id(), 7);
    assert_eq!(h.path(), "/data/in.csv");
    assert_eq!(h.count(), 42);
    assert_eq!(h.loaded_at(), "2024-03-01T00:00:00Z");
}

#[test]
fn description_from_record() {
    let d = Description::from_record(9, &record(5));
    assert_eq!(d.id(), 9);
    assert_eq!(d.source_id(), "S5");
    assert_eq!(d.description(), "D5");
    let c = d.duplicate();
    assert_eq!(c.title(), "T5");
    assert_eq!(record(5).duplicate().source_id, "S5");
}
