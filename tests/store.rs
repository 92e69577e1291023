use desc_loader::description::{Description, Direction};
use desc_loader::error::{LoadError, QueryError};
use desc_loader::load::{load_failure, next_load_step, LoadStep};
use desc_loader::paging::page_from_fetched;
use desc_loader::path::db_path;

fn row(id: i32) -> Description {
    Description {
        id,
        source_id: format!("S{}", id),
        title: String::new(),
        description: String::new(),
        published_at: "2024-01-01T00:00:00Z".to_string(),
        actual_start_at: "2024-01-01T00:00:00Z".to_string(),
    }
}

#[test]
fn fetched_forward_drops_extra_row() {
    let pg = page_from_fetched(vec![row(3), row(4), row(5)], 2, Direction::Forward, true).unwrap();
    assert_eq!(pg.page.iter().map(|d| d.id).collect::<Vec<_>>(), vec![3, 4]);
    assert!(pg.has_next_page);
    assert!(pg.has_prev_page);
    let pg = page_from_fetched(vec![row(1), row(2)], 2, Direction::Forward, false).unwrap();
    assert_eq!(pg.page.len(), 2);
    assert!(!pg.has_next_page);
    assert!(!pg.has_prev_page);
}

#[test]
fn fetched_backward_comes_out_ascending() {
    let pg = page_from_fetched(vec![row(5), row(4), row(3)], 2, Direction::Backward, true).unwrap();
    assert_eq!(pg.page.iter().map(|d| d.id).collect::<Vec<_>>(), vec![4, 5]);
    assert!(pg.has_prev_page);
    assert!(pg.has_next_page);
    let pg = page_from_fetched(vec![row(2), row(1)], 5, Direction::Backward, false).unwrap();
    assert_eq!(pg.page.iter().map(|d| d.id).collect::<Vec<_>>(), vec![1, 2]);
    assert!(!pg.has_prev_page);
    assert!(!pg.has_next_page);
}

#[test]
fn fetched_with_bad_size() {
    assert!(matches!(page_from_fetched(vec![], 0, Direction::Forward, false), Err(QueryError::InvalidArgument)));
}

#[test]
fn load_steps_all_succeed() {
    let mut step = LoadStep::Begin;
    let mut trace = vec![step];
    while step != LoadStep::Done {
        step = next_load_step(step, 2, true);
        trace.push(step);
    }
    assert_eq!(
        trace,
        vec![LoadStep::Begin, LoadStep::DeleteAll, LoadStep::Insert(0), LoadStep::Insert(1), LoadStep::Commit, LoadStep::Done]
    );
    assert_eq!(next_load_step(LoadStep::DeleteAll, 0, true), LoadStep::Commit);
}

#[test]
fn load_steps_failure_rolls_back() {
    assert_eq!(next_load_step(LoadStep::Begin, 3, false), LoadStep::Done);
    assert_eq!(next_load_step(LoadStep::DeleteAll, 3, false), LoadStep::Rollback);
    assert_eq!(next_load_step(LoadStep::Insert(1), 3, false), LoadStep::Rollback);
    assert_eq!(next_load_step(LoadStep::Rollback, 3, true), LoadStep::Done);
    assert_eq!(load_failure(LoadStep::Begin, "down".to_string()), LoadError::Connection("down".to_string()));
    assert_eq!(load_failure(LoadStep::Insert(1), "full".to_string()), LoadError::Write("full".to_string()));
}

#[test]
fn db_path_in_data_dir() {
    assert_eq!(db_path("/var/app"), "sqlite:///var/app/data.db");
    assert_eq!(db_path("/var/app/"), "sqlite:///var/app/data.db");
}
