use rudden::persistence::{self, MetaError};
use rudden::task::Importance;

// Reading metadata that does not exist yet yields a zero counter.
#[test]
fn test_read_metadata_no_file() {
    let meta = persistence::read_metadata(None);

    assert_eq!(meta.unwrap(), 0);
}

// A rendered metadata document reads back to the same counter.
#[test]
fn test_write_and_read_metadata() {
    let content = persistence::render_metadata(42);

    let meta_read = persistence::read_metadata(Some(&content));

    assert_eq!(meta_read.unwrap(), 42);
}

// Sequential draws hand out 1, 2, 3 and persist the last value.
#[test]
fn test_get_next_id_sequentially() {
    let (id1, m1) = persistence::get_next_id(None).unwrap();
    let (id2, m2) = persistence::get_next_id(Some(&m1)).unwrap();
    let (id3, m3) = persistence::get_next_id(Some(&m2)).unwrap();

    assert_eq!(id1, 1);
    assert_eq!(id2, 2);
    assert_eq!(id3, 3);

    let meta = persistence::read_metadata(Some(&m3));
    assert_eq!(meta.unwrap(), 3);
}

// The fast add encodes exactly the lines that get appended.
#[test]
fn test_add_task_fast_appends_correctly() {
    let first = persistence::add_task_fast(None, "First task", Importance::Urgent).unwrap();
    let second = persistence::add_task_fast(
        Some(&first.meta),
        "Second task, with comma",
        Importance::Normal,
    )
    .unwrap();

    let lines = vec![first.line, second.line];
    assert_eq!(lines.len(), 2);
    assert_eq!(lines[0], "1,First task,pending,urgent");
    assert_eq!(lines[1], "2,Second task, with comma,pending,normal");
}

// Ids survive a simulated restart: only the metadata text carries over,
// and the counter never goes back.
#[test]
fn test_ids_survive_restart() {
    let (id1, m1) = persistence::get_next_id(None).unwrap();
    assert_eq!(id1, 1);

    // "Restart": all that remains of the first process is the document.
    let carried_over = m1.clone();
    let (id2, m2) = persistence::get_next_id(Some(&carried_over)).unwrap();
    assert_eq!(id2, 2);

    let (id3, _) = persistence::get_next_id(Some(&m2)).unwrap();
    assert_eq!(id3, 3);
}

// The counter is independent of the surviving records: a draw consults
// the metadata alone, so ids removed from the data file are never reused.
#[test]
fn test_counter_ignores_data_file() {
    let first = persistence::add_task_fast(None, "only record", Importance::Normal).unwrap();
    // Pretend the data file was emptied by hand; the metadata stands.
    let next = persistence::add_task_fast(Some(&first.meta), "later record", Importance::Normal)
        .unwrap();
    assert_eq!(next.id, 2);
}

#[test]
fn test_read_metadata_rejects_bad_documents() {
    assert_eq!(persistence::read_metadata(Some("garbage")), Err(MetaError::Invalid));
    assert_eq!(persistence::read_metadata(Some("{}")), Err(MetaError::Invalid));
    assert_eq!(
        persistence::read_metadata(Some("{\"last_id\": -1}")),
        Err(MetaError::Invalid)
    );
    // A counter too large for an id is refused rather than truncated.
    assert_eq!(
        persistence::read_metadata(Some("{\"last_id\": 4294967296}")),
        Err(MetaError::Invalid)
    );
}

#[test]
fn test_get_next_id_exhausted() {
    let content = persistence::render_metadata(u32::MAX);

    let r = persistence::get_next_id(Some(&content));

    assert_eq!(r, Err(MetaError::IdExhausted));
}

// Extra fields in the metadata document are ignored, as a lenient JSON
// reader has it.
#[test]
fn test_read_metadata_ignores_extra_fields() {
    let meta = persistence::read_metadata(Some("{\"last_id\": 7, \"note\": \"kept by hand\"}"));

    assert_eq!(meta.unwrap(), 7);
}
