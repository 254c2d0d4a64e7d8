use cohen_calculator::aggregate::{select, Aggregator, CohortCells, RowCells, StreamError, FEATURE_COLUMN};
use cohen_calculator::resolve::{ColumnIndex, Side};
use csv::StringRecord;

fn index(label: &str, case: &[usize], control: &[usize]) -> ColumnIndex {
    ColumnIndex { label: label.to_string(), case: case.to_vec(), control: control.to_vec() }
}

fn texts(cells: &[&str]) -> Vec<String> {
    cells.iter().map(|cell| cell.to_string()).collect()
}

fn two_comparisons() -> Aggregator {
    Aggregator::new(vec![index("first", &[1, 3], &[2, 4]), index("second", &[4], &[1, 1])])
}

#[test]
fn the_feature_column_is_named_feature_id() {
    assert_eq!(FEATURE_COLUMN, "feature_id");
}

#[test]
fn cells_are_selected_in_the_order_of_the_positions() {
    let row = StringRecord::from(vec!["g1", "1.5", "2", "3e0", "-4"]);
    assert_eq!(select(&row, &vec![3, 1, 3, 0]), Ok(texts(&["3e0", "1.5", "3e0", "g1"])));
    assert_eq!(select(&row, &vec![]), Ok(texts(&[])));
}

#[test]
fn the_first_position_without_a_field_is_reported_by_its_place() {
    let row = StringRecord::from(vec!["g1", "1", "2"]);
    assert_eq!(select(&row, &vec![1, 2, 3, 7]), Err(2));
    assert_eq!(select(&StringRecord::new(), &vec![0]), Err(0));
}

#[test]
fn the_header_names_the_feature_column_and_then_the_comparisons() {
    let mut aggregator = two_comparisons();
    assert_eq!(aggregator.width(), 2);
    assert_eq!(aggregator.header(), Ok(texts(&["feature_id", "first", "second"])));
}

#[test]
fn the_header_of_no_comparison_is_the_feature_column_alone() {
    let mut aggregator = Aggregator::new(Vec::new());
    assert_eq!(aggregator.width(), 0);
    assert_eq!(aggregator.header(), Ok(texts(&["feature_id"])));
    assert_eq!(aggregator.data_row("g1".to_string(), Vec::new()), Ok(texts(&["g1"])));
}

#[test]
fn the_header_is_handed_out_once() {
    let mut aggregator = two_comparisons();
    assert!(aggregator.header().is_ok());
    assert_eq!(aggregator.header(), Err(StreamError::HeaderRepeated));
    assert_eq!(aggregator.header(), Err(StreamError::HeaderRepeated));
}

#[test]
fn no_data_row_comes_before_the_header() {
    let mut aggregator = two_comparisons();
    assert_eq!(
        aggregator.data_row("g1".to_string(), texts(&["0.5", "1"])),
        Err(StreamError::HeaderPending)
    );
    assert!(aggregator.header().is_ok());
    assert_eq!(
        aggregator.data_row("g1".to_string(), texts(&["0.5", "1"])),
        Ok(texts(&["g1", "0.5", "1"]))
    );
}

#[test]
fn a_data_row_holds_one_statistic_per_comparison() {
    let mut aggregator = two_comparisons();
    assert!(aggregator.header().is_ok());
    assert_eq!(
        aggregator.data_row("g1".to_string(), texts(&["0.5"])),
        Err(StreamError::WrongWidth { expected: 2, found: 1 })
    );
    assert_eq!(
        aggregator.data_row("g1".to_string(), texts(&["0.5", "1", "2"])),
        Err(StreamError::WrongWidth { expected: 2, found: 3 })
    );
}

#[test]
fn every_data_row_follows_the_header() {
    let mut aggregator = two_comparisons();
    let header = aggregator.header().unwrap();
    let first = aggregator.data_row("g1".to_string(), texts(&["a1", "b1"])).unwrap();
    let second = aggregator.data_row("g2".to_string(), texts(&["a2", "b2"])).unwrap();
    assert_eq!(header, texts(&["feature_id", "first", "second"]));
    assert_eq!(first, texts(&["g1", "a1", "b1"]));
    assert_eq!(second, texts(&["g2", "a2", "b2"]));
    assert_eq!(first.len(), header.len());
    assert_eq!(second.len(), header.len());
}

#[test]
fn each_comparison_reads_the_cells_of_its_cohorts() {
    let aggregator = two_comparisons();
    let row = StringRecord::from(vec!["g1", "1", "2", "3", "4"]);
    assert_eq!(
        aggregator.cells(&row),
        Ok(RowCells {
            feature: "g1".to_string(),
            cohorts: vec![
                CohortCells { case: texts(&["1", "3"]), control: texts(&["2", "4"]) },
                CohortCells { case: texts(&["4"]), control: texts(&["1", "1"]) },
            ],
        })
    );
}

#[test]
fn cells_are_read_before_and_after_the_header_alike() {
    let mut aggregator = two_comparisons();
    let row = StringRecord::from(vec!["g1", "1", "2", "3", "4"]);
    let before = aggregator.cells(&row);
    assert!(aggregator.header().is_ok());
    assert_eq!(aggregator.cells(&row), before);
}

#[test]
fn a_row_without_fields_has_no_feature() {
    let aggregator = Aggregator::new(Vec::new());
    assert_eq!(aggregator.cells(&StringRecord::new()), Err(StreamError::MissingFeature));
    assert_eq!(two_comparisons().cells(&StringRecord::new()), Err(StreamError::MissingFeature));
}

#[test]
fn a_short_row_misses_a_case_cell() {
    let aggregator = two_comparisons();
    let row = StringRecord::from(vec!["g1", "1", "2"]);
    assert_eq!(
        aggregator.cells(&row),
        Err(StreamError::MissingCell { label: "first".to_string(), side: Side::Case, position: 3 })
    );
}

#[test]
fn a_short_row_misses_a_control_cell() {
    let aggregator = two_comparisons();
    let row = StringRecord::from(vec!["g1", "1", "2", "3"]);
    assert_eq!(
        aggregator.cells(&row),
        Err(StreamError::MissingCell {
            label: "first".to_string(),
            side: Side::Control,
            position: 4,
        })
    );
}

#[test]
fn a_later_comparison_misses_a_cell() {
    let aggregator =
        Aggregator::new(vec![index("first", &[1], &[2]), index("second", &[2], &[1, 9, 8])]);
    let row = StringRecord::from(vec!["g1", "1", "2"]);
    assert_eq!(
        aggregator.cells(&row),
        Err(StreamError::MissingCell {
            label: "second".to_string(),
            side: Side::Control,
            position: 9,
        })
    );
}

#[test]
fn stream_errors_have_messages() {
    assert_eq!(StreamError::HeaderRepeated.message(), "The header row was already written");
    assert_eq!(StreamError::HeaderPending.message(), "The header row is not written yet");
    assert_eq!(StreamError::MissingFeature.message(), "Matrix row has no feature identifier");
    assert_eq!(
        StreamError::MissingCell { label: "first".to_string(), side: Side::Control, position: 12 }
            .message(),
        "Matrix row has no field 12, which the control cohort of first reads"
    );
    assert_eq!(
        StreamError::WrongWidth { expected: 20, found: 3 }.message(),
        "Got 3 statistics for 20 comparisons"
    );
}
