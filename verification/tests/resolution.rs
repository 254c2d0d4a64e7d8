use cohen_calculator::classify::CohortAssignment;
use cohen_calculator::columns::ColumnLookup;
use cohen_calculator::resolve::{resolve, resolve_cohort, ColumnIndex, ResolutionError, Side};
use csv::StringRecord;

fn header(columns: &[&str]) -> ColumnLookup {
    ColumnLookup::new(&StringRecord::from(columns.to_vec()))
}

fn names(ids: &[&str]) -> Vec<String> {
    ids.iter().map(|id| id.to_string()).collect()
}

fn cohort(label: &str, case: &[&str], control: &[&str]) -> CohortAssignment {
    CohortAssignment { label: label.to_string(), case: names(case), control: names(control) }
}

#[test]
fn positions_follow_the_order_of_the_cohort() {
    let columns = header(&["gene_id", "c", "a", "x", "b"]);
    assert_eq!(resolve_cohort(&names(&["a", "b", "c"]), &columns), Ok(vec![2, 4, 1]));
}

#[test]
fn an_identifier_that_occurs_twice_is_resolved_twice() {
    let columns = header(&["gene_id", "a", "b"]);
    assert_eq!(resolve_cohort(&names(&["b", "a", "b"]), &columns), Ok(vec![2, 1, 2]));
}

#[test]
fn an_empty_cohort_resolves_to_no_position() {
    let columns = header(&["gene_id", "a"]);
    assert_eq!(resolve_cohort(&names(&[]), &columns), Ok(vec![]));
}

#[test]
fn a_repeated_column_is_resolved_to_its_first_position() {
    let columns = header(&["gene_id", "a", "b", "a"]);
    assert_eq!(resolve_cohort(&names(&["a"]), &columns), Ok(vec![1]));
}

#[test]
fn the_first_missing_identifier_is_reported_by_its_place() {
    let columns = header(&["gene_id", "a", "b"]);
    assert_eq!(resolve_cohort(&names(&["a", "y", "b", "z"]), &columns), Err(1));
}

#[test]
fn every_cohort_of_every_comparison_is_resolved() {
    let columns = header(&["gene_id", "s1", "s2", "s3", "s4"]);
    let cohorts = vec![
        cohort("first", &["s1", "s3"], &["s2", "s4"]),
        cohort("second", &["s4"], &["s4", "s1"]),
    ];
    assert_eq!(
        resolve(&cohorts, &columns),
        Ok(vec![
            ColumnIndex { label: "first".to_string(), case: vec![1, 3], control: vec![2, 4] },
            ColumnIndex { label: "second".to_string(), case: vec![4], control: vec![4, 1] },
        ])
    );
}

#[test]
fn no_comparison_resolves_to_no_index() {
    let columns = header(&["gene_id"]);
    assert_eq!(resolve(&Vec::new(), &columns), Ok(Vec::new()));
}

#[test]
fn a_missing_case_identifier_is_named_with_cohort_and_comparison() {
    let columns = header(&["gene_id", "s1", "s2"]);
    let cohorts = vec![cohort("first", &["s1"], &["s2"]), cohort("second", &["s1", "s7"], &["s8"])];
    assert_eq!(
        resolve(&cohorts, &columns),
        Err(ResolutionError {
            label: "second".to_string(),
            side: Side::Case,
            identifier: "s7".to_string(),
        })
    );
}

#[test]
fn a_missing_control_identifier_is_named_with_cohort_and_comparison() {
    let columns = header(&["gene_id", "s1", "s2"]);
    let cohorts = vec![cohort("first", &["s1"], &["s2", "s9", "s8"])];
    assert_eq!(
        resolve(&cohorts, &columns),
        Err(ResolutionError {
            label: "first".to_string(),
            side: Side::Control,
            identifier: "s9".to_string(),
        })
    );
}

#[test]
fn the_message_names_the_missing_identifier() {
    let error = ResolutionError {
        label: "tumor_vs_normal".to_string(),
        side: Side::Case,
        identifier: "s7".to_string(),
    };
    assert_eq!(error.message(), "Missing case label s7 in comparison tumor_vs_normal");
    let error = ResolutionError {
        label: "tumor_vs_normal".to_string(),
        side: Side::Control,
        identifier: "s9".to_string(),
    };
    assert_eq!(error.message(), "Missing control label s9 in comparison tumor_vs_normal");
}

#[test]
fn the_cohorts_have_names() {
    assert_eq!(Side::Case.as_str(), "case");
    assert_eq!(Side::Control.as_str(), "control");
}
