use cohen_calculator::classify::{classify, Classifier, CohortAssignment, SchemaError};
use cohen_calculator::columns::ColumnLookup;
use cohen_calculator::metadata::{Record, SAMPLE_FIELD};
use cohen_calculator::rules::{MatchRule, RuleSet};
use csv::StringRecord;

fn rule(case_field: &str, case_value: &str, control_field: &str, control_value: &str) -> MatchRule {
    MatchRule {
        case_field: case_field.to_string(),
        case_value: case_value.to_string(),
        control_field: control_field.to_string(),
        control_value: control_value.to_string(),
    }
}

fn record(fields: &[(&str, &str)]) -> Record {
    let mut record = Record::new();
    for (name, value) in fields {
        record.insert(name.to_string(), value.to_string());
    }
    record
}

fn lookup(columns: &[&str]) -> ColumnLookup {
    ColumnLookup::new(&StringRecord::from(columns.to_vec()))
}

fn tumor_vs_normal() -> RuleSet {
    let mut rules = RuleSet::new();
    rules.insert("tumor_vs_normal".to_string(), rule("tissue", "tumor", "tissue", "normal"));
    rules
}

fn ids(names: &[&str]) -> Vec<String> {
    names.iter().map(|name| name.to_string()).collect()
}

#[test]
fn sample_field_is_named_sample() {
    assert_eq!(SAMPLE_FIELD, "Sample");
}

#[test]
fn fresh_classifier_has_one_empty_assignment_per_rule() {
    let mut rules = tumor_vs_normal();
    rules.insert("old_vs_young".to_string(), rule("age", "old", "age", "young"));
    let cohorts = Classifier::new(rules).finish();
    assert_eq!(
        cohorts,
        vec![
            CohortAssignment { label: "tumor_vs_normal".to_string(), case: vec![], control: vec![] },
            CohortAssignment { label: "old_vs_young".to_string(), case: vec![], control: vec![] },
        ]
    );
}

#[test]
fn samples_are_sorted_into_case_and_control() {
    let columns = lookup(&["gene_id", "s1", "s2", "s3", "s4"]);
    let records = vec![
        record(&[("Sample", "s1"), ("tissue", "tumor")]),
        record(&[("Sample", "s2"), ("tissue", "normal")]),
        record(&[("Sample", "s3"), ("tissue", "tumor")]),
        record(&[("Sample", "s4"), ("tissue", "normal")]),
    ];
    let cohorts = classify(tumor_vs_normal(), &records, &columns).unwrap();
    assert_eq!(
        cohorts,
        vec![CohortAssignment {
            label: "tumor_vs_normal".to_string(),
            case: ids(&["s1", "s3"]),
            control: ids(&["s2", "s4"]),
        }]
    );
}

#[test]
fn a_sample_that_passes_both_tests_is_in_both_cohorts() {
    let columns = lookup(&["gene_id", "s1", "s2"]);
    let mut rules = RuleSet::new();
    rules.insert("smokers_vs_adults".to_string(), rule("smoker", "yes", "adult", "yes"));
    let records = vec![
        record(&[("Sample", "s1"), ("smoker", "yes"), ("adult", "yes")]),
        record(&[("Sample", "s2"), ("smoker", "no"), ("adult", "yes")]),
    ];
    let cohorts = classify(rules, &records, &columns).unwrap();
    assert_eq!(cohorts[0].case, ids(&["s1"]));
    assert_eq!(cohorts[0].control, ids(&["s1", "s2"]));
}

#[test]
fn a_sample_that_passes_neither_test_is_in_no_cohort() {
    let columns = lookup(&["gene_id", "s1"]);
    let records = vec![record(&[("Sample", "s1"), ("tissue", "blood")])];
    let cohorts = classify(tumor_vs_normal(), &records, &columns).unwrap();
    assert_eq!(cohorts[0].case, ids(&[]));
    assert_eq!(cohorts[0].control, ids(&[]));
}

#[test]
fn comparisons_are_classified_independently() {
    let columns = lookup(&["gene_id", "s1", "s2"]);
    let mut rules = tumor_vs_normal();
    rules.insert("old_vs_young".to_string(), rule("age", "old", "age", "young"));
    let records = vec![
        record(&[("Sample", "s1"), ("tissue", "tumor"), ("age", "young")]),
        record(&[("Sample", "s2"), ("tissue", "normal"), ("age", "old")]),
    ];
    let cohorts = classify(rules, &records, &columns).unwrap();
    assert_eq!(cohorts[0].label, "tumor_vs_normal");
    assert_eq!(cohorts[0].case, ids(&["s1"]));
    assert_eq!(cohorts[0].control, ids(&["s2"]));
    assert_eq!(cohorts[1].label, "old_vs_young");
    assert_eq!(cohorts[1].case, ids(&["s2"]));
    assert_eq!(cohorts[1].control, ids(&["s1"]));
}

#[test]
fn a_sample_without_a_column_is_in_no_cohort() {
    let columns = lookup(&["gene_id", "s1"]);
    let records = vec![
        record(&[("Sample", "s1"), ("tissue", "tumor")]),
        record(&[("Sample", "s9"), ("tissue", "tumor")]),
        record(&[("Sample", "s9"), ("tissue", "normal")]),
    ];
    let cohorts = classify(tumor_vs_normal(), &records, &columns).unwrap();
    assert_eq!(cohorts[0].case, ids(&["s1"]));
    assert_eq!(cohorts[0].control, ids(&[]));
}

#[test]
fn a_sample_with_an_empty_identifier_is_passed_over() {
    let columns = lookup(&["gene_id", "", "s1"]);
    let records = vec![
        record(&[("Sample", ""), ("tissue", "tumor")]),
        record(&[("Sample", "s1"), ("tissue", "normal")]),
    ];
    let cohorts = classify(tumor_vs_normal(), &records, &columns).unwrap();
    assert_eq!(cohorts[0].case, ids(&[]));
    assert_eq!(cohorts[0].control, ids(&["s1"]));
}

#[test]
fn a_record_that_is_passed_over_may_lack_the_tested_fields() {
    let columns = lookup(&["gene_id", "s1"]);
    let records = vec![record(&[("Sample", "s9")]), record(&[("Sample", "")])];
    let cohorts = classify(tumor_vs_normal(), &records, &columns).unwrap();
    assert_eq!(cohorts[0].case, ids(&[]));
    assert_eq!(cohorts[0].control, ids(&[]));
}

#[test]
fn the_first_column_counts_as_a_column() {
    let columns = lookup(&["gene_id", "s1"]);
    let records = vec![record(&[("Sample", "gene_id"), ("tissue", "tumor")])];
    let cohorts = classify(tumor_vs_normal(), &records, &columns).unwrap();
    assert_eq!(cohorts[0].case, ids(&["gene_id"]));
}

#[test]
fn cohorts_follow_the_order_of_the_records_and_keep_repeats() {
    let columns = lookup(&["gene_id", "s1", "s2", "s3"]);
    let records = vec![
        record(&[("Sample", "s3"), ("tissue", "tumor")]),
        record(&[("Sample", "s1"), ("tissue", "tumor")]),
        record(&[("Sample", "s3"), ("tissue", "tumor")]),
        record(&[("Sample", "s2"), ("tissue", "tumor")]),
    ];
    let cohorts = classify(tumor_vs_normal(), &records, &columns).unwrap();
    assert_eq!(cohorts[0].case, ids(&["s3", "s1", "s3", "s2"]));
}

#[test]
fn a_record_without_sample_field_is_refused() {
    let columns = lookup(&["gene_id", "s1"]);
    let classifier = Classifier::new(tumor_vs_normal());
    let result = classifier.add_record(&record(&[("tissue", "tumor")]), &columns);
    assert_eq!(result.err(), Some(SchemaError::MissingSample));
}

#[test]
fn a_record_without_a_tested_field_is_refused() {
    let columns = lookup(&["gene_id", "s1"]);
    let mut rules = RuleSet::new();
    rules.insert("a".to_string(), rule("tissue", "tumor", "tissue", "normal"));
    rules.insert("b".to_string(), rule("age", "old", "sex", "f"));
    rules.insert("c".to_string(), rule("height", "tall", "weight", "light"));
    let classifier = Classifier::new(rules);
    let result =
        classifier.add_record(&record(&[("Sample", "s1"), ("tissue", "tumor"), ("age", "old")]), &columns);
    assert_eq!(
        result.err(),
        Some(SchemaError::MissingField { label: "b".to_string(), field: "sex".to_string() })
    );
}

#[test]
fn the_case_field_is_missed_before_the_control_field() {
    let columns = lookup(&["gene_id", "s1"]);
    let mut rules = RuleSet::new();
    rules.insert("b".to_string(), rule("age", "old", "sex", "f"));
    let classifier = Classifier::new(rules);
    let result = classifier.add_record(&record(&[("Sample", "s1")]), &columns);
    assert_eq!(
        result.err(),
        Some(SchemaError::MissingField { label: "b".to_string(), field: "age".to_string() })
    );
}

#[test]
fn a_batch_fails_at_its_first_faulty_record() {
    let columns = lookup(&["gene_id", "s1", "s2", "s3"]);
    let records = vec![
        record(&[("Sample", "s1"), ("tissue", "tumor")]),
        record(&[("Sample", "s2")]),
        record(&[("tissue", "tumor")]),
    ];
    let error = classify(tumor_vs_normal(), &records, &columns).unwrap_err();
    assert_eq!(error.record, 1);
    assert_eq!(
        error.fault,
        SchemaError::MissingField {
            label: "tumor_vs_normal".to_string(),
            field: "tissue".to_string()
        }
    );
}

#[test]
fn records_are_classified_one_at_a_time() {
    let columns = lookup(&["gene_id", "s1", "s2"]);
    let classifier = Classifier::new(tumor_vs_normal());
    let classifier =
        classifier.add_record(&record(&[("Sample", "s1"), ("tissue", "normal")]), &columns).unwrap();
    let classifier =
        classifier.add_record(&record(&[("Sample", "s2"), ("tissue", "tumor")]), &columns).unwrap();
    let cohorts = classifier.finish();
    assert_eq!(cohorts[0].case, ids(&["s2"]));
    assert_eq!(cohorts[0].control, ids(&["s1"]));
}

#[test]
fn a_value_must_match_exactly() {
    let columns = lookup(&["gene_id", "s1", "s2"]);
    let records = vec![
        record(&[("Sample", "s1"), ("tissue", "Tumor")]),
        record(&[("Sample", "s2"), ("tissue", "tumor ")]),
    ];
    let cohorts = classify(tumor_vs_normal(), &records, &columns).unwrap();
    assert_eq!(cohorts[0].case, ids(&[]));
}
