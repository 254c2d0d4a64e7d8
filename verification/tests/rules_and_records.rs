use cohen_calculator::columns::ColumnLookup;
use cohen_calculator::metadata::Record;
use cohen_calculator::rules::{Comparison, MatchRule, RuleSet};
use csv::StringRecord;

fn rule_of(value: &str) -> MatchRule {
    MatchRule {
        case_field: "tissue".to_string(),
        case_value: value.to_string(),
        control_field: "tissue".to_string(),
        control_value: "normal".to_string(),
    }
}

#[test]
fn new_rule_set_is_empty() {
    let rules = RuleSet::new();
    assert_eq!(rules.len(), 0);
    assert_eq!(rules.get(0), None);
    assert_eq!(rules.find(&"a".to_string()), None);
}

#[test]
fn rules_keep_the_order_of_their_first_insertion() {
    let mut rules = RuleSet::new();
    rules.insert("b".to_string(), rule_of("x"));
    rules.insert("a".to_string(), rule_of("y"));
    rules.insert("c".to_string(), rule_of("z"));
    assert_eq!(rules.len(), 3);
    assert_eq!(rules.get(0).unwrap().label, "b");
    assert_eq!(rules.get(1).unwrap().label, "a");
    assert_eq!(rules.get(2).unwrap().label, "c");
    assert_eq!(rules.get(3), None);
    assert_eq!(rules.find(&"a".to_string()), Some(1));
    assert_eq!(rules.find(&"d".to_string()), None);
}

#[test]
fn a_second_rule_for_a_label_replaces_the_first_in_place() {
    let mut rules = RuleSet::new();
    rules.insert("a".to_string(), rule_of("x"));
    rules.insert("b".to_string(), rule_of("y"));
    rules.insert("a".to_string(), rule_of("z"));
    assert_eq!(rules.len(), 2);
    assert_eq!(rules.get(0), Some(&Comparison { label: "a".to_string(), rule: rule_of("z") }));
    assert_eq!(rules.get(1), Some(&Comparison { label: "b".to_string(), rule: rule_of("y") }));
}

#[test]
fn a_record_maps_field_names_to_text() {
    let mut record = Record::new();
    assert_eq!(record.get("Sample"), None);
    record.insert("Sample".to_string(), "s1".to_string());
    record.insert("tissue".to_string(), "tumor".to_string());
    assert_eq!(record.get("Sample"), Some(&"s1".to_string()));
    assert_eq!(record.get("tissue"), Some(&"tumor".to_string()));
    assert_eq!(record.get("sample"), None);
}

#[test]
fn a_field_set_twice_holds_the_later_text() {
    let mut record = Record::new();
    record.insert("tissue".to_string(), "tumor".to_string());
    record.insert("tissue".to_string(), "normal".to_string());
    assert_eq!(record.get("tissue"), Some(&"normal".to_string()));
}

#[test]
fn columns_are_found_by_name() {
    let columns = ColumnLookup::new(&StringRecord::from(vec!["gene_id", "s1", "s2"]));
    assert_eq!(columns.position("gene_id"), Some(0));
    assert_eq!(columns.position("s1"), Some(1));
    assert_eq!(columns.position("s2"), Some(2));
    assert_eq!(columns.position("s3"), None);
    assert!(columns.contains("s2"));
    assert!(!columns.contains("S2"));
}

#[test]
fn a_repeated_column_name_is_found_at_its_first_position() {
    let columns = ColumnLookup::new(&StringRecord::from(vec!["gene_id", "s1", "s2", "s1", "s2"]));
    assert_eq!(columns.position("s1"), Some(1));
    assert_eq!(columns.position("s2"), Some(2));
}

#[test]
fn an_empty_header_has_no_column() {
    let columns = ColumnLookup::new(&StringRecord::new());
    assert_eq!(columns.position(""), None);
    assert!(!columns.contains("gene_id"));
}
