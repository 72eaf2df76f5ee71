//! Attributes, headers, the memory meter, observers, stubs, and the
//! configuration helpers.
use rivu::attributes::{Attribute, NominalAttribute, NumericAttribute};
use rivu::choices::{
    field_kind_from_name, parse_dump_format, DumpFormat, FieldKind, StreamKind, TaskKind,
};
use rivu::cli::{candidate_spellings, kebab_from_token};
use rivu::instance_header::InstanceHeader;
use rivu::instances::{AttributeValue, Instance};
use rivu::memory::MemoryMeter;
use rivu::observers::NullAttributeClassObserver;
use rivu::split_criteria::{effective_split_confidence, GiniSplitCriterion, ONE_BITS};
use rivu::testing::{ClassifierNoneVotes, OracleClassifier, TrainSpyClassifier, ONE_VOTE_BITS};
use std::collections::HashMap;
use std::sync::Arc;

fn nominal(name: &str, values: &[&str]) -> NominalAttribute {
    let values: Vec<String> = values.iter().map(|v| v.to_string()).collect();
    let mut map = HashMap::new();
    for (i, v) in values.iter().enumerate() {
        map.insert(v.clone(), i);
    }
    NominalAttribute::with_values(name.to_string(), values, map)
}

#[test]
fn nominal_attribute_lookups_and_views() {
    let mut a = nominal("outlook", &["sunny", "overcast", "rainy"]);
    assert_eq!(a.label_to_index.get("overcast"), Some(&1));
    assert_eq!(a.label_to_index.get("stormy"), None);
    assert_eq!(a.index_of_value_mut("overcast"), Some(1));
    assert_eq!(a.index_of_value_mut("stormy"), None);
    assert_eq!(a.get_attribute_values(), vec!["sunny", "overcast", "rainy"]);
    let pairs = a.enumerate_values();
    assert_eq!(pairs.len(), 3);
    assert_eq!(pairs[2], (2, "rainy".to_string()));
}

#[test]
fn arff_representations_write_the_header_lines() {
    let n = Attribute::Nominal(nominal("outlook", &["sunny", "rainy"]));
    assert_eq!(n.arff_representation(), "@attribute outlook { sunny, rainy }");
    let m = Attribute::Numeric(NumericAttribute::new("temp".to_string()));
    assert_eq!(m.arff_representation(), "@attribute temp numeric");
    assert_eq!(n.name(), "outlook");
}

#[test]
fn header_exposes_columns_and_classes() {
    let h = InstanceHeader::new(
        "weather".into(),
        vec![
            Attribute::Numeric(NumericAttribute::new("temp".into())),
            Attribute::Nominal(nominal("play", &["yes", "no"])),
        ],
        1,
    );
    assert_eq!(h.relation_name(), "weather");
    assert_eq!(h.number_of_attributes(), 2);
    assert_eq!(h.class_index(), 1);
    assert_eq!(h.number_of_classes(), 2);
    assert_eq!(h.index_of_attribute("temp"), Some(0));
    assert_eq!(h.index_of_attribute("humidity"), None);
    assert!(h.attribute_at_index(2).is_none());
    match h.attribute_at_index(1) {
        Some(Attribute::Nominal(n)) => assert_eq!(n.name, "play"),
        _ => panic!("expected the class attribute"),
    }
}

#[test]
fn memory_sizes_add_up_structurally() {
    let gini = GiniSplitCriterion::new();
    assert_eq!(gini.calc_memory_size(), std::mem::size_of::<GiniSplitCriterion>());

    let a = Attribute::Numeric(NumericAttribute::new("ab".into()));
    // the descriptor, its name's two bytes, and the seed vector's slots
    let expected = std::mem::size_of::<Attribute>() + 2 + std::mem::size_of::<Vec<u32>>();
    assert_eq!(a.calc_memory_size(), expected);

    let mut meter = MemoryMeter::new();
    assert!(meter.mark(7));
    assert!(!meter.mark(7));
    assert!(meter.mark(8));
}

#[test]
fn null_observer_reports_zero_and_suggests_nothing() {
    let mut obs = NullAttributeClassObserver::new();
    obs.observe_attribute_class(Some(AttributeValue::Nominal(1)), 0, 1.0f64.to_bits());
    let p = obs.probability_of_attribute_value_given_class(Some(AttributeValue::Nominal(1)), 0);
    assert_eq!(p, Some(0.0f64.to_bits()));
    assert_eq!(f64::from_bits(p.unwrap()), 0.0);
    let s: Option<u8> = obs.get_best_evaluated_split_suggestion();
    assert!(s.is_none());
}

fn labeled_instance(class: usize, class_index: usize, width: usize) -> Instance {
    let mut cells = vec![Some(AttributeValue::Nominal(0)); width];
    cells[class_index] = Some(AttributeValue::Nominal(class));
    Instance::new(cells, class_index, 1.0f64.to_bits())
}

#[test]
fn oracle_votes_fully_for_the_true_class() {
    let mut oracle = OracleClassifier::default();
    let h = InstanceHeader::new(
        "r".into(),
        vec![
            Attribute::Numeric(NumericAttribute::new("x".into())),
            Attribute::Nominal(nominal("class", &["a", "b", "c"])),
        ],
        1,
    );
    oracle.set_model_context(Arc::new(h));
    let inst = labeled_instance(2, 1, 2);
    let votes = oracle.get_votes_for_instance(&inst);
    assert_eq!(votes.len(), 3);
    assert_eq!(votes[2], ONE_VOTE_BITS);
    assert_eq!(f64::from_bits(votes[2]), 1.0);
    assert_eq!(votes[0], 0);
    assert_eq!(votes[1], 0);
}

#[test]
fn none_votes_classifier_abstains() {
    let c = ClassifierNoneVotes::default();
    let inst = labeled_instance(0, 0, 1);
    assert!(c.get_votes_for_instance(&inst).is_empty());
}

#[test]
fn train_spy_counts_each_training_call() {
    let (mut spy, handle) = TrainSpyClassifier::new();
    let inst = labeled_instance(1, 0, 1);
    assert_eq!(handle.count(), 0);
    for _ in 0..37 {
        spy.train_on_instance(&inst);
    }
    assert_eq!(handle.count(), 37);
    assert_eq!(spy.trained, 37);
}

#[test]
fn streamkind_messages_exist() {
    assert_eq!(StreamKind::ArffFile.get_message(), Some("Arff File Stream"));
    assert_eq!(StreamKind::SeaGenerator.get_message(), Some("SEA Generator"));
    assert!(StreamKind::AgrawalGenerator.get_detailed_message().is_some());
}

#[test]
fn kind_names_serialize_in_kebab_case() {
    assert_eq!(StreamKind::SeaGenerator.as_str(), "sea-generator");
    assert_eq!(TaskKind::EvaluatePrequential.as_str(), "evaluate-prequential");
}

#[test]
fn dump_format_parses_its_three_names() {
    assert_eq!(parse_dump_format(" CSV "), Some(DumpFormat::Csv));
    assert_eq!(parse_dump_format("tsv"), Some(DumpFormat::Tsv));
    assert_eq!(parse_dump_format("Json"), Some(DumpFormat::Json));
    assert_eq!(parse_dump_format("xml"), None);
    assert_eq!(DumpFormat::default(), DumpFormat::Csv);
}

#[test]
fn field_kinds_follow_the_schema_names() {
    assert_eq!(field_kind_from_name("string"), Some(FieldKind::Text));
    assert_eq!(field_kind_from_name("integer"), Some(FieldKind::Integer));
    assert_eq!(field_kind_from_name("number"), Some(FieldKind::Number));
    assert_eq!(field_kind_from_name("boolean"), Some(FieldKind::Boolean));
    assert_eq!(field_kind_from_name("array"), None);
}

#[test]
fn kebab_case_splits_camel_words_and_maps_underscores() {
    assert_eq!(kebab_from_token("HoeffdingTree"), "hoeffding-tree");
    assert_eq!(kebab_from_token("naive_bayes"), "naive-bayes");
    assert_eq!(kebab_from_token("SEA"), "sea");
    assert_eq!(kebab_from_token(""), "");
}

#[test]
fn candidate_spellings_cover_the_accepted_forms() {
    let c = candidate_spellings("  HoeffdingTree ");
    assert!(c.contains(&"HoeffdingTree".to_string()));
    assert!(c.contains(&"hoeffdingtree".to_string()));
    assert!(c.contains(&"hoeffding-tree".to_string()));
    // pairwise distinct
    for i in 0..c.len() {
        for j in i + 1..c.len() {
            assert_ne!(c[i], c[j]);
        }
    }
    assert!(candidate_spellings("   ").is_empty());
}

#[test]
fn zero_split_confidence_reads_as_the_floor() {
    let floor = effective_split_confidence(0.0f64.to_bits());
    assert_eq!(f64::from_bits(floor), 1e-7);
    assert_eq!(effective_split_confidence((-0.0f64).to_bits()), floor);
    let set = 0.05f64.to_bits();
    assert_eq!(effective_split_confidence(set), set);
}

#[test]
fn gini_merit_range_is_one() {
    let g = GiniSplitCriterion::new();
    let r = g.get_range_of_merit_bits(&vec![1.0f64.to_bits(), 2.0f64.to_bits()]);
    assert_eq!(r, ONE_BITS);
    assert_eq!(f64::from_bits(r), 1.0);
}
