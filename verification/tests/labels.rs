use minitube::labels::DetectedLabel;
use minitube::labels::Labels;
use minitube::labels::ParentLabel;

fn detected(name: &str, parents: &[&str]) -> DetectedLabel {
    DetectedLabel {
        name: Some(name.to_string()),
        parents: parents
            .iter()
            .map(|p| ParentLabel { name: Some(p.to_string()) })
            .collect(),
    }
}

#[test]
fn labels() {
    let labels = vec![
        detected("Composed Label", &["Complex Tag"]),
        detected("Simple", &["Plain"]),
        DetectedLabel {
            name: Some("Simple".to_string()),
            parents: Vec::new(),
        },
    ];

    let labels = Labels::from(labels);

    let expected = ["complex", "composed", "label", "plain", "simple", "tag"]
        .iter()
        .map(ToOwned::to_owned)
        .collect::<Vec<_>>();

    assert_eq!(expected, labels.labels);
}

#[test]
fn normalize_is_sorted_and_deduplicated() {
    let labels = Labels::from(vec![
        detected("zebra apple", &[]),
        detected("apple", &["Mango zebra"]),
    ]);
    assert_eq!(labels.labels, vec!["apple", "mango", "zebra"]);
}

#[test]
fn normalize_empty_input_gives_empty_output() {
    let labels = Labels::from(Vec::new());
    assert!(labels.labels.is_empty());
}

#[test]
fn normalize_lowercases_tokens() {
    let labels = Labels::from(vec![detected("CAT", &[])]);
    assert_eq!(labels.labels, vec!["cat"]);
}

#[test]
fn label_without_name_contributes_nothing() {
    let labels = Labels::from(vec![DetectedLabel {
        name: None,
        parents: vec![ParentLabel {
            name: Some("Ghosted Parent".to_string()),
        }],
    }]);
    assert!(labels.labels.is_empty());
}

#[test]
fn parent_without_name_contributes_nothing() {
    let labels = Labels::from(vec![DetectedLabel {
        name: Some("Dog".to_string()),
        parents: vec![ParentLabel { name: None }],
    }]);
    assert_eq!(labels.labels, vec!["dog"]);
}

#[test]
fn multi_word_names_are_split_and_blanks_dropped() {
    let labels = Labels::from(vec![detected("  Big   Brown  Bear ", &[])]);
    assert_eq!(labels.labels, vec!["bear", "big", "brown"]);
}

#[test]
fn default_labels_is_empty() {
    let labels = Labels::default();
    assert!(labels.labels.is_empty());
}
