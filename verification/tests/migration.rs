use annotations::migration::{has_annotation_prefix, relabel, retitle, Label};

fn label(id: u64, name: &str) -> Label {
    Label { id, name: name.to_string() }
}

#[test]
fn validation_titles_get_the_annotation_prefix() {
    assert_eq!(retitle("[Validation] Typo here"), Some("[Annotation] Typo here".to_string()));
    assert_eq!(retitle("[Validation]"), Some("[Annotation]".to_string()));
}

#[test]
fn every_validation_prefix_in_the_title_is_replaced() {
    assert_eq!(
        retitle("[Validation] see [Validation] 7"),
        Some("[Annotation] see [Annotation] 7".to_string())
    );
}

#[test]
fn other_titles_are_left_alone() {
    assert_eq!(retitle("[Annotation] Typo here"), None);
    assert_eq!(retitle("Typo [Validation]"), None);
    assert_eq!(retitle(" [Validation] x"), None);
    assert_eq!(retitle("[validation] x"), None);
    assert_eq!(retitle(""), None);
}

#[test]
fn retitle_agrees_with_std() {
    let titles = [
        "[Validation] a",
        "[Validation][Validation]",
        "[Validation] [Validatio] [Validation]x",
        "[[Validation]]",
        "[Validation",
        "x",
    ];
    for t in titles {
        let expected = if t.starts_with("[Validation]") {
            Some(t.replace("[Validation]", "[Annotation]"))
        } else {
            None
        };
        assert_eq!(retitle(t), expected, "{:?}", t);
    }
}

#[test]
fn the_validation_label_gives_way_to_the_annotation_label() {
    let labels = vec![label(1, "bug"), label(2, "validation"), label(3, "docs")];
    assert_eq!(
        relabel(&labels, &label(2, "validation"), &label(9, "annotation")),
        vec!["bug".to_string(), "annotation".to_string(), "docs".to_string()]
    );
}

#[test]
fn labels_are_told_apart_by_their_id() {
    let labels = vec![label(1, "validation"), label(2, "other"), label(2, "again")];
    assert_eq!(
        relabel(&labels, &label(2, "validation"), &label(9, "annotation")),
        vec!["validation".to_string(), "annotation".to_string(), "annotation".to_string()]
    );
}

#[test]
fn labels_without_the_validation_label_keep_their_names() {
    let labels = vec![label(1, "bug"), label(3, "docs")];
    assert_eq!(
        relabel(&labels, &label(2, "validation"), &label(9, "annotation")),
        vec!["bug".to_string(), "docs".to_string()]
    );
    assert_eq!(
        relabel(&Vec::new(), &label(2, "validation"), &label(9, "annotation")),
        Vec::<String>::new()
    );
}

#[test]
fn only_issues_of_the_annotation_workflow_are_relabelled() {
    assert!(has_annotation_prefix("[Annotation] x"));
    assert!(has_annotation_prefix("[Annotation]"));
    assert!(!has_annotation_prefix("[Validation] x"));
    assert!(!has_annotation_prefix(" [Annotation] x"));
    assert!(!has_annotation_prefix("[annotation] x"));
    assert!(!has_annotation_prefix("[Annotation"));
    assert!(!has_annotation_prefix(""));
}

#[test]
fn labels_can_be_cloned() {
    assert_eq!(label(2, "validation").clone(), label(2, "validation"));
}
