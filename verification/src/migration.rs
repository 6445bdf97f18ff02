//! Moving issues of the validation workflow over to the annotation workflow.

use crate::text::{begins_with, replace_all, replaced, starts_with};
use vstd::prelude::*;

verus! {

/// A label of the tracker.
#[derive(Debug, PartialEq, Eq)]
pub struct Label {
    pub id: u64,
    pub name: String,
}

pub struct LabelView {
    pub id: u64,
    pub name: Seq<char>,
}

impl View for Label {
    type V = LabelView;

    open spec fn view(&self) -> LabelView {
        LabelView { id: self.id, name: self.name@ }
    }
}

impl Clone for Label {
    fn clone(&self) -> (r: Self)
        ensures
            r@ == self@,
    {
        Label { id: self.id, name: self.name.clone() }
    }
}

/// The views of labels.
pub open spec fn label_views(labels: Seq<Label>) -> Seq<LabelView> {
    labels.map_values(|l: Label| l@)
}

/// The views of names.
pub open spec fn name_views(names: Seq<String>) -> Seq<Seq<char>> {
    names.map_values(|n: String| n@)
}

/// The title prefix of the validation workflow.
pub open spec fn validation_prefix() -> Seq<char> {
    "[Validation]"@
}

/// The title prefix of the annotation workflow.
pub open spec fn annotation_prefix() -> Seq<char> {
    "[Annotation]"@
}

/// The new title of an issue of the validation workflow; none for other issues.
pub open spec fn retitled(title: Seq<char>) -> Option<Seq<char>> {
    if begins_with(title, validation_prefix()) {
        Some(replaced(title, validation_prefix(), annotation_prefix()))
    } else {
        None
    }
}

/// The names of `labels` with `annotation` in the place of each label whose id is `validation`.
pub open spec fn renamed(labels: Seq<LabelView>, validation: u64, annotation: LabelView) -> Seq<
    Seq<char>,
> {
    labels.map_values(
        |l: LabelView|
            if l.id == validation {
                annotation.name
            } else {
                l.name
            },
    )
}

/// The title that an issue is to get: for an issue whose title begins with
/// the validation prefix, the title with the annotation prefix in the place
/// of each validation prefix.
pub fn retitle(title: &str) -> (r: Option<String>)
    ensures
        match r {
            Some(new_title) => retitled(title@) == Some(new_title@),
            None => retitled(title@) is None,
        },
{
    if starts_with(title, "[Validation]") {
        Some(replace_all(title, "[Validation]", "[Annotation]"))
    } else {
        None
    }
}

/// Whether the title is that of an issue of the annotation workflow: only
/// such an issue is given new labels.
pub fn has_annotation_prefix(title: &str) -> (r: bool)
    ensures
        r == begins_with(title@, annotation_prefix()),
{
    starts_with(title, "[Annotation]")
}

/// The label names that an issue is to get: the names of its labels, with
/// the annotation label in the place of the validation label.
pub fn relabel(labels: &Vec<Label>, validation: &Label, annotation: &Label) -> (r: Vec<String>)
    ensures
        name_views(r@) == renamed(label_views(labels@), validation.id, annotation@),
{
    let ghost wanted = renamed(label_views(labels@), validation.id, annotation@);
    let mut names: Vec<String> = Vec::new();
    let mut i: usize = 0;
    assert(name_views(names@) =~= wanted.take(0));
    while i < labels.len()
        invariant
            i <= labels.len(),
            wanted == renamed(label_views(labels@), validation.id, annotation@),
            name_views(names@) == wanted.take(i as int),
        decreases labels.len() - i,
    {
        let ghost before = names@;
        let name = if labels[i].id == validation.id {
            annotation.name.clone()
        } else {
            labels[i].name.clone()
        };
        names.push(name);
        proof {
            assert(name_views(names@) =~= name_views(before).push(name@));
            assert(wanted.take(i + 1) =~= wanted.take(i as int).push(name@));
        }
        i = i + 1;
    }
    assert(wanted.take(i as int) =~= wanted);
    names
}

} // verus!
