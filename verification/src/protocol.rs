//! Filing an annotation with the tracker: find the issue that carries it and
//! rewrite its block, or create a new issue. The decisions are taken here;
//! the caller talks to the tracker and reports back what came of it.

use crate::codec::{
    closing, embed, embedded, extracted, lemma_embed_extract, lemma_extract_embed, opening,
};
use crate::config::Mode;
use crate::model::{annotation_views, block_quote_of, title_of, Annotation, AnnotationView};
use crate::text::contains;
use crate::tracker::{
    carries, find_in, find_issue, issue_views, lemma_find_across_pages, lemma_find_in,
    lemma_find_in_is, lemma_listed_across_pages, list_page, listed, read_listing, EmbeddedView,
    Issue, IssueView, StoredIssue,
};
use vstd::prelude::*;

verus! {

/// The response to an annotation that was filed in a new issue.
pub const CREATED: u16 = 201;

/// The response to an annotation that replaced the block of its issue.
pub const ACCEPTED: u16 = 202;

/// The response to an annotation that could not be filed.
pub const NOT_ACCEPTABLE: u16 = 406;

/// The response to a request to delete an annotation.
pub const NOT_IMPLEMENTED: u16 = 501;

/// The number of issues asked for in one page.
pub const PER_PAGE: u8 = 50;

/// The label under which annotations are filed and the prefix of their titles.
#[derive(Debug, PartialEq, Eq)]
pub struct Workflow {
    pub label: String,
    pub title_prefix: String,
}

pub struct WorkflowView {
    pub label: Seq<char>,
    pub title_prefix: Seq<char>,
}

impl View for Workflow {
    type V = WorkflowView;

    open spec fn view(&self) -> WorkflowView {
        WorkflowView { label: self.label@, title_prefix: self.title_prefix@ }
    }
}

/// What the caller is to do next.
#[derive(Debug, PartialEq, Eq)]
pub enum Command {
    /// Ask for the first page of the issues with this label, open and closed.
    ListIssues { label: String, per_page: u8 },
    /// Ask for the page after the one last reported.
    NextPage,
    /// Set the title and the body of an issue.
    UpdateIssue { number: u64, title: String, body: String },
    /// Create an issue.
    CreateIssue { title: String, body: String, labels: Vec<String> },
    /// Answer the request with this status.
    Respond { status: u16 },
    /// Give the request up without an answer.
    Abort,
}

pub enum CommandView {
    ListIssues { label: Seq<char>, per_page: u8 },
    NextPage,
    UpdateIssue { number: u64, title: Seq<char>, body: Seq<char> },
    CreateIssue { title: Seq<char>, body: Seq<char>, labels: Seq<Seq<char>> },
    Respond { status: u16 },
    Abort,
}

impl View for Command {
    type V = CommandView;

    open spec fn view(&self) -> CommandView {
        match self {
            Command::ListIssues { label, per_page } => CommandView::ListIssues {
                label: label@,
                per_page: *per_page,
            },
            Command::NextPage => CommandView::NextPage,
            Command::UpdateIssue { number, title, body } => CommandView::UpdateIssue {
                number: *number,
                title: title@,
                body: body@,
            },
            Command::CreateIssue { title, body, labels } => CommandView::CreateIssue {
                title: title@,
                body: body@,
                labels: labels@.map_values(|l: String| l@),
            },
            Command::Respond { status } => CommandView::Respond { status: *status },
            Command::Abort => CommandView::Abort,
        }
    }
}

/// What came of the last command.
#[derive(Debug, PartialEq, Eq)]
pub enum Event {
    /// A page of issues; `more` says whether another page follows.
    Page { issues: Vec<Issue>, more: bool },
    /// The tracker has updated or created the issue.
    Written,
    /// The call to the tracker failed.
    TransportError,
}

pub enum EventView {
    Page { issues: Seq<IssueView>, more: bool },
    Written,
    TransportError,
}

impl View for Event {
    type V = EventView;

    open spec fn view(&self) -> EventView {
        match self {
            Event::Page { issues, more } => EventView::Page {
                issues: issue_views(issues@),
                more: *more,
            },
            Event::Written => EventView::Written,
            Event::TransportError => EventView::TransportError,
        }
    }
}

/// How far the filing of an annotation has come.
#[derive(Clone, Copy, Debug, PartialEq, Eq, Structural)]
pub enum Phase {
    /// Looking through the tracker's issues for the one that carries the annotation.
    Scanning,
    /// Waiting for the tracker to update the issue that was found.
    Updating,
    /// Waiting for the tracker to create an issue, none having been found.
    Creating,
    Updated,
    Created,
    Failed,
}

/// The filing of one annotation.
pub struct Upsert {
    workflow: Workflow,
    annotation: Annotation,
    payload: String,
    phase: Phase,
}

pub struct UpsertView {
    pub workflow: WorkflowView,
    pub annotation: AnnotationView,
    /// The annotation as it is written into the block.
    pub payload: Seq<char>,
    pub phase: Phase,
}

impl View for Upsert {
    type V = UpsertView;

    closed spec fn view(&self) -> UpsertView {
        UpsertView {
            workflow: self.workflow@,
            annotation: self.annotation@,
            payload: self.payload@,
            phase: self.phase,
        }
    }
}

/// The title of the issue that holds `a`.
pub open spec fn titled(workflow: WorkflowView, a: AnnotationView) -> Seq<char> {
    workflow.title_prefix + " "@ + title_of(a)
}

/// What stands in a new issue where no quote can be shown.
pub open spec fn no_quote() -> Seq<char> {
    "```\r\n<no quote>\r\n```"@
}

/// What separates the quote from the block in a new issue, and opens the
/// section that holds the block.
pub open spec fn separator() -> Seq<char> {
    "\r\n\r\n---\r\n\r\n<details><summary>Annotation</summary>\r\n\r\n"@
}

/// What a new issue shows before the block: the quote, or what stands in
/// for it, and the separator.
pub open spec fn fresh_prefix(a: AnnotationView) -> Seq<char> {
    (match block_quote_of(a.target.selector) {
        Some(quote) => quote,
        None => no_quote(),
    }) + separator()
}

/// What a new issue shows after the block.
pub open spec fn fresh_suffix() -> Seq<char> {
    "\r\n</details>"@
}

/// The body of a new issue for `a`.
pub open spec fn fresh_body(a: AnnotationView, payload: Seq<char>) -> Seq<char> {
    embedded(fresh_prefix(a), payload, fresh_suffix())
}

/// The update that puts `payload` into the block of `issue` and leaves the
/// text around the block as it is.
pub open spec fn update_for(
    workflow: WorkflowView,
    a: AnnotationView,
    payload: Seq<char>,
    issue: IssueView,
) -> CommandView {
    CommandView::UpdateIssue {
        number: issue.number,
        title: titled(workflow, a),
        body: embedded(issue.block->0.prefix, payload, issue.block->0.suffix),
    }
}

/// The creation of a new issue for `a`.
pub open spec fn create_for(
    workflow: WorkflowView,
    a: AnnotationView,
    payload: Seq<char>,
) -> CommandView {
    CommandView::CreateIssue {
        title: titled(workflow, a),
        body: fresh_body(a, payload),
        labels: seq![workflow.label],
    }
}

/// The status that answers a filing which has ended in `phase`.
pub open spec fn status_of_phase(phase: Phase) -> u16 {
    match phase {
        Phase::Updated => ACCEPTED,
        Phase::Created => CREATED,
        _ => NOT_ACCEPTABLE,
    }
}

/// The phase that follows `u.phase` on `event`, and the command that goes with it.
///
/// While scanning, a page with a carrier of the annotation's identity leads
/// to an update of the first such issue; a page without one leads to the
/// next page, or after the last page to a creation. A write that succeeds
/// ends the filing as updated or created. A failed call ends it as failed,
/// and so does an event that does not answer the last command. A filing
/// that has ended stays as it is.
pub open spec fn stepped(u: UpsertView, event: EventView) -> (Phase, CommandView) {
    match u.phase {
        Phase::Scanning => match event {
            EventView::Page { issues, more } => match find_in(issues, u.annotation.id) {
                Some(i) => (
                    Phase::Updating,
                    update_for(u.workflow, u.annotation, u.payload, issues[i]),
                ),
                None => if more {
                    (Phase::Scanning, CommandView::NextPage)
                } else {
                    (Phase::Creating, create_for(u.workflow, u.annotation, u.payload))
                },
            },
            _ => (Phase::Failed, CommandView::Respond { status: NOT_ACCEPTABLE }),
        },
        Phase::Updating => match event {
            EventView::Written => (Phase::Updated, CommandView::Respond { status: ACCEPTED }),
            _ => (Phase::Failed, CommandView::Respond { status: NOT_ACCEPTABLE }),
        },
        Phase::Creating => match event {
            EventView::Written => (Phase::Created, CommandView::Respond { status: CREATED }),
            _ => (Phase::Failed, CommandView::Respond { status: NOT_ACCEPTABLE }),
        },
        phase => (phase, CommandView::Respond { status: status_of_phase(phase) }),
    }
}

/// What a scan of the whole `listing` decides: an update of the first issue
/// that carries the annotation's identity, or a creation where none does.
pub open spec fn decided(u: UpsertView, listing: Seq<IssueView>) -> (Phase, CommandView) {
    match find_in(listing, u.annotation.id) {
        Some(i) => (Phase::Updating, update_for(u.workflow, u.annotation, u.payload, listing[i])),
        None => (Phase::Creating, create_for(u.workflow, u.annotation, u.payload)),
    }
}

/// The pages one after another, as one listing.
pub open spec fn joined(pages: Seq<Seq<IssueView>>) -> Seq<IssueView>
    decreases pages.len(),
{
    if pages.len() == 0 {
        Seq::empty()
    } else {
        pages.first() + joined(pages.drop_first())
    }
}

/// Where a scan stands once the pages have been reported one by one, the
/// last of them as the last: the first step that does not ask for the next page.
pub open spec fn scanned(u: UpsertView, pages: Seq<Seq<IssueView>>) -> (Phase, CommandView)
    decreases pages.len(),
{
    if pages.len() == 0 {
        stepped(u, EventView::Page { issues: Seq::empty(), more: false })
    } else if pages.len() == 1 {
        stepped(u, EventView::Page { issues: pages.first(), more: false })
    } else {
        let (phase, command) = stepped(u, EventView::Page { issues: pages.first(), more: true });
        if phase == Phase::Scanning {
            scanned(u, pages.drop_first())
        } else {
            (phase, command)
        }
    }
}

/// A scan page by page decides what a scan of the whole listing decides: it
/// stops at the first carrier in the tracker's order, and creates only
/// after the last page.
pub proof fn lemma_scan_is_linear(u: UpsertView, pages: Seq<Seq<IssueView>>)
    requires
        u.phase == Phase::Scanning,
    ensures
        scanned(u, pages) == decided(u, joined(pages)),
    decreases pages.len(),
{
    let id = u.annotation.id;
    if pages.len() == 0 {
    } else {
        let first = pages.first();
        let rest = joined(pages.drop_first());
        lemma_find_across_pages(first, rest, id);
        lemma_find_in(first, id);
        if pages.len() == 1 {
            assert(pages.drop_first().len() == 0);
            assert(first + rest =~= first);
        } else {
            lemma_scan_is_linear(u, pages.drop_first());
            if find_in(first, id) is Some {
                let i = find_in(first, id)->0;
                assert((first + rest)[i] == first[i]);
            } else if find_in(rest, id) is Some {
                let j = find_in(rest, id)->0;
                lemma_find_in(rest, id);
                assert((first + rest)[first.len() + j] == rest[j]);
            }
        }
    }
}

/// What the tracker stores once it has carried out `command`: an update
/// gives the issue of that number its new body, a creation puts a new open
/// issue, with the number that the tracker gives it, before the others.
pub open spec fn carried_out(stored: Seq<StoredIssue>, command: CommandView, number: u64) -> Seq<
    StoredIssue,
> {
    match command {
        CommandView::UpdateIssue { number: updated, title, body } => stored.map_values(
            |s: StoredIssue|
                if s.number == updated {
                    StoredIssue { number: s.number, open: s.open, body: Some(body) }
                } else {
                    s
                },
        ),
        CommandView::CreateIssue { title, body, labels } => seq![
            StoredIssue { number, open: true, body: Some(body) },
        ] + stored,
        _ => stored,
    }
}

/// What the tracker stores once `a` has been filed with it.
pub open spec fn filed(
    workflow: WorkflowView,
    a: AnnotationView,
    payload: Seq<char>,
    stored: Seq<StoredIssue>,
    decode: spec_fn(Seq<char>) -> Option<AnnotationView>,
    number: u64,
) -> Seq<StoredIssue> {
    let u = UpsertView { workflow, annotation: a, payload, phase: Phase::Scanning };
    carried_out(stored, decided(u, read_listing(stored, decode)).1, number)
}

/// Whether each issue has a number of its own, and none the number `fresh`.
pub open spec fn numbered(stored: Seq<StoredIssue>, fresh: u64) -> bool {
    &&& forall|i: int, j: int|
        0 <= i < j < stored.len() ==> (#[trigger] stored[i]).number != (#[trigger] stored[j]).number
    &&& forall|i: int| 0 <= i < stored.len() ==> (#[trigger] stored[i]).number != fresh
}

/// Whether at most one issue of `page` carries `id`.
pub open spec fn at_most_one_carrier(page: Seq<IssueView>, id: Seq<char>) -> bool {
    forall|i: int, j: int|
        0 <= i < j < page.len() ==> !(carries(#[trigger] page[i], id) && carries(
            #[trigger] page[j],
            id,
        ))
}

/// Whether the issue at `i`, and no other issue of `page`, carries `id`.
pub open spec fn sole_carrier(page: Seq<IssueView>, id: Seq<char>, i: int) -> bool {
    &&& 0 <= i < page.len()
    &&& carries(page[i], id)
    &&& forall|j: int| 0 <= j < page.len() && j != i ==> !carries(#[trigger] page[j], id)
}

/// Filing leaves exactly one issue that carries the annotation's identity,
/// where at most one carried it before: the one that carried it, with the
/// new annotation in its block and the text around the block unchanged, or
/// else the new issue. This holds for a payload that decodes to the
/// annotation and does not hold the closing delimiter, and, where an issue
/// is created, for an annotation whose quote does not bring the opening
/// delimiter into the new body.
pub proof fn lemma_filed_once(
    workflow: WorkflowView,
    a: AnnotationView,
    payload: Seq<char>,
    stored: Seq<StoredIssue>,
    decode: spec_fn(Seq<char>) -> Option<AnnotationView>,
    number: u64,
)
    requires
        decode(payload) == Some(a),
        !contains(payload, closing()),
        find_in(read_listing(stored, decode), a.id) is None ==> !contains(
            fresh_prefix(a),
            opening(),
        ),
        numbered(stored, number),
        at_most_one_carrier(read_listing(stored, decode), a.id),
    ensures
        ({
            let before = read_listing(stored, decode);
            let after = read_listing(filed(workflow, a, payload, stored, decode, number), decode);
            match find_in(before, a.id) {
                Some(i) => {
                    &&& after.len() == before.len()
                    &&& sole_carrier(after, a.id, i)
                    &&& after[i].block == Some(
                        EmbeddedView {
                            prefix: before[i].block->0.prefix,
                            annotation: Ok(a),
                            suffix: before[i].block->0.suffix,
                        },
                    )
                    &&& forall|j: int| 0 <= j < before.len() && j != i ==> after[j] == before[j]
                },
                None => {
                    &&& after.len() == before.len() + 1
                    &&& sole_carrier(after, a.id, 0)
                    &&& after[0].block == Some(
                        EmbeddedView {
                            prefix: fresh_prefix(a),
                            annotation: Ok(a),
                            suffix: fresh_suffix(),
                        },
                    )
                    &&& forall|j: int| 0 <= j < before.len() ==> after[j + 1] == before[j]
                },
            }
        }),
{
    let before = read_listing(stored, decode);
    let stored_after = filed(workflow, a, payload, stored, decode, number);
    let after = read_listing(stored_after, decode);
    lemma_find_in(before, a.id);
    match find_in(before, a.id) {
        Some(i) => {
            let text = stored[i].body->0;
            lemma_embed_extract(text);
            let (prefix, old_payload, suffix) = extracted(text)->0;
            lemma_extract_embed(prefix, payload, suffix);
            assert(after[i].block == Some(
                EmbeddedView { prefix, annotation: Ok(a), suffix },
            ));
            assert forall|j: int| 0 <= j < before.len() && j != i implies after[j] == before[j]
                && !carries(#[trigger] after[j], a.id) by {
                if j < i {
                    assert(stored[j].number != stored[i].number);
                    assert(!(carries(before[j], a.id) && carries(before[i], a.id)));
                } else {
                    assert(stored[i].number != stored[j].number);
                    assert(!(carries(before[i], a.id) && carries(before[j], a.id)));
                }
            }
        },
        None => {
            lemma_extract_embed(fresh_prefix(a), payload, fresh_suffix());
            assert forall|j: int| 0 <= j < before.len() implies after[j + 1] == before[j] by {
                assert(stored_after[j + 1] == stored[j]);
            }
            assert forall|j: int| 0 <= j < after.len() && j != 0 implies !carries(
                #[trigger] after[j],
                a.id,
            ) by {
                assert(after[j] == before[j - 1]);
            }
        },
    }
}

/// Filing keeps the issues numbered, each with a number of its own.
pub proof fn lemma_filed_numbered(
    workflow: WorkflowView,
    a: AnnotationView,
    payload: Seq<char>,
    stored: Seq<StoredIssue>,
    decode: spec_fn(Seq<char>) -> Option<AnnotationView>,
    number: u64,
    next: u64,
)
    requires
        numbered(stored, number),
        numbered(stored, next),
        number != next,
    ensures
        numbered(filed(workflow, a, payload, stored, decode, number), next),
{
    let after = filed(workflow, a, payload, stored, decode, number);
    match find_in(read_listing(stored, decode), a.id) {
        Some(i) => {
            assert forall|h: int, j: int| 0 <= h < j < after.len() implies (#[trigger] after[h])
                .number != (#[trigger] after[j]).number by {
                assert(after[h].number == stored[h].number);
                assert(after[j].number == stored[j].number);
            }
            assert forall|h: int| 0 <= h < after.len() implies (#[trigger] after[h]).number
                != next by {
                assert(after[h].number == stored[h].number);
            }
        },
        None => {
            assert forall|h: int, j: int| 0 <= h < j < after.len() implies (#[trigger] after[h])
                .number != (#[trigger] after[j]).number by {
                assert(after[j] == stored[j - 1]);
                if h > 0 {
                    assert(after[h] == stored[h - 1]);
                }
            }
            assert forall|h: int| 0 <= h < after.len() implies (#[trigger] after[h]).number
                != next by {
                if h > 0 {
                    assert(after[h] == stored[h - 1]);
                }
            }
        },
    }
}

/// Filing is idempotent in the identity: when two annotations of one
/// identity are filed one after the other, the second filing creates no
/// issue, and exactly one issue carries the identity afterwards, with the
/// second annotation in its block and the text around the block as the
/// first filing left it.
pub proof fn lemma_filed_twice(
    workflow: WorkflowView,
    first: AnnotationView,
    first_payload: Seq<char>,
    second: AnnotationView,
    second_payload: Seq<char>,
    stored: Seq<StoredIssue>,
    decode: spec_fn(Seq<char>) -> Option<AnnotationView>,
    first_number: u64,
    second_number: u64,
)
    requires
        first.id == second.id,
        decode(first_payload) == Some(first),
        decode(second_payload) == Some(second),
        !contains(first_payload, closing()),
        !contains(second_payload, closing()),
        find_in(read_listing(stored, decode), first.id) is None ==> !contains(
            fresh_prefix(first),
            opening(),
        ),
        numbered(stored, first_number),
        numbered(stored, second_number),
        first_number != second_number,
        at_most_one_carrier(read_listing(stored, decode), first.id),
    ensures
        ({
            let once = filed(workflow, first, first_payload, stored, decode, first_number);
            let twice = filed(workflow, second, second_payload, once, decode, second_number);
            let i = find_in(read_listing(once, decode), first.id);
            &&& i is Some
            &&& twice.len() == once.len()
            &&& sole_carrier(read_listing(once, decode), first.id, i->0)
            &&& sole_carrier(read_listing(twice, decode), first.id, i->0)
            &&& read_listing(twice, decode)[i->0].block == Some(
                EmbeddedView {
                    prefix: read_listing(once, decode)[i->0].block->0.prefix,
                    annotation: Ok(second),
                    suffix: read_listing(once, decode)[i->0].block->0.suffix,
                },
            )
        }),
{
    let id = first.id;
    let once = filed(workflow, first, first_payload, stored, decode, first_number);
    let read_once = read_listing(once, decode);
    lemma_filed_once(workflow, first, first_payload, stored, decode, first_number);
    lemma_filed_numbered(
        workflow,
        first,
        first_payload,
        stored,
        decode,
        first_number,
        second_number,
    );
    let k = match find_in(read_listing(stored, decode), id) {
        Some(i) => i,
        None => 0,
    };
    assert(sole_carrier(read_once, id, k));
    lemma_find_in_is(read_once, id, k);
    assert(at_most_one_carrier(read_once, id));
    lemma_filed_once(workflow, second, second_payload, once, decode, second_number);
}

/// Nothing keeps two filings of one identity apart: where both have scanned
/// the tracker before either has written, and no issue carried the identity,
/// both create an issue, and two issues carry the identity afterwards.
pub proof fn lemma_filed_at_once(
    workflow: WorkflowView,
    first: AnnotationView,
    first_payload: Seq<char>,
    second: AnnotationView,
    second_payload: Seq<char>,
    stored: Seq<StoredIssue>,
    decode: spec_fn(Seq<char>) -> Option<AnnotationView>,
    first_number: u64,
    second_number: u64,
)
    requires
        first.id == second.id,
        decode(first_payload) == Some(first),
        decode(second_payload) == Some(second),
        !contains(first_payload, closing()),
        !contains(second_payload, closing()),
        !contains(fresh_prefix(first), opening()),
        !contains(fresh_prefix(second), opening()),
        find_in(read_listing(stored, decode), first.id) is None,
    ensures
        ({
            let seen = read_listing(stored, decode);
            let one = UpsertView {
                workflow,
                annotation: first,
                payload: first_payload,
                phase: Phase::Scanning,
            };
            let other = UpsertView {
                workflow,
                annotation: second,
                payload: second_payload,
                phase: Phase::Scanning,
            };
            let after = read_listing(
                carried_out(
                    carried_out(stored, decided(one, seen).1, first_number),
                    decided(other, seen).1,
                    second_number,
                ),
                decode,
            );
            &&& after.len() == stored.len() + 2
            &&& carries(after[0], first.id)
            &&& carries(after[1], first.id)
        }),
{
    lemma_extract_embed(fresh_prefix(first), first_payload, fresh_suffix());
    lemma_extract_embed(fresh_prefix(second), second_payload, fresh_suffix());
}

/// `prefix`, a space and the annotation's title.
fn title_for(workflow: &Workflow, annotation: &Annotation) -> (r: String)
    ensures
        r@ == titled(workflow@, annotation@),
{
    let mut r = String::new();
    r.append(workflow.title_prefix.as_str());
    r.append(" ");
    r.append(annotation.title().as_str());
    assert(r@ =~= titled(workflow@, annotation@));
    r
}

/// The body of a new issue for `annotation`.
fn body_for(annotation: &Annotation, payload: &str) -> (r: String)
    ensures
        r@ == fresh_body(annotation@, payload@),
{
    let mut prefix = match annotation.text_quote_selector() {
        Some(quote) => quote,
        None => "```\r\n<no quote>\r\n```".to_owned(),
    };
    prefix.append("\r\n\r\n---\r\n\r\n<details><summary>Annotation</summary>\r\n\r\n");
    embed(prefix.as_str(), payload, "\r\n</details>")
}

impl Clone for Workflow {
    fn clone(&self) -> (r: Self)
        ensures
            r@ == self@,
    {
        Workflow { label: self.label.clone(), title_prefix: self.title_prefix.clone() }
    }
}

impl Workflow {
    /// The workflow of general annotations.
    pub fn annotation() -> (r: Workflow)
        ensures
            r@.label == "annotation"@,
            r@.title_prefix == "[Annotation]"@,
    {
        Workflow { label: "annotation".to_owned(), title_prefix: "[Annotation]".to_owned() }
    }

    /// The workflow of validations.
    pub fn validation() -> (r: Workflow)
        ensures
            r@.label == "validation"@,
            r@.title_prefix == "[Validation]"@,
    {
        Workflow { label: "validation".to_owned(), title_prefix: "[Validation]".to_owned() }
    }
}

impl Upsert {
    /// Takes an annotation in for filing. `payload` is the annotation as it is
    /// to be written into the block. The first command asks for the issues
    /// that carry the workflow's label.
    pub fn receive(workflow: Workflow, annotation: Annotation, payload: String) -> (r: (
        Upsert,
        Command,
    ))
        ensures
            r.0@ == (UpsertView {
                workflow: workflow@,
                annotation: annotation@,
                payload: payload@,
                phase: Phase::Scanning,
            }),
            r.1@ == (CommandView::ListIssues { label: workflow@.label, per_page: PER_PAGE }),
    {
        let command = Command::ListIssues { label: workflow.label.clone(), per_page: PER_PAGE };
        (Upsert { workflow, annotation, payload, phase: Phase::Scanning }, command)
    }

    /// How far the filing has come.
    pub fn phase(&self) -> (r: Phase)
        ensures
            r == self@.phase,
    {
        self.phase
    }

    /// Takes in what came of the last command and says what to do next.
    pub fn step(&mut self, event: &Event) -> (r: Command)
        ensures
            final(self)@.workflow == old(self)@.workflow,
            final(self)@.annotation == old(self)@.annotation,
            final(self)@.payload == old(self)@.payload,
            (final(self)@.phase, r@) == stepped(old(self)@, event@),
    {
        match self.phase {
            Phase::Scanning => match event {
                Event::Page { issues, more } => match find_issue(
                    issues,
                    self.annotation.id.as_str(),
                ) {
                    Some((i, block)) => {
                        let command = Command::UpdateIssue {
                            number: issues[i].number,
                            title: title_for(&self.workflow, &self.annotation),
                            body: embed(
                                block.prefix.as_str(),
                                self.payload.as_str(),
                                block.suffix.as_str(),
                            ),
                        };
                        assert(issue_views(issues@)[i as int] == issues@[i as int]@);
                        self.phase = Phase::Updating;
                        command
                    },
                    None => if *more {
                        Command::NextPage
                    } else {
                        let mut labels: Vec<String> = Vec::new();
                        labels.push(self.workflow.label.clone());
                        let command = Command::CreateIssue {
                            title: title_for(&self.workflow, &self.annotation),
                            body: body_for(&self.annotation, self.payload.as_str()),
                            labels,
                        };
                        assert(command@->CreateIssue_labels =~= seq![self.workflow@.label]);
                        self.phase = Phase::Creating;
                        command
                    },
                },
                _ => {
                    self.phase = Phase::Failed;
                    Command::Respond { status: NOT_ACCEPTABLE }
                },
            },
            Phase::Updating => match event {
                Event::Written => {
                    self.phase = Phase::Updated;
                    Command::Respond { status: ACCEPTED }
                },
                _ => {
                    self.phase = Phase::Failed;
                    Command::Respond { status: NOT_ACCEPTABLE }
                },
            },
            Phase::Creating => match event {
                Event::Written => {
                    self.phase = Phase::Created;
                    Command::Respond { status: CREATED }
                },
                _ => {
                    self.phase = Phase::Failed;
                    Command::Respond { status: NOT_ACCEPTABLE }
                },
            },
            Phase::Updated => Command::Respond { status: ACCEPTED },
            Phase::Created => Command::Respond { status: CREATED },
            Phase::Failed => Command::Respond { status: NOT_ACCEPTABLE },
        }
    }
}

/// How far the reading of all annotations has come.
#[derive(Clone, Copy, Debug, PartialEq, Eq, Structural)]
pub enum ListingPhase {
    /// Going through the tracker's issues, page by page.
    Scanning,
    Done,
    Failed,
}

/// The reading of all annotations that the tracker holds.
pub struct Listing {
    annotations: Vec<Annotation>,
    phase: ListingPhase,
}

pub struct ListingView {
    /// What has been read so far.
    pub annotations: Seq<AnnotationView>,
    pub phase: ListingPhase,
}

impl View for Listing {
    type V = ListingView;

    closed spec fn view(&self) -> ListingView {
        ListingView { annotations: annotation_views(self.annotations@), phase: self.phase }
    }
}

/// The reading that follows `l` on `event`, and the command that goes with it.
///
/// Each page adds its annotations, in order, behind those of the pages
/// before; after the last page the reading is done. A failed call ends the
/// reading without a result, and so does an event that is no page. A
/// reading that has ended stays as it is.
pub open spec fn listing_stepped(l: ListingView, event: EventView) -> (ListingView, CommandView) {
    match l.phase {
        ListingPhase::Scanning => match event {
            EventView::Page { issues, more } => {
                let annotations = l.annotations + listed(issues);
                if more {
                    (
                        ListingView { annotations, phase: ListingPhase::Scanning },
                        CommandView::NextPage,
                    )
                } else {
                    (
                        ListingView { annotations, phase: ListingPhase::Done },
                        CommandView::Respond { status: CREATED },
                    )
                }
            },
            _ => (
                ListingView { annotations: Seq::empty(), phase: ListingPhase::Failed },
                CommandView::Abort,
            ),
        },
        ListingPhase::Done => (l, CommandView::Respond { status: CREATED }),
        ListingPhase::Failed => (l, CommandView::Abort),
    }
}

/// Where a reading stands once the pages have been reported one by one, the
/// last of them as the last.
pub open spec fn listed_through(l: ListingView, pages: Seq<Seq<IssueView>>) -> (
    ListingView,
    CommandView,
)
    decreases pages.len(),
{
    if pages.len() == 0 {
        listing_stepped(l, EventView::Page { issues: Seq::empty(), more: false })
    } else if pages.len() == 1 {
        listing_stepped(l, EventView::Page { issues: pages.first(), more: false })
    } else {
        listed_through(
            listing_stepped(l, EventView::Page { issues: pages.first(), more: true }).0,
            pages.drop_first(),
        )
    }
}

/// A reading page by page gives what a reading of the whole listing gives:
/// the annotations of all issues, in the tracker's order, and the response
/// that goes with them.
pub proof fn lemma_listing_is_linear(l: ListingView, pages: Seq<Seq<IssueView>>)
    requires
        l.phase == ListingPhase::Scanning,
    ensures
        listed_through(l, pages) == (
            ListingView {
                annotations: l.annotations + listed(joined(pages)),
                phase: ListingPhase::Done,
            },
            CommandView::Respond { status: CREATED },
        ),
    decreases pages.len(),
{
    if pages.len() == 0 {
        assert(l.annotations + listed(Seq::empty()) =~= l.annotations + listed(joined(pages)));
    } else {
        let first = pages.first();
        let rest = joined(pages.drop_first());
        if pages.len() == 1 {
            assert(pages.drop_first().len() == 0);
            assert(first + rest =~= first);
        } else {
            let next = listing_stepped(l, EventView::Page { issues: first, more: true }).0;
            lemma_listing_is_linear(next, pages.drop_first());
            lemma_listed_across_pages(first, rest);
            assert(l.annotations + listed(first) + listed(rest) =~= l.annotations + (listed(first)
                + listed(rest)));
        }
    }
}

impl Listing {
    /// Begins to read the annotations of a workflow. The first command asks
    /// for the issues that carry the workflow's label.
    pub fn begin(workflow: &Workflow) -> (r: (Listing, Command))
        ensures
            r.0@ == (ListingView { annotations: Seq::empty(), phase: ListingPhase::Scanning }),
            r.1@ == (CommandView::ListIssues { label: workflow@.label, per_page: PER_PAGE }),
    {
        let listing = Listing { annotations: Vec::new(), phase: ListingPhase::Scanning };
        assert(annotation_views(listing.annotations@) =~= Seq::<AnnotationView>::empty());
        (listing, Command::ListIssues { label: workflow.label.clone(), per_page: PER_PAGE })
    }

    /// How far the reading has come.
    pub fn phase(&self) -> (r: ListingPhase)
        ensures
            r == self@.phase,
    {
        self.phase
    }

    /// Takes in what came of the last command and says what to do next.
    pub fn step(&mut self, event: &Event) -> (r: Command)
        ensures
            (final(self)@, r@) == listing_stepped(old(self)@, event@),
    {
        match self.phase {
            ListingPhase::Scanning => match event {
                Event::Page { issues, more } => {
                    let ghost before = self.annotations@;
                    let mut found = list_page(issues);
                    let ghost added = found@;
                    self.annotations.append(&mut found);
                    assert(annotation_views(self.annotations@) =~= annotation_views(before)
                        + annotation_views(added));
                    if *more {
                        Command::NextPage
                    } else {
                        self.phase = ListingPhase::Done;
                        Command::Respond { status: CREATED }
                    }
                },
                _ => {
                    self.annotations = Vec::new();
                    self.phase = ListingPhase::Failed;
                    assert(annotation_views(self.annotations@) =~= Seq::<AnnotationView>::empty());
                    Command::Abort
                },
            },
            ListingPhase::Done => Command::Respond { status: CREATED },
            ListingPhase::Failed => Command::Abort,
        }
    }

    /// What has been read: every annotation once the reading is done, none
    /// where it failed.
    pub fn into_annotations(self) -> (r: Vec<Annotation>)
        ensures
            annotation_views(r@) == self@.annotations,
    {
        self.annotations
    }
}

/// The status with which a request to file an annotation is turned away
/// before the filing begins: a server that may not write files nothing.
pub fn refusal(mode: &Mode) -> (r: Option<u16>)
    ensures
        r == (if *mode is ReadOnly {
            Some(NOT_ACCEPTABLE)
        } else {
            None
        }),
{
    if mode.allows_writes() {
        None
    } else {
        Some(NOT_ACCEPTABLE)
    }
}

/// The status that answers a request to delete an annotation: deleting is not offered.
pub fn delete_annotation() -> (r: u16)
    ensures
        r == NOT_IMPLEMENTED,
{
    NOT_IMPLEMENTED
}

} // verus!
