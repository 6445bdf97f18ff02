//! What the tracker reports of its issues, and how a listing of them is
//! searched for an annotation and read out as annotations.

use crate::codec::{
    closing, embedded, extracted, lemma_extract_embed, lemma_no_opening_no_block, opening,
};
use crate::model::{annotation_views, Annotation, AnnotationView, GitHubStatus};
use crate::text::{contains, same_text};
use vstd::prelude::*;

verus! {

/// A payload that could not be decoded, with the text that was found.
#[derive(Debug, PartialEq, Eq)]
pub struct DecodeError {
    pub raw: String,
}

/// The block of an issue's body: the text before it, the decoded payload,
/// and the text after it.
#[derive(Debug, PartialEq, Eq)]
pub struct Embedded {
    pub prefix: String,
    pub annotation: Result<Annotation, DecodeError>,
    pub suffix: String,
}

/// One issue of the tracker.
#[derive(Debug, PartialEq, Eq)]
pub struct Issue {
    pub number: u64,
    pub open: bool,
    /// The block in the issue's body; none where there is no body or no block in it.
    pub block: Option<Embedded>,
}

pub struct EmbeddedView {
    pub prefix: Seq<char>,
    /// The annotation, or the payload that could not be decoded.
    pub annotation: Result<AnnotationView, Seq<char>>,
    pub suffix: Seq<char>,
}

pub struct IssueView {
    pub number: u64,
    pub open: bool,
    pub block: Option<EmbeddedView>,
}

/// An issue as the tracker stores it.
pub struct StoredIssue {
    pub number: u64,
    pub open: bool,
    pub body: Option<Seq<char>>,
}

impl View for Embedded {
    type V = EmbeddedView;

    open spec fn view(&self) -> EmbeddedView {
        EmbeddedView {
            prefix: self.prefix@,
            annotation: match self.annotation {
                Ok(a) => Ok(a@),
                Err(e) => Err(e.raw@),
            },
            suffix: self.suffix@,
        }
    }
}

impl View for Issue {
    type V = IssueView;

    open spec fn view(&self) -> IssueView {
        IssueView {
            number: self.number,
            open: self.open,
            block: match self.block {
                Some(b) => Some(b@),
                None => None,
            },
        }
    }
}

/// The views of issues.
pub open spec fn issue_views(page: Seq<Issue>) -> Seq<IssueView> {
    page.map_values(|i: Issue| i@)
}

/// The block of a body with its payload decoded by `decode`.
pub open spec fn block_of(
    body: Option<Seq<char>>,
    decode: spec_fn(Seq<char>) -> Option<AnnotationView>,
) -> Option<EmbeddedView> {
    match body {
        Some(text) => match extracted(text) {
            Some((prefix, payload, suffix)) => Some(
                EmbeddedView {
                    prefix,
                    annotation: match decode(payload) {
                        Some(a) => Ok(a),
                        None => Err(payload),
                    },
                    suffix,
                },
            ),
            None => None,
        },
        None => None,
    }
}

/// A stored issue as a scan reads it, payloads decoded by `decode`.
pub open spec fn read_issue(
    stored: StoredIssue,
    decode: spec_fn(Seq<char>) -> Option<AnnotationView>,
) -> IssueView {
    IssueView { number: stored.number, open: stored.open, block: block_of(stored.body, decode) }
}

/// A stored listing as a scan reads it.
pub open spec fn read_listing(
    stored: Seq<StoredIssue>,
    decode: spec_fn(Seq<char>) -> Option<AnnotationView>,
) -> Seq<IssueView> {
    stored.map_values(|s: StoredIssue| read_issue(s, decode))
}

/// Whether `issue` holds a decoded annotation with identity `id`.
pub open spec fn carries(issue: IssueView, id: Seq<char>) -> bool {
    &&& issue.block matches Some(b)
    &&& b.annotation matches Ok(a)
    &&& a.id == id
}

/// Whether `i` is the first issue of `page` that carries `id`.
pub open spec fn first_carrier(page: Seq<IssueView>, id: Seq<char>, i: int) -> bool {
    &&& 0 <= i < page.len()
    &&& carries(page[i], id)
    &&& forall|j: int| 0 <= j < i ==> !carries(#[trigger] page[j], id)
}

/// The index of the first issue of `page` that carries `id`.
pub open spec fn find_in(page: Seq<IssueView>, id: Seq<char>) -> Option<int> {
    if exists|i: int| first_carrier(page, id, i) {
        Some(choose|i: int| first_carrier(page, id, i))
    } else {
        None
    }
}

/// The status that stands for an issue's state.
pub open spec fn status_of(open: bool) -> GitHubStatus {
    if open {
        GitHubStatus::Open
    } else {
        GitHubStatus::Closed
    }
}

/// `a` with its status taken from the issue's state, whatever it held before.
pub open spec fn stamped(a: AnnotationView, open: bool) -> AnnotationView {
    AnnotationView {
        context: a.context,
        kind: a.kind,
        body: a.body,
        target: a.target,
        id: a.id,
        meta: Some(status_of(open)),
    }
}

/// The annotation that a listing shows for `issue`, if it shows one.
pub open spec fn listed_of(issue: IssueView) -> Option<AnnotationView> {
    match issue.block {
        Some(b) => match b.annotation {
            Ok(a) => Some(stamped(a, issue.open)),
            Err(_) => None,
        },
        None => None,
    }
}

/// The annotations that a listing shows for `page`: one for each issue with
/// a block that decodes, in the order of the issues.
pub open spec fn listed(page: Seq<IssueView>) -> Seq<AnnotationView>
    decreases page.len(),
{
    if page.len() == 0 {
        Seq::empty()
    } else {
        match listed_of(page.last()) {
            Some(a) => listed(page.drop_last()).push(a),
            None => listed(page.drop_last()),
        }
    }
}

/// A first carrier is what `find_in` finds.
pub proof fn lemma_find_in_is(page: Seq<IssueView>, id: Seq<char>, i: int)
    requires
        first_carrier(page, id, i),
    ensures
        find_in(page, id) == Some(i),
{
    let k = choose|k: int| first_carrier(page, id, k);
    if k < i {
        assert(!carries(page[k], id));
    } else if i < k {
        assert(!carries(page[i], id));
    }
}

/// What `find_in` finds is the first carrier; it finds none only where no issue carries `id`.
pub proof fn lemma_find_in(page: Seq<IssueView>, id: Seq<char>)
    ensures
        match find_in(page, id) {
            Some(i) => first_carrier(page, id, i),
            None => forall|j: int| 0 <= j < page.len() ==> !carries(#[trigger] page[j], id),
        },
{
    if find_in(page, id) is None {
        assert forall|j: int| 0 <= j < page.len() implies !carries(#[trigger] page[j], id) by {
            if carries(page[j], id) {
                lemma_first_carrier_below(page, id, j);
            }
        }
    }
}

/// At or below any carrier there is a first one.
proof fn lemma_first_carrier_below(page: Seq<IssueView>, id: Seq<char>, w: int)
    requires
        0 <= w < page.len(),
        carries(page[w], id),
    ensures
        exists|i: int| first_carrier(page, id, i),
    decreases w,
{
    if exists|j: int| 0 <= j < w && carries(#[trigger] page[j], id) {
        let j = choose|j: int| 0 <= j < w && carries(#[trigger] page[j], id);
        lemma_first_carrier_below(page, id, j);
    } else {
        assert(first_carrier(page, id, w));
    }
}

/// Reading undoes embedding: a body made by embedding a payload is read as
/// a block with the same text around it and the annotation that the payload
/// decodes to. The prefix must not hold the opening delimiter nor the
/// payload the closing one.
pub proof fn lemma_read_embedded(
    prefix: Seq<char>,
    a: AnnotationView,
    payload: Seq<char>,
    suffix: Seq<char>,
    decode: spec_fn(Seq<char>) -> Option<AnnotationView>,
)
    requires
        decode(payload) == Some(a),
        !contains(prefix, opening()),
        !contains(payload, closing()),
    ensures
        block_of(Some(embedded(prefix, payload, suffix)), decode) == Some(
            EmbeddedView { prefix, annotation: Ok(a), suffix },
        ),
{
    lemma_extract_embed(prefix, payload, suffix);
}

/// Pages are searched as one listing: the first carrier of two pages in a
/// row is that of the first page, or else that of the second.
pub proof fn lemma_find_across_pages(first: Seq<IssueView>, second: Seq<IssueView>, id: Seq<char>)
    ensures
        find_in(first + second, id) == match find_in(first, id) {
            Some(i) => Some(i),
            None => match find_in(second, id) {
                Some(j) => Some(first.len() + j),
                None => None,
            },
        },
{
    let both = first + second;
    lemma_find_in(first, id);
    lemma_find_in(second, id);
    match find_in(first, id) {
        Some(i) => {
            assert(both[i] == first[i]);
            assert forall|j: int| 0 <= j < i implies !carries(#[trigger] both[j], id) by {
                assert(both[j] == first[j]);
            }
            lemma_find_in_is(both, id, i);
        },
        None => match find_in(second, id) {
            Some(j) => {
                let k = first.len() + j;
                assert(both[k] == second[j]);
                assert forall|h: int| 0 <= h < k implies !carries(#[trigger] both[h], id) by {
                    if h < first.len() {
                        assert(both[h] == first[h]);
                    } else {
                        assert(both[h] == second[h - first.len()]);
                    }
                }
                lemma_find_in_is(both, id, k);
            },
            None => {
                lemma_find_in(both, id);
                if find_in(both, id) is Some {
                    let h = find_in(both, id)->0;
                    if h < first.len() {
                        assert(both[h] == first[h]);
                    } else {
                        assert(both[h] == second[h - first.len()]);
                    }
                }
            },
        },
    }
}

/// Pages are listed as one listing: two pages in a row show the annotations
/// of the first followed by those of the second.
pub proof fn lemma_listed_across_pages(first: Seq<IssueView>, second: Seq<IssueView>)
    ensures
        listed(first + second) == listed(first) + listed(second),
    decreases second.len(),
{
    if second.len() == 0 {
        assert(first + second =~= first);
        assert(listed(first) + listed(second) =~= listed(first));
    } else {
        let both = first + second;
        assert(both.drop_last() =~= first + second.drop_last());
        assert(both.last() == second.last());
        lemma_listed_across_pages(first, second.drop_last());
        match listed_of(second.last()) {
            Some(a) => {
                assert((listed(first) + listed(second.drop_last())).push(a) =~= listed(first)
                    + listed(second.drop_last()).push(a));
            },
            None => {},
        }
    }
}

/// A listing shows the tracker's state and not the stored one: the
/// annotation of an issue is listed as closed where the issue is closed and
/// as open where it is open, whatever status its payload held.
pub proof fn lemma_listed_status(page: Seq<IssueView>, i: int)
    requires
        0 <= i < page.len(),
        page[i].block is Some,
        page[i].block->0.annotation is Ok,
    ensures
        ({
            let a = page[i].block->0.annotation->Ok_0;
            &&& listed(page).contains(stamped(a, page[i].open))
            &&& stamped(a, page[i].open).meta == Some(status_of(page[i].open))
        }),
    decreases page.len(),
{
    let a = page[i].block->0.annotation->Ok_0;
    let shown = listed(page.drop_last());
    if i == page.len() - 1 {
        assert(listed(page) == shown.push(stamped(a, page[i].open)));
        assert(listed(page)[shown.len() as int] == stamped(a, page[i].open));
    } else {
        assert(page.drop_last()[i] == page[i]);
        lemma_listed_status(page.drop_last(), i);
        let k = choose|k: int| 0 <= k < shown.len() && shown[k] == stamped(a, page[i].open);
        assert(listed(page)[k] == shown[k]);
    }
}

/// Every annotation that a listing shows is that of an issue of the page,
/// with the status of that issue.
pub proof fn lemma_listed_origin(page: Seq<IssueView>, k: int)
    requires
        0 <= k < listed(page).len(),
    ensures
        exists|i: int|
            0 <= i < page.len() && listed_of(#[trigger] page[i]) == Some(listed(page)[k])
                && listed(page)[k].meta == Some(status_of(page[i].open)),
    decreases page.len(),
{
    let shown = listed(page.drop_last());
    let last = page.len() - 1;
    if listed_of(page.last()) is Some && k == shown.len() {
        assert(listed_of(page[last]) == Some(listed(page)[k]));
    } else {
        lemma_listed_origin(page.drop_last(), k);
        let i = choose|i: int|
            0 <= i < page.drop_last().len() && listed_of(#[trigger] page.drop_last()[i]) == Some(
                shown[k],
            ) && shown[k].meta == Some(status_of(page.drop_last()[i].open));
        assert(page.drop_last()[i] == page[i]);
        assert(listed_of(page[i]) == Some(listed(page)[k]));
    }
}

/// An issue that a listing does not show can be left out of the page.
pub proof fn lemma_listed_without(page: Seq<IssueView>, i: int)
    requires
        0 <= i < page.len(),
        listed_of(page[i]) is None,
    ensures
        listed(page) == listed(page.remove(i)),
    decreases page.len(),
{
    if i == page.len() - 1 {
        assert(page.remove(i) =~= page.drop_last());
    } else {
        assert(page.drop_last()[i] == page[i]);
        lemma_listed_without(page.drop_last(), i);
        assert(page.remove(i).drop_last() =~= page.drop_last().remove(i));
        assert(page.remove(i).last() == page.last());
    }
}

/// An issue whose body does not hold the opening delimiter is found under no
/// identity, and the listing is what it would be without that issue.
pub proof fn lemma_missing_block(
    stored: Seq<StoredIssue>,
    decode: spec_fn(Seq<char>) -> Option<AnnotationView>,
    i: int,
    id: Seq<char>,
)
    requires
        0 <= i < stored.len(),
        stored[i].body matches Some(text) ==> !contains(text, opening()),
    ensures
        find_in(read_listing(stored, decode), id) != Some(i),
        listed(read_listing(stored, decode)) == listed(read_listing(stored.remove(i), decode)),
{
    let page = read_listing(stored, decode);
    if stored[i].body is Some {
        lemma_no_opening_no_block(stored[i].body->0);
    }
    assert(page[i].block is None);
    lemma_find_in(page, id);
    lemma_listed_without(page, i);
    assert(page.remove(i) =~= read_listing(stored.remove(i), decode));
}

impl Clone for DecodeError {
    fn clone(&self) -> (r: Self)
        ensures
            r.raw@ == self.raw@,
    {
        DecodeError { raw: self.raw.clone() }
    }
}

impl Clone for Embedded {
    fn clone(&self) -> (r: Self)
        ensures
            r@ == self@,
    {
        Embedded {
            prefix: self.prefix.clone(),
            annotation: match &self.annotation {
                Ok(a) => Ok(a.clone()),
                Err(e) => Err(e.clone()),
            },
            suffix: self.suffix.clone(),
        }
    }
}

impl Clone for Issue {
    fn clone(&self) -> (r: Self)
        ensures
            r@ == self@,
    {
        Issue {
            number: self.number,
            open: self.open,
            block: match &self.block {
                Some(b) => Some(b.clone()),
                None => None,
            },
        }
    }
}

impl Embedded {
    /// The block with the given text around it. `decoded` is the annotation
    /// that `payload` decodes to, or nothing where it does not decode: the
    /// block then keeps the payload as found.
    pub fn new(prefix: &str, payload: &str, decoded: Option<Annotation>, suffix: &str) -> (r:
        Embedded)
        ensures
            r@ == (EmbeddedView {
                prefix: prefix@,
                annotation: match decoded {
                    Some(a) => Ok(a@),
                    None => Err(payload@),
                },
                suffix: suffix@,
            }),
    {
        Embedded {
            prefix: prefix.to_owned(),
            annotation: match decoded {
                Some(a) => Ok(a),
                None => Err(DecodeError { raw: payload.to_owned() }),
            },
            suffix: suffix.to_owned(),
        }
    }
}

/// The first issue of `page` whose block decodes to an annotation with
/// identity `id`: its index and its block. The search goes through the page
/// in order and stops at the first such issue.
pub fn find_issue<'a>(page: &'a Vec<Issue>, id: &str) -> (r: Option<(usize, &'a Embedded)>)
    ensures
        match r {
            Some((i, block)) => {
                &&& find_in(issue_views(page@), id@) == Some(i as int)
                &&& issue_views(page@)[i as int].block == Some(block@)
            },
            None => find_in(issue_views(page@), id@) is None,
        },
{
    let ghost views = issue_views(page@);
    let mut i: usize = 0;
    while i < page.len()
        invariant
            i <= page.len(),
            views == issue_views(page@),
            forall|j: int| 0 <= j < i ==> !carries(#[trigger] views[j], id@),
        decreases page.len() - i,
    {
        assert(views[i as int] == page@[i as int]@);
        if let Some(block) = &page[i].block {
            if let Ok(annotation) = &block.annotation {
                if same_text(annotation.id.as_str(), id) {
                    proof {
                        lemma_find_in_is(views, id@, i as int);
                    }
                    return Some((i, block));
                }
            }
        }
        i = i + 1;
    }
    proof {
        lemma_find_in(views, id@);
    }
    None
}

/// `annotation` with its status taken from the issue's state.
pub fn stamp(annotation: &Annotation, open: bool) -> (r: Annotation)
    ensures
        r@ == stamped(annotation@, open),
{
    let mut r = annotation.clone();
    r.meta = Some(
        if open {
            GitHubStatus::Open
        } else {
            GitHubStatus::Closed
        },
    );
    r
}

/// The annotations of `page`, each with the status of its issue. Issues
/// without a block, and blocks that do not decode, are passed over.
pub fn list_page(page: &Vec<Issue>) -> (r: Vec<Annotation>)
    ensures
        annotation_views(r@) == listed(issue_views(page@)),
{
    let ghost views = issue_views(page@);
    let mut r: Vec<Annotation> = Vec::new();
    let mut i: usize = 0;
    assert(views.take(0) =~= Seq::<IssueView>::empty());
    assert(annotation_views(r@) =~= Seq::<AnnotationView>::empty());
    while i < page.len()
        invariant
            i <= page.len(),
            views == issue_views(page@),
            annotation_views(r@) == listed(views.take(i as int)),
        decreases page.len() - i,
    {
        let ghost before = r@;
        proof {
            let next = views.take(i + 1);
            assert(next.drop_last() =~= views.take(i as int));
            assert(next.last() == page@[i as int]@);
        }
        if let Some(block) = &page[i].block {
            if let Ok(annotation) = &block.annotation {
                let a = stamp(annotation, page[i].open);
                r.push(a);
                assert(annotation_views(r@) =~= annotation_views(before).push(a@));
            }
        }
        i = i + 1;
    }
    assert(views.take(i as int) =~= views);
    r
}

} // verus!
