//! The annotation: its shape, its mathematical view, and the texts derived
//! from it for a human reader of the tracker.

use crate::text::{lines, lines_of, same_text, texts, trim, trimmed};
use vstd::prelude::*;

verus! {

/// Whether the tracker issue that holds an annotation is open or closed.
#[derive(Clone, Copy, Debug, PartialEq, Eq, Structural)]
pub enum GitHubStatus {
    Open,
    Closed,
}

/// One entry of an annotation's body.
#[derive(Debug, PartialEq, Eq)]
pub enum Body {
    TextualBody { purpose: String, value: String },
}

/// Where in the document an annotation attaches.
#[derive(Debug, PartialEq, Eq)]
pub enum Selector {
    TextQuoteSelector { exact: String },
    TextPositionSelector { start: usize, end: usize },
}

/// The selectors of an annotation, in order.
#[derive(Debug, PartialEq, Eq)]
pub struct Target {
    selector: Vec<Selector>,
}

/// A comment or highlight anchored in a reference document.
#[derive(Debug, PartialEq, Eq)]
pub struct Annotation {
    /// The namespace, `@context` on the wire.
    pub context: String,
    /// The tag, `type` on the wire.
    pub kind: String,
    pub body: Vec<Body>,
    pub target: Target,
    pub id: String,
    pub meta: Option<GitHubStatus>,
}

pub enum BodyView {
    TextualBody { purpose: Seq<char>, value: Seq<char> },
}

pub enum SelectorView {
    TextQuoteSelector { exact: Seq<char> },
    TextPositionSelector { start: usize, end: usize },
}

pub struct TargetView {
    pub selector: Seq<SelectorView>,
}

pub struct AnnotationView {
    pub context: Seq<char>,
    pub kind: Seq<char>,
    pub body: Seq<BodyView>,
    pub target: TargetView,
    pub id: Seq<char>,
    pub meta: Option<GitHubStatus>,
}

impl View for Body {
    type V = BodyView;

    open spec fn view(&self) -> BodyView {
        match self {
            Body::TextualBody { purpose, value } => BodyView::TextualBody {
                purpose: purpose@,
                value: value@,
            },
        }
    }
}

impl View for Selector {
    type V = SelectorView;

    open spec fn view(&self) -> SelectorView {
        match self {
            Selector::TextQuoteSelector { exact } => SelectorView::TextQuoteSelector {
                exact: exact@,
            },
            Selector::TextPositionSelector { start, end } => SelectorView::TextPositionSelector {
                start: *start,
                end: *end,
            },
        }
    }
}

impl View for Target {
    type V = TargetView;

    closed spec fn view(&self) -> TargetView {
        TargetView { selector: selector_views(self.selector@) }
    }
}

impl View for Annotation {
    type V = AnnotationView;

    open spec fn view(&self) -> AnnotationView {
        AnnotationView {
            context: self.context@,
            kind: self.kind@,
            body: body_views(self.body@),
            target: self.target@,
            id: self.id@,
            meta: self.meta,
        }
    }
}

/// The views of body entries.
pub open spec fn body_views(body: Seq<Body>) -> Seq<BodyView> {
    body.map_values(|b: Body| b@)
}

/// The views of selectors.
pub open spec fn selector_views(selector: Seq<Selector>) -> Seq<SelectorView> {
    selector.map_values(|s: Selector| s@)
}

/// The views of annotations.
pub open spec fn annotation_views(annotations: Seq<Annotation>) -> Seq<AnnotationView> {
    annotations.map_values(|a: Annotation| a@)
}

/// The purpose that marks a body entry as a comment.
pub open spec fn commenting() -> Seq<char> {
    "commenting"@
}

/// The title of an annotation from which neither a comment nor a quote can be derived.
pub open spec fn no_title() -> Seq<char> {
    "<error: no title>"@
}

/// The value of the last body entry whose purpose is commenting.
pub open spec fn comment_of(body: Seq<BodyView>) -> Option<Seq<char>>
    decreases body.len(),
{
    if body.len() == 0 {
        None
    } else {
        match body.last() {
            BodyView::TextualBody { purpose, value } => if purpose == commenting() {
                Some(value)
            } else {
                comment_of(body.drop_last())
            },
        }
    }
}

/// Each line trimmed and set between `before` and `after`.
pub open spec fn framed(lines: Seq<Seq<char>>, before: Seq<char>, after: Seq<char>) -> Seq<char>
    decreases lines.len(),
{
    if lines.len() == 0 {
        Seq::empty()
    } else {
        framed(lines.drop_last(), before, after) + before + trimmed(lines.last()) + after
    }
}

/// The lines of `exact`, each trimmed and followed by one space, trimmed as a whole.
pub open spec fn quote_text(exact: Seq<char>) -> Seq<char> {
    trimmed(framed(lines_of(exact), Seq::empty(), " "@))
}

/// The quote text of the last text-quote selector.
pub open spec fn quote_of(selector: Seq<SelectorView>) -> Option<Seq<char>>
    decreases selector.len(),
{
    if selector.len() == 0 {
        None
    } else {
        match selector.last() {
            SelectorView::TextQuoteSelector { exact } => Some(quote_text(exact)),
            _ => quote_of(selector.drop_last()),
        }
    }
}

/// The lines of `exact` as a block quote: each trimmed, behind a quote mark
/// and followed by a line break, trimmed as a whole.
pub open spec fn block_quote(exact: Seq<char>) -> Seq<char> {
    trimmed(framed(lines_of(exact), "> "@, "\r\n"@))
}

/// The block quote of the first selector, where that is a text-quote selector.
pub open spec fn block_quote_of(selector: Seq<SelectorView>) -> Option<Seq<char>> {
    if selector.len() == 0 {
        None
    } else {
        match selector.first() {
            SelectorView::TextQuoteSelector { exact } => Some(block_quote(exact)),
            _ => None,
        }
    }
}

/// The comment, else the quote, else a fixed sentinel.
pub open spec fn title_of(a: AnnotationView) -> Seq<char> {
    match comment_of(a.body) {
        Some(comment) => comment,
        None => match quote_of(a.target.selector) {
            Some(quote) => quote,
            None => no_title(),
        },
    }
}

/// The view of a string that may be absent.
pub open spec fn text_of(s: Option<String>) -> Option<Seq<char>> {
    match s {
        Some(s) => Some(s@),
        None => None,
    }
}

/// The lines of `exact`, each trimmed and set between `before` and `after`,
/// trimmed as a whole.
fn render_lines(exact: &str, before: &str, after: &str) -> (r: String)
    ensures
        r@ == trimmed(framed(lines_of(exact@), before@, after@)),
{
    let ls = lines(exact);
    let mut out = String::new();
    let mut i: usize = 0;
    assert(texts(ls@).take(0) =~= Seq::<Seq<char>>::empty());
    while i < ls.len()
        invariant
            i <= ls.len(),
            out@ == framed(texts(ls@).take(i as int), before@, after@),
        decreases ls.len() - i,
    {
        let ghost done = out@;
        out.append(before);
        out.append(trim(ls[i]));
        out.append(after);
        proof {
            let next = texts(ls@).take(i + 1);
            assert(next.drop_last() =~= texts(ls@).take(i as int));
            assert(next.last() == ls@[i as int]@);
            assert(out@ =~= done + before@ + trimmed(ls@[i as int]@) + after@);
        }
        i = i + 1;
    }
    assert(texts(ls@).take(i as int) =~= texts(ls@));
    trim(out.as_str()).to_owned()
}

impl Clone for Body {
    fn clone(&self) -> (r: Self)
        ensures
            r@ == self@,
    {
        match self {
            Body::TextualBody { purpose, value } => Body::TextualBody {
                purpose: purpose.clone(),
                value: value.clone(),
            },
        }
    }
}

impl Clone for Selector {
    fn clone(&self) -> (r: Self)
        ensures
            r@ == self@,
    {
        match self {
            Selector::TextQuoteSelector { exact } => Selector::TextQuoteSelector {
                exact: exact.clone(),
            },
            Selector::TextPositionSelector { start, end } => Selector::TextPositionSelector {
                start: *start,
                end: *end,
            },
        }
    }
}

impl Clone for Target {
    fn clone(&self) -> (r: Self)
        ensures
            r@ == self@,
    {
        let mut selector: Vec<Selector> = Vec::new();
        let mut i: usize = 0;
        while i < self.selector.len()
            invariant
                i <= self.selector.len(),
                selector_views(selector@) == selector_views(self.selector@).take(i as int),
            decreases self.selector.len() - i,
        {
            let ghost before = selector@;
            selector.push(self.selector[i].clone());
            proof {
                assert(selector_views(selector@) =~= selector_views(before).push(
                    self.selector@[i as int]@,
                ));
                assert(selector_views(self.selector@).take(i + 1) =~= selector_views(
                    self.selector@,
                ).take(i as int).push(self.selector@[i as int]@));
            }
            i = i + 1;
        }
        assert(selector_views(self.selector@).take(i as int) =~= selector_views(self.selector@));
        Target { selector }
    }
}

impl Clone for Annotation {
    fn clone(&self) -> (r: Self)
        ensures
            r@ == self@,
    {
        let mut body: Vec<Body> = Vec::new();
        let mut i: usize = 0;
        while i < self.body.len()
            invariant
                i <= self.body.len(),
                body_views(body@) == body_views(self.body@).take(i as int),
            decreases self.body.len() - i,
        {
            let ghost before = body@;
            body.push(self.body[i].clone());
            proof {
                assert(body_views(body@) =~= body_views(before).push(self.body@[i as int]@));
                assert(body_views(self.body@).take(i + 1) =~= body_views(self.body@).take(
                    i as int,
                ).push(self.body@[i as int]@));
            }
            i = i + 1;
        }
        assert(body_views(self.body@).take(i as int) =~= body_views(self.body@));
        Annotation {
            context: self.context.clone(),
            kind: self.kind.clone(),
            body,
            target: self.target.clone(),
            id: self.id.clone(),
            meta: self.meta,
        }
    }
}

impl Target {
    /// A target of the given selectors.
    pub fn new(selector: Vec<Selector>) -> (r: Target)
        ensures
            r@.selector == selector_views(selector@),
    {
        Target { selector }
    }

    /// The selectors, in order.
    pub fn selectors(&self) -> (r: &Vec<Selector>)
        ensures
            selector_views(r@) == self@.selector,
    {
        &self.selector
    }
}

impl Annotation {
    /// The title under which the annotation is filed: its comment, else its
    /// quote, else a fixed sentinel.
    pub fn title(&self) -> (r: String)
        ensures
            r@ == title_of(self@),
    {
        if let Some(comment) = self.comment() {
            comment
        } else if let Some(quote) = self.quote() {
            quote
        } else {
            "<error: no title>".to_owned()
        }
    }

    /// The quoted text in one line, from the last text-quote selector.
    pub fn quote(&self) -> (r: Option<String>)
        ensures
            text_of(r) == quote_of(self@.target.selector),
    {
        let selector = self.target.selectors();
        let ghost views = selector_views(selector@);
        let mut quote: Option<String> = None;
        let mut i: usize = 0;
        assert(views.take(0) =~= Seq::<SelectorView>::empty());
        while i < selector.len()
            invariant
                i <= selector.len(),
                views == selector_views(selector@),
                text_of(quote) == quote_of(views.take(i as int)),
            decreases selector.len() - i,
        {
            proof {
                let next = views.take(i + 1);
                assert(next.drop_last() =~= views.take(i as int));
                assert(next.last() == selector@[i as int]@);
            }
            match &selector[i] {
                Selector::TextQuoteSelector { exact } => {
                    proof {
                        reveal_strlit("");
                        assert(""@ =~= Seq::<char>::empty());
                    }
                    quote = Some(render_lines(exact.as_str(), "", " "));
                },
                _ => {},
            }
            i = i + 1;
        }
        assert(views.take(i as int) =~= views);
        quote
    }

    /// The value of the last body entry whose purpose is commenting.
    pub fn comment(&self) -> (r: Option<String>)
        ensures
            text_of(r) == comment_of(self@.body),
    {
        let ghost views = body_views(self.body@);
        let mut comment: Option<String> = None;
        let mut i: usize = 0;
        assert(views.take(0) =~= Seq::<BodyView>::empty());
        while i < self.body.len()
            invariant
                i <= self.body.len(),
                views == body_views(self.body@),
                text_of(comment) == comment_of(views.take(i as int)),
            decreases self.body.len() - i,
        {
            proof {
                let next = views.take(i + 1);
                assert(next.drop_last() =~= views.take(i as int));
                assert(next.last() == self.body@[i as int]@);
            }
            match &self.body[i] {
                Body::TextualBody { purpose, value } => {
                    if same_text(purpose.as_str(), "commenting") {
                        comment = Some(value.clone());
                    }
                },
            }
            i = i + 1;
        }
        assert(views.take(i as int) =~= views);
        comment
    }

    /// The quoted text as a block quote, from the first selector alone.
    pub fn text_quote_selector(&self) -> (r: Option<String>)
        ensures
            text_of(r) == block_quote_of(self@.target.selector),
    {
        let selector = self.target.selectors();
        if selector.len() == 0 {
            return None;
        }
        assert(selector_views(selector@).first() == selector@[0]@);
        match &selector[0] {
            Selector::TextQuoteSelector { exact } => Some(
                render_lines(exact.as_str(), "> ", "\r\n"),
            ),
            _ => None,
        }
    }
}

} // verus!
