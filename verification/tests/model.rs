use annotations::model::{Annotation, Body, GitHubStatus, Selector, Target};

fn annotation(body: Vec<Body>, selector: Vec<Selector>) -> Annotation {
    Annotation {
        context: "http://www.w3.org/ns/anno.jsonld".to_string(),
        kind: "Annotation".to_string(),
        body,
        target: Target::new(selector),
        id: "abc".to_string(),
        meta: None,
    }
}

fn textual(purpose: &str, value: &str) -> Body {
    Body::TextualBody { purpose: purpose.to_string(), value: value.to_string() }
}

fn quoting(exact: &str) -> Selector {
    Selector::TextQuoteSelector { exact: exact.to_string() }
}

fn position(start: usize, end: usize) -> Selector {
    Selector::TextPositionSelector { start, end }
}

fn expected_comment(a: &Annotation) -> Option<String> {
    let mut comment = None;
    for body in a.body.iter() {
        match body {
            Body::TextualBody { purpose, value } if purpose == "commenting" => {
                comment = Some(value.clone())
            }
            _ => {}
        }
    }
    comment
}

fn expected_quote(a: &Annotation) -> Option<String> {
    let mut quote = None;
    for selector in a.target.selectors().iter() {
        if let Selector::TextQuoteSelector { exact } = selector {
            let joined: String = exact.lines().map(|line| format!("{} ", line.trim())).collect();
            quote = Some(joined.trim().to_string())
        }
    }
    quote
}

fn expected_block_quote(a: &Annotation) -> Option<String> {
    match a.target.selectors().first()? {
        Selector::TextQuoteSelector { exact } => {
            let quote: String =
                exact.lines().map(|line| format!("> {}\r\n", line.trim())).collect();
            Some(quote.trim().to_string())
        }
        _ => None,
    }
}

fn expected_title(a: &Annotation) -> String {
    if let Some(comment) = expected_comment(a) {
        comment
    } else if let Some(quote) = expected_quote(a) {
        quote
    } else {
        "<error: no title>".to_string()
    }
}

fn many_annotations() -> Vec<Annotation> {
    let texts = [
        "",
        " ",
        "calrify",
        "line one\nline two",
        "  line one  \r\n\tline two\t\r\n",
        "a\n\nb",
        "\n",
        "\n\nx\n\n",
        "a\rb",
        "trailing\r",
        "\u{a0}wide\u{3000}\n\u{2003}spaces ",
        "```annotation\nfoo",
        "> quoted\n> again",
    ];
    let mut all = Vec::new();
    for t in texts {
        all.push(annotation(vec![], vec![quoting(t)]));
        all.push(annotation(vec![textual("commenting", t)], vec![]));
        all.push(annotation(vec![textual("tagging", t)], vec![position(1, 2), quoting(t)]));
        all.push(annotation(
            vec![textual("commenting", "first"), textual("commenting", t)],
            vec![quoting("first"), position(0, 9), quoting(t)],
        ));
        all.push(annotation(
            vec![textual("commenting", t), textual("replying", "other")],
            vec![quoting(t), quoting("second\nline")],
        ));
        all.push(annotation(vec![], vec![position(3, 4), quoting(t)]));
    }
    all.push(annotation(vec![], vec![]));
    all.push(annotation(vec![], vec![position(0, 0)]));
    all
}

#[test]
fn title_is_the_comment() {
    let a = annotation(vec![textual("commenting", "Looks good")], vec![]);
    assert_eq!(a.title(), "Looks good");
}

#[test]
fn title_falls_back_to_the_quote() {
    let a = annotation(vec![], vec![quoting("line one\nline two")]);
    assert_eq!(a.title(), "line one line two");
}

#[test]
fn title_prefers_the_comment_to_the_quote() {
    let a = annotation(vec![textual("commenting", "Typo here")], vec![quoting("calrify")]);
    assert_eq!(a.title(), "Typo here");
}

#[test]
fn title_without_comment_or_quote_is_the_sentinel() {
    assert_eq!(annotation(vec![], vec![]).title(), "<error: no title>");
    assert_eq!(annotation(vec![], vec![position(1, 5)]).title(), "<error: no title>");
    assert_eq!(
        annotation(vec![textual("tagging", "x")], vec![position(1, 5)]).title(),
        "<error: no title>"
    );
}

#[test]
fn title_of_an_empty_comment_is_empty() {
    let a = annotation(vec![textual("commenting", "")], vec![quoting("quote")]);
    assert_eq!(a.title(), "");
}

#[test]
fn comment_is_the_last_commenting_entry() {
    let a = annotation(
        vec![
            textual("commenting", "first"),
            textual("tagging", "tag"),
            textual("commenting", "last"),
            textual("replying", "reply"),
        ],
        vec![],
    );
    assert_eq!(a.comment(), Some("last".to_string()));
}

#[test]
fn comment_needs_the_commenting_purpose() {
    assert_eq!(annotation(vec![], vec![]).comment(), None);
    assert_eq!(annotation(vec![textual("tagging", "x")], vec![]).comment(), None);
    assert_eq!(annotation(vec![textual("Commenting", "x")], vec![]).comment(), None);
    assert_eq!(annotation(vec![textual("commenting ", "x")], vec![]).comment(), None);
}

#[test]
fn quote_joins_trimmed_lines_with_single_spaces() {
    let a = annotation(vec![], vec![quoting("  line one  \r\n\tline two\t\r\n")]);
    assert_eq!(a.quote(), Some("line one line two".to_string()));
}

#[test]
fn quote_keeps_a_space_for_an_empty_line() {
    let a = annotation(vec![], vec![quoting("a\n\nb")]);
    assert_eq!(a.quote(), Some("a  b".to_string()));
}

#[test]
fn quote_of_an_empty_text_is_empty() {
    assert_eq!(annotation(vec![], vec![quoting("")]).quote(), Some(String::new()));
    assert_eq!(annotation(vec![], vec![quoting(" \n ")]).quote(), Some(String::new()));
}

#[test]
fn quote_is_that_of_the_last_quote_selector() {
    let a = annotation(
        vec![],
        vec![quoting("first"), position(1, 2), quoting("last"), position(3, 4)],
    );
    assert_eq!(a.quote(), Some("last".to_string()));
}

#[test]
fn quote_ignores_position_selectors() {
    assert_eq!(annotation(vec![], vec![position(1, 2)]).quote(), None);
    assert_eq!(annotation(vec![], vec![]).quote(), None);
}

#[test]
fn block_quote_marks_each_line() {
    let a = annotation(vec![], vec![quoting("a\nb")]);
    assert_eq!(a.text_quote_selector(), Some("> a\r\n> b".to_string()));
}

#[test]
fn block_quote_of_one_word() {
    let a = annotation(vec![], vec![quoting("calrify")]);
    assert_eq!(a.text_quote_selector(), Some("> calrify".to_string()));
}

#[test]
fn block_quote_trims_lines_and_the_whole() {
    let a = annotation(vec![], vec![quoting("  a  \r\n\n b\n\n")]);
    assert_eq!(a.text_quote_selector(), Some("> a\r\n> \r\n> b\r\n>".to_string()));
}

#[test]
fn block_quote_of_an_empty_text_is_empty() {
    assert_eq!(annotation(vec![], vec![quoting("")]).text_quote_selector(), Some(String::new()));
}

#[test]
fn block_quote_looks_at_the_first_selector_only() {
    let a = annotation(vec![], vec![position(1, 2), quoting("later")]);
    assert_eq!(a.text_quote_selector(), None);
    assert_eq!(a.quote(), Some("later".to_string()));
    let b = annotation(vec![], vec![quoting("first"), quoting("second")]);
    assert_eq!(b.text_quote_selector(), Some("> first".to_string()));
    assert_eq!(b.quote(), Some("second".to_string()));
    assert_eq!(annotation(vec![], vec![]).text_quote_selector(), None);
}

#[test]
fn derived_texts_agree_with_std_on_many_annotations() {
    for a in many_annotations() {
        assert_eq!(a.comment(), expected_comment(&a), "{:?}", a);
        assert_eq!(a.quote(), expected_quote(&a), "{:?}", a);
        assert_eq!(a.text_quote_selector(), expected_block_quote(&a), "{:?}", a);
        assert_eq!(a.title(), expected_title(&a), "{:?}", a);
    }
}

#[test]
fn derived_texts_do_not_depend_on_the_status() {
    let mut a = annotation(vec![textual("commenting", "c")], vec![quoting("q")]);
    let title = a.title();
    a.meta = Some(GitHubStatus::Closed);
    assert_eq!(a.title(), title);
}

#[test]
fn clone_gives_an_equal_annotation() {
    for a in many_annotations() {
        assert_eq!(a.clone(), a);
    }
    let mut a = annotation(vec![textual("commenting", "c")], vec![quoting("q"), position(1, 2)]);
    a.meta = Some(GitHubStatus::Open);
    let b = a.clone();
    assert_eq!(b, a);
    assert_eq!(b.meta, Some(GitHubStatus::Open));
    assert_eq!(b.target.selectors().len(), 2);
}

#[test]
fn target_hands_out_its_selectors() {
    let t = Target::new(vec![position(1, 2), quoting("q")]);
    assert_eq!(t.selectors(), &vec![position(1, 2), quoting("q")]);
    assert_eq!(t.clone(), t);
}

#[test]
fn derived_texts_agree_with_std_on_generated_annotations() {
    let alphabet = [' ', '\t', '\n', '\r', 'a', 'b', '`', '>', '\u{a0}', '\u{e9}'];
    let purposes = ["commenting", "tagging", "commenting ", "replying"];
    let mut state: u64 = 0x9e37_79b9_7f4a_7c15;
    let mut next = move || {
        state = state.wrapping_mul(6364136223846793005).wrapping_add(1442695040888963407);
        (state >> 33) as usize
    };
    for _ in 0..1500 {
        let mut body = Vec::new();
        for _ in 0..next() % 4 {
            let mut value = String::new();
            for _ in 0..next() % 8 {
                value.push(alphabet[next() % alphabet.len()]);
            }
            body.push(textual(purposes[next() % purposes.len()], &value));
        }
        let mut selector = Vec::new();
        for _ in 0..next() % 4 {
            if next() % 3 == 0 {
                selector.push(position(next() % 100, next() % 100));
            } else {
                let mut exact = String::new();
                for _ in 0..next() % 14 {
                    exact.push(alphabet[next() % alphabet.len()]);
                }
                selector.push(quoting(&exact));
            }
        }
        let a = annotation(body, selector);
        assert_eq!(a.comment(), expected_comment(&a), "{:?}", a);
        assert_eq!(a.quote(), expected_quote(&a), "{:?}", a);
        assert_eq!(a.text_quote_selector(), expected_block_quote(&a), "{:?}", a);
        assert_eq!(a.title(), expected_title(&a), "{:?}", a);
    }
}
