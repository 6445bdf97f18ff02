use annotations::{
    embed, extract_annotation, find_issue, list_page, stamp, Annotation, Body, DecodeError,
    Embedded, GitHubStatus, Issue, Selector, Target,
};

fn note(id: &str, meta: Option<GitHubStatus>) -> Annotation {
    Annotation {
        context: "http://www.w3.org/ns/anno.jsonld".to_string(),
        kind: "Annotation".to_string(),
        body: vec![Body::TextualBody {
            purpose: "commenting".to_string(),
            value: format!("comment of {}", id),
        }],
        target: Target::new(vec![Selector::TextQuoteSelector { exact: "quoted".to_string() }]),
        id: id.to_string(),
        meta,
    }
}

fn holding(number: u64, open: bool, a: Annotation) -> Issue {
    Issue { number, open, block: Some(Embedded::new("before ", "payload", Some(a), " after")) }
}

fn undecodable(number: u64, open: bool) -> Issue {
    Issue { number, open, block: Some(Embedded::new("", "{ not json", None, "")) }
}

fn blockless(number: u64, open: bool) -> Issue {
    Issue { number, open, block: None }
}

fn block_in(body: Option<&str>, decoded: Option<Annotation>) -> Option<Embedded> {
    let (prefix, payload, suffix) = extract_annotation(body?)?;
    Some(Embedded::new(prefix, payload, decoded, suffix))
}

#[test]
fn embedded_keeps_the_annotation_that_was_decoded() {
    let e = Embedded::new("p", "payload", Some(note("abc", None)), "s");
    assert_eq!(e.prefix, "p");
    assert_eq!(e.suffix, "s");
    assert_eq!(e.annotation, Ok(note("abc", None)));
}

#[test]
fn embedded_keeps_the_payload_that_was_not_decoded() {
    let e = Embedded::new("p", "{ \"id\": 7 }", None, "s");
    assert_eq!(e.prefix, "p");
    assert_eq!(e.suffix, "s");
    assert_eq!(e.annotation, Err(DecodeError { raw: "{ \"id\": 7 }".to_string() }));
}

#[test]
fn find_gives_the_first_issue_with_the_identity() {
    let page = vec![
        holding(10, true, note("a", None)),
        holding(11, false, note("b", None)),
        holding(12, true, note("b", None)),
    ];
    let (i, block) = find_issue(&page, "b").unwrap();
    assert_eq!(i, 1);
    assert_eq!(page[i].number, 11);
    assert_eq!(block.annotation, Ok(note("b", None)));
    assert_eq!(block.prefix, "before ");
    assert_eq!(block.suffix, " after");
    assert_eq!(find_issue(&page, "a").map(|(i, _)| i), Some(0));
}

#[test]
fn find_gives_nothing_where_no_issue_has_the_identity() {
    let page = vec![holding(10, true, note("a", None)), holding(11, false, note("b", None))];
    assert_eq!(find_issue(&page, "c"), None);
    assert_eq!(find_issue(&page, ""), None);
    assert_eq!(find_issue(&page, "A"), None);
    assert_eq!(find_issue(&Vec::new(), "a"), None);
}

#[test]
fn find_passes_over_issues_without_a_block_and_blocks_that_do_not_decode() {
    let page = vec![
        blockless(1, true),
        undecodable(2, true),
        holding(3, false, note("abc", None)),
        holding(4, true, note("abc", None)),
    ];
    assert_eq!(find_issue(&page, "abc").map(|(i, _)| i), Some(2));
    let none = vec![blockless(1, true), undecodable(2, true)];
    assert_eq!(find_issue(&none, "abc"), None);
    assert_eq!(find_issue(&none, "{ not json"), None);
}

#[test]
fn find_does_not_look_at_the_status() {
    let page = vec![holding(3, false, note("abc", Some(GitHubStatus::Open)))];
    assert_eq!(
        find_issue(&page, "abc").map(|(_, b)| b.annotation.clone()),
        Some(Ok(note("abc", Some(GitHubStatus::Open))))
    );
}

#[test]
fn stamp_sets_the_status_and_nothing_else() {
    assert_eq!(stamp(&note("a", None), true), note("a", Some(GitHubStatus::Open)));
    assert_eq!(stamp(&note("a", None), false), note("a", Some(GitHubStatus::Closed)));
    assert_eq!(
        stamp(&note("a", Some(GitHubStatus::Open)), false),
        note("a", Some(GitHubStatus::Closed))
    );
    assert_eq!(
        stamp(&note("a", Some(GitHubStatus::Closed)), true),
        note("a", Some(GitHubStatus::Open))
    );
}

#[test]
fn listing_reports_the_state_of_the_issue() {
    let page = vec![
        holding(1, false, note("a", Some(GitHubStatus::Open))),
        holding(2, false, note("b", None)),
        holding(3, true, note("c", Some(GitHubStatus::Closed))),
        holding(4, true, note("d", None)),
    ];
    assert_eq!(
        list_page(&page),
        vec![
            note("a", Some(GitHubStatus::Closed)),
            note("b", Some(GitHubStatus::Closed)),
            note("c", Some(GitHubStatus::Open)),
            note("d", Some(GitHubStatus::Open)),
        ]
    );
}

#[test]
fn listing_passes_over_issues_without_a_block_and_blocks_that_do_not_decode() {
    let page = vec![
        blockless(1, true),
        holding(2, true, note("a", None)),
        undecodable(3, false),
        holding(4, false, note("b", None)),
        blockless(5, false),
    ];
    assert_eq!(
        list_page(&page),
        vec![note("a", Some(GitHubStatus::Open)), note("b", Some(GitHubStatus::Closed))]
    );
    assert_eq!(list_page(&vec![blockless(1, true), undecodable(2, true)]), Vec::new());
    assert_eq!(list_page(&Vec::new()), Vec::new());
}

#[test]
fn listing_shows_every_issue_of_one_identity() {
    let page = vec![holding(1, true, note("a", None)), holding(2, false, note("a", None))];
    assert_eq!(
        list_page(&page),
        vec![note("a", Some(GitHubStatus::Open)), note("a", Some(GitHubStatus::Closed))]
    );
}

#[test]
fn a_body_without_the_opening_delimiter_is_neither_found_nor_listed() {
    let bodies = [
        None,
        Some(""),
        Some("an ordinary issue"),
        Some("```\r\n{\"id\": \"abc\"}\r\n```"),
        Some("```annotation\n{\"id\": \"abc\"}\r\n```"),
    ];
    let mut page = Vec::new();
    for (n, body) in bodies.iter().enumerate() {
        let block = block_in(*body, Some(note("abc", None)));
        assert_eq!(block, None);
        page.push(Issue { number: n as u64, open: true, block });
    }
    assert_eq!(find_issue(&page, "abc"), None);
    assert_eq!(list_page(&page), Vec::new());
}

#[test]
fn a_body_with_a_block_is_found_and_listed() {
    let body = embed("> quoted\r\n", "payload", "\r\n</details>");
    let block = block_in(Some(&body), Some(note("abc", None)));
    let page = vec![blockless(1, true), Issue { number: 2, open: false, block }];
    let (i, found) = find_issue(&page, "abc").unwrap();
    assert_eq!(i, 1);
    assert_eq!(found.prefix, "> quoted\r\n");
    assert_eq!(found.suffix, "\r\n</details>");
    assert_eq!(list_page(&page), vec![note("abc", Some(GitHubStatus::Closed))]);
}
