use annotations::{embed, extract_annotation};

#[test]
fn extract_finds_the_block() {
    let text = "before\r\n```annotation\r\n{\"id\":\"abc\"}\r\n```\r\nafter";
    assert_eq!(extract_annotation(text), Some(("before\r\n", "{\"id\":\"abc\"}", "\r\nafter")));
}

#[test]
fn extract_without_opening_delimiter_finds_nothing() {
    assert_eq!(extract_annotation(""), None);
    assert_eq!(extract_annotation("just text"), None);
    assert_eq!(extract_annotation("```\r\ncode\r\n```"), None);
    assert_eq!(extract_annotation("``annotation\r\n{}\r\n```"), None);
}

#[test]
fn extract_without_closing_delimiter_finds_nothing() {
    assert_eq!(extract_annotation("```annotation\r\n{}"), None);
    assert_eq!(extract_annotation("```annotation\r\n{}\r\n``"), None);
    assert_eq!(extract_annotation("\r\n```\r\n```annotation\r\n{}"), None);
}

#[test]
fn extract_needs_carriage_returns() {
    assert_eq!(extract_annotation("```annotation\n{}\n```"), None);
    assert_eq!(extract_annotation("```annotation\n{}\r\n```"), None);
    assert_eq!(extract_annotation("```annotation\r\n{}\n```"), None);
}

#[test]
fn extract_cuts_at_the_first_delimiters() {
    let text = "a```annotation\r\nb```annotation\r\nc\r\n```d\r\n```e";
    assert_eq!(extract_annotation(text), Some(("a", "b```annotation\r\nc", "d\r\n```e")));
}

#[test]
fn extract_of_an_empty_block() {
    assert_eq!(extract_annotation("```annotation\r\n\r\n```"), Some(("", "", "")));
}

#[test]
fn extract_passes_the_text_around_the_block_through() {
    let text = "  h\u{e9}llo \u{1f600}\n\t```annotation\r\npayload\r\n``` \u{3000}w\u{f6}rld\r\n";
    assert_eq!(
        extract_annotation(text),
        Some(("  h\u{e9}llo \u{1f600}\n\t", "payload", " \u{3000}w\u{f6}rld\r\n"))
    );
}

#[test]
fn embed_writes_the_delimiters_around_the_payload() {
    assert_eq!(embed("p", "x", "s"), "p```annotation\r\nx\r\n```s");
    assert_eq!(embed("", "", ""), "```annotation\r\n\r\n```");
}

#[test]
fn extract_undoes_embed() {
    let prefixes = ["", "> quote\r\n\r\n---\r\n", "text with ``` fences\r\n```\r\n", "\u{e9}"];
    let payloads = ["", "{}", "{\n  \"id\": \"abc\"\n}", "with ``` inside", "```annotation\r\n"];
    let suffixes = ["", "\r\n</details>", "```annotation\r\nsecond\r\n```", "\r\n```"];
    for p in prefixes {
        for a in payloads {
            for s in suffixes {
                let text = embed(p, a, s);
                assert_eq!(extract_annotation(&text), Some((p, a, s)), "{:?}", text);
            }
        }
    }
}

#[test]
fn embed_undoes_extract() {
    let texts = [
        "```annotation\r\n\r\n```",
        "a```annotation\r\nb```annotation\r\nc\r\n```d\r\n```e",
        "before\r\n```annotation\r\n{\"id\":\"abc\"}\r\n```\r\nafter",
    ];
    for text in texts {
        let (prefix, payload, suffix) = extract_annotation(text).unwrap();
        assert_eq!(embed(prefix, payload, suffix), text);
    }
}

#[test]
fn a_payload_with_the_closing_delimiter_is_cut_short() {
    let text = embed("p", "one\r\n```two", "s");
    assert_eq!(extract_annotation(&text), Some(("p", "one", "two\r\n```s")));
}

#[test]
fn a_prefix_with_the_opening_delimiter_takes_over() {
    let text = embed("x```annotation\r\ny", "payload", "s");
    assert_eq!(extract_annotation(&text), Some(("x", "y```annotation\r\npayload", "s")));
}
