use annotations::{render_index, Config, Mode, ServerState};

#[test]
fn read_only_mode_does_not_allow_writes() {
    assert!(!Mode::ReadOnly.allows_writes());
    assert!(Mode::ReadWrite("pat.txt".to_string()).allows_writes());
    assert!(Mode::ReadWrite(String::new()).allows_writes());
}

#[test]
fn mode_is_reported_as_json() {
    assert_eq!(Mode::ReadOnly.report(), "{ \"readOnly\": true }");
    assert_eq!(Mode::ReadWrite("pat.txt".to_string()).report(), "{ \"readOnly\": false }");
}

#[test]
fn index_shows_the_document() {
    assert_eq!(
        render_index("<body>{DOCUMENT}</body>", "<p>text</p>"),
        "<body><p>text</p></body>"
    );
    assert_eq!(render_index("{DOCUMENT}{DOCUMENT}", "ab"), "abab");
    assert_eq!(render_index("no slot", "ab"), "no slot");
    assert_eq!(render_index("{DOCUMENT", "ab"), "{DOCUMENT");
    assert_eq!(render_index("{document}", "ab"), "{document}");
    assert_eq!(render_index("a{DOCUMENT}b", ""), "ab");
}

#[test]
fn index_does_not_fill_slots_that_the_document_brings() {
    assert_eq!(render_index("[{DOCUMENT}]", "{DOCUMENT}"), "[{DOCUMENT}]");
}

#[test]
fn server_state_holds_the_configuration() {
    let config = Config {
        owner: "openmls".to_string(),
        repo: "annotations".to_string(),
        mode: Mode::ReadOnly,
        document: "document.html".to_string(),
    };
    let state = ServerState { config: config.clone() };
    assert_eq!(state.config.owner, "openmls");
    assert_eq!(state.config.repo, "annotations");
    assert_eq!(state.config.mode, Mode::ReadOnly);
    assert_eq!(state.config.document, "document.html");
    assert_eq!(state.clone().config.repo, config.repo);
}
