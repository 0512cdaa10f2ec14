use mini_rag::app::OpenAPIAgent;
use mini_rag::errors::Error;
use mini_rag::server::{parse_command, trim_line, Command, API, PORT};

fn small_agent() -> OpenAPIAgent {
    // a short corpus: one chunk under the OpenAPI chunking parameters,
    // so exactly one embedding row is needed
    OpenAPIAgent::new("GET /pets: List pets\n", vec![vec![100]]).unwrap()
}

#[test]
fn default_port_is_kept() {
    assert_eq!(PORT, 7878);
}

#[test]
fn command_parsing_selects_by_first_token() {
    assert!(matches!(parse_command("ls"), Command::Ls));
    assert!(matches!(parse_command("  ls  "), Command::Ls));
    match parse_command("apiadd source1") {
        Command::ApiAdd(s) => assert_eq!(s, "source1"),
        _ => panic!("expected ApiAdd"),
    }
    match parse_command("ask what is   up") {
        Command::Ask(q) => assert_eq!(q, "what is up"),
        _ => panic!("expected Ask"),
    }
    match parse_command("set some key") {
        Command::Select(k) => assert_eq!(k, "some key"),
        _ => panic!("expected Select"),
    }
    assert!(matches!(parse_command("frobnicate"), Command::Unknown));
    // any Unicode white space separates tokens
    assert!(matches!(parse_command("ls\u{A0}"), Command::Ls));
    assert!(matches!(parse_command(""), Command::Unknown));
    assert!(matches!(parse_command("apiadd"), Command::Malformed));
}

#[test]
fn trim_strips_trailing_line_endings() {
    assert_eq!(trim_line("cmd arg\r\n"), "cmd arg");
    assert_eq!(trim_line("cmd arg"), "cmd arg");
    assert_eq!(trim_line("  \r\n"), "");
}

#[test]
fn registering_same_source_twice_is_rejected() {
    let mut api = API::new().unwrap();
    let r1 = api.execute(
        Command::ApiAdd("source1".to_string()),
        Some(small_agent()),
        None,
    );
    assert_eq!(r1, "Success");
    let r2 = api.execute(
        Command::ApiAdd("source1".to_string()),
        Some(small_agent()),
        None,
    );
    assert_eq!(r2, "Key already exists");
    // the registry and the current selection are untouched: the listing
    // holds exactly one entry, still marked current
    let listing = api.execute(Command::Ls, None, None);
    assert_eq!(listing, "[1] OpenAPI agent @ source1 (current)\n");
}

#[test]
fn ask_before_any_registration_reports_no_current_agent() {
    let mut api = API::new().unwrap();
    let r = api.execute(Command::Ask("anything".to_string()), None, Some(vec![]));
    assert_eq!(r, "No current agent");
    // the service keeps serving: the next command still answers
    assert_eq!(api.execute(Command::Ls, None, None), "");
}

#[test]
fn ask_forwards_to_current_agent() {
    let mut api = API::new().unwrap();
    api.execute(
        Command::ApiAdd("source1".to_string()),
        Some(small_agent()),
        None,
    );
    let r = api.execute(
        Command::Ask("pets".to_string()),
        None,
        Some(vec![1000]),
    );
    assert_eq!(r, "[10.0% match]\nGET /pets: List pets\n\n\n");
}

#[test]
fn select_moves_the_current_marker() {
    let mut api = API::new().unwrap();
    api.execute(Command::ApiAdd("a".to_string()), Some(small_agent()), None);
    api.execute(Command::ApiAdd("b".to_string()), Some(small_agent()), None);
    let listing = api.execute(Command::Ls, None, None);
    assert_eq!(
        listing,
        "[1] OpenAPI agent @ a\n[2] OpenAPI agent @ b (current)\n"
    );
    let r = api.execute(Command::Select("OpenAPI agent @ a".to_string()), None, None);
    assert_eq!(r, "Success");
    let listing = api.execute(Command::Ls, None, None);
    assert_eq!(
        listing,
        "[1] OpenAPI agent @ a (current)\n[2] OpenAPI agent @ b\n"
    );
}

#[test]
fn selecting_an_unknown_key_changes_nothing() {
    let mut api = API::new().unwrap();
    api.execute(Command::ApiAdd("a".to_string()), Some(small_agent()), None);
    let r = api.execute(Command::Select("nope".to_string()), None, None);
    assert_eq!(r, Error::UnknownKey.message());
    let listing = api.execute(Command::Ls, None, None);
    assert_eq!(listing, "[1] OpenAPI agent @ a (current)\n");
}

#[test]
fn unknown_and_malformed_commands_answer_without_closing() {
    let mut api = API::new().unwrap();
    assert_eq!(api.execute(Command::Unknown, None, None), "Unknown input");
    assert_eq!(
        api.execute(Command::Malformed, None, None),
        Error::ProtocolFrame.message()
    );
    assert_eq!(api.execute(Command::Ls, None, None), "");
}

#[test]
fn error_messages_are_stable_texts() {
    assert_eq!(Error::NoCurrentAgent.message(), "No current agent");
    assert_eq!(Error::DuplicateKey.message(), "Key already exists");
    assert_eq!(Error::UnknownKey.message(), "Unknown agent key");
    assert_eq!(Error::Config.message(), "Invalid chunk configuration");
    assert_eq!(Error::Embedding.message(), "Embedding failure");
    assert_eq!(Error::EmptyStore.message(), "Store is empty");
    assert_eq!(Error::ProtocolFrame.message(), "Malformed request");
    assert_eq!(Error::Ingestion.message(), "Ingestion failure");
}
