use qfinder::daemon::{
    accepted_length, clipboard_enabled_or_default, fixed_response, frame_length,
    needs_schema_reset, parse_command, response_header, watch_dirs_or_default, Command,
    MAX_MESSAGE_BYTES, decode_request, config_from_json,
};

#[test]
fn frame_lengths_are_big_endian() {
    for b in [[0u8, 0, 1, 2], [255, 255, 255, 255], [0, 0, 0, 0], [1, 0, 0, 0]] {
        assert_eq!(frame_length(b), u32::from_be_bytes(b));
    }
    assert_eq!(frame_length([0, 0, 1, 2]), 258);
}

#[test]
fn response_headers_are_big_endian() {
    for n in [0usize, 1, 258, 65536, 4294967295, 4294967296, 4294967300] {
        assert_eq!(response_header(n), (n as u32).to_be_bytes());
    }
}

#[test]
fn header_round_trip() {
    for n in [0usize, 7, 1048576, 123456789] {
        assert_eq!(frame_length(response_header(n)) as usize, n);
    }
}

#[test]
fn accepted_lengths() {
    assert_eq!(accepted_length(0), None);
    assert_eq!(accepted_length(1), Some(1));
    assert_eq!(accepted_length(MAX_MESSAGE_BYTES), Some(1048576));
    assert_eq!(accepted_length(MAX_MESSAGE_BYTES + 1), None);
}

#[test]
fn commands() {
    assert_eq!(parse_command(Some("search")), Command::Search);
    assert_eq!(parse_command(Some("clear_clipboard")), Command::ClearClipboard);
    assert_eq!(parse_command(Some("Search")), Command::Unknown);
    assert_eq!(parse_command(None), Command::Unknown);
}

#[test]
fn fixed_responses() {
    assert_eq!(fixed_response(Command::Search), None);
    assert_eq!(fixed_response(Command::ClearClipboard), Some("{\"status\":\"cleared\"}".to_string()));
    assert_eq!(fixed_response(Command::Unknown), Some("{\"error\":\"unknown_command\"}".to_string()));
}

#[test]
fn configuration_defaults() {
    assert_eq!(
        watch_dirs_or_default(None),
        vec!["~/Downloads", "~/Desktop", "~/Documents", "~/Movies", "~/Pictures", "~/.qfinder/notes"]
    );
    assert_eq!(watch_dirs_or_default(Some(vec!["/x".to_string()])), vec!["/x".to_string()]);
    assert!(clipboard_enabled_or_default(None));
    assert!(!clipboard_enabled_or_default(Some(false)));
}

#[test]
fn schema_reset() {
    assert!(needs_schema_reset(0));
    assert!(needs_schema_reset(1));
    assert!(!needs_schema_reset(2));
    assert!(!needs_schema_reset(3));
}

#[test]
fn requests_are_decoded() {
    let r = decode_request(br#"{"command":"search","query":"budget","scope":"note"}"#).unwrap();
    assert_eq!(r.command, Command::Search);
    assert_eq!(r.query, "budget");
    assert_eq!(r.scope, Some("note".to_string()));
    let r = decode_request(br#"{"command":"clear_clipboard"}"#).unwrap();
    assert_eq!(r.command, Command::ClearClipboard);
    assert_eq!(r.query, "");
    assert_eq!(r.scope, None);
    let r = decode_request(br#"{"command":7,"query":["x"]}"#).unwrap();
    assert_eq!(r.command, Command::Unknown);
    assert_eq!(r.query, "");
    assert!(decode_request(b"not json").is_none());
    assert!(decode_request(br#"[1,2]"#).is_some());
}

#[test]
fn configuration_is_decoded() {
    let (dirs, clip) = config_from_json(Some(r#"{"watch_dirs":["/a",3,"/b"],"clipboard_enabled":false}"#));
    assert_eq!(dirs, vec!["/a".to_string(), "/b".to_string()]);
    assert!(!clip);
    let (dirs, clip) = config_from_json(Some("{}"));
    assert_eq!(dirs.len(), 6);
    assert!(clip);
    let (dirs, clip) = config_from_json(Some("garbage"));
    assert_eq!(dirs[0], "~/Downloads");
    assert!(clip);
    let (dirs, _) = config_from_json(None);
    assert_eq!(dirs[5], "~/.qfinder/notes");
    let (dirs, _) = config_from_json(Some(r#"{"watch_dirs":[]}"#));
    assert!(dirs.is_empty());
}
