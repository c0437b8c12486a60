use smart_clipboard::clipboard::AppState;
use smart_clipboard::commands::{
    clear_clips, delete_clip, get_capture_enabled, get_clips, get_workspace, set_capture_enabled, set_workspace,
    toggle_capture, transform_text, url_encode,
};
use smart_clipboard::clipboard::push_clip;
use smart_clipboard::models::{Clip, ClipMeta, ClipType};

fn clip(id: &str) -> Clip {
    Clip {
        id: id.to_string(),
        kind: ClipType::Text,
        content: format!("content {}", id),
        preview: format!("content {}", id),
        meta: ClipMeta::Text { chars: 9 },
        sensitive: false,
        hash: String::new(),
        created_at: String::new(),
        workspace: "default".to_string(),
        tags: Vec::new(),
    }
}

fn ids(state: &AppState) -> Vec<String> {
    state.clips.iter().map(|c| c.id.clone()).collect()
}

#[test]
fn url_encode_escapes_reserved_bytes() {
    assert_eq!(url_encode("a b&c=d"), "a%20b%26c%3Dd");
    assert_eq!(url_encode("-_.~AZaz09"), "-_.~AZaz09");
    assert_eq!(url_encode("h\u{e9}llo"), "h%C3%A9llo");
    assert_eq!(url_encode("/?#"), "%2F%3F%23");
    assert_eq!(url_encode(""), "");
}

#[test]
fn url_encode_round_trips_through_decoding() {
    let text = "Grüße, 世界! 100%";
    let encoded = url_encode(text);
    let bytes = encoded.as_bytes();
    let mut decoded = Vec::new();
    let mut i = 0;
    while i < bytes.len() {
        if bytes[i] == b'%' {
            let hex = std::str::from_utf8(&bytes[i + 1..i + 3]).unwrap();
            decoded.push(u8::from_str_radix(hex, 16).unwrap());
            i += 3;
        } else {
            decoded.push(bytes[i]);
            i += 1;
        }
    }
    assert_eq!(decoded, text.as_bytes());
}

#[test]
fn transforms_change_case_and_trim() {
    assert_eq!(transform_text("Hello ß".to_string(), "uppercase".to_string()), Ok("HELLO SS".to_string()));
    assert_eq!(transform_text("Hello World".to_string(), "lowercase".to_string()), Ok("hello world".to_string()));
    assert_eq!(transform_text("  \t hi there \n".to_string(), "trim".to_string()), Ok("hi there".to_string()));
    assert_eq!(transform_text("a b".to_string(), "url_encode".to_string()), Ok("a%20b".to_string()));
}

#[test]
fn trim_twice_is_trim_once() {
    let once = transform_text(" \u{a0} x y \u{3000}".to_string(), "trim".to_string()).unwrap();
    assert_eq!(once, "x y");
    let twice = transform_text(once.clone(), "trim".to_string()).unwrap();
    assert_eq!(twice, once);
}

#[test]
fn json_pretty_formats_valid_json() {
    assert_eq!(
        transform_text("  {\"a\":1}  ".to_string(), "json_pretty".to_string()),
        Ok("{\n  \"a\": 1\n}".to_string())
    );
}

#[test]
fn json_pretty_rejects_invalid_json() {
    let r = transform_text("{oops".to_string(), "json_pretty".to_string());
    let e = r.unwrap_err();
    let parse_error = serde_json::from_str::<serde_json::Value>("{oops").unwrap_err();
    assert_eq!(e, format!("Invalid JSON: {}", parse_error));
}

#[test]
fn unknown_transform_is_an_error() {
    assert_eq!(
        transform_text("x".to_string(), "reverse".to_string()),
        Err("Unknown transform: reverse".to_string())
    );
    assert_eq!(transform_text("x".to_string(), "".to_string()), Err("Unknown transform: ".to_string()));
}

#[test]
fn history_commands_read_and_change_the_history() {
    let mut state = AppState::default();
    push_clip(&mut state, clip("a"));
    push_clip(&mut state, clip("b"));
    push_clip(&mut state, clip("a"));
    assert_eq!(ids(&state), vec!["a", "b", "a"]);
    let copy = get_clips(&state);
    assert_eq!(copy.len(), 3);
    assert_eq!(copy[1].content, "content b");
    delete_clip(&mut state, "a".to_string());
    assert_eq!(ids(&state), vec!["b"]);
    delete_clip(&mut state, "zzz".to_string());
    assert_eq!(ids(&state), vec!["b"]);
    clear_clips(&mut state);
    assert!(state.clips.is_empty());
}

#[test]
fn capture_toggles_and_settings_read_back() {
    let mut state = AppState::default();
    assert!(get_capture_enabled(&state));
    assert!(!toggle_capture(&mut state));
    assert!(toggle_capture(&mut state));
    assert!(get_capture_enabled(&state));
    set_capture_enabled(&mut state, false);
    assert!(!get_capture_enabled(&state));
    assert_eq!(get_workspace(&state), "default");
    set_workspace(&mut state, "work".to_string());
    assert_eq!(get_workspace(&state), "work");
}

#[test]
fn json_pretty_is_stable_on_its_output() {
    let once = transform_text(" [1, {\"b\": [true, null], \"a\": \"x\"}] ".to_string(), "json_pretty".to_string()).unwrap();
    assert_eq!(once, "[\n  1,\n  {\n    \"a\": \"x\",\n    \"b\": [\n      true,\n      null\n    ]\n  }\n]");
    let twice = transform_text(once.clone(), "json_pretty".to_string()).unwrap();
    assert_eq!(twice, once);
}

#[test]
fn ascii_case_transforms_map_letters_only() {
    assert_eq!(transform_text("aZ09-_".to_string(), "uppercase".to_string()), Ok("AZ09-_".to_string()));
    assert_eq!(transform_text("aZ09-_".to_string(), "lowercase".to_string()), Ok("az09-_".to_string()));
}

#[test]
fn url_encode_is_identity_exactly_on_unreserved_text() {
    for s in ["abcXYZ019-_.~", "", "a b", "é", "a/b"] {
        let unreserved = s.bytes().all(|b| b.is_ascii_alphanumeric() || b"-_.~".contains(&b));
        assert_eq!(url_encode(s) == s, unreserved);
    }
}
