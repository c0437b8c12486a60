use smart_clipboard::clipboard::{
    build_image_clip, build_text_clip, capture_image, capture_text, clip_id, image_clip_at, is_duplicate, now_id,
    push_clip, text_clip_at, AppState, TextCapture, MAX_CLIPS,
};
use smart_clipboard::digest::sha256_hex;
use smart_clipboard::models::{Clip, ClipMeta, ClipType};

const HELLO_HASH: &str = "2cf24dba5fb0a30e26e83b2ac5b9e29e1b161e5c1fa7425e73043362938b9824";

fn clip(id: &str) -> Clip {
    Clip {
        id: id.to_string(),
        kind: ClipType::Text,
        content: String::new(),
        preview: String::new(),
        meta: ClipMeta::Text { chars: 0 },
        sensitive: false,
        hash: String::new(),
        created_at: String::new(),
        workspace: String::new(),
        tags: Vec::new(),
    }
}

#[test]
fn default_state_is_empty_and_capturing() {
    let state = AppState::default();
    assert!(state.clips.is_empty());
    assert!(state.capture_enabled);
    assert_eq!(state.workspace, "default");
    assert_eq!(state.last_hash, None);
}

#[test]
fn sha256_hex_is_lowercase_digest() {
    assert_eq!(sha256_hex(b"hello"), HELLO_HASH);
    assert_eq!(sha256_hex(b"abc"), "ba7816bf8f01cfea414140de5dae2223b00361a396177a9cb410ff61f20015ad");
    assert_eq!(sha256_hex(b""), "e3b0c44298fc1c149afbf4c8996fb92427ae41e4649b934ca495991b7852b855");
}

#[test]
fn clip_id_joins_time_and_hash_prefix() {
    assert_eq!(clip_id(1700000000123, "abcdef0123"), "1700000000123-abcdef01");
    assert_eq!(clip_id(-5, "ab"), "-5-ab");
    assert_eq!(clip_id(0, ""), "0-");
    assert_eq!(clip_id(i64::MIN, "x"), "-9223372036854775808-x");
    assert_eq!(clip_id(7, "\u{e9}\u{e9}\u{e9}\u{e9}ab"), "7-\u{e9}\u{e9}\u{e9}\u{e9}");
}

#[test]
fn now_id_ends_with_hash_prefix() {
    let id = now_id(HELLO_HASH);
    assert!(id.ends_with("-2cf24dba"));
    let millis: i64 = id[..id.len() - 9].parse().unwrap();
    assert!(millis > 1_600_000_000_000);
}

#[test]
fn duplicate_check_remembers_the_last_hash() {
    let mut state = AppState::default();
    assert!(!is_duplicate(&mut state, "h1"));
    assert!(is_duplicate(&mut state, "h1"));
    assert!(!is_duplicate(&mut state, "h2"));
    assert!(!is_duplicate(&mut state, "h1"));
    assert_eq!(state.last_hash, Some("h1".to_string()));
}

#[test]
fn push_puts_newest_first_and_keeps_at_most_max() {
    let mut state = AppState::default();
    for i in 0..(MAX_CLIPS + 5) {
        push_clip(&mut state, clip(&i.to_string()));
    }
    assert_eq!(state.clips.len(), MAX_CLIPS);
    assert_eq!(state.clips[0].id, (MAX_CLIPS + 4).to_string());
    assert_eq!(state.clips[MAX_CLIPS - 1].id, "5");
}

#[test]
fn text_clip_fields_follow_the_text() {
    let mut state = AppState::default();
    state.workspace = "w".to_string();
    let c = text_clip_at(
        &state,
        "my password\n is x".to_string(),
        ClipType::Text,
        ClipMeta::Text { chars: 17 },
        HELLO_HASH.to_string(),
        42,
        "2024-01-01T00:00:00+00:00".to_string(),
    );
    assert_eq!(c.id, "42-2cf24dba");
    assert_eq!(c.preview, "my password is x");
    assert!(c.sensitive);
    assert_eq!(c.workspace, "w");
    assert_eq!(c.created_at, "2024-01-01T00:00:00+00:00");
    assert!(c.tags.is_empty());
    let b = build_text_clip(&state, "plain".to_string(), ClipType::Text, ClipMeta::Text { chars: 5 }, HELLO_HASH.to_string());
    assert!(!b.sensitive);
    assert!(b.id.ends_with("-2cf24dba"));
    assert!(!b.created_at.is_empty());
}

#[test]
fn long_text_preview_is_cut_at_120() {
    let state = AppState::default();
    let text = "word ".repeat(40);
    let c = text_clip_at(&state, text, ClipType::Text, ClipMeta::Text { chars: 199 }, "ab".to_string(), 1, String::new());
    assert_eq!(c.preview.chars().count(), 121);
    assert!(c.preview.ends_with('\u{2026}'));
}

#[test]
fn capture_text_adds_new_text_once() {
    let mut state = AppState::default();
    assert!(matches!(capture_text(&mut state, None), TextCapture::NoText));
    assert!(matches!(capture_text(&mut state, Some(String::new())), TextCapture::NoText));
    assert!(state.clips.is_empty());
    match capture_text(&mut state, Some("hello".to_string())) {
        TextCapture::Captured(c) => {
            assert_eq!(c.content, "hello");
            assert_eq!(c.hash, HELLO_HASH);
            assert_eq!(c.kind, ClipType::Text);
            assert!(c.id.ends_with("-2cf24dba"));
        }
        _ => panic!("expected a captured clip"),
    }
    assert_eq!(state.clips.len(), 1);
    assert!(matches!(capture_text(&mut state, Some("hello".to_string())), TextCapture::Duplicate));
    assert_eq!(state.clips.len(), 1);
    assert!(matches!(capture_text(&mut state, Some("#fff".to_string())), TextCapture::Captured(_)));
    assert_eq!(state.clips.len(), 2);
    assert_eq!(state.clips[0].kind, ClipType::Color);
    assert!(matches!(capture_text(&mut state, Some("hello".to_string())), TextCapture::Captured(_)));
    assert_eq!(state.clips.len(), 3);
}

#[test]
fn capture_image_encodes_png() {
    let mut state = AppState::default();
    let pixels = vec![255u8, 0, 0, 255];
    let c = capture_image(&mut state, 1, 1, pixels.clone()).expect("an image clip");
    assert_eq!(c.kind, ClipType::Image);
    assert!(c.content.starts_with("data:image/png;base64,iVBORw0KGgo"));
    assert_eq!(c.preview, "Image 1\u{d7}1");
    assert!(!c.sensitive);
    assert_eq!(c.hash, sha256_hex(&pixels));
    assert!(matches!(c.meta, ClipMeta::Image { width: 1, height: 1 }));
    assert_eq!(state.clips.len(), 1);
    assert!(capture_image(&mut state, 1, 1, pixels).is_none());
    assert_eq!(state.clips.len(), 1);
}

#[test]
fn image_with_too_few_pixels_is_refused() {
    let mut state = AppState::default();
    assert!(capture_image(&mut state, 2, 2, vec![0u8; 15]).is_none());
    assert!(state.clips.is_empty());
    assert!(build_image_clip(&state, 2, 2, vec![0u8; 15], HELLO_HASH.to_string()).is_none());
    assert!(build_image_clip(&state, 2, 2, vec![0u8; 16], HELLO_HASH.to_string()).is_some());
}

#[test]
fn image_clip_fields_follow_the_png() {
    let state = AppState::default();
    let c = image_clip_at(&state, 640, 480, &[1, 2, 3], "abcdef0123".to_string(), 9, "t".to_string());
    assert_eq!(c.content, "data:image/png;base64,AQID");
    assert_eq!(c.preview, "Image 640\u{d7}480");
    assert_eq!(c.id, "9-abcdef01");
    assert!(matches!(c.meta, ClipMeta::Image { width: 640, height: 480 }));
}

#[test]
fn paused_capture_changes_nothing() {
    let mut state = AppState::default();
    state.capture_enabled = false;
    assert!(matches!(capture_text(&mut state, Some("hello".to_string())), TextCapture::Paused));
    assert!(capture_image(&mut state, 1, 1, vec![0u8; 4]).is_none());
    assert!(state.clips.is_empty());
    assert_eq!(state.last_hash, None);
    state.capture_enabled = true;
    assert!(matches!(capture_text(&mut state, Some("hello".to_string())), TextCapture::Captured(_)));
}
