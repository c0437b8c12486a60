//! The clip history and the capture of new clips.

use vstd::prelude::*;
use vstd::utf8::{is_ascii_chars, is_ascii_chars_encode_utf8, is_char_boundary_iff_not_is_continuation_byte, decode_utf8, encode_utf8, encode_utf8_decode_utf8, encode_utf8_valid_utf8, is_char_boundary, is_char_boundary_start_end_of_seq};
use crate::clock::{now_millis, now_rfc3339};
use crate::detect::{detect_kind, detect_spec, is_sensitive, make_preview, preview_spec, sensitive_spec};
use crate::digest::{base64_encode, base64_standard, encode_png, png_encoding, sha256, sha256_hex};
use crate::models::{Clip, ClipMeta, ClipType, MetaView};
use crate::text::{lemma_hex_lower_ascii, chars_of, decimal, hex_lower, push_char, push_decimal, push_signed_decimal, signed_decimal, utf8_len_at_most};

verus! {

/// The most clips the history keeps.
pub const MAX_CLIPS: usize = 500;

/// The length of the previews of text clips.
pub const PREVIEW_CHARS: usize = 120;

/// Application state: the clip history (newest first), whether capture is
/// on, the current workspace, and the hash of the last content seen.
pub struct AppState {
    pub clips: Vec<Clip>,
    pub capture_enabled: bool,
    pub workspace: String,
    pub last_hash: Option<String>,
}

impl AppState {
    /// The hash of the last content that the watcher saw, if any.
    pub open spec fn recent_hash(&self) -> Option<Seq<char>> {
        match self.last_hash {
            Some(h) => Some(h@),
            None => None,
        }
    }

    /// The history holds at most `MAX_CLIPS` clips.
    pub open spec fn wf(&self) -> bool {
        self.clips@.len() <= MAX_CLIPS
    }
}

impl Default for AppState {
    /// An empty history, capture on, the workspace `default`, nothing seen.
    fn default() -> (r: AppState)
        ensures
            r.clips@ == Seq::<Clip>::empty(),
            r.capture_enabled,
            r.workspace@ == "default"@,
            r.recent_hash() == None::<Seq<char>>,
            r.wf(),
    {
        AppState {
            clips: Vec::new(),
            capture_enabled: true,
            workspace: String::from_str("default"),
            last_hash: None,
        }
    }
}

/// What the duplicate check answers, and the hash it remembers afterwards:
/// content is a duplicate exactly when its hash is the last one seen, and it
/// is the last one seen from then on.
pub open spec fn duplicate_step(last: Option<Seq<char>>, hash: Seq<char>) -> (bool, Option<Seq<char>>) {
    (last == Some(hash), Some(hash))
}

/// Whether `hash` is the hash of the last content seen; records it as such.
pub fn is_duplicate(state: &mut AppState, hash: &str) -> (r: bool)
    ensures
        (r, final(state).recent_hash()) == duplicate_step(old(state).recent_hash(), hash@),
        final(state).clips == old(state).clips,
        final(state).capture_enabled == old(state).capture_enabled,
        final(state).workspace == old(state).workspace,
{
    let h = String::from_str(hash);
    let seen = match &state.last_hash {
        Some(last) => *last == h,
        None => false,
    };
    if seen {
        return true;
    }
    state.last_hash = Some(h);
    false
}

/// The history after `clip` is added: it comes first, and the oldest clips
/// beyond `MAX_CLIPS` are dropped.
pub open spec fn history_after_push(clips: Seq<Clip>, clip: Clip) -> Seq<Clip> {
    let s = seq![clip] + clips;
    if s.len() > MAX_CLIPS {
        s.take(MAX_CLIPS as int)
    } else {
        s
    }
}

/// The history after a capture is newest first and bounded: the new clip
/// leads, the earlier clips follow in their order, and at most `MAX_CLIPS`
/// remain.
pub proof fn lemma_history_after_push(clips: Seq<Clip>, clip: Clip)
    ensures
        history_after_push(clips, clip).len() == if clips.len() + 1 > MAX_CLIPS { MAX_CLIPS as int } else { clips.len() + 1 as int },
        history_after_push(clips, clip)[0] == clip,
        forall|k: int| 0 <= k < history_after_push(clips, clip).len() - 1
            ==> #[trigger] history_after_push(clips, clip)[k + 1] == clips[k],
{
    let s = seq![clip] + clips;
    assert(s[0] == clip);
    assert forall|k: int| 0 <= k < history_after_push(clips, clip).len() - 1
        implies #[trigger] history_after_push(clips, clip)[k + 1] == clips[k] by {
        assert(s[k + 1] == clips[k]);
    }
}

/// Content copied again right after itself is a duplicate, and content that
/// differs from the last one seen is not.
pub proof fn lemma_repeated_content_is_duplicate(last: Option<Seq<char>>, hash: Seq<char>, other: Seq<char>)
    ensures
        duplicate_step(duplicate_step(last, hash).1, hash).0,
        other != hash ==> !duplicate_step(duplicate_step(last, hash).1, other).0,
{
}

/// Adds a clip at the front of the history, keeping at most `MAX_CLIPS`.
pub fn push_clip(state: &mut AppState, clip: Clip)
    ensures
        final(state).clips@ == history_after_push(old(state).clips@, clip),
        final(state).wf(),
        final(state).capture_enabled == old(state).capture_enabled,
        final(state).workspace == old(state).workspace,
        final(state).recent_hash() == old(state).recent_hash(),
{
    let ghost before = state.clips@;
    state.clips.insert(0, clip);
    assert(state.clips@ =~= seq![clip] + before);
    if state.clips.len() > MAX_CLIPS {
        state.clips.truncate(MAX_CLIPS);
    }
}

/// Cutting the hash's UTF-8 after 8 bytes (or where it ends) falls between
/// characters.
pub open spec fn id_cut_ok(hash: Seq<char>) -> bool {
    encode_utf8(hash).len() <= 8 || is_char_boundary(encode_utf8(hash), 8)
}

proof fn lemma_ascii_id_cut(hash: Seq<char>)
    requires
        is_ascii_chars(hash),
    ensures
        id_cut_ok(hash),
{
    is_ascii_chars_encode_utf8(hash);
    encode_utf8_valid_utf8(hash);
    if hash.len() > 8 {
        assert(hash[8] as u8 == encode_utf8(hash)[8]);
        is_char_boundary_iff_not_is_continuation_byte(encode_utf8(hash), 8);
    }
}

/// The id of a clip: the capture time in milliseconds, `-`, and the text
/// whose UTF-8 is the first 8 bytes of the hash (all of it where shorter).
pub open spec fn clip_id_spec(millis: int, hash: Seq<char>) -> Seq<char> {
    let bytes = encode_utf8(hash);
    let k = if bytes.len() < 8 { bytes.len() as int } else { 8 };
    signed_decimal(millis) + seq!['-'] + decode_utf8(bytes.take(k))
}

/// The id of a clip captured at `millis` with content hash `hash`.
pub fn clip_id(millis: i64, hash: &str) -> (r: String)
    requires
        id_cut_ok(hash@),
    ensures
        r@ == clip_id_spec(millis as int, hash@),
{
    let cs = chars_of(hash);
    let k = utf8_len_at_most(&cs, 8);
    proof {
        encode_utf8_valid_utf8(hash@);
        is_char_boundary_start_end_of_seq(encode_utf8(hash@));
    }
    let (prefix, _) = hash.split_at(k);
    proof {
        encode_utf8_decode_utf8(prefix@);
        assert(encode_utf8(hash@).subrange(0, k as int) =~= encode_utf8(hash@).take(k as int));
    }
    let mut id = String::new();
    push_signed_decimal(&mut id, millis);
    push_char(&mut id, '-');
    id.append(prefix);
    id
}

/// An id for a clip with content hash `hash`, from the current time.
pub fn now_id(hash: &str) -> (r: String)
    requires
        id_cut_ok(hash@),
    ensures
        exists|millis: i64| r@ == clip_id_spec(millis as int, hash@),
{
    let millis = now_millis();
    clip_id(millis, hash)
}

/// The clip of `text` with kind `kind`, metadata `meta` and hash `hash`,
/// captured into the current workspace at `millis` (`created_at` in RFC
/// 3339): flagged when the text looks sensitive, with a preview of
/// `PREVIEW_CHARS` characters and no tags.
pub fn text_clip_at(
    state: &AppState,
    text: String,
    kind: ClipType,
    meta: ClipMeta,
    hash: String,
    millis: i64,
    created_at: String,
) -> (r: Clip)
    requires
        id_cut_ok(hash@),
    ensures
        r.id@ == clip_id_spec(millis as int, hash@),
        r.kind == kind,
        r.content == text,
        r.preview@ == preview_spec(text@, PREVIEW_CHARS as nat),
        r.meta == meta,
        r.sensitive == sensitive_spec(text@),
        r.hash == hash,
        r.created_at == created_at,
        r.workspace == state.workspace,
        r.tags@.len() == 0,
{
    let sensitive = is_sensitive(text.as_str());
    let preview = make_preview(text.as_str(), PREVIEW_CHARS);
    let id = clip_id(millis, hash.as_str());
    Clip {
        id,
        kind,
        content: text,
        preview,
        meta,
        sensitive,
        hash,
        created_at,
        workspace: state.workspace.clone(),
        tags: Vec::new(),
    }
}

/// Builds the clip of copied text, stamped with the current time.
pub fn build_text_clip(state: &AppState, text: String, kind: ClipType, meta: ClipMeta, hash: String) -> (r: Clip)
    requires
        id_cut_ok(hash@),
    ensures
        exists|millis: i64| r.id@ == clip_id_spec(millis as int, hash@),
        r.kind == kind,
        r.content == text,
        r.preview@ == preview_spec(text@, PREVIEW_CHARS as nat),
        r.meta == meta,
        r.sensitive == sensitive_spec(text@),
        r.hash == hash,
        r.workspace == state.workspace,
        r.tags@.len() == 0,
{
    let millis = now_millis();
    let created_at = now_rfc3339();
    text_clip_at(state, text, kind, meta, hash, millis, created_at)
}

/// The preview of an image clip: `Image`, then width `×` height.
pub open spec fn image_preview_spec(width: nat, height: nat) -> Seq<char> {
    "Image "@ + decimal(width) + seq!['\u{d7}'] + decimal(height)
}

/// The content of an image clip: a data url of the PNG in base64.
pub open spec fn image_content_spec(png: Seq<u8>) -> Seq<char> {
    "data:image/png;base64,"@ + base64_standard(png)
}

/// The clip of an image of `width` by `height` pixels whose PNG file is
/// `png`, with hash `hash`, captured into the current workspace at `millis`
/// (`created_at` in RFC 3339). Images are never flagged sensitive.
pub fn image_clip_at(
    state: &AppState,
    width: usize,
    height: usize,
    png: &[u8],
    hash: String,
    millis: i64,
    created_at: String,
) -> (r: Clip)
    requires
        id_cut_ok(hash@),
    ensures
        r.id@ == clip_id_spec(millis as int, hash@),
        r.kind == ClipType::Image,
        r.content@ == image_content_spec(png@),
        r.preview@ == image_preview_spec(width as nat, height as nat),
        r.meta@ == MetaView::Image(width as nat, height as nat),
        !r.sensitive,
        r.hash == hash,
        r.created_at == created_at,
        r.workspace == state.workspace,
        r.tags@.len() == 0,
{
    let encoded = base64_encode(png);
    let mut content = String::from_str("data:image/png;base64,");
    content.append(encoded.as_str());
    let mut preview = String::from_str("Image ");
    push_decimal(&mut preview, width as u64);
    push_char(&mut preview, '\u{d7}');
    push_decimal(&mut preview, height as u64);
    let id = clip_id(millis, hash.as_str());
    Clip {
        id,
        kind: ClipType::Image,
        content,
        preview,
        meta: ClipMeta::Image { width, height },
        sensitive: false,
        hash,
        created_at,
        workspace: state.workspace.clone(),
        tags: Vec::new(),
    }
}

/// The PNG file of an image of the given size, its sizes taken as `u32` as
/// the encoder takes them.
pub open spec fn image_png(width: usize, height: usize, pixels: Seq<u8>) -> Option<Seq<u8>> {
    png_encoding(width as u32, height as u32, pixels)
}

/// Builds the clip of a copied RGBA image (at most 4 bytes per pixel),
/// stamped with the current time;
/// `None` where the image cannot be encoded as PNG.
pub fn build_image_clip(state: &AppState, width: usize, height: usize, pixels: Vec<u8>, hash: String) -> (r: Option<Clip>)
    requires
        pixels@.len() <= 4 * (width as u32) * (height as u32),
        image_png(width, height, pixels@) is None || id_cut_ok(hash@),
    ensures
        r is None <==> image_png(width, height, pixels@) is None,
        pixels@.len() < 4 * (width as u32) * (height as u32) ==> r is None,
        r matches Some(c) ==> {
            &&& exists|millis: i64| c.id@ == clip_id_spec(millis as int, hash@)
            &&& c.kind == ClipType::Image
            &&& c.content@ == image_content_spec(image_png(width, height, pixels@)->0)
            &&& c.preview@ == image_preview_spec(width as nat, height as nat)
            &&& c.meta@ == MetaView::Image(width as nat, height as nat)
            &&& !c.sensitive
            &&& c.hash == hash
            &&& c.workspace == state.workspace
            &&& c.tags@.len() == 0
        },
{
    let png = match encode_png(width as u32, height as u32, pixels) {
        Some(png) => png,
        None => return None,
    };
    let millis = now_millis();
    let created_at = now_rfc3339();
    Some(image_clip_at(state, width, height, png.as_slice(), hash, millis, created_at))
}

/// The hash that identifies content: SHA-256 of its bytes, in lowercase hex.
pub open spec fn content_hash(bytes: Seq<u8>) -> Seq<char> {
    hex_lower(sha256(bytes))
}

proof fn lemma_content_hash_cut(bytes: Seq<u8>)
    ensures
        id_cut_ok(content_hash(bytes)),
{
    lemma_hex_lower_ascii(sha256(bytes));
    lemma_ascii_id_cut(content_hash(bytes));
}

/// What the watcher made of a clipboard text.
pub enum TextCapture {
    /// Capture is paused: nothing was read into the history.
    Paused,
    /// There was no text, or it was empty: look for an image instead.
    NoText,
    /// The text was the last content seen.
    Duplicate,
    /// The text was added to the history as this clip.
    Captured(Clip),
}

/// The watcher's decision on a clipboard text: while capture is on,
/// non-empty text that is not the last content seen is classified and added
/// to the history.
pub fn capture_text(state: &mut AppState, text: Option<String>) -> (r: TextCapture)
    ensures
        !old(state).capture_enabled <==> r is Paused,
        old(state).wf() ==> final(state).wf(),
        r is Paused ==> *final(state) == *old(state),
        old(state).capture_enabled ==> (text matches Some(t) && t@.len() > 0) || (r is NoText && *final(state) == *old(state)),
        old(state).capture_enabled ==> (text matches Some(t) ==> t@.len() > 0 ==> {
            let h = content_hash(encode_utf8(t@));
            &&& !(r is NoText)
            &&& final(state).recent_hash() == Some(h)
            &&& (r is Duplicate <==> old(state).recent_hash() == Some(h))
            &&& final(state).capture_enabled == old(state).capture_enabled
            &&& final(state).workspace == old(state).workspace
            &&& r is Duplicate ==> final(state).clips == old(state).clips
            &&& r matches TextCapture::Captured(c) ==> {
                &&& c.content == t
                &&& c.hash@ == h
                &&& (c.kind, c.meta@) == detect_spec(t@)
                &&& c.sensitive == sensitive_spec(t@)
                &&& c.preview@ == preview_spec(t@, PREVIEW_CHARS as nat)
                &&& c.workspace == old(state).workspace
                &&& c.tags@.len() == 0
                &&& exists|millis: i64| c.id@ == clip_id_spec(millis as int, h)
                &&& exists|d: Clip| d@ == c@ && final(state).clips@ == history_after_push(old(state).clips@, d)
            }
        }),
{
    if !state.capture_enabled {
        return TextCapture::Paused;
    }
    let t = match text {
        Some(t) => t,
        None => return TextCapture::NoText,
    };
    if t.as_str().is_empty() {
        return TextCapture::NoText;
    }
    let hash = sha256_hex(t.as_str().as_bytes());
    proof {
        lemma_content_hash_cut(encode_utf8(t@));
    }
    if is_duplicate(state, hash.as_str()) {
        return TextCapture::Duplicate;
    }
    let (kind, meta) = detect_kind(t.as_str());
    let clip = build_text_clip(state, t, kind, meta, hash);
    let stored = clip.duplicate();
    push_clip(state, stored);
    TextCapture::Captured(clip)
}

/// The watcher's decision on a clipboard image of `width` by `height` RGBA
/// pixels (at most 4 bytes per pixel): while capture is on, one that is not
/// the last content seen, and that encodes as PNG, is added to the history.
pub fn capture_image(state: &mut AppState, width: usize, height: usize, pixels: Vec<u8>) -> (r: Option<Clip>)
    requires
        pixels@.len() <= 4 * (width as u32) * (height as u32),
    ensures
        !old(state).capture_enabled ==> r is None && *final(state) == *old(state),
        old(state).wf() ==> final(state).wf(),
        old(state).capture_enabled ==> ({
            let h = content_hash(pixels@);
            &&& final(state).recent_hash() == Some(h)
            &&& final(state).capture_enabled == old(state).capture_enabled
            &&& final(state).workspace == old(state).workspace
            &&& r is None <==> (old(state).recent_hash() == Some(h) || image_png(width, height, pixels@) is None)
            &&& r is None ==> final(state).clips == old(state).clips
            &&& r matches Some(c) ==> {
                &&& c.kind == ClipType::Image
                &&& c.hash@ == h
                &&& c.content@ == image_content_spec(image_png(width, height, pixels@)->0)
                &&& c.preview@ == image_preview_spec(width as nat, height as nat)
                &&& c.meta@ == MetaView::Image(width as nat, height as nat)
                &&& !c.sensitive
                &&& c.workspace == old(state).workspace
                &&& c.tags@.len() == 0
                &&& exists|millis: i64| c.id@ == clip_id_spec(millis as int, h)
                &&& exists|d: Clip| d@ == c@ && final(state).clips@ == history_after_push(old(state).clips@, d)
            }
        }),
{
    if !state.capture_enabled {
        return None;
    }
    let hash = sha256_hex(pixels.as_slice());
    proof {
        lemma_content_hash_cut(pixels@);
    }
    if is_duplicate(state, hash.as_str()) {
        return None;
    }
    match build_image_clip(state, width, height, pixels, hash) {
        Some(clip) => {
            let stored = clip.duplicate();
            push_clip(state, stored);
            Some(clip)
        },
        None => None,
    }
}

} // verus!
