//! The clip data model.

use vstd::prelude::*;

verus! {

/// The detected kind of a captured clip.
#[derive(Clone, Copy, Debug, PartialEq, Eq, Structural)]
pub enum ClipType {
    Text,
    Url,
    Code,
    Color,
    Image,
}

/// Metadata that goes with each kind of clip: the color's hex form, the url's
/// host (its title and favicon are not known yet), the code's language, the
/// number of characters of plain text, or an image's dimensions.
#[derive(Clone, Debug)]
pub enum ClipMeta {
    Color { hex: String },
    Url { host: String },
    Code { language: String },
    Text { chars: usize },
    Image { width: usize, height: usize },
}

/// The mathematical content of `ClipMeta`.
pub enum MetaView {
    Color(Seq<char>),
    Url(Seq<char>),
    Code(Seq<char>),
    Text(nat),
    Image(nat, nat),
}

impl View for ClipMeta {
    type V = MetaView;

    open spec fn view(&self) -> MetaView {
        match self {
            ClipMeta::Color { hex } => MetaView::Color(hex@),
            ClipMeta::Url { host } => MetaView::Url(host@),
            ClipMeta::Code { language } => MetaView::Code(language@),
            ClipMeta::Text { chars } => MetaView::Text(*chars as nat),
            ClipMeta::Image { width, height } => MetaView::Image(*width as nat, *height as nat),
        }
    }
}

impl ClipMeta {
    /// A copy equal to `self`.
    pub fn duplicate(&self) -> (r: ClipMeta)
        ensures
            r == *self,
    {
        match self {
            ClipMeta::Color { hex } => ClipMeta::Color { hex: hex.clone() },
            ClipMeta::Url { host } => ClipMeta::Url { host: host.clone() },
            ClipMeta::Code { language } => ClipMeta::Code { language: language.clone() },
            ClipMeta::Text { chars } => ClipMeta::Text { chars: *chars },
            ClipMeta::Image { width, height } => ClipMeta::Image { width: *width, height: *height },
        }
    }
}

/// A single captured clipboard entry.
#[derive(Clone, Debug)]
pub struct Clip {
    pub id: String,
    pub kind: ClipType,
    /// For text-like clips the raw text; for images a
    /// `data:image/png;base64,...` URL.
    pub content: String,
    /// Short preview used in list views (never the full image data).
    pub preview: String,
    /// Detected language, url host, dimensions, and the like.
    pub meta: ClipMeta,
    /// Whether the clip looks like a secret (password, OTP, card number).
    pub sensitive: bool,
    /// SHA-256 of the source content, in lowercase hexadecimal.
    pub hash: String,
    /// RFC 3339 timestamp of the capture.
    pub created_at: String,
    /// Workspace the clip belongs to.
    pub workspace: String,
    /// Tags; none are set at capture.
    pub tags: Vec<String>,
}

/// The mathematical content of a `Clip`.
pub struct ClipView {
    pub id: Seq<char>,
    pub kind: ClipType,
    pub content: Seq<char>,
    pub preview: Seq<char>,
    pub meta: MetaView,
    pub sensitive: bool,
    pub hash: Seq<char>,
    pub created_at: Seq<char>,
    pub workspace: Seq<char>,
    pub tags: Seq<String>,
}

impl View for Clip {
    type V = ClipView;

    open spec fn view(&self) -> ClipView {
        ClipView {
            id: self.id@,
            kind: self.kind,
            content: self.content@,
            preview: self.preview@,
            meta: self.meta@,
            sensitive: self.sensitive,
            hash: self.hash@,
            created_at: self.created_at@,
            workspace: self.workspace@,
            tags: self.tags@,
        }
    }
}

/// The views of a sequence of clips.
pub open spec fn clip_views(clips: Seq<Clip>) -> Seq<ClipView> {
    clips.map_values(|c: Clip| c@)
}

impl Clip {
    /// A copy with the same content as `self`.
    pub fn duplicate(&self) -> (r: Clip)
        ensures
            r@ == self@,
    {
        let tags = self.tags.clone();
        assert(tags@ =~= self.tags@);
        Clip {
            id: self.id.clone(),
            kind: self.kind,
            content: self.content.clone(),
            preview: self.preview.clone(),
            meta: self.meta.duplicate(),
            sensitive: self.sensitive,
            hash: self.hash.clone(),
            created_at: self.created_at.clone(),
            workspace: self.workspace.clone(),
            tags,
        }
    }
}

} // verus!
