//! The view of a clip that the floating panel shows.
use vstd::prelude::*;
use vstd::string::StringExecFns;
use crate::models::{
    content_type_name, format_panel_time, panel_time_text, preview_can_cut, preview_text,
    timestamp_in_range, ClipEntry, ContentType,
};

verus! {

broadcast use vstd::string::group_string_axioms;

/// How wide (in bytes) the panel's preview of a clip is.
pub const PANEL_PREVIEW_LEN: usize = 120;

/// A lightweight representation of a clip for the panel: a preview, the
/// full text, and display strings for its type, time and icon.
#[derive(Debug, Clone)]
pub struct ClipView {
    pub id: i64,
    pub preview: String,
    pub full_content: String,
    pub content_type: String,
    pub source_app: Option<String>,
    pub created_at: String,
    pub pinned: bool,
    pub label: Option<String>,
    pub tags: Vec<String>,
    pub type_icon: String,
}

/// The icon shown for a content type.
pub open spec fn type_icon_name(t: ContentType) -> Seq<char> {
    match t {
        ContentType::Url => "link"@,
        ContentType::Code => "code"@,
        ContentType::FilePath => "folder"@,
        ContentType::Image => "image"@,
        _ => "text"@,
    }
}

fn type_icon(t: ContentType) -> (res: &'static str)
    ensures
        res@ == type_icon_name(t),
{
    match t {
        ContentType::Url => "link",
        ContentType::Code => "code",
        ContentType::FilePath => "folder",
        ContentType::Image => "image",
        _ => "text",
    }
}

impl ClipView {
    /// The panel's view of a clip; `None` where its 120-byte preview would
    /// cut a character in two or its time is outside chrono's range.
    pub fn from_clip(clip: ClipEntry) -> (res: Option<ClipView>)
        ensures
            res is Some <==> preview_can_cut(clip.content@, PANEL_PREVIEW_LEN as nat)
                && timestamp_in_range(clip.created_at.secs, clip.created_at.nanos),
            res matches Some(v) ==> {
                &&& v.id == clip.id
                &&& v.preview@ == preview_text(clip.content@, PANEL_PREVIEW_LEN as nat)
                &&& v.full_content == clip.content
                &&& v.content_type@ == content_type_name(clip.content_type)
                &&& v.source_app == clip.source_app
                &&& v.created_at@ == panel_time_text(clip.created_at.secs, clip.created_at.nanos)
                &&& v.pinned == clip.pinned
                &&& v.label == clip.label
                &&& v.tags == clip.tags
                &&& v.type_icon@ == type_icon_name(clip.content_type)
            },
    {
        let preview = match clip.try_preview(PANEL_PREVIEW_LEN) {
            Some(p) => p,
            None => return None,
        };
        let created_at = match format_panel_time(clip.created_at) {
            Some(t) => t,
            None => return None,
        };
        Some(
            ClipView {
                id: clip.id,
                preview,
                full_content: clip.content,
                content_type: String::from_str(clip.content_type.as_str()),
                source_app: clip.source_app,
                created_at,
                pinned: clip.pinned,
                label: clip.label,
                tags: clip.tags,
                type_icon: String::from_str(type_icon(clip.content_type)),
            },
        )
    }
}

} // verus!
