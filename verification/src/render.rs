//! The Renderer's pure decisions: where a content item is written and
//! which template renders it. The template engine and the file writes
//! stay with the caller.

use vstd::prelude::*;
use vstd::string::*;
use crate::content::{ContentItem, ContentStatus, Metadata};

verus! {

/// The output directory of an item relative to the site root: drafts go
/// under the `draft` subtree, everything else directly under its output
/// path.
pub open spec fn output_dir_spec(status: ContentStatus, path: Seq<char>) -> Seq<char> {
    if status == ContentStatus::Draft {
        "draft/"@ + path
    } else {
        path
    }
}

/// Computes an item's output directory, as [`output_dir_spec`] describes:
/// draft content is written only under `draft/`.
pub fn output_dir(item: &ContentItem) -> (r: String)
    ensures
        r@ == output_dir_spec(item.status, item.output_path@),
{
    match item.status {
        ContentStatus::Draft => {
            let mut out = String::from_str("draft/");
            out.append(item.output_path.as_str());
            out
        },
        _ => item.output_path.clone(),
    }
}

/// The template file an item selects: its `layout` value, `page` when
/// absent, with the `.html` suffix.
pub open spec fn template_name_spec(md: Map<Seq<char>, Seq<char>>) -> Seq<char> {
    (if md.contains_key("layout"@) {
        md["layout"@]
    } else {
        "page"@
    }) + ".html"@
}

/// Computes an item's template name, as [`template_name_spec`] describes.
pub fn template_name(md: &Metadata) -> (r: String)
    ensures
        r@ == template_name_spec(md@),
{
    let mut out = match md.get("layout") {
        Some(l) => l,
        None => String::from_str("page"),
    };
    out.append(".html");
    out
}

/// The index file of a tag: `tags/<tag>/index.html`.
pub open spec fn tag_index_path_spec(tag: Seq<char>) -> Seq<char> {
    "tags/"@ + tag + "/index.html"@
}

/// Computes a tag's index file path, as [`tag_index_path_spec`]
/// describes.
pub fn tag_index_path(tag: &str) -> (r: String)
    ensures
        r@ == tag_index_path_spec(tag@),
{
    let mut out = String::from_str("tags/");
    out.append(tag);
    out.append("/index.html");
    proof {
        assert(out@ =~= tag_index_path_spec(tag@));
    }
    out
}

} // verus!
