//! How stored reachability scans show in the replay: the mark of a scan on
//! the timeline, and the blocks of a scan with a short view of their stacks.

use vstd::prelude::*;

use crate::replay::ReplayScanMarker;
use crate::text::{
    append_chars, append_vec, chars_of, fmt_i64_padded, has_prefix, signed_zero_padded, split_lines,
    string_of, text_lines, texts, vec_has_prefix,
};
use crate::units::{bytes_text, format_bytes};

verus! {

/// The stack frames shown of a block at most.
pub const MAX_STACK_FRAMES_PER_BLOCK: usize = 8;

/// The blocks of a scan shown at most.
pub const MAX_BLOCKS_RENDERED: usize = 100;

/// The style suffix and label of a stored class name (`definitely_lost`,
/// `indirectly_lost`, `possibly_lost`, anything else counting as still
/// reachable), by its prefix.
pub open spec fn stored_class_of(class: Seq<char>) -> (Seq<char>, Seq<char>) {
    if has_prefix(class, "definitely"@) {
        ("definitely"@, "definitely lost"@)
    } else if has_prefix(class, "indirectly"@) {
        ("indirectly"@, "indirectly lost"@)
    } else if has_prefix(class, "possibly"@) {
        ("possibly"@, "possibly lost"@)
    } else {
        ("reachable"@, "still reachable"@)
    }
}

/// The style suffix and label of a stored class name.
pub fn stored_class(class: &str) -> (r: (&'static str, &'static str))
    ensures
        (r.0@, r.1@) == stored_class_of(class@),
{
    let c = chars_of(class);
    if vec_has_prefix(&c, &chars_of("definitely")) {
        ("definitely", "definitely lost")
    } else if vec_has_prefix(&c, &chars_of("indirectly")) {
        ("indirectly", "indirectly lost")
    } else if vec_has_prefix(&c, &chars_of("possibly")) {
        ("possibly", "possibly lost")
    } else {
        ("reachable", "still reachable")
    }
}

/// The lines of a block's stack that are shown, and how many more there are.
pub open spec fn stack_preview_of(stack_text: Option<Seq<char>>) -> (Seq<Seq<char>>, nat) {
    match stack_text {
        Some(s) => {
            let lines = text_lines(s);
            let shown = if lines.len() > MAX_STACK_FRAMES_PER_BLOCK {
                lines.take(MAX_STACK_FRAMES_PER_BLOCK as int)
            } else {
                lines
            };
            (shown, (lines.len() - shown.len()) as nat)
        },
        None => (Seq::empty(), 0),
    }
}

/// The first lines of a block's stack, and how many lines are left out.
pub fn stack_preview(stack_text: Option<&str>) -> (r: (Vec<String>, usize))
    ensures
        (texts(r.0@), r.1 as nat) == stack_preview_of(
            match stack_text {
                Some(s) => Some(s@),
                None => None,
            },
        ),
{
    match stack_text {
        Some(s) => {
            let mut lines = split_lines(s);
            let total = lines.len();
            if total > MAX_STACK_FRAMES_PER_BLOCK {
                lines.truncate(MAX_STACK_FRAMES_PER_BLOCK);
                proof {
                    assert(texts(lines@) =~= text_lines(s@).take(MAX_STACK_FRAMES_PER_BLOCK as int));
                }
            }
            let shown = lines.len();
            (lines, total - shown)
        },
        None => (Vec::new(), 0),
    }
}

/// The style suffix and label of a scan's mark: the class that lost the
/// most bytes (definitely lost winning ties, then indirectly lost), or
/// reachable only when nothing was lost.
pub open spec fn marker_class_of(m: ReplayScanMarker) -> (Seq<char>, Seq<char>) {
    if m.definitely_lost_bytes >= m.indirectly_lost_bytes && m.definitely_lost_bytes >= m.possibly_lost_bytes
        && m.definitely_lost_bytes > 0 {
        ("definitely"@, "definitely lost"@)
    } else if m.indirectly_lost_bytes >= m.possibly_lost_bytes && m.indirectly_lost_bytes > 0 {
        ("indirectly"@, "indirectly lost"@)
    } else if m.possibly_lost_bytes > 0 {
        ("possibly"@, "possibly lost"@)
    } else {
        ("reachable"@, "reachable only"@)
    }
}

/// The style suffix and label of a scan's mark.
pub fn marker_class(m: &ReplayScanMarker) -> (r: (&'static str, &'static str))
    ensures
        (r.0@, r.1@) == marker_class_of(*m),
{
    if m.definitely_lost_bytes >= m.indirectly_lost_bytes && m.definitely_lost_bytes >= m.possibly_lost_bytes
        && m.definitely_lost_bytes > 0 {
        ("definitely", "definitely lost")
    } else if m.indirectly_lost_bytes >= m.possibly_lost_bytes && m.indirectly_lost_bytes > 0 {
        ("indirectly", "indirectly lost")
    } else if m.possibly_lost_bytes > 0 {
        ("possibly", "possibly lost")
    } else {
        ("reachable", "reachable only")
    }
}

/// The style of a scan's mark; the selected scan's mark is marked so.
pub open spec fn marker_style_of(m: ReplayScanMarker, selected_id: Option<i64>) -> Seq<char> {
    let base = "replay-scan-marker replay-scan-marker-"@ + marker_class_of(m).0;
    if selected_id == Some(m.id) {
        base + " replay-scan-marker-selected"@
    } else {
        base
    }
}

/// The style of a scan's mark.
pub fn marker_style(m: &ReplayScanMarker, selected_id: Option<i64>) -> (r: String)
    ensures
        r@ == marker_style_of(*m, selected_id),
{
    let (suffix, _) = marker_class(m);
    let mut out = chars_of("replay-scan-marker replay-scan-marker-");
    append_chars(&mut out, suffix);
    let selected = match selected_id {
        Some(id) => id == m.id,
        None => false,
    };
    if selected {
        append_chars(&mut out, " replay-scan-marker-selected");
    }
    string_of(&out)
}

/// The title of a scan's mark: its id, pid, blocks, lost bytes and class.
pub open spec fn marker_title_of(m: ReplayScanMarker) -> Seq<char> {
    "scan #"@ + signed_zero_padded(m.id as int, 0) + " \u{b7} PID "@ + crate::text::dec(m.pid as nat)
        + " \u{b7} "@ + signed_zero_padded(m.total_blocks as int, 0) + " blocks \u{b7} "@ + bytes_text(
        m.total_lost_bytes,
    ) + " ("@ + marker_class_of(m).1 + ")"@
}

/// The title of a scan's mark.
pub fn marker_title(m: &ReplayScanMarker) -> (r: String)
    ensures
        r@ == marker_title_of(*m),
{
    let (_, label) = marker_class(m);
    let mut out = chars_of("scan #");
    let id = fmt_i64_padded(m.id, 0);
    append_vec(&mut out, &id);
    append_chars(&mut out, " \u{b7} PID ");
    let pid = crate::text::dec_chars(m.pid as u64);
    append_vec(&mut out, &pid);
    append_chars(&mut out, " \u{b7} ");
    let blocks = fmt_i64_padded(m.total_blocks, 0);
    append_vec(&mut out, &blocks);
    append_chars(&mut out, " blocks \u{b7} ");
    let bytes = format_bytes(m.total_lost_bytes);
    append_chars(&mut out, bytes.as_str());
    append_chars(&mut out, " (");
    append_chars(&mut out, label);
    append_chars(&mut out, ")");
    string_of(&out)
}

/// The line under a scan's title: its lost bytes and blocks.
pub open spec fn scan_subtitle_of(m: ReplayScanMarker) -> Seq<char> {
    bytes_text(m.total_lost_bytes) + " lost across "@ + signed_zero_padded(m.total_blocks as int, 0)
        + " blocks"@
}

/// The line under a scan's title.
pub fn scan_subtitle(m: &ReplayScanMarker) -> (r: String)
    ensures
        r@ == scan_subtitle_of(*m),
{
    let bytes = format_bytes(m.total_lost_bytes);
    let mut out = chars_of(bytes.as_str());
    append_chars(&mut out, " lost across ");
    let blocks = fmt_i64_padded(m.total_blocks, 0);
    append_vec(&mut out, &blocks);
    append_chars(&mut out, " blocks");
    string_of(&out)
}

} // verus!
