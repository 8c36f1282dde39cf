//! What the preview pane shows for a file.
use vstd::prelude::*;
use vstd::string::*;
use crate::kind::{
    detected_kind, extension_kind, image_extensions, text_extensions, lowercase, path_extension, extension_of,
    FileKind,
};
use crate::names::opt_view;
use crate::size::{format_size, size_text};
use crate::text::{decimal, decimal_string};

verus! {

/// The previews of the terminal front end.
#[derive(Clone, Copy, PartialEq, Eq, Debug, Structural)]
pub enum Preview {
    /// The picture itself.
    Image,
    /// The first and last lines of the text.
    Text,
    /// The file's type and size.
    Other,
}

/// The preview for a path: by its lower-cased extension, images and text
/// files get their own, everything else the type-and-size line.
pub open spec fn preview_for(path: Seq<char>) -> Preview {
    let e = lowercase(path_extension(path));
    if image_extensions().contains(e) {
        Preview::Image
    } else if text_extensions().contains(e) {
        Preview::Text
    } else {
        Preview::Other
    }
}

/// The terminal preview follows the kind that the lower-cased extension
/// announces: a picture's extension gets the picture, a text file's
/// extension the first and last lines, an unknown extension the
/// type-and-size line; and a known extension decides the file's kind
/// whatever its content.
pub proof fn lemma_preview_follows_extension(path: Seq<char>, header: Seq<u8>)
    ensures
        extension_kind(lowercase(path_extension(path))) == Some(FileKind::Image) ==> preview_for(path)
            == Preview::Image,
        extension_kind(lowercase(path_extension(path))) == Some(FileKind::Text) ==> preview_for(path)
            == Preview::Text,
        extension_kind(lowercase(path_extension(path))) is None ==> preview_for(path) == Preview::Other,
        extension_kind(lowercase(path_extension(path))) matches Some(k) ==> detected_kind(path, header)
            == k,
{
}

/// Chooses the preview shown for the file at `path`.
pub fn show_preview(path: &str) -> (r: Preview)
    ensures
        r == preview_for(path@),
{
    let ext = extension_of(path);
    let lower = crate::kind::lower_case(ext.as_str());
    if crate::kind::is_image_extension(lower.as_str()) {
        Preview::Image
    } else if crate::kind::is_text_extension(lower.as_str()) {
        Preview::Text
    } else {
        Preview::Other
    }
}

/// The MIME type that `mime_guess` associates with an extension.
pub uninterp spec fn guessed_mime(ext: Seq<char>) -> Option<Seq<char>>;

/// Calls `mime_guess::from_ext(ext).first()` and renders the first guess as
/// a string. Named ([`guessed_mime`]): it depends on `ext` alone; of the
/// table behind it the contract states only that an empty extension has no
/// guess.
#[verifier::external_body]
fn mime_for_extension(ext: &str) -> (r: Option<String>)
    ensures
        opt_view(r) == guessed_mime(ext@),
        ext@.len() == 0 ==> r is None,
{
    mime_guess::from_ext(ext).first().map(|m| m.to_string())
}

/// The type shown for a file: its guessed MIME type, or `unknown type`.
pub open spec fn type_label(mime: Option<Seq<char>>) -> Seq<char> {
    match mime {
        Some(m) => m,
        None => "unknown type"@,
    }
}

/// The type shown for a file, from its guessed MIME type.
pub fn mime_label(mime: Option<String>) -> (r: String)
    ensures
        r@ == type_label(opt_view(mime)),
{
    match mime {
        Some(m) => m,
        None => String::from_str("unknown type"),
    }
}

/// The guessed MIME type of the file at `path` (by its extension, as
/// `mime_guess::from_path` guesses).
pub fn guess_mime(path: &str) -> (r: Option<String>)
    ensures
        opt_view(r) == guessed_mime(path_extension(path@)),
        path_extension(path@).len() == 0 ==> r is None,
{
    let ext = extension_of(path);
    mime_for_extension(ext.as_str())
}

/// The line shown for a file without a dedicated preview:
/// `"  Type: <type> | Size: <size>"`.
pub open spec fn other_line(label: Seq<char>, size: nat) -> Seq<char> {
    "  Type: "@ + label + " | Size: "@ + size_text(size)
}

/// The line shown for a file without a dedicated preview.
pub fn other_preview_line(label: &str, size: u64) -> (r: String)
    ensures
        r@ == other_line(label@, size as nat),
{
    let mut r = String::from_str("  Type: ");
    r.append(label);
    r.append(" | Size: ");
    let s = format_size(size);
    r.append(s.as_str());
    r
}

/// The description shown by the desktop front end for a file without a
/// dedicated preview: `"Type: <type>\nSize: <size>"`.
pub open spec fn file_description(label: Seq<char>, size: nat) -> Seq<char> {
    "Type: "@ + label + "\nSize: "@ + size_text(size)
}

/// The description of a file without a dedicated preview.
pub fn describe_file(label: &str, size: u64) -> (r: String)
    ensures
        r@ == file_description(label@, size as nat),
{
    let mut r = String::from_str("Type: ");
    r.append(label);
    r.append("\nSize: ");
    let s = format_size(size);
    r.append(s.as_str());
    r
}


/// Lines shown from the start of a long text.
pub const HEAD_LINES: usize = 10;

/// Lines shown from the end of a long text.
pub const TAIL_LINES: usize = 10;

/// Texts of at most this many lines are shown whole.
pub const MAX_DISPLAY_LINES: usize = 25;

/// How many characters of a line fit in a terminal `cols` wide.
pub open spec fn line_width(cols: nat) -> nat {
    if cols > 4 {
        (cols - 4) as nat
    } else {
        cols
    }
}

/// A line of text as shown: indented by two spaces and cut to the width.
pub open spec fn shown_line(line: Seq<char>, cols: nat) -> Seq<char> {
    "  "@ + if line.len() <= line_width(cols) {
        line
    } else {
        line.take(line_width(cols) as int)
    }
}

/// The lines shown for lines `lines`, in order.
pub open spec fn shown_lines(lines: Seq<Seq<char>>, cols: nat) -> Seq<Seq<char>> {
    lines.map_values(|l: Seq<char>| shown_line(l, cols))
}

/// The heading of a text preview: `"  --- N lines ---"` (`line` for one).
pub open spec fn preview_heading(n: nat) -> Seq<char> {
    "  --- "@ + decimal(n) + " line"@ + (if n == 1 {
        Seq::<char>::empty()
    } else {
        "s"@
    }) + " ---"@
}

/// The marker that stands for the middle of a long text.
pub open spec fn omitted_line(n: nat) -> Seq<char> {
    "  ... ("@ + decimal(n) + " lines omitted) ..."@
}

/// The text preview of a file whose lines are `lines` in a terminal `cols`
/// wide: a heading, then every line when there are at most 25, otherwise
/// the first 10, a marker counting the rest, and the last 10; then an end
/// marker.
pub open spec fn text_preview_lines(lines: Seq<Seq<char>>, cols: nat) -> Seq<Seq<char>> {
    let n = lines.len();
    let body = if n <= 25 {
        shown_lines(lines, cols)
    } else {
        shown_lines(lines.take(10), cols) + seq![omitted_line((n - 20) as nat)] + shown_lines(
            lines.skip(n - 10),
            cols,
        )
    };
    seq![preview_heading(n)] + body + seq!["  --- end ---"@]
}

/// What a text preview shows: a heading counting the lines; then, for at
/// most 25 lines, every line in order; for more, exactly the first 10
/// lines, a marker counting the lines left out, and exactly the last 10
/// lines (the lines shown and the lines counted as left out add up to the
/// whole text); then an end marker.
pub proof fn lemma_text_preview_shows_head_and_tail(lines: Seq<Seq<char>>, cols: nat)
    ensures
        text_preview_lines(lines, cols)[0] == preview_heading(lines.len()),
        text_preview_lines(lines, cols).last() == "  --- end ---"@,
        lines.len() <= 25 ==> {
            &&& text_preview_lines(lines, cols).len() == lines.len() + 2
            &&& forall|i: int|
                0 <= i < lines.len() ==> #[trigger] text_preview_lines(lines, cols)[i + 1] == shown_line(
                    lines[i],
                    cols,
                )
        },
        lines.len() > 25 ==> {
            &&& text_preview_lines(lines, cols).len() == 23
            &&& forall|i: int|
                0 <= i < 10 ==> #[trigger] text_preview_lines(lines, cols)[i + 1] == shown_line(
                    lines[i],
                    cols,
                )
            &&& text_preview_lines(lines, cols)[11] == omitted_line((lines.len() - 20) as nat)
            &&& forall|i: int|
                0 <= i < 10 ==> #[trigger] text_preview_lines(lines, cols)[i + 12] == shown_line(
                    lines[lines.len() - 10 + i],
                    cols,
                )
            &&& (lines.len() - 20) + 10 + 10 == lines.len()
        },
{
    let n = lines.len();
    let out = text_preview_lines(lines, cols);
    if n <= 25 {
        assert forall|i: int| 0 <= i < n implies #[trigger] out[i + 1] == shown_line(lines[i], cols) by {
            assert(out[i + 1] == shown_lines(lines, cols)[i]);
        }
    } else {
        let head = shown_lines(lines.take(10), cols);
        let tail = shown_lines(lines.skip(n - 10), cols);
        assert(head.len() == 10 && tail.len() == 10);
        assert forall|i: int| 0 <= i < 10 implies #[trigger] out[i + 1] == shown_line(lines[i], cols) by {
            assert(out[i + 1] == head[i]);
        }
        assert(out[11] == omitted_line((n - 20) as nat));
        assert forall|i: int| 0 <= i < 10 implies #[trigger] out[i + 12] == shown_line(
            lines[n - 10 + i],
            cols,
        ) by {
            assert(out[i + 12] == tail[i]);
            assert(lines.skip(n - 10)[i] == lines[n - 10 + i]);
        }
    }
}

/// The line `line` as shown in a terminal `cols` wide.
pub fn truncate_line(line: &str, cols: usize) -> (r: String)
    ensures
        r@ == shown_line(line@, cols as nat),
{
    let max = if cols > 4 {
        cols - 4
    } else {
        cols
    };
    let n = line.unicode_len();
    let mut r = String::from_str("  ");
    if n <= max {
        r.append(line);
    } else {
        let part = line.substring_char(0, max);
        assert(part@ =~= line@.take(max as int));
        r.append(part);
    }
    r
}

fn push_shown(out: &mut Vec<String>, lines: &Vec<String>, from: usize, to: usize, cols: usize)
    requires
        from <= to <= lines.len(),
    ensures
        crate::names::names_view(final(out)@) == crate::names::names_view(old(out)@) + shown_lines(
            crate::names::names_view(lines@).subrange(from as int, to as int),
            cols as nat,
        ),
{
    let ghost start = crate::names::names_view(out@);
    let ghost lv = crate::names::names_view(lines@);
    let mut i = from;
    while i < to
        invariant
            from <= i <= to,
            to <= lines.len(),
            lv == crate::names::names_view(lines@),
            crate::names::names_view(out@) == start + shown_lines(lv.subrange(from as int, i as int), cols as nat),
        decreases to - i,
    {
        let l = truncate_line(lines[i].as_str(), cols);
        let ghost prev = crate::names::names_view(out@);
        out.push(l);
        assert(crate::names::names_view(out@) =~= prev.push(shown_line(lv[i as int], cols as nat)));
        assert(lv.subrange(from as int, i + 1) =~= lv.subrange(from as int, i as int).push(lv[i as int]));
        assert(shown_lines(lv.subrange(from as int, i + 1), cols as nat) =~= shown_lines(lv.subrange(from as int, i as int), cols as nat).push(shown_line(lv[i as int], cols as nat)));
        i = i + 1;
    }
}

/// The lines printed to preview a text file whose lines are `lines`, in a
/// terminal `cols` characters wide.
pub fn text_preview(lines: &Vec<String>, cols: usize) -> (r: Vec<String>)
    ensures
        crate::names::names_view(r@) == text_preview_lines(crate::names::names_view(lines@), cols as nat),
{
    let ghost lv = crate::names::names_view(lines@);
    let total = lines.len();
    let mut heading = String::from_str("  --- ");
    let count = decimal_string(total as u64);
    heading.append(count.as_str());
    heading.append(" line");
    if total != 1 {
        heading.append("s");
    }
    heading.append(" ---");
    assert(heading@ =~= preview_heading(total as nat));
    let mut out: Vec<String> = Vec::new();
    out.push(heading);
    let ghost n = lv.len();
    let ghost body = if n <= 25 {
        shown_lines(lv, cols as nat)
    } else {
        shown_lines(lv.take(10), cols as nat) + seq![omitted_line((n - 20) as nat)] + shown_lines(
            lv.skip(n - 10),
            cols as nat,
        )
    };
    assert(crate::names::names_view(out@) =~= seq![preview_heading(n)]);
    if total <= MAX_DISPLAY_LINES {
        push_shown(&mut out, lines, 0, total, cols);
        assert(lv.subrange(0, total as int) =~= lv);
        assert(crate::names::names_view(out@) =~= seq![preview_heading(n)] + body);
    } else {
        push_shown(&mut out, lines, 0, HEAD_LINES, cols);
        assert(lv.subrange(0, 10) =~= lv.take(10));
        let ghost o1 = crate::names::names_view(out@);
        assert(o1 == seq![preview_heading(n)] + shown_lines(lv.take(10), cols as nat));
        let mut marker = String::from_str("  ... (");
        let omitted = decimal_string((total - HEAD_LINES - TAIL_LINES) as u64);
        marker.append(omitted.as_str());
        marker.append(" lines omitted) ...");
        assert(marker@ =~= omitted_line((total - 20) as nat));
        out.push(marker);
        assert(crate::names::names_view(out@) =~= o1.push(omitted_line((n - 20) as nat)));
        let ghost o2 = crate::names::names_view(out@);
        push_shown(&mut out, lines, total - TAIL_LINES, total, cols);
        assert(lv.subrange(total - 10, total as int) =~= lv.skip(total - 10));
        assert(crate::names::names_view(out@) == o2 + shown_lines(lv.skip(n - 10), cols as nat));
        assert(lv.subrange(0, 10) =~= lv.take(10));
        assert(lv.subrange(total - 10, total as int) =~= lv.skip(total - 10));
        assert(crate::names::names_view(out@) =~= seq![preview_heading(n)] + body);
    }
    let ghost before_end = crate::names::names_view(out@);
    out.push(String::from_str("  --- end ---"));
    assert(crate::names::names_view(out@) =~= before_end.push("  --- end ---"@));
    assert(crate::names::names_view(out@) =~= text_preview_lines(lv, cols as nat));
    out
}

} // verus!
