use pifbip::kind::{kind_for_extension, kind_for_mime};
use pifbip::preview::{describe_file, guess_mime, mime_label, other_preview_line, show_preview, Preview};
use pifbip::{detect_kind, FileKind};

const PNG_HEADER: [u8; 8] = [0x89, b'P', b'N', b'G', 0x0D, 0x0A, 0x1A, 0x0A];
const PDF_HEADER: &[u8] = b"%PDF-1.4\n";

#[test]
fn detect_kind_by_extension() {
    assert_eq!(detect_kind("/a/photo.JPG", &[]), FileKind::Image);
    assert_eq!(detect_kind("/a/clip.mkv", &[]), FileKind::Video);
    assert_eq!(detect_kind("/a/paper.pdf", &[]), FileKind::Pdf);
    assert_eq!(detect_kind("/a/main.rs", &[]), FileKind::Text);
    // The extension wins over the content.
    assert_eq!(detect_kind("/a/notes.txt", &PNG_HEADER), FileKind::Text);
}

#[test]
fn detect_kind_by_content() {
    assert_eq!(detect_kind("/a/noext", &PNG_HEADER), FileKind::Image);
    assert_eq!(detect_kind("/a/file.bin", PDF_HEADER), FileKind::Pdf);
    assert_eq!(detect_kind("/a/noext", &[]), FileKind::Other);
    assert_eq!(detect_kind("/a/noext", &[0, 1, 2, 3]), FileKind::Other);
}

#[test]
fn kind_tables() {
    assert_eq!(kind_for_extension("webp"), Some(FileKind::Image));
    assert_eq!(kind_for_extension("WEBP"), None);
    assert_eq!(kind_for_extension("toml"), Some(FileKind::Text));
    assert_eq!(kind_for_extension(""), None);
    assert_eq!(kind_for_mime(Some("image/x-icon".to_string())), FileKind::Image);
    assert_eq!(kind_for_mime(Some("video/mp4".to_string())), FileKind::Video);
    assert_eq!(kind_for_mime(Some("application/pdf".to_string())), FileKind::Pdf);
    assert_eq!(kind_for_mime(Some("application/pdfx".to_string())), FileKind::Other);
    assert_eq!(kind_for_mime(Some("text/plain".to_string())), FileKind::Text);
    assert_eq!(kind_for_mime(Some("audio/mpeg".to_string())), FileKind::Other);
    assert_eq!(kind_for_mime(None), FileKind::Other);
}

#[test]
fn preview_choice() {
    assert_eq!(show_preview("/x/Cat.PNG"), Preview::Image);
    assert_eq!(show_preview("/x/readme.md"), Preview::Text);
    assert_eq!(show_preview("/x/movie.mp4"), Preview::Other);
    assert_eq!(show_preview("/x/noext"), Preview::Other);
}

#[test]
fn mime_descriptions() {
    assert_eq!(guess_mime("/x/page.html"), Some("text/html".to_string()));
    assert_eq!(guess_mime("/x/noext"), None);
    assert_eq!(mime_label(guess_mime("/x/noext")), "unknown type");
    let label = mime_label(guess_mime("/x/a.json"));
    assert_eq!(label, "application/json");
    assert_eq!(other_preview_line(&label, 2048), "  Type: application/json | Size: 2.0 KB");
    assert_eq!(describe_file("unknown type", 10), "Type: unknown type\nSize: 10 B");
}
