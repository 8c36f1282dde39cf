//! What kind of file a path holds, by extension and then by content.
use vstd::prelude::*;
use vstd::string::*;
use crate::names::{file_name_of, name_extension, opt_view, path_file_name, split_file_name};
use crate::text::str_equal;

verus! {

/// The kinds of file that get a dedicated preview.
#[derive(Clone, Copy, PartialEq, Eq, Debug, Structural)]
pub enum FileKind {
    Image,
    Video,
    Pdf,
    Text,
    Other,
}

/// Extensions of image files.
pub open spec fn image_extensions() -> Seq<Seq<char>> {
    seq!["jpg"@, "jpeg"@, "png"@, "gif"@, "webp"@, "bmp"@, "tiff"@, "tif"@, "ico"@]
}

/// Extensions of video files.
pub open spec fn video_extensions() -> Seq<Seq<char>> {
    seq!["mp4"@, "mkv"@, "webm"@, "avi"@, "mov"@, "flv"@, "wmv"@]
}

/// Extensions of PDF files.
pub open spec fn pdf_extensions() -> Seq<Seq<char>> {
    seq!["pdf"@]
}

/// Extensions of text files.
pub open spec fn text_extensions() -> Seq<Seq<char>> {
    seq![
        "txt"@, "md"@, "csv"@, "log"@, "json"@, "xml"@, "yaml"@, "yml"@, "html"@, "css"@, "js"@,
        "py"@, "sh"@, "conf"@, "ini"@, "toml"@, "rs"@, "go"@, "java"@, "c"@, "cpp"@, "h"@, "hpp"@,
        "rb"@, "php"@,
    ]
}

/// The views of a list of string slices.
pub open spec fn strs_view(v: Seq<&str>) -> Seq<Seq<char>> {
    v.map_values(|s: &str| s@)
}

fn list_contains(list: &Vec<&str>, e: &str) -> (r: bool)
    ensures
        r == strs_view(list@).contains(e@),
{
    let mut i: usize = 0;
    while i < list.len()
        invariant
            i <= list.len(),
            forall|j: int| 0 <= j < i ==> list@[j]@ != e@,
        decreases list.len() - i,
    {
        if str_equal(list[i], e) {
            assert(strs_view(list@)[i as int] == e@);
            return true;
        }
        i = i + 1;
    }
    assert forall|j: int| 0 <= j < strs_view(list@).len() implies strs_view(list@)[j] != e@ by {
        assert(strs_view(list@)[j] == list@[j]@);
    }
    false
}

pub(crate) fn is_image_extension(e: &str) -> (r: bool)
    ensures
        r == image_extensions().contains(e@),
{
    let list = vec!["jpg", "jpeg", "png", "gif", "webp", "bmp", "tiff", "tif", "ico"];
    assert(strs_view(list@) =~= image_extensions());
    list_contains(&list, e)
}

fn is_video_extension(e: &str) -> (r: bool)
    ensures
        r == video_extensions().contains(e@),
{
    let list = vec!["mp4", "mkv", "webm", "avi", "mov", "flv", "wmv"];
    assert(strs_view(list@) =~= video_extensions());
    list_contains(&list, e)
}

fn is_pdf_extension(e: &str) -> (r: bool)
    ensures
        r == pdf_extensions().contains(e@),
{
    let list = vec!["pdf"];
    assert(strs_view(list@) =~= pdf_extensions());
    list_contains(&list, e)
}

pub(crate) fn is_text_extension(e: &str) -> (r: bool)
    ensures
        r == text_extensions().contains(e@),
{
    let list = vec![
        "txt", "md", "csv", "log", "json", "xml", "yaml", "yml", "html", "css", "js", "py", "sh",
        "conf", "ini", "toml", "rs", "go", "java", "c", "cpp", "h", "hpp", "rb", "php",
    ];
    assert(strs_view(list@) =~= text_extensions());
    list_contains(&list, e)
}

/// The kind that a (lower-case) extension announces, if it is a known one.
pub open spec fn extension_kind(e: Seq<char>) -> Option<FileKind> {
    if image_extensions().contains(e) {
        Some(FileKind::Image)
    } else if video_extensions().contains(e) {
        Some(FileKind::Video)
    } else if pdf_extensions().contains(e) {
        Some(FileKind::Pdf)
    } else if text_extensions().contains(e) {
        Some(FileKind::Text)
    } else {
        None
    }
}

/// The extensions announcing a picture: jpg, jpeg, png, gif, webp, bmp,
/// tiff, tif and ico.
pub proof fn lemma_image_extensions()
    ensures
        extension_kind("jpg"@) == Some(FileKind::Image),
        extension_kind("jpeg"@) == Some(FileKind::Image),
        extension_kind("png"@) == Some(FileKind::Image),
        extension_kind("gif"@) == Some(FileKind::Image),
        extension_kind("webp"@) == Some(FileKind::Image),
        extension_kind("bmp"@) == Some(FileKind::Image),
        extension_kind("tiff"@) == Some(FileKind::Image),
        extension_kind("tif"@) == Some(FileKind::Image),
        extension_kind("ico"@) == Some(FileKind::Image),
{
    reveal_strlit("jpg");
    reveal_strlit("jpeg");
    reveal_strlit("png");
    reveal_strlit("gif");
    reveal_strlit("webp");
    reveal_strlit("bmp");
    reveal_strlit("tiff");
    reveal_strlit("tif");
    reveal_strlit("ico");
    assert(image_extensions()[0] == "jpg"@);
    assert(image_extensions()[1] == "jpeg"@);
    assert(image_extensions()[2] == "png"@);
    assert(image_extensions()[3] == "gif"@);
    assert(image_extensions()[4] == "webp"@);
    assert(image_extensions()[5] == "bmp"@);
    assert(image_extensions()[6] == "tiff"@);
    assert(image_extensions()[7] == "tif"@);
    assert(image_extensions()[8] == "ico"@);
}

/// The extensions announcing a video: mp4, mkv, webm, avi, mov, flv and wmv.
pub proof fn lemma_video_extensions()
    ensures
        extension_kind("mp4"@) == Some(FileKind::Video),
        extension_kind("mkv"@) == Some(FileKind::Video),
        extension_kind("webm"@) == Some(FileKind::Video),
        extension_kind("avi"@) == Some(FileKind::Video),
        extension_kind("mov"@) == Some(FileKind::Video),
        extension_kind("flv"@) == Some(FileKind::Video),
        extension_kind("wmv"@) == Some(FileKind::Video),
{
    reveal_strlit("jpg");
    reveal_strlit("jpeg");
    reveal_strlit("png");
    reveal_strlit("gif");
    reveal_strlit("webp");
    reveal_strlit("bmp");
    reveal_strlit("tiff");
    reveal_strlit("tif");
    reveal_strlit("ico");
    reveal_strlit("mp4");
    reveal_strlit("mkv");
    reveal_strlit("webm");
    reveal_strlit("avi");
    reveal_strlit("mov");
    reveal_strlit("flv");
    reveal_strlit("wmv");
    assert(
        image_extensions()[0][0] != "mp4"@[0] &&
        image_extensions()[1].len() != "mp4"@.len() &&
        image_extensions()[2][0] != "mp4"@[0] &&
        image_extensions()[3][0] != "mp4"@[0] &&
        image_extensions()[4].len() != "mp4"@.len() &&
        image_extensions()[5][0] != "mp4"@[0] &&
        image_extensions()[6].len() != "mp4"@.len() &&
        image_extensions()[7][0] != "mp4"@[0] &&
        image_extensions()[8][0] != "mp4"@[0]
    );
    assert forall|i: int| 0 <= i < image_extensions().len() implies image_extensions()[i] != "mp4"@ by {
        if i == 0 {} else if i == 1 {} else if i == 2 {} else if i == 3 {} else if i == 4 {} else if i == 5 {} else if i == 6 {} else if i == 7 {} else if i == 8 {}
    }
    assert(video_extensions()[0] == "mp4"@);
    assert(
        image_extensions()[0][0] != "mkv"@[0] &&
        image_extensions()[1].len() != "mkv"@.len() &&
        image_extensions()[2][0] != "mkv"@[0] &&
        image_extensions()[3][0] != "mkv"@[0] &&
        image_extensions()[4].len() != "mkv"@.len() &&
        image_extensions()[5][0] != "mkv"@[0] &&
        image_extensions()[6].len() != "mkv"@.len() &&
        image_extensions()[7][0] != "mkv"@[0] &&
        image_extensions()[8][0] != "mkv"@[0]
    );
    assert forall|i: int| 0 <= i < image_extensions().len() implies image_extensions()[i] != "mkv"@ by {
        if i == 0 {} else if i == 1 {} else if i == 2 {} else if i == 3 {} else if i == 4 {} else if i == 5 {} else if i == 6 {} else if i == 7 {} else if i == 8 {}
    }
    assert(video_extensions()[1] == "mkv"@);
    assert(
        image_extensions()[0].len() != "webm"@.len() &&
        image_extensions()[1][0] != "webm"@[0] &&
        image_extensions()[2].len() != "webm"@.len() &&
        image_extensions()[3].len() != "webm"@.len() &&
        image_extensions()[4][3] != "webm"@[3] &&
        image_extensions()[5].len() != "webm"@.len() &&
        image_extensions()[6][0] != "webm"@[0] &&
        image_extensions()[7].len() != "webm"@.len() &&
        image_extensions()[8].len() != "webm"@.len()
    );
    assert forall|i: int| 0 <= i < image_extensions().len() implies image_extensions()[i] != "webm"@ by {
        if i == 0 {} else if i == 1 {} else if i == 2 {} else if i == 3 {} else if i == 4 {} else if i == 5 {} else if i == 6 {} else if i == 7 {} else if i == 8 {}
    }
    assert(video_extensions()[2] == "webm"@);
    assert(
        image_extensions()[0][0] != "avi"@[0] &&
        image_extensions()[1].len() != "avi"@.len() &&
        image_extensions()[2][0] != "avi"@[0] &&
        image_extensions()[3][0] != "avi"@[0] &&
        image_extensions()[4].len() != "avi"@.len() &&
        image_extensions()[5][0] != "avi"@[0] &&
        image_extensions()[6].len() != "avi"@.len() &&
        image_extensions()[7][0] != "avi"@[0] &&
        image_extensions()[8][0] != "avi"@[0]
    );
    assert forall|i: int| 0 <= i < image_extensions().len() implies image_extensions()[i] != "avi"@ by {
        if i == 0 {} else if i == 1 {} else if i == 2 {} else if i == 3 {} else if i == 4 {} else if i == 5 {} else if i == 6 {} else if i == 7 {} else if i == 8 {}
    }
    assert(video_extensions()[3] == "avi"@);
    assert(
        image_extensions()[0][0] != "mov"@[0] &&
        image_extensions()[1].len() != "mov"@.len() &&
        image_extensions()[2][0] != "mov"@[0] &&
        image_extensions()[3][0] != "mov"@[0] &&
        image_extensions()[4].len() != "mov"@.len() &&
        image_extensions()[5][0] != "mov"@[0] &&
        image_extensions()[6].len() != "mov"@.len() &&
        image_extensions()[7][0] != "mov"@[0] &&
        image_extensions()[8][0] != "mov"@[0]
    );
    assert forall|i: int| 0 <= i < image_extensions().len() implies image_extensions()[i] != "mov"@ by {
        if i == 0 {} else if i == 1 {} else if i == 2 {} else if i == 3 {} else if i == 4 {} else if i == 5 {} else if i == 6 {} else if i == 7 {} else if i == 8 {}
    }
    assert(video_extensions()[4] == "mov"@);
    assert(
        image_extensions()[0][0] != "flv"@[0] &&
        image_extensions()[1].len() != "flv"@.len() &&
        image_extensions()[2][0] != "flv"@[0] &&
        image_extensions()[3][0] != "flv"@[0] &&
        image_extensions()[4].len() != "flv"@.len() &&
        image_extensions()[5][0] != "flv"@[0] &&
        image_extensions()[6].len() != "flv"@.len() &&
        image_extensions()[7][0] != "flv"@[0] &&
        image_extensions()[8][0] != "flv"@[0]
    );
    assert forall|i: int| 0 <= i < image_extensions().len() implies image_extensions()[i] != "flv"@ by {
        if i == 0 {} else if i == 1 {} else if i == 2 {} else if i == 3 {} else if i == 4 {} else if i == 5 {} else if i == 6 {} else if i == 7 {} else if i == 8 {}
    }
    assert(video_extensions()[5] == "flv"@);
    assert(
        image_extensions()[0][0] != "wmv"@[0] &&
        image_extensions()[1].len() != "wmv"@.len() &&
        image_extensions()[2][0] != "wmv"@[0] &&
        image_extensions()[3][0] != "wmv"@[0] &&
        image_extensions()[4].len() != "wmv"@.len() &&
        image_extensions()[5][0] != "wmv"@[0] &&
        image_extensions()[6].len() != "wmv"@.len() &&
        image_extensions()[7][0] != "wmv"@[0] &&
        image_extensions()[8][0] != "wmv"@[0]
    );
    assert forall|i: int| 0 <= i < image_extensions().len() implies image_extensions()[i] != "wmv"@ by {
        if i == 0 {} else if i == 1 {} else if i == 2 {} else if i == 3 {} else if i == 4 {} else if i == 5 {} else if i == 6 {} else if i == 7 {} else if i == 8 {}
    }
    assert(video_extensions()[6] == "wmv"@);
}

/// The extension announcing a PDF document: pdf.
pub proof fn lemma_pdf_extension()
    ensures
        extension_kind("pdf"@) == Some(FileKind::Pdf),
{
    reveal_strlit("jpg");
    reveal_strlit("jpeg");
    reveal_strlit("png");
    reveal_strlit("gif");
    reveal_strlit("webp");
    reveal_strlit("bmp");
    reveal_strlit("tiff");
    reveal_strlit("tif");
    reveal_strlit("ico");
    reveal_strlit("mp4");
    reveal_strlit("mkv");
    reveal_strlit("webm");
    reveal_strlit("avi");
    reveal_strlit("mov");
    reveal_strlit("flv");
    reveal_strlit("wmv");
    reveal_strlit("pdf");
    assert(
        image_extensions()[0][0] != "pdf"@[0] &&
        image_extensions()[1].len() != "pdf"@.len() &&
        image_extensions()[2][1] != "pdf"@[1] &&
        image_extensions()[3][0] != "pdf"@[0] &&
        image_extensions()[4].len() != "pdf"@.len() &&
        image_extensions()[5][0] != "pdf"@[0] &&
        image_extensions()[6].len() != "pdf"@.len() &&
        image_extensions()[7][0] != "pdf"@[0] &&
        image_extensions()[8][0] != "pdf"@[0]
    );
    assert forall|i: int| 0 <= i < image_extensions().len() implies image_extensions()[i] != "pdf"@ by {
        if i == 0 {} else if i == 1 {} else if i == 2 {} else if i == 3 {} else if i == 4 {} else if i == 5 {} else if i == 6 {} else if i == 7 {} else if i == 8 {}
    }
    assert(
        video_extensions()[0][0] != "pdf"@[0] &&
        video_extensions()[1][0] != "pdf"@[0] &&
        video_extensions()[2].len() != "pdf"@.len() &&
        video_extensions()[3][0] != "pdf"@[0] &&
        video_extensions()[4][0] != "pdf"@[0] &&
        video_extensions()[5][0] != "pdf"@[0] &&
        video_extensions()[6][0] != "pdf"@[0]
    );
    assert forall|i: int| 0 <= i < video_extensions().len() implies video_extensions()[i] != "pdf"@ by {
        if i == 0 {} else if i == 1 {} else if i == 2 {} else if i == 3 {} else if i == 4 {} else if i == 5 {} else if i == 6 {}
    }
    assert(pdf_extensions()[0] == "pdf"@);
}

/// The extensions announcing a text file: txt, md, csv, log, json, xml,
/// yaml, yml, html, css, js, py, sh, conf, ini, toml, rs, go, java, c, cpp,
/// h, hpp, rb and php.
pub proof fn lemma_text_extensions()
    ensures
        extension_kind("txt"@) == Some(FileKind::Text),
        extension_kind("md"@) == Some(FileKind::Text),
        extension_kind("csv"@) == Some(FileKind::Text),
        extension_kind("log"@) == Some(FileKind::Text),
        extension_kind("json"@) == Some(FileKind::Text),
        extension_kind("xml"@) == Some(FileKind::Text),
        extension_kind("yaml"@) == Some(FileKind::Text),
        extension_kind("yml"@) == Some(FileKind::Text),
        extension_kind("html"@) == Some(FileKind::Text),
        extension_kind("css"@) == Some(FileKind::Text),
        extension_kind("js"@) == Some(FileKind::Text),
        extension_kind("py"@) == Some(FileKind::Text),
        extension_kind("sh"@) == Some(FileKind::Text),
        extension_kind("conf"@) == Some(FileKind::Text),
        extension_kind("ini"@) == Some(FileKind::Text),
        extension_kind("toml"@) == Some(FileKind::Text),
        extension_kind("rs"@) == Some(FileKind::Text),
        extension_kind("go"@) == Some(FileKind::Text),
        extension_kind("java"@) == Some(FileKind::Text),
        extension_kind("c"@) == Some(FileKind::Text),
        extension_kind("cpp"@) == Some(FileKind::Text),
        extension_kind("h"@) == Some(FileKind::Text),
        extension_kind("hpp"@) == Some(FileKind::Text),
        extension_kind("rb"@) == Some(FileKind::Text),
        extension_kind("php"@) == Some(FileKind::Text),
{
    reveal_strlit("jpg");
    reveal_strlit("jpeg");
    reveal_strlit("png");
    reveal_strlit("gif");
    reveal_strlit("webp");
    reveal_strlit("bmp");
    reveal_strlit("tiff");
    reveal_strlit("tif");
    reveal_strlit("ico");
    reveal_strlit("mp4");
    reveal_strlit("mkv");
    reveal_strlit("webm");
    reveal_strlit("avi");
    reveal_strlit("mov");
    reveal_strlit("flv");
    reveal_strlit("wmv");
    reveal_strlit("pdf");
    reveal_strlit("txt");
    reveal_strlit("md");
    reveal_strlit("csv");
    reveal_strlit("log");
    reveal_strlit("json");
    reveal_strlit("xml");
    reveal_strlit("yaml");
    reveal_strlit("yml");
    reveal_strlit("html");
    reveal_strlit("css");
    reveal_strlit("js");
    reveal_strlit("py");
    reveal_strlit("sh");
    reveal_strlit("conf");
    reveal_strlit("ini");
    reveal_strlit("toml");
    reveal_strlit("rs");
    reveal_strlit("go");
    reveal_strlit("java");
    reveal_strlit("c");
    reveal_strlit("cpp");
    reveal_strlit("h");
    reveal_strlit("hpp");
    reveal_strlit("rb");
    reveal_strlit("php");
    assert(
        image_extensions()[0][0] != "txt"@[0] &&
        image_extensions()[1].len() != "txt"@.len() &&
        image_extensions()[2][0] != "txt"@[0] &&
        image_extensions()[3][0] != "txt"@[0] &&
        image_extensions()[4].len() != "txt"@.len() &&
        image_extensions()[5][0] != "txt"@[0] &&
        image_extensions()[6].len() != "txt"@.len() &&
        image_extensions()[7][1] != "txt"@[1] &&
        image_extensions()[8][0] != "txt"@[0]
    );
    assert forall|i: int| 0 <= i < image_extensions().len() implies image_extensions()[i] != "txt"@ by {
        if i == 0 {} else if i == 1 {} else if i == 2 {} else if i == 3 {} else if i == 4 {} else if i == 5 {} else if i == 6 {} else if i == 7 {} else if i == 8 {}
    }
    assert(
        video_extensions()[0][0] != "txt"@[0] &&
        video_extensions()[1][0] != "txt"@[0] &&
        video_extensions()[2].len() != "txt"@.len() &&
        video_extensions()[3][0] != "txt"@[0] &&
        video_extensions()[4][0] != "txt"@[0] &&
        video_extensions()[5][0] != "txt"@[0] &&
        video_extensions()[6][0] != "txt"@[0]
    );
    assert forall|i: int| 0 <= i < video_extensions().len() implies video_extensions()[i] != "txt"@ by {
        if i == 0 {} else if i == 1 {} else if i == 2 {} else if i == 3 {} else if i == 4 {} else if i == 5 {} else if i == 6 {}
    }
    assert(pdf_extensions()[0][0] != "txt"@[0]);
    assert forall|i: int| 0 <= i < pdf_extensions().len() implies pdf_extensions()[i] != "txt"@ by {
        if i == 0 {}
    }
    assert(text_extensions()[0] == "txt"@);
    assert(
        image_extensions()[0].len() != "md"@.len() &&
        image_extensions()[1].len() != "md"@.len() &&
        image_extensions()[2].len() != "md"@.len() &&
        image_extensions()[3].len() != "md"@.len() &&
        image_extensions()[4].len() != "md"@.len() &&
        image_extensions()[5].len() != "md"@.len() &&
        image_extensions()[6].len() != "md"@.len() &&
        image_extensions()[7].len() != "md"@.len() &&
        image_extensions()[8].len() != "md"@.len()
    );
    assert forall|i: int| 0 <= i < image_extensions().len() implies image_extensions()[i] != "md"@ by {
        if i == 0 {} else if i == 1 {} else if i == 2 {} else if i == 3 {} else if i == 4 {} else if i == 5 {} else if i == 6 {} else if i == 7 {} else if i == 8 {}
    }
    assert(
        video_extensions()[0].len() != "md"@.len() &&
        video_extensions()[1].len() != "md"@.len() &&
        video_extensions()[2].len() != "md"@.len() &&
        video_extensions()[3].len() != "md"@.len() &&
        video_extensions()[4].len() != "md"@.len() &&
        video_extensions()[5].len() != "md"@.len() &&
        video_extensions()[6].len() != "md"@.len()
    );
    assert forall|i: int| 0 <= i < video_extensions().len() implies video_extensions()[i] != "md"@ by {
        if i == 0 {} else if i == 1 {} else if i == 2 {} else if i == 3 {} else if i == 4 {} else if i == 5 {} else if i == 6 {}
    }
    assert(pdf_extensions()[0].len() != "md"@.len());
    assert forall|i: int| 0 <= i < pdf_extensions().len() implies pdf_extensions()[i] != "md"@ by {
        if i == 0 {}
    }
    assert(text_extensions()[1] == "md"@);
    assert(
        image_extensions()[0][0] != "csv"@[0] &&
        image_extensions()[1].len() != "csv"@.len() &&
        image_extensions()[2][0] != "csv"@[0] &&
        image_extensions()[3][0] != "csv"@[0] &&
        image_extensions()[4].len() != "csv"@.len() &&
        image_extensions()[5][0] != "csv"@[0] &&
        image_extensions()[6].len() != "csv"@.len() &&
        image_extensions()[7][0] != "csv"@[0] &&
        image_extensions()[8][0] != "csv"@[0]
    );
    assert forall|i: int| 0 <= i < image_extensions().len() implies image_extensions()[i] != "csv"@ by {
        if i == 0 {} else if i == 1 {} else if i == 2 {} else if i == 3 {} else if i == 4 {} else if i == 5 {} else if i == 6 {} else if i == 7 {} else if i == 8 {}
    }
    assert(
        video_extensions()[0][0] != "csv"@[0] &&
        video_extensions()[1][0] != "csv"@[0] &&
        video_extensions()[2].len() != "csv"@.len() &&
        video_extensions()[3][0] != "csv"@[0] &&
        video_extensions()[4][0] != "csv"@[0] &&
        video_extensions()[5][0] != "csv"@[0] &&
        video_extensions()[6][0] != "csv"@[0]
    );
    assert forall|i: int| 0 <= i < video_extensions().len() implies video_extensions()[i] != "csv"@ by {
        if i == 0 {} else if i == 1 {} else if i == 2 {} else if i == 3 {} else if i == 4 {} else if i == 5 {} else if i == 6 {}
    }
    assert(pdf_extensions()[0][0] != "csv"@[0]);
    assert forall|i: int| 0 <= i < pdf_extensions().len() implies pdf_extensions()[i] != "csv"@ by {
        if i == 0 {}
    }
    assert(text_extensions()[2] == "csv"@);
    assert(
        image_extensions()[0][0] != "log"@[0] &&
        image_extensions()[1].len() != "log"@.len() &&
        image_extensions()[2][0] != "log"@[0] &&
        image_extensions()[3][0] != "log"@[0] &&
        image_extensions()[4].len() != "log"@.len() &&
        image_extensions()[5][0] != "log"@[0] &&
        image_extensions()[6].len() != "log"@.len() &&
        image_extensions()[7][0] != "log"@[0] &&
        image_extensions()[8][0] != "log"@[0]
    );
    assert forall|i: int| 0 <= i < image_extensions().len() implies image_extensions()[i] != "log"@ by {
        if i == 0 {} else if i == 1 {} else if i == 2 {} else if i == 3 {} else if i == 4 {} else if i == 5 {} else if i == 6 {} else if i == 7 {} else if i == 8 {}
    }
    assert(
        video_extensions()[0][0] != "log"@[0] &&
        video_extensions()[1][0] != "log"@[0] &&
        video_extensions()[2].len() != "log"@.len() &&
        video_extensions()[3][0] != "log"@[0] &&
        video_extensions()[4][0] != "log"@[0] &&
        video_extensions()[5][0] != "log"@[0] &&
        video_extensions()[6][0] != "log"@[0]
    );
    assert forall|i: int| 0 <= i < video_extensions().len() implies video_extensions()[i] != "log"@ by {
        if i == 0 {} else if i == 1 {} else if i == 2 {} else if i == 3 {} else if i == 4 {} else if i == 5 {} else if i == 6 {}
    }
    assert(pdf_extensions()[0][0] != "log"@[0]);
    assert forall|i: int| 0 <= i < pdf_extensions().len() implies pdf_extensions()[i] != "log"@ by {
        if i == 0 {}
    }
    assert(text_extensions()[3] == "log"@);
    assert(
        image_extensions()[0].len() != "json"@.len() &&
        image_extensions()[1][1] != "json"@[1] &&
        image_extensions()[2].len() != "json"@.len() &&
        image_extensions()[3].len() != "json"@.len() &&
        image_extensions()[4][0] != "json"@[0] &&
        image_extensions()[5].len() != "json"@.len() &&
        image_extensions()[6][0] != "json"@[0] &&
        image_extensions()[7].len() != "json"@.len() &&
        image_extensions()[8].len() != "json"@.len()
    );
    assert forall|i: int| 0 <= i < image_extensions().len() implies image_extensions()[i] != "json"@ by {
        if i == 0 {} else if i == 1 {} else if i == 2 {} else if i == 3 {} else if i == 4 {} else if i == 5 {} else if i == 6 {} else if i == 7 {} else if i == 8 {}
    }
    assert(
        video_extensions()[0].len() != "json"@.len() &&
        video_extensions()[1].len() != "json"@.len() &&
        video_extensions()[2][0] != "json"@[0] &&
        video_extensions()[3].len() != "json"@.len() &&
        video_extensions()[4].len() != "json"@.len() &&
        video_extensions()[5].len() != "json"@.len() &&
        video_extensions()[6].len() != "json"@.len()
    );
    assert forall|i: int| 0 <= i < video_extensions().len() implies video_extensions()[i] != "json"@ by {
        if i == 0 {} else if i == 1 {} else if i == 2 {} else if i == 3 {} else if i == 4 {} else if i == 5 {} else if i == 6 {}
    }
    assert(pdf_extensions()[0].len() != "json"@.len());
    assert forall|i: int| 0 <= i < pdf_extensions().len() implies pdf_extensions()[i] != "json"@ by {
        if i == 0 {}
    }
    assert(text_extensions()[4] == "json"@);
    assert(
        image_extensions()[0][0] != "xml"@[0] &&
        image_extensions()[1].len() != "xml"@.len() &&
        image_extensions()[2][0] != "xml"@[0] &&
        image_extensions()[3][0] != "xml"@[0] &&
        image_extensions()[4].len() != "xml"@.len() &&
        image_extensions()[5][0] != "xml"@[0] &&
        image_extensions()[6].len() != "xml"@.len() &&
        image_extensions()[7][0] != "xml"@[0] &&
        image_extensions()[8][0] != "xml"@[0]
    );
    assert forall|i: int| 0 <= i < image_extensions().len() implies image_extensions()[i] != "xml"@ by {
        if i == 0 {} else if i == 1 {} else if i == 2 {} else if i == 3 {} else if i == 4 {} else if i == 5 {} else if i == 6 {} else if i == 7 {} else if i == 8 {}
    }
    assert(
        video_extensions()[0][0] != "xml"@[0] &&
        video_extensions()[1][0] != "xml"@[0] &&
        video_extensions()[2].len() != "xml"@.len() &&
        video_extensions()[3][0] != "xml"@[0] &&
        video_extensions()[4][0] != "xml"@[0] &&
        video_extensions()[5][0] != "xml"@[0] &&
        video_extensions()[6][0] != "xml"@[0]
    );
    assert forall|i: int| 0 <= i < video_extensions().len() implies video_extensions()[i] != "xml"@ by {
        if i == 0 {} else if i == 1 {} else if i == 2 {} else if i == 3 {} else if i == 4 {} else if i == 5 {} else if i == 6 {}
    }
    assert(pdf_extensions()[0][0] != "xml"@[0]);
    assert forall|i: int| 0 <= i < pdf_extensions().len() implies pdf_extensions()[i] != "xml"@ by {
        if i == 0 {}
    }
    assert(text_extensions()[5] == "xml"@);
    assert(
        image_extensions()[0].len() != "yaml"@.len() &&
        image_extensions()[1][0] != "yaml"@[0] &&
        image_extensions()[2].len() != "yaml"@.len() &&
        image_extensions()[3].len() != "yaml"@.len() &&
        image_extensions()[4][0] != "yaml"@[0] &&
        image_extensions()[5].len() != "yaml"@.len() &&
        image_extensions()[6][0] != "yaml"@[0] &&
        image_extensions()[7].len() != "yaml"@.len() &&
        image_extensions()[8].len() != "yaml"@.len()
    );
    assert forall|i: int| 0 <= i < image_extensions().len() implies image_extensions()[i] != "yaml"@ by {
        if i == 0 {} else if i == 1 {} else if i == 2 {} else if i == 3 {} else if i == 4 {} else if i == 5 {} else if i == 6 {} else if i == 7 {} else if i == 8 {}
    }
    assert(
        video_extensions()[0].len() != "yaml"@.len() &&
        video_extensions()[1].len() != "yaml"@.len() &&
        video_extensions()[2][0] != "yaml"@[0] &&
        video_extensions()[3].len() != "yaml"@.len() &&
        video_extensions()[4].len() != "yaml"@.len() &&
        video_extensions()[5].len() != "yaml"@.len() &&
        video_extensions()[6].len() != "yaml"@.len()
    );
    assert forall|i: int| 0 <= i < video_extensions().len() implies video_extensions()[i] != "yaml"@ by {
        if i == 0 {} else if i == 1 {} else if i == 2 {} else if i == 3 {} else if i == 4 {} else if i == 5 {} else if i == 6 {}
    }
    assert(pdf_extensions()[0].len() != "yaml"@.len());
    assert forall|i: int| 0 <= i < pdf_extensions().len() implies pdf_extensions()[i] != "yaml"@ by {
        if i == 0 {}
    }
    assert(text_extensions()[6] == "yaml"@);
    assert(
        image_extensions()[0][0] != "yml"@[0] &&
        image_extensions()[1].len() != "yml"@.len() &&
        image_extensions()[2][0] != "yml"@[0] &&
        image_extensions()[3][0] != "yml"@[0] &&
        image_extensions()[4].len() != "yml"@.len() &&
        image_extensions()[5][0] != "yml"@[0] &&
        image_extensions()[6].len() != "yml"@.len() &&
        image_extensions()[7][0] != "yml"@[0] &&
        image_extensions()[8][0] != "yml"@[0]
    );
    assert forall|i: int| 0 <= i < image_extensions().len() implies image_extensions()[i] != "yml"@ by {
        if i == 0 {} else if i == 1 {} else if i == 2 {} else if i == 3 {} else if i == 4 {} else if i == 5 {} else if i == 6 {} else if i == 7 {} else if i == 8 {}
    }
    assert(
        video_extensions()[0][0] != "yml"@[0] &&
        video_extensions()[1][0] != "yml"@[0] &&
        video_extensions()[2].len() != "yml"@.len() &&
        video_extensions()[3][0] != "yml"@[0] &&
        video_extensions()[4][0] != "yml"@[0] &&
        video_extensions()[5][0] != "yml"@[0] &&
        video_extensions()[6][0] != "yml"@[0]
    );
    assert forall|i: int| 0 <= i < video_extensions().len() implies video_extensions()[i] != "yml"@ by {
        if i == 0 {} else if i == 1 {} else if i == 2 {} else if i == 3 {} else if i == 4 {} else if i == 5 {} else if i == 6 {}
    }
    assert(pdf_extensions()[0][0] != "yml"@[0]);
    assert forall|i: int| 0 <= i < pdf_extensions().len() implies pdf_extensions()[i] != "yml"@ by {
        if i == 0 {}
    }
    assert(text_extensions()[7] == "yml"@);
    assert(
        image_extensions()[0].len() != "html"@.len() &&
        image_extensions()[1][0] != "html"@[0] &&
        image_extensions()[2].len() != "html"@.len() &&
        image_extensions()[3].len() != "html"@.len() &&
        image_extensions()[4][0] != "html"@[0] &&
        image_extensions()[5].len() != "html"@.len() &&
        image_extensions()[6][0] != "html"@[0] &&
        image_extensions()[7].len() != "html"@.len() &&
        image_extensions()[8].len() != "html"@.len()
    );
    assert forall|i: int| 0 <= i < image_extensions().len() implies image_extensions()[i] != "html"@ by {
        if i == 0 {} else if i == 1 {} else if i == 2 {} else if i == 3 {} else if i == 4 {} else if i == 5 {} else if i == 6 {} else if i == 7 {} else if i == 8 {}
    }
    assert(
        video_extensions()[0].len() != "html"@.len() &&
        video_extensions()[1].len() != "html"@.len() &&
        video_extensions()[2][0] != "html"@[0] &&
        video_extensions()[3].len() != "html"@.len() &&
        video_extensions()[4].len() != "html"@.len() &&
        video_extensions()[5].len() != "html"@.len() &&
        video_extensions()[6].len() != "html"@.len()
    );
    assert forall|i: int| 0 <= i < video_extensions().len() implies video_extensions()[i] != "html"@ by {
        if i == 0 {} else if i == 1 {} else if i == 2 {} else if i == 3 {} else if i == 4 {} else if i == 5 {} else if i == 6 {}
    }
    assert(pdf_extensions()[0].len() != "html"@.len());
    assert forall|i: int| 0 <= i < pdf_extensions().len() implies pdf_extensions()[i] != "html"@ by {
        if i == 0 {}
    }
    assert(text_extensions()[8] == "html"@);
    assert(
        image_extensions()[0][0] != "css"@[0] &&
        image_extensions()[1].len() != "css"@.len() &&
        image_extensions()[2][0] != "css"@[0] &&
        image_extensions()[3][0] != "css"@[0] &&
        image_extensions()[4].len() != "css"@.len() &&
        image_extensions()[5][0] != "css"@[0] &&
        image_extensions()[6].len() != "css"@.len() &&
        image_extensions()[7][0] != "css"@[0] &&
        image_extensions()[8][0] != "css"@[0]
    );
    assert forall|i: int| 0 <= i < image_extensions().len() implies image_extensions()[i] != "css"@ by {
        if i == 0 {} else if i == 1 {} else if i == 2 {} else if i == 3 {} else if i == 4 {} else if i == 5 {} else if i == 6 {} else if i == 7 {} else if i == 8 {}
    }
    assert(
        video_extensions()[0][0] != "css"@[0] &&
        video_extensions()[1][0] != "css"@[0] &&
        video_extensions()[2].len() != "css"@.len() &&
        video_extensions()[3][0] != "css"@[0] &&
        video_extensions()[4][0] != "css"@[0] &&
        video_extensions()[5][0] != "css"@[0] &&
        video_extensions()[6][0] != "css"@[0]
    );
    assert forall|i: int| 0 <= i < video_extensions().len() implies video_extensions()[i] != "css"@ by {
        if i == 0 {} else if i == 1 {} else if i == 2 {} else if i == 3 {} else if i == 4 {} else if i == 5 {} else if i == 6 {}
    }
    assert(pdf_extensions()[0][0] != "css"@[0]);
    assert forall|i: int| 0 <= i < pdf_extensions().len() implies pdf_extensions()[i] != "css"@ by {
        if i == 0 {}
    }
    assert(text_extensions()[9] == "css"@);
    assert(
        image_extensions()[0].len() != "js"@.len() &&
        image_extensions()[1].len() != "js"@.len() &&
        image_extensions()[2].len() != "js"@.len() &&
        image_extensions()[3].len() != "js"@.len() &&
        image_extensions()[4].len() != "js"@.len() &&
        image_extensions()[5].len() != "js"@.len() &&
        image_extensions()[6].len() != "js"@.len() &&
        image_extensions()[7].len() != "js"@.len() &&
        image_extensions()[8].len() != "js"@.len()
    );
    assert forall|i: int| 0 <= i < image_extensions().len() implies image_extensions()[i] != "js"@ by {
        if i == 0 {} else if i == 1 {} else if i == 2 {} else if i == 3 {} else if i == 4 {} else if i == 5 {} else if i == 6 {} else if i == 7 {} else if i == 8 {}
    }
    assert(
        video_extensions()[0].len() != "js"@.len() &&
        video_extensions()[1].len() != "js"@.len() &&
        video_extensions()[2].len() != "js"@.len() &&
        video_extensions()[3].len() != "js"@.len() &&
        video_extensions()[4].len() != "js"@.len() &&
        video_extensions()[5].len() != "js"@.len() &&
        video_extensions()[6].len() != "js"@.len()
    );
    assert forall|i: int| 0 <= i < video_extensions().len() implies video_extensions()[i] != "js"@ by {
        if i == 0 {} else if i == 1 {} else if i == 2 {} else if i == 3 {} else if i == 4 {} else if i == 5 {} else if i == 6 {}
    }
    assert(pdf_extensions()[0].len() != "js"@.len());
    assert forall|i: int| 0 <= i < pdf_extensions().len() implies pdf_extensions()[i] != "js"@ by {
        if i == 0 {}
    }
    assert(text_extensions()[10] == "js"@);
    assert(
        image_extensions()[0].len() != "py"@.len() &&
        image_extensions()[1].len() != "py"@.len() &&
        image_extensions()[2].len() != "py"@.len() &&
        image_extensions()[3].len() != "py"@.len() &&
        image_extensions()[4].len() != "py"@.len() &&
        image_extensions()[5].len() != "py"@.len() &&
        image_extensions()[6].len() != "py"@.len() &&
        image_extensions()[7].len() != "py"@.len() &&
        image_extensions()[8].len() != "py"@.len()
    );
    assert forall|i: int| 0 <= i < image_extensions().len() implies image_extensions()[i] != "py"@ by {
        if i == 0 {} else if i == 1 {} else if i == 2 {} else if i == 3 {} else if i == 4 {} else if i == 5 {} else if i == 6 {} else if i == 7 {} else if i == 8 {}
    }
    assert(
        video_extensions()[0].len() != "py"@.len() &&
        video_extensions()[1].len() != "py"@.len() &&
        video_extensions()[2].len() != "py"@.len() &&
        video_extensions()[3].len() != "py"@.len() &&
        video_extensions()[4].len() != "py"@.len() &&
        video_extensions()[5].len() != "py"@.len() &&
        video_extensions()[6].len() != "py"@.len()
    );
    assert forall|i: int| 0 <= i < video_extensions().len() implies video_extensions()[i] != "py"@ by {
        if i == 0 {} else if i == 1 {} else if i == 2 {} else if i == 3 {} else if i == 4 {} else if i == 5 {} else if i == 6 {}
    }
    assert(pdf_extensions()[0].len() != "py"@.len());
    assert forall|i: int| 0 <= i < pdf_extensions().len() implies pdf_extensions()[i] != "py"@ by {
        if i == 0 {}
    }
    assert(text_extensions()[11] == "py"@);
    assert(
        image_extensions()[0].len() != "sh"@.len() &&
        image_extensions()[1].len() != "sh"@.len() &&
        image_extensions()[2].len() != "sh"@.len() &&
        image_extensions()[3].len() != "sh"@.len() &&
        image_extensions()[4].len() != "sh"@.len() &&
        image_extensions()[5].len() != "sh"@.len() &&
        image_extensions()[6].len() != "sh"@.len() &&
        image_extensions()[7].len() != "sh"@.len() &&
        image_extensions()[8].len() != "sh"@.len()
    );
    assert forall|i: int| 0 <= i < image_extensions().len() implies image_extensions()[i] != "sh"@ by {
        if i == 0 {} else if i == 1 {} else if i == 2 {} else if i == 3 {} else if i == 4 {} else if i == 5 {} else if i == 6 {} else if i == 7 {} else if i == 8 {}
    }
    assert(
        video_extensions()[0].len() != "sh"@.len() &&
        video_extensions()[1].len() != "sh"@.len() &&
        video_extensions()[2].len() != "sh"@.len() &&
        video_extensions()[3].len() != "sh"@.len() &&
        video_extensions()[4].len() != "sh"@.len() &&
        video_extensions()[5].len() != "sh"@.len() &&
        video_extensions()[6].len() != "sh"@.len()
    );
    assert forall|i: int| 0 <= i < video_extensions().len() implies video_extensions()[i] != "sh"@ by {
        if i == 0 {} else if i == 1 {} else if i == 2 {} else if i == 3 {} else if i == 4 {} else if i == 5 {} else if i == 6 {}
    }
    assert(pdf_extensions()[0].len() != "sh"@.len());
    assert forall|i: int| 0 <= i < pdf_extensions().len() implies pdf_extensions()[i] != "sh"@ by {
        if i == 0 {}
    }
    assert(text_extensions()[12] == "sh"@);
    assert(
        image_extensions()[0].len() != "conf"@.len() &&
        image_extensions()[1][0] != "conf"@[0] &&
        image_extensions()[2].len() != "conf"@.len() &&
        image_extensions()[3].len() != "conf"@.len() &&
        image_extensions()[4][0] != "conf"@[0] &&
        image_extensions()[5].len() != "conf"@.len() &&
        image_extensions()[6][0] != "conf"@[0] &&
        image_extensions()[7].len() != "conf"@.len() &&
        image_extensions()[8].len() != "conf"@.len()
    );
    assert forall|i: int| 0 <= i < image_extensions().len() implies image_extensions()[i] != "conf"@ by {
        if i == 0 {} else if i == 1 {} else if i == 2 {} else if i == 3 {} else if i == 4 {} else if i == 5 {} else if i == 6 {} else if i == 7 {} else if i == 8 {}
    }
    assert(
        video_extensions()[0].len() != "conf"@.len() &&
        video_extensions()[1].len() != "conf"@.len() &&
        video_extensions()[2][0] != "conf"@[0] &&
        video_extensions()[3].len() != "conf"@.len() &&
        video_extensions()[4].len() != "conf"@.len() &&
        video_extensions()[5].len() != "conf"@.len() &&
        video_extensions()[6].len() != "conf"@.len()
    );
    assert forall|i: int| 0 <= i < video_extensions().len() implies video_extensions()[i] != "conf"@ by {
        if i == 0 {} else if i == 1 {} else if i == 2 {} else if i == 3 {} else if i == 4 {} else if i == 5 {} else if i == 6 {}
    }
    assert(pdf_extensions()[0].len() != "conf"@.len());
    assert forall|i: int| 0 <= i < pdf_extensions().len() implies pdf_extensions()[i] != "conf"@ by {
        if i == 0 {}
    }
    assert(text_extensions()[13] == "conf"@);
    assert(
        image_extensions()[0][0] != "ini"@[0] &&
        image_extensions()[1].len() != "ini"@.len() &&
        image_extensions()[2][0] != "ini"@[0] &&
        image_extensions()[3][0] != "ini"@[0] &&
        image_extensions()[4].len() != "ini"@.len() &&
        image_extensions()[5][0] != "ini"@[0] &&
        image_extensions()[6].len() != "ini"@.len() &&
        image_extensions()[7][0] != "ini"@[0] &&
        image_extensions()[8][1] != "ini"@[1]
    );
    assert forall|i: int| 0 <= i < image_extensions().len() implies image_extensions()[i] != "ini"@ by {
        if i == 0 {} else if i == 1 {} else if i == 2 {} else if i == 3 {} else if i == 4 {} else if i == 5 {} else if i == 6 {} else if i == 7 {} else if i == 8 {}
    }
    assert(
        video_extensions()[0][0] != "ini"@[0] &&
        video_extensions()[1][0] != "ini"@[0] &&
        video_extensions()[2].len() != "ini"@.len() &&
        video_extensions()[3][0] != "ini"@[0] &&
        video_extensions()[4][0] != "ini"@[0] &&
        video_extensions()[5][0] != "ini"@[0] &&
        video_extensions()[6][0] != "ini"@[0]
    );
    assert forall|i: int| 0 <= i < video_extensions().len() implies video_extensions()[i] != "ini"@ by {
        if i == 0 {} else if i == 1 {} else if i == 2 {} else if i == 3 {} else if i == 4 {} else if i == 5 {} else if i == 6 {}
    }
    assert(pdf_extensions()[0][0] != "ini"@[0]);
    assert forall|i: int| 0 <= i < pdf_extensions().len() implies pdf_extensions()[i] != "ini"@ by {
        if i == 0 {}
    }
    assert(text_extensions()[14] == "ini"@);
    assert(
        image_extensions()[0].len() != "toml"@.len() &&
        image_extensions()[1][0] != "toml"@[0] &&
        image_extensions()[2].len() != "toml"@.len() &&
        image_extensions()[3].len() != "toml"@.len() &&
        image_extensions()[4][0] != "toml"@[0] &&
        image_extensions()[5].len() != "toml"@.len() &&
        image_extensions()[6][1] != "toml"@[1] &&
        image_extensions()[7].len() != "toml"@.len() &&
        image_extensions()[8].len() != "toml"@.len()
    );
    assert forall|i: int| 0 <= i < image_extensions().len() implies image_extensions()[i] != "toml"@ by {
        if i == 0 {} else if i == 1 {} else if i == 2 {} else if i == 3 {} else if i == 4 {} else if i == 5 {} else if i == 6 {} else if i == 7 {} else if i == 8 {}
    }
    assert(
        video_extensions()[0].len() != "toml"@.len() &&
        video_extensions()[1].len() != "toml"@.len() &&
        video_extensions()[2][0] != "toml"@[0] &&
        video_extensions()[3].len() != "toml"@.len() &&
        video_extensions()[4].len() != "toml"@.len() &&
        video_extensions()[5].len() != "toml"@.len() &&
        video_extensions()[6].len() != "toml"@.len()
    );
    assert forall|i: int| 0 <= i < video_extensions().len() implies video_extensions()[i] != "toml"@ by {
        if i == 0 {} else if i == 1 {} else if i == 2 {} else if i == 3 {} else if i == 4 {} else if i == 5 {} else if i == 6 {}
    }
    assert(pdf_extensions()[0].len() != "toml"@.len());
    assert forall|i: int| 0 <= i < pdf_extensions().len() implies pdf_extensions()[i] != "toml"@ by {
        if i == 0 {}
    }
    assert(text_extensions()[15] == "toml"@);
    assert(
        image_extensions()[0].len() != "rs"@.len() &&
        image_extensions()[1].len() != "rs"@.len() &&
        image_extensions()[2].len() != "rs"@.len() &&
        image_extensions()[3].len() != "rs"@.len() &&
        image_extensions()[4].len() != "rs"@.len() &&
        image_extensions()[5].len() != "rs"@.len() &&
        image_extensions()[6].len() != "rs"@.len() &&
        image_extensions()[7].len() != "rs"@.len() &&
        image_extensions()[8].len() != "rs"@.len()
    );
    assert forall|i: int| 0 <= i < image_extensions().len() implies image_extensions()[i] != "rs"@ by {
        if i == 0 {} else if i == 1 {} else if i == 2 {} else if i == 3 {} else if i == 4 {} else if i == 5 {} else if i == 6 {} else if i == 7 {} else if i == 8 {}
    }
    assert(
        video_extensions()[0].len() != "rs"@.len() &&
        video_extensions()[1].len() != "rs"@.len() &&
        video_extensions()[2].len() != "rs"@.len() &&
        video_extensions()[3].len() != "rs"@.len() &&
        video_extensions()[4].len() != "rs"@.len() &&
        video_extensions()[5].len() != "rs"@.len() &&
        video_extensions()[6].len() != "rs"@.len()
    );
    assert forall|i: int| 0 <= i < video_extensions().len() implies video_extensions()[i] != "rs"@ by {
        if i == 0 {} else if i == 1 {} else if i == 2 {} else if i == 3 {} else if i == 4 {} else if i == 5 {} else if i == 6 {}
    }
    assert(pdf_extensions()[0].len() != "rs"@.len());
    assert forall|i: int| 0 <= i < pdf_extensions().len() implies pdf_extensions()[i] != "rs"@ by {
        if i == 0 {}
    }
    assert(text_extensions()[16] == "rs"@);
    assert(
        image_extensions()[0].len() != "go"@.len() &&
        image_extensions()[1].len() != "go"@.len() &&
        image_extensions()[2].len() != "go"@.len() &&
        image_extensions()[3].len() != "go"@.len() &&
        image_extensions()[4].len() != "go"@.len() &&
        image_extensions()[5].len() != "go"@.len() &&
        image_extensions()[6].len() != "go"@.len() &&
        image_extensions()[7].len() != "go"@.len() &&
        image_extensions()[8].len() != "go"@.len()
    );
    assert forall|i: int| 0 <= i < image_extensions().len() implies image_extensions()[i] != "go"@ by {
        if i == 0 {} else if i == 1 {} else if i == 2 {} else if i == 3 {} else if i == 4 {} else if i == 5 {} else if i == 6 {} else if i == 7 {} else if i == 8 {}
    }
    assert(
        video_extensions()[0].len() != "go"@.len() &&
        video_extensions()[1].len() != "go"@.len() &&
        video_extensions()[2].len() != "go"@.len() &&
        video_extensions()[3].len() != "go"@.len() &&
        video_extensions()[4].len() != "go"@.len() &&
        video_extensions()[5].len() != "go"@.len() &&
        video_extensions()[6].len() != "go"@.len()
    );
    assert forall|i: int| 0 <= i < video_extensions().len() implies video_extensions()[i] != "go"@ by {
        if i == 0 {} else if i == 1 {} else if i == 2 {} else if i == 3 {} else if i == 4 {} else if i == 5 {} else if i == 6 {}
    }
    assert(pdf_extensions()[0].len() != "go"@.len());
    assert forall|i: int| 0 <= i < pdf_extensions().len() implies pdf_extensions()[i] != "go"@ by {
        if i == 0 {}
    }
    assert(text_extensions()[17] == "go"@);
    assert(
        image_extensions()[0].len() != "java"@.len() &&
        image_extensions()[1][1] != "java"@[1] &&
        image_extensions()[2].len() != "java"@.len() &&
        image_extensions()[3].len() != "java"@.len() &&
        image_extensions()[4][0] != "java"@[0] &&
        image_extensions()[5].len() != "java"@.len() &&
        image_extensions()[6][0] != "java"@[0] &&
        image_extensions()[7].len() != "java"@.len() &&
        image_extensions()[8].len() != "java"@.len()
    );
    assert forall|i: int| 0 <= i < image_extensions().len() implies image_extensions()[i] != "java"@ by {
        if i == 0 {} else if i == 1 {} else if i == 2 {} else if i == 3 {} else if i == 4 {} else if i == 5 {} else if i == 6 {} else if i == 7 {} else if i == 8 {}
    }
    assert(
        video_extensions()[0].len() != "java"@.len() &&
        video_extensions()[1].len() != "java"@.len() &&
        video_extensions()[2][0] != "java"@[0] &&
        video_extensions()[3].len() != "java"@.len() &&
        video_extensions()[4].len() != "java"@.len() &&
        video_extensions()[5].len() != "java"@.len() &&
        video_extensions()[6].len() != "java"@.len()
    );
    assert forall|i: int| 0 <= i < video_extensions().len() implies video_extensions()[i] != "java"@ by {
        if i == 0 {} else if i == 1 {} else if i == 2 {} else if i == 3 {} else if i == 4 {} else if i == 5 {} else if i == 6 {}
    }
    assert(pdf_extensions()[0].len() != "java"@.len());
    assert forall|i: int| 0 <= i < pdf_extensions().len() implies pdf_extensions()[i] != "java"@ by {
        if i == 0 {}
    }
    assert(text_extensions()[18] == "java"@);
    assert(
        image_extensions()[0].len() != "c"@.len() &&
        image_extensions()[1].len() != "c"@.len() &&
        image_extensions()[2].len() != "c"@.len() &&
        image_extensions()[3].len() != "c"@.len() &&
        image_extensions()[4].len() != "c"@.len() &&
        image_extensions()[5].len() != "c"@.len() &&
        image_extensions()[6].len() != "c"@.len() &&
        image_extensions()[7].len() != "c"@.len() &&
        image_extensions()[8].len() != "c"@.len()
    );
    assert forall|i: int| 0 <= i < image_extensions().len() implies image_extensions()[i] != "c"@ by {
        if i == 0 {} else if i == 1 {} else if i == 2 {} else if i == 3 {} else if i == 4 {} else if i == 5 {} else if i == 6 {} else if i == 7 {} else if i == 8 {}
    }
    assert(
        video_extensions()[0].len() != "c"@.len() &&
        video_extensions()[1].len() != "c"@.len() &&
        video_extensions()[2].len() != "c"@.len() &&
        video_extensions()[3].len() != "c"@.len() &&
        video_extensions()[4].len() != "c"@.len() &&
        video_extensions()[5].len() != "c"@.len() &&
        video_extensions()[6].len() != "c"@.len()
    );
    assert forall|i: int| 0 <= i < video_extensions().len() implies video_extensions()[i] != "c"@ by {
        if i == 0 {} else if i == 1 {} else if i == 2 {} else if i == 3 {} else if i == 4 {} else if i == 5 {} else if i == 6 {}
    }
    assert(pdf_extensions()[0].len() != "c"@.len());
    assert forall|i: int| 0 <= i < pdf_extensions().len() implies pdf_extensions()[i] != "c"@ by {
        if i == 0 {}
    }
    assert(text_extensions()[19] == "c"@);
    assert(
        image_extensions()[0][0] != "cpp"@[0] &&
        image_extensions()[1].len() != "cpp"@.len() &&
        image_extensions()[2][0] != "cpp"@[0] &&
        image_extensions()[3][0] != "cpp"@[0] &&
        image_extensions()[4].len() != "cpp"@.len() &&
        image_extensions()[5][0] != "cpp"@[0] &&
        image_extensions()[6].len() != "cpp"@.len() &&
        image_extensions()[7][0] != "cpp"@[0] &&
        image_extensions()[8][0] != "cpp"@[0]
    );
    assert forall|i: int| 0 <= i < image_extensions().len() implies image_extensions()[i] != "cpp"@ by {
        if i == 0 {} else if i == 1 {} else if i == 2 {} else if i == 3 {} else if i == 4 {} else if i == 5 {} else if i == 6 {} else if i == 7 {} else if i == 8 {}
    }
    assert(
        video_extensions()[0][0] != "cpp"@[0] &&
        video_extensions()[1][0] != "cpp"@[0] &&
        video_extensions()[2].len() != "cpp"@.len() &&
        video_extensions()[3][0] != "cpp"@[0] &&
        video_extensions()[4][0] != "cpp"@[0] &&
        video_extensions()[5][0] != "cpp"@[0] &&
        video_extensions()[6][0] != "cpp"@[0]
    );
    assert forall|i: int| 0 <= i < video_extensions().len() implies video_extensions()[i] != "cpp"@ by {
        if i == 0 {} else if i == 1 {} else if i == 2 {} else if i == 3 {} else if i == 4 {} else if i == 5 {} else if i == 6 {}
    }
    assert(pdf_extensions()[0][0] != "cpp"@[0]);
    assert forall|i: int| 0 <= i < pdf_extensions().len() implies pdf_extensions()[i] != "cpp"@ by {
        if i == 0 {}
    }
    assert(text_extensions()[20] == "cpp"@);
    assert(
        image_extensions()[0].len() != "h"@.len() &&
        image_extensions()[1].len() != "h"@.len() &&
        image_extensions()[2].len() != "h"@.len() &&
        image_extensions()[3].len() != "h"@.len() &&
        image_extensions()[4].len() != "h"@.len() &&
        image_extensions()[5].len() != "h"@.len() &&
        image_extensions()[6].len() != "h"@.len() &&
        image_extensions()[7].len() != "h"@.len() &&
        image_extensions()[8].len() != "h"@.len()
    );
    assert forall|i: int| 0 <= i < image_extensions().len() implies image_extensions()[i] != "h"@ by {
        if i == 0 {} else if i == 1 {} else if i == 2 {} else if i == 3 {} else if i == 4 {} else if i == 5 {} else if i == 6 {} else if i == 7 {} else if i == 8 {}
    }
    assert(
        video_extensions()[0].len() != "h"@.len() &&
        video_extensions()[1].len() != "h"@.len() &&
        video_extensions()[2].len() != "h"@.len() &&
        video_extensions()[3].len() != "h"@.len() &&
        video_extensions()[4].len() != "h"@.len() &&
        video_extensions()[5].len() != "h"@.len() &&
        video_extensions()[6].len() != "h"@.len()
    );
    assert forall|i: int| 0 <= i < video_extensions().len() implies video_extensions()[i] != "h"@ by {
        if i == 0 {} else if i == 1 {} else if i == 2 {} else if i == 3 {} else if i == 4 {} else if i == 5 {} else if i == 6 {}
    }
    assert(pdf_extensions()[0].len() != "h"@.len());
    assert forall|i: int| 0 <= i < pdf_extensions().len() implies pdf_extensions()[i] != "h"@ by {
        if i == 0 {}
    }
    assert(text_extensions()[21] == "h"@);
    assert(
        image_extensions()[0][0] != "hpp"@[0] &&
        image_extensions()[1].len() != "hpp"@.len() &&
        image_extensions()[2][0] != "hpp"@[0] &&
        image_extensions()[3][0] != "hpp"@[0] &&
        image_extensions()[4].len() != "hpp"@.len() &&
        image_extensions()[5][0] != "hpp"@[0] &&
        image_extensions()[6].len() != "hpp"@.len() &&
        image_extensions()[7][0] != "hpp"@[0] &&
        image_extensions()[8][0] != "hpp"@[0]
    );
    assert forall|i: int| 0 <= i < image_extensions().len() implies image_extensions()[i] != "hpp"@ by {
        if i == 0 {} else if i == 1 {} else if i == 2 {} else if i == 3 {} else if i == 4 {} else if i == 5 {} else if i == 6 {} else if i == 7 {} else if i == 8 {}
    }
    assert(
        video_extensions()[0][0] != "hpp"@[0] &&
        video_extensions()[1][0] != "hpp"@[0] &&
        video_extensions()[2].len() != "hpp"@.len() &&
        video_extensions()[3][0] != "hpp"@[0] &&
        video_extensions()[4][0] != "hpp"@[0] &&
        video_extensions()[5][0] != "hpp"@[0] &&
        video_extensions()[6][0] != "hpp"@[0]
    );
    assert forall|i: int| 0 <= i < video_extensions().len() implies video_extensions()[i] != "hpp"@ by {
        if i == 0 {} else if i == 1 {} else if i == 2 {} else if i == 3 {} else if i == 4 {} else if i == 5 {} else if i == 6 {}
    }
    assert(pdf_extensions()[0][0] != "hpp"@[0]);
    assert forall|i: int| 0 <= i < pdf_extensions().len() implies pdf_extensions()[i] != "hpp"@ by {
        if i == 0 {}
    }
    assert(text_extensions()[22] == "hpp"@);
    assert(
        image_extensions()[0].len() != "rb"@.len() &&
        image_extensions()[1].len() != "rb"@.len() &&
        image_extensions()[2].len() != "rb"@.len() &&
        image_extensions()[3].len() != "rb"@.len() &&
        image_extensions()[4].len() != "rb"@.len() &&
        image_extensions()[5].len() != "rb"@.len() &&
        image_extensions()[6].len() != "rb"@.len() &&
        image_extensions()[7].len() != "rb"@.len() &&
        image_extensions()[8].len() != "rb"@.len()
    );
    assert forall|i: int| 0 <= i < image_extensions().len() implies image_extensions()[i] != "rb"@ by {
        if i == 0 {} else if i == 1 {} else if i == 2 {} else if i == 3 {} else if i == 4 {} else if i == 5 {} else if i == 6 {} else if i == 7 {} else if i == 8 {}
    }
    assert(
        video_extensions()[0].len() != "rb"@.len() &&
        video_extensions()[1].len() != "rb"@.len() &&
        video_extensions()[2].len() != "rb"@.len() &&
        video_extensions()[3].len() != "rb"@.len() &&
        video_extensions()[4].len() != "rb"@.len() &&
        video_extensions()[5].len() != "rb"@.len() &&
        video_extensions()[6].len() != "rb"@.len()
    );
    assert forall|i: int| 0 <= i < video_extensions().len() implies video_extensions()[i] != "rb"@ by {
        if i == 0 {} else if i == 1 {} else if i == 2 {} else if i == 3 {} else if i == 4 {} else if i == 5 {} else if i == 6 {}
    }
    assert(pdf_extensions()[0].len() != "rb"@.len());
    assert forall|i: int| 0 <= i < pdf_extensions().len() implies pdf_extensions()[i] != "rb"@ by {
        if i == 0 {}
    }
    assert(text_extensions()[23] == "rb"@);
    assert(
        image_extensions()[0][0] != "php"@[0] &&
        image_extensions()[1].len() != "php"@.len() &&
        image_extensions()[2][1] != "php"@[1] &&
        image_extensions()[3][0] != "php"@[0] &&
        image_extensions()[4].len() != "php"@.len() &&
        image_extensions()[5][0] != "php"@[0] &&
        image_extensions()[6].len() != "php"@.len() &&
        image_extensions()[7][0] != "php"@[0] &&
        image_extensions()[8][0] != "php"@[0]
    );
    assert forall|i: int| 0 <= i < image_extensions().len() implies image_extensions()[i] != "php"@ by {
        if i == 0 {} else if i == 1 {} else if i == 2 {} else if i == 3 {} else if i == 4 {} else if i == 5 {} else if i == 6 {} else if i == 7 {} else if i == 8 {}
    }
    assert(
        video_extensions()[0][0] != "php"@[0] &&
        video_extensions()[1][0] != "php"@[0] &&
        video_extensions()[2].len() != "php"@.len() &&
        video_extensions()[3][0] != "php"@[0] &&
        video_extensions()[4][0] != "php"@[0] &&
        video_extensions()[5][0] != "php"@[0] &&
        video_extensions()[6][0] != "php"@[0]
    );
    assert forall|i: int| 0 <= i < video_extensions().len() implies video_extensions()[i] != "php"@ by {
        if i == 0 {} else if i == 1 {} else if i == 2 {} else if i == 3 {} else if i == 4 {} else if i == 5 {} else if i == 6 {}
    }
    assert(pdf_extensions()[0][1] != "php"@[1]);
    assert forall|i: int| 0 <= i < pdf_extensions().len() implies pdf_extensions()[i] != "php"@ by {
        if i == 0 {}
    }
    assert(text_extensions()[24] == "php"@);
}

/// An empty extension (a file without one) announces nothing, so the
/// content decides; nor do capitals before lower-casing (`JPG` is not in
/// the table, its lower case `jpg` is), nor an unlisted extension (`zip`).
pub proof fn lemma_unknown_extensions()
    ensures
        extension_kind(Seq::<char>::empty()) is None,
        extension_kind("JPG"@) is None,
        extension_kind("zip"@) is None,
{
    reveal_strlit("jpg");
    reveal_strlit("jpeg");
    reveal_strlit("png");
    reveal_strlit("gif");
    reveal_strlit("webp");
    reveal_strlit("bmp");
    reveal_strlit("tiff");
    reveal_strlit("tif");
    reveal_strlit("ico");
    reveal_strlit("mp4");
    reveal_strlit("mkv");
    reveal_strlit("webm");
    reveal_strlit("avi");
    reveal_strlit("mov");
    reveal_strlit("flv");
    reveal_strlit("wmv");
    reveal_strlit("pdf");
    reveal_strlit("txt");
    reveal_strlit("md");
    reveal_strlit("csv");
    reveal_strlit("log");
    reveal_strlit("json");
    reveal_strlit("xml");
    reveal_strlit("yaml");
    reveal_strlit("yml");
    reveal_strlit("html");
    reveal_strlit("css");
    reveal_strlit("js");
    reveal_strlit("py");
    reveal_strlit("sh");
    reveal_strlit("conf");
    reveal_strlit("ini");
    reveal_strlit("toml");
    reveal_strlit("rs");
    reveal_strlit("go");
    reveal_strlit("java");
    reveal_strlit("c");
    reveal_strlit("cpp");
    reveal_strlit("h");
    reveal_strlit("hpp");
    reveal_strlit("rb");
    reveal_strlit("php");
    reveal_strlit("JPG");
    reveal_strlit("zip");
    assert(
        image_extensions()[0].len() != Seq::<char>::empty().len() &&
        image_extensions()[1].len() != Seq::<char>::empty().len() &&
        image_extensions()[2].len() != Seq::<char>::empty().len() &&
        image_extensions()[3].len() != Seq::<char>::empty().len() &&
        image_extensions()[4].len() != Seq::<char>::empty().len() &&
        image_extensions()[5].len() != Seq::<char>::empty().len() &&
        image_extensions()[6].len() != Seq::<char>::empty().len() &&
        image_extensions()[7].len() != Seq::<char>::empty().len() &&
        image_extensions()[8].len() != Seq::<char>::empty().len()
    );
    assert forall|i: int| 0 <= i < image_extensions().len() implies image_extensions()[i] != Seq::<char>::empty() by {
        if i == 0 {} else if i == 1 {} else if i == 2 {} else if i == 3 {} else if i == 4 {} else if i == 5 {} else if i == 6 {} else if i == 7 {} else if i == 8 {}
    }
    assert(
        video_extensions()[0].len() != Seq::<char>::empty().len() &&
        video_extensions()[1].len() != Seq::<char>::empty().len() &&
        video_extensions()[2].len() != Seq::<char>::empty().len() &&
        video_extensions()[3].len() != Seq::<char>::empty().len() &&
        video_extensions()[4].len() != Seq::<char>::empty().len() &&
        video_extensions()[5].len() != Seq::<char>::empty().len() &&
        video_extensions()[6].len() != Seq::<char>::empty().len()
    );
    assert forall|i: int| 0 <= i < video_extensions().len() implies video_extensions()[i] != Seq::<char>::empty() by {
        if i == 0 {} else if i == 1 {} else if i == 2 {} else if i == 3 {} else if i == 4 {} else if i == 5 {} else if i == 6 {}
    }
    assert(pdf_extensions()[0].len() != Seq::<char>::empty().len());
    assert forall|i: int| 0 <= i < pdf_extensions().len() implies pdf_extensions()[i] != Seq::<char>::empty() by {
        if i == 0 {}
    }
    assert(
        text_extensions()[0].len() != Seq::<char>::empty().len() &&
        text_extensions()[1].len() != Seq::<char>::empty().len() &&
        text_extensions()[2].len() != Seq::<char>::empty().len() &&
        text_extensions()[3].len() != Seq::<char>::empty().len() &&
        text_extensions()[4].len() != Seq::<char>::empty().len() &&
        text_extensions()[5].len() != Seq::<char>::empty().len() &&
        text_extensions()[6].len() != Seq::<char>::empty().len() &&
        text_extensions()[7].len() != Seq::<char>::empty().len() &&
        text_extensions()[8].len() != Seq::<char>::empty().len() &&
        text_extensions()[9].len() != Seq::<char>::empty().len() &&
        text_extensions()[10].len() != Seq::<char>::empty().len() &&
        text_extensions()[11].len() != Seq::<char>::empty().len() &&
        text_extensions()[12].len() != Seq::<char>::empty().len() &&
        text_extensions()[13].len() != Seq::<char>::empty().len() &&
        text_extensions()[14].len() != Seq::<char>::empty().len() &&
        text_extensions()[15].len() != Seq::<char>::empty().len() &&
        text_extensions()[16].len() != Seq::<char>::empty().len() &&
        text_extensions()[17].len() != Seq::<char>::empty().len() &&
        text_extensions()[18].len() != Seq::<char>::empty().len() &&
        text_extensions()[19].len() != Seq::<char>::empty().len() &&
        text_extensions()[20].len() != Seq::<char>::empty().len() &&
        text_extensions()[21].len() != Seq::<char>::empty().len() &&
        text_extensions()[22].len() != Seq::<char>::empty().len() &&
        text_extensions()[23].len() != Seq::<char>::empty().len() &&
        text_extensions()[24].len() != Seq::<char>::empty().len()
    );
    assert forall|i: int| 0 <= i < text_extensions().len() implies text_extensions()[i] != Seq::<char>::empty() by {
        if i == 0 {} else if i == 1 {} else if i == 2 {} else if i == 3 {} else if i == 4 {} else if i == 5 {} else if i == 6 {} else if i == 7 {} else if i == 8 {} else if i == 9 {} else if i == 10 {} else if i == 11 {} else if i == 12 {} else if i == 13 {} else if i == 14 {} else if i == 15 {} else if i == 16 {} else if i == 17 {} else if i == 18 {} else if i == 19 {} else if i == 20 {} else if i == 21 {} else if i == 22 {} else if i == 23 {} else if i == 24 {}
    }
    assert(
        image_extensions()[0][0] != "JPG"@[0] &&
        image_extensions()[1].len() != "JPG"@.len() &&
        image_extensions()[2][0] != "JPG"@[0] &&
        image_extensions()[3][0] != "JPG"@[0] &&
        image_extensions()[4].len() != "JPG"@.len() &&
        image_extensions()[5][0] != "JPG"@[0] &&
        image_extensions()[6].len() != "JPG"@.len() &&
        image_extensions()[7][0] != "JPG"@[0] &&
        image_extensions()[8][0] != "JPG"@[0]
    );
    assert forall|i: int| 0 <= i < image_extensions().len() implies image_extensions()[i] != "JPG"@ by {
        if i == 0 {} else if i == 1 {} else if i == 2 {} else if i == 3 {} else if i == 4 {} else if i == 5 {} else if i == 6 {} else if i == 7 {} else if i == 8 {}
    }
    assert(
        video_extensions()[0][0] != "JPG"@[0] &&
        video_extensions()[1][0] != "JPG"@[0] &&
        video_extensions()[2].len() != "JPG"@.len() &&
        video_extensions()[3][0] != "JPG"@[0] &&
        video_extensions()[4][0] != "JPG"@[0] &&
        video_extensions()[5][0] != "JPG"@[0] &&
        video_extensions()[6][0] != "JPG"@[0]
    );
    assert forall|i: int| 0 <= i < video_extensions().len() implies video_extensions()[i] != "JPG"@ by {
        if i == 0 {} else if i == 1 {} else if i == 2 {} else if i == 3 {} else if i == 4 {} else if i == 5 {} else if i == 6 {}
    }
    assert(pdf_extensions()[0][0] != "JPG"@[0]);
    assert forall|i: int| 0 <= i < pdf_extensions().len() implies pdf_extensions()[i] != "JPG"@ by {
        if i == 0 {}
    }
    assert(
        text_extensions()[0][0] != "JPG"@[0] &&
        text_extensions()[1].len() != "JPG"@.len() &&
        text_extensions()[2][0] != "JPG"@[0] &&
        text_extensions()[3][0] != "JPG"@[0] &&
        text_extensions()[4].len() != "JPG"@.len() &&
        text_extensions()[5][0] != "JPG"@[0] &&
        text_extensions()[6].len() != "JPG"@.len() &&
        text_extensions()[7][0] != "JPG"@[0] &&
        text_extensions()[8].len() != "JPG"@.len() &&
        text_extensions()[9][0] != "JPG"@[0] &&
        text_extensions()[10].len() != "JPG"@.len() &&
        text_extensions()[11].len() != "JPG"@.len() &&
        text_extensions()[12].len() != "JPG"@.len() &&
        text_extensions()[13].len() != "JPG"@.len() &&
        text_extensions()[14][0] != "JPG"@[0] &&
        text_extensions()[15].len() != "JPG"@.len() &&
        text_extensions()[16].len() != "JPG"@.len() &&
        text_extensions()[17].len() != "JPG"@.len() &&
        text_extensions()[18].len() != "JPG"@.len() &&
        text_extensions()[19].len() != "JPG"@.len() &&
        text_extensions()[20][0] != "JPG"@[0] &&
        text_extensions()[21].len() != "JPG"@.len() &&
        text_extensions()[22][0] != "JPG"@[0] &&
        text_extensions()[23].len() != "JPG"@.len() &&
        text_extensions()[24][0] != "JPG"@[0]
    );
    assert forall|i: int| 0 <= i < text_extensions().len() implies text_extensions()[i] != "JPG"@ by {
        if i == 0 {} else if i == 1 {} else if i == 2 {} else if i == 3 {} else if i == 4 {} else if i == 5 {} else if i == 6 {} else if i == 7 {} else if i == 8 {} else if i == 9 {} else if i == 10 {} else if i == 11 {} else if i == 12 {} else if i == 13 {} else if i == 14 {} else if i == 15 {} else if i == 16 {} else if i == 17 {} else if i == 18 {} else if i == 19 {} else if i == 20 {} else if i == 21 {} else if i == 22 {} else if i == 23 {} else if i == 24 {}
    }
    assert(
        image_extensions()[0][0] != "zip"@[0] &&
        image_extensions()[1].len() != "zip"@.len() &&
        image_extensions()[2][0] != "zip"@[0] &&
        image_extensions()[3][0] != "zip"@[0] &&
        image_extensions()[4].len() != "zip"@.len() &&
        image_extensions()[5][0] != "zip"@[0] &&
        image_extensions()[6].len() != "zip"@.len() &&
        image_extensions()[7][0] != "zip"@[0] &&
        image_extensions()[8][0] != "zip"@[0]
    );
    assert forall|i: int| 0 <= i < image_extensions().len() implies image_extensions()[i] != "zip"@ by {
        if i == 0 {} else if i == 1 {} else if i == 2 {} else if i == 3 {} else if i == 4 {} else if i == 5 {} else if i == 6 {} else if i == 7 {} else if i == 8 {}
    }
    assert(
        video_extensions()[0][0] != "zip"@[0] &&
        video_extensions()[1][0] != "zip"@[0] &&
        video_extensions()[2].len() != "zip"@.len() &&
        video_extensions()[3][0] != "zip"@[0] &&
        video_extensions()[4][0] != "zip"@[0] &&
        video_extensions()[5][0] != "zip"@[0] &&
        video_extensions()[6][0] != "zip"@[0]
    );
    assert forall|i: int| 0 <= i < video_extensions().len() implies video_extensions()[i] != "zip"@ by {
        if i == 0 {} else if i == 1 {} else if i == 2 {} else if i == 3 {} else if i == 4 {} else if i == 5 {} else if i == 6 {}
    }
    assert(pdf_extensions()[0][0] != "zip"@[0]);
    assert forall|i: int| 0 <= i < pdf_extensions().len() implies pdf_extensions()[i] != "zip"@ by {
        if i == 0 {}
    }
    assert(
        text_extensions()[0][0] != "zip"@[0] &&
        text_extensions()[1].len() != "zip"@.len() &&
        text_extensions()[2][0] != "zip"@[0] &&
        text_extensions()[3][0] != "zip"@[0] &&
        text_extensions()[4].len() != "zip"@.len() &&
        text_extensions()[5][0] != "zip"@[0] &&
        text_extensions()[6].len() != "zip"@.len() &&
        text_extensions()[7][0] != "zip"@[0] &&
        text_extensions()[8].len() != "zip"@.len() &&
        text_extensions()[9][0] != "zip"@[0] &&
        text_extensions()[10].len() != "zip"@.len() &&
        text_extensions()[11].len() != "zip"@.len() &&
        text_extensions()[12].len() != "zip"@.len() &&
        text_extensions()[13].len() != "zip"@.len() &&
        text_extensions()[14][0] != "zip"@[0] &&
        text_extensions()[15].len() != "zip"@.len() &&
        text_extensions()[16].len() != "zip"@.len() &&
        text_extensions()[17].len() != "zip"@.len() &&
        text_extensions()[18].len() != "zip"@.len() &&
        text_extensions()[19].len() != "zip"@.len() &&
        text_extensions()[20][0] != "zip"@[0] &&
        text_extensions()[21].len() != "zip"@.len() &&
        text_extensions()[22][0] != "zip"@[0] &&
        text_extensions()[23].len() != "zip"@.len() &&
        text_extensions()[24][0] != "zip"@[0]
    );
    assert forall|i: int| 0 <= i < text_extensions().len() implies text_extensions()[i] != "zip"@ by {
        if i == 0 {} else if i == 1 {} else if i == 2 {} else if i == 3 {} else if i == 4 {} else if i == 5 {} else if i == 6 {} else if i == 7 {} else if i == 8 {} else if i == 9 {} else if i == 10 {} else if i == 11 {} else if i == 12 {} else if i == 13 {} else if i == 14 {} else if i == 15 {} else if i == 16 {} else if i == 17 {} else if i == 18 {} else if i == 19 {} else if i == 20 {} else if i == 21 {} else if i == 22 {} else if i == 23 {} else if i == 24 {}
    }
}

/// The kind that a lower-case extension announces, if it is a known one.
pub fn kind_for_extension(e: &str) -> (r: Option<FileKind>)
    ensures
        r == extension_kind(e@),
{
    if is_image_extension(e) {
        Some(FileKind::Image)
    } else if is_video_extension(e) {
        Some(FileKind::Video)
    } else if is_pdf_extension(e) {
        Some(FileKind::Pdf)
    } else if is_text_extension(e) {
        Some(FileKind::Text)
    } else {
        None
    }
}

/// `s` begins with `prefix`.
pub open spec fn has_prefix(s: Seq<char>, prefix: Seq<char>) -> bool {
    prefix.len() <= s.len() && s.take(prefix.len() as int) == prefix
}

/// `true` when `s` begins with `prefix`.
pub fn starts_with(s: &str, prefix: &str) -> (r: bool)
    ensures
        r == has_prefix(s@, prefix@),
{
    let n = prefix.unicode_len();
    if s.unicode_len() < n {
        return false;
    }
    let mut i: usize = 0;
    while i < n
        invariant
            n == prefix@.len(),
            n <= s@.len(),
            i <= n,
            forall|j: int| 0 <= j < i ==> s@[j] == prefix@[j],
        decreases n - i,
    {
        if s.get_char(i) != prefix.get_char(i) {
            assert(s@.take(n as int)[i as int] != prefix@[i as int]);
            return false;
        }
        i = i + 1;
    }
    assert(s@.take(n as int) =~= prefix@);
    true
}

/// The kind that a detected MIME type announces.
pub open spec fn mime_kind(m: Option<Seq<char>>) -> FileKind {
    match m {
        None => FileKind::Other,
        Some(t) => if has_prefix(t, "image/"@) {
            FileKind::Image
        } else if has_prefix(t, "video/"@) {
            FileKind::Video
        } else if t == "application/pdf"@ {
            FileKind::Pdf
        } else if has_prefix(t, "text/"@) {
            FileKind::Text
        } else {
            FileKind::Other
        },
    }
}

/// The kind that a detected MIME type announces (`None`: nothing detected).
pub fn kind_for_mime(mime: Option<String>) -> (r: FileKind)
    ensures
        r == mime_kind(opt_view(mime)),
{
    match mime {
        None => FileKind::Other,
        Some(t) => {
            if starts_with(t.as_str(), "image/") {
                FileKind::Image
            } else if starts_with(t.as_str(), "video/") {
                FileKind::Video
            } else if str_equal(t.as_str(), "application/pdf") {
                FileKind::Pdf
            } else if starts_with(t.as_str(), "text/") {
                FileKind::Text
            } else {
                FileKind::Other
            }
        },
    }
}

/// `s` with every character mapped to lower case, as `str::to_lowercase`
/// computes it.
pub uninterp spec fn lowercase(s: Seq<char>) -> Seq<char>;

/// Calls `str::to_lowercase`. Unicode case mapping is only named here
/// ([`lowercase`]), not described.
#[verifier::external_body]
pub(crate) fn lower_case(s: &str) -> (r: String)
    ensures
        r@ == lowercase(s@),
{
    s.to_lowercase()
}

/// The MIME type that `infer` detects from the first bytes of a file.
pub uninterp spec fn inferred_mime(bytes: Seq<u8>) -> Option<Seq<char>>;

/// Calls `infer::get(bytes)` and returns the detected type's MIME string.
/// The result is named ([`inferred_mime`]): it depends on the bytes alone.
/// Of the matchers behind it the contract states only that none matches
/// an empty buffer (each first checks the buffer's length).
#[verifier::external_body]
fn infer_mime(bytes: &[u8]) -> (r: Option<String>)
    ensures
        opt_view(r) == inferred_mime(bytes@),
        bytes@.len() == 0 ==> r is None,
{
    infer::get(bytes).map(|t| t.mime_type().to_string())
}

/// The extension of a path (`Path::extension`), or empty when it has none.
pub open spec fn path_extension(path: Seq<char>) -> Seq<char> {
    match path_file_name(path) {
        Some(n) => match name_extension(n) {
            Some(e) => e,
            None => Seq::empty(),
        },
        None => Seq::empty(),
    }
}

/// The extension of `path`, or an empty string when it has none.
pub fn extension_of(path: &str) -> (r: String)
    ensures
        r@ == path_extension(path@),
{
    match file_name_of(path) {
        Some(n) => {
            let (_stem, ext) = split_file_name(n.as_str());
            match ext {
                Some(e) => e,
                None => String::new(),
            }
        },
        None => String::new(),
    }
}

/// The kind of the file at `path` whose first bytes are `header`: the
/// kind its lower-cased extension announces, else the kind of the MIME
/// type detected from `header`.
pub open spec fn detected_kind(path: Seq<char>, header: Seq<u8>) -> FileKind {
    match extension_kind(lowercase(path_extension(path))) {
        Some(k) => k,
        None => mime_kind(inferred_mime(header)),
    }
}

/// Classifies the file at `path`, given its first bytes `header` (up to
/// 8192 of them, as `infer::get_from_path` reads; empty when the file could
/// not be read): by extension first, then by the detected content type.
pub fn detect_kind(path: &str, header: &[u8]) -> (r: FileKind)
    ensures
        r == detected_kind(path@, header@),
        header@.len() == 0 ==> r == match extension_kind(lowercase(path_extension(path@))) {
            Some(k) => k,
            None => FileKind::Other,
        },
{
    let ext = extension_of(path);
    let lower = lower_case(ext.as_str());
    match kind_for_extension(lower.as_str()) {
        Some(k) => k,
        None => kind_for_mime(infer_mime(header)),
    }
}

} // verus!
