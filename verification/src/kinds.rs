//! What kind of file a name stands for, and what follows from it: labels, icon
//! keys, archive handling.

use crate::paths::{extension, extension_of, file_name, file_name_of, join_path, joined_path};
use crate::text::{
    chars_of, concat, ends_with, lowercase, opt_text, owned, piece, same, strip_prefix, texts,
    uppercase, without_prefix,
};
use vstd::prelude::*;

verus! {

/// Extensions of Excel workbooks.
pub open spec fn is_excel_ext(e: Seq<char>) -> bool {
    ||| e == "xlsx"@
    ||| e == "xls"@
    ||| e == "xlsm"@
    ||| e == "xlsb"@
}

fn excel_ext(e: &str) -> (r: bool)
    ensures
        r == is_excel_ext(e@),
{
    same(e, "xlsx") || same(e, "xls") || same(e, "xlsm") || same(e, "xlsb")
}

/// Extensions of Word documents.
pub open spec fn is_word_ext(e: Seq<char>) -> bool {
    ||| e == "docx"@
    ||| e == "doc"@
}

fn word_ext(e: &str) -> (r: bool)
    ensures
        r == is_word_ext(e@),
{
    same(e, "docx") || same(e, "doc")
}

/// Extensions of PowerPoint presentations.
pub open spec fn is_slides_ext(e: Seq<char>) -> bool {
    ||| e == "pptx"@
    ||| e == "ppt"@
}

fn slides_ext(e: &str) -> (r: bool)
    ensures
        r == is_slides_ext(e@),
{
    same(e, "pptx") || same(e, "ppt")
}

/// Extensions of PDF documents.
pub open spec fn is_pdf_ext(e: Seq<char>) -> bool {
    ||| e == "pdf"@
}

fn pdf_ext(e: &str) -> (r: bool)
    ensures
        r == is_pdf_ext(e@),
{
    same(e, "pdf")
}

/// Extensions of text documents.
pub open spec fn is_text_ext(e: Seq<char>) -> bool {
    ||| e == "txt"@
    ||| e == "md"@
    ||| e == "rtf"@
    ||| e == "log"@
}

fn text_ext(e: &str) -> (r: bool)
    ensures
        r == is_text_ext(e@),
{
    same(e, "txt") || same(e, "md") || same(e, "rtf") || same(e, "log")
}

/// Extensions of comma- and tab-separated tables.
pub open spec fn is_csv_ext(e: Seq<char>) -> bool {
    ||| e == "csv"@
    ||| e == "tsv"@
}

fn csv_ext(e: &str) -> (r: bool)
    ensures
        r == is_csv_ext(e@),
{
    same(e, "csv") || same(e, "tsv")
}

/// Extensions of DWG drawings.
pub open spec fn is_dwg_ext(e: Seq<char>) -> bool {
    ||| e == "dwg"@
}

fn dwg_ext(e: &str) -> (r: bool)
    ensures
        r == is_dwg_ext(e@),
{
    same(e, "dwg")
}

/// Extensions of DXF drawings.
pub open spec fn is_dxf_ext(e: Seq<char>) -> bool {
    ||| e == "dxf"@
}

fn dxf_ext(e: &str) -> (r: bool)
    ensures
        r == is_dxf_ext(e@),
{
    same(e, "dxf")
}

/// Extensions of JPEG images.
pub open spec fn is_jpeg_ext(e: Seq<char>) -> bool {
    ||| e == "jpg"@
    ||| e == "jpeg"@
}

fn jpeg_ext(e: &str) -> (r: bool)
    ensures
        r == is_jpeg_ext(e@),
{
    same(e, "jpg") || same(e, "jpeg")
}

/// Extensions of the other images named by their format.
pub open spec fn is_picture_ext(e: Seq<char>) -> bool {
    ||| e == "png"@
    ||| e == "gif"@
    ||| e == "bmp"@
    ||| e == "tiff"@
    ||| e == "heic"@
    ||| e == "webp"@
    ||| e == "svg"@
}

fn picture_ext(e: &str) -> (r: bool)
    ensures
        r == is_picture_ext(e@),
{
    same(e, "png") || same(e, "gif") || same(e, "bmp") || same(e, "tiff") || same(e, "heic")
        || same(e, "webp") || same(e, "svg")
}

/// Extensions of videos.
pub open spec fn is_video_ext(e: Seq<char>) -> bool {
    ||| e == "mp4"@
    ||| e == "mov"@
    ||| e == "avi"@
    ||| e == "mkv"@
    ||| e == "webm"@
    ||| e == "m4v"@
}

fn video_ext(e: &str) -> (r: bool)
    ensures
        r == is_video_ext(e@),
{
    same(e, "mp4") || same(e, "mov") || same(e, "avi") || same(e, "mkv") || same(e, "webm")
        || same(e, "m4v")
}

/// Extensions of sound files.
pub open spec fn is_audio_ext(e: Seq<char>) -> bool {
    ||| e == "mp3"@
    ||| e == "wav"@
    ||| e == "flac"@
    ||| e == "aac"@
    ||| e == "m4a"@
    ||| e == "ogg"@
}

fn audio_ext(e: &str) -> (r: bool)
    ensures
        r == is_audio_ext(e@),
{
    same(e, "mp3") || same(e, "wav") || same(e, "flac") || same(e, "aac") || same(e, "m4a")
        || same(e, "ogg")
}

/// Extensions of archives.
pub open spec fn is_archive_ext(e: Seq<char>) -> bool {
    ||| e == "zip"@
    ||| e == "tar"@
    ||| e == "gz"@
    ||| e == "7z"@
    ||| e == "rar"@
    ||| e == "bz2"@
    ||| e == "xz"@
    ||| e == "dmg"@
}

fn archive_ext(e: &str) -> (r: bool)
    ensures
        r == is_archive_ext(e@),
{
    same(e, "zip") || same(e, "tar") || same(e, "gz") || same(e, "7z") || same(e, "rar")
        || same(e, "bz2") || same(e, "xz") || same(e, "dmg")
}

/// Extensions of source code.
pub open spec fn is_source_ext(e: Seq<char>) -> bool {
    ||| e == "rs"@
    ||| e == "py"@
    ||| e == "js"@
    ||| e == "ts"@
    ||| e == "tsx"@
    ||| e == "jsx"@
    ||| e == "c"@
    ||| e == "cpp"@
    ||| e == "h"@
    ||| e == "hpp"@
    ||| e == "go"@
    ||| e == "java"@
    ||| e == "rb"@
    ||| e == "swift"@
    ||| e == "zig"@
    ||| e == "sh"@
    ||| e == "json"@
    ||| e == "toml"@
    ||| e == "yaml"@
    ||| e == "yml"@
    ||| e == "html"@
    ||| e == "css"@
}

fn source_ext(e: &str) -> (r: bool)
    ensures
        r == is_source_ext(e@),
{
    same(e, "rs") || same(e, "py") || same(e, "js") || same(e, "ts") || same(e, "tsx")
        || same(e, "jsx") || same(e, "c") || same(e, "cpp") || same(e, "h") || same(e, "hpp")
        || same(e, "go") || same(e, "java") || same(e, "rb") || same(e, "swift") || same(e, "zig")
        || same(e, "sh") || same(e, "json") || same(e, "toml") || same(e, "yaml") || same(e, "yml")
        || same(e, "html") || same(e, "css")
}

/// Extensions of applications.
pub open spec fn is_app_ext(e: Seq<char>) -> bool {
    ||| e == "app"@
}

fn app_ext(e: &str) -> (r: bool)
    ensures
        r == is_app_ext(e@),
{
    same(e, "app")
}

/// The label for a file by its lowercase extension.
pub open spec fn ext_label(e: Seq<char>) -> Seq<char> {
    if is_excel_ext(e) {
        "Microsoft Excel"@
    } else if is_word_ext(e) {
        "Microsoft Word"@
    } else if is_slides_ext(e) {
        "Microsoft PowerPoint"@
    } else if is_pdf_ext(e) {
        "PDF Document"@
    } else if is_text_ext(e) {
        "Text Document"@
    } else if is_csv_ext(e) {
        "CSV File"@
    } else if is_dwg_ext(e) {
        "DWG File"@
    } else if is_dxf_ext(e) {
        "DXF File"@
    } else if is_jpeg_ext(e) {
        "JPEG Image"@
    } else if is_picture_ext(e) {
        uppercase(e) + " Image"@
    } else if is_video_ext(e) {
        uppercase(e) + " Video"@
    } else if is_audio_ext(e) {
        uppercase(e) + " Audio"@
    } else if is_archive_ext(e) {
        uppercase(e) + " Archive"@
    } else if is_source_ext(e) {
        "Source Code"@
    } else if is_app_ext(e) {
        "Application"@
    } else {
        uppercase(e) + " File"@
    }
}

/// The label for an entry: "Directory", a label by extension, or "Document".
pub open spec fn label_for(name: Seq<char>, is_dir: bool) -> Seq<char> {
    if is_dir {
        "Directory"@
    } else {
        match extension_of(name) {
            Some(e) => ext_label(lowercase(e)),
            None => "Document"@,
        }
    }
}

fn upper_with(e: &str, tail: &str) -> (r: String)
    ensures
        r@ == uppercase(e@) + tail@,
{
    let u = e.to_uppercase();
    concat(u.as_str(), tail)
}

fn label_by_ext(e: &str) -> (r: String)
    ensures
        r@ == ext_label(e@),
{
    if excel_ext(e) {
        owned("Microsoft Excel")
    } else if word_ext(e) {
        owned("Microsoft Word")
    } else if slides_ext(e) {
        owned("Microsoft PowerPoint")
    } else if pdf_ext(e) {
        owned("PDF Document")
    } else if text_ext(e) {
        owned("Text Document")
    } else if csv_ext(e) {
        owned("CSV File")
    } else if dwg_ext(e) {
        owned("DWG File")
    } else if dxf_ext(e) {
        owned("DXF File")
    } else if jpeg_ext(e) {
        owned("JPEG Image")
    } else if picture_ext(e) {
        upper_with(e, " Image")
    } else if video_ext(e) {
        upper_with(e, " Video")
    } else if audio_ext(e) {
        upper_with(e, " Audio")
    } else if archive_ext(e) {
        upper_with(e, " Archive")
    } else if source_ext(e) {
        owned("Source Code")
    } else if app_ext(e) {
        owned("Application")
    } else {
        upper_with(e, " File")
    }
}

/// A human-readable kind label for an entry.
pub fn kind_label(name: &str, is_dir: bool) -> (r: String)
    ensures
        r@ == label_for(name@, is_dir),
{
    if is_dir {
        return owned("Directory");
    }
    match extension(name) {
        Some(e) => label_by_ext(e.to_lowercase().as_str()),
        None => owned("Document"),
    }
}

/// Extensions of the raster images that can be acted on.
pub open spec fn is_raster_ext(e: Seq<char>) -> bool {
    ||| e == "jpg"@
    ||| e == "jpeg"@
    ||| e == "png"@
    ||| e == "gif"@
    ||| e == "heic"@
    ||| e == "heif"@
    ||| e == "tiff"@
    ||| e == "tif"@
    ||| e == "bmp"@
    ||| e == "webp"@
}

fn raster_ext(e: &str) -> (r: bool)
    ensures
        r == is_raster_ext(e@),
{
    same(e, "jpg") || same(e, "jpeg") || same(e, "png") || same(e, "gif") || same(e, "heic")
        || same(e, "heif") || same(e, "tiff") || same(e, "tif") || same(e, "bmp") || same(e, "webp")
}

/// Whether a path looks like a raster image.
pub open spec fn names_image(path: Seq<char>) -> bool {
    extension_of(path) matches Some(e) && is_raster_ext(lowercase(e))
}

/// Whether a path looks like a PDF.
pub open spec fn names_pdf(path: Seq<char>) -> bool {
    extension_of(path) matches Some(e) && lowercase(e) == "pdf"@
}

/// Whether `path` looks like a raster image that can be acted on.
pub fn is_image(path: &str) -> (r: bool)
    ensures
        r == names_image(path@),
{
    match extension(path) {
        Some(e) => raster_ext(e.to_lowercase().as_str()),
        None => false,
    }
}

/// Whether `path` is a PDF.
pub fn is_pdf(path: &str) -> (r: bool)
    ensures
        r == names_pdf(path@),
{
    match extension(path) {
        Some(e) => same(e.to_lowercase().as_str(), "pdf"),
        None => false,
    }
}

// ----- archives ------------------------------------------------------------------------

/// The suffixes of archives that can be unpacked, longest first, so that
/// `a.tar.gz` is a tarball.
#[derive(Clone, Copy, PartialEq, Eq, Structural)]
pub enum ArchiveKind {
    TarGz,
    TarBz2,
    TarXz,
    Tgz,
    Tbz,
    Txz,
    Tar,
    Zip,
}

/// The suffix of each kind of archive.
pub open spec fn suffix_of(k: ArchiveKind) -> Seq<char> {
    match k {
        ArchiveKind::TarGz => ".tar.gz"@,
        ArchiveKind::TarBz2 => ".tar.bz2"@,
        ArchiveKind::TarXz => ".tar.xz"@,
        ArchiveKind::Tgz => ".tgz"@,
        ArchiveKind::Tbz => ".tbz"@,
        ArchiveKind::Txz => ".txz"@,
        ArchiveKind::Tar => ".tar"@,
        ArchiveKind::Zip => ".zip"@,
    }
}

impl ArchiveKind {
    /// The suffix of this kind of archive.
    pub fn suffix(self) -> (r: &'static str)
        ensures
            r@ == suffix_of(self),
    {
        match self {
            ArchiveKind::TarGz => ".tar.gz",
            ArchiveKind::TarBz2 => ".tar.bz2",
            ArchiveKind::TarXz => ".tar.xz",
            ArchiveKind::Tgz => ".tgz",
            ArchiveKind::Tbz => ".tbz",
            ArchiveKind::Txz => ".txz",
            ArchiveKind::Tar => ".tar",
            ArchiveKind::Zip => ".zip",
        }
    }
}

/// The kind of archive a path names: the first suffix that ends its file name,
/// case aside.
pub open spec fn archive_kind(path: Seq<char>) -> Option<ArchiveKind> {
    match file_name_of(path) {
        None => None,
        Some(name) => {
            let n = lowercase(name);
            if suffix_of(ArchiveKind::TarGz).is_suffix_of(n) {
                Some(ArchiveKind::TarGz)
            } else if suffix_of(ArchiveKind::TarBz2).is_suffix_of(n) {
                Some(ArchiveKind::TarBz2)
            } else if suffix_of(ArchiveKind::TarXz).is_suffix_of(n) {
                Some(ArchiveKind::TarXz)
            } else if suffix_of(ArchiveKind::Tgz).is_suffix_of(n) {
                Some(ArchiveKind::Tgz)
            } else if suffix_of(ArchiveKind::Tbz).is_suffix_of(n) {
                Some(ArchiveKind::Tbz)
            } else if suffix_of(ArchiveKind::Txz).is_suffix_of(n) {
                Some(ArchiveKind::Txz)
            } else if suffix_of(ArchiveKind::Tar).is_suffix_of(n) {
                Some(ArchiveKind::Tar)
            } else if suffix_of(ArchiveKind::Zip).is_suffix_of(n) {
                Some(ArchiveKind::Zip)
            } else {
                None
            }
        },
    }
}

/// The kind of archive `path` is, if it can be unpacked.
pub fn archive_suffix(path: &str) -> (r: Option<ArchiveKind>)
    ensures
        r == archive_kind(path@),
{
    let name = match file_name(path) {
        Some(n) => n,
        None => {
            return None;
        },
    };
    let low = name.to_lowercase();
    let n = low.as_str();
    if ends_with(n, ArchiveKind::TarGz.suffix()) {
        Some(ArchiveKind::TarGz)
    } else if ends_with(n, ArchiveKind::TarBz2.suffix()) {
        Some(ArchiveKind::TarBz2)
    } else if ends_with(n, ArchiveKind::TarXz.suffix()) {
        Some(ArchiveKind::TarXz)
    } else if ends_with(n, ArchiveKind::Tgz.suffix()) {
        Some(ArchiveKind::Tgz)
    } else if ends_with(n, ArchiveKind::Tbz.suffix()) {
        Some(ArchiveKind::Tbz)
    } else if ends_with(n, ArchiveKind::Txz.suffix()) {
        Some(ArchiveKind::Txz)
    } else if ends_with(n, ArchiveKind::Tar.suffix()) {
        Some(ArchiveKind::Tar)
    } else if ends_with(n, ArchiveKind::Zip.suffix()) {
        Some(ArchiveKind::Zip)
    } else {
        None
    }
}

/// A program and its arguments.
pub struct Invocation {
    pub program: String,
    pub args: Vec<String>,
}

/// A program and its arguments, as characters.
#[verifier::ext_equal]
pub struct InvocationView {
    pub program: Seq<char>,
    pub args: Seq<Seq<char>>,
}

impl View for Invocation {
    type V = InvocationView;

    open spec fn view(&self) -> InvocationView {
        InvocationView { program: self.program@, args: texts(self.args@) }
    }
}

/// An optional program call, as characters.
pub open spec fn opt_invocation(r: Option<Invocation>) -> Option<InvocationView> {
    match r {
        Some(i) => Some(i@),
        None => None,
    }
}

/// The program that unpacks an archive into `dest`.
pub open spec fn extraction(path: Seq<char>, dest: Seq<char>) -> Option<InvocationView> {
    match archive_kind(path) {
        None => None,
        Some(ArchiveKind::Zip) => Some(
            InvocationView { program: "ditto"@, args: seq!["-xk"@, path, dest] },
        ),
        Some(_) => Some(
            InvocationView { program: "tar"@, args: seq!["-xf"@, path, "-C"@, dest] },
        ),
    }
}

/// The program that unpacks `path` into `dest`, if it is an archive.
pub fn archive_extract_command(path: &str, dest: &str) -> (r: Option<Invocation>)
    ensures
        opt_invocation(r) == extraction(path@, dest@),
{
    let kind = match archive_suffix(path) {
        Some(k) => k,
        None => {
            return None;
        },
    };
    let mut args: Vec<String> = Vec::new();
    if kind == ArchiveKind::Zip {
        args.push(owned("-xk"));
        args.push(owned(path));
        args.push(owned(dest));
        proof {
            assert(texts(args@) == seq!["-xk"@, path@, dest@]);
        }
        Some(Invocation { program: owned("ditto"), args })
    } else {
        args.push(owned("-xf"));
        args.push(owned(path));
        args.push(owned("-C"));
        args.push(owned(dest));
        proof {
            assert(texts(args@) == seq!["-xf"@, path@, "-C"@, dest@]);
        }
        Some(Invocation { program: owned("tar"), args })
    }
}

/// The name of the folder an archive is unpacked to: its file name without the
/// archive suffix, so that `a.tar.gz` goes to `a`.
pub open spec fn extract_name(path: Seq<char>) -> Option<Seq<char>> {
    match (archive_kind(path), file_name_of(path)) {
        (Some(k), Some(n)) => Some(
            if n.len() >= suffix_of(k).len() {
                n.take(n.len() - suffix_of(k).len())
            } else {
                n
            },
        ),
        _ => None,
    }
}

/// The folder name that `path` is unpacked to, if it is an archive.
pub fn extract_folder(path: &str) -> (r: Option<String>)
    ensures
        opt_text(r) == extract_name(path@),
{
    let kind = match archive_suffix(path) {
        Some(k) => k,
        None => {
            return None;
        },
    };
    let name = match file_name(path) {
        Some(n) => n,
        None => {
            return None;
        },
    };
    let cs = chars_of(name.as_str());
    let sfx = chars_of(kind.suffix());
    if cs.len() < sfx.len() {
        return Some(name);
    }
    let r = piece(&cs, 0, cs.len() - sfx.len());
    proof {
        assert(r@ == name@.take(name@.len() - suffix_of(kind).len()));
    }
    Some(r)
}

// ----- icons ---------------------------------------------------------------------------

/// The key of the icon shared by all files of a type: the lowercase extension.
pub open spec fn icon_key_of(path: Seq<char>) -> Option<Seq<char>> {
    match extension_of(path) {
        Some(e) if lowercase(e).len() > 0 => Some(lowercase(e)),
        _ => None,
    }
}

/// The icon-cache key for `path`, if its type has one.
pub fn icon_key(path: &str) -> (r: Option<String>)
    ensures
        opt_text(r) == icon_key_of(path@),
{
    match extension(path) {
        Some(e) => {
            let k = e.to_lowercase();
            if k.as_str().is_empty() {
                None
            } else {
                Some(k)
            }
        },
        None => None,
    }
}

/// The cache key of a built-in location.
pub fn fav_key(slug: &str) -> (r: String)
    ensures
        r@ == "fav:"@ + slug@,
{
    concat("fav:", slug)
}

/// Where a built-in location is.
pub open spec fn fav_place(slug: Seq<char>, home: Seq<char>) -> Seq<char> {
    if slug == "computer"@ {
        "/"@
    } else if slug == "home"@ {
        home
    } else {
        joined_path(home, slug)
    }
}

/// The path a built-in location points at.
pub fn fav_path(slug: &str, home: &str) -> (r: String)
    ensures
        r@ == fav_place(slug@, home@),
{
    if same(slug, "computer") {
        owned("/")
    } else if same(slug, "home") {
        owned(home)
    } else {
        join_path(home, slug)
    }
}

/// The cache key of the shared folder icon.
pub const FOLDER_KEY: &'static str = "\u{0}folder";

/// The cache key of the shared file icon.
pub const FILE_KEY: &'static str = "\u{0}file";

/// The file name, without extension, that an icon pack holds for a key.
pub open spec fn pack_stem(key: Seq<char>) -> Seq<char> {
    if key == FOLDER_KEY@ {
        "folder"@
    } else if key == FILE_KEY@ {
        "file"@
    } else {
        match without_prefix(key, "fav:"@) {
            Some(rest) => rest,
            None => key,
        }
    }
}

/// The image files an icon pack may hold for a key, in the order they are tried.
pub open spec fn pack_files(pack: Seq<char>, key: Seq<char>) -> Seq<Seq<char>> {
    seq!["png"@, "jpg"@, "jpeg"@, "gif"@, "tiff"@, "bmp"@, "webp"@].map_values(
        |e: Seq<char>| joined_path(pack, pack_stem(key) + "."@ + e),
    )
}

fn pack_file(pack: &str, stem: &str, ext: &str) -> (r: String)
    ensures
        r@ == joined_path(pack@, stem@ + "."@ + ext@),
{
    let mut name = concat(stem, ".");
    name.append(ext);
    join_path(pack, name.as_str())
}

/// The paths to try for the icon of `key` in an icon pack; the first one that
/// exists overrides the system icon.
pub fn pack_icon_path(pack: &str, key: &str) -> (r: Vec<String>)
    ensures
        texts(r@) == pack_files(pack@, key@),
{
    let stem: String = if same(key, FOLDER_KEY) {
        owned("folder")
    } else if same(key, FILE_KEY) {
        owned("file")
    } else {
        match strip_prefix(key, "fav:") {
            Some(rest) => rest,
            None => owned(key),
        }
    };
    let mut out: Vec<String> = Vec::new();
    out.push(pack_file(pack, stem.as_str(), "png"));
    out.push(pack_file(pack, stem.as_str(), "jpg"));
    out.push(pack_file(pack, stem.as_str(), "jpeg"));
    out.push(pack_file(pack, stem.as_str(), "gif"));
    out.push(pack_file(pack, stem.as_str(), "tiff"));
    out.push(pack_file(pack, stem.as_str(), "bmp"));
    out.push(pack_file(pack, stem.as_str(), "webp"));
    proof {
        assert(texts(out@) =~= pack_files(pack@, key@));
    }
    out
}

} // verus!
