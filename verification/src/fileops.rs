//! Operations on files: the names of what they make, and the programs that carry
//! them out.

use crate::kinds::{Invocation, InvocationView, is_pdf, names_pdf, opt_invocation};
use crate::menus::ImageFormat;
use crate::paths::{
    extension, extension_of, file_name, file_name_of, file_stem, is_under, join_path, joined_path,
    parent, parent_of, same_path, same_place, stem_of, under,
};
use crate::prefs::Prefs;
use crate::text::{
    concat, decimal, decimal_of, halves, lines, lines_of, opt_text, owned, same, strip_prefix,
    texts, without_prefix,
};
use vstd::prelude::*;

verus! {

fn words(program: &str, args: Vec<String>) -> (r: Invocation)
    ensures
        r@ == (InvocationView { program: program@, args: texts(args@) }),
{
    Invocation { program: owned(program), args }
}

fn list1(a: &str) -> (r: Vec<String>)
    ensures
        texts(r@) == seq![a@],
{
    let mut v: Vec<String> = Vec::new();
    v.push(owned(a));
    proof {
        assert(texts(v@) =~= seq![a@]);
    }
    v
}

fn list2(a: &str, b: &str) -> (r: Vec<String>)
    ensures
        texts(r@) == seq![a@, b@],
{
    let mut v: Vec<String> = Vec::new();
    v.push(owned(a));
    v.push(owned(b));
    proof {
        assert(texts(v@) =~= seq![a@, b@]);
    }
    v
}

fn list3(a: &str, b: &str, c: &str) -> (r: Vec<String>)
    ensures
        texts(r@) == seq![a@, b@, c@],
{
    let mut v: Vec<String> = Vec::new();
    v.push(owned(a));
    v.push(owned(b));
    v.push(owned(c));
    proof {
        assert(texts(v@) =~= seq![a@, b@, c@]);
    }
    v
}

fn list4(a: &str, b: &str, c: &str, d: &str) -> (r: Vec<String>)
    ensures
        texts(r@) == seq![a@, b@, c@, d@],
{
    let mut v: Vec<String> = Vec::new();
    v.push(owned(a));
    v.push(owned(b));
    v.push(owned(c));
    v.push(owned(d));
    proof {
        assert(texts(v@) =~= seq![a@, b@, c@, d@]);
    }
    v
}

fn list5(a: &str, b: &str, c: &str, d: &str, e: &str) -> (r: Vec<String>)
    ensures
        texts(r@) == seq![a@, b@, c@, d@, e@],
{
    let mut v: Vec<String> = Vec::new();
    v.push(owned(a));
    v.push(owned(b));
    v.push(owned(c));
    v.push(owned(d));
    v.push(owned(e));
    proof {
        assert(texts(v@) =~= seq![a@, b@, c@, d@, e@]);
    }
    v
}

fn list6(a: &str, b: &str, c: &str, d: &str, e: &str, f: &str) -> (r: Vec<String>)
    ensures
        texts(r@) == seq![a@, b@, c@, d@, e@, f@],
{
    let mut v: Vec<String> = Vec::new();
    v.push(owned(a));
    v.push(owned(b));
    v.push(owned(c));
    v.push(owned(d));
    v.push(owned(e));
    v.push(owned(f));
    proof {
        assert(texts(v@) =~= seq![a@, b@, c@, d@, e@, f@]);
    }
    v
}

// ----- opening -------------------------------------------------------------------------

/// The call that opens a path with its application.
pub open spec fn opening(path: Seq<char>) -> InvocationView {
    InvocationView { program: "open"@, args: seq![path] }
}

/// The call that opens a path with its application.
pub fn open_command(path: &str) -> (r: Invocation)
    ensures
        r@ == opening(path@),
{
    words("open", list1(path))
}

/// The call that opens a path with a given application.
pub open spec fn opening_with(app: Seq<char>, path: Seq<char>) -> InvocationView {
    InvocationView { program: "open"@, args: seq!["-a"@, app, path] }
}

/// The call that opens a path with a given application.
pub fn open_with(app: &str, path: &str) -> (r: Invocation)
    ensures
        r@ == opening_with(app@, path@),
{
    words("open", list3("-a", app, path))
}

/// The call that shows a path in the system's file manager.
pub open spec fn revealing(path: Seq<char>) -> InvocationView {
    InvocationView { program: "open"@, args: seq!["-R"@, path] }
}

/// The call that shows a path in the system's file manager.
pub fn reveal_command(path: &str) -> (r: Invocation)
    ensures
        r@ == revealing(path@),
{
    words("open", list2("-R", path))
}

/// The call that runs a command in a shell.
pub open spec fn in_shell(command: Seq<char>) -> InvocationView {
    InvocationView { program: "sh"@, args: seq!["-lc"@, command] }
}

/// The call that runs a command in a shell.
pub fn shell_command(command: &str) -> (r: Invocation)
    ensures
        r@ == in_shell(command@),
{
    words("sh", list2("-lc", command))
}

/// The call that asks the system for files by name.
pub open spec fn spotlight(query: Seq<char>) -> InvocationView {
    InvocationView { program: "mdfind"@, args: seq!["-name"@, query] }
}

/// The call that asks the system for files by name.
pub fn spotlight_command(query: &str) -> (r: Invocation)
    ensures
        r@ == spotlight(query@),
{
    words("mdfind", list2("-name", query))
}

/// The call that renders a preview of a path into a folder.
pub open spec fn previewing(dir: Seq<char>, path: Seq<char>) -> InvocationView {
    InvocationView { program: "qlmanage"@, args: seq!["-t"@, "-s"@, "600"@, "-o"@, dir, path] }
}

/// The call that renders a preview of a path into a folder.
pub fn preview_command(dir: &str, path: &str) -> (r: Invocation)
    ensures
        r@ == previewing(dir@, path@),
{
    words("qlmanage", list6("-t", "-s", "600", "-o", dir, path))
}

/// The call that tells who signed a path.
pub open spec fn signature(path: Seq<char>) -> InvocationView {
    InvocationView { program: "codesign"@, args: seq!["-dv"@, "--verbose=2"@, path] }
}

/// The call that tells who signed a path.
pub fn signature_command(path: &str) -> (r: Invocation)
    ensures
        r@ == signature(path@),
{
    words("codesign", list3("-dv", "--verbose=2", path))
}

// ----- copies and archives -------------------------------------------------------------

/// The call that copies a file or a folder.
pub open spec fn copying(path: Seq<char>, dest: Seq<char>) -> InvocationView {
    InvocationView { program: "cp"@, args: seq!["-R"@, path, dest] }
}

/// The call that copies a file or a folder.
pub fn copy_command(path: &str, dest: &str) -> (r: Invocation)
    ensures
        r@ == copying(path@, dest@),
{
    words("cp", list3("-R", path, dest))
}

/// The call that compresses a file or a folder.
pub open spec fn compressing(path: Seq<char>, dest: Seq<char>) -> InvocationView {
    InvocationView {
        program: "ditto"@,
        args: seq!["-c"@, "-k"@, "--sequesterRsrc"@, "--keepParent"@, path, dest],
    }
}

/// The call that compresses a file or a folder.
pub fn compress_command(path: &str, dest: &str) -> (r: Invocation)
    ensures
        r@ == compressing(path@, dest@),
{
    words("ditto", list6("-c", "-k", "--sequesterRsrc", "--keepParent", path, dest))
}

/// The call that moves a file or a folder.
pub open spec fn moving(src: Seq<char>, dest: Seq<char>) -> InvocationView {
    InvocationView { program: "mv"@, args: seq![src, dest] }
}

/// The call that moves a file or a folder.
pub fn move_command(src: &str, dest: &str) -> (r: Invocation)
    ensures
        r@ == moving(src@, dest@),
{
    words("mv", list2(src, dest))
}

/// The call that cuts a picture out of its background.
pub open spec fn cutting_out(tool: Seq<char>, path: Seq<char>, dest: Seq<char>) -> InvocationView {
    InvocationView { program: tool, args: seq![path, dest] }
}

/// The call that cuts a picture out of its background.
pub fn remove_background(tool: &str, path: &str, dest: &str) -> (r: Invocation)
    ensures
        r@ == cutting_out(tool@, path@, dest@),
{
    words(tool, list2(path, dest))
}

// ----- updates -------------------------------------------------------------------------

/// The call that mounts a disk image.
pub open spec fn attaching(image: Seq<char>) -> InvocationView {
    InvocationView {
        program: "hdiutil"@,
        args: seq!["attach"@, "-nobrowse"@, "-readonly"@, "-noverify"@, image],
    }
}

/// The call that mounts a disk image.
pub fn attach_command(image: &str) -> (r: Invocation)
    ensures
        r@ == attaching(image@),
{
    words("hdiutil", list5("attach", "-nobrowse", "-readonly", "-noverify", image))
}

/// The call that unmounts a volume.
pub open spec fn detaching(mount: Seq<char>) -> InvocationView {
    InvocationView { program: "hdiutil"@, args: seq!["detach"@, "-quiet"@, mount] }
}

/// The call that unmounts a volume.
pub fn detach_command(mount: &str) -> (r: Invocation)
    ensures
        r@ == detaching(mount@),
{
    words("hdiutil", list3("detach", "-quiet", mount))
}

/// The call that checks the signature of an application.
pub open spec fn checking_signature(app: Seq<char>) -> InvocationView {
    InvocationView { program: "codesign"@, args: seq!["--verify"@, "--deep"@, "--strict"@, app] }
}

/// The call that checks the signature of an application.
pub fn check_signature_command(app: &str) -> (r: Invocation)
    ensures
        r@ == checking_signature(app@),
{
    words("codesign", list4("--verify", "--deep", "--strict", app))
}

/// The call that checks whether an application was notarized.
pub open spec fn checking_notarized(app: Seq<char>) -> InvocationView {
    InvocationView { program: "spctl"@, args: seq!["-a"@, "-t"@, "exec"@, "-vv"@, app] }
}

/// The call that checks whether an application was notarized.
pub fn check_notarized_command(app: &str) -> (r: Invocation)
    ensures
        r@ == checking_notarized(app@),
{
    words("spctl", list5("-a", "-t", "exec", "-vv", app))
}

/// The call that tells who signed an application, in full.
pub open spec fn signer(app: Seq<char>) -> InvocationView {
    InvocationView { program: "codesign"@, args: seq!["-dv"@, "--verbose=4"@, app] }
}

/// The call that tells who signed an application, in full.
pub fn signer_command(app: &str) -> (r: Invocation)
    ensures
        r@ == signer(app@),
{
    words("codesign", list3("-dv", "--verbose=4", app))
}

/// The call that asks for the newest release.
pub open spec fn asking_release(url: Seq<char>) -> InvocationView {
    InvocationView {
        program: "curl"@,
        args: seq!["-sL"@, "--max-time"@, "8"@, "-H"@, "Accept: application/vnd.github+json"@, url],
    }
}

/// The call that asks for the newest release.
pub fn release_command(url: &str) -> (r: Invocation)
    ensures
        r@ == asking_release(url@),
{
    words(
        "curl",
        list6("-sL", "--max-time", "8", "-H", "Accept: application/vnd.github+json", url),
    )
}

/// The call that downloads a file.
pub open spec fn downloading(dest: Seq<char>, url: Seq<char>) -> InvocationView {
    InvocationView {
        program: "curl"@,
        args: seq!["-sL"@, "--fail"@, "--max-time"@, "180"@, "-o"@, dest, url],
    }
}

/// The call that downloads a file.
pub fn download_command(dest: &str, url: &str) -> (r: Invocation)
    ensures
        r@ == downloading(dest@, url@),
{
    let mut args = list6("-sL", "--fail", "--max-time", "180", "-o", dest);
    let ghost before = texts(args@);
    args.push(owned(url));
    proof {
        assert(texts(args@) =~= before.push(url@));
        assert(texts(args@) =~= downloading(dest@, url@).args);
    }
    words("curl", args)
}

// ----- names of what is made -----------------------------------------------------------

/// The name without its extension, empty if there is none.
pub open spec fn stem_text(path: Seq<char>) -> Seq<char> {
    match stem_of(path) {
        Some(s) => s,
        None => Seq::empty(),
    }
}

fn stem(path: &str) -> (r: String)
    ensures
        r@ == stem_text(path@),
{
    match file_stem(path) {
        Some(s) => s,
        None => {
            proof {
                reveal_strlit("");
                assert(""@ =~= Seq::<char>::empty());
            }
            owned("")
        },
    }
}

/// The name of a copy: `name copy` before the extension.
pub open spec fn copy_name_of(path: Seq<char>) -> Seq<char> {
    let base = stem_text(path) + " copy"@;
    match extension_of(path) {
        Some(e) => base + "."@ + e,
        None => base,
    }
}

/// The name of a copy.
pub fn copy_name(path: &str) -> (r: String)
    ensures
        r@ == copy_name_of(path@),
{
    let base = concat(stem(path).as_str(), " copy");
    match extension(path) {
        Some(e) => concat(concat(base.as_str(), ".").as_str(), e.as_str()),
        None => base,
    }
}

/// The name of what a file becomes, with its extension replaced.
pub open spec fn name_with(path: Seq<char>, tail: Seq<char>) -> Seq<char> {
    stem_text(path) + tail
}

/// The name of the archive that a file or folder is compressed into.
pub fn zip_name(path: &str) -> (r: String)
    ensures
        r@ == name_with(path@, ".zip"@),
{
    concat(stem(path).as_str(), ".zip")
}

/// The name of a picture that was cut out of its background.
pub fn cut_out_name(path: &str) -> (r: String)
    ensures
        r@ == name_with(path@, " (no background).png"@),
{
    concat(stem(path).as_str(), " (no background).png")
}

/// The folder that a new neighbour of `path` goes to, and the first name to try.
pub open spec fn beside(path: Seq<char>, name: Seq<char>) -> Option<(Seq<char>, Seq<char>)> {
    match parent_of(path) {
        Some(p) => Some((p, name)),
        None => None,
    }
}

/// Where the copy of a path goes: its folder, and the first name to try.
pub fn duplicate_entry(path: &str) -> (r: Option<(String, String)>)
    ensures
        halves(r) == beside(path@, copy_name_of(path@)),
{
    match parent(path) {
        Some(p) => Some((p, copy_name(path))),
        None => None,
    }
}

/// Where the archive of a path goes: its folder, and the first name to try.
pub fn compress_entry(path: &str) -> (r: Option<(String, String)>)
    ensures
        halves(r) == beside(path@, name_with(path@, ".zip"@)),
{
    match parent(path) {
        Some(p) => Some((p, zip_name(path))),
        None => None,
    }
}

/// The name that a new folder or file gets, as long as it is free.
pub fn new_name(folder: bool) -> (r: &'static str)
    ensures
        r@ == (if folder {
            "untitled folder"@
        } else {
            "untitled file"@
        }),
{
    if folder {
        "untitled folder"
    } else {
        "untitled file"
    }
}

// ----- pictures ------------------------------------------------------------------------

/// The name that the converter has for a format.
pub open spec fn format_name(f: ImageFormat) -> Seq<char> {
    match f {
        ImageFormat::Pdf => "pdf"@,
        ImageFormat::Jpeg => "jpeg"@,
        ImageFormat::Png => "png"@,
        ImageFormat::Heic => "heic"@,
    }
}

/// The ending of files of a format.
pub open spec fn format_tail(f: ImageFormat) -> Seq<char> {
    match f {
        ImageFormat::Pdf => ".pdf"@,
        ImageFormat::Jpeg => ".jpg"@,
        ImageFormat::Png => ".png"@,
        ImageFormat::Heic => ".heic"@,
    }
}

/// Where a converted picture goes: its folder, and the first name to try.
pub fn convert_image(path: &str, f: ImageFormat) -> (r: Option<(String, String)>)
    ensures
        halves(r) == beside(path@, name_with(path@, format_tail(f))),
{
    let tail: &str = match f {
        ImageFormat::Pdf => ".pdf",
        ImageFormat::Jpeg => ".jpg",
        ImageFormat::Png => ".png",
        ImageFormat::Heic => ".heic",
    };
    match parent(path) {
        Some(p) => Some((p, concat(stem(path).as_str(), tail))),
        None => None,
    }
}

/// The call that converts a picture.
pub open spec fn converting(path: Seq<char>, f: ImageFormat, dest: Seq<char>) -> InvocationView {
    InvocationView {
        program: "sips"@,
        args: seq!["-s"@, "format"@, format_name(f), path, "--out"@, dest],
    }
}

/// The call that converts a picture.
pub fn convert_command(path: &str, f: ImageFormat, dest: &str) -> (r: Invocation)
    ensures
        r@ == converting(path@, f, dest@),
{
    let name: &str = match f {
        ImageFormat::Pdf => "pdf",
        ImageFormat::Jpeg => "jpeg",
        ImageFormat::Png => "png",
        ImageFormat::Heic => "heic",
    };
    words("sips", list6("-s", "format", name, path, "--out", dest))
}

/// The call that turns a picture by a quarter.
pub open spec fn rotating(path: Seq<char>, left: bool) -> InvocationView {
    InvocationView {
        program: "sips"@,
        args: seq![
            "-r"@,
            if left {
                "-90"@
            } else {
                "90"@
            },
            path,
        ],
    }
}

/// The call that turns a picture by a quarter.
pub fn rotate_image(path: &str, left: bool) -> (r: Invocation)
    ensures
        r@ == rotating(path@, left),
{
    if left {
        words("sips", list3("-r", "-90", path))
    } else {
        words("sips", list3("-r", "90", path))
    }
}

// ----- scripts -------------------------------------------------------------------------

/// The call that runs a script of the system.
pub open spec fn scripted(script: Seq<char>) -> InvocationView {
    InvocationView { program: "osascript"@, args: seq!["-e"@, script] }
}

/// The script that makes an alias of `path` in `dir`.
pub open spec fn alias_script(path: Seq<char>, dir: Seq<char>) -> Seq<char> {
    "tell application \"Finder\" to make alias file to (POSIX file \""@ + path
        + "\") at (POSIX file \""@ + dir + "\")"@
}

/// The call that makes an alias of a path beside it.
pub open spec fn alias_beside(path: Seq<char>) -> Option<InvocationView> {
    match parent_of(path) {
        Some(p) => Some(scripted(alias_script(path, p))),
        None => None,
    }
}

/// The call that makes an alias of a path beside it.
pub fn make_alias(path: &str) -> (r: Option<Invocation>)
    ensures
        opt_invocation(r) == alias_beside(path@),
{
    match parent(path) {
        Some(p) => {
            let a = concat(
                "tell application \"Finder\" to make alias file to (POSIX file \"",
                path,
            );
            let b = concat(a.as_str(), "\") at (POSIX file \"");
            let c = concat(b.as_str(), p.as_str());
            let d = concat(c.as_str(), "\")");
            Some(words("osascript", list2("-e", d.as_str())))
        },
        None => None,
    }
}

/// The script that gives `path` a label.
pub open spec fn tag_script(path: Seq<char>, label: nat) -> Seq<char> {
    "tell application \"Finder\" to set label index of (POSIX file \""@ + path
        + "\" as alias) to "@ + decimal_of(label)
}

/// The call that gives a path a label.
pub fn set_tag(path: &str, label: u8) -> (r: Invocation)
    ensures
        r@ == scripted(tag_script(path@, label as nat)),
{
    let a = concat(
        "tell application \"Finder\" to set label index of (POSIX file \"",
        path,
    );
    let b = concat(a.as_str(), "\" as alias) to ");
    let c = concat(b.as_str(), decimal(label as u64).as_str());
    words("osascript", list2("-e", c.as_str()))
}

/// The script that puts a picture on every desktop.
pub open spec fn desktop_script(path: Seq<char>) -> Seq<char> {
    "tell application \"System Events\" to set picture of every desktop to \""@ + path + "\""@
}

/// The call that puts a picture on every desktop.
pub fn set_desktop_picture(path: &str) -> (r: Invocation)
    ensures
        r@ == scripted(desktop_script(path@)),
{
    let a = concat(
        "tell application \"System Events\" to set picture of every desktop to \"",
        path,
    );
    let b = concat(a.as_str(), "\"");
    words("osascript", list2("-e", b.as_str()))
}

// ----- moving --------------------------------------------------------------------------

/// Where `src` goes when it is dropped on the folder `dir`: nowhere if it is there
/// already, or if the folder lies in it or is it.
pub open spec fn move_dest(dir: Seq<char>, src: Seq<char>) -> Option<Seq<char>> {
    match file_name_of(src) {
        None => None,
        Some(name) => if (parent_of(src) matches Some(p) && same_place(p, dir)) || same_place(
            dir,
            src,
        ) || is_under(dir, src) {
            None
        } else {
            Some(joined_path(dir, name))
        },
    }
}

/// The call that moves `src` into `dir`; none if nothing is to be moved, or if
/// something is in the way.
pub open spec fn move_plan(dir: Seq<char>, is_dir: bool, src: Seq<char>, taken: bool) -> Option<
    InvocationView,
> {
    match move_dest(dir, src) {
        Some(d) => if is_dir && !taken {
            Some(moving(src, d))
        } else {
            None
        },
        None => None,
    }
}

/// Where a path goes when it is dropped on a folder.
pub fn drop_dest(dir: &str, src: &str) -> (r: Option<String>)
    ensures
        opt_text(r) == move_dest(dir@, src@),
{
    let name = match file_name(src) {
        Some(n) => n,
        None => {
            return None;
        },
    };
    let there = match parent(src) {
        Some(p) => same_path(p.as_str(), dir),
        None => false,
    };
    if there || same_path(dir, src) || under(dir, src) {
        return None;
    }
    Some(join_path(dir, name.as_str()))
}

/// The call that moves a path into a folder; `is_dir` says whether the folder is
/// one, and `taken` whether something is in the way.
pub fn move_into(dir: &str, is_dir: bool, src: &str, taken: bool) -> (r: Option<Invocation>)
    ensures
        opt_invocation(r) == move_plan(dir@, is_dir, src@, taken),
{
    match drop_dest(dir, src) {
        Some(d) => {
            if is_dir && !taken {
                Some(move_command(src, d.as_str()))
            } else {
                None
            }
        },
        None => None,
    }
}

/// Nothing is moved into itself, and what is moved does not overwrite.
pub proof fn law_moves_are_safe(dir: Seq<char>, is_dir: bool, src: Seq<char>, taken: bool)
    ensures
        move_plan(dir, is_dir, src, taken) is Some ==> is_dir && !taken && !is_under(dir, src),
        move_plan(dir, is_dir, src, true) is None,
        is_under(dir, src) ==> move_plan(dir, is_dir, src, taken) is None,
{
}

// ----- what the inspector needs --------------------------------------------------------

/// Whether a preview has to be made.
pub open spec fn preview_needed(force: bool, p: Prefs, known: bool) -> bool {
    (force || p.preview) && !known
}

/// Whether a preview has to be made.
pub fn ensure_preview(force: bool, p: &Prefs, known: bool) -> (r: bool)
    ensures
        r == preview_needed(force, *p, known),
{
    (force || p.preview) && !known
}

/// Whether the information on a file has to be gathered.
pub open spec fn info_needed(p: Prefs, known: bool) -> bool {
    p.info && !known
}

/// Whether the information on a file has to be gathered.
pub fn ensure_info(p: &Prefs, known: bool) -> (r: bool)
    ensures
        r == info_needed(*p, known),
{
    p.info && !known
}

/// Whether a page of a document has to be rendered.
pub open spec fn page_needed(path: Seq<char>, known: bool) -> bool {
    names_pdf(path) && !known
}

/// Whether a page of a document has to be rendered.
pub fn ensure_pdf_page(path: &str, known: bool) -> (r: bool)
    ensures
        r == page_needed(path@, known),
{
    is_pdf(path) && !known
}

/// Whether the pages of documents are previewed.
pub open spec fn pages_wanted(p: Prefs) -> bool {
    p.preview && p.preview_pages
}

/// Whether the pages of documents are previewed.
pub fn wants_pages(p: &Prefs) -> (r: bool)
    ensures
        r == pages_wanted(*p),
{
    p.preview && p.preview_pages
}

/// The page to render after the one that was.
pub open spec fn page_behind(page: usize, count: usize) -> Option<usize> {
    if page == 0 && count > 1 {
        Some(1usize)
    } else {
        None
    }
}

/// The page to render after the one that was: the second after the first, so that
/// it is there when it is turned to.
pub fn page_ahead(page: usize, count: usize) -> (r: Option<usize>)
    ensures
        r == page_behind(page, count),
{
    if page == 0 && count > 1 {
        Some(1)
    } else {
        None
    }
}

/// Whether the signature of a path is looked up: of applications and of files.
pub open spec fn signable(path: Seq<char>, is_dir: bool) -> bool {
    extension_of(path) == Some("app"@) || !is_dir
}

/// The first line that names a signer.
pub open spec fn signer_line(lines: Seq<Seq<char>>) -> Option<Seq<char>>
    decreases lines.len(),
{
    if lines.len() == 0 {
        None
    } else {
        match signer_line(lines.drop_last()) {
            Some(a) => Some(a),
            None => without_prefix(lines.last(), "Authority="@),
        }
    }
}

/// Who signed a path, in words: `ok` says whether the signature could be read, and
/// `info` what was said of it.
pub open spec fn signature_words(
    path: Seq<char>,
    is_dir: bool,
    ok: bool,
    info: Seq<char>,
) -> Option<Seq<char>> {
    if !signable(path, is_dir) {
        None
    } else if !ok {
        if extension_of(path) == Some("app"@) {
            Some("Not signed"@)
        } else {
            None
        }
    } else {
        match signer_line(lines_of(info)) {
            Some(a) => Some(a),
            None => Some("Signed"@),
        }
    }
}

fn is_app(path: &str) -> (r: bool)
    ensures
        r == (extension_of(path@) == Some("app"@)),
{
    match extension(path) {
        Some(e) => same(e.as_str(), "app"),
        None => false,
    }
}

/// Whether the signature of a path is looked up.
pub fn wants_signature(path: &str, is_dir: bool) -> (r: bool)
    ensures
        r == signable(path@, is_dir),
{
    !is_dir || is_app(path)
}

/// Who signed a path, in words.
pub fn code_signature(path: &str, is_dir: bool, ok: bool, info: &str) -> (r: Option<String>)
    ensures
        opt_text(r) == signature_words(path@, is_dir, ok, info@),
{
    if !wants_signature(path, is_dir) {
        return None;
    }
    if !ok {
        return if is_app(path) {
            Some(owned("Not signed"))
        } else {
            None
        };
    }
    let all = lines(info);
    let mut i: usize = 0;
    while i < all.len()
        invariant
            i <= all.len(),
            signer_line(texts(all@).take(i as int)) is None,
            texts(all@) == lines_of(info@),
            signable(path@, is_dir),
            ok,
        decreases all.len() - i,
    {
        proof {
            let t = texts(all@).take(i + 1);
            assert(t.drop_last() =~= texts(all@).take(i as int));
            assert(t.last() == all@[i as int]@);
        }
        match strip_prefix(all[i].as_str(), "Authority=") {
            Some(a) => {
                proof {
                    lemma_signer_line(texts(all@), i as int);
                }
                return Some(a);
            },
            None => {},
        }
        i += 1;
    }
    proof {
        assert(texts(all@).take(i as int) =~= texts(all@));
    }
    Some(owned("Signed"))
}

proof fn lemma_signer_line(s: Seq<Seq<char>>, i: int)
    requires
        0 <= i < s.len(),
        signer_line(s.take(i + 1)) is Some,
    ensures
        signer_line(s) == signer_line(s.take(i + 1)),
    decreases s.len(),
{
    if s.len() == i + 1 {
        assert(s.take(i + 1) =~= s);
    } else {
        assert(s.drop_last().take(i + 1) =~= s.take(i + 1));
        lemma_signer_line(s.drop_last(), i);
    }
}

/// The call of the script that puts an update in place of the running application.
pub open spec fn swapping(
    script: Seq<char>,
    bundle: Seq<char>,
    app: Seq<char>,
    mount: Seq<char>,
    image: Seq<char>,
    pid: nat,
    url: Seq<char>,
) -> InvocationView {
    InvocationView {
        program: "/bin/bash"@,
        args: seq![script, bundle, app, mount, image, decimal_of(pid), url],
    }
}

/// The call of the script that puts an update in place of the running application,
/// once the process `pid` has ended.
pub fn swap_command(
    script: &str,
    bundle: &str,
    app: &str,
    mount: &str,
    image: &str,
    pid: u32,
    url: &str,
) -> (r: Invocation)
    ensures
        r@ == swapping(script@, bundle@, app@, mount@, image@, pid as nat, url@),
{
    let mut args = list5(script, bundle, app, mount, image);
    let ghost before = texts(args@);
    args.push(decimal(pid as u64));
    args.push(owned(url));
    proof {
        assert(texts(args@) =~= before.push(decimal_of(pid as nat)).push(url@));
        assert(texts(args@) =~= swapping(
            script@,
            bundle@,
            app@,
            mount@,
            image@,
            pid as nat,
            url@,
        ).args);
    }
    words("/bin/bash", args)
}

} // verus!
