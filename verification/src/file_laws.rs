//! What operations on files amount to: which file a program is given, which one it
//! makes, and under which name.

use crate::fileops::{
    alias_beside, alias_script, beside, compressing, converting, copy_name_of, copying, cutting_out,
    desktop_script, format_tail, move_dest, move_plan, moving, name_with, opening, opening_with,
    revealing, rotating, scripted, signer_line, stem_text, tag_script,
};
use crate::kinds::{
    FILE_KEY, FOLDER_KEY, InvocationView, archive_kind, ext_label, extract_name, extraction,
    fav_place, icon_key_of, is_raster_ext, label_for, names_image, names_pdf, pack_files, pack_stem,
    suffix_of,
};
use crate::menus::ImageFormat;
use crate::paths::{
    components_of, extension_of, file_name_of, is_under, joined_path, law_join_then_parent,
    parent_of, plain_name, same_place, stem_of,
};
use crate::text::{
    after_last, ascii_low, ascii_lowered, decimal_of, found_in, is_ascii_text,
    law_decimal_reads_back, lemma_after_last, lowercase, occurs_at, parsed, uppercase, value_of,
};
use vstd::prelude::*;

verus! {

// ----- names ---------------------------------------------------------------------------

/// A file name is its stem, followed by a dot and its extension where it has one: what
/// stands behind the last dot, unless that is the first character.
pub proof fn law_name_splits(path: Seq<char>, n: Seq<char>)
    requires
        file_name_of(path) == Some(n),
    ensures
        stem_of(path) is Some,
        extension_of(path) is None ==> stem_of(path) == Some(n) && forall|k: int|
            0 < k < n.len() ==> #[trigger] n[k] != '.',
        extension_of(path) matches Some(e) ==> n == stem_of(path)->0 + seq!['.'] + e
            && !e.contains('.') && stem_of(path)->0.len() > 0,
{
    lemma_after_last(n, '.');
    match extension_of(path) {
        Some(e) => {
            assert(n =~= stem_of(path)->0 + seq!['.'] + e);
            if e.contains('.') {
                let k = choose|k: int| 0 <= k < e.len() && e[k] == '.';
                assert(n[after_last(n, '.') + k] == '.');
            }
        },
        None => {},
    }
}

/// A copy is made beside the original, under its name with ` copy` put in before the
/// extension.
pub proof fn law_copy_name_keeps_the_rest(path: Seq<char>, n: Seq<char>)
    requires
        file_name_of(path) == Some(n),
    ensures
        exists|stem: Seq<char>, tail: Seq<char>|
            n == #[trigger] (stem + tail) && copy_name_of(path) == stem + " copy"@ + tail
                && (tail.len() > 0 ==> tail[0] == '.' && stem.len() > 0) && forall|k: int|
                0 < k < tail.len() ==> #[trigger] tail[k] != '.',
{
    law_name_splits(path, n);
    reveal_strlit(".");
    let stem = stem_of(path)->0;
    let tail = match extension_of(path) {
        Some(e) => seq!['.'] + e,
        None => Seq::empty(),
    };
    assert("."@ =~= seq!['.']);
    assert(n =~= stem + tail);
    assert(copy_name_of(path) =~= stem + " copy"@ + tail);
    match extension_of(path) {
        Some(e) => {
            assert forall|k: int| 0 < k < tail.len() implies #[trigger] tail[k] != '.' by {
                assert(tail[k] == e[k - 1]);
                assert(e.contains(e[k - 1]));
            }
        },
        None => {},
    }
}

/// What is made of a file goes beside it, and there is such a place exactly where the
/// path has a folder.
pub proof fn law_results_go_beside(path: Seq<char>, name: Seq<char>)
    ensures
        beside(path, name) is Some <==> parent_of(path) is Some,
        beside(path, name) matches Some(b) ==> Some(b.0) == parent_of(path) && b.1 == name,
        stem_of(path) matches Some(s) ==> name_with(path, name) == s + name,
{
}

// ----- programs ------------------------------------------------------------------------

/// Whether a call names what it works on, and behind it what it makes.
pub open spec fn makes_from(call: InvocationView, from: Seq<char>, to: Seq<char>) -> bool {
    call.args.len() >= 2 && call.args.last() == to && call.args[call.args.len() - 2] == from
}

/// Copying, compressing, moving and cutting out name the file they read and then the
/// one they write. Opening, showing and turning name the file last.
pub proof fn law_programs_get_their_files(
    from: Seq<char>,
    to: Seq<char>,
    app: Seq<char>,
    left: bool,
)
    ensures
        makes_from(copying(from, to), from, to),
        makes_from(compressing(from, to), from, to),
        makes_from(moving(from, to), from, to),
        makes_from(cutting_out(app, from, to), from, to) && cutting_out(app, from, to).program
            == app,
        makes_from(opening_with(app, from), app, from),
        opening(from).args.last() == from && opening(from).args.len() == 1,
        revealing(from).args.last() == from,
        rotating(from, left).args.last() == from,
        opening(from).program == opening_with(app, from).program,
        opening(from).program == revealing(from).program,
        rotating(from, left).program == converting(from, ImageFormat::Png, to).program,
{
}

/// A picture is turned the other way round by the opposite angle.
pub proof fn law_turns_are_opposite(path: Seq<char>)
    ensures
        rotating(path, true).args[1] == "-"@ + rotating(path, false).args[1],
        rotating(path, true).args[0] == rotating(path, false).args[0],
        parsed(rotating(path, false).args[1], 10, 360) == Some(90nat),
{
    reveal_strlit("-");
    reveal_strlit("-90");
    reveal_strlit("90");
    assert("-90"@ =~= "-"@ + "90"@);
    reveal_with_fuel(value_of, 3);
    let d = "90"@;
    assert(d.drop_last() =~= seq!['9']);
    assert(d.drop_last().drop_last() =~= Seq::<char>::empty());
}

/// The format that is named to the converter is the one that was chosen: no two are
/// named alike, and for all but JPEG the name is the ending of the file that is
/// written, without its dot. The file to convert and the one to write are named too.
pub proof fn law_conversion_is_the_chosen_one(
    path: Seq<char>,
    f: ImageFormat,
    g: ImageFormat,
    to: Seq<char>,
)
    ensures
        f != g ==> converting(path, f, to).args[2] != converting(path, g, to).args[2],
        f != g ==> name_with(path, format_tail(f)) != name_with(path, format_tail(g)),
        f != ImageFormat::Jpeg ==> name_with(path, format_tail(f)) == stem_text(path) + "."@
            + converting(path, f, to).args[2],
        f == ImageFormat::Jpeg ==> name_with(path, format_tail(f)) == stem_text(path) + "."@
            + seq!['j', 'p', 'g'] && converting(path, f, to).args[2] == seq!['j', 'p', 'e', 'g'],
        f == ImageFormat::Png ==> converting(path, f, to).args[2] == seq!['p', 'n', 'g'],
        f == ImageFormat::Pdf ==> converting(path, f, to).args[2] == seq!['p', 'd', 'f'],
        f == ImageFormat::Heic ==> converting(path, f, to).args[2] == seq!['h', 'e', 'i', 'c'],
        converting(path, f, to).args[3] == path,
        converting(path, f, to).args.last() == to,
        converting(path, f, to).args[4] == "--out"@,
{
    reveal_strlit("pdf");
    reveal_strlit("jpeg");
    reveal_strlit("png");
    reveal_strlit("heic");
    reveal_strlit(".pdf");
    reveal_strlit(".jpg");
    reveal_strlit(".png");
    reveal_strlit(".heic");
    reveal_strlit(".");
    let s = stem_text(path);
    assert(s + ".pdf"@ =~= s + "."@ + "pdf"@);
    assert(s + ".png"@ =~= s + "."@ + "png"@);
    assert(s + ".heic"@ =~= s + "."@ + "heic"@);
    assert(s + ".jpg"@ =~= s + "."@ + seq!['j', 'p', 'g']);
    assert("jpeg"@ =~= seq!['j', 'p', 'e', 'g']);
    assert("pdf"@[0] == 'p' && "pdf"@[1] == 'd' && "png"@[1] == 'n' && "heic"@[0] == 'h');
    if f != g {
        let (a, b) = (name_with(path, format_tail(f)), name_with(path, format_tail(g)));
        if a == b {
            assert(a.skip(s.len() as int) =~= format_tail(f));
            assert(b.skip(s.len() as int) =~= format_tail(g));
            assert(format_tail(f)[1] == format_tail(g)[1]);
            assert(format_tail(f)[2] == format_tail(g)[2]);
        }
    }
}

/// A label is set to the number that was chosen: different numbers give different
/// calls, each of which holds the path and ends with the number.
pub proof fn law_tag_is_the_chosen_one(path: Seq<char>, a: nat, b: nat)
    ensures
        decimal_of(a).is_suffix_of(tag_script(path, a)),
        found_in(tag_script(path, a), path),
        a != b ==> tag_script(path, a) != tag_script(path, b),
        scripted(tag_script(path, a)).args.last() == tag_script(path, a),
{
    let s = tag_script(path, a);
    let t = decimal_of(a);
    assert(s.subrange(s.len() - t.len(), s.len() as int) =~= t);
    let head = "tell application \"Finder\" to set label index of (POSIX file \""@;
    assert(s.subrange(head.len() as int, (head.len() + path.len()) as int) =~= path);
    assert(occurs_at(s, head.len() as int, path));
    if a != b && tag_script(path, a) == tag_script(path, b) {
        let k = (head + path + "\" as alias) to "@).len() as int;
        assert(s.skip(k) =~= decimal_of(a));
        assert(tag_script(path, b).skip(k) =~= decimal_of(b));
        let m = if a > b {
            a
        } else {
            b
        };
        law_decimal_reads_back(a, m);
        law_decimal_reads_back(b, m);
    }
}

/// The scripts for an alias and for the desktop hold the paths they are for, that of
/// the alias its folder behind the file.
pub proof fn law_scripts_hold_their_paths(path: Seq<char>, dir: Seq<char>)
    ensures
        found_in(desktop_script(path), path),
        exists|a: Seq<char>, b: Seq<char>, c: Seq<char>|
            alias_script(path, dir) == #[trigger] (a + path + b + dir + c) && b.len() > 0
                && c.len() > 0,
{
    let s = desktop_script(path);
    let head = "tell application \"System Events\" to set picture of every desktop to \""@;
    assert(s.subrange(head.len() as int, (head.len() + path.len()) as int) =~= path);
    assert(occurs_at(s, head.len() as int, path));
    reveal_strlit("\") at (POSIX file \"");
    reveal_strlit("\")");
    let a = "tell application \"Finder\" to make alias file to (POSIX file \""@;
    assert(alias_script(path, dir) == a + path + "\") at (POSIX file \""@ + dir + "\")"@);
}

/// A file that is moved keeps its name and lands directly in the folder that it was
/// dropped on. It is not moved where it lies there already, onto itself or into
/// itself.
pub proof fn law_move_keeps_the_name(dir: Seq<char>, src: Seq<char>, n: Seq<char>)
    requires
        file_name_of(src) == Some(n),
        plain_name(n),
    ensures
        move_dest(dir, src) matches Some(d) ==> file_name_of(d) == Some(n) && (parent_of(
            d,
        ) matches Some(p) && same_place(p, dir)),
        move_dest(dir, src) is None <==> (parent_of(src) matches Some(p) && same_place(p, dir))
            || is_under(dir, src),
        move_plan(dir, true, src, false) is Some <==> move_dest(dir, src) is Some,
        move_plan(dir, true, src, false) matches Some(call) ==> makes_from(
            call,
            src,
            move_dest(dir, src)->0,
        ),
{
    law_join_then_parent(dir, n);
    if same_place(dir, src) {
        assert(components_of(src).is_prefix_of(components_of(dir))) by {
            assert(components_of(dir).subrange(0, components_of(src).len() as int)
                =~= components_of(src));
        }
    }
}

/// Who signed a program is what stands behind `Authority=` on the first line that
/// begins so.
pub proof fn law_first_authority_counts(lines: Seq<Seq<char>>)
    ensures
        signer_line(lines) is None <==> forall|i: int|
            0 <= i < lines.len() ==> !("Authority="@.is_prefix_of(#[trigger] lines[i])),
        signer_line(lines) matches Some(a) ==> exists|i: int|
            0 <= i < lines.len() && #[trigger] lines[i] == "Authority="@ + a && forall|k: int|
                0 <= k < i ==> !("Authority="@.is_prefix_of(#[trigger] lines[k])),
    decreases lines.len(),
{
    if lines.len() > 0 {
        let h = lines.drop_last();
        law_first_authority_counts(h);
        let l = lines.last();
        match signer_line(h) {
            Some(a) => {
                let i = choose|i: int|
                    0 <= i < h.len() && #[trigger] h[i] == "Authority="@ + a && forall|k: int|
                        0 <= k < i ==> !("Authority="@.is_prefix_of(#[trigger] h[k]));
                assert(lines[i] == h[i]);
                assert forall|k: int| 0 <= k < i implies !("Authority="@.is_prefix_of(
                    #[trigger] lines[k],
                )) by {
                    assert(h[k] == lines[k]);
                }
                assert("Authority="@.is_prefix_of(lines[i])) by {
                    assert(lines[i].subrange(0, "Authority="@.len() as int) =~= "Authority="@);
                }
            },
            None => {
                assert forall|k: int| 0 <= k < h.len() implies !("Authority="@.is_prefix_of(
                    #[trigger] lines[k],
                )) by {
                    assert(h[k] == lines[k]);
                }
                if "Authority="@.is_prefix_of(l) {
                    let p = "Authority="@;
                    assert(l =~= p + l.skip(p.len() as int)) by {
                        assert(l.subrange(0, p.len() as int) == p);
                        assert forall|k: int| 0 <= k < p.len() implies l[k] == p[k] by {
                            assert(l.subrange(0, p.len() as int)[k] == l[k]);
                        }
                    }
                    assert(lines[lines.len() - 1] == l);
                } else {
                    assert(lines[lines.len() - 1] == l);
                }
            },
        }
    }
}

// ----- archives ------------------------------------------------------------------------

/// Whether a text is one of the endings of archives that can be unpacked.
pub open spec fn is_archive_ending(t: Seq<char>) -> bool {
    ||| t == ".tar.gz"@
    ||| t == ".tar.bz2"@
    ||| t == ".tar.xz"@
    ||| t == ".tgz"@
    ||| t == ".tbz"@
    ||| t == ".txz"@
    ||| t == ".tar"@
    ||| t == ".zip"@
}

proof fn lemma_endings_agree(n: Seq<char>, a: Seq<char>, b: Seq<char>)
    requires
        a.is_suffix_of(n),
        b.is_suffix_of(n),
    ensures
        forall|i: int|
            1 <= i <= a.len() && i <= b.len() ==> a[a.len() - i] == #[trigger] b[b.len() - i],
{
    assert forall|i: int| 1 <= i <= a.len() && i <= b.len() implies a[a.len() - i]
        == #[trigger] b[b.len() - i] by {
        assert(n.subrange(n.len() - a.len(), n.len() as int)[a.len() - i] == n[n.len() - i]);
        assert(n.subrange(n.len() - b.len(), n.len() as int)[b.len() - i] == n[n.len() - i]);
    }
}

/// An archive is unpacked into a folder named like it without its whole ending, so
/// that `a.tar.gz` goes to `a`; a name without such an ending is no archive. The
/// program gets the archive first, and then the folder.
pub proof fn law_archives_lose_their_ending(
    path: Seq<char>,
    base: Seq<char>,
    tail: Seq<char>,
    dest: Seq<char>,
)
    requires
        is_archive_ending(tail),
        is_ascii_text(base),
        file_name_of(path) == Some(base + tail),
    ensures
        extract_name(path) == Some(base),
        extraction(path, dest) matches Some(call) && call.args.last() == dest && call.args.len()
            >= 3 && call.args[1] == path && (call.program == "ditto"@ <==> tail == ".zip"@) && (
        call.program == "tar"@ <==> tail != ".zip"@),
{
    reveal_strlit(".tar.gz");
    reveal_strlit(".tar.bz2");
    reveal_strlit(".tar.xz");
    reveal_strlit(".tgz");
    reveal_strlit(".tbz");
    reveal_strlit(".txz");
    reveal_strlit(".tar");
    reveal_strlit(".zip");
    reveal_strlit("ditto");
    reveal_strlit("tar");
    let name = base + tail;
    let n = lowercase(name);
    assert forall|i: int| 0 <= i < name.len() implies (#[trigger] name[i]) as u32 <= 127 by {
        if i < base.len() {
            assert(name[i] == base[i]);
        } else {
            assert(name[i] == tail[i - base.len()]);
        }
    }
    assert(n =~= ascii_lowered(base) + tail) by {
        assert forall|i: int| 0 <= i < tail.len() implies ascii_low(#[trigger] tail[i])
            == tail[i] by {}
    }
    assert(tail.is_suffix_of(n)) by {
        assert(n.subrange(n.len() - tail.len(), n.len() as int) =~= tail);
    }
    let k = archive_kind(path);
    assert(k is Some);
    let s = suffix_of(k->0);
    assert(s.is_suffix_of(n));
    lemma_endings_agree(n, s, tail);
    assert(s[s.len() - 1] == tail[tail.len() - 1]);
    assert(s[s.len() - 2] == tail[tail.len() - 2]);
    assert(s[s.len() - 3] == tail[tail.len() - 3]);
    assert(s[s.len() - 4] == tail[tail.len() - 4]);
    assert(s == tail);
    assert(name.take(name.len() - s.len()) =~= base);
    assert("ditto"@.len() != "tar"@.len());
}

/// A file is taken for an archive only where its name, in lowercase, has such an
/// ending.
pub proof fn law_only_archives_are_unpacked(path: Seq<char>, dest: Seq<char>)
    ensures
        extraction(path, dest) is Some <==> (file_name_of(path) matches Some(n) && exists|
            t: Seq<char>,
        | #[trigger] is_archive_ending(t) && t.is_suffix_of(lowercase(n))),
        extract_name(path) is Some <==> extraction(path, dest) is Some,
{
    match file_name_of(path) {
        Some(n) => {
            let l = lowercase(n);
            match archive_kind(path) {
                Some(k) => {
                    assert(is_archive_ending(suffix_of(k)) && suffix_of(k).is_suffix_of(l));
                },
                None => {},
            }
        },
        None => {},
    }
}

// ----- kinds ---------------------------------------------------------------------------

/// The kind of a file is told by its extension, whatever its case; folders are
/// directories, and files without an extension documents.
pub proof fn law_kind_is_told_by_extension(a: Seq<char>, b: Seq<char>, is_dir: bool)
    requires
        extension_of(a) is Some,
        extension_of(b) is Some,
        lowercase(extension_of(a)->0) == lowercase(extension_of(b)->0),
    ensures
        label_for(a, is_dir) == label_for(b, is_dir),
        names_image(a) == names_image(b),
        names_pdf(a) == names_pdf(b),
        icon_key_of(a) == icon_key_of(b),
{
}

/// Pictures, films, sounds and archives are labelled with their extension in capitals
/// and what they are; a file of no known kind is labelled with its extension and
/// `File`.
pub proof fn law_media_have_their_labels(e: Seq<char>)
    ensures
        e == "png"@ || e == "gif"@ || e == "bmp"@ || e == "tiff"@ || e == "heic"@ || e == "webp"@
            || e == "svg"@ ==> ext_label(e) == uppercase(e) + " Image"@,
        e == "mp4"@ || e == "mov"@ || e == "avi"@ || e == "mkv"@ || e == "webm"@ || e == "m4v"@
            ==> ext_label(e) == uppercase(e) + " Video"@,
        e == "mp3"@ || e == "wav"@ || e == "flac"@ || e == "aac"@ || e == "m4a"@ || e == "ogg"@
            ==> ext_label(e) == uppercase(e) + " Audio"@,
        e == "zip"@ || e == "tar"@ || e == "gz"@ || e == "7z"@ || e == "rar"@ || e == "bz2"@ || e
            == "xz"@ || e == "dmg"@ ==> ext_label(e) == uppercase(e) + " Archive"@,
        e.len() > 5 && e != "swift"@ ==> ext_label(e) == uppercase(e) + " File"@,
{
    reveal_strlit("xlsx");
    reveal_strlit("xls");
    reveal_strlit("xlsm");
    reveal_strlit("xlsb");
    reveal_strlit("docx");
    reveal_strlit("doc");
    reveal_strlit("pptx");
    reveal_strlit("ppt");
    reveal_strlit("pdf");
    reveal_strlit("txt");
    reveal_strlit("md");
    reveal_strlit("rtf");
    reveal_strlit("log");
    reveal_strlit("csv");
    reveal_strlit("tsv");
    reveal_strlit("dwg");
    reveal_strlit("dxf");
    reveal_strlit("jpg");
    reveal_strlit("jpeg");
    reveal_strlit("png");
    reveal_strlit("gif");
    reveal_strlit("bmp");
    reveal_strlit("tiff");
    reveal_strlit("heic");
    reveal_strlit("webp");
    reveal_strlit("svg");
    reveal_strlit("mp4");
    reveal_strlit("mov");
    reveal_strlit("avi");
    reveal_strlit("mkv");
    reveal_strlit("webm");
    reveal_strlit("m4v");
    reveal_strlit("mp3");
    reveal_strlit("wav");
    reveal_strlit("flac");
    reveal_strlit("aac");
    reveal_strlit("m4a");
    reveal_strlit("ogg");
    reveal_strlit("zip");
    reveal_strlit("tar");
    reveal_strlit("gz");
    reveal_strlit("7z");
    reveal_strlit("rar");
    reveal_strlit("bz2");
    reveal_strlit("xz");
    reveal_strlit("dmg");
    reveal_strlit("rs");
    reveal_strlit("py");
    reveal_strlit("js");
    reveal_strlit("ts");
    reveal_strlit("tsx");
    reveal_strlit("jsx");
    reveal_strlit("c");
    reveal_strlit("cpp");
    reveal_strlit("h");
    reveal_strlit("hpp");
    reveal_strlit("go");
    reveal_strlit("java");
    reveal_strlit("rb");
    reveal_strlit("swift");
    reveal_strlit("zig");
    reveal_strlit("sh");
    reveal_strlit("json");
    reveal_strlit("toml");
    reveal_strlit("yaml");
    reveal_strlit("yml");
    reveal_strlit("html");
    reveal_strlit("css");
    reveal_strlit("app");
    assert(e.len() >= 4 ==> e.take(4) =~= seq![e[0], e[1], e[2], e[3]]);
    assert(e.len() == 3 ==> e =~= seq![e[0], e[1], e[2]]);
    assert(e.len() == 2 ==> e =~= seq![e[0], e[1]]);
}

/// Documents, tables, drawings, programs' sources and applications are labelled by what
/// they are, whichever of their extensions they have.
pub proof fn law_documents_have_their_labels(e: Seq<char>)
    ensures
        e == "xlsx"@ || e == "xls"@ || e == "xlsm"@ || e == "xlsb"@
            ==> ext_label(e) == "Microsoft Excel"@,
        e == "docx"@ || e == "doc"@ ==> ext_label(e) == "Microsoft Word"@,
        e == "pptx"@ || e == "ppt"@ ==> ext_label(e) == "Microsoft PowerPoint"@,
        e == "pdf"@ ==> ext_label(e) == "PDF Document"@,
        e == "txt"@ || e == "md"@ || e == "rtf"@ || e == "log"@
            ==> ext_label(e) == "Text Document"@,
        e == "csv"@ || e == "tsv"@ ==> ext_label(e) == "CSV File"@,
        e == "dwg"@ ==> ext_label(e) == "DWG File"@,
        e == "dxf"@ ==> ext_label(e) == "DXF File"@,
        e == "jpg"@ || e == "jpeg"@ ==> ext_label(e) == "JPEG Image"@,
        e == "rs"@ || e == "py"@ || e == "js"@ || e == "ts"@ || e == "tsx"@ || e == "jsx"@
            || e == "c"@ || e == "cpp"@ || e == "h"@ || e == "hpp"@ || e == "go"@ || e == "java"@
            || e == "rb"@ || e == "swift"@ || e == "zig"@ || e == "sh"@ || e == "json"@
            || e == "toml"@ || e == "yaml"@ || e == "yml"@ || e == "html"@ || e == "css"@
            ==> ext_label(e) == "Source Code"@,
        e == "app"@ ==> ext_label(e) == "Application"@,
{
    reveal_strlit("xlsx");
    reveal_strlit("xls");
    reveal_strlit("xlsm");
    reveal_strlit("xlsb");
    reveal_strlit("docx");
    reveal_strlit("doc");
    reveal_strlit("pptx");
    reveal_strlit("ppt");
    reveal_strlit("pdf");
    reveal_strlit("txt");
    reveal_strlit("md");
    reveal_strlit("rtf");
    reveal_strlit("log");
    reveal_strlit("csv");
    reveal_strlit("tsv");
    reveal_strlit("dwg");
    reveal_strlit("dxf");
    reveal_strlit("jpg");
    reveal_strlit("jpeg");
    reveal_strlit("png");
    reveal_strlit("gif");
    reveal_strlit("bmp");
    reveal_strlit("tiff");
    reveal_strlit("heic");
    reveal_strlit("webp");
    reveal_strlit("svg");
    reveal_strlit("mp4");
    reveal_strlit("mov");
    reveal_strlit("avi");
    reveal_strlit("mkv");
    reveal_strlit("webm");
    reveal_strlit("m4v");
    reveal_strlit("mp3");
    reveal_strlit("wav");
    reveal_strlit("flac");
    reveal_strlit("aac");
    reveal_strlit("m4a");
    reveal_strlit("ogg");
    reveal_strlit("zip");
    reveal_strlit("tar");
    reveal_strlit("gz");
    reveal_strlit("7z");
    reveal_strlit("rar");
    reveal_strlit("bz2");
    reveal_strlit("xz");
    reveal_strlit("dmg");
    reveal_strlit("rs");
    reveal_strlit("py");
    reveal_strlit("js");
    reveal_strlit("ts");
    reveal_strlit("tsx");
    reveal_strlit("jsx");
    reveal_strlit("c");
    reveal_strlit("cpp");
    reveal_strlit("h");
    reveal_strlit("hpp");
    reveal_strlit("go");
    reveal_strlit("java");
    reveal_strlit("rb");
    reveal_strlit("swift");
    reveal_strlit("zig");
    reveal_strlit("sh");
    reveal_strlit("json");
    reveal_strlit("toml");
    reveal_strlit("yaml");
    reveal_strlit("yml");
    reveal_strlit("html");
    reveal_strlit("css");
    reveal_strlit("app");
    assert(e.len() >= 4 ==> e.take(4) =~= seq![e[0], e[1], e[2], e[3]]);
    assert(e.len() == 3 ==> e =~= seq![e[0], e[1], e[2]]);
    assert(e.len() == 2 ==> e =~= seq![e[0], e[1]]);
    assert(e.len() == 1 ==> e =~= seq![e[0]]);
}

/// A folder is a directory whatever its name, and a file without an extension a document.
pub proof fn law_plain_kinds(name: Seq<char>)
    ensures
        label_for(name, true) == "Directory"@,
        extension_of(name) is None ==> label_for(name, false) == "Document"@,
{
}

/// The pictures that can be turned and converted are told by these extensions alone.
pub proof fn law_raster_pictures(path: Seq<char>)
    ensures
        names_image(path) <==> extension_of(path) is Some && seq![
            "jpg"@,
            "jpeg"@,
            "png"@,
            "gif"@,
            "heic"@,
            "heif"@,
            "tiff"@,
            "tif"@,
            "bmp"@,
            "webp"@,
        ].contains(lowercase(extension_of(path)->0)),
        names_pdf(path) <==> extension_of(path) is Some && lowercase(extension_of(path)->0)
            == "pdf"@,
{
    let all = seq![
        "jpg"@,
        "jpeg"@,
        "png"@,
        "gif"@,
        "heic"@,
        "heif"@,
        "tiff"@,
        "tif"@,
        "bmp"@,
        "webp"@,
    ];
    if extension_of(path) is Some {
        let e = lowercase(extension_of(path)->0);
        if is_raster_ext(e) {
            assert(all[0] == e || all[1] == e || all[2] == e || all[3] == e || all[4] == e || all[5]
                == e || all[6] == e || all[7] == e || all[8] == e || all[9] == e);
        }
    }
}

/// An alias is made in the folder of what it stands for; what has no folder gets none.
pub proof fn law_alias_is_made_beside(path: Seq<char>)
    ensures
        alias_beside(path) is Some <==> parent_of(path) is Some,
        alias_beside(path) matches Some(c) ==> c == scripted(
            alias_script(path, parent_of(path)->0),
        ),
{
}

/// A favorite leads to the root, to the home folder, or to the folder of its name in it.
pub proof fn law_favorites_lead_home(slug: Seq<char>, home: Seq<char>)
    ensures
        fav_place("computer"@, home) == "/"@,
        fav_place("home"@, home) == home,
        slug != "computer"@ && slug != "home"@ ==> fav_place(slug, home) == joined_path(home, slug),
{
    reveal_strlit("computer");
    reveal_strlit("home");
    assert("computer"@.len() != "home"@.len());
}

/// The picture of an icon pack for a kind of file bears the name of that kind, whatever
/// its format.
pub proof fn law_packs_are_named_by_kind(pack: Seq<char>, key: Seq<char>, rest: Seq<char>, i: int)
    requires
        0 <= i < pack_files(pack, key).len(),
    ensures
        pack_files(pack, key).len() == 7,
        exists|e: Seq<char>|
            seq!["png"@, "jpg"@, "jpeg"@, "gif"@, "tiff"@, "bmp"@, "webp"@].contains(e)
                && pack_files(pack, key)[i] == #[trigger] joined_path(
                pack,
                pack_stem(key) + "."@ + e,
            ),
        pack_stem("fav:"@ + rest) == rest,
{
    let all = seq!["png"@, "jpg"@, "jpeg"@, "gif"@, "tiff"@, "bmp"@, "webp"@];
    let e = all[i];
    assert(all.contains(e));
    assert(pack_files(pack, key)[i] == joined_path(pack, pack_stem(key) + "."@ + e));
    reveal_strlit("fav:");
    reveal_strlit("\u{0}folder");
    reveal_strlit("\u{0}file");
    let k = "fav:"@ + rest;
    assert(k[0] == 'f');
    assert(FOLDER_KEY@[0] == '\u{0}' && FILE_KEY@[0] == '\u{0}');
    assert(k.subrange(0, 4) =~= "fav:"@);
    assert(k.skip(4) =~= rest);
}

} // verus!
