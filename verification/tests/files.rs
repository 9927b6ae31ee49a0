use shuffle::dates::{format_date, format_date_in};
use shuffle::fileops::{
    attach_command, check_notarized_command, check_signature_command, code_signature,
    compress_command, compress_entry, convert_command, convert_image, copy_command, cut_out_name,
    detach_command, download_command, drop_dest, duplicate_entry, ensure_info, ensure_pdf_page,
    ensure_preview, make_alias, move_into, open_command, open_with, page_ahead, preview_command,
    release_command, remove_background, reveal_command, rotate_image, set_desktop_picture, set_tag,
    shell_command, signature_command, signer_command, spotlight_command, swap_command,
    wants_signature,
};
use shuffle::kinds::Invocation;
use shuffle::listing::Stamp;
use shuffle::menus::ImageFormat;
use shuffle::prefs::load_prefs;

fn words(i: &Invocation) -> String {
    format!("{} {}", i.program, i.args.join("|"))
}

#[test]
fn copies_keep_their_extension() {
    assert_eq!(
        duplicate_entry("/a/b.tar.gz"),
        Some(("/a".to_string(), "b.tar copy.gz".to_string()))
    );
    assert_eq!(duplicate_entry("/a/b"), Some(("/a".to_string(), "b copy".to_string())));
    assert_eq!(duplicate_entry("/"), None);
    assert_eq!(compress_entry("/a/b.txt"), Some(("/a".to_string(), "b.zip".to_string())));
    assert_eq!(cut_out_name("/a/b.png"), "b (no background).png");
}

#[test]
fn programs_are_called() {
    assert_eq!(words(&open_command("/a")), "open /a");
    assert_eq!(words(&open_with("/P.app", "/a")), "open -a|/P.app|/a");
    assert_eq!(words(&reveal_command("/a")), "open -R|/a");
    assert_eq!(words(&copy_command("/a", "/b")), "cp -R|/a|/b");
    assert_eq!(
        words(&compress_command("/a", "/a.zip")),
        "ditto -c|-k|--sequesterRsrc|--keepParent|/a|/a.zip"
    );
    assert_eq!(words(&shell_command("ls")), "sh -lc|ls");
    assert_eq!(words(&spotlight_command("q")), "mdfind -name|q");
    assert_eq!(words(&preview_command("/t", "/a")), "qlmanage -t|-s|600|-o|/t|/a");
    assert_eq!(words(&signature_command("/a")), "codesign -dv|--verbose=2|/a");
    assert_eq!(words(&remove_background("/tool", "/a", "/b")), "/tool /a|/b");
}

#[test]
fn pictures_are_turned_and_converted() {
    assert_eq!(words(&rotate_image("/a.png", true)), "sips -r|-90|/a.png");
    assert_eq!(words(&rotate_image("/a.png", false)), "sips -r|90|/a.png");
    assert_eq!(
        convert_image("/p/a.png", ImageFormat::Jpeg),
        Some(("/p".to_string(), "a.jpg".to_string()))
    );
    assert_eq!(
        words(&convert_command("/p/a.png", ImageFormat::Jpeg, "/p/a.jpg")),
        "sips -s|format|jpeg|/p/a.png|--out|/p/a.jpg"
    );
}

#[test]
fn scripts_name_their_paths() {
    let alias = make_alias("/a/b").unwrap();
    assert_eq!(alias.program, "osascript");
    assert_eq!(
        alias.args[1],
        "tell application \"Finder\" to make alias file to (POSIX file \"/a/b\") at (POSIX file \"/a\")"
    );
    assert!(make_alias("/").is_none());
    assert_eq!(
        set_tag("/a", 6).args[1],
        "tell application \"Finder\" to set label index of (POSIX file \"/a\" as alias) to 6"
    );
    assert_eq!(
        set_desktop_picture("/a").args[1],
        "tell application \"System Events\" to set picture of every desktop to \"/a\""
    );
}

#[test]
fn nothing_is_moved_into_itself() {
    assert_eq!(drop_dest("/b", "/a/x"), Some("/b/x".to_string()));
    assert_eq!(drop_dest("/a", "/a/x"), None);
    assert_eq!(drop_dest("/a/x", "/a/x"), None);
    assert_eq!(drop_dest("/a/x/deep", "/a/x"), None);
    assert_eq!(drop_dest("/a/xy", "/a/x"), Some("/a/xy/x".to_string()));
    assert_eq!(drop_dest("/a", "/"), None);
    assert_eq!(words(&move_into("/b", true, "/a/x", false).unwrap()), "mv /a/x|/b/x");
    assert!(move_into("/b", true, "/a/x", true).is_none());
    assert!(move_into("/b", false, "/a/x", false).is_none());
}

#[test]
fn updates_call_programs() {
    assert_eq!(words(&attach_command("/u.dmg")), "hdiutil attach|-nobrowse|-readonly|-noverify|/u.dmg");
    assert_eq!(words(&detach_command("/Volumes/S")), "hdiutil detach|-quiet|/Volumes/S");
    assert_eq!(words(&check_signature_command("/S.app")), "codesign --verify|--deep|--strict|/S.app");
    assert_eq!(words(&check_notarized_command("/S.app")), "spctl -a|-t|exec|-vv|/S.app");
    assert_eq!(words(&signer_command("/S.app")), "codesign -dv|--verbose=4|/S.app");
    assert_eq!(
        words(&download_command("/u.dmg", "https://x")),
        "curl -sL|--fail|--max-time|180|-o|/u.dmg|https://x"
    );
    assert_eq!(
        words(&release_command("https://x")),
        "curl -sL|--max-time|8|-H|Accept: application/vnd.github+json|https://x"
    );
    assert_eq!(
        words(&swap_command("/s.sh", "/B.app", "/N.app", "/V", "/u.dmg", 42, "https://x")),
        "/bin/bash /s.sh|/B.app|/N.app|/V|/u.dmg|42|https://x"
    );
}

#[test]
fn signatures_in_words() {
    assert!(wants_signature("/A.app", true));
    assert!(!wants_signature("/dir", true));
    assert!(wants_signature("/bin/ls", false));
    assert_eq!(code_signature("/dir", true, true, ""), None);
    assert_eq!(code_signature("/A.app", true, false, ""), Some("Not signed".to_string()));
    assert_eq!(code_signature("/bin/ls", false, false, ""), None);
    assert_eq!(
        code_signature("/A.app", true, true, "x\nAuthority=Me\nAuthority=You"),
        Some("Me".to_string())
    );
    assert_eq!(code_signature("/bin/ls", false, true, "x"), Some("Signed".to_string()));
}

#[test]
fn what_has_to_be_looked_up() {
    let off = load_prefs("preview=false\ninfo=false");
    let on = load_prefs("preview=true\ninfo=true");
    assert!(!ensure_preview(false, &off, false));
    assert!(ensure_preview(true, &off, false));
    assert!(!ensure_preview(true, &on, true));
    assert!(ensure_info(&on, false));
    assert!(!ensure_info(&off, false));
    assert!(ensure_pdf_page("/a.pdf", false));
    assert!(!ensure_pdf_page("/a.txt", false));
    assert_eq!(page_ahead(0, 2), Some(1));
    assert_eq!(page_ahead(0, 1), None);
    assert_eq!(page_ahead(1, 9), None);
}

#[test]
fn dates_in_a_zone() {
    let t = Some(Stamp { secs: 1_431_648_000, nanos: 0 });
    assert_eq!(format_date_in(t, 0), "May 15, 2015 12:00 AM");
    assert_eq!(format_date_in(t, 3600 * 9 + 1800), "May 15, 2015  9:30 AM");
    assert_eq!(format_date_in(t, -60), "May 14, 2015 11:59 PM");
    assert_eq!(format_date_in(None, 0), "--");
}

#[test]
fn dates_of_the_machine() {
    assert_eq!(format_date(None), "--");
    let t = Some(Stamp { secs: 1_431_648_000, nanos: 5 });
    let shown = format_date(t);
    assert!(shown.starts_with("May 1"));
    assert!(shown.contains("2015"));
}

#[test]
fn dates_at_the_ends_of_the_calendar() {
    let first = Some(Stamp { secs: -8_334_601_228_800, nanos: 0 });
    let last = Some(Stamp { secs: 8_210_266_876_799, nanos: 999_999_999 });
    assert!(format_date_in(first, 0).contains("-262143"));
    assert!(format_date_in(last, 0).contains("262142"));
    assert!(!format_date_in(last, 86_399).is_empty());
    assert!(!format_date_in(first, -86_399).is_empty());
}
