use shuffle::install::{Answer, InstallStep, Installer, Stage};
use shuffle::update::{
    banner_text, check_button, check_outcome, check_text, current_app_bundle, dismiss_update,
    follow_check, is_newer, json_string_field, latest_tag, mounted_volume, parse_hdiutil_mount,
    parse_version, press_check, should_announce, start_self_update, verify_app, UpdateCheck,
    UpdateFault, UpdateStatus, EXPECTED_TEAM_ID,
};

#[test]
fn versions_compare_by_numbers() {
    assert_eq!(parse_version(" v0.2.10-beta "), vec![0, 2, 10]);
    assert_eq!(parse_version("x"), vec![0]);
    assert!(is_newer("v0.2.10", "0.2.9"));
    assert!(!is_newer("0.2.9", "v0.2.9"));
    assert!(is_newer("1.0.1", "1.0"));
    assert!(!is_newer("1.0", "1.0.1"));
}

#[test]
fn tags_are_read_from_the_answer() {
    let body = "{\"url\": \"x\", \"tag_name\" : \" v0.2.6 \", \"name\":\"n\"}";
    assert_eq!(json_string_field(body, "name"), Some("n".to_string()));
    assert_eq!(latest_tag(body), Some("v0.2.6".to_string()));
    assert_eq!(json_string_field(body, "missing"), None);
    assert_eq!(json_string_field("{\"a\": 1}", "a"), None);
}

#[test]
fn mounts_are_read_from_the_output() {
    let out = "/dev/disk4\tGUID_partition_scheme\n/dev/disk4s1\tApple_HFS\t/Volumes/Shuffle\n";
    assert_eq!(parse_hdiutil_mount(out), Some("/Volumes/Shuffle".to_string()));
    assert_eq!(mounted_volume(true, out), Ok("/Volumes/Shuffle".to_string()));
    assert_eq!(mounted_volume(false, out), Err(UpdateFault::Mount));
    assert_eq!(mounted_volume(true, "nothing"), Err(UpdateFault::Volume));
}

#[test]
fn the_bundle_is_found_above_the_program() {
    assert_eq!(
        current_app_bundle("/Applications/Shuffle.app/Contents/MacOS/shuffle"),
        Some("/Applications/Shuffle.app".to_string())
    );
    assert_eq!(current_app_bundle("/usr/bin/shuffle"), None);
}

#[test]
fn only_the_expected_developer_is_installed() {
    let info = format!("Authority=x\n TeamIdentifier={EXPECTED_TEAM_ID} \n");
    assert_eq!(verify_app(true, true, &info), Ok(()));
    assert_eq!(verify_app(false, true, &info), Err(UpdateFault::Signature));
    assert_eq!(verify_app(true, false, &info), Err(UpdateFault::Notarization));
    assert_eq!(verify_app(true, true, "TeamIdentifier=OTHER"), Err(UpdateFault::Developer));
}

#[test]
fn every_fault_has_a_reason() {
    assert_eq!(UpdateFault::Bundle.message(), "couldn't locate the app bundle");
    assert_eq!(UpdateFault::Download.message(), "couldn't download the update");
    assert_eq!(UpdateFault::Contents.message(), "the update didn't contain Shuffle.app");
}

#[test]
fn checks_and_banners() {
    assert!(matches!(check_outcome(None, "0.2.0"), UpdateCheck::Failed));
    assert!(matches!(check_outcome(Some("v0.2.0".to_string()), "0.2.0"), UpdateCheck::UpToDate));
    let found = check_outcome(Some("v0.3.0".to_string()), "0.2.0");
    assert_eq!(check_text(&found), Some("v0.3.0 is available.".to_string()));
    assert_eq!(check_button(&found), Some("Install & Relaunch".to_string()));
    assert_eq!(check_button(&UpdateCheck::Checking), None);
    assert_eq!(check_text(&UpdateCheck::Idle), None);
    assert!(matches!(press_check(&found), UpdateCheck::Install(ref v) if v == "v0.3.0"));
    assert!(matches!(press_check(&UpdateCheck::Failed), UpdateCheck::Checking));
}

#[test]
fn a_dismissed_version_stays_away() {
    assert!(should_announce("v1.0", "0.9", &None));
    assert!(!should_announce("v1.0", "0.9", &Some("v1.0".to_string())));
    assert!(should_announce("v1.1", "0.9", &Some("v1.0".to_string())));
    assert!(!should_announce("v0.9", "0.9", &None));
    let mut banner = Some(UpdateStatus::Available("v1.0".to_string()));
    assert_eq!(dismiss_update(&mut banner), Some("v1.0".to_string()));
    assert!(banner.is_none());
    let mut failed = Some(UpdateStatus::Failed("x".to_string()));
    assert_eq!(dismiss_update(&mut failed), None);
}

#[test]
fn an_update_is_begun_once() {
    let mut banner = None;
    assert!(!start_self_update(&mut banner));
    let install = UpdateCheck::Install("v2".to_string());
    assert!(follow_check(&mut banner, &install));
    assert!(matches!(banner, Some(UpdateStatus::Downloading(ref v)) if v == "v2"));
    assert!(!follow_check(&mut banner, &install));
    assert!(!follow_check(&mut banner, &UpdateCheck::Available("v3".to_string())));
    assert_eq!(
        banner_text(&banner.unwrap(), "1"),
        "Shuffle v3 is available (you have v1)."
    );
}

fn said(ok: bool, out: &str, err: &str) -> Answer {
    Answer { ok, out: out.to_string(), err: err.to_string(), broken: None }
}

fn broken(reason: &str) -> Answer {
    Answer { broken: Some(reason.to_string()), ..said(false, "", "") }
}

fn shown(step: &InstallStep) -> String {
    match step {
        InstallStep::Run(i) => format!("{} {}", i.program, i.args.join(" ")),
        InstallStep::Look(p) => format!("look {p}"),
        InstallStep::Swap { bundle, app, mount, image } => {
            format!("swap {bundle} {app} {mount} {image}")
        }
        InstallStep::Quit => "quit".to_string(),
        InstallStep::Fail { reason, last } => match last {
            Some(i) => format!("fail {reason}; {} {}", i.program, i.args.join(" ")),
            None => format!("fail {reason}"),
        },
        InstallStep::Idle => "idle".to_string(),
    }
}

/// An installer that went through the first `n` good answers.
fn installer(n: usize) -> Installer {
    let team = format!("TeamIdentifier={EXPECTED_TEAM_ID}\n");
    let answers = [
        said(true, "", ""),
        said(true, "/dev/disk4s1\t/Volumes/Shuffle 1\n", ""),
        said(true, "", ""),
        said(true, "", ""),
        said(true, "", ""),
        said(true, "", &team),
    ];
    let (mut job, _) = Installer::begin(Some("/Applications/Shuffle.app".to_string()), "/t", "u");
    for a in &answers[..n] {
        job.advance(a);
    }
    job
}

#[test]
fn an_update_goes_step_by_step() {
    let (mut job, step) = Installer::begin(Some("/A/Shuffle.app".to_string()), "/t", "http://u");
    assert_eq!(
        shown(&step),
        "curl -sL --fail --max-time 180 -o /t/shuffle-update/Shuffle-latest.dmg http://u"
    );
    let good = said(true, "", "");
    assert_eq!(
        shown(&job.advance(&good)),
        "hdiutil attach -nobrowse -readonly -noverify /t/shuffle-update/Shuffle-latest.dmg"
    );
    let mounted = said(true, "/dev/disk4s1\t/Volumes/Shuffle 1\n", "");
    assert_eq!(shown(&job.advance(&mounted)), "look /Volumes/Shuffle 1/Shuffle.app");
    assert_eq!(
        shown(&job.advance(&good)),
        "codesign --verify --deep --strict /Volumes/Shuffle 1/Shuffle.app"
    );
    assert_eq!(shown(&job.advance(&good)), "spctl -a -t exec -vv /Volumes/Shuffle 1/Shuffle.app");
    assert_eq!(
        shown(&job.advance(&good)),
        "codesign -dv --verbose=4 /Volumes/Shuffle 1/Shuffle.app"
    );
    let signed = said(false, "", &format!("x\nTeamIdentifier={EXPECTED_TEAM_ID}"));
    assert_eq!(
        shown(&job.advance(&signed)),
        "swap /A/Shuffle.app /Volumes/Shuffle 1/Shuffle.app /Volumes/Shuffle 1 \
         /t/shuffle-update/Shuffle-latest.dmg"
    );
    assert_eq!(shown(&job.advance(&good)), "quit");
    assert_eq!(shown(&job.advance(&good)), "idle");
}

#[test]
fn a_failed_update_unmounts_its_image() {
    let bad = said(false, "", "");
    let unmount = "hdiutil detach -quiet /Volumes/Shuffle 1";
    assert_eq!(shown(&Installer::begin(None, "/t", "u").1), "fail couldn't locate the app bundle");
    assert_eq!(shown(&installer(0).advance(&bad)), "fail couldn't download the update");
    assert_eq!(shown(&installer(0).advance(&broken("no curl"))), "fail couldn't download the update");
    assert_eq!(shown(&installer(1).advance(&bad)), "fail couldn't mount the update");
    assert_eq!(shown(&installer(1).advance(&broken("no tool"))), "fail no tool");
    let elsewhere = said(true, "/dev/disk4", "");
    assert_eq!(shown(&installer(1).advance(&elsewhere)), "fail couldn't find the mounted volume");
    assert_eq!(
        shown(&installer(2).advance(&bad)),
        format!("fail the update didn't contain Shuffle.app; {unmount}")
    );
    assert_eq!(
        shown(&installer(3).advance(&broken("x"))),
        format!("fail the update's signature was invalid; {unmount}")
    );
    assert_eq!(
        shown(&installer(4).advance(&bad)),
        format!("fail the update wasn't notarized by Apple; {unmount}")
    );
    assert_eq!(shown(&installer(5).advance(&broken("no tool"))), format!("fail no tool; {unmount}"));
    assert_eq!(
        shown(&installer(5).advance(&said(true, "", "TeamIdentifier=OTHER"))),
        format!("fail the update was signed by an unexpected developer; {unmount}")
    );
    let mut job = installer(6);
    assert!(job.stage == Stage::Swap);
    assert_eq!(shown(&job.advance(&broken("no shell"))), format!("fail no shell; {unmount}"));
    assert_eq!(shown(&job.advance(&said(true, "", ""))), "idle");
}
