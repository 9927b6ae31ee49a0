//! Installing a new version: what to do next, step by step, and when to stop.

use crate::fileops::{
    attach_command, attaching, check_notarized_command, check_signature_command, checking_notarized,
    checking_signature, detach_command, detaching, download_command, downloading, signer,
    signer_command,
};
use crate::kinds::{Invocation, InvocationView, opt_invocation};
use crate::paths::{join_path, joined_path};
use crate::text::{lines_of, opt_text, owned};
use crate::update::{UpdateFault, fault_text, first_mount, mounted_volume, names_team, verify_app};
use vstd::prelude::*;

verus! {

/// How far the installation of a new version has come: what was asked for last.
#[derive(Clone, Copy, PartialEq, Eq, Structural, Debug)]
pub enum Stage {
    /// The download of the disk image.
    Download,
    /// Its mounting.
    Attach,
    /// A look whether the application is on it.
    Look,
    /// A check of the application's signature.
    Signature,
    /// A check whether the application was notarized.
    Notarization,
    /// Who signed the application.
    Signer,
    /// The exchange of the running application for the new one.
    Swap,
    /// Nothing more: the new version is in place once the program ends.
    Done,
    /// Nothing more: the installation failed.
    Failed,
}

/// The installation of a new version.
pub struct Installer {
    pub stage: Stage,
    /// The application to be replaced.
    pub bundle: String,
    /// The disk image.
    pub image: String,
    /// Where the disk image is mounted, once it is.
    pub mount: String,
}

/// The installation of a new version, with texts as characters.
#[verifier::ext_equal]
pub struct InstallerView {
    pub stage: Stage,
    pub bundle: Seq<char>,
    pub image: Seq<char>,
    pub mount: Seq<char>,
}

impl View for Installer {
    type V = InstallerView;

    open spec fn view(&self) -> InstallerView {
        InstallerView {
            stage: self.stage,
            bundle: self.bundle@,
            image: self.image@,
            mount: self.mount@,
        }
    }
}

/// What came of the last step.
pub struct Answer {
    /// Whether it succeeded, or what was looked for is there.
    pub ok: bool,
    /// What a program printed.
    pub out: String,
    /// What a program printed as its errors.
    pub err: String,
    /// Why the step could not even be begun, if so.
    pub broken: Option<String>,
}

/// What came of the last step, with texts as characters.
#[verifier::ext_equal]
pub struct AnswerView {
    pub ok: bool,
    pub out: Seq<char>,
    pub err: Seq<char>,
    pub broken: Option<Seq<char>>,
}

impl View for Answer {
    type V = AnswerView;

    open spec fn view(&self) -> AnswerView {
        AnswerView {
            ok: self.ok,
            out: self.out@,
            err: self.err@,
            broken: opt_text(self.broken),
        }
    }
}

impl AnswerView {
    /// Whether the step was begun and succeeded.
    pub open spec fn good(self) -> bool {
        self.ok && self.broken is None
    }
}

/// What to do next.
pub enum InstallStep {
    /// Run a program.
    Run(Invocation),
    /// Look whether something is there.
    Look(String),
    /// Start the exchange of `bundle` for `app`, which waits for the program to end.
    Swap { bundle: String, app: String, mount: String, image: String },
    /// End the program.
    Quit,
    /// Report why the installation failed, after a last call if there is one.
    Fail { reason: String, last: Option<Invocation> },
    /// Nothing.
    Idle,
}

/// What to do next, with texts as characters.
#[verifier::ext_equal]
pub enum InstallStepView {
    Run(InvocationView),
    Look(Seq<char>),
    Swap { bundle: Seq<char>, app: Seq<char>, mount: Seq<char>, image: Seq<char> },
    Quit,
    Fail { reason: Seq<char>, last: Option<InvocationView> },
    Idle,
}

impl View for InstallStep {
    type V = InstallStepView;

    open spec fn view(&self) -> InstallStepView {
        match self {
            InstallStep::Run(i) => InstallStepView::Run(i@),
            InstallStep::Look(p) => InstallStepView::Look(p@),
            InstallStep::Swap { bundle, app, mount, image } => InstallStepView::Swap {
                bundle: bundle@,
                app: app@,
                mount: mount@,
                image: image@,
            },
            InstallStep::Quit => InstallStepView::Quit,
            InstallStep::Fail { reason, last } => InstallStepView::Fail {
                reason: reason@,
                last: opt_invocation(*last),
            },
            InstallStep::Idle => InstallStepView::Idle,
        }
    }
}

/// The disk image, below the folder for temporary files.
pub open spec fn image_path(temp: Seq<char>) -> Seq<char> {
    joined_path(joined_path(temp, "shuffle-update"@), "Shuffle-latest.dmg"@)
}

impl InstallerView {
    /// The application on the mounted disk image.
    pub open spec fn app(self) -> Seq<char> {
        joined_path(self.mount, "Shuffle.app"@)
    }

    /// At another stage.
    pub open spec fn at(self, stage: Stage) -> InstallerView {
        InstallerView { stage, ..self }
    }

    /// Failed before the disk image was mounted.
    pub open spec fn given_up(self, reason: Seq<char>) -> (InstallerView, InstallStepView) {
        (self.at(Stage::Failed), InstallStepView::Fail { reason, last: None })
    }

    /// Failed with the disk image mounted, which is unmounted.
    pub open spec fn backed_out(self, reason: Seq<char>) -> (InstallerView, InstallStepView) {
        (
            self.at(Stage::Failed),
            InstallStepView::Fail { reason, last: Some(detaching(self.mount)) },
        )
    }

    /// After the answer to a step, with what to do next.
    pub open spec fn answered(self, a: AnswerView) -> (InstallerView, InstallStepView) {
        match self.stage {
            Stage::Download => if a.good() {
                (self.at(Stage::Attach), InstallStepView::Run(attaching(self.image)))
            } else {
                self.given_up(fault_text(UpdateFault::Download))
            },
            Stage::Attach => match a.broken {
                Some(e) => self.given_up(e),
                None => if !a.ok {
                    self.given_up(fault_text(UpdateFault::Mount))
                } else {
                    match first_mount(lines_of(a.out)) {
                        None => self.given_up(fault_text(UpdateFault::Volume)),
                        Some(mount) => {
                            let s = InstallerView { mount, ..self };
                            (s.at(Stage::Look), InstallStepView::Look(s.app()))
                        },
                    }
                },
            },
            Stage::Look => if a.good() {
                (self.at(Stage::Signature), InstallStepView::Run(checking_signature(self.app())))
            } else {
                self.backed_out(fault_text(UpdateFault::Contents))
            },
            Stage::Signature => if a.good() {
                (self.at(Stage::Notarization), InstallStepView::Run(checking_notarized(self.app())))
            } else {
                self.backed_out(fault_text(UpdateFault::Signature))
            },
            Stage::Notarization => if a.good() {
                (self.at(Stage::Signer), InstallStepView::Run(signer(self.app())))
            } else {
                self.backed_out(fault_text(UpdateFault::Notarization))
            },
            Stage::Signer => match a.broken {
                Some(e) => self.backed_out(e),
                None => if names_team(a.err) {
                    (
                        self.at(Stage::Swap),
                        InstallStepView::Swap {
                            bundle: self.bundle,
                            app: self.app(),
                            mount: self.mount,
                            image: self.image,
                        },
                    )
                } else {
                    self.backed_out(fault_text(UpdateFault::Developer))
                },
            },
            Stage::Swap => match a.broken {
                Some(e) => self.backed_out(e),
                None => (self.at(Stage::Done), InstallStepView::Quit),
            },
            _ => (self, InstallStepView::Idle),
        }
    }

    /// The beginning: the disk image is to be downloaded, unless the running
    /// application was not found.
    pub open spec fn begun(bundle: Option<Seq<char>>, temp: Seq<char>, url: Seq<char>) -> (
        InstallerView,
        InstallStepView,
    ) {
        let s = InstallerView {
            stage: Stage::Download,
            bundle: match bundle {
                Some(b) => b,
                None => Seq::empty(),
            },
            image: image_path(temp),
            mount: Seq::empty(),
        };
        match bundle {
            None => s.given_up(fault_text(UpdateFault::Bundle)),
            Some(_) => (s, InstallStepView::Run(downloading(s.image, url))),
        }
    }

    /// After a series of answers.
    pub open spec fn after(self, answers: Seq<AnswerView>) -> InstallerView
        decreases answers.len(),
    {
        if answers.len() == 0 {
            self
        } else {
            self.after(answers.drop_last()).answered(answers.last()).0
        }
    }
}

impl Installer {
    /// The application on the mounted disk image.
    fn app(&self) -> (r: String)
        ensures
            r@ == self@.app(),
    {
        join_path(self.mount.as_str(), "Shuffle.app")
    }

    /// Gives up before the disk image is mounted.
    fn give_up(&mut self, reason: &str) -> (r: InstallStep)
        ensures
            (final(self)@, r@) == old(self)@.given_up(reason@),
    {
        self.stage = Stage::Failed;
        InstallStep::Fail { reason: owned(reason), last: None }
    }

    /// Gives up with the disk image mounted.
    fn back_out(&mut self, reason: &str) -> (r: InstallStep)
        ensures
            (final(self)@, r@) == old(self)@.backed_out(reason@),
    {
        self.stage = Stage::Failed;
        InstallStep::Fail {
            reason: owned(reason),
            last: Some(detach_command(self.mount.as_str())),
        }
    }

    /// Begins to install what `url` offers in place of `bundle`, with the disk
    /// image below the folder `temp`.
    pub fn begin(bundle: Option<String>, temp: &str, url: &str) -> (r: (Installer, InstallStep))
        ensures
            (r.0@, r.1@) == InstallerView::begun(opt_text(bundle), temp@, url@),
    {
        let found = bundle.is_some();
        proof {
            reveal_strlit("");
            assert(""@ =~= Seq::<char>::empty());
        }
        let mut s = Installer {
            stage: Stage::Download,
            bundle: match bundle {
                Some(b) => b,
                None => owned(""),
            },
            image: join_path(join_path(temp, "shuffle-update").as_str(), "Shuffle-latest.dmg"),
            mount: owned(""),
        };
        if !found {
            let step = s.give_up(UpdateFault::Bundle.message());
            return (s, step);
        }
        let call = download_command(s.image.as_str(), url);
        (s, InstallStep::Run(call))
    }

    /// Takes the answer to the last step and says what to do next.
    pub fn advance(&mut self, a: &Answer) -> (r: InstallStep)
        ensures
            (final(self)@, r@) == old(self)@.answered(a@),
    {
        let good = a.ok && a.broken.is_none();
        match self.stage {
            Stage::Download => {
                if !good {
                    return self.give_up(UpdateFault::Download.message());
                }
                self.stage = Stage::Attach;
                InstallStep::Run(attach_command(self.image.as_str()))
            },
            Stage::Attach => {
                match &a.broken {
                    Some(e) => {
                        return self.give_up(e.as_str());
                    },
                    None => {},
                }
                match mounted_volume(a.ok, a.out.as_str()) {
                    Err(fault) => self.give_up(fault.message()),
                    Ok(mount) => {
                        self.mount = mount;
                        self.stage = Stage::Look;
                        InstallStep::Look(self.app())
                    },
                }
            },
            Stage::Look => {
                if !good {
                    return self.back_out(UpdateFault::Contents.message());
                }
                self.stage = Stage::Signature;
                InstallStep::Run(check_signature_command(self.app().as_str()))
            },
            Stage::Signature => {
                if !good {
                    return self.back_out(UpdateFault::Signature.message());
                }
                self.stage = Stage::Notarization;
                InstallStep::Run(check_notarized_command(self.app().as_str()))
            },
            Stage::Notarization => {
                if !good {
                    return self.back_out(UpdateFault::Notarization.message());
                }
                self.stage = Stage::Signer;
                InstallStep::Run(signer_command(self.app().as_str()))
            },
            Stage::Signer => {
                match &a.broken {
                    Some(e) => {
                        return self.back_out(e.as_str());
                    },
                    None => {},
                }
                match verify_app(true, true, a.err.as_str()) {
                    Err(fault) => self.back_out(fault.message()),
                    Ok(()) => {
                        self.stage = Stage::Swap;
                        InstallStep::Swap {
                            bundle: self.bundle.clone(),
                            app: self.app(),
                            mount: self.mount.clone(),
                            image: self.image.clone(),
                        }
                    },
                }
            },
            Stage::Swap => {
                match &a.broken {
                    Some(e) => {
                        return self.back_out(e.as_str());
                    },
                    None => {},
                }
                self.stage = Stage::Done;
                InstallStep::Quit
            },
            Stage::Done | Stage::Failed => InstallStep::Idle,
        }
    }
}

/// How many good answers lead to a stage.
spec fn rank(stage: Stage) -> int {
    match stage {
        Stage::Download => 0,
        Stage::Attach => 1,
        Stage::Look => 2,
        Stage::Signature => 3,
        Stage::Notarization => 4,
        Stage::Signer => 5,
        Stage::Swap => 6,
        Stage::Done => 7,
        Stage::Failed => -1,
    }
}

/// Whether the answers say that the application was found where the disk image
/// was mounted, that its signature is valid, that it was notarized, and that the
/// expected team signed it.
pub open spec fn genuine(answers: Seq<AnswerView>, mount: Seq<char>) -> bool {
    &&& answers.len() >= 6
    &&& answers[0].good()
    &&& answers[1].good() && first_mount(lines_of(answers[1].out)) == Some(mount)
    &&& answers[2].good()
    &&& answers[3].good()
    &&& answers[4].good()
    &&& answers[5].broken is None && names_team(answers[5].err)
}

proof fn lemma_answers_so_far(s: InstallerView, answers: Seq<AnswerView>)
    requires
        s.stage == Stage::Download,
    ensures
        ({
            let t = s.after(answers);
            let n = rank(t.stage);
            &&& t.bundle == s.bundle && t.image == s.image
            &&& 0 <= n < 7 ==> answers.len() == n
            &&& n == 7 ==> answers.len() >= 7
            &&& n >= 1 ==> answers[0].good()
            &&& n >= 2 ==> answers[1].good() && first_mount(lines_of(answers[1].out)) == Some(
                t.mount,
            )
            &&& n >= 3 ==> answers[2].good()
            &&& n >= 4 ==> answers[3].good()
            &&& n >= 5 ==> answers[4].good()
            &&& n >= 6 ==> answers[5].broken is None && names_team(answers[5].err)
        }),
    decreases answers.len(),
{
    if answers.len() > 0 {
        lemma_answers_so_far(s, answers.drop_last());
    }
}

/// Whether an exchange, if a step asks for one, is of the application that the
/// answers were given on, for the one that was to be replaced.
pub open spec fn exchanges_genuine(
    s: InstallerView,
    answers: Seq<AnswerView>,
    step: InstallStepView,
) -> bool {
    step matches InstallStepView::Swap { bundle, app, mount, image } ==> {
        &&& genuine(answers, mount)
        &&& app == joined_path(mount, "Shuffle.app"@)
        &&& bundle == s.bundle
        &&& image == s.image
    }
}

/// Only a genuine application is ever put in place of the running one: whatever
/// the answers, the exchange is asked for, of the application that was checked,
/// only after each check was passed.
pub proof fn law_only_genuine_updates_are_installed(
    s: InstallerView,
    answers: Seq<AnswerView>,
    a: AnswerView,
)
    requires
        s.stage == Stage::Download,
    ensures
        exchanges_genuine(s, answers.push(a), s.after(answers).answered(a).1),
        s.after(answers).stage == Stage::Done ==> genuine(answers, s.after(answers).mount),
{
    lemma_answers_so_far(s, answers);
    lemma_answers_so_far(s, answers.push(a));
    assert(answers.push(a).drop_last() =~= answers);
    if s.after(answers).answered(a).1 is Swap {
        assert(s.after(answers.push(a)).stage == Stage::Swap);
    }
}

/// Whether the disk image is mounted at a stage.
pub open spec fn is_mounted_at(stage: Stage) -> bool {
    stage == Stage::Look || stage == Stage::Signature || stage == Stage::Notarization || stage
        == Stage::Signer || stage == Stage::Swap
}

/// Whether a step, if it reports a failure at stage `s`, unmounts what is mounted.
pub open spec fn unmounts(s: InstallerView, step: InstallStepView) -> bool {
    step matches InstallStepView::Fail { reason, last } ==> last == if is_mounted_at(s.stage) {
        Some(detaching(s.mount))
    } else {
        None
    }
}

/// A disk image that was mounted is unmounted again when the installation fails,
/// and a failed installation asks for nothing more.
pub proof fn law_failures_unmount(s: InstallerView, a: AnswerView, b: AnswerView)
    ensures
        unmounts(s, s.answered(a).1),
        s.answered(a).1 is Fail ==> s.answered(a).0.stage == Stage::Failed,
        s.stage == Stage::Failed ==> s.answered(b) == (s, InstallStepView::Idle),
{
}

} // verus!
