//! The command bar: its scrollback, the commands it handles itself, and
//! completion.

use crate::palette::{names_view, up_to};
use crate::paths::{
    common_start, label_of, longest_common_prefix, path_label, resolve_dir, resolved_dir,
};
use crate::tabs::slice_texts;
use crate::text::{
    after_last, chars_of, concat, find_last, join, joined, lowercase, owned, piece, same,
    starts_with, texts, trim, trimmed, utf8_len, utf8_size,
};
use vstd::prelude::*;

verus! {

/// The most lines of scrollback that are kept.
pub const SCROLLBACK: usize = 400;

/// The command bar.
pub struct Terminal {
    pub input: String,
    pub output: Vec<String>,
    pub focused: bool,
}

/// The mathematical value of the command bar.
#[verifier::ext_equal]
pub struct TermView {
    pub input: Seq<char>,
    pub output: Seq<Seq<char>>,
    pub focused: bool,
}

impl View for Terminal {
    type V = TermView;

    open spec fn view(&self) -> TermView {
        TermView { input: self.input@, output: texts(self.output@), focused: self.focused }
    }
}

/// The last `n` of `s`, or all of it.
pub open spec fn last_of<T>(s: Seq<T>, n: int) -> Seq<T> {
    if s.len() > n {
        s.skip(s.len() - n)
    } else {
        s
    }
}

/// What a command asks for.
pub enum TermStep {
    /// Nothing: the input was blank.
    Idle,
    /// The scrollback was cleared.
    Cleared,
    /// Going to `target`, which was typed as `arg`.
    Cd { target: String, arg: String },
    /// Running a command in a shell.
    Run { command: String },
}

/// What a command asks for, with texts as characters.
#[verifier::ext_equal]
pub enum StepView {
    Idle,
    Cleared,
    Cd { target: Seq<char>, arg: Seq<char> },
    Run { command: Seq<char> },
}

impl View for TermStep {
    type V = StepView;

    open spec fn view(&self) -> StepView {
        match self {
            TermStep::Idle => StepView::Idle,
            TermStep::Cleared => StepView::Cleared,
            TermStep::Cd { target, arg } => StepView::Cd { target: target@, arg: arg@ },
            TermStep::Run { command } => StepView::Run { command: command@ },
        }
    }
}

/// Whether a command is `cd`, with or without an argument.
pub open spec fn is_cd(cmd: Seq<char>) -> bool {
    cmd == "cd"@ || "cd "@.is_prefix_of(cmd)
}

/// The line that echoes a command.
pub open spec fn echo_line(cwd: Seq<char>, cmd: Seq<char>) -> Seq<char> {
    label_of(cwd) + " ❯ "@ + cmd
}

/// The commands that completion knows.
pub open spec fn known_commands() -> Seq<Seq<char>> {
    seq![
        "cd"@,
        "ls"@,
        "clear"@,
        "mkdir"@,
        "rm"@,
        "cp"@,
        "mv"@,
        "open"@,
        "cat"@,
        "grep"@,
        "git"@,
    ]
}

/// The input up to and including its last blank, and what stands behind it.
pub open spec fn token_split(input: Seq<char>) -> (Seq<char>, Seq<char>) {
    let j = after_last(input, ' ') as int;
    (input.take(j), input.skip(j))
}

/// The folder that the last token names a thing in.
pub open spec fn token_base(cwd: Seq<char>, last: Seq<char>, home: Seq<char>) -> Seq<char> {
    let j = after_last(last, '/') as int;
    if j > 0 {
        resolved_dir(cwd, last.take(j), home)
    } else {
        cwd
    }
}

/// The names that begin with `partial`, case aside.
pub open spec fn names_beginning(names: Seq<(Seq<char>, bool)>, partial: Seq<char>) -> Seq<
    (Seq<char>, bool),
>
    decreases names.len(),
{
    if names.len() == 0 {
        Seq::empty()
    } else {
        let head = names_beginning(names.drop_last(), partial);
        if lowercase(partial).is_prefix_of(lowercase(names.last().0)) {
            head.push(names.last())
        } else {
            head
        }
    }
}

/// The commands that begin with `partial`.
pub open spec fn commands_beginning(cmds: Seq<Seq<char>>, partial: Seq<char>) -> Seq<
    (Seq<char>, bool),
>
    decreases cmds.len(),
{
    if cmds.len() == 0 {
        Seq::empty()
    } else {
        let head = commands_beginning(cmds.drop_last(), partial);
        if partial.is_prefix_of(cmds.last()) {
            head.push((cmds.last(), false))
        } else {
            head
        }
    }
}

/// What the last token can be completed to: names of the folder, and commands if
/// it is the first token and names no folder.
pub open spec fn candidates(input: Seq<char>, names: Seq<(Seq<char>, bool)>) -> Seq<
    (Seq<char>, bool),
> {
    let (prefix, last) = token_split(input);
    let j = after_last(last, '/') as int;
    names_beginning(names, last.skip(j)) + (if prefix.len() == 0 && j == 0 {
        commands_beginning(known_commands(), last)
    } else {
        Seq::empty()
    })
}

/// The names of candidates.
pub open spec fn just_names(c: Seq<(Seq<char>, bool)>) -> Seq<Seq<char>> {
    c.map_values(|n: (Seq<char>, bool)| n.0)
}

impl TermView {
    /// With a line behind the scrollback, of which the last 400 lines stay.
    pub open spec fn printing(self, line: Seq<char>) -> TermView {
        TermView { output: last_of(self.output.push(line), SCROLLBACK as int), ..self }
    }

    /// With several lines behind the scrollback.
    pub open spec fn printing_all(self, ls: Seq<Seq<char>>) -> TermView
        decreases ls.len(),
    {
        if ls.len() == 0 {
            self
        } else {
            self.printing_all(ls.drop_last()).printing(ls.last())
        }
    }

    /// After the input is sent: it is echoed, and what it asks for.
    pub open spec fn sent(self, cwd: Seq<char>, home: Seq<char>) -> (TermView, StepView) {
        let cmd = trimmed(self.input);
        let cleared = TermView { input: Seq::empty(), ..self };
        if cmd.len() == 0 {
            (cleared, StepView::Idle)
        } else {
            let echoed = cleared.printing(echo_line(cwd, cmd));
            if cmd == "clear"@ {
                (TermView { output: Seq::empty(), ..echoed }, StepView::Cleared)
            } else if is_cd(cmd) {
                let arg = trimmed(cmd.skip(2));
                (echoed, StepView::Cd { target: resolved_dir(cwd, arg, home), arg })
            } else {
                (echoed, StepView::Run { command: cmd })
            }
        }
    }

    /// After completion with the names of the folder in question: one candidate
    /// is filled in, several are filled in as far as they agree and listed.
    pub open spec fn completed(self, names: Seq<(Seq<char>, bool)>) -> TermView {
        let (prefix, last) = token_split(self.input);
        let j = after_last(last, '/') as int;
        let kept = prefix + last.take(j);
        let c = candidates(self.input, names);
        if c.len() == 0 {
            self
        } else if c.len() == 1 {
            TermView {
                input: kept + c[0].0 + (if c[0].1 {
                    "/"@
                } else {
                    Seq::empty()
                }),
                ..self
            }
        } else {
            let common = common_start(just_names(c));
            TermView {
                input: if utf8_size(common) > utf8_size(last.skip(j)) {
                    kept + common
                } else {
                    self.input
                },
                ..self
            }.printing(joined(up_to(just_names(c), 40), "    "@))
        }
    }
}

/// The scrollback never grows beyond its cap, and the newest line is its last.
pub proof fn law_scrollback_is_bounded(t: TermView, line: Seq<char>)
    ensures
        t.printing(line).output.len() <= SCROLLBACK,
        t.printing(line).output.last() == line,
{
}

impl Terminal {
    /// An empty command bar.
    pub fn new() -> (r: Terminal)
        ensures
            r@ == (TermView { input: Seq::empty(), output: Seq::empty(), focused: false }),
    {
        let r = Terminal { input: String::new(), output: Vec::new(), focused: false };
        proof {
            assert(r@.output =~= Seq::<Seq<char>>::empty());
        }
        r
    }

    /// Prints a line.
    pub fn term_push(&mut self, line: &str)
        ensures
            final(self)@ == old(self)@.printing(line@),
    {
        self.output.push(owned(line));
        proof {
            assert(texts(self.output@) =~= old(self)@.output.push(line@));
        }
        let n: usize = self.output.len();
        if n > SCROLLBACK {
            let t = slice_texts(&self.output, n - SCROLLBACK, n);
            proof {
                assert(texts(t@) =~= texts(self.output@).skip(n - SCROLLBACK));
            }
            self.output = t;
        }
    }

    /// Prints lines, such as what a command wrote.
    pub fn term_push_all(&mut self, ls: &Vec<String>)
        ensures
            final(self)@ == old(self)@.printing_all(texts(ls@)),
    {
        let mut i: usize = 0;
        proof {
            assert(texts(ls@).take(0) =~= Seq::<Seq<char>>::empty());
        }
        while i < ls.len()
            invariant
                i <= ls.len(),
                self@ == old(self)@.printing_all(texts(ls@).take(i as int)),
            decreases ls.len() - i,
        {
            proof {
                let t = texts(ls@);
                assert(t.take(i + 1).drop_last() =~= t.take(i as int));
                assert(t.take(i + 1).last() == ls@[i as int]@);
            }
            self.term_push(ls[i].as_str());
            i += 1;
        }
        proof {
            assert(texts(ls@).take(i as int) =~= texts(ls@));
        }
    }

    /// Sends the input; says what it asks for.
    pub fn run_term_command(&mut self, cwd: &str, home: &str) -> (r: TermStep)
        ensures
            (final(self)@, r@) == old(self)@.sent(cwd@, home@),
    {
        let cmd = trim(self.input.as_str());
        self.input = String::new();
        if cmd.as_str().is_empty() {
            proof {
                assert(self@.input =~= Seq::<char>::empty());
            }
            return TermStep::Idle;
        }
        let mut line = path_label(cwd);
        line.append(" ❯ ");
        line.append(cmd.as_str());
        self.term_push(line.as_str());
        if same(cmd.as_str(), "clear") {
            self.output = Vec::new();
            proof {
                assert(texts(self.output@) =~= Seq::<Seq<char>>::empty());
            }
            return TermStep::Cleared;
        }
        if same(cmd.as_str(), "cd") || starts_with(cmd.as_str(), "cd ") {
            proof {
                reveal_strlit("cd");
                reveal_strlit("cd ");
            }
            let cs = chars_of(cmd.as_str());
            let rest = piece(&cs, 2, cs.len());
            proof {
                assert(rest@ =~= cmd@.skip(2));
            }
            let arg = trim(rest.as_str());
            let target = resolve_dir(cwd, arg.as_str(), home);
            return TermStep::Cd { target, arg };
        }
        TermStep::Run { command: cmd }
    }

    /// Says that there is no such folder to go to.
    pub fn cd_failed(&mut self, arg: &str)
        ensures
            final(self)@ == old(self)@.printing("cd: no such directory: "@ + arg@),
    {
        let line = concat("cd: no such directory: ", arg);
        self.term_push(line.as_str());
    }

    /// The folder whose names completion needs.
    pub fn completion_base(&self, cwd: &str, home: &str) -> (r: String)
        ensures
            r@ == token_base(cwd@, token_split(self@.input).1, home@),
    {
        let cs = chars_of(self.input.as_str());
        let j = find_last(&cs, ' ');
        let last = piece(&cs, j, cs.len());
        proof {
            assert(last@ =~= self@.input.skip(j as int));
        }
        let ls = chars_of(last.as_str());
        let k = find_last(&ls, '/');
        if k > 0 {
            let d = piece(&ls, 0, k);
            proof {
                assert(d@ =~= last@.take(k as int));
            }
            resolve_dir(cwd, d.as_str(), home)
        } else {
            owned(cwd)
        }
    }

    /// Completes the last token with the names of the folder in question; says
    /// whether anything changed.
    pub fn term_autocomplete(&mut self, names: &Vec<(String, bool)>) -> (r: bool)
        ensures
            final(self)@ == old(self)@.completed(names_view(names@)),
            r == (candidates(old(self)@.input, names_view(names@)).len() > 0),
    {
        let cs = chars_of(self.input.as_str());
        let j = find_last(&cs, ' ');
        let prefix = piece(&cs, 0, j);
        let last = piece(&cs, j, cs.len());
        let ls = chars_of(last.as_str());
        let k = find_last(&ls, '/');
        let base = piece(&ls, 0, k);
        let partial = piece(&ls, k, ls.len());
        proof {
            assert(prefix@ =~= self@.input.take(j as int));
            assert(last@ =~= self@.input.skip(j as int));
            assert(base@ =~= last@.take(k as int));
            assert(partial@ =~= last@.skip(k as int));
        }
        let mut cands = names_starting(names, partial.as_str());
        if j == 0 && k == 0 {
            let mut more = commands_starting(last.as_str());
            let ghost a = names_view(cands@);
            let ghost b = names_view(more@);
            cands.append(&mut more);
            proof {
                assert(names_view(cands@) =~= a + b);
            }
        } else {
            proof {
                assert(names_view(cands@) =~= names_view(cands@) + Seq::<
                    (Seq<char>, bool),
                >::empty());
            }
        }
        let ghost c = candidates(self@.input, names_view(names@));
        proof {
            assert(names_view(cands@) == c);
            assert(cands@.len() == c.len());
        }
        if cands.len() == 0 {
            return false;
        }
        let kept = concat(prefix.as_str(), base.as_str());
        if cands.len() == 1 {
            let mut text = concat(kept.as_str(), cands[0].0.as_str());
            proof {
                assert(c[0] == (cands@[0].0@, cands@[0].1));
            }
            if cands[0].1 {
                text.append("/");
            } else {
                proof {
                    assert(text@ =~= kept@ + c[0].0 + Seq::<char>::empty());
                }
            }
            self.input = text;
            return true;
        }
        let list = candidate_names(&cands);
        let common = longest_common_prefix(&list);
        if utf8_len(common.as_str()) > utf8_len(partial.as_str()) {
            self.input = concat(kept.as_str(), common.as_str());
        }
        let n: usize = if list.len() > 40 {
            40
        } else {
            list.len()
        };
        let few = slice_texts(&list, 0, n);
        proof {
            assert(texts(few@) =~= up_to(just_names(c), 40));
        }
        let line = join(&few, "    ");
        self.term_push(line.as_str());
        true
    }
}

fn names_starting(names: &Vec<(String, bool)>, partial: &str) -> (r: Vec<(String, bool)>)
    ensures
        names_view(r@) == names_beginning(names_view(names@), partial@),
{
    let low = partial.to_lowercase();
    let mut out: Vec<(String, bool)> = Vec::new();
    let mut i: usize = 0;
    while i < names.len()
        invariant
            i <= names.len(),
            low@ == lowercase(partial@),
            names_view(out@) == names_beginning(names_view(names@).take(i as int), partial@),
        decreases names.len() - i,
    {
        proof {
            let t = names_view(names@);
            assert(t.take(i + 1).drop_last() =~= t.take(i as int));
            assert(t.take(i + 1).last() == (names@[i as int].0@, names@[i as int].1));
        }
        if starts_with(names[i].0.to_lowercase().as_str(), low.as_str()) {
            let c = (names[i].0.clone(), names[i].1);
            proof {
                assert(names_view(out@.push(c)) =~= names_view(out@).push((c.0@, c.1)));
            }
            out.push(c);
        }
        i += 1;
    }
    proof {
        assert(names_view(names@).take(i as int) =~= names_view(names@));
    }
    out
}

fn command_list() -> (r: Vec<String>)
    ensures
        texts(r@) == known_commands(),
{
    let mut v: Vec<String> = Vec::new();
    v.push(owned("cd"));
    v.push(owned("ls"));
    v.push(owned("clear"));
    v.push(owned("mkdir"));
    v.push(owned("rm"));
    v.push(owned("cp"));
    v.push(owned("mv"));
    v.push(owned("open"));
    v.push(owned("cat"));
    v.push(owned("grep"));
    v.push(owned("git"));
    proof {
        assert(texts(v@) =~= known_commands());
    }
    v
}

fn commands_starting(partial: &str) -> (r: Vec<(String, bool)>)
    ensures
        names_view(r@) == commands_beginning(known_commands(), partial@),
{
    let cmds = command_list();
    let mut out: Vec<(String, bool)> = Vec::new();
    let mut i: usize = 0;
    while i < cmds.len()
        invariant
            i <= cmds.len(),
            texts(cmds@) == known_commands(),
            names_view(out@) == commands_beginning(texts(cmds@).take(i as int), partial@),
        decreases cmds.len() - i,
    {
        proof {
            let t = texts(cmds@);
            assert(t.take(i + 1).drop_last() =~= t.take(i as int));
            assert(t.take(i + 1).last() == cmds@[i as int]@);
        }
        if starts_with(cmds[i].as_str(), partial) {
            let c = (cmds[i].clone(), false);
            proof {
                assert(names_view(out@.push(c)) =~= names_view(out@).push((c.0@, c.1)));
            }
            out.push(c);
        }
        i += 1;
    }
    proof {
        assert(texts(cmds@).take(i as int) =~= texts(cmds@));
    }
    out
}

fn candidate_names(c: &Vec<(String, bool)>) -> (r: Vec<String>)
    ensures
        texts(r@) == just_names(names_view(c@)),
{
    let mut out: Vec<String> = Vec::new();
    let mut i: usize = 0;
    let ghost want = just_names(names_view(c@));
    while i < c.len()
        invariant
            i <= c.len(),
            want == just_names(names_view(c@)),
            texts(out@) == want.take(i as int),
        decreases c.len() - i,
    {
        let n = c[i].0.clone();
        proof {
            assert(texts(out@.push(n)) =~= texts(out@).push(n@));
            assert(want.take(i + 1) =~= want.take(i as int).push(n@));
        }
        out.push(n);
        i += 1;
    }
    proof {
        assert(want.take(i as int) =~= want);
    }
    out
}

} // verus!
