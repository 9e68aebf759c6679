//! Finding the program of rust-analyzer or gopls when no environment
//! variable names one: the order in which the places are tried, as a step
//! function.  The caller runs each probe and reports what came of it.

use vstd::prelude::*;

use crate::completion::strs;
use crate::lsp_config::{gopath_entries, gopath_dirs};
use crate::textutil::{trim, trimmed};

verus! {

/// What to do next.
#[derive(Clone, Debug)]
pub enum ProbeAction {
    /// Start the program with these arguments and report whether it started.
    Run(String, Vec<String>),
    /// Run the program with these arguments and report what it printed when
    /// it succeeded.
    Output(String, Vec<String>),
    /// Join the directory with these parts and report the path when a file
    /// is there.
    CheckFile(String, Vec<String>),
    /// The program is found.
    Found(String),
    /// The program was not found; the message says what to do.
    NotFound(String),
}

/// What came of the last probe.
#[derive(Clone, Debug)]
pub enum ProbeEvent {
    /// The program started, or not.
    Started(bool),
    /// What the program printed when it succeeded; `None` when it failed.
    Printed(Option<String>),
    /// The path of the file when it exists.
    FileFound(Option<String>),
}

/// Where the search stands.
#[derive(Clone, Debug)]
pub enum ProbeStage {
    OnPath,
    Rustup,
    GoBin,
    GoBinFile,
    GoPath,
    /// Trying the `bin` directory of entry `usize` of `GOPATH`.
    GoPathFile(Vec<String>, usize),
    Finished,
}

/// A search for the program of rust-analyzer (`gopls` false) or gopls.
#[derive(Clone, Debug)]
pub struct Probe {
    pub gopls: bool,
    pub stage: ProbeStage,
}

/// An action, abstractly.
pub enum ActionModel {
    Run(Seq<char>, Seq<Seq<char>>),
    Output(Seq<char>, Seq<Seq<char>>),
    CheckFile(Seq<char>, Seq<Seq<char>>),
    Found(Seq<char>),
    NotFound(Seq<char>),
}

/// An event, abstractly.
pub enum EventModel {
    Started(bool),
    Printed(Option<Seq<char>>),
    FileFound(Option<Seq<char>>),
}

/// A stage, abstractly.
pub enum StageModel {
    OnPath,
    Rustup,
    GoBin,
    GoBinFile,
    GoPath,
    GoPathFile(Seq<Seq<char>>, int),
    Finished,
}

pub open spec fn opt_view(s: Option<String>) -> Option<Seq<char>> {
    match s {
        Some(x) => Some(x@),
        None => None,
    }
}

pub open spec fn action_view(a: ProbeAction) -> ActionModel {
    match a {
        ProbeAction::Run(p, args) => ActionModel::Run(p@, strs(args@)),
        ProbeAction::Output(p, args) => ActionModel::Output(p@, strs(args@)),
        ProbeAction::CheckFile(d, parts) => ActionModel::CheckFile(d@, strs(parts@)),
        ProbeAction::Found(p) => ActionModel::Found(p@),
        ProbeAction::NotFound(m) => ActionModel::NotFound(m@),
    }
}

pub open spec fn probe_event_view(e: ProbeEvent) -> EventModel {
    match e {
        ProbeEvent::Started(b) => EventModel::Started(b),
        ProbeEvent::Printed(t) => EventModel::Printed(opt_view(t)),
        ProbeEvent::FileFound(p) => EventModel::FileFound(opt_view(p)),
    }
}

pub open spec fn stage_view(s: ProbeStage) -> StageModel {
    match s {
        ProbeStage::OnPath => StageModel::OnPath,
        ProbeStage::Rustup => StageModel::Rustup,
        ProbeStage::GoBin => StageModel::GoBin,
        ProbeStage::GoBinFile => StageModel::GoBinFile,
        ProbeStage::GoPath => StageModel::GoPath,
        ProbeStage::GoPathFile(ds, i) => StageModel::GoPathFile(strs(ds@), i as int),
        ProbeStage::Finished => StageModel::Finished,
    }
}

/// The message when rust-analyzer is not found.
pub open spec fn ra_missing() -> Seq<char> {
    "rust-analyzer not found. Please run rustup component add rust-analyzer or brew install rust-analyzer"@
}

/// The message when gopls is not found.
pub open spec fn gopls_missing() -> Seq<char> {
    "gopls not found. Please set GOPLS/GOPLS_PATH or add GOPATH/bin to PATH"@
}

/// The message when the program is not found.
pub open spec fn missing(gopls: bool) -> Seq<char> {
    if gopls {
        gopls_missing()
    } else {
        ra_missing()
    }
}

/// The first step: the program named by the environment, else try the
/// program on the path (`rust-analyzer --version`, `gopls version`).
pub open spec fn probe_begin(gopls: bool, env: Option<Seq<char>>) -> (StageModel, ActionModel) {
    match env {
        Some(p) => (StageModel::Finished, ActionModel::Found(p)),
        None => (
            StageModel::OnPath,
            if gopls {
                ActionModel::Run("gopls"@, seq!["version"@])
            } else {
                ActionModel::Run("rust-analyzer"@, seq!["--version"@])
            },
        ),
    }
}

/// Asking `go env GOPATH`.
pub open spec fn ask_gopath() -> (StageModel, ActionModel) {
    (StageModel::GoPath, ActionModel::Output("go"@, seq!["env"@, "GOPATH"@]))
}

/// Trying the `bin/gopls` of entry `i` of the `GOPATH` entries `ds`, or
/// giving up after the last.
pub open spec fn try_gopath_dir(ds: Seq<Seq<char>>, i: int) -> (StageModel, ActionModel) {
    if 0 <= i < ds.len() {
        (StageModel::GoPathFile(ds, i), ActionModel::CheckFile(ds[i], seq!["bin"@, "gopls"@]))
    } else {
        (StageModel::Finished, ActionModel::NotFound(gopls_missing()))
    }
}

/// The next step after `e`: rust-analyzer is the program on the path, else
/// what `rustup which rust-analyzer` prints; gopls is the program on the
/// path, else `gopls` in `go env GOBIN`, else `bin/gopls` in each entry of
/// `go env GOPATH`, in order.  Printed text counts without surrounding
/// whitespace, and blank text as nothing.
pub open spec fn probe_next(gopls: bool, s: StageModel, e: EventModel) -> (StageModel, ActionModel) {
    match s {
        StageModel::OnPath => match e {
            EventModel::Started(true) => (
                StageModel::Finished,
                ActionModel::Found(
                    if gopls {
                        "gopls"@
                    } else {
                        "rust-analyzer"@
                    },
                ),
            ),
            _ => if gopls {
                (StageModel::GoBin, ActionModel::Output("go"@, seq!["env"@, "GOBIN"@]))
            } else {
                (StageModel::Rustup, ActionModel::Output("rustup"@, seq!["which"@, "rust-analyzer"@]))
            },
        },
        StageModel::Rustup => match e {
            EventModel::Printed(Some(t)) => if trimmed(t).len() > 0 {
                (StageModel::Finished, ActionModel::Found(trimmed(t)))
            } else {
                (StageModel::Finished, ActionModel::NotFound(ra_missing()))
            },
            _ => (StageModel::Finished, ActionModel::NotFound(ra_missing())),
        },
        StageModel::GoBin => match e {
            EventModel::Printed(Some(t)) => if trimmed(t).len() > 0 {
                (StageModel::GoBinFile, ActionModel::CheckFile(trimmed(t), seq!["gopls"@]))
            } else {
                ask_gopath()
            },
            _ => ask_gopath(),
        },
        StageModel::GoBinFile => match e {
            EventModel::FileFound(Some(p)) => (StageModel::Finished, ActionModel::Found(p)),
            _ => ask_gopath(),
        },
        StageModel::GoPath => match e {
            EventModel::Printed(Some(t)) => try_gopath_dir(gopath_entries(t), 0),
            _ => (StageModel::Finished, ActionModel::NotFound(gopls_missing())),
        },
        StageModel::GoPathFile(ds, i) => match e {
            EventModel::FileFound(Some(p)) => (StageModel::Finished, ActionModel::Found(p)),
            _ => try_gopath_dir(ds, i + 1),
        },
        StageModel::Finished => (StageModel::Finished, ActionModel::NotFound(missing(gopls))),
    }
}

fn owned_all(v: Vec<&str>) -> (res: Vec<String>)
    ensures
        strs(res@) == v@.map_values(|s: &str| s@),
{
    let mut out: Vec<String> = Vec::new();
    let mut i: usize = 0;
    while i < v.len()
        invariant
            i <= v@.len(),
            strs(out@) == v@.take(i as int).map_values(|s: &str| s@),
        decreases v@.len() - i,
    {
        let ghost before = out@;
        let o = v[i].to_owned();
        out.push(o);
        proof {
            assert(o@ == v@[i as int]@);
            assert(strs(out@) =~= strs(before).push(o@));
            assert(v@.take(i + 1) =~= v@.take(i as int).push(v@[i as int]));
            assert(strs(out@) =~= v@.take(i + 1).map_values(|s: &str| s@));
        }
        i = i + 1;
    }
    proof {
        assert(v@.take(v@.len() as int) =~= v@);
    }
    out
}

fn args2(a: &str, b: &str) -> (res: Vec<String>)
    ensures
        strs(res@) == seq![a@, b@],
{
    let v = owned_all(vec![a, b]);
    proof {
        assert(seq![a, b].map_values(|s: &str| s@) =~= seq![a@, b@]);
    }
    v
}

fn args1(a: &str) -> (res: Vec<String>)
    ensures
        strs(res@) == seq![a@],
{
    let v = owned_all(vec![a]);
    proof {
        assert(seq![a].map_values(|s: &str| s@) =~= seq![a@]);
    }
    v
}

/// Gives up: the message says what to install.
fn not_found(gopls: bool) -> (res: ProbeAction)
    ensures
        action_view(res) == ActionModel::NotFound(missing(gopls)),
{
    if gopls {
        ProbeAction::NotFound(
            "gopls not found. Please set GOPLS/GOPLS_PATH or add GOPATH/bin to PATH".to_owned(),
        )
    } else {
        ProbeAction::NotFound(
            "rust-analyzer not found. Please run rustup component add rust-analyzer or brew install rust-analyzer".to_owned(),
        )
    }
}

fn gopath_dir_step(ds: Vec<String>, i: usize) -> (res: (ProbeStage, ProbeAction))
    ensures
        (stage_view(res.0), action_view(res.1)) == try_gopath_dir(strs(ds@), i as int),
{
    if i < ds.len() {
        let d = ds[i].clone();
        (ProbeStage::GoPathFile(ds, i), ProbeAction::CheckFile(d, args2("bin", "gopls")))
    } else {
        (ProbeStage::Finished, not_found(true))
    }
}

/// Starts the search, given the program that the environment names, if any.
pub fn probe_start(gopls: bool, env_program: Option<String>) -> (res: (Probe, ProbeAction))
    ensures
        res.0.gopls == gopls,
        (stage_view(res.0.stage), action_view(res.1)) == probe_begin(gopls, opt_view(env_program)),
{
    match env_program {
        Some(p) => (Probe { gopls, stage: ProbeStage::Finished }, ProbeAction::Found(p)),
        None => {
            let a = if gopls {
                ProbeAction::Run("gopls".to_owned(), args1("version"))
            } else {
                ProbeAction::Run("rust-analyzer".to_owned(), args1("--version"))
            };
            (Probe { gopls, stage: ProbeStage::OnPath }, a)
        },
    }
}

impl Probe {
    /// The next step, after what came of the last probe.
    pub fn step(&mut self, event: ProbeEvent) -> (res: ProbeAction)
        ensures
            final(self).gopls == old(self).gopls,
            (stage_view(final(self).stage), action_view(res)) == probe_next(
                old(self).gopls,
                stage_view(old(self).stage),
                probe_event_view(event),
            ),
    {
        let gopls = self.gopls;
        let mut stage = ProbeStage::Finished;
        std::mem::swap(&mut stage, &mut self.stage);
        let (s, a) = match stage {
            ProbeStage::OnPath => match event {
                ProbeEvent::Started(true) => (
                    ProbeStage::Finished,
                    ProbeAction::Found(
                        if gopls {
                            "gopls".to_owned()
                        } else {
                            "rust-analyzer".to_owned()
                        },
                    ),
                ),
                _ => if gopls {
                    (ProbeStage::GoBin, ProbeAction::Output("go".to_owned(), args2("env", "GOBIN")))
                } else {
                    (ProbeStage::Rustup, ProbeAction::Output("rustup".to_owned(), args2("which", "rust-analyzer")))
                },
            },
            ProbeStage::Rustup => match event {
                ProbeEvent::Printed(Some(t)) => {
                    let p = trim(t.as_str());
                    if p.as_str().is_empty() {
                        (ProbeStage::Finished, not_found(false))
                    } else {
                        (ProbeStage::Finished, ProbeAction::Found(p))
                    }
                },
                _ => (ProbeStage::Finished, not_found(false)),
            },
            ProbeStage::GoBin => match event {
                ProbeEvent::Printed(Some(t)) => {
                    let p = trim(t.as_str());
                    if p.as_str().is_empty() {
                        (ProbeStage::GoPath, ProbeAction::Output("go".to_owned(), args2("env", "GOPATH")))
                    } else {
                        (ProbeStage::GoBinFile, ProbeAction::CheckFile(p, args1("gopls")))
                    }
                },
                _ => (ProbeStage::GoPath, ProbeAction::Output("go".to_owned(), args2("env", "GOPATH"))),
            },
            ProbeStage::GoBinFile => match event {
                ProbeEvent::FileFound(Some(p)) => (ProbeStage::Finished, ProbeAction::Found(p)),
                _ => (ProbeStage::GoPath, ProbeAction::Output("go".to_owned(), args2("env", "GOPATH"))),
            },
            ProbeStage::GoPath => match event {
                ProbeEvent::Printed(Some(t)) => {
                    let ds = gopath_dirs(t.as_str());
                    gopath_dir_step(ds, 0)
                },
                _ => (ProbeStage::Finished, not_found(true)),
            },
            ProbeStage::GoPathFile(ds, i) => match event {
                ProbeEvent::FileFound(Some(p)) => (ProbeStage::Finished, ProbeAction::Found(p)),
                _ => {
                    if i < ds.len() {
                        gopath_dir_step(ds, i + 1)
                    } else {
                        (ProbeStage::Finished, not_found(true))
                    }
                },
            },
            ProbeStage::Finished => (ProbeStage::Finished, not_found(gopls)),
        };
        self.stage = s;
        a
    }
}

/// A file that a probe asked about and that exists ends the search with
/// that file: after any step that asks to check a file, reporting the file
/// found gives `Found` of it, and nothing is asked after.
pub proof fn lemma_file_found_ends(gopls: bool, s: StageModel, e: EventModel, p: Seq<char>)
    ensures
        probe_next(gopls, s, e).1 is CheckFile ==> probe_next(
            gopls,
            probe_next(gopls, s, e).0,
            EventModel::FileFound(Some(p)),
        ) == (StageModel::Finished, ActionModel::Found(p)),
{
}

/// A program that a probe reports as started, or as printed by rustup,
/// is the one found: rust-analyzer or gopls on the path ends the search
/// with that name, and rustup's answer ends it with the printed path.
pub proof fn lemma_probe_found(gopls: bool, t: Seq<char>)
    ensures
        probe_next(gopls, probe_begin(gopls, None).0, EventModel::Started(true)) == (
            StageModel::Finished,
            ActionModel::Found(
                if gopls {
                    "gopls"@
                } else {
                    "rust-analyzer"@
                },
            ),
        ),
        trimmed(t).len() > 0 ==> probe_next(false, StageModel::Rustup, EventModel::Printed(Some(t))) == (
            StageModel::Finished,
            ActionModel::Found(trimmed(t)),
        ),
{
}

/// Once found, the search is finished: every `Found` comes with the
/// finished stage.
pub proof fn lemma_found_finishes(gopls: bool, s: StageModel, e: EventModel)
    ensures
        probe_next(gopls, s, e).1 is Found ==> probe_next(gopls, s, e).0 is Finished,
{
}

} // verus!
