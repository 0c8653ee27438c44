//! Launch after install: the program a package asks the wizard to offer on
//! its completion page, started when the person presses Finish with the box
//! checked.
//!
//! It is deliberately not a custom action. An action is part of a
//! transaction, runs hidden and bounded under the run's own token, and can
//! fail the run; the launch happens after the transaction has committed, is
//! shown, is not waited for, runs as the signed-in user whatever token the
//! wizard holds, and can never change what the run reports as its result.

use vstd::prelude::*;

use crate::action::launch;
use crate::machine::Machine;
use crate::metadata::Launch;
use crate::plan::target;
use crate::report::documents::LaunchInfo;
use crate::text;

verus! {

/// How long the completion page stays up for the program's window before it
/// closes without one, in seconds.
pub const WINDOW_WITHIN: u64 = 15;

/// A declaration resolved for one installation.
#[derive(Debug, PartialEq, Eq)]
pub struct Target {
    pub program: String,
    pub arguments: Vec<String>,
    pub working_directory: String,
}

/// What a [`Target`] says.
#[verifier::ext_equal]
pub struct TargetView {
    pub program: Seq<char>,
    pub arguments: Seq<Seq<char>>,
    pub working_directory: Seq<char>,
}

impl View for Target {
    type V = TargetView;

    open spec fn view(&self) -> TargetView {
        TargetView {
            program: self.program@,
            arguments: text::views(self.arguments@),
            working_directory: self.working_directory@,
        }
    }
}

/// What a declaration names for an installation.
pub open spec fn resolved(
    launch: Launch,
    install_root: Seq<char>,
    version: Seq<char>,
    machine: Machine,
) -> TargetView {
    let program = target::joined(install_root, target::relative(launch.executable@));
    TargetView {
        program,
        arguments: launch::expansions(launch.arguments@, install_root, version, machine),
        working_directory: match launch.working_directory {
            None => match target::parent_folder(program) {
                Some(folder) => folder,
                None => install_root,
            },
            Some(directory) => if directory@.len() == 0 {
                install_root
            } else {
                target::joined(install_root, target::relative(directory@))
            },
        },
    }
}

/// The program, arguments and working directory `launch` names for the
/// installation at `install_root` of `version`: the program and an explicit
/// working directory are install-relative, the working directory defaults to
/// the program's own, and every argument expands `%INSTALLROOT%`, `%VERSION%`
/// and the known folders exactly as an action's does — the same text reaches
/// the program as one argument, whatever it contains.
pub fn target(launch: &Launch, install_root: &str, version: &str, machine: &Machine) -> (r: Target)
    ensures
        r@ == resolved(*launch, install_root@, version@, *machine),
{
    let executable = target::to_relative(launch.executable.as_str());
    let program = target::join(install_root, executable.as_str());
    let working_directory = match &launch.working_directory {
        None => match target::parent_folder_of(program.as_str()) {
            Some(folder) => folder,
            None => text::owned(install_root),
        },
        Some(directory) => {
            if directory.as_str().is_empty() {
                text::owned(install_root)
            } else {
                let directory = target::to_relative(directory.as_str());
                target::join(install_root, directory.as_str())
            }
        },
    };
    Target {
        program,
        arguments: launch::expand_all(&launch.arguments, install_root, version, machine),
        working_directory,
    }
}

/// How starting the program ended.
#[derive(Debug, PartialEq, Eq)]
pub enum Started {
    /// It runs, started with `method`, as the process `pid` where it was
    /// seen.
    Running { method: &'static str, pid: Option<u32> },
    /// Starting it was attempted and failed.
    Failed(String),
    /// No non-elevated context exists, so nothing was attempted.
    Unavailable(String),
}

/// Whether an info names the program of a target.
pub open spec fn names(info: LaunchInfo, target: TargetView) -> bool {
    info.program@ == target.program && text::views(info.arguments@) == target.arguments
        && info.working_directory@ == target.working_directory && info.foreground is None
}

impl Target {
    fn info(&self, status: &'static str) -> (r: LaunchInfo)
        ensures
            r.status == status,
            names(r, self@),
            r.code is None,
            r.method is None,
            r.pid is None,
            r.message is None,
    {
        LaunchInfo {
            status,
            code: None,
            program: self.program.clone(),
            arguments: text::copy_list(&self.arguments),
            working_directory: self.working_directory.clone(),
            method: None,
            pid: None,
            foreground: None,
            message: None,
        }
    }

    /// What the outcome says when the person cleared the check box.
    pub fn declined(&self) -> (r: LaunchInfo)
        ensures
            r.status@ == "declined"@,
            names(r, self@),
            r.code is None,
            r.method is None,
            r.pid is None,
            r.message is None,
    {
        self.info("declined")
    }

    /// What the outcome says once starting the program as the signed-in user
    /// has been tried. A start that was attempted and failed is `failed`; one
    /// for which no non-elevated context exists is `unavailable` and never
    /// attempted with this process's own token.
    pub fn start(&self, started: Started) -> (r: LaunchInfo)
        ensures
            names(r, self@),
            match started {
                Started::Running { method, pid } => {
                    &&& r.status@ == "started"@
                    &&& r.code is None
                    &&& r.method == Some(method)
                    &&& r.pid == pid
                    &&& r.message is None
                },
                Started::Failed(message) => {
                    &&& r.status@ == "failed"@
                    &&& r.code is Some
                    &&& r.code->Some_0@ == "launch_failed"@
                    &&& r.method is None
                    &&& r.pid is None
                    &&& r.message == Some(message)
                },
                Started::Unavailable(message) => {
                    &&& r.status@ == "unavailable"@
                    &&& r.code is Some
                    &&& r.code->Some_0@ == "launch_unavailable"@
                    &&& r.method is None
                    &&& r.pid is None
                    &&& r.message == Some(message)
                },
            },
    {
        match started {
            Started::Running { method, pid } => {
                let mut info = self.info("started");
                info.method = Some(method);
                info.pid = pid;
                info
            },
            Started::Failed(message) => {
                let mut info = self.info("failed");
                info.code = Some("launch_failed");
                info.message = Some(message);
                info
            },
            Started::Unavailable(message) => {
                let mut info = self.info("unavailable");
                info.code = Some("launch_unavailable");
                info.message = Some(message);
                info
            },
        }
    }
}

/// The code of the log line for a status.
pub open spec fn log_code(status: Seq<char>) -> Seq<char> {
    if status == "started"@ {
        "launch_started"@
    } else if status == "declined"@ {
        "launch_declined"@
    } else if status == "unavailable"@ {
        "launch_unavailable"@
    } else {
        "launch_failed"@
    }
}

/// A part of the log line that is there when its value is.
pub open spec fn optional(label: Seq<char>, value: Option<Seq<char>>) -> Seq<char> {
    match value {
        Some(v) => label + v,
        None => Seq::empty(),
    }
}

/// A truth value in words.
pub open spec fn truth(b: bool) -> Seq<char> {
    if b {
        "true"@
    } else {
        "false"@
    }
}

/// The message of the log line.
pub open spec fn log_message(info: LaunchInfo) -> Seq<char> {
    info.program@ + " "@ + launch::joined(text::views(info.arguments@)) + " (in "@
        + info.working_directory@ + ")"@ + optional(" method="@, text::option_view(info.method))
        + optional(
        " pid="@,
        match info.pid {
            Some(pid) => Some(text::decimal(pid as nat)),
            None => None,
        },
    ) + optional(
        " foreground="@,
        match info.foreground {
            Some(f) => Some(truth(f)),
            None => None,
        },
    ) + optional(": "@, text::option_view(info.message))
}

/// What the run's log says happened, as a code and a message:
/// `launch_started`, `launch_declined`, `launch_failed` or
/// `launch_unavailable`. Nothing for a run without a log.
pub fn log(log_path: Option<&str>, info: &LaunchInfo) -> (r: Option<(&'static str, String)>)
    ensures
        match r {
            Some((code, message)) => {
                &&& log_path is Some
                &&& log_path->Some_0@.len() > 0
                &&& code@ == log_code(info.status@)
                &&& message@ == log_message(*info)
            },
            None => log_path is None || log_path->Some_0@.len() == 0,
        },
{
    match log_path {
        None => {
            return None;
        },
        Some(path) => {
            if path.is_empty() {
                return None;
            }
        },
    }
    let code = if text::same(info.status, "started") {
        "launch_started"
    } else if text::same(info.status, "declined") {
        "launch_declined"
    } else if text::same(info.status, "unavailable") {
        "launch_unavailable"
    } else {
        "launch_failed"
    };
    let arguments = launch::join_arguments(&info.arguments);
    let mut message = text::cat6(
        info.program.as_str(),
        " ",
        arguments.as_str(),
        " (in ",
        info.working_directory.as_str(),
        ")",
    );
    let ghost a = message@;
    match info.method {
        Some(method) => {
            message = text::cat3(message.as_str(), " method=", method);
        },
        None => {},
    }
    let ghost b = a + optional(" method="@, text::option_view(info.method));
    assert(message@ =~= b);
    match info.pid {
        Some(pid) => {
            let shown = text::decimal_of(pid as u64);
            message = text::cat3(message.as_str(), " pid=", shown.as_str());
        },
        None => {},
    }
    let ghost c = b + optional(
        " pid="@,
        match info.pid {
            Some(pid) => Some(text::decimal(pid as nat)),
            None => None,
        },
    );
    assert(message@ =~= c);
    match info.foreground {
        Some(f) => {
            let shown = if f {
                "true"
            } else {
                "false"
            };
            message = text::cat3(message.as_str(), " foreground=", shown);
        },
        None => {},
    }
    let ghost d = c + optional(
        " foreground="@,
        match info.foreground {
            Some(f) => Some(truth(f)),
            None => None,
        },
    );
    assert(message@ =~= d);
    match &info.message {
        Some(reason) => {
            message = text::cat3(message.as_str(), ": ", reason.as_str());
        },
        None => {},
    }
    assert(message@ =~= log_message(*info));
    Some((code, message))
}

/// What is started after an install: the declared program below the install
/// root, with each of its arguments, in the declared directory, in the root
/// where that is declared empty, or beside the program.
pub proof fn lemma_what_is_started(
    l: Launch,
    root: Seq<char>,
    version: Seq<char>,
    machine: Machine,
)
    ensures
        ({
            let t = resolved(l, root, version, machine);
            &&& t.program == target::joined(root, text::replaced(l.executable@, '/', '\\'))
            &&& t.arguments.len() == l.arguments@.len()
            &&& forall|i: int|
                0 <= i < t.arguments.len() ==> #[trigger] t.arguments[i] == launch::expansion(
                    l.arguments@[i]@,
                    root,
                    version,
                    machine,
                )
            &&& l.working_directory is None && target::parent_folder(t.program) is Some ==> Some(
                t.working_directory,
            ) == target::parent_folder(t.program)
            &&& l.working_directory is None && target::parent_folder(t.program) is None
                ==> t.working_directory == root
            &&& (l.working_directory matches Some(d) && d@.len() == 0) ==> t.working_directory
                == root
            &&& (l.working_directory matches Some(d) && d@.len() > 0) ==> t.working_directory
                == target::joined(
                root,
                text::replaced(l.working_directory->Some_0@, '/', '\\'),
            )
        }),
{
}

}
