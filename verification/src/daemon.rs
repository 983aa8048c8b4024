//! Running the client in the background: its flags, the file that holds the
//! number of the process, and what starting and stopping it takes.

use vstd::prelude::*;
use vstd::string::*;

use crate::numeral::{
    all_digits, decimal, is_digit, law_decimal_round_trip, lemma_decimal_digits, parse_u32,
    parsed_within, render_decimal,
};
use crate::paths::{append_path, appended};
use crate::text::{
    is_white, owned, same_text, split, split_char, starts_with, has_prefix, texts, trim, trim_both,
    trim_char, trim_white, trim_white_end, trim_white_start,
};

verus! {

/// The flag that asks for the client to run in the background.
pub const ARG_DAEMON: &'static str = "--daemon";

/// The flag that marks the client that runs in the background.
pub const ARG_FOREGROUND: &'static str = "--foreground";

/// The flag that asks for the client in the background to stop.
pub const ARG_STOP: &'static str = "--stop";

/// Whether one of the arguments is `word`.
fn has_arg(args: &Vec<String>, word: &str) -> (r: bool)
    ensures
        r == texts(args@).contains(word@),
{
    for i in 0..args.len()
        invariant
            forall|k: int| 0 <= k < i ==> (#[trigger] args@[k])@ != word@,
    {
        if same_text(args[i].as_str(), word) {
            assert(texts(args@)[i as int] == word@);
            return true;
        }
    }
    proof {
        if texts(args@).contains(word@) {
            let k = choose|k: int| 0 <= k < texts(args@).len() && texts(args@)[k] == word@;
            assert(args@[k]@ == word@);
        }
    }
    false
}

/// The arguments ask for the client in the background to stop.
pub open spec fn asks_to_stop(args: Seq<Seq<char>>) -> bool {
    args.contains("--stop"@)
}

/// The arguments ask for the client to run in the background, and are not those
/// of the client that does.
pub open spec fn asks_to_daemonize(args: Seq<Seq<char>>) -> bool {
    args.contains("--daemon"@) && !args.contains("--foreground"@)
}

/// Whether the arguments ask for the client in the background to stop.
pub fn should_stop_daemon_from_args(args: &Vec<String>) -> (r: bool)
    ensures
        r == asks_to_stop(texts(args@)),
        r <==> texts(args@).contains("--stop"@),
{
    has_arg(args, ARG_STOP)
}

/// Whether the arguments ask for the client to run in the background.
pub fn should_daemonize_from_args(args: &Vec<String>) -> (r: bool)
    ensures
        r == asks_to_daemonize(texts(args@)),
        r <==> texts(args@).contains("--daemon"@) && !texts(args@).contains("--foreground"@),
{
    let has_daemon = has_arg(args, ARG_DAEMON);
    let is_foreground_child = has_arg(args, ARG_FOREGROUND);
    has_daemon && !is_foreground_child
}

/// What reading a file gave.
#[derive(Debug)]
pub enum FileText {
    /// Its text.
    Text(String),
    /// There is no such file.
    Missing,
    /// It could not be read.
    Unreadable,
}

/// Why the number of the process is not known.
#[derive(Debug, Clone, Copy, PartialEq, Eq, Structural)]
pub enum PidFault {
    /// The file could not be read for the number.
    NotFound,
    /// What the file holds is no number of a process.
    Invalid,
    /// The file is there but could not be read.
    Unreadable,
}

impl PidFault {
    /// The fault in words.
    pub open spec fn text(self) -> Seq<char> {
        match self {
            PidFault::NotFound => "Daemon pid file not found"@,
            PidFault::Invalid => "Invalid pid file content"@,
            PidFault::Unreadable => "Failed to read pid file"@,
        }
    }

    /// The fault in words.
    pub fn describe(self) -> (s: String)
        ensures
            s@ == self.text(),
            self == PidFault::NotFound ==> s@ == "Daemon pid file not found"@,
            self == PidFault::Invalid ==> s@ == "Invalid pid file content"@,
            self == PidFault::Unreadable ==> s@ == "Failed to read pid file"@,
    {
        match self {
            PidFault::NotFound => owned("Daemon pid file not found"),
            PidFault::Invalid => owned("Invalid pid file content"),
            PidFault::Unreadable => owned("Failed to read pid file"),
        }
    }
}

/// The number of a process that a text holds, with white space around it.
pub open spec fn pid_in(text: Seq<char>) -> Option<nat> {
    parsed_within(trim_white(text), 10, u32::MAX as nat)
}

/// The path of the file below the directory for temporary files.
pub open spec fn pid_path(temp_dir: Seq<char>) -> Seq<char> {
    appended(temp_dir, "remotefs-client.pid"@)
}

/// The path of the file below the directory for temporary files.
pub fn pid_file_path(temp_dir: &str) -> (r: String)
    ensures
        r@ == pid_path(temp_dir@),
        r@.take(temp_dir@.len() as int) == temp_dir@,
        r@.skip(r@.len() - 19) == "remotefs-client.pid"@,
        temp_dir@.len() > 0 && temp_dir@.last() != '/' ==> r@[temp_dir@.len() as int] == '/' && r@.len()
            == temp_dir@.len() + 20,
{
    proof {
        reveal_strlit("remotefs-client.pid");
    }
    append_path(temp_dir, "remotefs-client.pid")
}

/// A file to write: where, and what.
#[derive(Debug)]
pub struct FileWrite {
    pub path: String,
    pub text: String,
}

/// What has to be written to note the number of a process at `path`.
pub fn write_pid_file_to(path: &str, pid: u32) -> (w: FileWrite)
    ensures
        w.path@ == path@,
        w.text@ == decimal(pid as nat),
        pid_in(w.text@) == Some(pid as nat),
{
    proof {
        law_pid_round_trip(pid);
    }
    FileWrite { path: owned(path), text: render_decimal(pid as u64) }
}

/// What has to be written to note the number of a process.
pub fn write_pid_file(temp_dir: &str, pid: u32) -> (w: FileWrite)
    ensures
        w.path@ == pid_path(temp_dir@),
        w.text@ == decimal(pid as nat),
        pid_in(w.text@) == Some(pid as nat),
{
    let path = pid_file_path(temp_dir);
    write_pid_file_to(path.as_str(), pid)
}

/// The number of the process that the file holds.
pub fn read_pid_file_from(content: &FileText) -> (r: Result<u32, PidFault>)
    ensures
        match *content {
            FileText::Text(t) => match pid_in(t@) {
                Some(n) => r matches Ok(pid) && pid == n,
                None => r == Err::<u32, PidFault>(PidFault::Invalid),
            },
            _ => r == Err::<u32, PidFault>(PidFault::NotFound),
        },
        r matches Ok(pid) ==> (*content matches FileText::Text(t) && pid_in(t@) == Some(pid as nat)),
        *content matches FileText::Text(t) ==> (pid_in(t@) is Some <==> r is Ok),
{
    match content {
        FileText::Text(t) => match parse_u32(trim(t.as_str())) {
            Some(pid) => Ok(pid),
            None => Err(PidFault::Invalid),
        },
        FileText::Missing => Err(PidFault::NotFound),
        FileText::Unreadable => Err(PidFault::NotFound),
    }
}

/// Where finding the number of a process stands.
#[derive(Debug)]
pub enum PidStep<T> {
    /// This file has to be read.
    Read(String),
    /// Whether this process runs has to be found out.
    Probe(u32),
    /// This is the result, and this file has to be removed.
    DoneRemoving(T, String),
    /// This is the result.
    Done(T),
}

/// The number of the process that the usual file holds.
pub fn read_pid_file(temp_dir: &str, content: Option<FileText>) -> (step: PidStep<
    Result<u32, PidFault>,
>)
    ensures
        match content {
            None => step matches PidStep::Read(p) && p@ == pid_path(temp_dir@),
            Some(FileText::Text(t)) => match pid_in(t@) {
                Some(n) => step matches PidStep::Done(Ok(pid)) && pid == n,
                None => step matches PidStep::Done(Err(f)) && f == PidFault::Invalid,
            },
            Some(_) => step matches PidStep::Done(Err(f)) && f == PidFault::NotFound,
        },
{
    match content {
        None => PidStep::Read(pid_file_path(temp_dir)),
        Some(c) => PidStep::Done(read_pid_file_from(&c)),
    }
}

/// What finding a number in the file at `path` gives: a file that is missing
/// holds none, and one that holds something else has to be removed.
pub open spec fn optional_pid(
    path: Seq<char>,
    content: FileText,
    step: PidStep<Result<Option<u32>, PidFault>>,
) -> bool {
    match content {
        FileText::Text(t) => match pid_in(t@) {
            Some(n) => step matches PidStep::Done(Ok(Some(pid))) && pid == n,
            None => step matches PidStep::DoneRemoving(Ok(None), p) && p@ == path,
        },
        FileText::Missing => step matches PidStep::Done(Ok(None)),
        FileText::Unreadable => step matches PidStep::Done(Err(f)) && f == PidFault::Unreadable,
    }
}

/// The number of the process that the file at `path` holds, if any.
pub fn read_pid_file_optional_from(path: &str, content: Option<FileText>) -> (step: PidStep<
    Result<Option<u32>, PidFault>,
>)
    ensures
        match content {
            None => step matches PidStep::Read(p) && p@ == path@,
            Some(c) => optional_pid(path@, c, step),
        },
        content is None <==> step is Read,
        content matches Some(FileText::Text(t)) ==> ((step matches PidStep::Done(Ok(Some(pid))) && pid_in(
            t@,
        ) == Some(pid as nat)) || (pid_in(t@) is None && (step matches PidStep::DoneRemoving(Ok(None), p)
            && p@ == path@))),
        content matches Some(FileText::Missing) ==> step matches PidStep::Done(Ok(None)),
        content matches Some(FileText::Unreadable) ==> step matches PidStep::Done(Err(_)),
{
    match content {
        None => PidStep::Read(owned(path)),
        Some(FileText::Text(t)) => match parse_u32(trim(t.as_str())) {
            Some(pid) => PidStep::Done(Ok(Some(pid))),
            None => PidStep::DoneRemoving(Ok(None), owned(path)),
        },
        Some(FileText::Missing) => PidStep::Done(Ok(None)),
        Some(FileText::Unreadable) => PidStep::Done(Err(PidFault::Unreadable)),
    }
}

/// The number of the process that the usual file holds, if any.
pub fn read_pid_file_optional(temp_dir: &str, content: Option<FileText>) -> (step: PidStep<
    Result<Option<u32>, PidFault>,
>)
    ensures
        match content {
            None => step matches PidStep::Read(p) && p@ == pid_path(temp_dir@),
            Some(c) => optional_pid(pid_path(temp_dir@), c, step),
        },
{
    let path = pid_file_path(temp_dir);
    read_pid_file_optional_from(path.as_str(), content)
}

/// The file that has to be removed when the client in the background is gone.
pub fn remove_pid_file(temp_dir: &str) -> (path: String)
    ensures
        path@ == pid_path(temp_dir@),
{
    pid_file_path(temp_dir)
}

/// How sending a process no signal at all ended.
#[derive(Debug, Clone, Copy, PartialEq, Eq, Structural)]
pub enum Ping {
    /// It could be sent.
    Delivered,
    /// The process is somebody else's.
    NotPermitted,
    /// Anything else.
    Failed,
}

/// The number by which a process is signalled: there is none for zero and for
/// numbers that no process can have.
pub fn signal_target(pid: u32) -> (r: Option<i32>)
    ensures
        match r {
            Some(n) => n == pid && 0 < pid <= i32::MAX,
            None => pid == 0 || pid > i32::MAX,
        },
        pid == 0 ==> r is None,
        pid > 0x7fff_ffff ==> r is None,
        0 < pid && pid <= 0x7fff_ffff ==> (r matches Some(n) && n == pid),
{
    if pid == 0 || pid > 2_147_483_647 {
        None
    } else {
        Some(pid as i32)
    }
}

/// The process runs: it can be signalled, or it is there but somebody else's.
pub open spec fn runs(pid: u32, ping: Ping) -> bool {
    0 < pid <= i32::MAX && (ping == Ping::Delivered || ping == Ping::NotPermitted)
}

/// Whether a process runs, given how signalling it ended.
pub fn is_process_running(pid: u32, ping: Ping) -> (r: bool)
    ensures
        r == runs(pid, ping),
        pid == 0 ==> !r,
        pid > 0x7fff_ffff ==> !r,
        ping == Ping::Failed ==> !r,
        0 < pid <= 0x7fff_ffff && ping != Ping::Failed ==> r,
{
    match signal_target(pid) {
        None => false,
        Some(_) => ping == Ping::Delivered || ping == Ping::NotPermitted,
    }
}

/// A line of a list of processes in comma-separated columns names `pid` in its
/// second column, with or without quotes.
pub open spec fn line_names(line: Seq<char>, pid: u32) -> bool {
    let l = trim_white(line);
    let columns = split(l, ',');
    &&& l.len() > 0
    &&& !has_prefix(l, "INFO:"@)
    &&& columns.len() > 1
    &&& trim_both(trim_white(columns[1]), '"') == decimal(pid as nat)
}

/// One of the lines names `pid`.
pub open spec fn listed(output: Seq<char>, pid: u32) -> bool {
    exists|i: int| 0 <= i < split(output, '\n').len() && #[trigger] line_names(
        split(output, '\n')[i],
        pid,
    )
}

/// Whether a line of a list of processes names `pid`.
fn names_pid(line: &str, pid: u32) -> (r: bool)
    ensures
        r == line_names(line@, pid),
        trim_white(line@).len() == 0 ==> !r,
        has_prefix(trim_white(line@), "INFO:"@) ==> !r,
        r ==> split(trim_white(line@), ',').len() > 1 && trim_both(
            trim_white(split(trim_white(line@), ',')[1]),
            '"',
        ) == decimal(pid as nat),
{
    let l = trim(line);
    if l.unicode_len() == 0 || starts_with(l, "INFO:") {
        return false;
    }
    let columns = split_char(l, ',');
    assert(texts(columns@).len() == columns@.len());
    if columns.len() <= 1 {
        return false;
    }
    assert(texts(columns@)[1] == columns@[1]@);
    let named = trim_char(trim(columns[1].as_str()), '"');
    let wanted = render_decimal(pid as u64);
    same_text(named, wanted.as_str())
}

/// Whether a list of processes shows that `pid` runs. `output` is `None` where
/// there is no list.
pub fn is_process_listed(pid: u32, output: Option<&str>) -> (r: bool)
    ensures
        r == (pid != 0 && output is Some && listed(output->Some_0@, pid)),
        pid == 0 ==> !r,
        output is None ==> !r,
        r ==> (output matches Some(t) && exists|i: int|
            0 <= i < split(t@, '\n').len() && #[trigger] line_names(split(t@, '\n')[i], pid)),
{
    if pid == 0 {
        return false;
    }
    let text = match output {
        Some(t) => t,
        None => {
            return false;
        },
    };
    let lines = split_char(text, '\n');
    assert(texts(lines@).len() == lines@.len());
    for i in 0..lines.len()
        invariant
            pid != 0,
            output == Some(text),
            texts(lines@) == split(text@, '\n'),
            forall|k: int| 0 <= k < i ==> !line_names(#[trigger] texts(lines@)[k], pid),
    {
        assert(texts(lines@)[i as int] == lines@[i as int]@);
        if names_pid(lines[i].as_str(), pid) {
            assert(line_names(split(text@, '\n')[i as int], pid));
            return true;
        }
    }
    false
}

/// What finding the running client gives: a file that names no running process
/// has to be removed.
pub open spec fn running_pid(
    path: Seq<char>,
    content: FileText,
    alive: Option<bool>,
    step: PidStep<Result<Option<u32>, PidFault>>,
) -> bool {
    match content {
        FileText::Text(t) => match pid_in(t@) {
            Some(n) => match alive {
                None => step matches PidStep::Probe(pid) && pid == n,
                Some(true) => step matches PidStep::Done(Ok(Some(pid))) && pid == n,
                Some(false) => step matches PidStep::DoneRemoving(Ok(None), p) && p@ == path,
            },
            None => step matches PidStep::DoneRemoving(Ok(None), p) && p@ == path,
        },
        FileText::Missing => step matches PidStep::Done(Ok(None)),
        FileText::Unreadable => step matches PidStep::Done(Err(f)) && f == PidFault::Unreadable,
    }
}

/// The number of the running client that the file at `path` names. `alive` says
/// whether the process it names runs.
pub fn running_daemon_pid_from(
    path: &str,
    content: Option<FileText>,
    alive: Option<bool>,
) -> (step: PidStep<Result<Option<u32>, PidFault>>)
    ensures
        match content {
            None => step matches PidStep::Read(p) && p@ == path@,
            Some(c) => running_pid(path@, c, alive, step),
        },
        step matches PidStep::Done(Ok(Some(pid))) ==> alive == Some(true) && (content
            matches Some(FileText::Text(t)) && pid_in(t@) == Some(pid as nat)),
        step matches PidStep::DoneRemoving(r, p) ==> p@ == path@ && r == Ok::<Option<u32>, PidFault>(
            None,
        ) && (alive == Some(true) ==> (content matches Some(FileText::Text(t)) && pid_in(t@) is None)),
        step matches PidStep::Probe(pid) ==> alive is None && (content matches Some(
            FileText::Text(t),
        ) && pid_in(t@) == Some(pid as nat)),
{
    match read_pid_file_optional_from(path, content) {
        PidStep::Done(Ok(Some(pid))) => match alive {
            None => PidStep::Probe(pid),
            Some(true) => PidStep::Done(Ok(Some(pid))),
            Some(false) => PidStep::DoneRemoving(Ok(None), owned(path)),
        },
        other => other,
    }
}

/// The number of the running client that the usual file names.
pub fn running_daemon_pid(
    temp_dir: &str,
    content: Option<FileText>,
    alive: Option<bool>,
) -> (step: PidStep<Result<Option<u32>, PidFault>>)
    ensures
        match content {
            None => step matches PidStep::Read(p) && p@ == pid_path(temp_dir@),
            Some(c) => running_pid(pid_path(temp_dir@), c, alive, step),
        },
{
    let path = pid_file_path(temp_dir);
    running_daemon_pid_from(path.as_str(), content, alive)
}

/// How interrupting the client in the background ended.
#[derive(Debug)]
pub enum Interrupt {
    /// It was asked to stop.
    Delivered,
    /// It was gone already.
    Gone,
    /// It could not be asked, in the words of the system.
    Failed(String),
}

/// Where stopping the client in the background stands.
#[derive(Debug)]
pub enum StopStep {
    /// This process has to be interrupted.
    Interrupt(u32),
    /// This is to be said; the file with the number stays as it is.
    Say(String),
    /// The file with the number has to be removed, and this is to be said.
    SayRemoving(String),
    /// It failed, in these words.
    Fail(String),
}

/// Stops the client in the background, where there is one (`pid`).
pub fn stop_daemon(pid: Option<u32>, interrupted: Option<Interrupt>) -> (step: StopStep)
    ensures
        match pid {
            None => step matches StopStep::Say(t) && t@ == "No process running."@,
            Some(n) => match interrupted {
                None => step matches StopStep::Interrupt(p) && p == n,
                Some(Interrupt::Gone) => step matches StopStep::SayRemoving(t) && t@
                    == "No process running."@,
                Some(Interrupt::Failed(words)) => step matches StopStep::Fail(t) && t@
                    == "Failed to signal daemon pid "@ + decimal(n as nat) + ": "@ + words@,
                Some(Interrupt::Delivered) => step matches StopStep::SayRemoving(t) && t@
                    == "Client daemon stop requested for pid "@ + decimal(n as nat),
            },
        },
        pid is None ==> step is Say,
        step matches StopStep::Interrupt(p) ==> pid == Some(p) && interrupted is None,
        step is SayRemoving <==> pid is Some && (interrupted matches Some(i) && !(i is Failed)),
        step is Fail <==> pid is Some && (interrupted matches Some(i) && i is Failed),
{
    let n: u32 = match pid {
        None => {
            return StopStep::Say(owned("No process running."));
        },
        Some(n) => n,
    };
    match interrupted {
        None => StopStep::Interrupt(n),
        Some(Interrupt::Gone) => StopStep::SayRemoving(owned("No process running.")),
        Some(Interrupt::Failed(words)) => {
            let mut t = owned("Failed to signal daemon pid ");
            t.append(render_decimal(n as u64).as_str());
            t.append(": ");
            t.append(words.as_str());
            StopStep::Fail(t)
        },
        Some(Interrupt::Delivered) => {
            let mut t = owned("Client daemon stop requested for pid ");
            t.append(render_decimal(n as u64).as_str());
            StopStep::SayRemoving(t)
        },
    }
}

/// What a task killer said: how it ended, in words, whether it succeeded, and
/// what it complained of.
#[derive(Debug)]
pub struct Killed {
    pub success: bool,
    pub status: String,
    pub complaint: String,
    /// Whether the process still runs, where the killer failed.
    pub still_running: bool,
}

/// Stops the client in the background with a task killer.
pub fn stop_daemon_by_killer(pid: Option<u32>, killed: Option<Killed>) -> (step: StopStep)
    ensures
        match pid {
            None => step matches StopStep::Say(t) && t@ == "No process running."@,
            Some(n) => match killed {
                None => step matches StopStep::Interrupt(p) && p == n,
                Some(k) => if k.success {
                    step matches StopStep::SayRemoving(t) && t@
                        == "Client daemon stop requested for pid "@ + decimal(n as nat)
                } else if !k.still_running {
                    step matches StopStep::SayRemoving(t) && t@ == "No process running."@
                } else {
                    step matches StopStep::Fail(t) && t@ == "taskkill failed for pid "@ + decimal(
                        n as nat,
                    ) + " with status "@ + k.status@ + ": "@ + trim_white(k.complaint@)
                },
            },
        },
        pid is None ==> step is Say,
        step matches StopStep::Interrupt(p) ==> pid == Some(p) && killed is None,
        step is SayRemoving <==> pid is Some && (killed matches Some(k) && (k.success || !k.still_running)),
        step is Fail <==> pid is Some && (killed matches Some(k) && !k.success && k.still_running),
{
    let n: u32 = match pid {
        None => {
            return StopStep::Say(owned("No process running."));
        },
        Some(n) => n,
    };
    match killed {
        None => StopStep::Interrupt(n),
        Some(k) => if k.success {
            let mut t = owned("Client daemon stop requested for pid ");
            t.append(render_decimal(n as u64).as_str());
            StopStep::SayRemoving(t)
        } else if !k.still_running {
            StopStep::SayRemoving(owned("No process running."))
        } else {
            let mut t = owned("taskkill failed for pid ");
            t.append(render_decimal(n as u64).as_str());
            t.append(" with status ");
            t.append(k.status.as_str());
            t.append(": ");
            t.append(trim(k.complaint.as_str()));
            StopStep::Fail(t)
        },
    }
}

/// The arguments without those equal to `word`.
pub open spec fn without(args: Seq<Seq<char>>, word: Seq<char>) -> Seq<Seq<char>>
    decreases args.len(),
{
    if args.len() == 0 {
        Seq::empty()
    } else {
        let before = without(args.drop_last(), word);
        if args.last() == word {
            before
        } else {
            before.push(args.last())
        }
    }
}

/// The arguments of the client that runs in the background: those of the one
/// that starts it, behind the program's name, without the flag that asks for it
/// and with the one that marks it.
pub open spec fn child_args(args: Seq<Seq<char>>) -> Seq<Seq<char>> {
    let rest = if args.len() == 0 {
        args
    } else {
        args.skip(1)
    };
    without(rest, "--daemon"@).push("--foreground"@)
}

/// The arguments of the client that runs in the background.
pub fn daemon_child_args(args: &Vec<String>) -> (r: Vec<String>)
    ensures
        texts(r@) == child_args(texts(args@)),
        r@.len() > 0 && r@.last()@ == "--foreground"@,
        !texts(r@).contains("--daemon"@),
        r@.len() <= args@.len() + 1,
{
    proof {
        law_child_stays_in_foreground(Seq::empty(), texts(args@));
        law_child_args(Seq::empty(), texts(args@));
    }
    let mut r: Vec<String> = Vec::new();
    let ghost rest = if args@.len() == 0 {
        texts(args@)
    } else {
        texts(args@).skip(1)
    };
    let mut i: usize = if args.len() == 0 {
        0
    } else {
        1
    };
    let ghost first: int = i as int;
    assert(rest.take(0) =~= Seq::<Seq<char>>::empty());
    assert(texts(r@) =~= Seq::<Seq<char>>::empty());
    while i < args.len()
        invariant
            first <= i <= args.len(),
            first == 0 || first == 1,
            rest.len() + first == args@.len(),
            forall|k: int| 0 <= k < rest.len() ==> rest[k] == (#[trigger] args@[k + first])@,
            texts(r@) == without(rest.take(i - first), "--daemon"@),
        decreases args.len() - i,
    {
        let ghost before = texts(r@);
        assert(rest.take(i - first + 1).drop_last() =~= rest.take(i - first));
        assert(rest[i - first] == args@[i - first + first]@);
        if !same_text(args[i].as_str(), ARG_DAEMON) {
            r.push(args[i].clone());
            assert(texts(r@) =~= before.push(args@[i as int]@));
        }
        i = i + 1;
    }
    assert(rest.take(rest.len() as int) =~= rest);
    let ghost kept = texts(r@);
    r.push(owned(ARG_FOREGROUND));
    assert(texts(r@) =~= kept.push("--foreground"@));
    r
}

/// Where starting the client in the background stands.
#[derive(Debug)]
pub enum SpawnStep {
    /// The program has to be started with these arguments.
    Spawn(Vec<String>),
    /// This is to be said.
    Say(String),
    /// This has to be written, and this is to be said.
    SayWriting(String, FileWrite),
}

/// Starts the client in the background, unless one runs (`running`). `child` is
/// the number of the process that was started.
pub fn spawn_daemon_child(
    temp_dir: &str,
    args: &Vec<String>,
    running: Option<u32>,
    child: Option<u32>,
) -> (step: SpawnStep)
    ensures
        match running {
            Some(pid) => step matches SpawnStep::Say(t) && t@ == "Daemon already running with pid "@
                + decimal(pid as nat),
            None => match child {
                None => step matches SpawnStep::Spawn(a) && texts(a@) == child_args(texts(args@)),
                Some(pid) => step matches SpawnStep::SayWriting(t, w) && t@
                    == "Client daemon started with pid "@ + decimal(pid as nat) && w.path@
                    == pid_path(temp_dir@) && w.text@ == decimal(pid as nat),
            },
        },
        running is Some <==> step is Say,
        step matches SpawnStep::SayWriting(_, w) ==> (child matches Some(pid) && pid_in(w.text@) == Some(
            pid as nat,
        ) && w.path@ == pid_path(temp_dir@)),
        step matches SpawnStep::Spawn(a) ==> child is None && !texts(a@).contains("--daemon"@) && a@.len()
            > 0 && a@.last()@ == "--foreground"@,
{
    if let Some(pid) = running {
        let mut t = owned("Daemon already running with pid ");
        t.append(render_decimal(pid as u64).as_str());
        return SpawnStep::Say(t);
    }
    match child {
        None => SpawnStep::Spawn(daemon_child_args(args)),
        Some(pid) => {
            let mut t = owned("Client daemon started with pid ");
            t.append(render_decimal(pid as u64).as_str());
            SpawnStep::SayWriting(t, write_pid_file(temp_dir, pid))
        },
    }
}

/// Digits have no white space around them.
proof fn lemma_digits_trimmed(s: Seq<char>)
    requires
        all_digits(s, 10),
        s.len() > 0,
    ensures
        trim_white(s) == s,
{
    assert(is_digit(s[0], 10));
    assert(is_digit(s[s.len() - 1], 10));
    assert(!is_white(s[0]));
    assert(!is_white(s.last()));
    assert(trim_white_start(s) == s);
    assert(trim_white_end(s) == s);
}

/// The number that was noted is the number that is read.
pub proof fn law_pid_round_trip(pid: u32)
    ensures
        pid_in(decimal(pid as nat)) == Some(pid as nat),
{
    lemma_decimal_digits(pid as nat);
    lemma_digits_trimmed(decimal(pid as nat));
    law_decimal_round_trip(pid as nat, u32::MAX as nat);
}

/// No word that was taken out is left.
proof fn lemma_without(args: Seq<Seq<char>>, word: Seq<char>)
    ensures
        !without(args, word).contains(word),
    decreases args.len(),
{
    if args.len() > 0 {
        let head = without(args.drop_last(), word);
        lemma_without(args.drop_last(), word);
        if without(args, word).contains(word) {
            let k = choose|k: int|
                0 <= k < without(args, word).len() && without(args, word)[k] == word;
            if k < head.len() {
                assert(head[k] == word);
            }
        }
    }
}

/// The client that runs in the background does not start another one: whatever
/// the program's name, its arguments do not ask for it.
pub proof fn law_child_stays_in_foreground(name: Seq<char>, args: Seq<Seq<char>>)
    ensures
        !asks_to_daemonize(seq![name] + child_args(args)),
        !child_args(args).contains("--daemon"@),
{
    reveal_strlit("--daemon");
    reveal_strlit("--foreground");
    let rest = if args.len() == 0 {
        args
    } else {
        args.skip(1)
    };
    lemma_without(rest, "--daemon"@);
    let child = child_args(args);
    assert(child.last() == "--foreground"@);
    let whole = seq![name] + child;
    assert(whole[whole.len() - 1] == "--foreground"@);
    if child.contains("--daemon"@) {
        let k = choose|k: int| 0 <= k < child.len() && child[k] == "--daemon"@;
        if k < child.len() - 1 {
            assert(without(rest, "--daemon"@)[k] == "--daemon"@);
        } else {
            assert("--daemon"@.len() == 8);
            assert("--foreground"@.len() == 12);
        }
    }
}

/// Where the server is, where nothing is set.
pub open spec fn server_for(setting: Option<&str>) -> Seq<char> {
    match setting {
        Some(s) => s@,
        None => "http://127.0.0.1:3000"@,
    }
}

/// Where the server is: at the address that is set, or at the usual one.
pub fn server_address(setting: Option<&str>) -> (r: String)
    ensures
        r@ == server_for(setting),
        setting matches Some(s) ==> r@ == s@,
        setting is None ==> r@ == "http://127.0.0.1:3000"@,
{
    match setting {
        Some(s) => owned(s),
        None => owned("http://127.0.0.1:3000"),
    }
}

/// Where the file system is mounted, where nothing is set.
pub open spec fn mount_for(setting: Option<&str>, windows: bool) -> Seq<char> {
    match setting {
        Some(s) => s@,
        None => if windows {
            "Z:\\"@
        } else {
            "/tmp/remote-fs"@
        },
    }
}

/// Where the file system is mounted: at the place that is set, or at the usual
/// one of the platform.
pub fn mount_point(setting: Option<&str>, windows: bool) -> (r: String)
    ensures
        r@ == mount_for(setting, windows),
        setting matches Some(s) ==> r@ == s@,
        setting is None && windows ==> r@ == "Z:\\"@,
        setting is None && !windows ==> r@ == "/tmp/remote-fs"@,
{
    match setting {
        Some(s) => owned(s),
        None => if windows {
            owned("Z:\\")
        } else {
            owned("/tmp/remote-fs")
        },
    }
}

/// Taking a word out of the arguments leaves every other argument, as often and in
/// the order that it was there.
pub proof fn law_without(args: Seq<Seq<char>>, more: Seq<Seq<char>>, word: Seq<char>, other: Seq<char>)
    ensures
        without(args + more, word) == without(args, word) + without(more, word),
        !without(args, word).contains(word),
        other != word ==> without(seq![other], word) == seq![other],
        without(seq![word], word).len() == 0,
        !args.contains(word) ==> without(args, word) == args,
        without(args, word).len() <= args.len(),
    decreases args.len() + more.len(),
{
    reveal_with_fuel(without, 2);
    lemma_without(args, word);
    assert(seq![other].drop_last() =~= Seq::<Seq<char>>::empty());
    assert(seq![word].drop_last() =~= Seq::<Seq<char>>::empty());
    assert(without(seq![other], word) =~= (if other == word {
        Seq::empty()
    } else {
        seq![other]
    }));
    if more.len() > 0 {
        law_without(args, more.drop_last(), word, other);
        assert((args + more).drop_last() =~= args + more.drop_last());
        assert(without(args + more, word) =~= without(args, word) + without(more, word));
    } else {
        assert(args + more =~= args);
        assert(without(args, word) + without(more, word) =~= without(args, word));
        if args.len() > 0 {
            law_without(args.drop_last(), more, word, other);
            if !args.contains(word) {
                assert(args[args.len() - 1] != word);
                assert forall|w: Seq<char>| args.drop_last().contains(w) implies args.contains(w) by {
                    let k = choose|k: int| 0 <= k < args.drop_last().len() && args.drop_last()[k] == w;
                    assert(args[k] == w);
                }
                assert(args.drop_last().push(args.last()) =~= args);
            }
        } else {
            assert(args =~= Seq::empty());
        }
    }
}

/// The client in the background gets the arguments of the one that starts it, all
/// but the program's name and the flag that asks for it, and then its own mark.
pub proof fn law_child_args(name: Seq<char>, args: Seq<Seq<char>>)
    ensures
        child_args(args).len() > 0,
        child_args(args).last() == "--foreground"@,
        child_args(args).len() <= args.len() + 1,
        !args.contains("--daemon"@) ==> child_args(seq![name] + args) == args.push("--foreground"@),
        child_args(seq![name] + args) == without(args, "--daemon"@).push("--foreground"@),
{
    assert((seq![name] + args).skip(1) =~= args);
    law_without(args, Seq::empty(), "--daemon"@, name);
    if args.len() > 0 {
        law_without(args.skip(1), Seq::empty(), "--daemon"@, name);
    }
}

/// A process runs where a signal reaches it or is only forbidden, and no process
/// has the number zero or one that is no positive number of 32 bits.
pub proof fn law_runs(pid: u32, ping: Ping)
    ensures
        runs(pid, ping) <==> 0 < pid && pid <= 0x7fff_ffff && ping != Ping::Failed,
{
}

/// What asks for the client to run in the background does so no longer once the
/// arguments hold the mark of the one that does.
pub proof fn law_asks(args: Seq<Seq<char>>)
    ensures
        !asks_to_daemonize(args.push("--foreground"@)),
        asks_to_stop(args.push("--stop"@)),
        asks_to_stop(seq!["--stop"@] + args),
        !args.contains("--stop"@) ==> !asks_to_stop(args),
        args.contains("--daemon"@) && !args.contains("--foreground"@) ==> asks_to_daemonize(args),
        !args.contains("--daemon"@) ==> !asks_to_daemonize(args),
{
    let n = args.len() as int;
    assert(args.push("--foreground"@)[n] == "--foreground"@);
    assert(args.push("--stop"@)[n] == "--stop"@);
    assert((seq!["--stop"@] + args)[0] == "--stop"@);
}

/// A process is listed just where a line has its number, and nothing but quotes and
/// white space around it, in the second column.
pub proof fn law_listed(output: Seq<char>, line: int, pid: u32)
    requires
        0 <= line < split(output, '\n').len(),
    ensures
        ({
            let l = trim_white(split(output, '\n')[line]);
            l.len() > 0 && !has_prefix(l, "INFO:"@) && split(l, ',').len() > 1 && trim_both(
                trim_white(split(l, ',')[1]),
                '"',
            ) == decimal(pid as nat) ==> listed(output, pid)
        }),
        !line_names(Seq::empty(), pid),
{
    if line_names(split(output, '\n')[line], pid) {
        assert(listed(output, pid));
    }
    assert(trim_white(Seq::<char>::empty()).len() == 0);
}

} // verus!
