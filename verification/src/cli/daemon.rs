//! Starting, stopping and watching the daemon.
use crate::asr::groq::GroqAsrProvider;
use crate::common::config::Config;
use crate::number;
use crate::text;
use vstd::prelude::*;

verus! {

/// How often it is looked whether the daemon has stopped.
pub const STOP_POLLS: u32 = 30;

/// The time between two such looks, in milliseconds.
pub const STOP_POLL_MS: u64 = 100;

/// How long a killed daemon is given, in milliseconds.
pub const KILL_PAUSE_MS: u64 = 500;

/// How long the daemon's thread is given to end, in milliseconds.
pub const EXIT_WAIT_MS: u64 = 2000;

/// The time between two looks at it, in milliseconds.
pub const EXIT_LOOK_MS: u64 = 100;

/// The exit code of a process that has not exited, on Windows.
pub const STILL_ACTIVE: u32 = 259;

/// The console event for Ctrl+C, on Windows.
pub const CTRL_C_EVENT: u32 = 0;

/// The console event for Ctrl+Break, on Windows.
pub const CTRL_BREAK_EVENT: u32 = 1;

/// The process id that a PID file holds.
pub open spec fn pid_in(content: Seq<char>) -> Option<u32> {
    number::u32_of(text::trimmed(content))
}

/// The process id that a PID file with the given text holds, if it holds one.
pub fn read_pid(content: &str) -> (r: Option<u32>)
    ensures
        r == pid_in(content@),
{
    number::parse_u32(text::trim(content).as_str())
}

/// The text of a PID file.
pub fn pid_file_text(pid: u32) -> (r: String)
    ensures
        r@ == number::decimal(pid as nat),
{
    number::u64_to_text(pid as u64)
}

/// Whether a process is a running daemon: it takes signals, and its command is
/// this program's. `command` is the name of its command, where that is known; a
/// process whose command is not known counts as the daemon.
pub open spec fn running(takes_signals: bool, command: Option<Seq<char>>) -> bool {
    takes_signals && match command {
        Some(c) => text::has_text(text::trimmed(c), "open-flow"@),
        None => true,
    }
}

/// Whether a process is a running daemon.
pub fn is_running(takes_signals: bool, command: Option<&str>) -> (r: bool)
    ensures
        r == running(takes_signals, text::str_view(command)),
{
    if !takes_signals {
        return false;
    }
    match command {
        Some(c) => text::contains(text::trim(c).as_str(), "open-flow"),
        None => true,
    }
}

/// Whether a process is running, by its exit code where that is to be had: the
/// code that Windows gives for a process that has not exited.
pub fn is_active_exit_code(code: Option<u32>) -> (r: bool)
    ensures
        r == (code == Some(STILL_ACTIVE)),
{
    match code {
        Some(c) => c == STILL_ACTIVE,
        None => false,
    }
}

/// Whether a console event asks the daemon to end: Ctrl+C or Ctrl+Break.
pub fn is_shutdown_event(event: u32) -> (r: bool)
    ensures
        r == (event == CTRL_C_EVENT || event == CTRL_BREAK_EVENT),
{
    event == CTRL_C_EVENT || event == CTRL_BREAK_EVENT
}

/// What a start command finds.
#[derive(Debug, Clone, Copy, PartialEq, Eq, Structural)]
pub enum StartCheck {
    /// A daemon is running already: nothing is started.
    AlreadyRunning(u32),
    /// The PID file is of a process that is gone: it is removed first.
    RemoveStalePid,
    Start,
}

/// What a start command finds: `recorded` is the process id in the PID file,
/// where there is one, and whether that process is a running daemon.
pub fn check_start(recorded: Option<(u32, bool)>) -> (r: StartCheck)
    ensures
        r == (match recorded {
            Some((pid, true)) => StartCheck::AlreadyRunning(pid),
            Some((_, false)) => StartCheck::RemoveStalePid,
            None => StartCheck::Start,
        }),
{
    match recorded {
        Some((pid, alive)) => if alive {
            StartCheck::AlreadyRunning(pid)
        } else {
            StartCheck::RemoveStalePid
        },
        None => StartCheck::Start,
    }
}

/// The arguments of the background process: it runs in the foreground, with the
/// model that was asked for.
pub fn background_args(model: Option<String>) -> (r: Vec<String>)
    ensures
        text::views(r@) == seq!["start"@, "--foreground"@] + (match model {
            Some(m) => seq!["--model"@, m@],
            None => seq![],
        }),
{
    let mut args: Vec<String> = Vec::new();
    args.push("start".to_owned());
    args.push("--foreground".to_owned());
    let ghost first = args@;
    if let Some(m) = model {
        args.push("--model".to_owned());
        let ghost second = args@;
        args.push(m);
        assert(text::views(args@) =~= text::views(first).push("--model"@).push(m@));
    }
    assert(text::views(first) =~= seq!["start"@, "--foreground"@]);
    args
}

/// The provider to use.
pub enum ProviderChoice {
    Groq(GroqAsrProvider),
    Local,
    /// Groq was configured but cannot be used, for this reason.
    LocalInsteadOfGroq(String),
}

/// The provider to use: Groq where it is configured and a key is known, else the
/// local one. `env_key` is the value of GROQ_API_KEY, where it is set.
pub fn select_provider(config: &Config, env_key: Option<String>) -> (r: ProviderChoice)
    ensures
        ({
            let key = match env_key {
                Some(k) => k@,
                None => config@.groq_api_key,
            };
            if config@.provider != "groq"@ {
                r is Local
            } else if text::trimmed(key).len() > 0 {
                &&& r matches ProviderChoice::Groq(p)
                &&& p.key() == key
                &&& p.model_name() == config@.groq_model
                &&& p.hint() == config@.groq_language
            } else {
                &&& r matches ProviderChoice::LocalInsteadOfGroq(e)
                &&& e@
                    == "Groq API key is required. Set GROQ_API_KEY env var or groq_api_key in config.toml"@
            }
        }),
{
    if !text::same_text(config.provider.as_str(), "groq") {
        return ProviderChoice::Local;
    }
    let key = config.resolved_groq_api_key(env_key);
    match GroqAsrProvider::new(key, config.groq_model.clone(), config.groq_language.clone()) {
        Ok(p) => ProviderChoice::Groq(p),
        Err(e) => ProviderChoice::LocalInsteadOfGroq(e),
    }
}

/// Whether the local provider takes over a recording from Groq: where Groq failed
/// to transcribe it and the local provider is ready.
pub fn falls_back_to_local(groq_failed: bool, local_ready: bool) -> (r: bool)
    ensures
        r == (groq_failed && local_ready),
{
    groq_failed && local_ready
}

/// Why the main loop ends.
#[derive(Debug, Clone, Copy, PartialEq, Eq, Structural)]
pub enum ExitReason {
    TrayExit,
    Signal,
    DaemonGone,
}

/// Why the main loop ends, if it does: the tray's exit before a signal, before
/// the end of the daemon.
pub fn exit_reason(tray_exit: bool, signal: bool, daemon_alive: bool) -> (r: Option<ExitReason>)
    ensures
        r == (if tray_exit {
            Some(ExitReason::TrayExit)
        } else if signal {
            Some(ExitReason::Signal)
        } else if !daemon_alive {
            Some(ExitReason::DaemonGone)
        } else {
            None
        }),
{
    if tray_exit {
        Some(ExitReason::TrayExit)
    } else if signal {
        Some(ExitReason::Signal)
    } else if !daemon_alive {
        Some(ExitReason::DaemonGone)
    } else {
        None
    }
}

/// What a stop command finds.
#[derive(Debug, Clone, Copy, PartialEq, Eq, Structural)]
pub enum StopCheck {
    /// There is no PID file.
    NotRunning,
    /// The PID file is of a process that is gone: it is removed.
    RemoveStalePid(u32),
    /// The process is asked to end.
    Terminate(u32),
}

/// What a stop command finds: `recorded` is the process id in the PID file,
/// where there is one, and whether that process is a running daemon.
pub fn check_stop(recorded: Option<(u32, bool)>) -> (r: StopCheck)
    ensures
        r == (match recorded {
            Some((pid, true)) => StopCheck::Terminate(pid),
            Some((pid, false)) => StopCheck::RemoveStalePid(pid),
            None => StopCheck::NotRunning,
        }),
{
    match recorded {
        Some((pid, alive)) => if alive {
            StopCheck::Terminate(pid)
        } else {
            StopCheck::RemoveStalePid(pid)
        },
        None => StopCheck::NotRunning,
    }
}

/// What is done after a look at a daemon that was asked to end.
#[derive(Debug, Clone, Copy, PartialEq, Eq, Structural)]
pub enum StopStep {
    /// It has ended.
    Stopped,
    /// Look again later.
    Wait,
    /// It has had its time: it is killed.
    Kill,
}

/// The wait for a daemon that was asked to end.
pub struct StopWait {
    polls: u32,
}

impl StopWait {
    /// How often it was looked.
    pub closed spec fn looks(self) -> u32 {
        self.polls
    }

    /// Nothing was looked at yet.
    pub fn new() -> (r: StopWait)
        ensures
            r.looks() == 0,
    {
        StopWait { polls: 0 }
    }

    /// Takes in whether the daemon is still running. Until it is not, it is
    /// looked [`STOP_POLLS`] times in all.
    pub fn poll(&mut self, alive: bool) -> (r: StopStep)
        requires
            old(self).looks() < STOP_POLLS,
        ensures
            final(self).looks() == old(self).looks() + 1,
            r == (if !alive {
                StopStep::Stopped
            } else if final(self).looks() < STOP_POLLS {
                StopStep::Wait
            } else {
                StopStep::Kill
            }),
    {
        self.polls = self.polls + 1;
        if !alive {
            StopStep::Stopped
        } else if self.polls < STOP_POLLS {
            StopStep::Wait
        } else {
            StopStep::Kill
        }
    }
}

/// Whether to go on waiting for the daemon's thread to end, where the wait has
/// lasted so many milliseconds.
pub fn awaits_thread(elapsed_ms: u64, finished: bool) -> (r: bool)
    ensures
        r == (!finished && elapsed_ms < EXIT_WAIT_MS),
{
    !finished && elapsed_ms < EXIT_WAIT_MS
}

/// What a look at the tray's preferences request leads to.
#[derive(Debug)]
pub enum PreferencesAction {
    /// They were not asked for.
    Ignore,
    /// The settings program at this path is started.
    Launch(String),
    /// There is no settings program.
    Missing,
}

/// What a look at the tray's preferences request leads to; `settings_app` is the
/// path of the settings program, where there is one.
pub fn preferences_action(requested: bool, settings_app: Option<String>) -> (r: PreferencesAction)
    ensures
        r == (if !requested {
            PreferencesAction::Ignore
        } else {
            match settings_app {
                Some(path) => PreferencesAction::Launch(path),
                None => PreferencesAction::Missing,
            }
        }),
{
    if !requested {
        return PreferencesAction::Ignore;
    }
    match settings_app {
        Some(path) => PreferencesAction::Launch(path),
        None => PreferencesAction::Missing,
    }
}

/// What the status command finds.
#[derive(Debug, Clone, Copy, PartialEq, Eq, Structural)]
pub enum DaemonStatus {
    Running(u32),
    /// The PID file is of a process that is gone: it is removed.
    Stale(u32),
    NotRunning,
}

/// What the status command finds: `recorded` is the process id in the PID file,
/// where there is one, and whether that process is a running daemon.
pub fn status(recorded: Option<(u32, bool)>) -> (r: DaemonStatus)
    ensures
        r == (match recorded {
            Some((pid, true)) => DaemonStatus::Running(pid),
            Some((pid, false)) => DaemonStatus::Stale(pid),
            None => DaemonStatus::NotRunning,
        }),
{
    match recorded {
        Some((pid, alive)) => if alive {
            DaemonStatus::Running(pid)
        } else {
            DaemonStatus::Stale(pid)
        },
        None => DaemonStatus::NotRunning,
    }
}

/// How long a process has been running, from what `ps` printed; `None` where
/// `ps` failed.
pub fn uptime_text(ps_output: Option<&str>) -> (r: String)
    ensures
        r@ == (match ps_output {
            Some(out) => text::trimmed(out@),
            None => "unknown"@,
        }),
{
    match ps_output {
        Some(out) => text::trim(out),
        None => "unknown".to_owned(),
    }
}

// ── Laws ─────────────────────────────────────────────────────────────────────

/// Digits have no whitespace around them.
proof fn lemma_digits_are_trimmed(s: Seq<char>)
    requires
        number::all_digits(s),
    ensures
        text::trimmed(s) == s,
{
    if s.len() > 0 {
        assert(number::is_digit(s[0]));
        assert(number::is_digit(s[s.len() - 1]));
    }
}

/// The process id that is written to the PID file is the one read back from it.
pub proof fn law_pid_file_round_trip(pid: u32)
    ensures
        pid_in(number::decimal(pid as nat)) == Some(pid),
{
    number::lemma_decimal_value(pid as nat);
    lemma_digits_are_trimmed(number::decimal(pid as nat));
    number::law_u32_round_trip(pid);
}

/// A process id is read from its digits, whatever whitespace is around them.
pub proof fn law_padded_pid_is_read(before: Seq<char>, pid: u32, after: Seq<char>)
    requires
        forall|i: int| 0 <= i < before.len() ==> text::is_white(#[trigger] before[i]),
        forall|i: int| 0 <= i < after.len() ==> text::is_white(#[trigger] after[i]),
    ensures
        pid_in(before + number::decimal(pid as nat) + after) == Some(pid),
{
    let digits = number::decimal(pid as nat);
    number::law_decimal_digits(pid as nat);
    assert(48 <= digits[0] as int <= 57);
    assert(48 <= digits[digits.len() - 1] as int <= 57);
    text::law_padding_is_trimmed(before, digits, after);
    number::law_u32_round_trip(pid);
}

/// The process id is the number that the file holds once whitespace around it is
/// cut off; where that is no number, there is none.
pub proof fn law_pid_is_the_number_in_the_file(content: Seq<char>)
    ensures
        pid_in(content) == number::u32_of(text::trimmed(content)),
{
}

/// A process that takes signals is the running daemon exactly if `open-flow`
/// stands somewhere in the name of its command, or that name is not known; one
/// that takes none is not.
pub proof fn law_running_daemon_by_name(command: Seq<char>)
    ensures
        running(true, Some(command)) <==> text::has_text(command, "open-flow"@),
        running(true, None),
        !running(false, Some(command)),
        !running(false, None),
{
    reveal_strlit("open-flow");
    assert(text::is_word("open-flow"@));
    text::law_trimming_keeps_words(command, "open-flow"@);
}

/// A daemon that was asked to end is given three seconds, and its thread two; a
/// Windows process that has not exited is told by the code 259.
pub proof fn law_waiting_times()
    ensures
        STOP_POLLS * STOP_POLL_MS == 3000,
        STOP_POLLS == 30,
        EXIT_WAIT_MS == 2000,
        STILL_ACTIVE == 259,
        CTRL_C_EVENT == 0,
        CTRL_BREAK_EVENT == 1,
{
}

}
