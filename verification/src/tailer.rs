//! The supervisor of the console sessions: which sessions a change of the
//! fleet ends, probes and starts, and how a session is started.

use crate::fleet::{absent_from, present_in, DeviceSet};
use crate::servers::{log_file_name, sos_address, Device, DeviceView};
use vstd::prelude::*;
use vstd::string::*;

verus! {

/// The byte written to a live session's input on every tick, so that the
/// remote console neither times out nor blanks.
pub const KEEPALIVE_BYTE: u8 = 0x08;

/// How long a relaunch waits before it starts the new process, so that a
/// target that keeps failing is not retried in a tight loop.
pub const RESTART_DELAY_MILLIS: u64 = 50;

/// The line written to a transcript before a session is relaunched.
pub open spec fn restart_marker() -> Seq<char> {
    "\n\n ~~~ MAYDAY TAILER RESTART ~~~ \n\n"@
}

/// Where one of the standard streams of a session's process leads.
#[derive(Clone, Copy, Debug, PartialEq, Eq, Structural)]
pub enum Stream {
    /// A pipe whose other end the supervisor holds.
    Piped,
    /// The session's transcript file.
    Transcript,
    /// The supervisor's own stream.
    Inherited,
}

/// Everything needed to start one console session: the program and its
/// arguments, the transcript file (opened for appending, created where it is
/// missing), what is written to the transcript and how long is waited before
/// the process starts, and where its standard streams lead.
#[derive(Debug)]
pub struct Launch {
    pub program: String,
    pub arguments: Vec<String>,
    pub log_dir: String,
    pub log_name: String,
    pub marker: Option<String>,
    pub delay_millis: u64,
    pub stdin: Stream,
    pub stdout: Stream,
    pub stderr: Stream,
}

/// The mathematical value of a [`Launch`].
pub struct LaunchView {
    pub program: Seq<char>,
    pub arguments: Seq<Seq<char>>,
    pub log_dir: Seq<char>,
    pub log_name: Seq<char>,
    pub marker: Option<Seq<char>>,
    pub delay_millis: u64,
    pub stdin: Stream,
    pub stdout: Stream,
    pub stderr: Stream,
}

impl View for Launch {
    type V = LaunchView;

    open spec fn view(&self) -> LaunchView {
        LaunchView {
            program: self.program@,
            arguments: self.arguments@.map_values(|a: String| a@),
            log_dir: self.log_dir@,
            log_name: self.log_name@,
            marker: match self.marker {
                Some(m) => Some(m@),
                None => None,
            },
            delay_millis: self.delay_millis,
            stdin: self.stdin,
            stdout: self.stdout,
            stderr: self.stderr,
        }
    }
}

/// The launch of the console session for device `d`, with transcripts under
/// `output_dir`: an interactive remote shell to the device's console address,
/// whose input the supervisor can write to, whose output goes to the
/// transcript, and whose errors go where the supervisor's go. A first launch
/// starts at once; a relaunch first writes the restart marker and waits.
pub open spec fn launch_of(output_dir: Seq<char>, d: DeviceView, restart: bool) -> LaunchView {
    LaunchView {
        program: "ssh"@,
        arguments: seq!["-t"@, "-t"@, sos_address(d)],
        log_dir: output_dir,
        log_name: log_file_name(d),
        marker: if restart {
            Some(restart_marker())
        } else {
            None
        },
        delay_millis: if restart {
            RESTART_DELAY_MILLIS
        } else {
            0
        },
        stdin: Stream::Piped,
        stdout: Stream::Transcript,
        stderr: Stream::Inherited,
    }
}

/// Describes how to start the console session of `device`.
pub fn spawn_tailer(output_dir: &String, device: &Device, restart: bool) -> (launch: Launch)
    ensures
        launch@ == launch_of(output_dir@, device@, restart),
{
    let mut arguments: Vec<String> = Vec::new();
    arguments.push(String::from_str("-t"));
    arguments.push(String::from_str("-t"));
    arguments.push(device.sos());
    let launch = Launch {
        program: String::from_str("ssh"),
        arguments,
        log_dir: output_dir.clone(),
        log_name: device.log_name(),
        marker: if restart {
            Some(String::from_str("\n\n ~~~ MAYDAY TAILER RESTART ~~~ \n\n"))
        } else {
            None
        },
        delay_millis: if restart {
            RESTART_DELAY_MILLIS
        } else {
            0
        },
        stdin: Stream::Piped,
        stdout: Stream::Transcript,
        stderr: Stream::Inherited,
    };
    assert(launch@.arguments =~= seq!["-t"@, "-t"@, sos_address(device@)]);
    launch
}

/// One piece of outside work that a tick asks for, in the order in which it
/// is to be done.
#[derive(Debug)]
pub enum Command {
    /// Terminate the session of a device that left the fleet. A session that
    /// has already exited is no failure.
    Kill { device: Device },
    /// Probe the session of the device without blocking, and hand the result
    /// to [`Tailer::react`].
    Check { device: Device },
    /// Start the first session of a device that joined the fleet.
    Spawn { device: Device, launch: Launch },
}

/// The mathematical value of a [`Command`].
pub enum CommandView {
    Kill(DeviceView),
    Check(DeviceView),
    Spawn(DeviceView, LaunchView),
}

impl View for Command {
    type V = CommandView;

    open spec fn view(&self) -> CommandView {
        match self {
            Command::Kill { device } => CommandView::Kill(device@),
            Command::Check { device } => CommandView::Check(device@),
            Command::Spawn { device, launch } => CommandView::Spawn(device@, launch@),
        }
    }
}

/// The views of a run of commands, in order.
pub open spec fn command_views(commands: Seq<Command>) -> Seq<CommandView> {
    commands.map_values(|c: Command| c@)
}

/// What a non-blocking liveness probe of a session found.
#[derive(Clone, Copy, Debug, PartialEq, Eq, Structural)]
pub enum Probe {
    /// The process has exited.
    Exited,
    /// The process is still running.
    Running,
    /// The probe itself failed: the session is neither known to have exited
    /// nor confirmed to run.
    Unknown,
}

/// What is to be done with a session once it has been probed.
#[derive(Debug)]
pub enum Reaction {
    /// Relaunch the session in place, keeping its entry.
    Respawn { launch: Launch },
    /// Write one byte to the session's input.
    Keepalive { byte: u8 },
    /// Leave the session as it is.
    Leave,
}

/// The mathematical value of a [`Reaction`].
pub enum ReactionView {
    Respawn(LaunchView),
    Keepalive(u8),
    Leave,
}

impl View for Reaction {
    type V = ReactionView;

    open spec fn view(&self) -> ReactionView {
        match self {
            Reaction::Respawn { launch } => ReactionView::Respawn(launch@),
            Reaction::Keepalive { byte } => ReactionView::Keepalive(*byte),
            Reaction::Leave => ReactionView::Leave,
        }
    }
}

/// The devices whose sessions a tick terminates: those that left the fleet
/// and have a session, in the order in which they are reported.
pub open spec fn kills(sessions: Seq<DeviceView>, removed: Seq<DeviceView>) -> Seq<DeviceView> {
    removed.filter(present_in(sessions))
}

/// The sessions that outlive a tick's removals.
pub open spec fn survivors(sessions: Seq<DeviceView>, removed: Seq<DeviceView>) -> Seq<
    DeviceView,
> {
    sessions.filter(absent_from(removed))
}

/// The devices whose sessions a tick probes: the sessions of the devices
/// that this tick neither removes nor adds.
pub open spec fn checks(
    sessions: Seq<DeviceView>,
    added: Seq<DeviceView>,
    removed: Seq<DeviceView>,
) -> Seq<DeviceView> {
    survivors(sessions, removed).filter(absent_from(added))
}

/// The devices that have a session once a tick is over.
pub open spec fn sessions_after(
    sessions: Seq<DeviceView>,
    added: Seq<DeviceView>,
    removed: Seq<DeviceView>,
) -> Seq<DeviceView> {
    survivors(sessions, removed) + added.filter(absent_from(survivors(sessions, removed)))
}

/// The commands of one tick: every removal, then every probe, then every
/// first launch.
pub open spec fn plan(
    output_dir: Seq<char>,
    sessions: Seq<DeviceView>,
    added: Seq<DeviceView>,
    removed: Seq<DeviceView>,
) -> Seq<CommandView> {
    kills(sessions, removed).map_values(|d: DeviceView| CommandView::Kill(d)) + checks(
        sessions,
        added,
        removed,
    ).map_values(|d: DeviceView| CommandView::Check(d)) + added.map_values(
        |d: DeviceView| CommandView::Spawn(d, launch_of(output_dir, d, false)),
    )
}

/// What is done with the session of device `d` after a probe of it: an exited
/// session is relaunched, a running one is kept awake, and one whose probe
/// failed is left alone. A device without a session is left alone too.
pub open spec fn reaction_to(
    output_dir: Seq<char>,
    sessions: Seq<DeviceView>,
    d: DeviceView,
    probe: Probe,
) -> ReactionView {
    if !sessions.contains(d) {
        ReactionView::Leave
    } else {
        match probe {
            Probe::Exited => ReactionView::Respawn(launch_of(output_dir, d, true)),
            Probe::Running => ReactionView::Keepalive(KEEPALIVE_BYTE),
            Probe::Unknown => ReactionView::Leave,
        }
    }
}

/// The supervisor: the devices that have a console session, and the
/// directory that holds their transcripts.
pub struct Tailer {
    output_dir: String,
    children: DeviceSet,
}

impl Tailer {
    /// The devices that have a session, in the order in which their sessions
    /// were started.
    pub closed spec fn sessions(&self) -> Seq<DeviceView> {
        self.children@
    }

    /// The directory that holds the transcripts.
    pub closed spec fn directory(&self) -> Seq<char> {
        self.output_dir@
    }

    /// A supervisor without sessions, writing transcripts under `output_dir`.
    pub fn new(output_dir: String) -> (tailer: Tailer)
        ensures
            tailer.sessions() == Seq::<DeviceView>::empty(),
            tailer.directory() == output_dir@,
    {
        Tailer { output_dir, children: DeviceSet::new() }
    }

    /// The devices that have a session.
    pub fn children(&self) -> (held: &DeviceSet)
        ensures
            held@ == self.sessions(),
            self.sessions().no_duplicates(),
    {
        proof {
            use_type_invariant(&self.children);
        }
        &self.children
    }

    /// The directory that holds the transcripts.
    pub fn output_dir(&self) -> (dir: &String)
        ensures
            dir@ == self.directory(),
    {
        &self.output_dir
    }

    /// Brings the sessions in line with a change of the fleet, and returns the
    /// outside work this takes, in order: the sessions of removed devices are
    /// terminated and forgotten, then the sessions that stay are probed, then a
    /// session is started for each added device.
    pub fn update(&mut self, added: DeviceSet, removed: DeviceSet) -> (commands: Vec<Command>)
        ensures
            command_views(commands@) == plan(
                old(self).directory(),
                old(self).sessions(),
                added@,
                removed@,
            ),
            final(self).sessions() == sessions_after(old(self).sessions(), added@, removed@),
            final(self).sessions().no_duplicates(),
            final(self).directory() == old(self).directory(),
    {
        let gone = removed.intersection(&self.children);
        let staying = self.children.difference(&removed);
        let probed = staying.difference(&added);
        let kept = staying.union(&added);
        let ghost dir = self.output_dir@;
        let ghost kill_part = gone@.map_values(|d: DeviceView| CommandView::Kill(d));
        let ghost check_part = probed@.map_values(|d: DeviceView| CommandView::Check(d));
        let ghost spawn_part = added@.map_values(
            |d: DeviceView| CommandView::Spawn(d, launch_of(dir, d, false)),
        );
        let mut commands: Vec<Command> = Vec::new();
        assert(command_views(commands@) =~= kill_part.take(0));
        let mut i: usize = 0;
        while i < gone.len()
            invariant
                i <= gone@.len(),
                kill_part == gone@.map_values(|d: DeviceView| CommandView::Kill(d)),
                command_views(commands@) == kill_part.take(i as int),
            decreases gone@.len() - i,
        {
            let ghost before = commands@;
            commands.push(Command::Kill { device: gone.get(i).clone() });
            assert(command_views(commands@) =~= command_views(before).push(
                CommandView::Kill(gone@[i as int]),
            ));
            assert(kill_part.take(i + 1) =~= kill_part.take(i as int).push(kill_part[i as int]));
            i += 1;
        }
        assert(kill_part.take(gone@.len() as int) =~= kill_part);
        assert(kill_part + check_part.take(0) =~= kill_part);
        let mut j: usize = 0;
        while j < probed.len()
            invariant
                j <= probed@.len(),
                check_part == probed@.map_values(|d: DeviceView| CommandView::Check(d)),
                command_views(commands@) == kill_part + check_part.take(j as int),
            decreases probed@.len() - j,
        {
            let ghost before = commands@;
            commands.push(Command::Check { device: probed.get(j).clone() });
            assert(command_views(commands@) =~= command_views(before).push(
                CommandView::Check(probed@[j as int]),
            ));
            assert(kill_part + check_part.take(j + 1) =~= (kill_part + check_part.take(
                j as int,
            )).push(check_part[j as int]));
            j += 1;
        }
        assert(check_part.take(probed@.len() as int) =~= check_part);
        assert(kill_part + check_part + spawn_part.take(0) =~= kill_part + check_part);
        let mut k: usize = 0;
        while k < added.len()
            invariant
                k <= added@.len(),
                dir == self.output_dir@,
                spawn_part == added@.map_values(
                    |d: DeviceView| CommandView::Spawn(d, launch_of(dir, d, false)),
                ),
                command_views(commands@) == kill_part + check_part + spawn_part.take(k as int),
            decreases added@.len() - k,
        {
            let ghost before = commands@;
            let device = added.get(k).clone();
            let launch = spawn_tailer(&self.output_dir, &device, false);
            commands.push(Command::Spawn { device, launch });
            assert(command_views(commands@) =~= command_views(before).push(
                CommandView::Spawn(added@[k as int], launch_of(dir, added@[k as int], false)),
            ));
            assert(kill_part + check_part + spawn_part.take(k + 1) =~= (kill_part + check_part
                + spawn_part.take(k as int)).push(spawn_part[k as int]));
            k += 1;
        }
        assert(spawn_part.take(added@.len() as int) =~= spawn_part);
        self.children = kept;
        commands
    }

    /// Decides what is done with the session of `device` after a probe of it.
    pub fn react(&self, device: &Device, probe: Probe) -> (reaction: Reaction)
        ensures
            reaction@ == reaction_to(self.directory(), self.sessions(), device@, probe),
    {
        if !self.children.contains(device) {
            Reaction::Leave
        } else {
            match probe {
                Probe::Exited => Reaction::Respawn {
                    launch: spawn_tailer(&self.output_dir, device, true),
                },
                Probe::Running => Reaction::Keepalive { byte: KEEPALIVE_BYTE },
                Probe::Unknown => Reaction::Leave,
            }
        }
    }

    /// Gives up every session: returns one termination per session, in order,
    /// and leaves the supervisor without sessions.
    pub fn shutdown(&mut self) -> (commands: Vec<Command>)
        ensures
            command_views(commands@) == old(self).sessions().map_values(
                |d: DeviceView| CommandView::Kill(d),
            ),
            final(self).sessions() == Seq::<DeviceView>::empty(),
            final(self).directory() == old(self).directory(),
    {
        let ghost kill_part = self.children@.map_values(|d: DeviceView| CommandView::Kill(d));
        let mut commands: Vec<Command> = Vec::new();
        assert(command_views(commands@) =~= kill_part.take(0));
        let mut i: usize = 0;
        while i < self.children.len()
            invariant
                i <= self.children@.len(),
                kill_part == self.children@.map_values(|d: DeviceView| CommandView::Kill(d)),
                command_views(commands@) == kill_part.take(i as int),
            decreases self.children@.len() - i,
        {
            let ghost before = commands@;
            commands.push(Command::Kill { device: self.children.get(i).clone() });
            assert(command_views(commands@) =~= command_views(before).push(
                CommandView::Kill(self.children@[i as int]),
            ));
            assert(kill_part.take(i + 1) =~= kill_part.take(i as int).push(kill_part[i as int]));
            i += 1;
        }
        assert(kill_part.take(self.children@.len() as int) =~= kill_part);
        self.children = DeviceSet::new();
        commands
    }
}

} // verus!
