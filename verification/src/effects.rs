//! What a tick of the supervisor does to each session, and the laws that
//! every tick obeys.

use crate::fleet::{
    absent_from, lemma_filter_keeps_distinct, lemma_union_distinct, present_in,
};
use crate::servers::{added_between, removed_between, DeviceView};
use crate::tailer::{
    checks, kills, launch_of, plan, reaction_to, sessions_after, survivors, CommandView, Probe,
    ReactionView,
};
use vstd::prelude::*;

verus! {

/// One thing that happens to the session of a device when the commands of a
/// tick are carried out.
pub enum Effect {
    /// The session's process is terminated and the session forgotten.
    Kill(DeviceView),
    /// The session's process is relaunched in place.
    Respawn(DeviceView),
    /// One byte is written to the session's input.
    Keepalive(DeviceView),
    /// The device's first session is started.
    Spawn(DeviceView),
}

/// What carrying out a reaction does to the session of `d`.
pub open spec fn reaction_effects(d: DeviceView, reaction: ReactionView) -> Seq<Effect> {
    match reaction {
        ReactionView::Respawn(_) => seq![Effect::Respawn(d)],
        ReactionView::Keepalive(_) => seq![Effect::Keepalive(d)],
        ReactionView::Leave => Seq::empty(),
    }
}

/// What carrying out one command does, where `probes` tells what a probe of
/// each device finds and `sessions` are the devices that have a session when
/// the probes are answered.
pub open spec fn command_effects(
    output_dir: Seq<char>,
    sessions: Seq<DeviceView>,
    command: CommandView,
    probes: spec_fn(DeviceView) -> Probe,
) -> Seq<Effect> {
    match command {
        CommandView::Kill(d) => seq![Effect::Kill(d)],
        CommandView::Check(d) => reaction_effects(
            d,
            reaction_to(output_dir, sessions, d, probes(d)),
        ),
        CommandView::Spawn(d, _) => seq![Effect::Spawn(d)],
    }
}

/// What carrying out a run of commands does, in order.
pub open spec fn effects(
    output_dir: Seq<char>,
    sessions: Seq<DeviceView>,
    commands: Seq<CommandView>,
    probes: spec_fn(DeviceView) -> Probe,
) -> Seq<Effect>
    decreases commands.len(),
{
    if commands.len() == 0 {
        Seq::empty()
    } else {
        effects(output_dir, sessions, commands.drop_last(), probes) + command_effects(
            output_dir,
            sessions,
            commands.last(),
            probes,
        )
    }
}

/// Everything that one tick does: the effects of its plan, with every probe
/// answered by the supervisor as it stands after the plan was made.
pub open spec fn tick_effects(
    output_dir: Seq<char>,
    sessions: Seq<DeviceView>,
    added: Seq<DeviceView>,
    removed: Seq<DeviceView>,
    probes: spec_fn(DeviceView) -> Probe,
) -> Seq<Effect> {
    effects(
        output_dir,
        sessions_after(sessions, added, removed),
        plan(output_dir, sessions, added, removed),
        probes,
    )
}

/// How often `e` happens in `trace`.
pub open spec fn occurrences(trace: Seq<Effect>, e: Effect) -> nat
    decreases trace.len(),
{
    if trace.len() == 0 {
        0
    } else {
        occurrences(trace.drop_last(), e) + if trace.last() == e {
            1nat
        } else {
            0nat
        }
    }
}

/// An effect happens in two runs, one after the other, as often as in both
/// together.
proof fn lemma_occurrences_concat(a: Seq<Effect>, b: Seq<Effect>, e: Effect)
    ensures
        occurrences(a + b, e) == occurrences(a, e) + occurrences(b, e),
    decreases b.len(),
{
    if b.len() == 0 {
        assert(a + b =~= a);
    } else {
        lemma_occurrences_concat(a, b.drop_last(), e);
        assert((a + b).drop_last() =~= a + b.drop_last());
        assert((a + b).last() == b.last());
    }
}

/// An effect happens in no effects not at all, and in a single effect once
/// if it is that effect.
proof fn lemma_occurrences_short(x: Effect, e: Effect)
    ensures
        occurrences(Seq::empty(), e) == 0,
        occurrences(seq![x], e) == if x == e {
            1nat
        } else {
            0nat
        },
{
    assert(seq![x].drop_last() =~= Seq::empty());
    assert(seq![x].last() == x);
}

/// The effects of two runs of commands, one after the other, are the effects
/// of the first followed by those of the second.
proof fn lemma_effects_concat(
    output_dir: Seq<char>,
    sessions: Seq<DeviceView>,
    a: Seq<CommandView>,
    b: Seq<CommandView>,
    probes: spec_fn(DeviceView) -> Probe,
)
    ensures
        effects(output_dir, sessions, a + b, probes) == effects(output_dir, sessions, a, probes)
            + effects(output_dir, sessions, b, probes),
    decreases b.len(),
{
    if b.len() == 0 {
        assert(a + b =~= a);
        assert(effects(output_dir, sessions, a, probes) + Seq::<Effect>::empty() =~= effects(
            output_dir,
            sessions,
            a,
            probes,
        ));
    } else {
        lemma_effects_concat(output_dir, sessions, a, b.drop_last(), probes);
        assert((a + b).drop_last() =~= a + b.drop_last());
        assert((a + b).last() == b.last());
        let last = command_effects(output_dir, sessions, b.last(), probes);
        assert((effects(output_dir, sessions, a, probes) + effects(
            output_dir,
            sessions,
            b.drop_last(),
            probes,
        )) + last =~= effects(output_dir, sessions, a, probes) + (effects(
            output_dir,
            sessions,
            b.drop_last(),
            probes,
        ) + last));
    }
}

/// In the effects of one command per device of a duplicate-free run, an
/// effect that only the command of device `d` can have happens as often as
/// that one command has it.
proof fn lemma_phase_occurrences(
    output_dir: Seq<char>,
    sessions: Seq<DeviceView>,
    devices: Seq<DeviceView>,
    command_for: spec_fn(DeviceView) -> CommandView,
    probes: spec_fn(DeviceView) -> Probe,
    e: Effect,
    d: DeviceView,
)
    requires
        devices.no_duplicates(),
        forall|x: DeviceView|
            x != d ==> occurrences(
                #[trigger] command_effects(output_dir, sessions, command_for(x), probes),
                e,
            ) == 0,
    ensures
        occurrences(effects(output_dir, sessions, devices.map_values(command_for), probes), e)
            == if devices.contains(d) {
            occurrences(command_effects(output_dir, sessions, command_for(d), probes), e)
        } else {
            0
        },
    decreases devices.len(),
{
    let commands = devices.map_values(command_for);
    if devices.len() > 0 {
        let rest = devices.drop_last();
        let last = devices.last();
        lemma_phase_occurrences(output_dir, sessions, rest, command_for, probes, e, d);
        assert(commands.drop_last() =~= rest.map_values(command_for));
        assert(commands.last() == command_for(last));
        lemma_occurrences_concat(
            effects(output_dir, sessions, commands.drop_last(), probes),
            command_effects(output_dir, sessions, command_for(last), probes),
            e,
        );
        if rest.contains(d) {
            let i = choose|i: int| 0 <= i < rest.len() && rest[i] == d;
            assert(devices[i] == d);
            assert(devices[devices.len() - 1] == last);
            assert(last != d);
        } else if last == d {
            assert(devices[devices.len() - 1] == d);
        } else {
            if devices.contains(d) {
                let i = choose|i: int| 0 <= i < devices.len() && devices[i] == d;
                assert(rest[i] == d);
            }
        }
    }
}

/// The device whose session an effect touches.
pub open spec fn device_of(e: Effect) -> DeviceView {
    match e {
        Effect::Kill(d) => d,
        Effect::Respawn(d) => d,
        Effect::Keepalive(d) => d,
        Effect::Spawn(d) => d,
    }
}

/// A command touches the session of its own device only.
proof fn lemma_other_device(
    output_dir: Seq<char>,
    sessions: Seq<DeviceView>,
    command: CommandView,
    probes: spec_fn(DeviceView) -> Probe,
    e: Effect,
)
    requires
        device_of(e) != match command {
            CommandView::Kill(d) => d,
            CommandView::Check(d) => d,
            CommandView::Spawn(d, _) => d,
        },
    ensures
        occurrences(command_effects(output_dir, sessions, command, probes), e) == 0,
{
    match command {
        CommandView::Kill(d) => {
            lemma_occurrences_short(Effect::Kill(d), e);
        },
        CommandView::Check(d) => {
            lemma_occurrences_short(Effect::Respawn(d), e);
            lemma_occurrences_short(Effect::Keepalive(d), e);
        },
        CommandView::Spawn(d, _) => {
            lemma_occurrences_short(Effect::Spawn(d), e);
        },
    }
}

/// Whether a tick terminates the session of `d`: `d` left the fleet and has
/// a session.
pub open spec fn is_killed(sessions: Seq<DeviceView>, removed: Seq<DeviceView>, d: DeviceView) -> bool {
    removed.contains(d) && sessions.contains(d)
}

/// Whether a tick probes the session of `d`: `d` has a session and the tick
/// neither removes nor adds it.
pub open spec fn is_probed(
    sessions: Seq<DeviceView>,
    added: Seq<DeviceView>,
    removed: Seq<DeviceView>,
    d: DeviceView,
) -> bool {
    sessions.contains(d) && !removed.contains(d) && !added.contains(d)
}

/// How often `e` is among `effects`, where `held` says whether they happen
/// at all.
spec fn share(held: bool, effects: Seq<Effect>, e: Effect) -> nat {
    if held {
        occurrences(effects, e)
    } else {
        0
    }
}

/// How often an effect on a device happens in a tick: as often as the
/// removal, the probe and the first launch of that device have it, where the
/// tick holds them.
proof fn lemma_tick_occurrences(
    output_dir: Seq<char>,
    sessions: Seq<DeviceView>,
    added: Seq<DeviceView>,
    removed: Seq<DeviceView>,
    probes: spec_fn(DeviceView) -> Probe,
    e: Effect,
)
    requires
        sessions.no_duplicates(),
        added.no_duplicates(),
        removed.no_duplicates(),
    ensures
        occurrences(tick_effects(output_dir, sessions, added, removed, probes), e) == share(
            is_killed(sessions, removed, device_of(e)),
            seq![Effect::Kill(device_of(e))],
            e,
        ) + share(
            is_probed(sessions, added, removed, device_of(e)),
            reaction_effects(
                device_of(e),
                reaction_to(
                    output_dir,
                    sessions_after(sessions, added, removed),
                    device_of(e),
                    probes(device_of(e)),
                ),
            ),
            e,
        ) + share(added.contains(device_of(e)), seq![Effect::Spawn(device_of(e))], e),
        forall|x: DeviceView|
            sessions_after(sessions, added, removed).contains(x) <==> ((sessions.contains(x)
                && !removed.contains(x)) || added.contains(x)),
        sessions_after(sessions, added, removed).no_duplicates(),
{
    let d = device_of(e);
    let after = sessions_after(sessions, added, removed);
    let kill_for = |x: DeviceView| CommandView::Kill(x);
    let check_for = |x: DeviceView| CommandView::Check(x);
    let spawn_for = |x: DeviceView| CommandView::Spawn(x, launch_of(output_dir, x, false));
    let kill_part = kills(sessions, removed).map_values(kill_for);
    let check_part = checks(sessions, added, removed).map_values(check_for);
    let spawn_part = added.map_values(spawn_for);
    lemma_filter_keeps_distinct(removed, present_in(sessions));
    lemma_filter_keeps_distinct(sessions, absent_from(removed));
    lemma_filter_keeps_distinct(survivors(sessions, removed), absent_from(added));
    lemma_union_distinct(survivors(sessions, removed), added);
    assert forall|x: DeviceView| x != d implies occurrences(
        #[trigger] command_effects(output_dir, after, kill_for(x), probes),
        e,
    ) == 0 by {
        lemma_other_device(output_dir, after, kill_for(x), probes, e);
    }
    assert forall|x: DeviceView| x != d implies occurrences(
        #[trigger] command_effects(output_dir, after, check_for(x), probes),
        e,
    ) == 0 by {
        lemma_other_device(output_dir, after, check_for(x), probes, e);
    }
    assert forall|x: DeviceView| x != d implies occurrences(
        #[trigger] command_effects(output_dir, after, spawn_for(x), probes),
        e,
    ) == 0 by {
        lemma_other_device(output_dir, after, spawn_for(x), probes, e);
    }
    lemma_phase_occurrences(output_dir, after, kills(sessions, removed), kill_for, probes, e, d);
    lemma_phase_occurrences(
        output_dir,
        after,
        checks(sessions, added, removed),
        check_for,
        probes,
        e,
        d,
    );
    lemma_phase_occurrences(output_dir, after, added, spawn_for, probes, e, d);
    lemma_effects_concat(output_dir, after, kill_part, check_part, probes);
    lemma_effects_concat(output_dir, after, kill_part + check_part, spawn_part, probes);
    lemma_occurrences_concat(
        effects(output_dir, after, kill_part, probes),
        effects(output_dir, after, check_part, probes),
        e,
    );
    lemma_occurrences_concat(
        effects(output_dir, after, kill_part + check_part, probes),
        effects(output_dir, after, spawn_part, probes),
        e,
    );
    assert(plan(output_dir, sessions, added, removed) == kill_part + check_part + spawn_part);
}

/// The census of a tick, device by device. The session of `d` is terminated
/// once if `d` left the fleet and has a session, and else not at all; it is
/// started once if `d` joined the fleet, and else not at all; it is relaunched
/// once if it is probed and found exited, kept awake once if it is probed and
/// found running, and else neither. When the tick is over `d` has a session
/// if it joined the fleet, or had a session and did not leave.
pub proof fn lemma_tick_census(
    output_dir: Seq<char>,
    sessions: Seq<DeviceView>,
    added: Seq<DeviceView>,
    removed: Seq<DeviceView>,
    probes: spec_fn(DeviceView) -> Probe,
    d: DeviceView,
)
    requires
        sessions.no_duplicates(),
        added.no_duplicates(),
        removed.no_duplicates(),
    ensures
        occurrences(
            tick_effects(output_dir, sessions, added, removed, probes),
            Effect::Kill(d),
        ) == if is_killed(sessions, removed, d) {
            1nat
        } else {
            0nat
        },
        occurrences(
            tick_effects(output_dir, sessions, added, removed, probes),
            Effect::Spawn(d),
        ) == if added.contains(d) {
            1nat
        } else {
            0nat
        },
        occurrences(
            tick_effects(output_dir, sessions, added, removed, probes),
            Effect::Respawn(d),
        ) == if is_probed(sessions, added, removed, d) && probes(d) == Probe::Exited {
            1nat
        } else {
            0nat
        },
        occurrences(
            tick_effects(output_dir, sessions, added, removed, probes),
            Effect::Keepalive(d),
        ) == if is_probed(sessions, added, removed, d) && probes(d) == Probe::Running {
            1nat
        } else {
            0nat
        },
        sessions_after(sessions, added, removed).contains(d) <==> ((sessions.contains(d)
            && !removed.contains(d)) || added.contains(d)),
        sessions_after(sessions, added, removed).no_duplicates(),
{
    lemma_tick_occurrences(output_dir, sessions, added, removed, probes, Effect::Kill(d));
    lemma_tick_occurrences(output_dir, sessions, added, removed, probes, Effect::Spawn(d));
    lemma_tick_occurrences(output_dir, sessions, added, removed, probes, Effect::Respawn(d));
    lemma_tick_occurrences(output_dir, sessions, added, removed, probes, Effect::Keepalive(d));
    lemma_occurrences_short(Effect::Kill(d), Effect::Kill(d));
    lemma_occurrences_short(Effect::Kill(d), Effect::Spawn(d));
    lemma_occurrences_short(Effect::Kill(d), Effect::Respawn(d));
    lemma_occurrences_short(Effect::Kill(d), Effect::Keepalive(d));
    lemma_occurrences_short(Effect::Spawn(d), Effect::Kill(d));
    lemma_occurrences_short(Effect::Spawn(d), Effect::Spawn(d));
    lemma_occurrences_short(Effect::Spawn(d), Effect::Respawn(d));
    lemma_occurrences_short(Effect::Spawn(d), Effect::Keepalive(d));
    lemma_occurrences_short(Effect::Respawn(d), Effect::Kill(d));
    lemma_occurrences_short(Effect::Respawn(d), Effect::Spawn(d));
    lemma_occurrences_short(Effect::Respawn(d), Effect::Respawn(d));
    lemma_occurrences_short(Effect::Respawn(d), Effect::Keepalive(d));
    lemma_occurrences_short(Effect::Keepalive(d), Effect::Kill(d));
    lemma_occurrences_short(Effect::Keepalive(d), Effect::Spawn(d));
    lemma_occurrences_short(Effect::Keepalive(d), Effect::Respawn(d));
    lemma_occurrences_short(Effect::Keepalive(d), Effect::Keepalive(d));
}

/// A device that joins the fleet gets its session started exactly once in the
/// tick that reports it, and nothing in that tick terminates or relaunches a
/// session of it: whatever is later done to the session comes after its
/// start. When the tick is over the device has a session.
///
/// This is stated for every device that is not at once reported as removed
/// while it has a session.
pub proof fn lemma_added_device_spawned_once(
    output_dir: Seq<char>,
    sessions: Seq<DeviceView>,
    added: Seq<DeviceView>,
    removed: Seq<DeviceView>,
    probes: spec_fn(DeviceView) -> Probe,
    d: DeviceView,
)
    requires
        sessions.no_duplicates(),
        added.no_duplicates(),
        removed.no_duplicates(),
        added.contains(d),
        !(removed.contains(d) && sessions.contains(d)),
    ensures
        occurrences(
            tick_effects(output_dir, sessions, added, removed, probes),
            Effect::Spawn(d),
        ) == 1,
        occurrences(
            tick_effects(output_dir, sessions, added, removed, probes),
            Effect::Kill(d),
        ) == 0,
        occurrences(
            tick_effects(output_dir, sessions, added, removed, probes),
            Effect::Respawn(d),
        ) == 0,
        sessions_after(sessions, added, removed).contains(d),
{
    lemma_tick_census(output_dir, sessions, added, removed, probes, d);
}

/// A device that leaves the fleet while it has a session gets that session
/// terminated exactly once, and has no session when the tick is over.
///
/// This is stated for every device that is not at once reported as added.
pub proof fn lemma_removed_device_killed_once(
    output_dir: Seq<char>,
    sessions: Seq<DeviceView>,
    added: Seq<DeviceView>,
    removed: Seq<DeviceView>,
    probes: spec_fn(DeviceView) -> Probe,
    d: DeviceView,
)
    requires
        sessions.no_duplicates(),
        added.no_duplicates(),
        removed.no_duplicates(),
        removed.contains(d),
        sessions.contains(d),
        !added.contains(d),
    ensures
        occurrences(
            tick_effects(output_dir, sessions, added, removed, probes),
            Effect::Kill(d),
        ) == 1,
        !sessions_after(sessions, added, removed).contains(d),
{
    lemma_tick_census(output_dir, sessions, added, removed, probes, d);
}

/// A session whose process has exited, of a device that the tick neither adds
/// nor removes, is relaunched exactly once in that tick, and is neither
/// terminated nor started anew; the device keeps its session.
pub proof fn lemma_exited_session_respawned_once(
    output_dir: Seq<char>,
    sessions: Seq<DeviceView>,
    added: Seq<DeviceView>,
    removed: Seq<DeviceView>,
    probes: spec_fn(DeviceView) -> Probe,
    d: DeviceView,
)
    requires
        sessions.no_duplicates(),
        added.no_duplicates(),
        removed.no_duplicates(),
        sessions.contains(d),
        !added.contains(d),
        !removed.contains(d),
        probes(d) == Probe::Exited,
    ensures
        occurrences(
            tick_effects(output_dir, sessions, added, removed, probes),
            Effect::Respawn(d),
        ) == 1,
        occurrences(
            tick_effects(output_dir, sessions, added, removed, probes),
            Effect::Kill(d),
        ) == 0,
        occurrences(
            tick_effects(output_dir, sessions, added, removed, probes),
            Effect::Spawn(d),
        ) == 0,
        sessions_after(sessions, added, removed).contains(d),
{
    lemma_tick_census(output_dir, sessions, added, removed, probes, d);
}

/// A session that is still running, of a device that the tick neither adds nor
/// removes, is sent the keepalive byte exactly once and is not relaunched.
pub proof fn lemma_running_session_kept_awake(
    output_dir: Seq<char>,
    sessions: Seq<DeviceView>,
    added: Seq<DeviceView>,
    removed: Seq<DeviceView>,
    probes: spec_fn(DeviceView) -> Probe,
    d: DeviceView,
)
    requires
        sessions.no_duplicates(),
        added.no_duplicates(),
        removed.no_duplicates(),
        sessions.contains(d),
        !added.contains(d),
        !removed.contains(d),
        probes(d) == Probe::Running,
    ensures
        occurrences(
            tick_effects(output_dir, sessions, added, removed, probes),
            Effect::Keepalive(d),
        ) == 1,
        occurrences(
            tick_effects(output_dir, sessions, added, removed, probes),
            Effect::Respawn(d),
        ) == 0,
{
    lemma_tick_census(output_dir, sessions, added, removed, probes, d);
}

/// The sessions follow the fleet: where the devices with a session are those
/// of one snapshot, a tick on the change from that snapshot to the next
/// leaves a session for each device of the next snapshot, and for no other.
pub proof fn lemma_sessions_follow_fleet(
    sessions: Seq<DeviceView>,
    previous: Seq<DeviceView>,
    current: Seq<DeviceView>,
)
    requires
        sessions.no_duplicates(),
        previous.no_duplicates(),
        current.no_duplicates(),
        forall|d: DeviceView| sessions.contains(d) <==> previous.contains(d),
    ensures
        forall|d: DeviceView|
            sessions_after(
                sessions,
                added_between(previous, current),
                removed_between(previous, current),
            ).contains(d) <==> current.contains(d),
        sessions_after(
            sessions,
            added_between(previous, current),
            removed_between(previous, current),
        ).no_duplicates(),
{
    let added = added_between(previous, current);
    let removed = removed_between(previous, current);
    lemma_filter_keeps_distinct(current, absent_from(previous));
    lemma_filter_keeps_distinct(previous, absent_from(current));
    lemma_filter_keeps_distinct(sessions, absent_from(removed));
    lemma_union_distinct(survivors(sessions, removed), added);
    let staying = survivors(sessions, removed);
    assert forall|d: DeviceView|
        sessions_after(sessions, added, removed).contains(d) <==> current.contains(d) by {
        assert(added.contains(d) <==> (current.contains(d) && !previous.contains(d)));
        assert(removed.contains(d) <==> (previous.contains(d) && !current.contains(d)));
        assert(staying.contains(d) <==> (sessions.contains(d) && !removed.contains(d)));
        assert(sessions.contains(d) <==> previous.contains(d));
        assert(sessions_after(sessions, added, removed).contains(d) <==> (staying.contains(d)
            || added.contains(d)));
    }
}

/// Whether an effect belongs to the first part of a tick, the removals.
pub open spec fn is_removal(e: Effect) -> bool {
    e is Kill
}

/// Whether an effect belongs to the last part of a tick, the first launches.
pub open spec fn is_first_launch(e: Effect) -> bool {
    e is Spawn
}

/// What holds of every effect of each single command holds of every effect
/// of a run of such commands.
proof fn lemma_phase_effects_satisfy(
    output_dir: Seq<char>,
    sessions: Seq<DeviceView>,
    devices: Seq<DeviceView>,
    command_for: spec_fn(DeviceView) -> CommandView,
    probes: spec_fn(DeviceView) -> Probe,
    holds: spec_fn(Effect) -> bool,
)
    requires
        forall|x: DeviceView, k: int|
            0 <= k < command_effects(output_dir, sessions, command_for(x), probes).len()
                ==> holds(
                #[trigger] command_effects(output_dir, sessions, command_for(x), probes)[k],
            ),
    ensures
        forall|k: int|
            0 <= k < effects(output_dir, sessions, devices.map_values(command_for), probes).len()
                ==> holds(
                #[trigger] effects(output_dir, sessions, devices.map_values(command_for), probes)[k],
            ),
    decreases devices.len(),
{
    let commands = devices.map_values(command_for);
    if devices.len() > 0 {
        let rest = devices.drop_last();
        lemma_phase_effects_satisfy(output_dir, sessions, rest, command_for, probes, holds);
        assert(commands.drop_last() =~= rest.map_values(command_for));
        assert(commands.last() == command_for(devices.last()));
        let head = effects(output_dir, sessions, commands.drop_last(), probes);
        let tail = command_effects(output_dir, sessions, command_for(devices.last()), probes);
        assert forall|k: int| 0 <= k < (head + tail).len() implies holds(
            #[trigger] (head + tail)[k],
        ) by {
            if k >= head.len() {
                assert((head + tail)[k] == tail[k - head.len()]);
            }
        }
    }
}

/// Within one tick every removal comes before every probe's reaction, and
/// every reaction before every first launch.
pub proof fn lemma_tick_order(
    output_dir: Seq<char>,
    sessions: Seq<DeviceView>,
    added: Seq<DeviceView>,
    removed: Seq<DeviceView>,
    probes: spec_fn(DeviceView) -> Probe,
    i: int,
    j: int,
)
    requires
        0 <= i < tick_effects(output_dir, sessions, added, removed, probes).len(),
        0 <= j < tick_effects(output_dir, sessions, added, removed, probes).len(),
    ensures
        is_removal(tick_effects(output_dir, sessions, added, removed, probes)[i]) && !is_removal(
            tick_effects(output_dir, sessions, added, removed, probes)[j],
        ) ==> i < j,
        !is_first_launch(tick_effects(output_dir, sessions, added, removed, probes)[i])
            && is_first_launch(tick_effects(output_dir, sessions, added, removed, probes)[j])
            ==> i < j,
{
    let after = sessions_after(sessions, added, removed);
    let kill_for = |x: DeviceView| CommandView::Kill(x);
    let check_for = |x: DeviceView| CommandView::Check(x);
    let spawn_for = |x: DeviceView| CommandView::Spawn(x, launch_of(output_dir, x, false));
    let kill_part = kills(sessions, removed).map_values(kill_for);
    let check_part = checks(sessions, added, removed).map_values(check_for);
    let spawn_part = added.map_values(spawn_for);
    let first = effects(output_dir, after, kill_part, probes);
    let middle = effects(output_dir, after, check_part, probes);
    let last = effects(output_dir, after, spawn_part, probes);
    lemma_phase_effects_satisfy(
        output_dir,
        after,
        kills(sessions, removed),
        kill_for,
        probes,
        |e: Effect| is_removal(e),
    );
    lemma_phase_effects_satisfy(
        output_dir,
        after,
        checks(sessions, added, removed),
        check_for,
        probes,
        |e: Effect| !is_removal(e) && !is_first_launch(e),
    );
    lemma_phase_effects_satisfy(
        output_dir,
        after,
        added,
        spawn_for,
        probes,
        |e: Effect| is_first_launch(e),
    );
    lemma_effects_concat(output_dir, after, kill_part, check_part, probes);
    lemma_effects_concat(output_dir, after, kill_part + check_part, spawn_part, probes);
    assert(plan(output_dir, sessions, added, removed) == kill_part + check_part + spawn_part);
    let trace = tick_effects(output_dir, sessions, added, removed, probes);
    assert(trace == first + middle + last);
    assert forall|k: int| 0 <= k < trace.len() implies (is_removal(#[trigger] trace[k]) <==> k
        < first.len()) && (is_first_launch(trace[k]) <==> k >= first.len() + middle.len()) by {
        if k < first.len() {
            assert(trace[k] == first[k]);
        } else if k < first.len() + middle.len() {
            assert(trace[k] == middle[k - first.len()]);
        } else {
            assert(trace[k] == last[k - first.len() - middle.len()]);
        }
    }
}

} // verus!
