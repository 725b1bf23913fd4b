use mayday::fleet::DeviceSet;
use mayday::servers::{Device, Monitor};
use mayday::tailer::{
    spawn_tailer, Command, Launch, Probe, Reaction, Stream, Tailer, KEEPALIVE_BYTE,
    RESTART_DELAY_MILLIS,
};

fn dev(id: &str, hostname: &str, facility: &str) -> Device {
    Device::new(id.to_string(), hostname.to_string(), facility.to_string())
}

fn dev_a() -> Device {
    dev("id-a", "alpha", "ewr1")
}

fn dev_b() -> Device {
    dev("id-b", "bravo", "sjc1")
}

fn dev_c() -> Device {
    dev("id-c", "charlie", "ams1")
}

fn set(devices: Vec<Device>) -> DeviceSet {
    DeviceSet::from_vec(devices)
}

fn shape(commands: &Vec<Command>) -> Vec<(char, String)> {
    commands
        .iter()
        .map(|c| match c {
            Command::Kill { device } => ('k', device.id.clone()),
            Command::Check { device } => ('c', device.id.clone()),
            Command::Spawn { device, .. } => ('s', device.id.clone()),
        })
        .collect()
}

fn named(kind: char, id: &str) -> (char, String) {
    (kind, id.to_string())
}

fn check_first_launch(launch: &Launch, device: &Device, dir: &str) {
    assert_eq!(launch.program, "ssh");
    assert_eq!(launch.arguments, vec!["-t".to_string(), "-t".to_string(), device.sos()]);
    assert_eq!(launch.log_dir, dir);
    assert_eq!(launch.log_name, device.log_name());
    assert_eq!(launch.marker, None);
    assert_eq!(launch.delay_millis, 0);
    assert_eq!(launch.stdin, Stream::Piped);
    assert_eq!(launch.stdout, Stream::Transcript);
    assert_eq!(launch.stderr, Stream::Inherited);
}

#[test]
fn first_launch_starts_at_once() {
    let launch = spawn_tailer(&"/var/log/sos".to_string(), &dev_a(), false);
    assert_eq!(launch.program, "ssh");
    assert_eq!(launch.arguments, vec!["-t", "-t", "id-a@sos.ewr1.packet.net"]);
    assert_eq!(launch.log_dir, "/var/log/sos");
    assert_eq!(launch.log_name, "alpha-id-a");
    assert_eq!(launch.marker, None);
    assert_eq!(launch.delay_millis, 0);
    assert_eq!(launch.stdin, Stream::Piped);
    assert_eq!(launch.stdout, Stream::Transcript);
    assert_eq!(launch.stderr, Stream::Inherited);
}

#[test]
fn relaunch_marks_the_transcript_and_waits() {
    let launch = spawn_tailer(&"out".to_string(), &dev_b(), true);
    assert_eq!(launch.program, "ssh");
    assert_eq!(launch.arguments, vec!["-t", "-t", "id-b@sos.sjc1.packet.net"]);
    assert_eq!(launch.log_dir, "out");
    assert_eq!(launch.log_name, "bravo-id-b");
    assert_eq!(launch.marker, Some("\n\n ~~~ MAYDAY TAILER RESTART ~~~ \n\n".to_string()));
    assert_eq!(launch.delay_millis, 50);
    assert_eq!(RESTART_DELAY_MILLIS, 50);
    assert_eq!(launch.stdin, Stream::Piped);
    assert_eq!(launch.stdout, Stream::Transcript);
    assert_eq!(launch.stderr, Stream::Inherited);
}

#[test]
fn new_supervisor_has_no_sessions() {
    let t = Tailer::new("out".to_string());
    assert!(t.children().is_empty());
    assert_eq!(t.output_dir(), "out");
}

#[test]
fn added_devices_are_spawned() {
    let mut t = Tailer::new("out".to_string());
    let commands = t.update(set(vec![dev_a(), dev_b()]), DeviceSet::new());
    assert_eq!(shape(&commands), vec![named('s', "id-a"), named('s', "id-b")]);
    match &commands[0] {
        Command::Spawn { device, launch } => {
            assert_eq!(*device, dev_a());
            check_first_launch(launch, &dev_a(), "out");
        }
        other => panic!("unexpected command {:?}", other),
    }
    assert_eq!(t.children().to_vec(), vec![dev_a(), dev_b()]);
}

#[test]
fn removals_come_before_probes_before_spawns() {
    let mut t = Tailer::new("out".to_string());
    let _ = t.update(set(vec![dev_a(), dev_b()]), DeviceSet::new());
    let commands = t.update(set(vec![dev_c()]), set(vec![dev_a()]));
    assert_eq!(
        shape(&commands),
        vec![named('k', "id-a"), named('c', "id-b"), named('s', "id-c")]
    );
    assert_eq!(t.children().to_vec(), vec![dev_b(), dev_c()]);
    assert!(!t.children().contains(&dev_a()));
}

#[test]
fn fleet_scenario_over_two_ticks() {
    let mut monitor =
        Monitor::new("proj".to_string(), "packet".to_string(), "role".to_string());
    let mut t = Tailer::new("out".to_string());

    let diff = monitor.sync::<String>(Ok(vec![dev_a(), dev_b()])).unwrap();
    assert_eq!(diff.added.to_vec(), vec![dev_a(), dev_b()]);
    assert!(diff.removed.is_empty());
    let commands = t.update(diff.added, diff.removed);
    assert_eq!(shape(&commands), vec![named('s', "id-a"), named('s', "id-b")]);

    let diff = monitor.sync::<String>(Ok(vec![dev_b(), dev_c()])).unwrap();
    assert_eq!(diff.added.to_vec(), vec![dev_c()]);
    assert_eq!(diff.removed.to_vec(), vec![dev_a()]);
    let commands = t.update(diff.added, diff.removed);
    assert_eq!(
        shape(&commands),
        vec![named('k', "id-a"), named('c', "id-b"), named('s', "id-c")]
    );
    match t.react(&dev_b(), Probe::Running) {
        Reaction::Keepalive { byte } => assert_eq!(byte, 0x08),
        other => panic!("unexpected reaction {:?}", other),
    }

    let diff = monitor.sync::<String>(Ok(vec![dev_b(), dev_c()])).unwrap();
    assert!(diff.is_empty());
    let commands = t.update(diff.added, diff.removed);
    assert_eq!(shape(&commands), vec![named('c', "id-b"), named('c', "id-c")]);
}

#[test]
fn removed_device_without_a_session_is_not_killed() {
    let mut t = Tailer::new("out".to_string());
    let _ = t.update(set(vec![dev_a()]), DeviceSet::new());
    let commands = t.update(DeviceSet::new(), set(vec![dev_b()]));
    assert_eq!(shape(&commands), vec![named('c', "id-a")]);
    assert_eq!(t.children().to_vec(), vec![dev_a()]);
}

#[test]
fn removed_and_added_at_once_is_killed_then_spawned() {
    let mut t = Tailer::new("out".to_string());
    let _ = t.update(set(vec![dev_a(), dev_b()]), DeviceSet::new());
    let commands = t.update(set(vec![dev_a()]), set(vec![dev_a()]));
    assert_eq!(
        shape(&commands),
        vec![named('k', "id-a"), named('c', "id-b"), named('s', "id-a")]
    );
    assert_eq!(t.children().to_vec(), vec![dev_b(), dev_a()]);
}

#[test]
fn added_device_with_a_session_is_spawned_and_not_probed() {
    let mut t = Tailer::new("out".to_string());
    let _ = t.update(set(vec![dev_a(), dev_b()]), DeviceSet::new());
    let commands = t.update(set(vec![dev_a()]), DeviceSet::new());
    assert_eq!(shape(&commands), vec![named('c', "id-b"), named('s', "id-a")]);
    assert_eq!(t.children().to_vec(), vec![dev_a(), dev_b()]);
}

#[test]
fn exited_session_is_respawned_in_place() {
    let mut t = Tailer::new("logs".to_string());
    let _ = t.update(set(vec![dev_a(), dev_b()]), DeviceSet::new());
    let commands = t.update(DeviceSet::new(), DeviceSet::new());
    assert_eq!(shape(&commands), vec![named('c', "id-a"), named('c', "id-b")]);
    match t.react(&dev_a(), Probe::Exited) {
        Reaction::Respawn { launch } => {
            assert_eq!(launch.program, "ssh");
            assert_eq!(launch.arguments, vec!["-t", "-t", "id-a@sos.ewr1.packet.net"]);
            assert_eq!(launch.log_dir, "logs");
            assert_eq!(launch.log_name, "alpha-id-a");
            assert_eq!(
                launch.marker,
                Some("\n\n ~~~ MAYDAY TAILER RESTART ~~~ \n\n".to_string())
            );
            assert_eq!(launch.delay_millis, 50);
        }
        other => panic!("unexpected reaction {:?}", other),
    }
    assert_eq!(t.children().to_vec(), vec![dev_a(), dev_b()]);
}

#[test]
fn running_session_gets_a_backspace() {
    let mut t = Tailer::new("logs".to_string());
    let _ = t.update(set(vec![dev_a()]), DeviceSet::new());
    match t.react(&dev_a(), Probe::Running) {
        Reaction::Keepalive { byte } => {
            assert_eq!(byte, 8);
            assert_eq!(byte, KEEPALIVE_BYTE);
        }
        other => panic!("unexpected reaction {:?}", other),
    }
}

#[test]
fn failed_probe_leaves_the_session() {
    let mut t = Tailer::new("logs".to_string());
    let _ = t.update(set(vec![dev_a()]), DeviceSet::new());
    assert!(matches!(t.react(&dev_a(), Probe::Unknown), Reaction::Leave));
    assert_eq!(t.children().to_vec(), vec![dev_a()]);
}

#[test]
fn device_without_a_session_is_left_alone() {
    let t = Tailer::new("logs".to_string());
    assert!(matches!(t.react(&dev_a(), Probe::Exited), Reaction::Leave));
    assert!(matches!(t.react(&dev_a(), Probe::Running), Reaction::Leave));
}

#[test]
fn shutdown_kills_every_session() {
    let mut t = Tailer::new("logs".to_string());
    let _ = t.update(set(vec![dev_a(), dev_b(), dev_c()]), DeviceSet::new());
    let commands = t.shutdown();
    assert_eq!(
        shape(&commands),
        vec![named('k', "id-a"), named('k', "id-b"), named('k', "id-c")]
    );
    assert!(t.children().is_empty());
    assert!(t.shutdown().is_empty());
    assert_eq!(t.output_dir(), "logs");
}
