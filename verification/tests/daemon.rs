use agent_manip::daemon::{
    command_failure, is_daemon_process, DaemonCommand, DaemonControl, DaemonState,
    ServiceManager,
};

fn run_args(c: &DaemonCommand) -> (String, Vec<String>) {
    match c {
        DaemonCommand::Run { program, args } => (program.clone(), args.clone()),
        other => panic!("expected a command line, got {:?}", other),
    }
}

#[test]
fn observing_processes_sets_the_state() {
    let mut d = DaemonControl::new(ServiceManager::Systemctl);
    assert_eq!(d.state, DaemonState::Unknown);
    d.observe(Some(42), true);
    assert_eq!((d.state, d.pid), (DaemonState::Running, Some(42)));
    d.observe(Some(42), false);
    assert_eq!(d.state, DaemonState::Crashed);
    d.observe(None, true);
    assert_eq!((d.state, d.pid), (DaemonState::Stopped, None));
    assert_eq!(DaemonState::Crashed.label(), "Crashed");
    assert_eq!(ServiceManager::Launchctl.name(), "LAUNCHCTL");
}

#[test]
fn starting_a_running_daemon_is_refused() {
    let mut d = DaemonControl::new(ServiceManager::Systemctl);
    d.observe(Some(7), true);
    let err = d.begin_start(false, "/opt/lsiagent/bin/lsiagentd").unwrap_err();
    assert_eq!(err, "Daemon is already running");
    assert_eq!(d.state, DaemonState::Running);
}

#[test]
fn start_commands_per_service_manager() {
    let mut d = DaemonControl::new(ServiceManager::Systemctl);
    d.observe(None, false);
    let c = d.begin_start(false, "bin").unwrap();
    assert_eq!(run_args(&c), ("systemctl".to_string(), vec!["start".to_string(), "lsiagent".to_string()]));
    assert_eq!(d.state, DaemonState::Starting);
    d.finish_start(Err(()));
    assert_eq!(d.state, DaemonState::Stopped);

    let mut l = DaemonControl::new(ServiceManager::Launchctl);
    let c = l.begin_start(true, "bin").unwrap();
    assert_eq!(
        run_args(&c).1,
        ["kickstart", "system/com.lakesidesoftware.lsiagentd"]
    );
    let c = l.begin_start(false, "bin").unwrap();
    assert_eq!(
        run_args(&c).1,
        ["bootstrap", "system", "/Library/LaunchDaemons/com.lakesidesoftware.lsiagentd.plist"]
    );

    let mut x = DaemonControl::new(ServiceManager::Direct);
    match x.begin_start(false, "/opt/lsiagent/bin/lsiagentd").unwrap() {
        DaemonCommand::Spawn { path } => assert_eq!(path, "/opt/lsiagent/bin/lsiagentd"),
        other => panic!("{:?}", other),
    }
    x.finish_start(Ok(Some(99)));
    assert_eq!(x.pid, Some(99));
}

#[test]
fn stop_and_restart_commands() {
    let mut d = DaemonControl::new(ServiceManager::Direct);
    assert_eq!(d.begin_stop().unwrap_err(), "No daemon process running");
    assert_eq!(d.state, DaemonState::Stopping);
    d.observe(Some(5), true);
    match d.begin_stop().unwrap() {
        DaemonCommand::Terminate { pid } => assert_eq!(pid, 5),
        other => panic!("{:?}", other),
    }
    d.finish_stop(false);
    assert_eq!(d.state, DaemonState::Running);
    assert!(d.restart_command(true).is_none());

    let mut l = DaemonControl::new(ServiceManager::Launchctl);
    let c = l.begin_stop().unwrap();
    assert_eq!(run_args(&c).1, ["bootout", "system/com.lakesidesoftware.lsiagentd"]);
    let r = l.restart_command(true).unwrap();
    assert_eq!(
        run_args(&r).1,
        ["kickstart", "-k", "system/com.lakesidesoftware.lsiagentd"]
    );
    let s = DaemonControl::new(ServiceManager::Systemctl);
    assert_eq!(run_args(&s.restart_command(false).unwrap()).1, ["restart", "lsiagent"]);
}

#[test]
fn daemon_process_names_and_failures() {
    assert!(is_daemon_process("lsiagentd"));
    assert!(is_daemon_process("LSIAgent-helper"));
    assert!(!is_daemon_process("lsi-agent"));
    assert_eq!(
        command_failure(
            "systemctl",
            &vec!["stop".to_string(), "lsiagent".to_string()],
            "  Access denied\n",
            false
        ),
        "systemctl stop lsiagent failed: Access denied (not running as root — try sudo)"
    );
}
