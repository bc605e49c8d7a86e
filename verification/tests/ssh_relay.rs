use base64::engine::general_purpose::STANDARD as B64;
use base64::Engine;
use herdr_mirror::ssh_relay::{
    can_encode, pump_outcome, pump_step, python_bridge_command, relay_args, socat_bridge_command,
    AcceptLoop, AcceptStep, Detected, Probe, RelayAction, RelayCommand, RelayEvent, BRIDGE,
    NO_TOOL,
};

/// The socat form is a contract with the remote's socat, and the path must
/// arrive whole: `UNIX-CONNECT:` takes the rest of the word as the address.
#[test]
fn socat_command_uses_dash_stdio_form() {
    let cmd = socat_bridge_command("/home/vscode/.config/herdr/herdr.sock");
    assert_eq!(cmd, "socat - UNIX-CONNECT:/home/vscode/.config/herdr/herdr.sock");
}

/// A relay reports which bridge it is, so the log line can say so.
#[test]
fn relay_command_reports_its_tool() {
    let socat = RelayCommand { cmd: socat_bridge_command("/tmp/x.sock"), tool: "socat" };
    assert_eq!(socat.tool(), "socat");
    let py = RelayCommand { cmd: python_bridge_command("/tmp/x.sock"), tool: "python3" };
    assert_eq!(py.tool(), "python3");
}

/// The response half must be written in full. `os.write` returns a count, so a
/// single call can write short.
#[test]
fn python_bridge_loops_until_the_write_completes() {
    let cmd = python_bridge_command("/tmp/x.sock");
    assert!(cmd.contains("n=os.write(1,b)"), "{cmd}");
    assert!(cmd.contains("b=b[n:]"), "expected the remainder to be re-written: {cmd}");
}

/// The socket path must never appear verbatim in the command line.
#[test]
fn python_bridge_never_interpolates_the_raw_path() {
    let sock = "/tmp/x'; rm -rf ~ #.sock";
    let cmd = python_bridge_command(sock);
    assert!(!cmd.contains(sock), "raw socket path leaked into the command line: {cmd}");
    let b64 = B64.encode(sock.as_bytes());
    assert!(cmd.contains(&b64), "expected the base64 form present: {cmd}");
}

#[test]
fn python_bridge_script_has_no_single_quotes() {
    // the whole script is wrapped in single quotes on the command line; an
    // embedded one would end the quoting early and corrupt the command
    let cmd = python_bridge_command("/tmp/x.sock");
    let inner = cmd.split('\'').nth(1).expect("script segment");
    assert!(!inner.contains('\''), "script must not contain single quotes: {inner}");
}

#[test]
fn python_bridge_is_script_and_argument() {
    for (sock, arg) in [
        ("/tmp/x.sock", "L3RtcC94LnNvY2s="),
        ("", ""),
        ("a", "YQ=="),
        ("ab", "YWI="),
        ("abc", "YWJj"),
        ("~~?", "fn4/"),
        ("ü~>", "w7x+Pg=="),
    ] {
        assert_eq!(python_bridge_command(sock), format!("python3 -c '{BRIDGE}' '{arg}'"));
    }
    let words: Vec<String> =
        python_bridge_command("'").split('\'').map(String::from).collect();
    assert_eq!(words, ["python3 -c ", BRIDGE, " ", "Jw==", ""]);
}

#[test]
fn ordinary_paths_can_be_encoded() {
    assert!(can_encode(""));
    assert!(can_encode("/tmp/x.sock"));
}

#[test]
fn socat_is_preferred_then_python_then_nothing() {
    assert_eq!(Probe::Socat.command(), "command -v socat");
    assert_eq!(Probe::Python3.command(), "command -v python3");
    match Probe::Socat.answered("/usr/bin/socat\n", "/s") {
        Detected::Relay(c) => {
            assert_eq!(c.tool(), "socat");
            assert_eq!(c.cmd, "socat - UNIX-CONNECT:/s");
        }
        _ => panic!("socat was there"),
    }
    assert!(matches!(Probe::Socat.answered(" \n", "/s"), Detected::Ask(Probe::Python3)));
    match Probe::Python3.answered("python3", "/s") {
        Detected::Relay(c) => {
            assert_eq!(c.tool(), "python3");
            assert_eq!(c.cmd, python_bridge_command("/s"));
        }
        _ => panic!("python3 was there"),
    }
    assert!(matches!(Probe::Python3.answered("", "/s"), Detected::NoTool));
}

#[test]
fn a_rejected_path_ends_the_search_before_it_starts() {
    assert_eq!(Probe::begin(Ok(())), Ok(Probe::Socat));
    assert_eq!(Probe::begin(Err("a comma in it".into())), Err("a comma in it".into()));
}

#[test]
fn without_a_tool_both_are_named() {
    assert!(NO_TOOL.contains("socat") && NO_TOOL.contains("python3"));
}

#[test]
fn ssh_gets_the_master_and_the_command() {
    let relay = RelayCommand { cmd: "cmd here".into(), tool: "socat" };
    assert_eq!(
        relay_args("/run/ctl", "me@host", &relay),
        ["-S", "/run/ctl", "-o", "BatchMode=yes", "me@host", "cmd here"]
    );
}

#[test]
fn accepting_gives_up_after_five_failures_in_a_row() {
    let mut a = AcceptLoop::new();
    let mut waited = 0;
    for n in 1..=4u32 {
        match a.failed() {
            AcceptStep::Retry { count, wait_ms } => {
                assert_eq!(count, n);
                assert_eq!(wait_ms, 200 * n as u64);
                waited += wait_ms;
            }
            AcceptStep::GiveUp { .. } => panic!("too early"),
        }
    }
    assert_eq!(waited, 2000);
    assert_eq!(a.failed(), AcceptStep::GiveUp { count: 5 });
}

#[test]
fn a_connection_resets_the_count() {
    let mut a = AcceptLoop::new();
    for _ in 0..4 {
        a.failed();
    }
    a.accepted();
    assert_eq!(a.failed(), AcceptStep::Retry { count: 1, wait_ms: 200 });
}

#[test]
fn the_end_of_the_request_is_not_the_end_of_the_exchange() {
    for (event, action) in [
        (RelayEvent::ClientRead(Some(7)), RelayAction::ToRemote(7)),
        (RelayEvent::ClientRead(Some(0)), RelayAction::HalfClose),
        (RelayEvent::ClientRead(None), RelayAction::HalfClose),
        (RelayEvent::RemoteWriteFailed, RelayAction::HalfClose),
        (RelayEvent::RemoteRead(Some(9)), RelayAction::ToClient(9)),
        (RelayEvent::RemoteRead(Some(0)), RelayAction::End),
        (RelayEvent::RemoteRead(None), RelayAction::End),
        (RelayEvent::ClientWriteFailed, RelayAction::End),
        (RelayEvent::Shutdown, RelayAction::End),
    ] {
        assert_eq!(pump_step(event), action);
    }
}

#[test]
fn a_complaint_is_reported() {
    assert_eq!(pump_outcome(" \n"), Ok(()));
    assert_eq!(pump_outcome("no such file\n"), Err("relay: no such file".into()));
}

#[test]
fn the_argument_decodes_to_the_path() {
    for sock in ["/run/user/1000/herdr.sock", "/tmp/ü", "/a", "/ab", "/abc"] {
        let cmd = python_bridge_command(sock);
        let arg = cmd.split('\'').nth(3).expect("argument segment");
        assert_eq!(B64.decode(arg).unwrap(), sock.as_bytes());
        assert!(!cmd.contains(sock));
    }
    assert_ne!(python_bridge_command("/a"), python_bridge_command("/b"));
    assert_ne!(socat_bridge_command("/a"), socat_bridge_command("/b"));
}
