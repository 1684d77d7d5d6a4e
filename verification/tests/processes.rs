use std::hash::{Hash, Hasher};

use bz::chaperone::config::ConfigError;
use bz::chaperone::control::{chaperone_dir, control_socket_path, ControlAction};
use bz::chaperone::protocol::ControlMessage;
use bz::chaperone::pty_socket::{
    client_input, exit_message, output_message, pty_socket_path, RelayEvent,
};
use bz::chaperone::{
    Chaperone, ChaperoneConfig, ChaperoneMode, ManagedPty, PtyInput, PtySpawnConfig, RelayState,
};
use bz::config::{ChannelConfig, Config, MatrixConfig};
use bz::daemon::pty_manager::{split_command, Polled, PtyManager};
use bz::daemon::{
    channel_terminals, hash_config, is_last_message, stop_messages, tell_output, Daemon,
    DaemonAction, Opening,
};
use bz::history::{History, DEFAULT_BUFFER_SIZE};
use bz::protocol::{ClientMessage, DaemonMessage, PtyConfig};
use bz::session::{daemon_args, started_socket, ConnectError, ConnectOptions, Session};
use bz::waiting::{
    chaperone_stop_step, is_http_answer, server_wait_step, socket_wait_step, stop_step, StopStep,
    WaitStep,
};
use bz::user_chaperone::{spawn_order, spawn_pty, user_config, wait_ready, AnswerError};

/// What a configuration file says, entry by entry.
fn chaperone_config(text: &str) -> Result<ChaperoneConfig, ConfigError> {
    let table: toml::Table = toml::from_str(text).unwrap();
    let entry = |key: &str| table.get(key).and_then(|v| v.as_str()).map(|s| s.to_string());
    ChaperoneConfig::from_parts(entry("name"), entry("mode"), entry("cwd"))
}

#[test]
fn test_parse_pty_only() {
    let config = chaperone_config(
        r#"
            name = "user"
            mode = "pty-only"
        "#,
    )
    .unwrap();

    assert_eq!(config.name, "user");
    assert_eq!(config.mode, ChaperoneMode::PtyOnly);
}

#[test]
fn test_parse_matrix() {
    let config = chaperone_config(
        r#"
            name = "sam"
            mode = "matrix"
        "#,
    )
    .unwrap();

    assert_eq!(config.name, "sam");
    assert_eq!(config.mode, ChaperoneMode::Matrix);
}

#[test]
fn written_configs_are_read_back() {
    let user = chaperone_config(&user_config()).unwrap();
    assert_eq!(user.name, "user");
    assert_eq!(user.mode, ChaperoneMode::PtyOnly);
    let text = bz::daemon::agent_config_content("sam", "matrix", &Some("/w".to_string()));
    let agent = chaperone_config(&text).unwrap();
    assert_eq!(agent.name, "sam");
    assert_eq!(agent.mode, ChaperoneMode::Matrix);
    assert_eq!(agent.cwd, Some("/w".to_string()));
}

#[test]
fn configs_must_be_complete() {
    assert!(matches!(chaperone_config("mode = \"matrix\""), Err(ConfigError::NoName)));
    assert!(matches!(chaperone_config("name = \"x\""), Err(ConfigError::NoMode)));
    assert!(matches!(
        chaperone_config("name = \"x\"\nmode = \"PtyOnly\""),
        Err(ConfigError::UnknownMode)
    ));
}

#[test]
fn a_chaperone_keeps_terminals() {
    let mut c = Chaperone::new("user".to_string());
    assert_eq!((c.default_rows, c.default_cols), (24, 80));
    assert!(matches!(c.greeting(), ControlMessage::Ready));
    assert_eq!(c.control_socket_path("/d"), "/d/chaperones/user/control.sock");
    assert_eq!(chaperone_dir("/d", "sam"), "/d/chaperones/sam");
    assert_eq!(control_socket_path("/d", "sam"), "/d/chaperones/sam/control.sock");
    assert_eq!(bz::user_chaperone::control_socket_path("/d"), "/d/chaperones/user/control.sock");

    let order = spawn_order("!r:h", Some("/w"), None, 30, 100);
    match c.handle_message(order, Some("/bin/zsh".to_string())) {
        ControlAction::Spawn { config, room_id } => {
            assert_eq!(config.command, "/bin/zsh");
            assert_eq!(config.cwd, Some("/w".to_string()));
            assert_eq!((config.rows, config.cols), (30, 100));
            assert_eq!(room_id, "!r:h");
        }
        _ => panic!("a terminal has to be started"),
    }
    match c.handle_message(spawn_order("!r:h", None, None, 1, 2), None) {
        ControlAction::Spawn { config, .. } => assert_eq!(config.command, "bash"),
        _ => panic!("a terminal has to be started"),
    }
    match c.handle_message(spawn_order("!r:h", None, Some("htop"), 1, 2), None) {
        ControlAction::Spawn { config, .. } => assert_eq!(config.command, "htop"),
        _ => panic!("a terminal has to be started"),
    }

    let answer = c.pty_started("p1".to_string(), "!r:h".to_string(), "/s1".to_string());
    assert_eq!(spawn_pty(answer).unwrap(), "/s1");
    c.pty_started("p2".to_string(), "!r:h".to_string(), "/s2".to_string());
    c.pty_started("p2".to_string(), "!r:h".to_string(), "/s3".to_string());
    assert_eq!(c.ptys.len(), 2);
    match c.handle_message(ControlMessage::KillPty { pty_id: "p2".to_string() }, None) {
        ControlAction::Remove { socket_path } => assert_eq!(socket_path, "/s3"),
        _ => panic!("the socket has to be removed"),
    }
    let again = c.handle_message(ControlMessage::KillPty { pty_id: "p2".to_string() }, None);
    assert!(matches!(again, ControlAction::Nothing));
    let (notice, socket) = c.pty_exited("p1".to_string(), "!r:h".to_string());
    assert!(matches!(notice, ControlMessage::PtyDetached { .. }));
    assert_eq!(socket, Some("/s1".to_string()));
    let (_, socket) = c.pty_exited("p1".to_string(), "!r:h".to_string());
    assert_eq!(socket, None);
    assert!(matches!(c.handle_message(ControlMessage::Ready, None), ControlAction::Nothing));
}

#[test]
fn answers_of_a_chaperone_are_checked() {
    assert_eq!(wait_ready(&ControlMessage::Ready), Ok(()));
    let other = ControlMessage::KillPty { pty_id: String::new() };
    assert_eq!(wait_ready(&other), Err(AnswerError::NotReady));
    assert!(matches!(spawn_pty(other), Err(AnswerError::NotAttached)));
}

#[test]
fn history_keeps_the_end() {
    let mut h = History::new();
    h.append(b"abc");
    assert_eq!(h.to_vec(), b"abc");
    h.append(&vec![1; DEFAULT_BUFFER_SIZE - 2]);
    let kept = h.to_vec();
    assert_eq!(kept.len(), DEFAULT_BUFFER_SIZE);
    assert_eq!(&kept[..3], &[b'b', b'c', 1]);
    h.append(&vec![2; DEFAULT_BUFFER_SIZE + 5]);
    assert_eq!(h.to_vec(), vec![2; DEFAULT_BUFFER_SIZE]);
}

#[test]
fn kept_terminals_hand_their_output_over() {
    let mut p = ManagedPty::started(PtySpawnConfig {
        command: "bash".to_string(),
        cwd: None,
        rows: 24,
        cols: 80,
    });
    assert_eq!(p.id().len(), 36);
    assert_eq!(p.id().matches('-').count(), 4);
    assert!(p.is_running());
    assert_eq!(p.poll_output(&vec![b"a".to_vec(), b"b".to_vec()], false), Some(b"ab".to_vec()));
    assert_eq!(p.poll_output(&Vec::new(), false), None);
    assert_eq!(p.get_history(), b"ab");
    assert!(p.take_output_rx());
    assert!(!p.take_output_rx());
    assert_eq!(p.poll_output(&vec![b"c".to_vec()], true), None);
    assert!(p.info().running);
    assert_eq!(p.get_history(), b"ab");
}

#[test]
fn a_connection_is_told_things_in_order() {
    let mut s = RelayState::new(b"old".to_vec());
    assert!(s.step(RelayEvent::Written(b"er".to_vec())).is_empty());
    let mut told = s.step(RelayEvent::Attached);
    for data in [b"one".to_vec(), b"two".to_vec()] {
        told.extend(s.step(RelayEvent::Written(data)));
    }
    told.extend(s.step(RelayEvent::Ended));
    assert_eq!(told.len(), 5);
    assert!(matches!(&told[0], DaemonMessage::History { data, .. } if data == b"older"));
    assert!(matches!(told[1], DaemonMessage::HistoryEnd { pty_id: 0 }));
    assert!(matches!(&told[2], DaemonMessage::Output { data, .. } if data == b"one"));
    assert!(matches!(&told[3], DaemonMessage::Output { data, .. } if data == b"two"));
    assert!(matches!(told[4], DaemonMessage::PtyExited { pty_id: 0, exit_code: None }));
    assert!(s.step(RelayEvent::Ended).is_empty());
    assert!(s.step(RelayEvent::Written(b"late".to_vec())).is_empty());
    s.step(RelayEvent::Attached);
    assert!(s.step(RelayEvent::Left).is_empty());
    assert!(s.step(RelayEvent::Written(b"!".to_vec())).is_empty());
    assert_eq!(s.get_history(), b"olderonetwolate!");
}

#[test]
fn waiting_ends() {
    assert_eq!(stop_step(0, false), StopStep::Wait);
    assert_eq!(stop_step(49, false), StopStep::Wait);
    assert_eq!(stop_step(50, false), StopStep::Kill);
    assert_eq!(stop_step(50, true), StopStep::Done);
    assert_eq!(chaperone_stop_step(0, false), StopStep::Wait);
    assert_eq!(chaperone_stop_step(1, false), StopStep::Kill);
    assert_eq!(chaperone_stop_step(1, true), StopStep::Done);
    assert_eq!(socket_wait_step(0, true), WaitStep::Ready);
    assert_eq!(socket_wait_step(49, false), WaitStep::Wait);
    assert_eq!(socket_wait_step(50, false), WaitStep::GiveUp);
    assert_eq!(socket_wait_step(50, true), WaitStep::Ready);
    assert_eq!(server_wait_step(0, true), WaitStep::Ready);
    assert_eq!(server_wait_step(48, false), WaitStep::Wait);
    assert_eq!(server_wait_step(49, false), WaitStep::GiveUp);
    assert!(is_http_answer(b"HTTP/1.1 200 OK\r\n"));
    assert!(is_http_answer(b"HTTP/1.0 404"));
    assert!(!is_http_answer(b"HTTP/1.1 20"));
    assert!(!is_http_answer(b"HTTP/2.0 200 OK"));
    assert!(!is_http_answer(b"SSH-2.0-OpenSSH_9.0"));
    assert!(!is_http_answer(b"HTTP/1.1 2x0 OK"));
}

#[test]
fn clients_of_a_terminal_see_everything() {
    let mut s = RelayState::new(Vec::new());
    assert_eq!(s.greeting().len(), 1);
    assert!(matches!(s.greeting()[0], DaemonMessage::HistoryEnd { pty_id: 0 }));
    assert_eq!(s.append_and_forward(b"one".to_vec()), None);
    s.set_client();
    assert_eq!(s.append_and_forward(b"two".to_vec()), Some(b"two".to_vec()));
    s.clear_client();
    assert_eq!(s.append_and_forward(b"three".to_vec()), None);
    match &s.greeting()[0] {
        DaemonMessage::History { pty_id: 0, data } => assert_eq!(data, b"onetwothree"),
        _ => panic!("history comes first"),
    }
    assert_eq!(s.get_history(), b"onetwothree");
    assert!(matches!(
        client_input(ClientMessage::Input { pty_id: 9, data: vec![1] }),
        Some(PtyInput::Data(d)) if d == vec![1]
    ));
    assert!(matches!(
        client_input(ClientMessage::Resize { pty_id: 9, rows: 1, cols: 2 }),
        Some(PtyInput::Resize { rows: 1, cols: 2 })
    ));
    assert!(client_input(ClientMessage::Quit).is_none());
    assert!(matches!(exit_message(), DaemonMessage::PtyExited { pty_id: 0, exit_code: None }));
    assert!(matches!(output_message(vec![1]), DaemonMessage::Output { pty_id: 0, .. }));
    assert_eq!(pty_socket_path("/d", "id"), "/d/id.sock");
}

#[test]
fn commands_are_split_into_words() {
    let (program, arguments) = split_command("\u{3000}a\u{85}b\u{200b}c\u{2028}").unwrap();
    assert_eq!(program, "a");
    assert_eq!(arguments, vec!["b\u{200b}c"]);
    let (program, arguments) = split_command("  ls  -l\t/tmp ").unwrap();
    assert_eq!(program, "ls");
    assert_eq!(arguments, vec!["-l", "/tmp"]);
    assert!(split_command(" \n").is_none());
}

fn pty_config(name: &str) -> PtyConfig {
    PtyConfig { name: name.to_string(), command: "bash".to_string(), cwd: None }
}

#[test]
fn terminals_have_numbers() {
    let mut m = PtyManager::new(24, 80);
    assert!(m.all_exited());
    let a = m.next_id();
    m.spawn(a, &pty_config("a"));
    // A start that fails uses a number up.
    m.next_id();
    let c = m.next_id();
    let info = m.spawn(c, &pty_config("c"));
    assert_eq!((info.id, info.running), (2, true));
    assert!(m.get(1).is_none());
    assert_eq!(m.get(2).unwrap().name, "c");
    assert_eq!(m.infos().len(), 2);
    let out = m.poll_all(&vec![
        Polled { chunks: vec![b"x".to_vec(), b"y".to_vec()], ended: false },
        Polled { chunks: Vec::new(), ended: true },
    ]);
    assert_eq!(out, vec![(0, b"xy".to_vec())]);
    assert!(!m.get(2).unwrap().running);
    assert!(!m.all_exited());
    assert_eq!(m.get_history(0), Some(b"xy".to_vec()));
    assert_eq!(m.get_history(2), Some(Vec::new()));
    assert_eq!(m.get_history(7), None);
    m.get_mut(0).unwrap().running = false;
    assert!(m.all_exited());
    m.set_default_size(30, 100);
    assert_eq!((m.default_rows, m.default_cols), (30, 100));
}

fn config_with(channels: Vec<ChannelConfig>) -> Config {
    Config::from_parts(channels, Vec::new(), MatrixConfig::default(), &Some("sh".to_string()))
}

fn channel(name: &str, command: &str, cwd: Option<&str>) -> ChannelConfig {
    ChannelConfig::from_parts(
        name.to_string(),
        cwd.map(|s| s.to_string()),
        Some(command.to_string()),
        &None,
    )
}

/// The fingerprint as the standard library hashes the same values.
fn std_hash(channels: &[(&str, &str, Option<&str>)]) -> u64 {
    let mut hasher = std::collections::hash_map::DefaultHasher::new();
    for (name, command, cwd) in channels {
        name.to_string().hash(&mut hasher);
        command.to_string().hash(&mut hasher);
        cwd.map(|s| s.to_string()).hash(&mut hasher);
    }
    hasher.finish()
}

#[test]
fn configs_have_fingerprints() {
    let a = config_with(vec![channel("main", "bash", None), channel("x", "top", Some("/w"))]);
    assert_eq!(hash_config(&a), std_hash(&[("main", "bash", None), ("x", "top", Some("/w"))]));
    let b = config_with(vec![channel("main", "bash", None), channel("x", "top", None)]);
    assert_ne!(hash_config(&a), hash_config(&b));
    let terminals = channel_terminals(&a);
    assert_eq!(terminals.len(), 2);
    assert_eq!(terminals[1].command, "top");
    assert_eq!(terminals[1].cwd, Some("/w".to_string()));
}

fn daemon() -> Daemon {
    Daemon::new(&config_with(vec![channel("main", "bash", None)]), "/s", 24, 80)
}

#[test]
fn one_client_at_a_time() {
    let mut d = daemon();
    assert_eq!(d.socket_path(), format!("/s/{}.sock", d.session_id));
    assert_eq!(d.session_id.len(), 36);
    assert!(d.should_exit());
    let id = d.pty_manager.next_id();
    d.pty_manager.spawn(id, &pty_config("main"));
    assert!(!d.should_exit());

    assert!(matches!(d.open_connection(1, &ClientMessage::Detach), Opening::Closed));
    assert!(matches!(
        d.open_connection(1, &ClientMessage::Attach),
        Opening::Attached { kicked: None }
    ));
    let welcome = Session::connect(d.greeting().remove(0)).unwrap();
    assert_eq!(welcome.info().session_id, d.session_id);
    assert_eq!(welcome.ptys().len(), 1);

    match d.open_connection(2, &ClientMessage::Attach) {
        Opening::TurnedAway(answer) => match Session::connect(answer) {
            Err(ConnectError::Rejected(reason)) => {
                assert_eq!(reason, "Another client is connected. Use --takeover to take over.");
            }
            _ => panic!("the client is turned away"),
        },
        _ => panic!("the client is turned away"),
    }
    assert!(matches!(
        d.open_connection(3, &ClientMessage::AttachTakeover),
        Opening::Attached { kicked: Some(1) }
    ));
    d.connection_lost(1);
    assert_eq!(d.client, Some(3));
    assert!(matches!(d.handle_message(1, ClientMessage::Detach), DaemonAction::Close));
    assert_eq!(d.client, Some(3));
    d.connection_lost(3);
    assert_eq!(d.client, None);
}

#[test]
fn daemons_are_stopped() {
    let mut d = daemon();
    d.open_connection(1, &ClientMessage::Attach);
    // Whoever is not attached is not listened to.
    assert!(matches!(d.open_connection(2, &ClientMessage::Quit), Opening::Closed));
    let mut messages = stop_messages();
    assert_eq!(messages.len(), 2);
    assert!(matches!(
        d.open_connection(3, &messages[0]),
        Opening::Attached { kicked: Some(1) }
    ));
    assert!(matches!(d.handle_message(3, messages.remove(1)), DaemonAction::Exit));
}

#[test]
fn clients_ask_for_things() {
    let mut d = daemon();
    let id = d.pty_manager.next_id();
    d.pty_manager.spawn(id, &pty_config("main"));
    d.open_connection(1, &ClientMessage::Attach);
    let input = ClientMessage::Input { pty_id: 0, data: vec![7] };
    assert!(matches!(
        d.handle_message(1, input.clone()),
        DaemonAction::Write { place: 0, data } if data == vec![7]
    ));
    let missing = ClientMessage::Input { pty_id: 4, data: vec![7] };
    assert!(matches!(d.handle_message(1, missing), DaemonAction::Nothing));
    let resize = ClientMessage::Resize { pty_id: 0, rows: 5, cols: 6 };
    assert!(matches!(
        d.handle_message(1, resize),
        DaemonAction::Resize { place: 0, rows: 5, cols: 6 }
    ));
    assert!(matches!(d.handle_message(1, ClientMessage::Spawn(pty_config("y"))), DaemonAction::Spawn(_)));
    assert!(matches!(
        d.handle_message(1, ClientMessage::Kill { pty_id: 0 }),
        DaemonAction::Kill { place: 0 }
    ));
    assert_eq!(d.client, Some(1));
    assert!(matches!(d.handle_message(1, ClientMessage::Kill { pty_id: 4 }), DaemonAction::Nothing));
    d.handle_message(1, ClientMessage::SetFocus { channel_idx: 2 });
    assert_eq!(d.session_info().focused, 2);

    let out = d.pty_manager.poll_all(&vec![Polled { chunks: vec![b"hi".to_vec()], ended: true }]);
    let told = tell_output(out);
    assert!(matches!(&told[..], [DaemonMessage::Output { pty_id: 0, data }] if data == b"hi"));
    // Nothing is written to a terminal whose command has ended.
    assert!(matches!(d.handle_message(1, input), DaemonAction::Nothing));
    assert!(!d.session_info().ptys[0].running);
    assert!(matches!(d.handle_message(1, ClientMessage::Kill { pty_id: 0 }), DaemonAction::Nothing));
    let greeting = d.greeting();
    assert_eq!(greeting.len(), 3);
    assert!(matches!(&greeting[1], DaemonMessage::History { pty_id: 0, data } if data == b"hi"));
    assert!(matches!(greeting[2], DaemonMessage::HistoryEnd { pty_id: 0 }));

    assert!(!d.should_exit());
    assert!(matches!(d.handle_message(1, ClientMessage::Detach), DaemonAction::Close));
    assert!(d.should_exit());
    assert!(matches!(d.handle_message(1, ClientMessage::Quit), DaemonAction::Exit));
    assert!(is_last_message(&DaemonMessage::Kicked));
    assert!(is_last_message(&DaemonMessage::Shutdown));
    assert!(!is_last_message(&DaemonMessage::HistoryEnd { pty_id: 0 }));
}

#[test]
fn sessions_are_attached_to() {
    assert!(matches!(
        Session::attach_message(ConnectOptions::default()),
        ClientMessage::Attach
    ));
    assert!(matches!(
        Session::attach_message(ConnectOptions { takeover: true }),
        ClientMessage::AttachTakeover
    ));
    match Session::connect(DaemonMessage::Kicked) {
        Err(e) => assert_eq!(e.message(), "Unexpected response from daemon"),
        Ok(_) => panic!("that is no welcome"),
    }
    assert_eq!(daemon_args(24, 80), vec!["24", "80"]);
    assert_eq!(started_socket(" /s/x.sock\n"), Some("/s/x.sock".to_string()));
    assert_eq!(started_socket(" \n"), None);
}
