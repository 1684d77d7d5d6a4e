use bz::app::{AgentEntry, App, Effect, InputMode};
use bz::chaperone_channel::ChaperoneChannel;
use bz::config::AgentConfig;
use bz::events::{attached_pty, pty_size, terminal_name};
use bz::keys::{key_to_bytes, KeyCode, KeyEvent};
use bz::matrix_client::MatrixMessage;
use bz::protocol::{ClientMessage, DaemonMessage};
use bz::pty::{ActivityState, PtyStatus};
use bz::room_view::RoomView;
use bz::screen::{areas, quit_area, quit_text, quit_title};
use bz::sidebar::{render_room_sidebar, Sidebar, SIDEBAR_WIDTH};
use bz::terminal::{convert_color, convert_indexed_color, TerminalWidget};
use bz::test_support::{parse_escape_sequences, text_looks_ready};
use bz::ui::{Color, Item, Rect};

fn plain(code: KeyCode) -> KeyEvent {
    KeyEvent { code, control: false, shift: false }
}

fn ctrl(c: char) -> KeyEvent {
    KeyEvent { code: KeyCode::Char(c), control: true, shift: false }
}

fn terminal(name: &str, cwd: Option<&str>) -> ChaperoneChannel {
    ChaperoneChannel::new(
        name.to_string(),
        "bash".to_string(),
        cwd.map(|s| s.to_string()),
        format!("/s/{}.sock", name),
        24,
        98,
    )
}

fn room(name: &str) -> RoomView {
    RoomView::with_pty(format!("!{}:home", name), name.to_string(), terminal(name, Some("/w")))
}

fn agent(name: &str) -> AgentEntry {
    AgentEntry {
        config: AgentConfig::from_parts(name.to_string(), None, None, None, None),
        dm_room_idx: None,
    }
}

fn app_with(names: &[&str], agents: &[&str], cols: u16) -> App {
    let rooms = names.iter().map(|n| room(n)).collect();
    let agents = agents.iter().map(|n| agent(n)).collect();
    let mut app = App::new(rooms, cols, true, agents, "home".to_string());
    app.disconnect_others();
    app
}

/// Types a text with escapes, as a terminal would send it.
fn type_text(app: &mut App, text: &str) -> Vec<Effect> {
    let mut all = Vec::new();
    for b in parse_escape_sequences(text) {
        let key = match b {
            13 => plain(KeyCode::Enter),
            27 => plain(KeyCode::Esc),
            1..=26 => ctrl((b + 96) as char),
            _ => plain(KeyCode::Char(b as char)),
        };
        let effects = app.handle_key(key);
        for e in effects {
            if let Effect::Connect { room, screen } = e {
                all.extend(app.connected(room, screen));
            } else {
                all.push(e);
            }
        }
    }
    all
}

fn item_text(item: &Item) -> String {
    let mut lines = Vec::new();
    for line in &item.lines {
        let mut text = String::new();
        for span in &line.spans {
            text.push_str(&span.text);
        }
        lines.push(text);
    }
    lines.join("\n")
}

fn sidebar_text(app: &App) -> String {
    let items =
        render_room_sidebar(&app.rooms, app.focused_room, &app.agents, app.focused_agent);
    items.iter().map(item_text).collect::<Vec<String>>().join("\n")
}

/// What the screen shows but for the terminal itself.
fn screen(app: &mut App) -> String {
    let mut text = if app.show_sidebar { sidebar_text(app) } else { String::new() };
    text.push('\n');
    text.push_str(&app.status_line().0);
    text
}

fn output(room: usize, rooms: usize, data: &[u8]) -> Vec<Vec<Vec<DaemonMessage>>> {
    (0..rooms)
        .map(|i| {
            let msgs = if i == room {
                vec![DaemonMessage::Output { pty_id: 0, data: data.to_vec() }]
            } else {
                Vec::new()
            };
            vec![Vec::new(), msgs]
        })
        .collect()
}

#[test]
fn test_input_forwarding() {
    let mut app = app_with(&["main"], &[], 120);
    assert!(text_looks_ready(&screen(&mut app)));

    let effects = type_text(&mut app, "echo test123\\r");
    let mut sent: Vec<u8> = Vec::new();
    for e in &effects {
        match e {
            Effect::Send { room: 0, screen: 1, message: ClientMessage::Input { pty_id: 0, data } } => {
                sent.extend(data);
            }
            _ => panic!("only input goes to the terminal"),
        }
    }
    assert_eq!(sent, b"echo test123\r");

    app.process_pending(&output(0, 1, b"test123\r\n"), 0);
    let pty = app.rooms[0].current_pty().unwrap();
    let cells = TerminalWidget::new(pty.screen()).render(Rect { x: 0, y: 0, width: 98, height: 24 });
    let shown: String = cells.iter().map(|c| c.text.clone()).collect();
    assert!(shown.contains("test123"), "Should see command output 'test123'");
}

#[test]
fn test_tab_switching() {
    let mut app = app_with(&["main", "build", "logs"], &[], 120);

    let text = screen(&mut app);
    assert!(text.contains("#main"), "Should show channel 'main' in sidebar");
    assert!(!text.contains("#main *"));
    assert!(text.contains("\u{25b8} #main"));

    type_text(&mut app, r"\x02n");
    let text = screen(&mut app);
    assert!(!text.contains("#build *"));
    assert!(text.contains("\u{25b8} #build"));

    type_text(&mut app, r"\x02n");
    let text = screen(&mut app);
    assert!(!text.contains("#logs *"));
    assert!(text.contains("\u{25b8} #logs"));

    type_text(&mut app, r"\x02n");
    let text = screen(&mut app);
    assert!(!text.contains("#main *"));
    assert!(text.contains("\u{25b8} #main"));
}

#[test]
fn test_activity_detection() {
    let mut app = app_with(&["main", "build", "logs"], &[], 120);
    let text = screen(&mut app);
    assert!(text.contains("#main"));
    assert!(!text.contains("#main *"));

    type_text(&mut app, r"\x02n");
    let text = screen(&mut app);
    assert!(!text.contains("#build *"));

    let effects = type_text(&mut app, "echo activity_test\\r");
    assert_eq!(effects.len(), 19);
    app.process_pending(&output(1, 3, b"activity_test\r\n"), 5000);
    app.check_pending_activity(6000);
    assert_eq!(app.rooms[1].activity(), ActivityState::Idle);

    type_text(&mut app, r"\x02n");
    let text = screen(&mut app);
    assert!(!text.contains("#logs *"));
}

#[test]
fn test_sidebar_hides_on_mobile() {
    let mut app = app_with(&["main"], &[], 80);
    let text = screen(&mut app);
    assert!(!text.contains("#main"), "Sidebar should be hidden on narrow terminal (80 cols)");
    assert!(
        text.contains("^K search") || text.contains("^B leader"),
        "Status line should be visible"
    );
}

#[test]
fn test_sidebar_screen_indicators() {
    let mut app = app_with(&["main"], &[], 120);
    let text = screen(&mut app);
    assert!(text.contains("\u{1f4ac}") && text.contains("chat"));
    assert!(text.contains("\u{1f5a5}") && text.contains("workspace"));
    let sidebar = sidebar_text(&app);
    assert!(!sidebar.contains("[1/") && !sidebar.contains("[2/"));
}

#[test]
fn test_screen_switching_updates_indicator() {
    let mut app = app_with(&["main"], &[], 120);
    let text = screen(&mut app);
    assert!(text.contains("   \u{25b8} \u{1f5a5}\u{fe0f} workspace"));

    type_text(&mut app, r"\x02h");
    let text = screen(&mut app);
    assert!(text.contains("[1/2]"), "Status bar should show [1/2] when on chat screen");
    assert!(text.contains("   \u{25b8} \u{1f4ac} chat"));

    type_text(&mut app, r"\x02l");
    let text = screen(&mut app);
    assert!(text.contains("[2/2]"), "Status bar should show [2/2] when on workspace screen");
}

#[test]
fn test_room_switch_collapses_indicators() {
    let mut app = app_with(&["main", "build", "logs"], &[], 120);
    type_text(&mut app, r"\x02j");
    let text = screen(&mut app);
    let count = text.matches("\u{1f4ac}").count() + text.matches("\u{1f5a5}").count();
    assert!(count <= 2, "Should have at most 2 screen indicators (chat + workspace)");

    type_text(&mut app, r"\x02k");
    let text = screen(&mut app);
    assert!(text.contains("\u{25b8} #main"), "Should be back on first room");
}

#[test]
fn the_sidebar_is_exactly_this() {
    let mut app = app_with(&["main", "build"], &["zoe", "amy"], 120);
    assert_eq!(
        sidebar_text(&app),
        " \u{2500}\u{2500}\u{2500}\u{2500}\u{2500}\u{2500}\u{2500}\u{2500}\u{2500}\u{2500}\u{2500}\u{2500}\u{2500}\u{2500}\u{2500}\u{2500}\u{2500}\u{2500}\u{2500}\n Channels\n \u{25b8} #main\n     \u{1f4ac} chat\n   \u{25b8} \u{1f5a5}\u{fe0f} workspace\n   #build\n\n Agents\n   @amy\n   @zoe"
    );
    // Output in a room that is not in view becomes activity once the screen has settled.
    app.rooms[1].connect_screen(1);
    app.process_pending(&output(1, 2, b"\x07new"), 5000);
    assert!(!sidebar_text(&app).contains("#build \u{25cf}"));
    app.check_pending_activity(5499);
    assert!(!sidebar_text(&app).contains("#build \u{25cf}"));
    app.check_pending_activity(5500);
    assert!(sidebar_text(&app).contains("#build \u{25cf}"));
    assert_eq!(app.rooms[1].activity(), ActivityState::Active(1));
    // Going there clears it.
    type_text(&mut app, r"\x02j");
    assert!(!sidebar_text(&app).contains("\u{25cf}"));
}

#[test]
fn rooms_are_disconnected_when_they_are_left() {
    let mut app = app_with(&["main", "build"], &[], 120);
    assert!(app.rooms[0].current_pty().unwrap().is_connected());
    assert!(!app.rooms[1].current_pty().unwrap().is_connected());
    let effects = app.switch_to_room(1);
    assert!(matches!(effects[..], [Effect::Connect { room: 1, screen: 1 }]));
    assert!(app.needs_clear);
    assert!(!app.rooms[0].current_pty().unwrap().is_connected());
    let first = app.connected(1, 1);
    assert!(matches!(
        first[..],
        [Effect::Send { room: 1, screen: 1, message: ClientMessage::Resize { pty_id: 0, rows: 24, cols: 98 } }]
    ));
    assert!(app.rooms[1].current_pty().unwrap().is_connected());
    assert!(app.switch_to_room(7).is_empty());
    assert_eq!(app.focused_room_idx(), 1);
}

#[test]
fn agents_are_talked_to_in_rooms_of_their_own() {
    let mut app = app_with(&["main"], &["zoe", "amy"], 120);
    // The agents come after the channel, by name; the room of one is opened first.
    let effects = type_text(&mut app, r"\x02j");
    match &effects[..] {
        [Effect::CreateDm { agent: 1, user_id }] => assert_eq!(user_id, "@amy:home"),
        _ => panic!("the room has to be opened"),
    }
    assert_eq!(app.focused_room_idx(), 0);
    app.dm_created(1, "!dm:home".to_string());
    assert_eq!(app.focused_room_idx(), 1);
    assert_eq!(app.focused_room().name, "amy");
    assert_eq!(app.channel_indices(), vec![0]);
    assert!(!app.rooms[0].current_pty().unwrap().is_connected());
    assert_eq!(app.nav_position(), 1);
    assert_eq!(app.nav_item_count(), 3);
    // The room is no channel, so only the agent is listed.
    assert!(!sidebar_text(&app).contains("#amy"));
    assert!(sidebar_text(&app).contains("\u{25b8} @amy"));
    // Whoever goes back to the channel sees its terminal connected again.
    app.needs_clear = false;
    assert!(matches!(app.prev_room()[..], [Effect::Connect { room: 0, screen: 1 }]));
    assert_eq!(app.focused_room_idx(), 0);
    assert!(app.needs_clear);
    app.open_agent_dm(1);
    type_text(&mut app, r"\x02/");
    type_text(&mut app, "main");
    assert!(matches!(
        app.handle_key(plain(KeyCode::Enter))[..],
        [Effect::Connect { room: 0, screen: 1 }]
    ));
    assert_eq!(app.focused_room_idx(), 0);
    app.open_agent_dm(1);
    assert!(matches!(app.handle_click(0, 3)[..], [Effect::Connect { room: 0, screen: 1 }]));
    let back = app.open_agent_dm(1);
    assert!(back.is_empty());
    assert_eq!(app.focused_room_idx(), 1);

    let mut alone = app_with(&["main"], &["amy"], 120);
    alone.has_matrix = false;
    assert!(alone.open_agent_dm(0).is_empty());
    assert!(alone.open_agent_dm(5).is_empty());
}

#[test]
fn what_is_typed_in_the_chat_is_posted() {
    let mut app = app_with(&["main"], &[], 120);
    type_text(&mut app, r"\x02h");
    assert!(type_text(&mut app, "hi!").is_empty());
    app.handle_key(plain(KeyCode::Backspace));
    assert_eq!(app.focused_room().chat_state().unwrap().input, "hi");
    match &type_text(&mut app, r"\r")[..] {
        [Effect::Post { room_id, text }] => {
            assert_eq!(room_id, "!main:home");
            assert_eq!(text, "hi");
        }
        _ => panic!("the message has to be posted"),
    }
    assert!(type_text(&mut app, r"\r").is_empty());
}

fn message(room: &str, sender: &str, name: Option<&str>, timestamp: u64) -> MatrixMessage {
    MatrixMessage {
        room_id: room.to_string(),
        sender: sender.to_string(),
        sender_display_name: name.map(|s| s.to_string()),
        content: "hello".to_string(),
        timestamp,
    }
}

#[test]
fn messages_reach_their_room() {
    let mut app = app_with(&["main", "build"], &[], 120);
    app.deliver(message("!build:home", "@sam:home", None, 1_700_000_000_123));
    let chat = app.rooms[1].chat_state().unwrap();
    assert_eq!(chat.messages.len(), 1);
    assert_eq!(chat.messages[0].sender, "sam");
    assert_eq!(chat.messages[0].timestamp, "22:13");
    assert!(!chat.messages[0].is_own);
    assert!(chat.has_unread);
    assert_eq!(app.rooms[0].chat_state().unwrap().messages.len(), 0);
    // The chat in view is not unread.
    type_text(&mut app, r"\x02h");
    app.deliver(message("!main:home", "@sam:home", Some("Sam"), 59_999));
    let chat = app.rooms[0].chat_state().unwrap();
    assert_eq!(chat.messages[0].sender, "Sam");
    assert_eq!(chat.messages[0].timestamp, "00:00");
    assert!(!chat.has_unread);
    // Nor is the chat with an agent while it is in view.
    let mut talking = app_with(&["main"], &["sam"], 120);
    talking.dm_created(0, "!dm:home".to_string());
    talking.deliver(message("!dm:home", "@sam:home", None, 0));
    assert!(!talking.rooms[1].chat_state().unwrap().has_unread);
    talking.deliver(message("!main:home", "@sam:home", None, 0));
    assert!(talking.rooms[0].chat_state().unwrap().has_unread);

    app.deliver(message("!nowhere:home", "@sam:home", None, 0));
    // Too far off to have a date.
    app.deliver(message("!main:home", "x", None, u64::MAX));
    app.deliver(message("!main:home", "x", None, 8_210_266_876_799_999));
    app.deliver(message("!main:home", "x", None, 8_210_266_876_800_000));
    let chat = app.rooms[0].chat_state().unwrap();
    assert_eq!(chat.messages[1].timestamp, "??:??");
    assert_eq!(chat.messages[2].timestamp, "23:59");
    assert_eq!(chat.messages[3].timestamp, "??:??");
}

#[test]
fn leaving_and_ending() {
    let mut app = app_with(&["main"], &[], 120);
    assert!(matches!(type_text(&mut app, r"\x02q")[..], [Effect::Quit]));
    assert!(type_text(&mut app, r"\x02Q").is_empty());
    assert!(app.quit_confirm);
    assert!(type_text(&mut app, "n").is_empty());
    assert!(!app.quit_confirm);
    type_text(&mut app, r"\x02Q");
    assert!(matches!(type_text(&mut app, "y")[..], [Effect::StopAndQuit]));
    assert_eq!(quit_title(), " Quit Session ");
    assert!(quit_text().contains("kill all PTYs"));
    let area = quit_area(Rect { x: 0, y: 0, width: 120, height: 24 });
    assert_eq!(area, Rect { x: 35, y: 8, width: 50, height: 7 });
    let small = quit_area(Rect { x: 0, y: 0, width: 20, height: 5 });
    assert_eq!(small, Rect { x: 0, y: 0, width: 50, height: 7 });
}

#[test]
fn commands_take_one_key() {
    let mut app = app_with(&["main", "build"], &[], 120);
    type_text(&mut app, r"\x02");
    assert_eq!(app.input_mode, InputMode::Leader);
    let (text, style) = app.status_line();
    assert!(text.starts_with(" LEADER [2/2] "));
    assert_eq!(style.bg, Some(Color::Rgb(180, 140, 40)));
    assert!(type_text(&mut app, "z").is_empty());
    assert_eq!(app.input_mode, InputMode::Normal);
    // The command key itself.
    match &type_text(&mut app, r"\x02b")[..] {
        [Effect::Send { message: ClientMessage::Input { data, .. }, .. }] => assert_eq!(data, &vec![2]),
        _ => panic!("the key has to be sent"),
    }
    type_text(&mut app, r"\x022");
    assert_eq!(app.focused_room_idx(), 1);
    type_text(&mut app, r"\x021");
    assert_eq!(app.focused_room_idx(), 0);
    type_text(&mut app, r"\x029");
    assert_eq!(app.focused_room_idx(), 0);
    assert!(matches!(type_text(&mut app, r"\x02t")[..], [Effect::OpenTerminal]));
}

#[test]
fn searching() {
    let mut app = app_with(&["main", "build"], &["bob"], 120);
    app.handle_key(ctrl('k'));
    assert_eq!(app.picker.as_ref().unwrap().filtered.len(), 1);
    type_text(&mut app, "bU");
    assert_eq!(app.picker.as_ref().unwrap().filtered.len(), 1);
    app.handle_key(plain(KeyCode::Backspace));
    assert_eq!(app.picker.as_ref().unwrap().filtered.len(), 2);
    app.handle_key(plain(KeyCode::Down));
    assert_eq!(app.picker.as_ref().unwrap().selected, 1);
    app.handle_key(plain(KeyCode::Down));
    assert_eq!(app.picker.as_ref().unwrap().selected, 1);
    app.handle_key(plain(KeyCode::Enter));
    assert!(app.picker.is_none());
    assert_eq!(app.focused_room_idx(), 1);
    type_text(&mut app, r"\x02/");
    assert!(app.picker.is_some());
    app.handle_key(plain(KeyCode::Esc));
    assert!(app.picker.is_none());
}

#[test]
fn scrolling() {
    let mut app = app_with(&["main"], &[], 120);
    type_text(&mut app, r"\x02[");
    assert!(!app.rooms[0].current_pty().unwrap().is_scrolled());
    let mut lines: Vec<u8> = Vec::new();
    for i in 0..100 {
        lines.extend(format!("line {}\r\n", i).as_bytes());
    }
    app.process_pending(&output(0, 1, &lines), 0);
    assert!(app.status_line().0.contains("^B[ scroll (77 lines)"));
    type_text(&mut app, r"\x02[");
    assert_eq!(app.rooms[0].current_pty().unwrap().pty.scroll_offset, 1);
    assert!(app.status_line().0.starts_with(" SCROLL [1/77] [2/2] "));
    app.handle_key(plain(KeyCode::PageUp));
    assert_eq!(app.rooms[0].current_pty().unwrap().pty.scroll_offset, 23);
    type_text(&mut app, "k");
    assert_eq!(app.rooms[0].current_pty().unwrap().pty.scroll_offset, 24);
    app.handle_key(plain(KeyCode::PageDown));
    assert_eq!(app.rooms[0].current_pty().unwrap().pty.scroll_offset, 2);
    type_text(&mut app, "j");
    assert_eq!(app.rooms[0].current_pty().unwrap().pty.scroll_offset, 1);
    type_text(&mut app, "g");
    assert_eq!(app.rooms[0].current_pty().unwrap().pty.scroll_offset, 77);
    type_text(&mut app, "G");
    assert_eq!(app.rooms[0].current_pty().unwrap().pty.scroll_offset, 0);
    // Drawn where the user has scrolled to.
    type_text(&mut app, r"\x02[");
    let pty = app.rooms[0].current_pty_mut().unwrap();
    pty.apply_scroll_for_render();
    let cells = TerminalWidget::new(pty.screen()).render(Rect { x: 3, y: 2, width: 10, height: 2 });
    assert_eq!(cells.len(), 20);
    let first: String = cells.iter().take(7).map(|c| c.text.clone()).collect();
    assert_eq!(first, "line 76");
    assert_eq!((cells[0].x, cells[0].y), (3, 2));
    assert_eq!((cells[10].x, cells[10].y), (3, 3));
    pty.reset_scroll_view();
    let cells = TerminalWidget::new(pty.screen()).render(Rect { x: 0, y: 0, width: 7, height: 1 });
    let first: String = cells.iter().map(|c| c.text.clone()).collect();
    assert_eq!(first, "line 77");
    type_text(&mut app, "q");
    assert!(!app.rooms[0].current_pty().unwrap().is_scrolled());
}

#[test]
fn cells_have_colours_and_attributes() {
    let mut c = terminal("x", None);
    c.process_pending(
        &vec![DaemonMessage::Output {
            pty_id: 0,
            data: b"\x1b[1;3;4;7;31;48;5;200mA\x1b[0m\x1b[2;38;2;1;2;3mB\x1b[0m\xe4\xb8\xad".to_vec(),
        }],
        true,
        0,
    );
    let cells = TerminalWidget::new(c.screen()).render(Rect { x: 0, y: 0, width: 5, height: 1 });
    // The right half of the wide character is not drawn.
    assert_eq!(cells.len(), 4);
    assert_eq!(cells[0].text, "A");
    assert!(cells[0].style.bold && cells[0].style.italic && cells[0].style.underlined && cells[0].style.reversed);
    assert_eq!(cells[0].style.fg, Some(Color::Red));
    assert_eq!(cells[0].style.bg, Some(Color::Indexed(200)));
    assert_eq!(cells[1].style.fg, Some(Color::Rgb(1, 2, 3)));
    assert!(cells[1].style.dim && !cells[1].style.bold);
    assert_eq!(cells[2].text, "\u{4e2d}");
    assert_eq!(cells[3].text, " ");
    assert_eq!(cells[3].x, 4);
    assert_eq!(cells[3].style.fg, Some(Color::Reset));
    assert_eq!(convert_indexed_color(15), Color::White);
    assert_eq!(convert_indexed_color(16), Color::Indexed(16));
    assert_eq!(convert_color(bz::emulator::TermColor::Default), Color::Reset);
}

#[test]
fn sizes() {
    assert_eq!(pty_size(true, 23, 120), (24, 98));
    assert_eq!(pty_size(false, 40, 120), (40, 120));
    assert_eq!(pty_size(true, 23, 90), (24, 80));
    assert_eq!(pty_size(true, 0, 0), (24, 80));
    let mut app = app_with(&["main", "build"], &[], 120);
    let effects = app.handle_resize(90, 31, 1000);
    assert!(!app.show_sidebar);
    assert!(matches!(
        effects[..],
        [Effect::Send { room: 0, screen: 1, message: ClientMessage::Resize { pty_id: 0, rows: 30, cols: 90 } }]
    ));
    assert_eq!(app.rooms[1].current_pty().unwrap().screen().size(), (30, 90));
    assert!(matches!(app.handle_key(ctrl('\\'))[..], [Effect::Refit]));
    assert!(app.show_sidebar);
    // What comes right after a change of size does not count as new.
    app.rooms[1].connect_screen(1);
    app.process_pending(&output(1, 2, b"redrawn"), 2999);
    app.check_pending_activity(9000);
    assert_eq!(app.rooms[1].activity(), ActivityState::Idle);
}

#[test]
fn the_screen_is_shared_out() {
    let frame = Rect { x: 0, y: 0, width: 120, height: 30 };
    let wide = areas(true, frame);
    assert_eq!(wide.sidebar, Some(Rect { x: 0, y: 0, width: SIDEBAR_WIDTH, height: 30 }));
    assert_eq!(wide.content, Rect { x: 22, y: 0, width: 98, height: 29 });
    assert_eq!(wide.status, Rect { x: 22, y: 29, width: 98, height: 1 });
    let narrow = areas(false, frame);
    assert_eq!(narrow.sidebar, None);
    assert_eq!(narrow.content, Rect { x: 0, y: 0, width: 120, height: 29 });
    let tiny = areas(true, Rect { x: 0, y: 0, width: 10, height: 1 });
    assert_eq!(tiny.sidebar, Some(Rect { x: 0, y: 0, width: 10, height: 1 }));
    assert_eq!(tiny.content, Rect { x: 10, y: 0, width: 0, height: 0 });
    assert_eq!(tiny.status, Rect { x: 10, y: 0, width: 0, height: 1 });
}

#[test]
fn new_terminals() {
    let mut app = app_with(&["main"], &[], 120);
    let request = app.terminal_request(120, 40);
    assert_eq!(request.room, 0);
    assert_eq!(request.room_id, "!main:home");
    assert_eq!(request.name, "main-2");
    assert_eq!(request.cwd, "/w");
    assert!(!request.make_dir);
    assert_eq!((request.rows, request.cols), (39, 98));
    app.terminal_opened(0, terminal("main-2", None));
    assert_eq!(app.focused_room().current_screen_index(), 2);
    let request = app.terminal_request(120, 40);
    assert_eq!(request.cwd, "/tmp/bz-room-main_home");
    assert!(request.make_dir);
    assert_eq!(terminal_name("logs", 12), "logs-12");
    let c = app.focused_room().current_pty().unwrap();
    let entry = attached_pty(c, "@u:home");
    assert_eq!(entry.pty_id, c.id());
    assert_eq!(entry.user_id, "@u:home");
    assert_eq!(entry.socket, "/s/main-2.sock");
    assert_eq!(entry.command, "bash");
}

#[test]
fn clicks_and_pastes() {
    let mut app = app_with(&["main", "build"], &[], 120);
    // A title, a line and a heading; then the room in view with its two screens.
    app.handle_click(21, 6);
    assert_eq!(app.focused_room_idx(), 1);
    app.handle_click(22, 3);
    assert_eq!(app.focused_room_idx(), 1);
    for row in [0, 1, 2, 7, 60] {
        app.handle_click(0, row);
        assert_eq!(app.focused_room_idx(), 1);
    }
    app.handle_click(0, 3);
    assert_eq!(app.focused_room_idx(), 0);
    // The lines of the room in view belong to it.
    app.handle_click(0, 5);
    assert_eq!(app.focused_room_idx(), 0);
    // Agents come by name, behind a gap and a heading.
    let mut more = app_with(&["main"], &["zoe", "amy"], 120);
    for row in [6, 7] {
        assert!(more.handle_click(0, row).is_empty());
    }
    match &more.handle_click(0, 8)[..] {
        [Effect::CreateDm { agent, .. }] => assert_eq!(*agent, 1),
        _ => panic!("the room has to be made"),
    }
    app.connected(0, 1);
    match &app.handle_paste("\u{e9}")[..] {
        [Effect::Send { message: ClientMessage::Input { data, .. }, .. }] => {
            assert_eq!(data, &vec![0xc3, 0xa9]);
        }
        _ => panic!("the text has to be sent"),
    }
    type_text(&mut app, r"\x02h");
    assert!(app.handle_paste("x").is_empty());
}

#[test]
fn keys_send_bytes() {
    let cases: Vec<(KeyCode, &[u8])> = vec![
        (KeyCode::Enter, b"\r"),
        (KeyCode::Backspace, b"\x7f"),
        (KeyCode::Tab, b"\t"),
        (KeyCode::Esc, b"\x1b"),
        (KeyCode::Up, b"\x1b[A"),
        (KeyCode::Down, b"\x1b[B"),
        (KeyCode::Right, b"\x1b[C"),
        (KeyCode::Left, b"\x1b[D"),
        (KeyCode::Home, b"\x1b[H"),
        (KeyCode::End, b"\x1b[F"),
        (KeyCode::Delete, b"\x1b[3~"),
        (KeyCode::PageUp, b"\x1b[5~"),
        (KeyCode::PageDown, b"\x1b[6~"),
        (KeyCode::Insert, b"\x1b[2~"),
        (KeyCode::Char('\u{e9}'), b"\xc3\xa9"),
    ];
    for (code, bytes) in cases {
        assert_eq!(key_to_bytes(plain(code)), Some(bytes.to_vec()));
    }
    assert_eq!(key_to_bytes(plain(KeyCode::Other)), None);
    assert_eq!(key_to_bytes(ctrl('c')), Some(vec![3]));
    assert_eq!(key_to_bytes(ctrl('C')), Some(vec![3]));
    assert_eq!(key_to_bytes(ctrl(' ')), Some(vec![192]));
    assert_eq!(key_to_bytes(ctrl('\\')), Some(vec![252]));
    assert_eq!(
        key_to_bytes(KeyEvent { code: KeyCode::Enter, control: false, shift: true }),
        Some(b"\x1b[13;2u".to_vec())
    );
    assert_eq!(
        key_to_bytes(KeyEvent { code: KeyCode::Tab, control: false, shift: true }),
        Some(b"\x1b[Z".to_vec())
    );
}

#[test]
fn exited_processes_show() {
    let mut app = app_with(&["main"], &[], 120);
    app.process_pending(
        &vec![vec![Vec::new(), vec![DaemonMessage::PtyExited { pty_id: 0, exit_code: None }]]],
        0,
    );
    let (text, style) = app.status_line();
    assert_eq!(text, " EXITED [2/2] \u{2502} ^K switch room ");
    assert_eq!(style.fg, Some(Color::White));
    assert!(style.bold);
    let channels = vec![terminal("a", None)];
    let list = Sidebar::from_session_channels(&channels, 0)
        .with_rooms(vec![("!x:y".to_string(), "lobby".to_string())]);
    let items = list.items();
    assert_eq!(items.len(), 3);
    assert_eq!(item_text(&items[0]), " \u{25b8} #a");
    assert_eq!(
        item_text(&items[1]),
        "\u{2500}\u{2500}\u{2500} Rooms \u{2500}\u{2500}\u{2500}"
    );
    assert_eq!(item_text(&items[2]), "   \u{25c9} lobby");
    let mut gone = terminal("b", None);
    gone.pty.mark_exited();
    assert_eq!(gone.pty.status, PtyStatus::Exited);
    let channels = vec![gone];
    let items = Sidebar::from_session_channels(&channels, 1).items();
    assert_eq!(item_text(&items[0]), "   #b \u{2715}");
    assert_eq!(items[0].style.fg, Some(Color::Red));
}

#[test]
fn rooms_on_the_server_are_remembered_with_a_connection_only() {
    let mut app = app_with(&["main"], &[], 120);
    app.update_matrix_rooms(vec![("!a:b".to_string(), "a".to_string())]);
    assert_eq!(app.cached_rooms.len(), 1);
    app.has_matrix = false;
    app.update_matrix_rooms(Vec::new());
    assert_eq!(app.cached_rooms.len(), 1);
}

#[test]
fn shells_take_the_place_of_ended_commands() {
    let mut app = app_with(&["a", "b"], &[], 120);
    assert!(app.respawn_requests(120, 40).is_empty());
    let ended = || vec![DaemonMessage::PtyExited { pty_id: 0, exit_code: None }];
    app.process_pending(&vec![vec![Vec::new(), ended()], vec![Vec::new(), Vec::new()]], 0);
    let wanted = app.respawn_requests(120, 40);
    assert_eq!(wanted.len(), 1);
    assert_eq!((wanted[0].room, wanted[0].room_id.as_str()), (0, "!a:home"));
    assert_eq!((wanted[0].name.as_str(), wanted[0].cwd.as_str()), ("a-2", "/w"));
    assert_eq!((wanted[0].rows, wanted[0].cols, wanted[0].make_dir), (39, 98, false));
    // The next time there is nothing to do.
    assert!(app.respawn_requests(120, 40).is_empty());
    app.terminal_opened(0, terminal("a-2", None));
    assert_eq!(app.rooms[0].current_screen_index(), 2);
    // A terminal without a directory of its own is not replaced.
    app.process_pending(
        &vec![vec![Vec::new(), Vec::new(), ended()], vec![Vec::new(), Vec::new()]],
        0,
    );
    assert!(app.respawn_requests(120, 40).is_empty());
    assert!(app.status_line().0.starts_with(" EXITED "));
}
