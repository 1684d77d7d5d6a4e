use bz::chaperone_channel::{count_message_bells, ChaperoneChannel};
use bz::chaperone_pty::{input_message, resize_message};
use bz::channel::Channel;
use bz::emulator::{hash_screen, hash_text};
use bz::chat_view::{ChatMessage, ChatState, ChatViewWidget};
use bz::picker::{NoAgent, Picker, PickerItem, PickerWidget};
use bz::protocol::{ClientMessage, DaemonMessage};
use bz::pty::{ActivityState, Pty, PtyStatus, SCROLLBACK_LINES};
use bz::room_view::{RoomView, Screen};
use bz::session_pty::SessionPty;
use bz::ui::{Color, Rect};

fn lines(from: usize, to: usize) -> Vec<u8> {
    (from..to).map(|i| format!("line {}\r\n", i)).collect::<String>().into_bytes()
}

#[test]
fn new_output_counts_once_it_has_settled() {
    let mut p = Pty::new(24, 80);
    p.process_output(b"hello\x07\x07", false, 1000);
    assert!(matches!(p.activity, ActivityState::Pending { since: 1000, bells: 2, .. }));
    assert!(!p.activity.is_active());
    p.check_pending_activity(1499);
    assert!(matches!(p.activity, ActivityState::Pending { .. }));
    p.process_output(b"\x07", false, 1499);
    p.check_pending_activity(1500);
    assert_eq!(p.activity, ActivityState::Active(3));
    assert_eq!(p.activity.bell_count(), 3);
    p.process_output(b"\x07", false, 1600);
    assert_eq!(p.activity, ActivityState::Active(4));
    p.clear_activity();
    assert_eq!(p.activity, ActivityState::Idle);
}

#[test]
fn output_that_changes_nothing_does_not_count() {
    let mut p = Pty::new(24, 80);
    p.process_output(b"hello", true, 0);
    assert_eq!(p.activity, ActivityState::Idle);
    p.process_output(b"\x08o", false, 10);
    p.check_pending_activity(600);
    assert_eq!(p.activity, ActivityState::Idle);
    p.process_output(b"", false, 700);
    assert_eq!(p.activity, ActivityState::Idle);
}

#[test]
fn output_after_a_resize_does_not_count() {
    let mut p = Pty::new(24, 80);
    p.process_output(b"hello", false, 0);
    p.resize(30, 100, 100);
    assert_eq!(p.size(), (30, 100));
    assert_eq!(p.activity, ActivityState::Idle);
    p.process_output(b"\x07more", false, 2099);
    assert_eq!(p.activity, ActivityState::Idle);
    p.process_output(b"\x07more", false, 2100);
    assert_eq!(p.activity.bell_count(), 1);
}

#[test]
fn terminals_are_narrowed() {
    // Nothing is lost on either screen.
    let mut p = Pty::new(24, 80);
    p.replay("main \u{5b57}\x1b[?1049halt".as_bytes());
    p.resize(20, 40, 0);
    assert_eq!(p.size(), (20, 40));
    assert_eq!(hash_screen(&p.terminal), hash_text("alt"));
    p.replay(b"\x1b[?1049l");
    assert_eq!(hash_screen(&p.terminal), hash_text("main \u{5b57}"));
    p.resize(24, 80, 0);
    p.resize(20, 40, 0);
    assert_eq!(hash_screen(&p.terminal), hash_text("main \u{5b57}"));

    // The lines above the screen stay, and so does the place the user has scrolled to.
    let mut p = Pty::new(24, 80);
    p.replay(&lines(0, 50));
    p.scroll_up(5);
    p.resize(24, 40, 0);
    assert_eq!(p.scrollback_len(), 27);
    assert_eq!(p.scroll_offset, 5);
}

#[test]
fn no_character_is_cut_in_two() {
    // One that lies across the new edge, in the columns 40 and 41.
    let mut p = Pty::new(24, 80);
    p.replay(&lines(0, 50));
    p.replay("\x1b[1;40H\u{5b57}".as_bytes());
    p.scroll_up(5);
    p.resize(24, 40, 0);
    assert_eq!(p.size(), (24, 40));
    let rest: Vec<String> = (27..50).map(|i| format!("line {}", i)).collect();
    assert_eq!(hash_screen(&p.terminal), hash_text(&rest.join("\n")));
    assert_eq!(p.scroll_offset, 5);
    assert_eq!(p.scrollback_len(), 27);
    p.replay(b"\x1b[1;40Hab\x1b[1;40H\x1b[P\x1b[H\x1b[2Jok");
    assert_eq!(hash_screen(&p.terminal), hash_text("ok"));

    // The cursor stays where it was, also where only some lines scroll.
    let mut p = Pty::new(24, 80);
    p.replay("\x1b[3;40H\u{5b57}\x1b[24;40H\u{5b57}".as_bytes());
    p.replay(b"\x1b[5;10r\x1b[?6h\x1b[2;3Hab");
    p.resize(24, 40, 0);
    p.replay(b"c");
    assert_eq!(
        hash_screen(&p.terminal),
        hash_text(&format!("\n\n\n\n\n  abc"))
    );

    // A sequence of which only the beginning has come goes on.
    for start in ["", "\x1b[1;40H\u{5b57}\x1b[H"] {
        let mut p = Pty::new(24, 80);
        p.replay(start.as_bytes());
        p.replay(b"\x1b[31;2");
        p.resize(24, 40, 0);
        p.replay(b"mred\x1b[3;");
        p.resize(24, 30, 0);
        p.replay(b"5Hx");
        assert_eq!(hash_screen(&p.terminal), hash_text("red\n\n    x"));
    }

    // One that lies across the edge of the screen that is not shown.
    for shown in ["\x1b[?47h", "\x1b[?47h\x1b[1;40H\u{5b57}\x1b[?47l"] {
        let mut p = SessionPty::new(0, 24, 80);
        if shown.ends_with('h') {
            p.process_history("\x1b[1;40H\u{5b57}".as_bytes());
        }
        p.process_history(shown.as_bytes());
        p.process_history(b"\x1b[Hkept");
        p.resize(24, 40);
        assert_eq!(hash_screen(&p.pty.terminal), hash_text("kept"));
        p.process_history(b"\x1b[?47l\x1b[1;40Hx\x1b[?47h\x1b[1;40Hx\x1b[H\x1b[2Jok");
        assert_eq!(hash_screen(&p.pty.terminal), hash_text("ok"));
    }

    // One that ends at the edge is not cut.
    let mut p = Pty::new(24, 80);
    p.replay("\x1b[1;39H\u{5b57}".as_bytes());
    p.resize(24, 40, 0);
    p.replay(b"\x1b[1;1Hx");
    assert_eq!(
        hash_screen(&p.terminal),
        hash_text(&format!("x{}\u{5b57}", " ".repeat(37)))
    );
}

#[test]
fn the_smallest_terminal_wraps_lines() {
    let mut p = Pty::new(2, 3);
    p.replay("abcdef\u{5b57}".as_bytes());
    assert_eq!(hash_screen(&p.terminal), hash_text("def\u{5b57}"));
    // A character of a width of three.
    p.replay("\u{17d8}\u{17d8}\u{17d8}\r\n\x1b[2Jok".as_bytes());
    assert_eq!(hash_screen(&p.terminal), hash_text("\nok"));
}

#[test]
fn terminals_scroll() {
    let mut p = Pty::new(24, 80);
    assert_eq!(p.scrollback_len(), 0);
    assert!(!p.scroll_up(5));
    p.replay(&lines(0, 50));
    let reach = p.scrollback_len();
    assert_eq!(reach, 27);
    assert!(p.scroll_up(5));
    assert!(!p.scroll_up(100));
    assert_eq!(p.scroll_offset, 27);
    assert!(p.is_scrolled());
    assert!(!p.scroll_down(26));
    assert!(p.scroll_down(1));
    p.scroll_up(3);
    p.scroll_to_bottom();
    assert!(!p.is_scrolled());
    p.replay(&lines(50, 10100));
    assert_eq!(p.scrollback_len(), SCROLLBACK_LINES);
    p.mark_exited();
    assert_eq!(p.status, PtyStatus::Exited);
}

#[test]
fn terminals_of_the_daemon() {
    let mut p = SessionPty::new(7, 24, 80);
    assert!(!p.is_history_complete());
    p.process_history(&lines(0, 30));
    p.mark_history_complete();
    assert!(p.is_history_complete());
    assert!(!p.process_daemon_output(b"", false));
    assert!(p.process_daemon_output(b"\x07new", false));
    // The daemon's terminals do not look out for anything new.
    assert_eq!(p.pty.activity, ActivityState::Idle);
    assert!(matches!(p.write(b"ab"), ClientMessage::Input { pty_id: 7, data } if data == b"ab"));
    assert!(matches!(p.resize(30, 90), ClientMessage::Resize { pty_id: 7, rows: 30, cols: 90 }));
    assert_eq!(p.screen().size(), (30, 90));
    let reach = p.scrollback_len();
    assert!(reach > 0);
    assert!(p.scroll_up(1));
    assert!(p.is_scrolled());
    p.apply_scroll_for_render();
    p.reset_scroll_view();
    assert!(p.scroll_down(1));
    p.scroll_up(2);
    p.scroll_to_bottom();
    p.clear_activity();
    p.mark_exited();
    assert_eq!(p.pty.status, PtyStatus::Exited);
}

#[test]
fn channels_have_names() {
    let mut c = Channel::new(3, "main".to_string(), Pty::new(24, 80));
    c.process_output(b"x", false, 0);
    assert!(matches!(c.activity(), ActivityState::Pending { .. }));
    c.clear_activity();
    assert_eq!(*c.activity(), ActivityState::Idle);
    assert_eq!((c.id, c.name.as_str()), (3, "main"));
}

fn channel() -> ChaperoneChannel {
    ChaperoneChannel::new_disconnected(
        "main".to_string(),
        "bash".to_string(),
        None,
        "/s.sock".to_string(),
        24,
        80,
    )
}

#[test]
fn channels_connect_and_disconnect() {
    let mut c = channel();
    assert!(!c.is_connected());
    assert!(c.write(b"x").is_none());
    let hello = vec![
        DaemonMessage::History { pty_id: 0, data: b"old ".to_vec() },
        DaemonMessage::HistoryEnd { pty_id: 0 },
        DaemonMessage::Output { pty_id: 0, data: b"new".to_vec() },
    ];
    // Messages without a connection are not looked at.
    c.process_pending(&hello, true, 0);
    assert!(!c.history_complete);
    assert!(matches!(
        c.connect(),
        Some(ClientMessage::Resize { pty_id: 0, rows: 24, cols: 80 })
    ));
    assert!(c.connect().is_none());
    c.process_pending(&hello, true, 0);
    assert!(c.history_complete);
    assert!(matches!(c.resize(30, 90, 0), Some(ClientMessage::Resize { .. })));
    assert!(matches!(c.write(b"x"), Some(ClientMessage::Input { pty_id: 0, .. })));
    c.disconnect();
    assert!(c.resize(24, 80, 0).is_none());
    assert_eq!(c.id().len(), 36);
    assert_ne!(c.id(), channel().id());
}

#[test]
fn bells_in_messages() {
    let msgs = vec![
        DaemonMessage::Output { pty_id: 0, data: vec![7, 1, 7] },
        DaemonMessage::History { pty_id: 0, data: vec![7] },
        DaemonMessage::Output { pty_id: 0, data: vec![7] },
    ];
    assert_eq!(count_message_bells(&msgs), 3);
}

#[test]
fn messages_to_a_terminal() {
    assert!(matches!(input_message(b"ab"), ClientMessage::Input { pty_id: 0, data } if data == b"ab"));
    assert!(matches!(
        resize_message(1, 2),
        ClientMessage::Resize { pty_id: 0, rows: 1, cols: 2 }
    ));
}

#[test]
fn rooms_have_screens() {
    let mut room = RoomView::with_pty("!r:h".to_string(), "main".to_string(), channel());
    assert_eq!((room.screen_count(), room.current_screen_index()), (2, 1));
    assert!(room.on_pty() && !room.on_chat());
    assert!(room.current_chat().is_none());
    assert!(room.current_pty().is_some());
    assert!(matches!(room.connect_current(), Some(ClientMessage::Resize { .. })));
    assert!(room.connect_current().is_none());
    room.next_screen();
    assert_eq!(room.current_screen_index(), 1);
    room.prev_screen();
    room.prev_screen();
    assert_eq!(room.current_screen_index(), 0);
    assert!(room.on_chat());
    assert!(room.current_screen().is_chat());
    assert!(!room.handle_screen_focus_change(1, 0));
    assert!(!room.ptys()[0].is_connected());
    assert!(room.handle_screen_focus_change(0, 1));
    room.add_pty(channel(), false);
    assert_eq!((room.ptys().len(), room.current_screen_index()), (2, 0));
    room.add_pty(channel(), true);
    assert_eq!(room.current_screen_index(), 3);

    assert_eq!(room.activity(), ActivityState::Idle);
    room.chat_state_mut().unwrap().has_unread = true;
    assert!(room.activity().is_active());
    room.clear_current_activity();
    assert!(room.activity().is_active());
    room.current_screen = 0;
    room.clear_current_activity();
    assert_eq!(room.activity(), ActivityState::Idle);
    room.current_chat_mut().unwrap().push_input('x');
    assert_eq!(room.chat_state().unwrap().input, "x");
    assert!(Screen::chat().is_chat());
}

fn chat_with(n: usize) -> ChatState {
    let mut chat = ChatState::new();
    for i in 0..n {
        chat.add_message(ChatMessage::new(
            "sam".to_string(),
            format!("m{}", i),
            "10:00".to_string(),
            i == 0,
        ));
    }
    chat
}

#[test]
fn chats_are_shown() {
    let empty = ChatState::new();
    let area = Rect { x: 0, y: 0, width: 40, height: 6 };
    assert!(ChatViewWidget::new(&empty, "main", true).render_messages(area).lines.is_none());

    let mut chat = chat_with(10);
    let view = ChatViewWidget::new(&chat, "main", true).render_messages(area);
    assert_eq!(view.title, " #main ");
    assert_eq!(view.border.fg, Some(Color::Cyan));
    assert_eq!(view.inner, Rect { x: 1, y: 1, width: 38, height: 4 });
    assert!(view.indicator.is_none());
    let shown = view.lines.unwrap();
    assert_eq!(shown.len(), 4);
    let text: String = shown[3].spans.iter().map(|s| s.text.as_str()).collect();
    assert_eq!(text, "10:00 sam: m9");

    chat.scroll_up(8);
    let view = ChatViewWidget::new(&chat, "main", false).render_messages(area);
    assert_eq!(view.border.fg, Some(Color::DarkGray));
    let shown = view.lines.unwrap();
    assert_eq!(shown.len(), 2);
    assert_eq!(shown[0].spans[2].style.fg, Some(Color::Green));
    assert_eq!(shown[1].spans[2].style.fg, Some(Color::Cyan));
    let (note, place) = view.indicator.unwrap();
    assert_eq!(note, "\u{2191} 8 more");
    assert_eq!(place, Rect { x: 28, y: 1, width: 10, height: 1 });

    chat.push_input('h');
    let (text, style, border) = ChatViewWidget::new(&chat, "main", true).render_input();
    assert_eq!(text, "h\u{258c}");
    assert_eq!((style.fg, border.fg), (Some(Color::White), Some(Color::Cyan)));
    let (text, _, _) = ChatViewWidget::new(&chat, "main", false).render_input();
    assert_eq!(text, "h");
    chat.pop_input();
    chat.pop_input();
    assert!(chat.input_is_empty());
    chat.has_unread = true;
    chat.mark_read();
    assert!(!chat.has_unread);
}

#[test]
fn searches_are_shown() {
    let rooms = vec![RoomView::new("!r:h".to_string(), "main".to_string())];
    let agents: Vec<NoAgent> = Vec::new();
    let mut picker = Picker::new();
    picker.update_filter(&rooms, &agents);
    assert_eq!(picker.selected_item(), None);
    let widget = PickerWidget::from_rooms_and_agents(&picker, &rooms, &agents);
    assert_eq!(widget.query_line().0, " > Type to search...");
    let nothing = widget.items();
    assert_eq!(nothing[0].lines[0].spans[0].text, "   \u{25cf} No rooms with activity");
    picker.query.push('z');
    picker.update_filter(&rooms, &agents);
    let widget = PickerWidget::from_rooms_and_agents(&picker, &rooms, &agents);
    assert_eq!(widget.query_line().0, " > z");
    assert_eq!(widget.items()[0].lines[0].spans[0].text, "   No matching items");
    picker.query = "AI".to_string();
    picker.update_filter(&rooms, &agents);
    assert_eq!(picker.selected_item(), Some(PickerItem::Channel(0)));
    picker.move_up();
    picker.move_down();
    assert_eq!(picker.selected, 0);
}
