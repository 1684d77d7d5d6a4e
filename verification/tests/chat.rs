use bz::agent::{
    agent_credentials_path, agent_password, agent_state_path, answer_can_be_cut, answer_text,
    cut_answer, Agent, AgentAction, AgentState, Outcome,
};
use bz::chat_view::{ChatMessage, ChatState, ChatViewWidget};
use bz::clock::show_time;
use bz::config::AgentConfig;
use bz::matrix_client::{
    agent_account, attach_pty, attached_ptys_event_type, detach_pty, ensure_rooms_for_channels,
    agent_login_start, find_room, local_part, login_start, missing_rooms, receive, user_id_of,
    AttachedPty,
    LoginStep, MatrixMessage, MessageKind, StoredCredentials,
};
use bz::picker::{NoAgent, Picker, PickerWidget};
use bz::room_view::RoomView;
use bz::startup::{
    bz_args, bz_usage, bzc_args, bzd_args, channel_room, invitations, read_bzd_args, BzArgs,
    BzdArgs,
};
use bz::ui::Rect;

fn strings(v: &[&str]) -> Vec<String> {
    v.iter().map(|s| s.to_string()).collect()
}

fn pairs(v: &[(&str, &str)]) -> Vec<(String, String)> {
    v.iter().map(|(a, b)| (a.to_string(), b.to_string())).collect()
}

fn say(sender: &str, content: &str, timestamp: u64) -> MatrixMessage {
    MatrixMessage {
        room_id: "!r:h".to_string(),
        sender: sender.to_string(),
        sender_display_name: None,
        content: content.to_string(),
        timestamp,
    }
}

fn sam(cwd: Option<&str>) -> Agent {
    Agent {
        name: "Sam".to_string(),
        user_id: "@Sam:h".to_string(),
        cwd: cwd.map(|s| s.to_string()),
    }
}

fn reply(action: AgentAction) -> String {
    match action {
        AgentAction::Reply { text } => text,
        _ => panic!("a reply was due"),
    }
}

fn prompt(action: AgentAction) -> String {
    match action {
        AgentAction::Dispatch { prompt, cwd } => {
            assert_eq!(cwd, "/w");
            prompt
        }
        _ => panic!("work was due"),
    }
}

#[test]
fn agents_follow_commands() {
    let a = sam(Some("/w"));
    let s = AgentState::default();
    match a.follow(&say("@u:h", " /quit now", 1), false, &s) {
        AgentAction::ReplyAndQuit { text } => assert_eq!(text, "Shutting down..."),
        _ => panic!("the agent has to end"),
    }
    assert_eq!(
        reply(a.follow(&say("@u:h", "/restart", 1), false, &s)),
        "Restart requested (not yet implemented)"
    );
    assert!(reply(a.follow(&say("@u:h", "/help", 1), false, &s)).starts_with("Available commands:\n- /quit"));
    assert!(matches!(a.follow(&say("@u:h", "/quitter", 1), true, &s), AgentAction::Ignore));
    assert!(matches!(a.follow(&say("@Sam:h", "/quit", 1), true, &s), AgentAction::Ignore));
}

#[test]
fn agents_work_on_what_is_meant_for_them() {
    let a = sam(Some("/w"));
    let s = AgentState { last_dispatch_ts: 10 };
    assert!(matches!(a.follow(&say("@u:h", "hello", 11), false, &s), AgentAction::Ignore));
    assert_eq!(prompt(a.follow(&say("@u:h", " hello ", 11), true, &s)), "hello");
    assert_eq!(prompt(a.follow(&say("@u:h", "hey @Sam do it", 11), false, &s)), "hey  do it");
    assert_eq!(prompt(a.follow(&say("@u:h", "hey @sam do it", 11), false, &s)), "hey  do it");
    assert_eq!(prompt(a.follow(&say("@u:h", "SAM \u{26a1}: do: it", 11), false, &s)), "do: it");
    assert!(matches!(a.follow(&say("@u:h", "bob: sam", 11), false, &s), AgentAction::Ignore));
    assert!(matches!(a.follow(&say("@u:h", "@Sam do it", 10), false, &s), AgentAction::Ignore));
    assert_eq!(
        reply(a.follow(&say("@u:h", "@Sam", 11), false, &s)),
        "\u{1f44b} You mentioned me! What can I help with?"
    );
    assert_eq!(
        reply(sam(None).follow(&say("@u:h", "@Sam go", 11), false, &s)),
        "No working directory configured - can't invoke wicket"
    );
    let mut state = AgentState::default();
    state.dispatched(77);
    assert_eq!(state.last_dispatch_ts, 77);
}

#[test]
fn answers_are_cut() {
    assert_eq!(answer_text(Outcome::Done("ok".to_string())), "ok");
    assert_eq!(answer_text(Outcome::Failed("bad".to_string())), "Error: bad");
    assert_eq!(answer_text(Outcome::NotStarted("no".to_string())), "Failed to invoke wicket: no");
    let short = "x".repeat(4000);
    assert_eq!(cut_answer(short.clone()), short);
    let long = "x".repeat(4001);
    assert!(answer_can_be_cut(&long));
    assert_eq!(cut_answer(long), format!("{}... (truncated)", short));
    let odd = format!("{}\u{e9}\u{e9}", "x".repeat(3999));
    assert!(!answer_can_be_cut(&odd));
    assert!(answer_can_be_cut("\u{e9}"));
}

#[test]
fn agents_have_files() {
    assert_eq!(agent_state_path("/d", "sam"), "/d/matrix/agent-sam-state.json");
    assert_eq!(agent_credentials_path("/d", "sam"), "/d/matrix/agent-sam.json");
    assert_eq!(
        StoredCredentials::path_for_user("/d", &agent_account("sam")),
        agent_credentials_path("/d", "sam")
    );
    assert_eq!(agent_password("sam"), "agent-sam-password");
    assert_eq!(attached_ptys_event_type(), "bz.attached_ptys");
}

#[test]
fn messages_are_passed_on() {
    let pass = |sender: &str, kind: MessageKind| {
        receive(
            "@me:h",
            "!r:h".to_string(),
            sender.to_string(),
            Some("Bob".to_string()),
            kind,
            "waves".to_string(),
            5,
        )
    };
    assert!(pass("@me:h", MessageKind::Text).is_none());
    assert!(pass("@bob:h", MessageKind::Other).is_none());
    assert_eq!(pass("@bob:h", MessageKind::Text).unwrap().content, "waves");
    assert_eq!(pass("@bob:h", MessageKind::Notice).unwrap().content, "waves");
    let emote = pass("@bob:h", MessageKind::Emote).unwrap();
    assert_eq!(emote.content, "* waves");
    assert_eq!(emote.sender_name(), "Bob");
    assert_eq!(emote.timestamp, 5);
}

#[test]
fn names_of_users() {
    assert_eq!(user_id_of("sam", "home"), "@sam:home");
    assert_eq!(local_part("@sam:home:1"), "sam");
    assert_eq!(local_part("@@sam"), "sam");
    assert_eq!(local_part("sam"), "sam");
    assert_eq!(local_part(""), "");
}

fn entry(id: &str, command: &str) -> AttachedPty {
    AttachedPty {
        pty_id: id.to_string(),
        user_id: "@u:h".to_string(),
        socket: "/s".to_string(),
        command: command.to_string(),
    }
}

#[test]
fn terminals_are_listed_once() {
    let list = attach_pty(attach_pty(Vec::new(), entry("a", "1")), entry("b", "2"));
    let list = attach_pty(list, entry("a", "3"));
    let ids: Vec<(String, String)> =
        list.iter().map(|p| (p.pty_id.clone(), p.command.clone())).collect();
    assert_eq!(ids, pairs(&[("b", "2"), ("a", "3")]));
    let list = detach_pty(list, "b");
    assert_eq!(list.len(), 1);
    assert_eq!(detach_pty(list, "zzz").len(), 1);
}

#[test]
fn logging_in() {
    let kept = Some(StoredCredentials::after_login(
        "@u:h".to_string(),
        None,
        Some("token".to_string()),
        "http://a".to_string(),
    ));
    assert_eq!(kept.as_ref().unwrap().device_id, "");
    assert_eq!(kept.as_ref().unwrap().access_token, "token");
    assert_eq!(login_start(&kept, "http://a"), LoginStep::Restore);
    assert_eq!(login_start(&kept, "http://b"), LoginStep::LoginFirst);
    assert_eq!(login_start(&None, "http://b"), LoginStep::Register);
    assert_eq!(agent_login_start(&kept, "http://a"), LoginStep::Restore);
    assert_eq!(agent_login_start(&kept, "http://b"), LoginStep::LoginFirst);
    assert_eq!(agent_login_start(&None, "http://b"), LoginStep::LoginFirst);
    assert_eq!(LoginStep::Restore.next(true), LoginStep::Restored);
    assert_eq!(LoginStep::Restore.next(false), LoginStep::LoginFirst);
    assert_eq!(LoginStep::LoginFirst.next(true), LoginStep::Save);
    assert_eq!(LoginStep::LoginFirst.next(false), LoginStep::RegisterLast);
    assert_eq!(LoginStep::RegisterLast.next(true), LoginStep::Save);
    assert_eq!(LoginStep::RegisterLast.next(false), LoginStep::Failed);
    assert_eq!(LoginStep::Register.next(true), LoginStep::Save);
    assert_eq!(LoginStep::Register.next(false), LoginStep::Login);
    assert_eq!(LoginStep::Login.next(true), LoginStep::Save);
    assert_eq!(LoginStep::Login.next(false), LoginStep::Failed);
    assert_eq!(LoginStep::Failed.next(true), LoginStep::Failed);
}

#[test]
fn channels_get_rooms() {
    let existing = pairs(&[("!1:h", "main"), ("!2:h", "main"), ("!3:h", "logs")]);
    assert_eq!(find_room(&existing, "main"), Some("!1:h".to_string()));
    let names = strings(&["main", "new", "logs", "new"]);
    assert_eq!(missing_rooms(&existing, &names), vec![1, 3]);
    let made = vec![None, Some("!9:h".to_string()), None, None];
    let mapped = ensure_rooms_for_channels(&existing, &made, &names);
    assert_eq!(mapped, pairs(&[("main", "!1:h"), ("new", "!9:h"), ("logs", "!3:h")]));
    assert_eq!(channel_room(&mapped, "new"), "!9:h");
    assert_eq!(channel_room(&mapped, "none"), "default");
    assert_eq!(channel_room(&pairs(&[("a", "1"), ("a", "2")]), "a"), "2");
    let agents = vec![AgentConfig::from_parts(
        "sam".to_string(),
        None,
        None,
        None,
        Some(strings(&["logs", "none", "main"])),
    )];
    assert_eq!(
        invitations(&mapped, &agents, "h"),
        pairs(&[("!3:h", "@sam:h"), ("!1:h", "@sam:h")])
    );
}

fn config_of(args: &[&str]) -> Option<String> {
    match bz_args(&strings(args)) {
        BzArgs::Run { config_path, takeover: false } => config_path,
        _ => panic!("the program has to run"),
    }
}

#[test]
fn programs_read_their_arguments() {
    assert_eq!(config_of(&["bz"]), None);
    assert_eq!(config_of(&["bz", "--config", "a", "x", "--config=b"]), Some("b".to_string()));
    assert_eq!(config_of(&["bz", "--config=--config=c"]), Some("c".to_string()));
    assert_eq!(config_of(&["--help"]), None);
    assert!(matches!(bz_args(&strings(&["bz", "-h", "--config"])), BzArgs::Help));
    assert!(matches!(bz_args(&strings(&["bz", "--config"])), BzArgs::MissingPath));
    assert!(matches!(bz_args(&strings(&["bz", "stop"])), BzArgs::Stop));
    assert!(matches!(bz_args(&strings(&["bz", "--help", "stop"])), BzArgs::Help));
    assert!(matches!(
        bz_args(&strings(&["bz", "--takeover"])),
        BzArgs::Run { config_path: None, takeover: true }
    ));
    match bz_args(&strings(&["bz", "--takeover", "--config", "stop"])) {
        BzArgs::Run { config_path: Some(path), takeover: true } => assert_eq!(path, "stop"),
        _ => panic!("the program has to run"),
    }
    assert!(bz_usage().contains("Usage: bz [OPTIONS]"));
    assert_eq!(
        bzd_args(24, 80, "h", &Some("/c".to_string())),
        strings(&["24", "80", "--server-name", "h", "--config", "/c"])
    );
    assert_eq!(bzd_args(24, 80, "h", &None).len(), 4);
    assert_eq!(read_bzd_args(&strings(&["bzd", "24"])), None);
    assert_eq!(
        read_bzd_args(&strings(&["bzd", "x", "300", "--foreground"])),
        Some(BzdArgs { rows: 24, cols: 300, foreground: true })
    );
    assert_eq!(
        read_bzd_args(&strings(&["bzd", "5", "70000", "--server-name"])),
        Some(BzdArgs { rows: 5, cols: 80, foreground: false })
    );
    assert_eq!(bzc_args(&strings(&["bzc", "--config", "/c"])), Some("/c".to_string()));
    assert_eq!(bzc_args(&strings(&["bzc", "--config"])), None);
    assert_eq!(bzc_args(&strings(&["bzc"])), None);
}

#[test]
fn times_of_day() {
    assert_eq!(show_time(0), "00:00");
    assert_eq!(show_time(86_399_999), "23:59");
    assert_eq!(show_time(86_400_000), "00:00");
    assert_eq!(show_time(45_296_000), "12:34");
}

fn chat_with(n: usize) -> ChatState {
    let mut chat = ChatState::new();
    for i in 0..n {
        chat.add_message(ChatMessage::new(
            "sam".to_string(),
            format!("m{}", i),
            "10:00".to_string(),
            false,
        ));
    }
    chat
}

#[test]
fn chats_scroll() {
    let mut chat = chat_with(5);
    assert!(!chat.has_unread);
    chat.scroll_up(2);
    assert!(chat.is_scrolled());
    chat.add_message(ChatMessage::new("a".to_string(), "b".to_string(), "c".to_string(), true));
    assert!(chat.has_unread);
    chat.scroll_up(100);
    assert_eq!(chat.scroll_offset, 5);
    chat.scroll_down(4);
    assert!(chat.has_unread);
    chat.scroll_down(4);
    assert!(!chat.has_unread);
    chat.scroll_up(1);
    chat.scroll_to_bottom();
    assert_eq!(chat.scroll_offset, 0);
    chat.push_input('x');
    assert!(!chat.input_is_empty());
    assert_eq!(chat.take_input(), "x");
    assert!(chat.input_is_empty());
}

#[test]
fn chats_are_laid_out() {
    let chat = chat_with(3);
    let widget = ChatViewWidget::new(&chat, "main", true);
    let (messages, input) = widget.areas(Rect { x: 1, y: 2, width: 40, height: 20 });
    assert_eq!(messages, Rect { x: 1, y: 2, width: 40, height: 17 });
    assert_eq!(input, Rect { x: 1, y: 19, width: 40, height: 3 });
    let (messages, input) = widget.areas(Rect { x: 0, y: 0, width: 40, height: 4 });
    assert_eq!((messages.height, input.height), (3, 1));
    let (messages, input) = widget.areas(Rect { x: 0, y: 0, width: 40, height: 2 });
    assert_eq!((messages.height, input.height), (2, 0));
}

#[test]
fn searches_are_laid_out() {
    let rooms = vec![RoomView::new("!r:h".to_string(), "main".to_string())];
    let agents: Vec<NoAgent> = Vec::new();
    let mut picker = Picker::new();
    picker.query.push('m');
    picker.update_filter(&rooms, &agents);
    assert_eq!(picker.filtered.len(), 1);
    let widget = PickerWidget::from_rooms_and_agents(&picker, &rooms, &agents);
    let frame = Rect { x: 0, y: 0, width: 100, height: 40 };
    let whole = widget.area(frame);
    let (query, list) = widget.areas(frame);
    assert_eq!(query.height, 3);
    assert_eq!((query.x, query.y, query.width), (whole.x, whole.y, whole.width));
    assert_eq!(list.y, query.y + 3);
    assert_eq!(list.height + 3, whole.height);
    assert_eq!(widget.items().len(), 1);
}
