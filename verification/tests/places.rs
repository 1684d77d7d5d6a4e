use bz::config::{config_file, ChannelConfig, Config, MatrixConfig, AgentConfig};
use bz::daemon::conduit::{config_content, config_is_current, config_path, database_path, ensure_config};
use bz::daemon::{
    agent_config_content, agent_config_path, agents_dir, parse_pid, session_socket,
};
use bz::env::{
    conduit_addr, conduit_port, conduit_url, data_dir, find_binary, find_socket, is_socket_file,
    join, session_dir,
};
use bz::events::room_directory;
use bz::matrix_client::StoredCredentials;

#[test]
fn test_paths() {
    let base = data_dir(None, Some("/home/user/.local/share".to_string()));
    let config = config_path(&base);
    assert!(std::path::Path::new(&config).ends_with("bz/conduit.toml"));

    let db = database_path(&base);
    assert!(std::path::Path::new(&db).ends_with("bz/matrix"));
}

#[test]
fn directories_follow_the_environment() {
    assert_eq!(data_dir(Some("/d".to_string()), Some("/l".to_string())), "/d");
    assert_eq!(data_dir(None, Some("/l".to_string())), "/l/bz");
    assert_eq!(data_dir(None, None), "/tmp/bz");
    assert_eq!(
        session_dir(Some("/s".to_string()), Some("/st".to_string()), Some("/l".to_string())),
        "/s"
    );
    let state = session_dir(None, Some("/st".to_string()), Some("/l".to_string()));
    assert!(state.starts_with("/st/bz"));
    let local = session_dir(None, None, Some("/l".to_string()));
    assert!(local.starts_with("/l/bz"));
}

#[test]
fn ports_follow_the_environment() {
    assert_eq!(conduit_port(None), 6167);
    assert_eq!(conduit_port(Some("7000".to_string())), 7000);
    assert_eq!(conduit_port(Some("70000".to_string())), 6167);
    assert_eq!(conduit_port(Some("x".to_string())), 6167);
    assert_eq!(conduit_addr(7000), "127.0.0.1:7000");
    assert_eq!(conduit_url(7000), "http://127.0.0.1:7000");
}

#[test]
fn binaries_are_searched_in_order() {
    assert_eq!(find_binary("bzd", true, true), "target/debug/bzd");
    assert_eq!(find_binary("bzd", false, true), "target/release/bzd");
    assert_eq!(find_binary("bzc", false, false), "bzc");
}

#[test]
fn paths_are_joined() {
    assert_eq!(join("/a", "b"), "/a/b");
    assert_eq!(join("/a/", "b"), "/a/b");
    assert_eq!(join("/a", "/b"), "/b");
    assert_eq!(join("", "b"), "b");
}

#[test]
fn the_first_socket_is_found() {
    assert!(is_socket_file("x.sock"));
    assert!(!is_socket_file(".sock"));
    assert!(!is_socket_file("x.pid"));
    let names: Vec<String> = ["a.pid", "b.sock", "c.sock"].iter().map(|s| s.to_string()).collect();
    assert_eq!(find_socket(&names), Some(1));
    assert_eq!(find_socket(&vec!["a.pid".to_string()]), None);
}

#[test]
fn the_server_config_is_written_once() {
    let text = config_content("home.example", "/d/matrix", 6167);
    assert_eq!(
        text,
        "[global]\nserver_name = \"home.example\"\ndatabase_backend = \"rocksdb\"\ndatabase_path = \"/d/matrix\"\nport = 6167\naddress = \"127.0.0.1\"\nallow_registration = true\n"
    );
    assert!(config_is_current(&text, "home.example"));
    assert!(!config_is_current(&text, "other.example"));
    assert_eq!(ensure_config(None, "home.example", "/d/matrix", 6167), Some(text.clone()));
    assert_eq!(ensure_config(Some(text.clone()), "home.example", "/d/matrix", 6167), None);
    assert!(ensure_config(Some(text), "other.example", "/d/matrix", 6167).is_some());
}

#[test]
fn session_files_have_their_names() {
    assert_eq!(session_socket("/s", "id"), "/s/id.sock");
    assert_eq!(agents_dir("/s"), "/s/agents");
    assert_eq!(agent_config_path("/s/agents", "sam"), "/s/agents/sam.toml");
    assert_eq!(agent_config_content("sam", "pty-only", &None), "name = \"sam\"\nmode = \"pty-only\"\n");
    assert_eq!(
        agent_config_content("sam", "matrix", &Some("/w".to_string())),
        "name = \"sam\"\nmode = \"matrix\"\ncwd = \"/w\"\n"
    );
    assert_eq!(StoredCredentials::path("/d"), "/d/matrix/user.json");
    assert_eq!(StoredCredentials::path_for_user("/d", "agent-sam"), "/d/matrix/agent-sam.json");
    assert_eq!(room_directory("!abc:home.example"), "/tmp/bz-room-abc_home.example");
}

#[test]
fn process_numbers_are_read() {
    assert_eq!(parse_pid(" 123\n"), Some(123));
    assert_eq!(parse_pid("-5"), Some(-5));
    assert_eq!(parse_pid("+5"), Some(5));
    assert_eq!(parse_pid("2147483648"), None);
    assert_eq!(parse_pid("-2147483648"), Some(-2147483648));
    assert_eq!(parse_pid(""), None);
    assert_eq!(parse_pid("12a"), None);
}

#[test]
fn there_is_always_a_channel() {
    let shell = Some("/bin/zsh".to_string());
    let config = Config::from_parts(Vec::new(), Vec::new(), MatrixConfig::default(), &shell);
    assert_eq!(config.channel.len(), 1);
    assert_eq!(config.matrix.server_name, "localhost");
    assert_eq!(Config::fallback(&shell).channel.len(), 1);
    let named = ChannelConfig::from_parts("logs".to_string(), None, None, &shell);
    assert_eq!(named.command, "/bin/zsh");
    let agent = AgentConfig::from_parts("sam".to_string(), None, None, None, None);
    assert_eq!(agent.name, "sam");
    assert!(agent.rooms.is_empty());
}

#[test]
fn config_files_are_searched_in_order() {
    let user = Some("/home/u/.config".to_string());
    let local = config_file(true, user.clone(), true);
    let home = config_file(false, user.clone(), true);
    assert!(local.is_some());
    assert!(home.is_some());
    assert_ne!(local, home);
    assert_eq!(config_file(false, user, false), None);
    assert_eq!(config_file(false, None, false), None);
}
