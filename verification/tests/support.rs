use bz::test_support::{
    binary_dir, find_bz_binary, parse_command, parse_escape_sequences, search_path,
    session_data_dir, text_looks_ready, unique_session_dir, DriverCommand, DriverScreen,
};

#[test]
fn test_parse_escape_sequences() {
    assert_eq!(parse_escape_sequences("hello"), b"hello");
    assert_eq!(parse_escape_sequences(r"\n"), vec![0x0a]);
    assert_eq!(parse_escape_sequences(r"\r"), vec![0x0d]);
    assert_eq!(parse_escape_sequences(r"\t"), vec![0x09]);
    assert_eq!(parse_escape_sequences(r"\\"), vec![b'\\']);
    assert_eq!(parse_escape_sequences(r"\x02"), vec![0x02]);
    assert_eq!(parse_escape_sequences(r"\x02n"), vec![0x02, b'n']);
    assert_eq!(
        parse_escape_sequences(r"hello\nworld"),
        b"hello\nworld".to_vec()
    );
}

#[test]
fn odd_escapes() {
    assert_eq!(parse_escape_sequences(""), Vec::<u8>::new());
    assert_eq!(parse_escape_sequences("\\"), vec![b'\\']);
    assert_eq!(parse_escape_sequences(r"\q"), vec![b'\\', b'q']);
    assert_eq!(parse_escape_sequences(r"\xg"), vec![b'g']);
    assert_eq!(parse_escape_sequences(r"\xfg"), vec![0x0f, b'g']);
    assert_eq!(parse_escape_sequences(r"\xFf0"), vec![0xff, b'0']);
    assert_eq!(parse_escape_sequences(r"\x"), Vec::<u8>::new());
    assert_eq!(parse_escape_sequences("\u{e9}"), vec![0xc3, 0xa9]);
    assert_eq!(parse_escape_sequences("\\\u{e9}"), vec![b'\\', 0xc3, 0xa9]);
}

#[test]
fn every_byte_can_be_sent() {
    for b in 0..=255u8 {
        assert_eq!(parse_escape_sequences(&format!("\\x{:02x}", b)), vec![b]);
        assert_eq!(parse_escape_sequences(&format!("\\x{:02X}z", b)), vec![b, b'z']);
    }
}

#[test]
fn the_driver_reads_its_commands() {
    assert!(matches!(parse_command("help"), DriverCommand::Help));
    assert!(matches!(parse_command(" ? "), DriverCommand::Help));
    assert!(matches!(parse_command("spawn"), DriverCommand::Spawn { rows: 24, cols: 80 }));
    assert!(matches!(parse_command("spawn 30"), DriverCommand::Spawn { rows: 30, cols: 80 }));
    assert!(matches!(parse_command("spawn 30 x"), DriverCommand::Spawn { rows: 30, cols: 80 }));
    assert!(matches!(parse_command("spawn  30   120"), DriverCommand::Spawn { rows: 30, cols: 120 }));
    assert!(matches!(parse_command("resize 70000 5"), DriverCommand::Resize { rows: 24, cols: 5 }));
    match parse_command("send  a b ") {
        DriverCommand::Send(text) => assert_eq!(text, " a b"),
        _ => panic!("wrong command"),
    }
    assert!(matches!(parse_command("screen"), DriverCommand::Screen));
    assert!(matches!(parse_command("cursor now"), DriverCommand::Cursor));
    assert!(matches!(parse_command("wait 250"), DriverCommand::Wait(250)));
    assert!(matches!(parse_command("wait"), DriverCommand::Wait(100)));
    assert!(matches!(parse_command("wait  250"), DriverCommand::Wait(100)));
    assert!(matches!(parse_command("status"), DriverCommand::Status));
    assert!(matches!(parse_command("quit"), DriverCommand::Quit));
    assert!(matches!(parse_command("exit"), DriverCommand::Quit));
    assert!(matches!(parse_command("   "), DriverCommand::Nothing));
    match parse_command("jump high") {
        DriverCommand::Unknown(word) => assert_eq!(word, "jump"),
        _ => panic!("wrong command"),
    }
}

#[test]
fn the_driven_screen_shows_what_it_is_fed() {
    let mut screen = DriverScreen::new(24, 80);
    assert_eq!(screen.screen(), "");
    assert!(!screen.is_ready());
    screen.process(b"one\r\ntwo");
    assert_eq!(screen.screen(), "one\ntwo");
    assert_eq!(screen.screen_with_cursor(), "one\ntwo\n--- cursor: row=1, col=3 ---");
    assert!(screen.shows("two"));
    assert!(!screen.shows("three"));
    screen.process(b" ^K search");
    assert!(screen.is_ready());
    screen.resize(30, 100);
    assert_eq!(screen.dimensions(), (30, 100));
    assert_eq!(screen.screen(), "");
}

#[test]
fn a_program_is_ready_when_its_last_line_shows() {
    assert!(text_looks_ready(" [2/2] ^K search"));
    assert!(text_looks_ready("^B leader"));
    assert!(!text_looks_ready("^K"));
}

#[test]
fn sessions_have_places_of_their_own() {
    assert_eq!(unique_session_dir(12, 0), "/tmp/bz-test-12-0");
    assert_eq!(session_data_dir("/tmp/bz-test-12-0"), "/tmp/bz-test-12-0/data");
    assert_eq!(search_path("/b", &Some("/usr/bin".to_string())), "/b:/usr/bin");
    assert_eq!(search_path("/b", &None), "/b:");
    assert_eq!(find_bz_binary("/p", true, true, None), "/p/target/debug/bz");
    assert_eq!(find_bz_binary("/p", false, true, None), "/p/target/release/bz");
    assert_eq!(find_bz_binary("/p", false, false, Some("/x/bz".to_string())), "/x/bz");
    assert_eq!(find_bz_binary("/p", false, false, None), "bz");
    assert_eq!(binary_dir("/p", true, false, None), "/p/target/debug");
    assert_eq!(binary_dir("/p", false, true, None), "/p/target/release");
    assert_eq!(binary_dir("/p", false, false, Some("/x".to_string())), "/x");
    assert_eq!(binary_dir("/p", false, false, None), "/p/target/debug");
}
