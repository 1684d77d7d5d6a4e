//! Driving the program from outside: what is sent to it, what its screen shows, and the
//! commands of the driver.

use vstd::prelude::*;
use vstd::string::*;
use vstd::utf8::*;

use crate::daemon::pty_manager::append_bytes;
use crate::emulator::{
    cursor_at, fed, lemma_feed_keeps, screen_text, size_ok, unbroken, view_offset, TermStep,
    Terminal,
};
use crate::number::{append_decimal, decimal, parse_unsigned, unsigned_value};
use crate::text::{
    chars_of, contains, find_char, has_text, lemma_place_of, part, place_of, same_text,
    split_words, stands_at, string_of, texts, trim, trimmed, words,
};
use crate::wire::Wire;

verus! {

// ---------------------------------------------------------------------------
// Escapes
// ---------------------------------------------------------------------------

/// The value of a hexadecimal digit, if a character is one.
pub open spec fn hex_value(c: char) -> Option<nat> {
    if '0' <= c <= '9' {
        Some((c as nat - '0' as nat) as nat)
    } else if 'a' <= c <= 'f' {
        Some((c as nat - 'a' as nat + 10) as nat)
    } else if 'A' <= c <= 'F' {
        Some((c as nat - 'A' as nat + 10) as nat)
    } else {
        None
    }
}

/// How many hexadecimal digits a text begins with, up to two.
pub open spec fn hex_digits(s: Seq<char>) -> nat {
    if s.len() == 0 || hex_value(s[0]) is None {
        0
    } else if s.len() == 1 || hex_value(s[1]) is None {
        1
    } else {
        2
    }
}

/// The byte that hexadecimal digits stand for; no digits stand for none.
pub open spec fn hex_byte(s: Seq<char>) -> Seq<u8> {
    if hex_digits(s) == 0 {
        Seq::empty()
    } else if hex_digits(s) == 1 {
        seq![hex_value(s[0])->0 as u8]
    } else {
        seq![(16 * hex_value(s[0])->0 + hex_value(s[1])->0) as u8]
    }
}

/// The bytes that a text stands for in which a backslash begins an escape: `\n`, `\r`, `\t`,
/// `\\`, and `\x` with up to two hexadecimal digits. Other characters stand for themselves,
/// and so does a backslash before them or at the end.
pub open spec fn unescaped(s: Seq<char>) -> Seq<u8>
    decreases s.len(),
{
    if s.len() == 0 {
        Seq::empty()
    } else if s[0] != '\\' {
        encode_utf8(seq![s[0]]) + unescaped(s.skip(1))
    } else if s.len() == 1 {
        seq![92u8]
    } else if s[1] == 'n' {
        seq![10u8] + unescaped(s.skip(2))
    } else if s[1] == 'r' {
        seq![13u8] + unescaped(s.skip(2))
    } else if s[1] == 't' {
        seq![9u8] + unescaped(s.skip(2))
    } else if s[1] == '\\' {
        seq![92u8] + unescaped(s.skip(2))
    } else if s[1] == 'x' {
        hex_byte(s.skip(2)) + unescaped(s.skip(2 + hex_digits(s.skip(2)) as int))
    } else {
        seq![92u8] + encode_utf8(seq![s[1]]) + unescaped(s.skip(2))
    }
}

/// The value of a hexadecimal digit, if a character is one.
fn read_hex(c: char) -> (r: Option<u8>)
    ensures
        match r {
            Some(n) => hex_value(c) == Some(n as nat) && n < 16,
            None => hex_value(c) is None,
        },
{
    if '0' <= c && c <= '9' {
        Some((c as u32 - '0' as u32) as u8)
    } else if 'a' <= c && c <= 'f' {
        Some((c as u32 - 'a' as u32 + 10) as u8)
    } else if 'A' <= c && c <= 'F' {
        Some((c as u32 - 'A' as u32 + 10) as u8)
    } else {
        None
    }
}

/// Appends the bytes of a character.
fn append_char(out: &mut Vec<u8>, c: char)
    ensures
        final(out)@ == old(out)@ + encode_utf8(seq![c]),
{
    let mut s = String::new();
    s.push(c);
    assert(s@ =~= seq![c]);
    append_bytes(out, s.as_str().as_bytes());
}

/// The bytes that a text with escapes stands for.
pub fn parse_escape_sequences(s: &str) -> (r: Vec<u8>)
    ensures
        r@ == unescaped(s@),
{
    let cs = chars_of(s);
    let ghost all = cs@;
    let len: usize = cs.len();
    let mut r: Vec<u8> = Vec::new();
    let mut i: usize = 0;
    assert(all.skip(0) =~= all);
    assert(r@ + unescaped(all) =~= unescaped(all));
    while i < len
        invariant
            i <= len == cs@.len(),
            all == cs@,
            r@ + unescaped(all.skip(i as int)) == unescaped(all),
        decreases len - i,
    {
        let ghost rest = all.skip(i as int);
        let ghost before = r@;
        assert(rest[0] == all[i as int]);
        assert(rest.skip(1) =~= all.skip(i + 1));
        let c = cs[i];
        if c != '\\' {
            append_char(&mut r, c);
            i = i + 1;
        } else if i == len - 1 {
            r.push(92);
            i = i + 1;
            assert(before + seq![92u8] =~= r@);
            assert(all.skip(i as int).len() == 0);
        } else {
            assert(rest[1] == all[i + 1]);
            assert(rest.skip(2) =~= all.skip(i + 2));
            let e = cs[i + 1];
            if e == 'n' {
                r.push(10);
                i = i + 2;
                assert(r@ =~= before + seq![10u8]);
            } else if e == 'r' {
                r.push(13);
                i = i + 2;
                assert(r@ =~= before + seq![13u8]);
            } else if e == 't' {
                r.push(9);
                i = i + 2;
                assert(r@ =~= before + seq![9u8]);
            } else if e == '\\' {
                r.push(92);
                i = i + 2;
                assert(r@ =~= before + seq![92u8]);
            } else if e == 'x' {
                i = i + 2;
                let ghost hex = all.skip(i as int);
                let ghost n = hex_digits(hex);
                let ghost from = i;
                if i < len {
                    assert(hex[0] == all[i as int]);
                    if let Some(high) = read_hex(cs[i]) {
                        i = i + 1;
                        let mut byte: u8 = high;
                        if i < len {
                            assert(hex[1] == all[i as int]);
                            if let Some(low) = read_hex(cs[i]) {
                                i = i + 1;
                                byte = 16 * high + low;
                            }
                        }
                        r.push(byte);
                    }
                }
                assert(i == from + n);
                assert(r@ =~= before + hex_byte(hex));
                assert(rest.skip(2 + n as int) =~= all.skip(i as int));
            } else {
                r.push(92);
                append_char(&mut r, e);
                i = i + 2;
                assert(r@ =~= before + (seq![92u8] + encode_utf8(seq![e])));
            }
        }
        proof {
            let step = r@.skip(before.len() as int);
            assert(r@ =~= before + step);
            assert(unescaped(rest) =~= step + unescaped(all.skip(i as int)));
            assert(before + (step + unescaped(all.skip(i as int))) =~= r@ + unescaped(all.skip(i as int)));
        }
    }
    assert(all.skip(len as int).len() == 0);
    assert(r@ + Seq::<u8>::empty() =~= r@);
    r
}

// ---------------------------------------------------------------------------
// The screen
// ---------------------------------------------------------------------------

/// The screen of the program that is driven.
pub struct DriverScreen {
    pub terminal: Terminal,
    pub rows: u16,
    pub cols: u16,
}

/// What a screen of this size was fed that was just opened.
pub open spec fn fresh_log(rows: u16, cols: u16) -> Seq<TermStep> {
    seq![TermStep::Open { rows, cols, lines: 0 }]
}

impl DriverScreen {
    /// What always holds: the view is not scrolled, and no character was cut in two.
    pub open spec fn wf(self) -> bool {
        view_offset(self.terminal) == 0 && unbroken(fed(self.terminal))
    }

    /// What the screen was fed.
    pub open spec fn log(self) -> Seq<TermStep> {
        fed(self.terminal)
    }

    /// A screen of this size.
    pub fn new(rows: u16, cols: u16) -> (s: DriverScreen)
        requires
            size_ok(rows, cols),
        ensures
            s.log() == fresh_log(rows, cols),
            s.rows == rows,
            s.cols == cols,
            s.wf(),
    {
        DriverScreen { terminal: Terminal::open(rows, cols, 0), rows, cols }
    }

    /// Takes in output.
    pub fn process(&mut self, data: &[u8])
        requires
            old(self).wf(),
        ensures
            final(self).log() == old(self).log().push(TermStep::Feed(data@)),
            final(self).rows == old(self).rows,
            final(self).cols == old(self).cols,
            final(self).wf(),
    {
        self.terminal.process(data);
        proof {
            lemma_feed_keeps(old(self).log(), data@);
        }
    }

    /// What it shows.
    pub fn screen(&self) -> (r: String)
        requires
            self.wf(),
        ensures
            r@ == screen_text(self.log(), 0),
    {
        self.terminal.contents()
    }

    /// What it shows, and where the cursor is.
    pub fn screen_with_cursor(&self) -> (r: String)
        requires
            self.wf(),
        ensures
            r@ == screen_text(self.log(), 0) + "\n--- cursor: row="@ + decimal(
                cursor_at(self.log()).0 as nat,
            ) + ", col="@ + decimal(cursor_at(self.log()).1 as nat) + " ---"@,
    {
        let (row, col) = self.terminal.cursor_position();
        let mut r = self.screen();
        r.append("\n--- cursor: row=");
        append_decimal(&mut r, row as u64);
        r.append(", col=");
        append_decimal(&mut r, col as u64);
        r.append(" ---");
        assert(r@ =~= screen_text(self.log(), 0) + "\n--- cursor: row="@ + decimal(
            cursor_at(self.log()).0 as nat,
        ) + ", col="@ + decimal(cursor_at(self.log()).1 as nat) + " ---"@);
        r
    }

    /// Begins anew with another size.
    pub fn resize(&mut self, rows: u16, cols: u16)
        requires
            size_ok(rows, cols),
        ensures
            final(self).log() == fresh_log(rows, cols),
            final(self).rows == rows,
            final(self).cols == cols,
            final(self).wf(),
    {
        self.terminal = Terminal::open(rows, cols, 0);
        self.rows = rows;
        self.cols = cols;
    }

    /// Its size.
    pub fn dimensions(&self) -> (r: (u16, u16))
        ensures
            r == (self.rows, self.cols),
    {
        (self.rows, self.cols)
    }

    /// Whether it shows some text.
    pub fn shows(&self, needle: &str) -> (r: bool)
        requires
            self.wf(),
        ensures
            r == has_text(screen_text(self.log(), 0), needle@),
    {
        text_holds(self.screen().as_str(), needle)
    }

    /// Whether the program is ready: its last line can be seen.
    pub fn is_ready(&self) -> (r: bool)
        requires
            self.wf(),
        ensures
            r == looks_ready(screen_text(self.log(), 0)),
    {
        let text = self.screen();
        text_looks_ready(text.as_str())
    }
}

/// Whether a text holds another.
pub fn text_holds(s: &str, needle: &str) -> (r: bool)
    ensures
        r == has_text(s@, needle@),
{
    let cs = chars_of(s);
    let ns = chars_of(needle);
    contains(cs.as_slice(), ns.as_slice())
}

/// Whether a screen shows the last line of a program that is ready.
pub open spec fn looks_ready(screen: Seq<char>) -> bool {
    has_text(screen, "^K search"@) || has_text(screen, "^B leader"@)
}

/// Whether a screen shows the last line of a program that is ready.
pub fn text_looks_ready(screen: &str) -> (r: bool)
    ensures
        r == looks_ready(screen@),
{
    text_holds(screen, "^K search") || text_holds(screen, "^B leader")
}

// ---------------------------------------------------------------------------
// Places
// ---------------------------------------------------------------------------

/// A directory for a session of its own.
pub fn unique_session_dir(pid: u32, count: u32) -> (r: String)
    ensures
        r@ == "/tmp/bz-test-"@ + decimal(pid as nat) + seq!['-'] + decimal(count as nat),
{
    let mut r = "/tmp/bz-test-".to_owned();
    append_decimal(&mut r, pid as u64);
    r.push('-');
    append_decimal(&mut r, count as u64);
    assert(r@ =~= "/tmp/bz-test-"@ + decimal(pid as nat) + seq!['-'] + decimal(count as nat));
    r
}

/// The directory for data of such a session.
pub fn session_data_dir(session_dir: &str) -> (r: String)
    ensures
        r@ == session_dir@ + "/data"@,
{
    let mut r = session_dir.to_owned();
    r.append("/data");
    r
}

/// Where programs are searched first: beside those that are being worked on.
pub fn search_path(binary_dir: &str, path: &Option<String>) -> (r: String)
    ensures
        r@ == binary_dir@ + seq![':'] + match path.model() {
            Some(p) => p,
            None => Seq::empty(),
        },
{
    let mut r = binary_dir.to_owned();
    r.push(':');
    if let Some(p) = path {
        r.append(p.as_str());
    }
    assert(r@ =~= binary_dir@ + seq![':'] + match path.model() {
        Some(p) => p,
        None => Seq::empty(),
    });
    r
}

/// The program: the one that was built to be worked on, the one that was built to be given
/// away, the one beside the running program, or the one on the search path.
pub fn find_bz_binary(
    project_dir: &str,
    debug_exists: bool,
    release_exists: bool,
    sibling: Option<String>,
) -> (r: String)
    ensures
        r@ == if debug_exists {
            project_dir@ + "/target/debug/bz"@
        } else if release_exists {
            project_dir@ + "/target/release/bz"@
        } else {
            match sibling.model() {
                Some(path) => path,
                None => "bz"@,
            }
        },
{
    let mut r = project_dir.to_owned();
    if debug_exists {
        r.append("/target/debug/bz");
        r
    } else if release_exists {
        r.append("/target/release/bz");
        r
    } else {
        match sibling {
            Some(path) => path,
            None => "bz".to_owned(),
        }
    }
}

/// The directory of the programs.
pub fn binary_dir(
    project_dir: &str,
    debug_exists: bool,
    release_exists: bool,
    exe_dir: Option<String>,
) -> (r: String)
    ensures
        r@ == if debug_exists {
            project_dir@ + "/target/debug"@
        } else if release_exists {
            project_dir@ + "/target/release"@
        } else {
            match exe_dir.model() {
                Some(dir) => dir,
                None => project_dir@ + "/target/debug"@,
            }
        },
{
    let mut r = project_dir.to_owned();
    if debug_exists {
        r.append("/target/debug");
        r
    } else if release_exists {
        r.append("/target/release");
        r
    } else {
        match exe_dir {
            Some(dir) => dir,
            None => {
                r.append("/target/debug");
                r
            },
        }
    }
}

// ---------------------------------------------------------------------------
// Commands of the driver
// ---------------------------------------------------------------------------

/// A command of the driver.
#[derive(Debug)]
pub enum DriverCommand {
    Help,
    Spawn { rows: u16, cols: u16 },
    Send(String),
    Screen,
    Cursor,
    Resize { rows: u16, cols: u16 },
    /// In milliseconds.
    Wait(u64),
    Status,
    Quit,
    Nothing,
    Unknown(String),
}

/// A command of the driver, as a value.
pub enum DriverCommandModel {
    Help,
    Spawn { rows: nat, cols: nat },
    Send(Seq<char>),
    Screen,
    Cursor,
    Resize { rows: nat, cols: nat },
    Wait(nat),
    Status,
    Quit,
    Nothing,
    Unknown(Seq<char>),
}

impl View for DriverCommand {
    type V = DriverCommandModel;

    open spec fn view(&self) -> DriverCommandModel {
        match self {
            DriverCommand::Help => DriverCommandModel::Help,
            DriverCommand::Spawn { rows, cols } => DriverCommandModel::Spawn {
                rows: *rows as nat,
                cols: *cols as nat,
            },
            DriverCommand::Send(text) => DriverCommandModel::Send(text@),
            DriverCommand::Screen => DriverCommandModel::Screen,
            DriverCommand::Cursor => DriverCommandModel::Cursor,
            DriverCommand::Resize { rows, cols } => DriverCommandModel::Resize {
                rows: *rows as nat,
                cols: *cols as nat,
            },
            DriverCommand::Wait(ms) => DriverCommandModel::Wait(*ms as nat),
            DriverCommand::Status => DriverCommandModel::Status,
            DriverCommand::Quit => DriverCommandModel::Quit,
            DriverCommand::Nothing => DriverCommandModel::Nothing,
            DriverCommand::Unknown(word) => DriverCommandModel::Unknown(word@),
        }
    }
}

/// The number that the word in a place of a text stands for, or another if it is none.
pub open spec fn dimension(s: Seq<char>, i: int, other: nat) -> nat {
    if i < words(s).len() {
        match unsigned_value(words(s)[i], u16::MAX as nat) {
            Some(n) => n,
            None => other,
        }
    } else {
        other
    }
}

/// What a command and its argument mean.
pub open spec fn command_named(word: Seq<char>, arg: Seq<char>) -> DriverCommandModel {
    if word == "help"@ || word == "?"@ {
        DriverCommandModel::Help
    } else if word == "spawn"@ {
        DriverCommandModel::Spawn { rows: dimension(arg, 0, 24), cols: dimension(arg, 1, 80) }
    } else if word == "send"@ {
        DriverCommandModel::Send(arg)
    } else if word == "screen"@ {
        DriverCommandModel::Screen
    } else if word == "cursor"@ {
        DriverCommandModel::Cursor
    } else if word == "resize"@ {
        DriverCommandModel::Resize { rows: dimension(arg, 0, 24), cols: dimension(arg, 1, 80) }
    } else if word == "wait"@ {
        DriverCommandModel::Wait(
            match unsigned_value(arg, u64::MAX as nat) {
                Some(ms) => ms,
                None => 100,
            },
        )
    } else if word == "status"@ {
        DriverCommandModel::Status
    } else if word == "quit"@ || word == "exit"@ {
        DriverCommandModel::Quit
    } else if word.len() == 0 {
        DriverCommandModel::Nothing
    } else {
        DriverCommandModel::Unknown(word)
    }
}

/// What a line means: its first word is the command, and what stands behind the space after
/// it is the argument.
pub open spec fn driver_command(line: Seq<char>) -> DriverCommandModel {
    let s = trimmed(line);
    let space = place_of(s, ' ');
    command_named(
        s.take(space),
        if space < s.len() {
            s.skip(space + 1)
        } else {
            Seq::empty()
        },
    )
}

/// The number that the word in a place stands for, or another if it is none.
fn read_dimension(parts: &Vec<String>, i: usize, other: u16) -> (n: u16)
    ensures
        n == if i < parts@.len() {
            match unsigned_value(parts@[i as int]@, u16::MAX as nat) {
                Some(n) => n,
                None => other as nat,
            }
        } else {
            other as nat
        },
{
    if i < parts.len() {
        match parse_unsigned(parts[i].as_str(), u16::MAX as u64) {
            Some(n) => n as u16,
            None => other,
        }
    } else {
        other
    }
}

/// The size that an argument stands for.
fn read_size(arg: &[char]) -> (r: (u16, u16))
    ensures
        r.0 == dimension(arg@, 0, 24),
        r.1 == dimension(arg@, 1, 80),
{
    let parts = split_words(arg);
    assert(texts(parts@).len() == parts@.len());
    assert(forall|k: int| 0 <= k < parts@.len() ==> texts(parts@)[k] == parts@[k]@);
    (read_dimension(&parts, 0, 24), read_dimension(&parts, 1, 80))
}

/// What a line means.
pub fn parse_command(line: &str) -> (r: DriverCommand)
    ensures
        r@ == driver_command(line@),
{
    let cs = chars_of(line);
    let s = trim(cs.as_slice());
    let len: usize = s.len();
    proof {
        lemma_place_of(s@, ' ');
    }
    let mut to: usize = len;
    let mut from: usize = len;
    if let Some(space) = find_char(s.as_slice(), ' ') {
        to = space;
        from = space + 1;
    } else {
        assert(place_of(s@, ' ') == len) by {
            if place_of(s@, ' ') < len {
                assert(s@[place_of(s@, ' ')] == ' ');
            }
        }
    }
    let word_chars = part(s.as_slice(), 0, to);
    assert(word_chars@ =~= s@.take(to as int));
    let arg = part(s.as_slice(), from, len);
    assert(to < len ==> arg@ =~= s@.skip(to + 1));
    assert(to == len ==> arg@ =~= Seq::<char>::empty());
    let word = string_of(word_chars.as_slice());
    let w = word.as_str();
    if same_text(w, "help") || same_text(w, "?") {
        DriverCommand::Help
    } else if same_text(w, "spawn") {
        let (rows, cols) = read_size(arg.as_slice());
        DriverCommand::Spawn { rows, cols }
    } else if same_text(w, "send") {
        DriverCommand::Send(string_of(arg.as_slice()))
    } else if same_text(w, "screen") {
        DriverCommand::Screen
    } else if same_text(w, "cursor") {
        DriverCommand::Cursor
    } else if same_text(w, "resize") {
        let (rows, cols) = read_size(arg.as_slice());
        DriverCommand::Resize { rows, cols }
    } else if same_text(w, "wait") {
        let text = string_of(arg.as_slice());
        match parse_unsigned(text.as_str(), u64::MAX) {
            Some(ms) => DriverCommand::Wait(ms),
            None => DriverCommand::Wait(100),
        }
    } else if same_text(w, "status") {
        DriverCommand::Status
    } else if same_text(w, "quit") || same_text(w, "exit") {
        DriverCommand::Quit
    } else if word_chars.len() == 0 {
        DriverCommand::Nothing
    } else {
        DriverCommand::Unknown(word)
    }
}

// ---------------------------------------------------------------------------
// Laws
// ---------------------------------------------------------------------------

/// Text without a backslash stands for itself.
pub proof fn law_plain_text_stands_for_itself(s: Seq<char>)
    requires
        forall|i: int| 0 <= i < s.len() ==> s[i] != '\\',
    ensures
        unescaped(s) == encode_utf8(s),
    decreases s.len(),
{
    if s.len() > 0 {
        let rest = s.skip(1);
        assert forall|i: int| 0 <= i < rest.len() implies rest[i] != '\\' by {
            assert(rest[i] == s[i + 1]);
        }
        law_plain_text_stands_for_itself(rest);
        assert(rest =~= s.drop_first());
        assert(seq![s[0]].drop_first() =~= Seq::<char>::empty());
        reveal_with_fuel(encode_utf8, 2);
        assert(encode_utf8(seq![s[0]]) =~= encode_scalar(s[0] as u32));
    }
}

/// Any byte can be sent: its two hexadecimal digits after `\x` stand for it.
pub proof fn law_any_byte_can_be_sent(high: char, low: char, rest: Seq<char>)
    requires
        hex_value(high) is Some,
        hex_value(low) is Some,
    ensures
        unescaped(seq!['\\', 'x', high, low] + rest) == seq![
            (16 * hex_value(high)->0 + hex_value(low)->0) as u8,
        ] + unescaped(rest),
{
    let s = seq!['\\', 'x', high, low] + rest;
    assert(s.skip(2) =~= seq![high, low] + rest);
    assert(s.skip(4) =~= rest);
}

/// What escapes stand for, whatever follows them: a line feed, a return, a tab, a backslash, or a
/// byte by its hexadecimal digits; any other character keeps its backslash, and so does one at the
/// end. A character that is no backslash stands for itself.
pub proof fn law_what_escapes_stand_for(c: char, rest: Seq<char>)
    ensures
        unescaped(Seq::empty()).len() == 0,
        unescaped(seq!['\\']) == seq![0x5cu8],
        unescaped(seq!['\\', 'n'] + rest) == seq![0x0au8] + unescaped(rest),
        unescaped(seq!['\\', 'r'] + rest) == seq![0x0du8] + unescaped(rest),
        unescaped(seq!['\\', 't'] + rest) == seq![0x09u8] + unescaped(rest),
        unescaped(seq!['\\', '\\'] + rest) == seq![0x5cu8] + unescaped(rest),
        c != '\\' ==> unescaped(seq![c] + rest) == encode_utf8(seq![c]) + unescaped(rest),
        c != 'n' && c != 'r' && c != 't' && c != '\\' && c != 'x' ==> unescaped(seq!['\\', c] + rest)
            == seq![0x5cu8] + encode_utf8(seq![c]) + unescaped(rest),
{
    assert((seq![c] + rest).skip(1) =~= rest);
    assert((seq!['\\', c] + rest).skip(2) =~= rest);
    assert((seq!['\\', 'n'] + rest).skip(2) =~= rest);
    assert((seq!['\\', 'r'] + rest).skip(2) =~= rest);
    assert((seq!['\\', 't'] + rest).skip(2) =~= rest);
    assert((seq!['\\', '\\'] + rest).skip(2) =~= rest);
}

/// A byte may be given by one digit where no second follows, and no digit stands for no byte.
pub proof fn law_short_bytes(digit: char, rest: Seq<char>)
    requires
        rest.len() == 0 || hex_value(rest[0]) is None,
    ensures
        unescaped(seq!['\\', 'x'] + rest) == unescaped(rest),
        hex_value(digit) is Some ==> unescaped(seq!['\\', 'x', digit] + rest) == seq![
            hex_value(digit)->0 as u8,
        ] + unescaped(rest),
        '0' <= digit <= '9' ==> hex_value(digit) == Some((digit as nat - 48) as nat),
        'a' <= digit <= 'f' ==> hex_value(digit) == Some((digit as nat - 87) as nat),
        'A' <= digit <= 'F' ==> hex_value(digit) == Some((digit as nat - 55) as nat),
        !('0' <= digit <= '9') && !('a' <= digit <= 'f') && !('A' <= digit <= 'F') ==> hex_value(
            digit,
        ) is None,
{
    let none = seq!['\\', 'x'] + rest;
    assert(none.skip(2) =~= rest);
    assert(Seq::<u8>::empty() + unescaped(rest) =~= unescaped(rest));
    let one = seq!['\\', 'x', digit] + rest;
    assert(one.skip(2) =~= seq![digit] + rest);
    assert(one.skip(3) =~= rest);
}

/// What the driver's commands mean: a word, and behind a space what it is about.
pub proof fn law_what_driver_commands_mean(arg: Seq<char>, word: Seq<char>)
    ensures
        command_named("send"@, arg) == DriverCommandModel::Send(arg),
        command_named("screen"@, arg) == DriverCommandModel::Screen,
        command_named("cursor"@, arg) == DriverCommandModel::Cursor,
        command_named("status"@, arg) == DriverCommandModel::Status,
        command_named("help"@, arg) == DriverCommandModel::Help,
        command_named("?"@, arg) == DriverCommandModel::Help,
        command_named("quit"@, arg) == DriverCommandModel::Quit,
        command_named("exit"@, arg) == DriverCommandModel::Quit,
        command_named(Seq::empty(), arg) == DriverCommandModel::Nothing,
        command_named("spawn"@, arg) == (DriverCommandModel::Spawn {
            rows: dimension(arg, 0, 24),
            cols: dimension(arg, 1, 80),
        }),
        command_named("resize"@, arg) == (DriverCommandModel::Resize {
            rows: dimension(arg, 0, 24),
            cols: dimension(arg, 1, 80),
        }),
        unsigned_value(arg, u64::MAX as nat) is None ==> command_named("wait"@, arg)
            == DriverCommandModel::Wait(100),
        unsigned_value(arg, u64::MAX as nat) matches Some(ms) ==> command_named("wait"@, arg)
            == DriverCommandModel::Wait(ms),
        ({
            let known = seq![
                "help"@,
                "?"@,
                "spawn"@,
                "send"@,
                "screen"@,
                "cursor"@,
                "resize"@,
                "wait"@,
                "status"@,
                "quit"@,
                "exit"@,
            ];
            word.len() > 0 && !known.contains(word) ==> command_named(word, arg)
                == DriverCommandModel::Unknown(word)
        }),
{
    reveal_strlit("help");
    reveal_strlit("?");
    reveal_strlit("spawn");
    reveal_strlit("send");
    reveal_strlit("screen");
    reveal_strlit("cursor");
    reveal_strlit("resize");
    reveal_strlit("wait");
    reveal_strlit("status");
    reveal_strlit("quit");
    reveal_strlit("exit");
    let known = seq![
        "help"@,
        "?"@,
        "spawn"@,
        "send"@,
        "screen"@,
        "cursor"@,
        "resize"@,
        "wait"@,
        "status"@,
        "quit"@,
        "exit"@,
    ];
    assert(known[0] == "help"@ && known[1] == "?"@ && known[2] == "spawn"@ && known[3] == "send"@
        && known[4] == "screen"@ && known[5] == "cursor"@ && known[6] == "resize"@ && known[7] == "wait"@
        && known[8] == "status"@ && known[9] == "quit"@ && known[10] == "exit"@);
    assert("help"@.len() == 4 && "?"@.len() == 1 && "spawn"@.len() == 5 && "send"@.len() == 4
        && "screen"@.len() == 6 && "cursor"@.len() == 6 && "resize"@.len() == 6 && "wait"@.len() == 4
        && "status"@.len() == 6 && "quit"@.len() == 4 && "exit"@.len() == 4);
    assert("help"@[0] == 'h' && "send"@[0] == 's' && "wait"@[0] == 'w' && "quit"@[0] == 'q' && "exit"@[0]
        == 'e');
    assert("screen"@[1] == 'c' && "cursor"@[0] == 'c' && "resize"@[0] == 'r' && "status"@[1] == 't'
        && "screen"@[0] == 's' && "status"@[0] == 's');
}

/// A line is a word and what stands behind the first space after it, as it is; white space around the
/// line does not count.
pub proof fn law_how_lines_are_read(line: Seq<char>, word: Seq<char>, arg: Seq<char>)
    requires
        !word.contains(' '),
    ensures
        trimmed(line) == word ==> driver_command(line) == command_named(word, Seq::empty()),
        trimmed(line) == word.push(' ') + arg ==> driver_command(line) == command_named(word, arg),
{
    let s = trimmed(line);
    lemma_place_of(s, ' ');
    let n = place_of(s, ' ');
    if s == word {
        if n < s.len() {
            assert(word[n] == ' ');
        }
        assert(s.take(n) =~= word);
    } else if s == word.push(' ') + arg {
        assert(s[word.len() as int] == ' ');
        if n < word.len() {
            assert(word[n] == ' ');
        }
        assert(s.take(n) =~= word);
        assert(s.skip(n + 1) =~= arg);
    }
}

/// The program is ready once its last line shows how to search or how to give commands.
pub proof fn law_when_the_program_is_ready(before: Seq<char>, after: Seq<char>, screen: Seq<char>)
    ensures
        looks_ready(before + "^K search"@ + after),
        looks_ready(before + "^B leader"@ + after),
        looks_ready(screen) <==> exists|i: int|
            stands_at(screen, "^K search"@, i) || stands_at(screen, "^B leader"@, i),
{
    let n = before.len() as int;
    let a = before + "^K search"@ + after;
    assert(a.subrange(n, n + "^K search"@.len()) =~= "^K search"@);
    assert(stands_at(a, "^K search"@, n));
    let b = before + "^B leader"@ + after;
    assert(b.subrange(n, n + "^B leader"@.len()) =~= "^B leader"@);
    assert(stands_at(b, "^B leader"@, n));
}

/// A size is given by two numbers; one that is missing, or that is no number, has its default.
pub proof fn law_how_sizes_are_given(s: Seq<char>, i: int, other: nat)
    requires
        0 <= i,
    ensures
        i >= words(s).len() ==> dimension(s, i, other) == other,
        i < words(s).len() && unsigned_value(words(s)[i], 65535) is None ==> dimension(s, i, other) == other,
        i < words(s).len() ==> (unsigned_value(words(s)[i], 65535) matches Some(n) ==> dimension(s, i, other)
            == n),
{
}

/// A screen that was just opened has its size and was fed nothing; it keeps no lines above it.
pub proof fn law_fresh_screens(rows: u16, cols: u16)
    ensures
        fresh_log(rows, cols) == seq![TermStep::Open { rows, cols, lines: 0 }],
{
}

} // verus!
