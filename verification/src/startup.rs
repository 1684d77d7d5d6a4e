//! How the programs are called, and what is set up when they start.

use vstd::prelude::*;
use vstd::string::*;

use crate::config::AgentConfig;
use crate::matrix_client::{pair_models, user_id_is, user_id_of};
use crate::number::{decimal, decimal_string, parse_unsigned, unsigned_value};
use crate::text::{chars_of, part, same_text, stands, stands_at, string_of, texts};
use crate::wire::Wire;

verus! {

// ---------------------------------------------------------------------------
// The program for the user
// ---------------------------------------------------------------------------

/// What the user's program is called for.
#[derive(Debug)]
pub enum BzArgs {
    /// To say how it is called.
    Help,
    /// For nothing: the path of the configuration is missing.
    MissingPath,
    /// To stop the session that is running.
    Stop,
    /// To run, with a configuration if one is named, and in the place of another client if
    /// that is asked for.
    Run { config_path: Option<String>, takeover: bool },
}

/// What the user's program is called for, as a value.
pub enum BzArgsModel {
    Help,
    MissingPath,
    Stop,
    Run { config_path: Option<Seq<char>>, takeover: bool },
}

impl View for BzArgs {
    type V = BzArgsModel;

    open spec fn view(&self) -> BzArgsModel {
        match self {
            BzArgs::Help => BzArgsModel::Help,
            BzArgs::MissingPath => BzArgsModel::MissingPath,
            BzArgs::Stop => BzArgsModel::Stop,
            BzArgs::Run { config_path, takeover } => BzArgsModel::Run {
                config_path: config_path.model(),
                takeover: *takeover,
            },
        }
    }
}

/// A text without the same beginning, as often as it stands there.
pub open spec fn without_start(s: Seq<char>, start: Seq<char>) -> Seq<char>
    decreases s.len(),
{
    if start.len() > 0 && stands_at(s, start, 0) {
        without_start(s.skip(start.len() as int), start)
    } else {
        s
    }
}

/// What arguments mean from a place on, with what was asked for before. They are read in their
/// order: help and `stop` go before what follows, and the last configuration counts.
pub open spec fn bz_args_from(
    args: Seq<Seq<char>>,
    i: int,
    path: Option<Seq<char>>,
    takeover: bool,
) -> BzArgsModel
    decreases args.len() - i,
{
    if i >= args.len() {
        BzArgsModel::Run { config_path: path, takeover }
    } else if args[i] == "--help"@ || args[i] == "-h"@ {
        BzArgsModel::Help
    } else if args[i] == "stop"@ {
        BzArgsModel::Stop
    } else if args[i] == "--takeover"@ {
        bz_args_from(args, i + 1, path, true)
    } else if args[i] == "--config"@ {
        if i + 1 < args.len() {
            bz_args_from(args, i + 2, Some(args[i + 1]), takeover)
        } else {
            BzArgsModel::MissingPath
        }
    } else if stands_at(args[i], "--config="@, 0) {
        bz_args_from(args, i + 1, Some(without_start(args[i], "--config="@)), takeover)
    } else {
        bz_args_from(args, i + 1, path, takeover)
    }
}

/// A text without the same beginning, as often as it stands there.
fn strip_start(s: &str, start: &str) -> (r: Option<String>)
    ensures
        match r {
            Some(t) => stands_at(s@, start@, 0) && t@ == without_start(s@, start@),
            None => !stands_at(s@, start@, 0),
        },
{
    let cs = chars_of(s);
    let ss = chars_of(start);
    if !stands(cs.as_slice(), ss.as_slice(), 0) {
        return None;
    }
    let ghost all = cs@;
    let mut from: usize = 0;
    let end: usize = cs.len();
    assert(all.skip(0) =~= all);
    if ss.len() > 0 {
        while stands(cs.as_slice(), ss.as_slice(), from)
            invariant
                from <= cs@.len() == end,
                all == cs@,
                ss@ == start@,
                ss@.len() > 0,
                without_start(all.skip(from as int), ss@) == without_start(all, ss@),
            decreases cs@.len() - from,
        {
            let ghost rest = all.skip(from as int);
            assert(rest.subrange(0, ss@.len() as int) =~= all.subrange(from as int, from + ss@.len()));
            assert(rest.skip(ss@.len() as int) =~= all.skip(from + ss@.len()));
            from = from + ss.len();
        }
        proof {
            let rest = all.skip(from as int);
            if stands_at(rest, ss@, 0) {
                assert(rest.subrange(0, ss@.len() as int) =~= all.subrange(from as int, from + ss@.len()));
            }
        }
    }
    let tail = part(cs.as_slice(), from, end);
    assert(tail@ =~= all.skip(from as int));
    Some(string_of(tail.as_slice()))
}

/// What the user's program is called for. The first argument is its own name.
pub fn bz_args(args: &Vec<String>) -> (r: BzArgs)
    ensures
        r@ == bz_args_from(texts(args@), 1, None, false),
{
    let ghost all = texts(args@);
    let mut path: Option<String> = None;
    let mut takeover = false;
    let mut i: usize = 1;
    while i < args.len()
        invariant
            1 <= i,
            all == texts(args@),
            bz_args_from(all, i as int, path.model(), takeover) == bz_args_from(all, 1, None, false),
        decreases args@.len() - i,
    {
        assert(all[i as int] == args@[i as int]@);
        let arg = args[i].as_str();
        if same_text(arg, "--help") || same_text(arg, "-h") {
            return BzArgs::Help;
        }
        if same_text(arg, "stop") {
            return BzArgs::Stop;
        }
        if same_text(arg, "--takeover") {
            takeover = true;
        } else if same_text(arg, "--config") {
            let len = args.len();
            if i < len - 1 {
                assert(all[i + 1] == args@[i + 1]@);
                path = Some(args[i + 1].clone());
                i = i + 1;
            } else {
                return BzArgs::MissingPath;
            }
        } else if let Some(p) = strip_start(arg, "--config=") {
            path = Some(p);
        }
        i = i + 1;
    }
    BzArgs::Run { config_path: path, takeover }
}

/// How the user's program is called.
pub fn bz_usage() -> (r: String)
    ensures
        r@ == "bz - Multi-agent coordination TUI\n\nUsage: bz [OPTIONS]\n\nOptions:\n  --config <path>  Use specific config file\n  --help           Show this help\n"@,
{
    "bz - Multi-agent coordination TUI\n\nUsage: bz [OPTIONS]\n\nOptions:\n  --config <path>  Use specific config file\n  --help           Show this help\n".to_owned()
}

// ---------------------------------------------------------------------------
// The daemon and the chaperone
// ---------------------------------------------------------------------------

/// The arguments that the user's program starts the daemon with.
pub open spec fn bzd_args_are(
    rows: u16,
    cols: u16,
    server_name: Seq<char>,
    config_path: Option<Seq<char>>,
) -> Seq<Seq<char>> {
    seq![decimal(rows as nat), decimal(cols as nat), "--server-name"@, server_name]
        + match config_path {
        Some(path) => seq!["--config"@, path],
        None => Seq::empty(),
    }
}

/// The arguments that the user's program starts the daemon with.
pub fn bzd_args(rows: u16, cols: u16, server_name: &str, config_path: &Option<String>) -> (r: Vec<String>)
    ensures
        texts(r@) == bzd_args_are(rows, cols, server_name@, config_path.model()),
{
    let mut r: Vec<String> = Vec::new();
    r.push(decimal_string(rows as u64));
    r.push(decimal_string(cols as u64));
    r.push("--server-name".to_owned());
    r.push(server_name.to_owned());
    if let Some(path) = config_path {
        r.push("--config".to_owned());
        r.push(path.clone());
    }
    assert(texts(r@) =~= bzd_args_are(rows, cols, server_name@, config_path.model()));
    r
}

/// What the daemon is called for.
#[derive(Debug, Clone, Copy, PartialEq, Eq, Structural)]
pub struct BzdArgs {
    /// The height of terminals.
    pub rows: u16,
    /// The width of terminals.
    pub cols: u16,
    /// Whether it stays in the foreground.
    pub foreground: bool,
}

/// A number from an argument, or another if it is none.
pub open spec fn number_or(s: Seq<char>, other: nat) -> nat {
    match unsigned_value(s, u16::MAX as nat) {
        Some(n) => n,
        None => other,
    }
}

/// A number from an argument, or another if it is none.
fn read_or(s: &str, other: u16) -> (n: u16)
    ensures
        n == number_or(s@, other as nat),
{
    match parse_unsigned(s, u16::MAX as u64) {
        Some(n) => n as u16,
        None => other,
    }
}

/// What the daemon is called for, unless arguments are missing.
pub fn read_bzd_args(args: &Vec<String>) -> (r: Option<BzdArgs>)
    ensures
        match r {
            Some(a) => args@.len() >= 3 && a.rows == number_or(args@[1]@, 24) && a.cols == number_or(
                args@[2]@,
                80,
            ) && a.foreground == (args@.len() > 3 && args@[3]@ == "--foreground"@),
            None => args@.len() < 3,
        },
{
    if args.len() < 3 {
        return None;
    }
    let rows = read_or(args[1].as_str(), 24);
    let cols = read_or(args[2].as_str(), 80);
    let foreground = args.len() > 3 && same_text(args[3].as_str(), "--foreground");
    Some(BzdArgs { rows, cols, foreground })
}

/// The configuration that a chaperone is called with: what follows the first `--config`.
pub open spec fn config_argument(args: Seq<Seq<char>>) -> Option<Seq<char>>
    decreases args.len(),
{
    if args.len() == 0 {
        None
    } else if args[0] == "--config"@ {
        if args.len() > 1 {
            Some(args[1])
        } else {
            None
        }
    } else {
        config_argument(args.drop_first())
    }
}

/// The configuration that a chaperone is called with.
pub fn bzc_args(args: &Vec<String>) -> (r: Option<String>)
    ensures
        r.model() == config_argument(texts(args@)),
{
    let ghost all = texts(args@);
    let mut i: usize = 0;
    assert(all.skip(0) =~= all);
    while i < args.len()
        invariant
            i <= args@.len(),
            all == texts(args@),
            config_argument(all.skip(i as int)) == config_argument(all),
        decreases args@.len() - i,
    {
        assert(all.skip(i as int)[0] == args@[i as int]@);
        assert(all.skip(i as int).drop_first() =~= all.skip(i + 1));
        if same_text(args[i].as_str(), "--config") {
            let len = args.len();
            if i < len - 1 {
                assert(all.skip(i as int)[1] == args@[i + 1]@);
                return Some(args[i + 1].clone());
            }
            return None;
        }
        i = i + 1;
    }
    None
}

// ---------------------------------------------------------------------------
// Rooms
// ---------------------------------------------------------------------------

/// The room that channels were last mapped to under a name.
pub open spec fn last_room(mappings: Seq<(Seq<char>, Seq<char>)>, name: Seq<char>) -> Option<Seq<char>>
    decreases mappings.len(),
{
    if mappings.len() == 0 {
        None
    } else if mappings.last().0 == name {
        Some(mappings.last().1)
    } else {
        last_room(mappings.drop_last(), name)
    }
}

/// The room of a channel; `default` for a channel without one.
pub fn channel_room(mappings: &Vec<(String, String)>, name: &str) -> (r: String)
    ensures
        r@ == match last_room(pair_models(mappings@), name@) {
            Some(id) => id,
            None => "default"@,
        },
{
    let ghost all = pair_models(mappings@);
    let mut n: usize = mappings.len();
    assert(all.take(n as int) =~= all);
    while n > 0
        invariant
            n <= mappings@.len(),
            all == pair_models(mappings@),
            last_room(all.take(n as int), name@) == last_room(all, name@),
        decreases n,
    {
        assert(all.take(n as int).last() == all[n - 1]);
        assert(all.take(n as int).drop_last() =~= all.take(n - 1));
        if same_text(mappings[n - 1].0.as_str(), name) {
            return mappings[n - 1].1.clone();
        }
        n = n - 1;
    }
    "default".to_owned()
}

/// The room that channels were first mapped to under a name.
pub open spec fn first_room(mappings: Seq<(Seq<char>, Seq<char>)>, name: Seq<char>) -> Option<Seq<char>>
    decreases mappings.len(),
{
    if mappings.len() == 0 {
        None
    } else if mappings[0].0 == name {
        Some(mappings[0].1)
    } else {
        first_room(mappings.drop_first(), name)
    }
}

/// The room that channels were first mapped to under a name.
fn find_mapping(mappings: &Vec<(String, String)>, name: &str) -> (r: Option<String>)
    ensures
        r.model() == first_room(pair_models(mappings@), name@),
{
    let ghost all = pair_models(mappings@);
    let mut i: usize = 0;
    assert(all.skip(0) =~= all);
    while i < mappings.len()
        invariant
            i <= mappings@.len(),
            all == pair_models(mappings@),
            first_room(all.skip(i as int), name@) == first_room(all, name@),
        decreases mappings@.len() - i,
    {
        assert(all.skip(i as int)[0] == all[i as int]);
        assert(all.skip(i as int).drop_first() =~= all.skip(i + 1));
        if same_text(mappings[i].0.as_str(), name) {
            return Some(mappings[i].1.clone());
        }
        i = i + 1;
    }
    None
}

/// The invitations of an agent to the first `n` of its rooms: the room and the agent's name
/// on the server. Rooms that no channel has are passed over.
pub open spec fn agent_invitations(
    mappings: Seq<(Seq<char>, Seq<char>)>,
    user_id: Seq<char>,
    rooms: Seq<Seq<char>>,
    n: nat,
) -> Seq<(Seq<char>, Seq<char>)>
    decreases n,
{
    if n == 0 {
        Seq::empty()
    } else {
        let before = agent_invitations(mappings, user_id, rooms, (n - 1) as nat);
        match first_room(mappings, rooms[n - 1]) {
            Some(id) => before.push((id, user_id)),
            None => before,
        }
    }
}

/// The invitations of the first `n` agents.
pub open spec fn all_invitations(
    mappings: Seq<(Seq<char>, Seq<char>)>,
    agents: Seq<AgentConfig>,
    server_name: Seq<char>,
    n: nat,
) -> Seq<(Seq<char>, Seq<char>)>
    decreases n,
{
    if n == 0 {
        Seq::empty()
    } else {
        let a = agents[n - 1];
        all_invitations(mappings, agents, server_name, (n - 1) as nat) + agent_invitations(
            mappings,
            user_id_is(a.name@, server_name),
            texts(a.rooms@),
            a.rooms@.len(),
        )
    }
}

/// The invitations of agents to the rooms that they are configured for.
pub fn invitations(mappings: &Vec<(String, String)>, agents: &Vec<AgentConfig>, server_name: &str) -> (r: Vec<
    (String, String),
>)
    ensures
        pair_models(r@) == all_invitations(
            pair_models(mappings@),
            agents@,
            server_name@,
            agents@.len(),
        ),
{
    let ghost ms = pair_models(mappings@);
    let mut r: Vec<(String, String)> = Vec::new();
    let mut i: usize = 0;
    assert(pair_models(r@) =~= Seq::<(Seq<char>, Seq<char>)>::empty());
    while i < agents.len()
        invariant
            i <= agents@.len(),
            ms == pair_models(mappings@),
            pair_models(r@) == all_invitations(ms, agents@, server_name@, i as nat),
        decreases agents@.len() - i,
    {
        let a = &agents[i];
        let ghost before = pair_models(r@);
        let ghost uid = user_id_is(a.name@, server_name@);
        let ghost rooms = texts(a.rooms@);
        let mut k: usize = 0;
        assert(before + agent_invitations(ms, uid, rooms, 0) =~= before);
        while k < a.rooms.len()
            invariant
                k <= a.rooms@.len(),
                ms == pair_models(mappings@),
                uid == user_id_is(a.name@, server_name@),
                rooms == texts(a.rooms@),
                pair_models(r@) == before + agent_invitations(ms, uid, rooms, k as nat),
            decreases a.rooms@.len() - k,
        {
            let ghost sofar = pair_models(r@);
            if let Some(id) = find_mapping(mappings, a.rooms[k].as_str()) {
                let ghost room = id@;
                let user_id = user_id_of(a.name.as_str(), server_name);
                r.push((id, user_id));
                assert(pair_models(r@) =~= sofar.push((room, uid)));
            }
            k = k + 1;
            assert(pair_models(r@) =~= before + agent_invitations(ms, uid, rooms, k as nat));
        }
        i = i + 1;
    }
    r
}

// ---------------------------------------------------------------------------
// Laws
// ---------------------------------------------------------------------------

/// The daemon reads back the size that it is started with.
pub proof fn law_the_daemon_gets_its_size(
    rows: u16,
    cols: u16,
    server_name: Seq<char>,
    config_path: Option<Seq<char>>,
)
    ensures
        ({
            let args = bzd_args_are(rows, cols, server_name, config_path);
            &&& number_or(args[0], 24) == rows
            &&& number_or(args[1], 80) == cols
        }),
{
    crate::number::law_decimal_round_trip(rows as nat, u16::MAX as nat);
    crate::number::law_decimal_round_trip(cols as nat, u16::MAX as nat);
}

/// Without arguments the program runs with no configuration named.
pub proof fn law_no_arguments(name: Seq<char>)
    ensures
        bz_args_from(seq![name], 1, None, false) == (BzArgsModel::Run {
            config_path: None,
            takeover: false,
        }),
{
}

/// What arguments mean if a configuration or a takeover was asked for before them: the same, but
/// that what was asked for before counts where they do not ask for another.
pub open spec fn asked_before(r: BzArgsModel, path: Option<Seq<char>>, takeover: bool) -> BzArgsModel {
    match r {
        BzArgsModel::Run { config_path, takeover: later } => BzArgsModel::Run {
            config_path: if config_path is Some {
                config_path
            } else {
                path
            },
            takeover: takeover || later,
        },
        _ => r,
    }
}

proof fn lemma_args_asked_before(args: Seq<Seq<char>>, i: int, path: Option<Seq<char>>, takeover: bool)
    ensures
        bz_args_from(args, i, path, takeover) == asked_before(
            bz_args_from(args, i, None, false),
            path,
            takeover,
        ),
    decreases args.len() - i,
{
    if i < args.len() {
        lemma_args_asked_before(args, i + 1, path, true);
        lemma_args_asked_before(args, i + 1, None, true);
        lemma_args_asked_before(args, i + 1, path, takeover);
        if i + 1 < args.len() {
            lemma_args_asked_before(args, i + 2, Some(args[i + 1]), takeover);
            lemma_args_asked_before(args, i + 2, Some(args[i + 1]), false);
        }
        let given = without_start(args[i], "--config="@);
        lemma_args_asked_before(args, i + 1, Some(given), takeover);
        lemma_args_asked_before(args, i + 1, Some(given), false);
    }
}

proof fn lemma_args_moved(args: Seq<Seq<char>>, more: Seq<Seq<char>>, n: int, i: int, path: Option<Seq<char>>, takeover: bool)
    requires
        0 <= n,
        0 <= i,
        n <= more.len(),
        more.skip(n) == args,
    ensures
        bz_args_from(more, i + n, path, takeover) == bz_args_from(args, i, path, takeover),
    decreases args.len() - i,
{
    if i < args.len() {
        assert(more[i + n] == args[i]);
        if i + 1 < args.len() {
            assert(more[i + 1 + n] == args[i + 1]);
            lemma_args_moved(args, more, n, i + 2, Some(args[i + 1]), takeover);
        }
        lemma_args_moved(args, more, n, i + 1, path, true);
        lemma_args_moved(args, more, n, i + 1, path, takeover);
        lemma_args_moved(args, more, n, i + 1, Some(without_start(args[i], "--config="@)), takeover);
    }
}

/// Arguments are read one by one. One that asks for help or for a stop decides; one that asks for a
/// takeover, or names a configuration, adds that to what those behind it ask for, of which the last
/// configuration counts; and one that asks for nothing is passed over. A configuration may be named
/// by the argument itself or by the one behind it, which then is not read for anything else.
pub proof fn law_arguments_are_read_one_by_one(name: Seq<char>, first: Seq<char>, rest: Seq<Seq<char>>)
    ensures
        ({
            let read = |args: Seq<Seq<char>>| bz_args_from(seq![name] + args, 1, None, false);
            let all = read(seq![first] + rest);
            &&& first == "--help"@ || first == "-h"@ ==> all == BzArgsModel::Help
            &&& first == "stop"@ ==> all == BzArgsModel::Stop
            &&& first == "--takeover"@ ==> all == asked_before(read(rest), None, true)
            &&& first == "--config"@ && rest.len() == 0 ==> all == BzArgsModel::MissingPath
            &&& first == "--config"@ && rest.len() > 0 ==> all == asked_before(
                read(rest.skip(1)),
                Some(rest[0]),
                false,
            )
            &&& stands_at(first, "--config="@, 0) ==> all == asked_before(
                read(rest),
                Some(without_start(first, "--config="@)),
                false,
            )
            &&& first != "--help"@ && first != "-h"@ && first != "stop"@ && first != "--takeover"@ && first
                != "--config"@ && !stands_at(first, "--config="@, 0) ==> all == read(rest)
        }),
        bz_args_from(seq![name], 1, None, false) == (BzArgsModel::Run { config_path: None, takeover: false }),
{
    reveal_strlit("--help");
    reveal_strlit("-h");
    reveal_strlit("stop");
    reveal_strlit("--takeover");
    reveal_strlit("--config");
    reveal_strlit("--config=");
    let args = seq![name] + (seq![first] + rest);
    let less = seq![name] + rest;
    assert(args[1] == first);
    assert(args.skip(1).skip(1) =~= less.skip(1));
    assert(args.skip(2) =~= rest);
    assert(less.skip(1) =~= rest);
    let config = without_start(first, "--config="@);
    lemma_args_moved(rest, args, 2, 0, None, false);
    lemma_args_moved(rest, args, 2, 0, None, true);
    lemma_args_moved(rest, args, 2, 0, Some(config), false);
    lemma_args_moved(rest, less, 1, 0, None, false);
    lemma_args_asked_before(rest, 0, None, true);
    lemma_args_asked_before(rest, 0, Some(config), false);
    if stands_at(first, "--config="@, 0) {
        let s = "--config="@;
        assert(s.len() == 9);
        assert(first.subrange(0, 9) == s);
        assert(first.subrange(0, 9)[2] == first[2] && s[2] == 'c');
        assert(first.subrange(0, 9)[8] == first[8] && s[8] == '=');
        assert(first.subrange(0, 9)[0] == first[0] && s[0] == '-');
        assert("--help"@[2] == 'h' && "--takeover"@[2] == 't' && "stop"@[0] == 's' && "-h"@.len() == 2
            && "--config"@.len() == 8);
    }
    assert("--help"@.len() == 6 && "-h"@.len() == 2 && "stop"@.len() == 4 && "--takeover"@.len() == 10
        && "--config"@.len() == 8);
    if first == "--config"@ && rest.len() > 0 {
        let tail = rest.skip(1);
        let short = seq![name] + tail;
        assert(args[2] == rest[0]);
        assert(args.skip(3) =~= tail);
        assert(short.skip(1) =~= tail);
        lemma_args_moved(tail, args, 3, 0, Some(rest[0]), false);
        lemma_args_moved(tail, short, 1, 0, None, false);
        lemma_args_asked_before(tail, 0, Some(rest[0]), false);
    }
}

/// What is named behind the beginning is all that follows it, up to a repetition of the beginning.
pub proof fn law_what_follows_the_beginning(start: Seq<char>, s: Seq<char>)
    requires
        start.len() > 0,
    ensures
        without_start(start + s, start) == without_start(s, start),
        !(s.len() >= start.len() && s.take(start.len() as int) == start) ==> without_start(s, start) == s,
{
    assert((start + s).subrange(0, start.len() as int) =~= start);
    assert((start + s).skip(start.len() as int) =~= s);
    if s.len() >= start.len() {
        assert(s.subrange(0, start.len() as int) =~= s.take(start.len() as int));
    }
}

/// The daemon is started with the size of the screen, the name of the server, and the configuration
/// if one is named.
pub proof fn law_what_the_daemon_is_started_with(
    rows: u16,
    cols: u16,
    server_name: Seq<char>,
    path: Seq<char>,
)
    ensures
        bzd_args_are(rows, cols, server_name, None) == seq![
            decimal(rows as nat),
            decimal(cols as nat),
            "--server-name"@,
            server_name,
        ],
        bzd_args_are(rows, cols, server_name, Some(path)) == bzd_args_are(rows, cols, server_name, None)
            + seq!["--config"@, path],
{
    assert(bzd_args_are(rows, cols, server_name, None) =~= seq![
        decimal(rows as nat),
        decimal(cols as nat),
        "--server-name"@,
        server_name,
    ]);
}

/// A number is read from an argument where it is one, and else the other one is taken.
pub proof fn law_numbers_in_arguments(n: u16, s: Seq<char>, other: nat)
    ensures
        number_or(decimal(n as nat), other) == n,
        unsigned_value(s, 65535) is None ==> number_or(s, other) == other,
{
    crate::number::law_decimal_round_trip(n as nat, u16::MAX as nat);
}

/// The configuration of the chaperone is the argument behind the first `--config`, if there is one.
pub proof fn law_where_the_configuration_is_named(before: Seq<Seq<char>>, after: Seq<Seq<char>>)
    requires
        !before.contains("--config"@),
    ensures
        config_argument(before) is None,
        config_argument(before.push("--config"@) + after) == if after.len() > 0 {
            Some(after[0])
        } else {
            None
        },
    decreases before.len(),
{
    let all = before.push("--config"@) + after;
    if before.len() == 0 {
        assert(all[0] == "--config"@);
        if after.len() > 0 {
            assert(all[1] == after[0]);
        }
    } else {
        let rest = before.drop_first();
        assert(before[0] != "--config"@);
        assert(all[0] == before[0]);
        assert(all.drop_first() =~= rest.push("--config"@) + after);
        assert(!rest.contains("--config"@)) by {
            if rest.contains("--config"@) {
                let k = choose|k: int| 0 <= k < rest.len() && rest[k] == "--config"@;
                assert(before[k + 1] == "--config"@);
            }
        }
        law_where_the_configuration_is_named(rest, after);
    }
}

/// A channel has the room that it was mapped to last, and an agent is invited to the one that its
/// channel was mapped to first.
pub proof fn law_rooms_of_channels(
    before: Seq<(Seq<char>, Seq<char>)>,
    name: Seq<char>,
    id: Seq<char>,
    after: Seq<(Seq<char>, Seq<char>)>,
)
    ensures
        (forall|k: int| 0 <= k < after.len() ==> (#[trigger] after[k]).0 != name) ==> last_room(
            before.push((name, id)) + after,
            name,
        ) == Some(id),
        (forall|k: int| 0 <= k < after.len() ==> (#[trigger] after[k]).0 != name) ==> last_room(
            after,
            name,
        ) is None,
        (forall|k: int| 0 <= k < before.len() ==> (#[trigger] before[k]).0 != name) ==> first_room(
            before.push((name, id)) + after,
            name,
        ) == Some(id),
        (forall|k: int| 0 <= k < before.len() ==> (#[trigger] before[k]).0 != name) ==> first_room(
            before,
            name,
        ) is None,
{
    if forall|k: int| 0 <= k < after.len() ==> (#[trigger] after[k]).0 != name {
        lemma_last_room(before, name, id, after);
    }
    if forall|k: int| 0 <= k < before.len() ==> (#[trigger] before[k]).0 != name {
        lemma_first_room(before, name, id, after);
    }
}

proof fn lemma_last_room(
    before: Seq<(Seq<char>, Seq<char>)>,
    name: Seq<char>,
    id: Seq<char>,
    after: Seq<(Seq<char>, Seq<char>)>,
)
    requires
        forall|k: int| 0 <= k < after.len() ==> (#[trigger] after[k]).0 != name,
    ensures
        last_room(before.push((name, id)) + after, name) == Some(id),
        last_room(after, name) is None,
    decreases after.len(),
{
    let all = before.push((name, id)) + after;
    if after.len() == 0 {
        assert(all.last() == (name, id));
    } else {
        let rest = after.drop_last();
        assert(forall|k: int| 0 <= k < rest.len() ==> #[trigger] rest[k] == after[k]);
        assert(after[after.len() - 1].0 != name);
        assert(all.last() == after.last());
        assert(all.drop_last() =~= before.push((name, id)) + rest);
        lemma_last_room(before, name, id, rest);
    }
}

proof fn lemma_first_room(
    before: Seq<(Seq<char>, Seq<char>)>,
    name: Seq<char>,
    id: Seq<char>,
    after: Seq<(Seq<char>, Seq<char>)>,
)
    requires
        forall|k: int| 0 <= k < before.len() ==> (#[trigger] before[k]).0 != name,
    ensures
        first_room(before.push((name, id)) + after, name) == Some(id),
        first_room(before, name) is None,
    decreases before.len(),
{
    let all = before.push((name, id)) + after;
    if before.len() == 0 {
        assert(all[0] == (name, id));
    } else {
        let rest = before.drop_first();
        assert(forall|k: int| 0 <= k < rest.len() ==> #[trigger] rest[k] == before[k + 1]);
        assert(before[0].0 != name);
        assert(all[0] == before[0]);
        assert(all.drop_first() =~= rest.push((name, id)) + after);
        lemma_first_room(rest, name, id, after);
    }
}

/// Agents are invited one after the other, each to the rooms of its channels in their order, under
/// its name on the server; channels without a room are left out.
pub proof fn law_who_is_invited(
    mappings: Seq<(Seq<char>, Seq<char>)>,
    agents: Seq<AgentConfig>,
    server_name: Seq<char>,
    user_id: Seq<char>,
    rooms: Seq<Seq<char>>,
    n: nat,
    m: nat,
)
    requires
        n < agents.len(),
        m < rooms.len(),
    ensures
        all_invitations(mappings, agents, server_name, 0).len() == 0,
        all_invitations(mappings, agents, server_name, n + 1) == all_invitations(
            mappings,
            agents,
            server_name,
            n,
        ) + agent_invitations(
            mappings,
            seq!['@'] + agents[n as int].name@ + seq![':'] + server_name,
            texts(agents[n as int].rooms@),
            agents[n as int].rooms@.len(),
        ),
        agent_invitations(mappings, user_id, rooms, 0).len() == 0,
        agent_invitations(mappings, user_id, rooms, m + 1) == match first_room(mappings, rooms[m as int]) {
            Some(id) => agent_invitations(mappings, user_id, rooms, m).push((id, user_id)),
            None => agent_invitations(mappings, user_id, rooms, m),
        },
{
}

} // verus!
