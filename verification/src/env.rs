//! Where things are kept and where the chat server listens.
//!
//! Everything can be moved by environment variables, so that separate instances can run
//! side by side. The functions here take what the environment says as arguments.

use vstd::prelude::*;
use vstd::string::*;

use crate::number::{append_decimal, decimal, parse_unsigned, unsigned_value};
use crate::text::{chars_of, same_text};
use crate::wire::Wire;

verus! {

/// The port of the chat server unless another is set.
pub const DEFAULT_CONDUIT_PORT: u16 = 6167;

/// A path below a directory. A path from the root stands for itself.
pub open spec fn joined(base: Seq<char>, part: Seq<char>) -> Seq<char> {
    if part.len() > 0 && part[0] == '/' {
        part
    } else if base.len() == 0 || base.last() == '/' {
        base + part
    } else {
        base.push('/') + part
    }
}

/// A path below a directory.
pub fn join(base: &str, part: &str) -> (r: String)
    ensures
        r@ == joined(base@, part@),
{
    let bs = chars_of(base);
    let ps = chars_of(part);
    if ps.len() > 0 && ps[0] == '/' {
        return part.to_owned();
    }
    let mut r = base.to_owned();
    if bs.len() > 0 && bs[bs.len() - 1] != '/' {
        r.push('/');
    }
    r.append(part);
    r
}

/// The first of two texts that is there, or else a third.
pub open spec fn first_of(a: Option<Seq<char>>, b: Option<Seq<char>>, c: Seq<char>) -> Seq<char> {
    match a {
        Some(s) => s,
        None => match b {
            Some(s) => s,
            None => c,
        },
    }
}

/// The directory for data: the one that is set, or `bz` in the user's directory for local
/// data, or `bz` in `/tmp` where there is no such directory.
pub open spec fn data_dir_is(set: Option<Seq<char>>, local: Option<Seq<char>>) -> Seq<char> {
    match set {
        Some(dir) => dir,
        None => joined(first_of(local, None, "/tmp"@), "bz"@),
    }
}

/// The directory for data.
pub fn data_dir(set: Option<String>, local: Option<String>) -> (r: String)
    ensures
        r@ == data_dir_is(set.model(), local.model()),
{
    match set {
        Some(dir) => dir,
        None => match local {
            Some(base) => join(base.as_str(), "bz"),
            None => join("/tmp", "bz"),
        },
    }
}

/// The directory for sessions: the one that is set, or `bz/sessions` in the user's
/// directory for state, or in that for local data, or in `/tmp`.
pub open spec fn session_dir_is(
    set: Option<Seq<char>>,
    state: Option<Seq<char>>,
    local: Option<Seq<char>>,
) -> Seq<char> {
    match set {
        Some(dir) => dir,
        None => joined(first_of(state, local, "/tmp"@), "bz/sessions"@),
    }
}

/// The directory for sessions.
pub fn session_dir(set: Option<String>, state: Option<String>, local: Option<String>) -> (r: String)
    ensures
        r@ == session_dir_is(set.model(), state.model(), local.model()),
{
    match set {
        Some(dir) => dir,
        None => {
            match state {
                Some(base) => join(base.as_str(), "bz/sessions"),
                None => match local {
                    Some(base) => join(base.as_str(), "bz/sessions"),
                    None => join("/tmp", "bz/sessions"),
                },
            }
        },
    }
}

/// The port of the chat server: the number that is set, if it is a port.
pub open spec fn conduit_port_is(set: Option<Seq<char>>) -> nat {
    match set {
        Some(s) => match unsigned_value(s, 65535) {
            Some(n) => n,
            None => DEFAULT_CONDUIT_PORT as nat,
        },
        None => DEFAULT_CONDUIT_PORT as nat,
    }
}

/// The port of the chat server.
pub fn conduit_port(set: Option<String>) -> (port: u16)
    ensures
        port == conduit_port_is(set.model()),
{
    match set {
        Some(s) => match parse_unsigned(s.as_str(), 65535) {
            Some(n) => n as u16,
            None => DEFAULT_CONDUIT_PORT,
        },
        None => DEFAULT_CONDUIT_PORT,
    }
}

/// The address of the chat server on this machine.
pub fn conduit_addr(port: u16) -> (r: String)
    ensures
        r@ == "127.0.0.1:"@ + decimal(port as nat),
{
    let mut r = "127.0.0.1:".to_owned();
    append_decimal(&mut r, port as u64);
    r
}

/// The URL of the chat server on this machine.
pub fn conduit_url(port: u16) -> (r: String)
    ensures
        r@ == "http://127.0.0.1:"@ + decimal(port as nat),
{
    let mut r = "http://127.0.0.1:".to_owned();
    append_decimal(&mut r, port as u64);
    r
}

/// Where one of our programs is: in the build directory if it is there, with the debug
/// build before the release build, and else wherever the shell finds it.
pub open spec fn binary_is(name: Seq<char>, debug_exists: bool, release_exists: bool) -> Seq<char> {
    if debug_exists {
        "target/debug/"@ + name
    } else if release_exists {
        "target/release/"@ + name
    } else {
        name
    }
}

/// Where one of our programs is.
pub fn find_binary(name: &str, debug_exists: bool, release_exists: bool) -> (r: String)
    ensures
        r@ == binary_is(name@, debug_exists, release_exists),
{
    if debug_exists {
        "target/debug/".to_owned().concat(name)
    } else if release_exists {
        "target/release/".to_owned().concat(name)
    } else {
        name.to_owned()
    }
}

/// Whether a file name ends in `.sock`, with something before the dot.
pub open spec fn is_socket_name(name: Seq<char>) -> bool {
    name.len() > 5 && name.skip(name.len() - 5) == ".sock"@
}

/// Whether a file name ends in `.sock`.
pub fn is_socket_file(name: &str) -> (r: bool)
    ensures
        r == is_socket_name(name@),
{
    let cs = chars_of(name);
    if cs.len() <= 5 {
        return false;
    }
    let tail = crate::text::part(cs.as_slice(), cs.len() - 5, cs.len());
    assert(cs@.subrange(cs@.len() - 5, cs@.len() as int) =~= cs@.skip(cs@.len() - 5));
    same_text(crate::text::string_of(tail.as_slice()).as_str(), ".sock")
}

/// The first file name that ends in `.sock`: the socket of a session.
pub fn find_socket(names: &Vec<String>) -> (r: Option<usize>)
    ensures
        match r {
            Some(i) => {
                &&& i < names@.len()
                &&& is_socket_name(names@[i as int]@)
                &&& forall|k: int| 0 <= k < i ==> !is_socket_name((#[trigger] names@[k])@)
            },
            None => forall|k: int| 0 <= k < names@.len() ==> !is_socket_name((#[trigger] names@[k])@),
        },
{
    let mut i: usize = 0;
    while i < names.len()
        invariant
            i <= names@.len(),
            forall|k: int| 0 <= k < i ==> !is_socket_name((#[trigger] names@[k])@),
        decreases names@.len() - i,
    {
        if is_socket_file(names[i].as_str()) {
            return Some(i);
        }
        i = i + 1;
    }
    None
}

// ---------------------------------------------------------------------------
// Laws
// ---------------------------------------------------------------------------

/// What is set goes before everything else.
pub proof fn law_settings_win(dir: Seq<char>, state: Option<Seq<char>>, local: Option<Seq<char>>)
    ensures
        data_dir_is(Some(dir), local) == dir,
        session_dir_is(Some(dir), state, local) == dir,
{
}

/// A port that is set is used, whatever it is.
pub proof fn law_port_that_is_set(port: u16)
    ensures
        conduit_port_is(Some(decimal(port as nat))) == port,
{
    crate::number::law_decimal_round_trip(port as nat, 65535);
}

/// A path is put behind a directory with one slash between them; one that begins at the root stands
/// for itself.
pub proof fn law_paths_are_joined(base: Seq<char>, part: Seq<char>)
    ensures
        part.len() > 0 && part[0] == '/' ==> joined(base, part) == part,
        !(part.len() > 0 && part[0] == '/') && base.len() > 0 && base.last() != '/' ==> joined(base, part)
            == base + seq!['/'] + part,
        !(part.len() > 0 && part[0] == '/') && (base.len() == 0 || base.last() == '/') ==> joined(
            base,
            part,
        ) == base + part,
{
    assert(base.push('/') + part =~= base + seq!['/'] + part);
}

/// Where things are kept unless it is set: under the user's own directories, those for state before
/// those for data, and under `/tmp` without them.
pub proof fn law_where_things_are_kept(dir: Seq<char>, local: Option<Seq<char>>)
    ensures
        data_dir_is(Some(dir), local) == dir,
        data_dir_is(None, Some(dir)) == joined(dir, "bz"@),
        data_dir_is(None, None) == joined("/tmp"@, "bz"@),
        session_dir_is(None, Some(dir), local) == joined(dir, "bz/sessions"@),
        session_dir_is(None, None, Some(dir)) == joined(dir, "bz/sessions"@),
        session_dir_is(None, None, None) == joined("/tmp"@, "bz/sessions"@),
{
}

/// The server's port is 6167 unless another number is set that is one of a port.
pub proof fn law_which_port(set: Seq<char>)
    ensures
        conduit_port_is(None) == 6167,
        unsigned_value(set, 65535) is None ==> conduit_port_is(Some(set)) == 6167,
        unsigned_value(set, 65535) matches Some(n) ==> conduit_port_is(Some(set)) == n,
{
}

/// A program is taken from where it was built, to be worked on before to be given away, and else from
/// the search path.
pub proof fn law_which_program(name: Seq<char>, release_exists: bool)
    ensures
        binary_is(name, true, release_exists) == "target/debug/"@ + name,
        binary_is(name, false, true) == "target/release/"@ + name,
        binary_is(name, false, false) == name,
{
}

/// A socket is a file with a name and `.sock` behind it.
pub proof fn law_names_of_sockets(name: Seq<char>, file: Seq<char>)
    ensures
        is_socket_name(name + ".sock"@) <==> name.len() > 0,
        is_socket_name(file) ==> exists|stem: Seq<char>| stem.len() > 0 && file == #[trigger] (stem + ".sock"@),
{
    reveal_strlit(".sock");
    let s = name + ".sock"@;
    assert(s.skip(s.len() - 5) =~= ".sock"@);
    if is_socket_name(file) {
        let stem = file.take(file.len() - 5);
        assert(file =~= stem + ".sock"@);
    }
}

} // verus!
