//! The chat server that the daemon runs.

use vstd::prelude::*;
use vstd::string::*;

use crate::env::{join, joined};
use crate::number::{append_decimal, decimal};
use crate::text::{chars_of, contains, has_text};

verus! {

/// The file with the server's configuration.
pub fn config_path(data_dir: &str) -> (r: String)
    ensures
        r@ == joined(data_dir@, "conduit.toml"@),
{
    join(data_dir, "conduit.toml")
}

/// The directory of the server's database.
pub fn database_path(data_dir: &str) -> (r: String)
    ensures
        r@ == joined(data_dir@, "matrix"@),
{
    join(data_dir, "matrix")
}

/// The line that sets the server's name.
pub open spec fn server_name_line(server_name: Seq<char>) -> Seq<char> {
    "server_name = \""@ + server_name + "\""@
}

/// The line that sets the server's name.
fn write_server_name_line(server_name: &str) -> (r: String)
    ensures
        r@ == server_name_line(server_name@),
{
    let mut r = "server_name = \"".to_owned();
    r.append(server_name);
    r.append("\"");
    r
}

/// Whether a configuration that is there can stay: it sets the server's name as it is now.
pub fn config_is_current(content: &str, server_name: &str) -> (r: bool)
    ensures
        r == has_text(content@, server_name_line(server_name@)),
{
    let expected = write_server_name_line(server_name);
    contains(chars_of(content).as_slice(), chars_of(expected.as_str()).as_slice())
}

/// The server's configuration.
pub open spec fn config_text(server_name: Seq<char>, database: Seq<char>, port: nat) -> Seq<char> {
    "[global]\n"@ + server_name_line(server_name) + "\ndatabase_backend = \"rocksdb\"\ndatabase_path = \""@
        + database + "\"\nport = "@ + decimal(port)
        + "\naddress = \"127.0.0.1\"\nallow_registration = true\n"@
}

/// The server's configuration.
pub fn config_content(server_name: &str, database: &str, port: u16) -> (r: String)
    ensures
        r@ == config_text(server_name@, database@, port as nat),
{
    let mut r = "[global]\n".to_owned();
    r.append(write_server_name_line(server_name).as_str());
    r.append("\ndatabase_backend = \"rocksdb\"\ndatabase_path = \"");
    r.append(database);
    r.append("\"\nport = ");
    append_decimal(&mut r, port as u64);
    r.append("\naddress = \"127.0.0.1\"\nallow_registration = true\n");
    r
}

/// What to do with the server's configuration: leave it, or write a new one. What is there
/// is `None` where no file is there or it cannot be read.
pub fn ensure_config(existing: Option<String>, server_name: &str, database: &str, port: u16) -> (r: Option<String>)
    ensures
        r is None <==> existing is Some && has_text(existing->0@, server_name_line(server_name@)),
        r matches Some(text) ==> text@ == config_text(server_name@, database@, port as nat),
{
    if let Some(content) = existing {
        if config_is_current(content.as_str(), server_name) {
            return None;
        }
    }
    Some(config_content(server_name, database, port))
}

/// A configuration that was written stays as long as the server's name does.
pub proof fn law_written_config_stays(server_name: Seq<char>, database: Seq<char>, port: nat)
    ensures
        has_text(config_text(server_name, database, port), server_name_line(server_name)),
{
    let head = "[global]\n"@;
    let line = server_name_line(server_name);
    let text = config_text(server_name, database, port);
    assert(text.subrange(head.len() as int, head.len() as int + line.len()) =~= line);
    assert(crate::text::stands_at(text, line, head.len() as int));
}

/// The server's configuration holds its name, where its data is kept, the port that it answers on,
/// only on this machine, and that accounts can be made.
pub proof fn law_what_the_server_is_run_with(server_name: Seq<char>, database: Seq<char>, port: nat)
    ensures
        server_name_line(server_name) == "server_name = \""@ + server_name + "\""@,
        config_text(server_name, database, port) == "[global]\n"@ + server_name_line(server_name)
            + "\ndatabase_backend = \"rocksdb\"\ndatabase_path = \""@ + database + "\"\nport = "@ + decimal(
            port,
        ) + "\naddress = \"127.0.0.1\"\nallow_registration = true\n"@,
{
}

} // verus!
