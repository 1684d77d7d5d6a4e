//! What is said on the chat server, and what the program keeps there.

use vstd::prelude::*;
use vstd::string::*;

use crate::clock::text_model;
use crate::env::{join, joined};
use crate::text::{chars_of, lemma_place_of, part, place_of, same_text, string_of};

verus! {

/// The kind of state in which a room's terminals are listed.
pub fn attached_ptys_event_type() -> (r: String)
    ensures
        r@ == "bz.attached_ptys"@,
{
    "bz.attached_ptys".to_owned()
}

// ---------------------------------------------------------------------------
// Messages
// ---------------------------------------------------------------------------

/// A message that has come.
#[derive(Clone, Debug)]
pub struct MatrixMessage {
    /// The room.
    pub room_id: String,
    /// Who sent it.
    pub sender: String,
    /// The name that the sender is shown under, if there is one.
    pub sender_display_name: Option<String>,
    /// What it says.
    pub content: String,
    /// When it was sent, in milliseconds since the beginning of 1970.
    pub timestamp: u64,
}

/// A message, as a value.
pub struct MatrixMessageModel {
    pub room_id: Seq<char>,
    pub sender: Seq<char>,
    pub display_name: Option<Seq<char>>,
    pub content: Seq<char>,
    pub timestamp: u64,
}

impl View for MatrixMessage {
    type V = MatrixMessageModel;

    open spec fn view(&self) -> MatrixMessageModel {
        MatrixMessageModel {
            room_id: self.room_id@,
            sender: self.sender@,
            display_name: text_model(self.sender_display_name),
            content: self.content@,
            timestamp: self.timestamp,
        }
    }
}

/// The kinds of message there are.
#[derive(Clone, Copy, Debug, PartialEq, Eq, Structural)]
pub enum MessageKind {
    Text,
    Notice,
    /// Something that the sender does.
    Emote,
    /// Anything that is no text.
    Other,
}

/// What a message says, if it is text: what a sender does has a star before it.
pub open spec fn message_text(kind: MessageKind, body: Seq<char>) -> Option<Seq<char>> {
    match kind {
        MessageKind::Text => Some(body),
        MessageKind::Notice => Some(body),
        MessageKind::Emote => Some("* "@ + body),
        MessageKind::Other => None,
    }
}

/// A message that may be there, as a value.
pub open spec fn message_model(m: Option<MatrixMessage>) -> Option<MatrixMessageModel> {
    match m {
        Some(message) => Some(message@),
        None => None,
    }
}

/// The message to pass on: none for what the user said, nor for what is no text.
pub fn receive(
    own_user_id: &str,
    room_id: String,
    sender: String,
    sender_display_name: Option<String>,
    kind: MessageKind,
    body: String,
    timestamp: u64,
) -> (r: Option<MatrixMessage>)
    ensures
        message_model(r) == if sender@ == own_user_id@ || message_text(kind, body@) is None {
            None
        } else {
            Some(
                MatrixMessageModel {
                    room_id: room_id@,
                    sender: sender@,
                    display_name: text_model(sender_display_name),
                    content: message_text(kind, body@)->0,
                    timestamp,
                },
            )
        },
{
    if same_text(sender.as_str(), own_user_id) {
        return None;
    }
    let content = match kind {
        MessageKind::Text => body,
        MessageKind::Notice => body,
        MessageKind::Emote => {
            let mut text = "* ".to_owned();
            text.append(body.as_str());
            text
        },
        MessageKind::Other => {
            return None;
        },
    };
    Some(MatrixMessage { room_id, sender, sender_display_name, content, timestamp })
}

/// A text without the characters of one kind that it begins with.
pub open spec fn without_leading(s: Seq<char>, c: char) -> Seq<char>
    decreases s.len(),
{
    if s.len() > 0 && s[0] == c {
        without_leading(s.drop_first(), c)
    } else {
        s
    }
}

/// The name of a user without its sign and without the server.
pub open spec fn local_name(user_id: Seq<char>) -> Seq<char> {
    let name = without_leading(user_id, '@');
    name.take(place_of(name, ':'))
}

/// The name of a user without its sign and without the server.
pub fn local_part(user_id: &str) -> (r: String)
    ensures
        r@ == local_name(user_id@),
{
    let cs = chars_of(user_id);
    let ghost all = cs@;
    let mut from: usize = 0;
    assert(all.skip(0) =~= all);
    while from < cs.len() && cs[from] == '@'
        invariant
            from <= cs@.len(),
            all == cs@,
            without_leading(all.skip(from as int), '@') == without_leading(all, '@'),
        decreases cs@.len() - from,
    {
        assert(all.skip(from as int).drop_first() =~= all.skip(from + 1));
        from = from + 1;
    }
    let name = part(cs.as_slice(), from, cs.len());
    assert(name@ =~= without_leading(all, '@'));
    let to = match crate::text::find_char(name.as_slice(), ':') {
        Some(i) => i,
        None => name.len(),
    };
    proof {
        crate::text::lemma_place_of(name@, ':');
    }
    let local = part(name.as_slice(), 0, to);
    assert(local@ =~= local_name(user_id@));
    string_of(local.as_slice())
}

impl MatrixMessageModel {
    /// The name that the sender is shown under.
    pub open spec fn sender_name(self) -> Seq<char> {
        match self.display_name {
            Some(name) => name,
            None => local_name(self.sender),
        }
    }
}

impl MatrixMessage {
    /// The name that the sender is shown under.
    pub fn sender_name(&self) -> (r: String)
        ensures
            r@ == self@.sender_name(),
    {
        match &self.sender_display_name {
            Some(name) => name.clone(),
            None => local_part(self.sender.as_str()),
        }
    }
}

/// The name of a user on a server.
pub open spec fn user_id_is(name: Seq<char>, server_name: Seq<char>) -> Seq<char> {
    seq!['@'] + name + seq![':'] + server_name
}

/// The name of a user on a server.
pub fn user_id_of(name: &str, server_name: &str) -> (r: String)
    ensures
        r@ == user_id_is(name@, server_name@),
{
    let mut r = String::new();
    r.push('@');
    r.append(name);
    r.push(':');
    r.append(server_name);
    assert(r@ =~= user_id_is(name@, server_name@));
    r
}

// ---------------------------------------------------------------------------
// Terminals of a room
// ---------------------------------------------------------------------------

/// A terminal that is open in a room.
#[derive(Clone, Debug)]
pub struct AttachedPty {
    /// Its own name.
    pub pty_id: String,
    /// Whose it is.
    pub user_id: String,
    /// The socket to reach it by.
    pub socket: String,
    /// The command that runs in it.
    pub command: String,
}

/// A terminal that is open in a room, as a value.
pub struct AttachedPtyModel {
    pub pty_id: Seq<char>,
    pub user_id: Seq<char>,
    pub socket: Seq<char>,
    pub command: Seq<char>,
}

impl View for AttachedPty {
    type V = AttachedPtyModel;

    open spec fn view(&self) -> AttachedPtyModel {
        AttachedPtyModel {
            pty_id: self.pty_id@,
            user_id: self.user_id@,
            socket: self.socket@,
            command: self.command@,
        }
    }
}

/// Terminals, as values.
pub open spec fn attached_models(v: Seq<AttachedPty>) -> Seq<AttachedPtyModel> {
    Seq::new(v.len(), |i: int| v[i]@)
}

/// The terminals that are open in a room.
#[derive(Clone, Debug)]
pub struct AttachedPtysContent {
    pub ptys: Vec<AttachedPty>,
}

impl Default for AttachedPtysContent {
    fn default() -> (c: Self)
        ensures
            c.ptys@ == Seq::<AttachedPty>::empty(),
    {
        AttachedPtysContent { ptys: Vec::new() }
    }
}

/// The terminals but the one with this name.
pub open spec fn without_pty(ptys: Seq<AttachedPtyModel>, pty_id: Seq<char>) -> Seq<AttachedPtyModel>
    decreases ptys.len(),
{
    if ptys.len() == 0 {
        ptys
    } else if ptys.last().pty_id == pty_id {
        without_pty(ptys.drop_last(), pty_id)
    } else {
        without_pty(ptys.drop_last(), pty_id).push(ptys.last())
    }
}

/// The terminals with this one more, in place of any with the same name.
pub open spec fn with_pty(ptys: Seq<AttachedPtyModel>, pty: AttachedPtyModel) -> Seq<AttachedPtyModel> {
    without_pty(ptys, pty.pty_id).push(pty)
}

/// The list without a terminal.
pub fn detach_pty(ptys: Vec<AttachedPty>, pty_id: &str) -> (r: Vec<AttachedPty>)
    ensures
        attached_models(r@) == without_pty(attached_models(ptys@), pty_id@),
{
    let ghost all = attached_models(ptys@);
    let mut r: Vec<AttachedPty> = Vec::new();
    let mut i: usize = 0;
    assert(all.take(0) =~= Seq::<AttachedPtyModel>::empty());
    assert(attached_models(r@) =~= Seq::<AttachedPtyModel>::empty());
    while i < ptys.len()
        invariant
            i <= ptys@.len(),
            all == attached_models(ptys@),
            attached_models(r@) == without_pty(all.take(i as int), pty_id@),
        decreases ptys@.len() - i,
    {
        let ghost before = attached_models(r@);
        assert(all.take(i + 1).drop_last() =~= all.take(i as int));
        assert(all.take(i + 1).last() == ptys@[i as int]@);
        if !same_text(ptys[i].pty_id.as_str(), pty_id) {
            let kept = AttachedPty {
                pty_id: ptys[i].pty_id.clone(),
                user_id: ptys[i].user_id.clone(),
                socket: ptys[i].socket.clone(),
                command: ptys[i].command.clone(),
            };
            r.push(kept);
            assert(attached_models(r@) =~= before.push(ptys@[i as int]@));
        }
        i = i + 1;
    }
    assert(all.take(all.len() as int) =~= all);
    r
}

/// The list with a terminal.
pub fn attach_pty(ptys: Vec<AttachedPty>, pty: AttachedPty) -> (r: Vec<AttachedPty>)
    ensures
        attached_models(r@) == with_pty(attached_models(ptys@), pty@),
{
    let mut r = detach_pty(ptys, pty.pty_id.as_str());
    let ghost before = attached_models(r@);
    r.push(pty);
    assert(attached_models(r@) =~= before.push(pty@));
    r
}

// ---------------------------------------------------------------------------
// Logging in
// ---------------------------------------------------------------------------

/// What is kept of a login.
#[derive(Debug)]
pub struct StoredCredentials {
    pub user_id: String,
    pub device_id: String,
    pub access_token: String,
    pub homeserver: String,
}

impl StoredCredentials {
    /// Where the user's are kept.
    pub fn path(data_dir: &str) -> (r: String)
        ensures
            r@ == credentials_path(data_dir@, "user"@),
    {
        StoredCredentials::path_for_user(data_dir, "user")
    }

    /// Where those of a user or an agent are kept.
    pub fn path_for_user(data_dir: &str, name: &str) -> (r: String)
        ensures
            r@ == credentials_path(data_dir@, name@),
    {
        let mut file = "matrix/".to_owned();
        file.append(name);
        file.append(".json");
        join(data_dir, file.as_str())
    }

    /// What is kept after a login to a server. What the server does not say is left empty.
    pub fn after_login(
        user_id: String,
        device_id: Option<String>,
        access_token: Option<String>,
        homeserver: String,
    ) -> (c: StoredCredentials)
        ensures
            c.user_id@ == user_id@,
            c.device_id@ == or_empty(text_model(device_id)),
            c.access_token@ == or_empty(text_model(access_token)),
            c.homeserver@ == homeserver@,
    {
        let device_id = match device_id {
            Some(id) => id,
            None => String::new(),
        };
        let access_token = match access_token {
            Some(token) => token,
            None => String::new(),
        };
        StoredCredentials { user_id, device_id, access_token, homeserver }
    }
}

/// A text, or the empty one.
pub open spec fn or_empty(t: Option<Seq<char>>) -> Seq<char> {
    match t {
        Some(s) => s,
        None => Seq::empty(),
    }
}

/// Where the credentials of a user or an agent are kept.
pub open spec fn credentials_path(data_dir: Seq<char>, name: Seq<char>) -> Seq<char> {
    joined(data_dir, "matrix/"@ + name + ".json"@)
}

/// The name under which the credentials of an agent are kept.
pub fn agent_account(agent_name: &str) -> (r: String)
    ensures
        r@ == "agent-"@ + agent_name@,
{
    let mut r = "agent-".to_owned();
    r.append(agent_name);
    r
}

/// What to do to be logged in.
#[derive(Clone, Copy, Debug, PartialEq, Eq, Structural)]
pub enum LoginStep {
    /// Go on with the session that is kept.
    Restore,
    /// Log in, before an account is made.
    LoginFirst,
    /// Make an account, after a login has failed.
    RegisterLast,
    /// Make an account, before a login is tried.
    Register,
    /// Log in, after no account could be made: it may be there already.
    Login,
    /// Nothing: the session that was kept goes on.
    Restored,
    /// Keep the new session.
    Save,
    /// Give up.
    Failed,
}

/// The first thing to do for the user: a session that is kept is tried if it is one of this
/// server. Where none is kept, an account is made.
pub open spec fn login_start_is(stored: Option<Seq<char>>, homeserver: Seq<char>) -> LoginStep {
    match stored {
        Some(kept) => if kept == homeserver {
            LoginStep::Restore
        } else {
            LoginStep::LoginFirst
        },
        None => LoginStep::Register,
    }
}

/// The first thing to do for an agent: a session that is kept is tried if it is one of this
/// server. Else a login is.
pub open spec fn agent_login_start_is(stored: Option<Seq<char>>, homeserver: Seq<char>) -> LoginStep {
    if stored == Some(homeserver) {
        LoginStep::Restore
    } else {
        LoginStep::LoginFirst
    }
}

/// The first thing to do for an agent.
pub fn agent_login_start(stored: &Option<StoredCredentials>, homeserver: &str) -> (step: LoginStep)
    ensures
        step == agent_login_start_is(
            match stored {
                Some(c) => Some(c.homeserver@),
                None => None,
            },
            homeserver@,
        ),
{
    match stored {
        Some(c) => {
            if same_text(c.homeserver.as_str(), homeserver) {
                LoginStep::Restore
            } else {
                LoginStep::LoginFirst
            }
        },
        None => LoginStep::LoginFirst,
    }
}

/// The first thing to do for the user.
pub fn login_start(stored: &Option<StoredCredentials>, homeserver: &str) -> (step: LoginStep)
    ensures
        step == login_start_is(
            match stored {
                Some(c) => Some(c.homeserver@),
                None => None,
            },
            homeserver@,
        ),
{
    match stored {
        Some(c) => {
            if same_text(c.homeserver.as_str(), homeserver) {
                LoginStep::Restore
            } else {
                LoginStep::LoginFirst
            }
        },
        None => LoginStep::Register,
    }
}

impl LoginStep {
    /// What to do next, after a thing was done or has failed.
    pub open spec fn next_is(self, done: bool) -> LoginStep {
        match self {
            LoginStep::Restore => if done {
                LoginStep::Restored
            } else {
                LoginStep::LoginFirst
            },
            LoginStep::LoginFirst => if done {
                LoginStep::Save
            } else {
                LoginStep::RegisterLast
            },
            LoginStep::RegisterLast => if done {
                LoginStep::Save
            } else {
                LoginStep::Failed
            },
            LoginStep::Register => if done {
                LoginStep::Save
            } else {
                LoginStep::Login
            },
            LoginStep::Login => if done {
                LoginStep::Save
            } else {
                LoginStep::Failed
            },
            _ => self,
        }
    }

    /// What to do next, after a thing was done or has failed.
    pub fn next(self, done: bool) -> (step: LoginStep)
        ensures
            step == self.next_is(done),
    {
        match self {
            LoginStep::Restore => {
                if done {
                    LoginStep::Restored
                } else {
                    LoginStep::LoginFirst
                }
            },
            LoginStep::LoginFirst => {
                if done {
                    LoginStep::Save
                } else {
                    LoginStep::RegisterLast
                }
            },
            LoginStep::RegisterLast => {
                if done {
                    LoginStep::Save
                } else {
                    LoginStep::Failed
                }
            },
            LoginStep::Register => {
                if done {
                    LoginStep::Save
                } else {
                    LoginStep::Login
                }
            },
            LoginStep::Login => {
                if done {
                    LoginStep::Save
                } else {
                    LoginStep::Failed
                }
            },
            _ => self,
        }
    }

    /// How much can still be tried.
    pub open spec fn tries_left(self) -> nat {
        match self {
            LoginStep::Restore => 3,
            LoginStep::LoginFirst => 2,
            LoginStep::RegisterLast => 1,
            LoginStep::Register => 2,
            LoginStep::Login => 1,
            _ => 0,
        }
    }
}

// ---------------------------------------------------------------------------
// Rooms for channels
// ---------------------------------------------------------------------------

/// Pairs of texts, as values.
pub open spec fn pair_models(v: Seq<(String, String)>) -> Seq<(Seq<char>, Seq<char>)> {
    Seq::new(v.len(), |i: int| (v[i].0@, v[i].1@))
}

/// The first room with a name, if there is one.
pub open spec fn room_named(existing: Seq<(Seq<char>, Seq<char>)>, name: Seq<char>) -> Option<Seq<char>>
    decreases existing.len(),
{
    if existing.len() == 0 {
        None
    } else if existing[0].1 == name {
        Some(existing[0].0)
    } else {
        room_named(existing.drop_first(), name)
    }
}

/// The first room with a name, if there is one.
pub fn find_room(existing: &Vec<(String, String)>, name: &str) -> (r: Option<String>)
    ensures
        text_model(r) == room_named(pair_models(existing@), name@),
{
    let ghost all = pair_models(existing@);
    let mut i: usize = 0;
    assert(all.skip(0) =~= all);
    while i < existing.len()
        invariant
            i <= existing@.len(),
            all == pair_models(existing@),
            room_named(all.skip(i as int), name@) == room_named(all, name@),
        decreases existing@.len() - i,
    {
        assert(all.skip(i as int)[0] == all[i as int]);
        assert(all.skip(i as int).drop_first() =~= all.skip(i + 1));
        if same_text(existing[i].1.as_str(), name) {
            return Some(existing[i].0.clone());
        }
        i = i + 1;
    }
    None
}

/// Which channels have no room yet, among the first `n`.
pub open spec fn missing(existing: Seq<(Seq<char>, Seq<char>)>, names: Seq<Seq<char>>, n: nat) -> Seq<int>
    decreases n,
{
    if n == 0 {
        Seq::empty()
    } else {
        let before = missing(existing, names, (n - 1) as nat);
        if room_named(existing, names[n - 1]) is None {
            before.push(n - 1)
        } else {
            before
        }
    }
}

/// Which channels have no room yet. For each of them, in this order, one is to be made.
pub fn missing_rooms(existing: &Vec<(String, String)>, names: &Vec<String>) -> (r: Vec<usize>)
    ensures
        crate::text::places(r@) == missing(
            pair_models(existing@),
            crate::text::texts(names@),
            names@.len(),
        ),
{
    let ghost ns = crate::text::texts(names@);
    let ghost ex = pair_models(existing@);
    let mut r: Vec<usize> = Vec::new();
    let mut i: usize = 0;
    assert(crate::text::places(r@) =~= Seq::<int>::empty());
    while i < names.len()
        invariant
            i <= names@.len(),
            ns == crate::text::texts(names@),
            ex == pair_models(existing@),
            crate::text::places(r@) == missing(ex, ns, i as nat),
        decreases names@.len() - i,
    {
        let ghost before = crate::text::places(r@);
        let there = find_room(existing, names[i].as_str()).is_some();
        if !there {
            r.push(i);
            assert(crate::text::places(r@) =~= before.push(i as int));
        }
        i = i + 1;
    }
    r
}

/// The room of a channel: the one that was there, or else the one that was made.
pub open spec fn room_of_channel(
    existing: Seq<(Seq<char>, Seq<char>)>,
    made: Seq<Option<Seq<char>>>,
    names: Seq<Seq<char>>,
    i: int,
) -> Option<Seq<char>> {
    match room_named(existing, names[i]) {
        Some(id) => Some(id),
        None => made[i],
    }
}

/// The rooms of the first `n` channels; a channel whose room could not be made has none.
pub open spec fn mapped(
    existing: Seq<(Seq<char>, Seq<char>)>,
    made: Seq<Option<Seq<char>>>,
    names: Seq<Seq<char>>,
    n: nat,
) -> Seq<(Seq<char>, Seq<char>)>
    decreases n,
{
    if n == 0 {
        Seq::empty()
    } else {
        let before = mapped(existing, made, names, (n - 1) as nat);
        match room_of_channel(existing, made, names, n - 1) {
            Some(id) => before.push((names[n - 1], id)),
            None => before,
        }
    }
}

/// Texts that may be there, as values.
pub open spec fn option_texts(v: Seq<Option<String>>) -> Seq<Option<Seq<char>>> {
    Seq::new(v.len(), |i: int| text_model(v[i]))
}

/// The rooms of channels. For each channel it takes the room that was made for it, if one
/// was.
pub fn ensure_rooms_for_channels(
    existing: &Vec<(String, String)>,
    made: &Vec<Option<String>>,
    names: &Vec<String>,
) -> (r: Vec<(String, String)>)
    requires
        made@.len() == names@.len(),
    ensures
        pair_models(r@) == mapped(
            pair_models(existing@),
            option_texts(made@),
            crate::text::texts(names@),
            names@.len(),
        ),
{
    let ghost ns = crate::text::texts(names@);
    let ghost ex = pair_models(existing@);
    let ghost ms = option_texts(made@);
    let mut r: Vec<(String, String)> = Vec::new();
    let mut i: usize = 0;
    assert(pair_models(r@) =~= Seq::<(Seq<char>, Seq<char>)>::empty());
    while i < names.len()
        invariant
            i <= names@.len() == made@.len(),
            ns == crate::text::texts(names@),
            ex == pair_models(existing@),
            ms == option_texts(made@),
            pair_models(r@) == mapped(ex, ms, ns, i as nat),
        decreases names@.len() - i,
    {
        let ghost before = pair_models(r@);
        let id = match find_room(existing, names[i].as_str()) {
            Some(id) => Some(id),
            None => match &made[i] {
                Some(id) => Some(id.clone()),
                None => None,
            },
        };
        assert(text_model(id) == room_of_channel(ex, ms, ns, i as int));
        if let Some(id) = id {
            let ghost model = id@;
            r.push((names[i].clone(), id));
            assert(pair_models(r@) =~= before.push((ns[i as int], model)));
        }
        i = i + 1;
    }
    r
}

// ---------------------------------------------------------------------------
// Laws
// ---------------------------------------------------------------------------

/// A terminal that was attached is listed once, with what was last said of it, and the
/// others stay as they were.
pub proof fn law_attached_once(ptys: Seq<AttachedPtyModel>, pty: AttachedPtyModel)
    ensures
        with_pty(ptys, pty).last() == pty,
        forall|i: int|
            0 <= i < with_pty(ptys, pty).len() - 1 ==> (#[trigger] with_pty(ptys, pty)[i]).pty_id
                != pty.pty_id,
        with_pty(with_pty(ptys, pty), pty) == with_pty(ptys, pty),
        without_pty(with_pty(ptys, pty), pty.pty_id) == without_pty(ptys, pty.pty_id),
{
    let rest = without_pty(ptys, pty.pty_id);
    lemma_without(ptys, pty.pty_id);
    lemma_without_again(rest, pty.pty_id);
    assert(with_pty(ptys, pty).drop_last() =~= rest);
}

/// A terminal that was detached is not listed, and detaching it again changes nothing.
pub proof fn law_detached_is_gone(ptys: Seq<AttachedPtyModel>, pty_id: Seq<char>)
    ensures
        forall|i: int|
            0 <= i < without_pty(ptys, pty_id).len() ==> (#[trigger] without_pty(ptys, pty_id)[i]).pty_id
                != pty_id,
        without_pty(without_pty(ptys, pty_id), pty_id) == without_pty(ptys, pty_id),
{
    lemma_without(ptys, pty_id);
    lemma_without_again(without_pty(ptys, pty_id), pty_id);
}

proof fn lemma_without(ptys: Seq<AttachedPtyModel>, pty_id: Seq<char>)
    ensures
        forall|i: int|
            0 <= i < without_pty(ptys, pty_id).len() ==> (#[trigger] without_pty(ptys, pty_id)[i]).pty_id
                != pty_id,
    decreases ptys.len(),
{
    if ptys.len() > 0 {
        let before = without_pty(ptys.drop_last(), pty_id);
        let all = without_pty(ptys, pty_id);
        lemma_without(ptys.drop_last(), pty_id);
        assert forall|i: int| 0 <= i < all.len() implies (#[trigger] all[i]).pty_id != pty_id by {
            if i < before.len() {
                assert(all[i] == before[i]);
            }
        }
    }
}

proof fn lemma_without_again(ptys: Seq<AttachedPtyModel>, pty_id: Seq<char>)
    requires
        forall|i: int| 0 <= i < ptys.len() ==> (#[trigger] ptys[i]).pty_id != pty_id,
    ensures
        without_pty(ptys, pty_id) == ptys,
    decreases ptys.len(),
{
    if ptys.len() > 0 {
        assert(ptys.last().pty_id != pty_id);
        assert forall|i: int| 0 <= i < ptys.drop_last().len() implies (#[trigger] ptys.drop_last()[i]).pty_id
            != pty_id by {
            assert(ptys[i].pty_id != pty_id);
        }
        lemma_without_again(ptys.drop_last(), pty_id);
        assert(ptys.drop_last().push(ptys.last()) =~= ptys);
    }
}

/// Logging in ends: each try leads to the end or leaves fewer things to try. A login and an
/// account are tried once each, whichever comes first, and only when both have failed is it
/// given up. A session is kept exactly when it is new.
pub proof fn law_login_ends(step: LoginStep, done: bool)
    ensures
        step.tries_left() > 0 ==> step.next_is(done).tries_left() < step.tries_left(),
        step.tries_left() == 0 ==> step.next_is(done) == step,
        step.tries_left() > 0 && done ==> step.next_is(done) == if step == LoginStep::Restore {
            LoginStep::Restored
        } else {
            LoginStep::Save
        },
        LoginStep::Restore.next_is(false) == LoginStep::LoginFirst,
        LoginStep::LoginFirst.next_is(false) == LoginStep::RegisterLast,
        LoginStep::RegisterLast.next_is(false) == LoginStep::Failed,
        LoginStep::Register.next_is(false) == LoginStep::Login,
        LoginStep::Login.next_is(false) == LoginStep::Failed,
{
}

/// Every channel that has a room, or for which one was made, is mapped to it.
pub proof fn law_channels_are_mapped(
    existing: Seq<(Seq<char>, Seq<char>)>,
    made: Seq<Option<Seq<char>>>,
    names: Seq<Seq<char>>,
    n: nat,
    i: int,
)
    requires
        0 <= i < n <= names.len(),
        room_of_channel(existing, made, names, i) is Some,
    ensures
        mapped(existing, made, names, n).contains(
            (names[i], room_of_channel(existing, made, names, i)->0),
        ),
    decreases n,
{
    let before = mapped(existing, made, names, (n - 1) as nat);
    let all = mapped(existing, made, names, n);
    let pair = (names[i], room_of_channel(existing, made, names, i)->0);
    if i == n - 1 {
        assert(all.last() == pair);
    } else {
        law_channels_are_mapped(existing, made, names, (n - 1) as nat, i);
        let k = choose|k: int| 0 <= k < before.len() && before[k] == pair;
        assert(all[k] == pair);
    }
}

/// Texts and notices are received as they are, and an emote with a star before it; anything else
/// is not received.
pub proof fn law_what_is_received(body: Seq<char>)
    ensures
        message_text(MessageKind::Text, body) == Some(body),
        message_text(MessageKind::Notice, body) == Some(body),
        message_text(MessageKind::Emote, body) == Some("* "@ + body),
        message_text(MessageKind::Other, body) is None,
{
}

/// A user is known by the part of their name on the server before the colon, without the at signs
/// at its start; and a sender by the name they show, where they show one.
pub proof fn law_names_of_users(
    name: Seq<char>,
    server: Seq<char>,
    user_id: Seq<char>,
    shown: Seq<char>,
    m: MatrixMessageModel,
)
    ensures
        local_name(seq!['@'] + user_id) == local_name(user_id),
        (name.len() == 0 || name[0] != '@') && !name.contains(':') ==> {
            &&& name.len() > 0 ==> local_name(name) == name
            &&& local_name(name.push(':') + server) == name
            &&& local_name(user_id_is(name, server)) == name
        },
        user_id_is(name, server) == seq!['@'] + name + seq![':'] + server,
        m.display_name == Some(shown) ==> m.sender_name() == shown,
        m.display_name is None ==> m.sender_name() == local_name(m.sender),
{
    assert((seq!['@'] + user_id).drop_first() =~= user_id);
    if (name.len() == 0 || name[0] != '@') && !name.contains(':') {
        let s = name.push(':') + server;
        assert(s[name.len() as int] == ':');
        lemma_place_of(s, ':');
        lemma_place_of(name, ':');
        let p = place_of(s, ':');
        if p < name.len() {
            assert(name[p] == ':');
        }
        assert(without_leading(s, '@') == s);
        assert(s.take(p) =~= name);
        if name.len() > 0 {
            let q = place_of(name, ':');
            if q < name.len() {
                assert(name[q] == ':');
            }
            assert(name.take(q) =~= name);
        }
        assert(user_id_is(name, server) =~= seq!['@'] + s);
        assert((seq!['@'] + s).drop_first() =~= s);
    }
}

/// Detaching a terminal takes it off the list and leaves the others in their order; attaching one
/// puts it at the end, in the place of what was there under its number.
pub proof fn law_lists_of_terminals(ptys: Seq<AttachedPtyModel>, pty: AttachedPtyModel, pty_id: Seq<char>)
    ensures
        without_pty(ptys, pty_id) == ptys.filter(|p: AttachedPtyModel| p.pty_id != pty_id),
        with_pty(ptys, pty) == ptys.filter(|p: AttachedPtyModel| p.pty_id != pty.pty_id).push(pty),
{
    lemma_without_is_filter(ptys, pty_id);
    lemma_without_is_filter(ptys, pty.pty_id);
}

proof fn lemma_without_is_filter(ptys: Seq<AttachedPtyModel>, pty_id: Seq<char>)
    ensures
        without_pty(ptys, pty_id) == ptys.filter(|p: AttachedPtyModel| p.pty_id != pty_id),
    decreases ptys.len(),
{
    reveal(Seq::filter);
    if ptys.len() > 0 {
        lemma_without_is_filter(ptys.drop_last(), pty_id);
    } else {
        assert(without_pty(ptys, pty_id) =~= ptys.filter(|p: AttachedPtyModel| p.pty_id != pty_id));
    }
}

/// How logging in begins: with the session that was kept of this server. Where one was kept of
/// another, with a login; where none was, the user makes an account and an agent logs in.
pub proof fn law_how_logging_in_begins(kept: Seq<char>, homeserver: Seq<char>)
    ensures
        login_start_is(Some(homeserver), homeserver) == LoginStep::Restore,
        agent_login_start_is(Some(homeserver), homeserver) == LoginStep::Restore,
        kept != homeserver ==> login_start_is(Some(kept), homeserver) == LoginStep::LoginFirst,
        kept != homeserver ==> agent_login_start_is(Some(kept), homeserver) == LoginStep::LoginFirst,
        login_start_is(None, homeserver) == LoginStep::Register,
        agent_login_start_is(None, homeserver) == LoginStep::LoginFirst,
{
}

/// The room of a name is the first that bears it, and there is none only if no room bears it.
pub proof fn law_rooms_are_found_by_name(existing: Seq<(Seq<char>, Seq<char>)>, name: Seq<char>, i: int)
    ensures
        0 <= i < existing.len() && existing[i].1 == name && (forall|k: int|
            0 <= k < i ==> (#[trigger] existing[k]).1 != name) ==> room_named(existing, name) == Some(
            existing[i].0,
        ),
        (forall|k: int| 0 <= k < existing.len() ==> (#[trigger] existing[k]).1 != name) ==> room_named(
            existing,
            name,
        ) is None,
    decreases existing.len(),
{
    if existing.len() > 0 {
        let rest = existing.drop_first();
        assert(existing[0] == existing[0]);
        if existing[0].1 != name {
            assert(forall|k: int| 0 <= k < rest.len() ==> #[trigger] rest[k] == existing[k + 1]);
            law_rooms_are_found_by_name(rest, name, i - 1);
        }
    }
}

/// For exactly those channels rooms are to be made whose name no room bears.
pub proof fn law_which_rooms_are_missing(existing: Seq<(Seq<char>, Seq<char>)>, names: Seq<Seq<char>>, n: nat, i: int)
    requires
        n <= names.len(),
    ensures
        missing(existing, names, n).contains(i) <==> 0 <= i < n && forall|k: int|
            0 <= k < existing.len() ==> (#[trigger] existing[k]).1 != names[i],
    decreases n,
{
    if n > 0 {
        law_which_rooms_are_missing(existing, names, (n - 1) as nat, i);
        let before = missing(existing, names, (n - 1) as nat);
        let all = missing(existing, names, n);
        lemma_room_named(existing, names[n - 1]);
        if all != before {
            assert(all.last() == n - 1);
            if before.contains(i) {
                let k = choose|k: int| 0 <= k < before.len() && before[k] == i;
                assert(all[k] == i);
            }
            if all.contains(i) && i != n - 1 {
                let k = choose|k: int| 0 <= k < all.len() && all[k] == i;
                assert(before[k] == i);
            }
        }
    }
}

proof fn lemma_room_named(existing: Seq<(Seq<char>, Seq<char>)>, name: Seq<char>)
    ensures
        room_named(existing, name) is None <==> forall|k: int|
            0 <= k < existing.len() ==> (#[trigger] existing[k]).1 != name,
    decreases existing.len(),
{
    if existing.len() > 0 {
        let rest = existing.drop_first();
        lemma_room_named(rest, name);
        assert(existing[0] == existing[0]);
        assert(forall|k: int| 0 <= k < rest.len() ==> #[trigger] rest[k] == existing[k + 1]);
        if room_named(existing, name) is None {
            assert forall|k: int| 0 <= k < existing.len() implies (#[trigger] existing[k]).1 != name by {
                if k > 0 {
                    assert(rest[k - 1] == existing[k]);
                }
            }
        } else if existing[0].1 != name {
            let k = choose|k: int| 0 <= k < rest.len() && (#[trigger] rest[k]).1 == name;
            assert(existing[k + 1].1 == name);
        }
    }
}

/// Channels are mapped one by one, in their order: each to the room that bears its name, or else to
/// the one that was made for it; one with neither is left out.
pub proof fn law_channels_are_mapped_one_by_one(
    existing: Seq<(Seq<char>, Seq<char>)>,
    made: Seq<Option<Seq<char>>>,
    names: Seq<Seq<char>>,
    n: nat,
)
    requires
        n < names.len(),
        made.len() == names.len(),
    ensures
        mapped(existing, made, names, 0).len() == 0,
        ({
            let before = mapped(existing, made, names, n);
            let after = mapped(existing, made, names, n + 1);
            let name = names[n as int];
            match room_named(existing, name) {
                Some(id) => after == before.push((name, id)),
                None => match made[n as int] {
                    Some(id) => after == before.push((name, id)),
                    None => after == before,
                },
            }
        }),
{
}

/// Credentials are kept in a file of their own for each account, and what a server does not say is
/// kept as nothing.
pub proof fn law_where_credentials_are_kept(data_dir: Seq<char>, name: Seq<char>, s: Seq<char>)
    ensures
        credentials_path(data_dir, name) == joined(data_dir, "matrix/"@ + name + ".json"@),
        or_empty(Some(s)) == s,
        or_empty(None).len() == 0,
{
}

} // verus!
