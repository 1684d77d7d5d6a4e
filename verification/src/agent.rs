//! How an agent follows what is said to it.

use vstd::prelude::*;
use vstd::string::*;
use vstd::utf8::*;

use crate::env::{join, joined};
use crate::matrix_client::{MatrixMessage, MatrixMessageModel};
use crate::text::{
    chars_of, contains, find_char, has_text, law_nothing_to_take_out, law_taking_out,
    law_trimming_takes_only_white_space, law_trimming_twice_is_trimming_once, lemma_place_of,
    lowercase, part, place_of, remove_all, same_text, stands, stands_at, string_of, trim, trimmed,
    white_space, without,
};
use crate::wire::Wire;

verus! {

/// How many bytes of an answer are sent.
pub const ANSWER_LIMIT: usize = 4000;

// ---------------------------------------------------------------------------
// Files
// ---------------------------------------------------------------------------

/// The file with what an agent remembers.
pub fn agent_state_path(data_dir: &str, agent_name: &str) -> (r: String)
    ensures
        r@ == joined(data_dir@, "matrix/agent-"@ + agent_name@ + "-state.json"@),
{
    let mut file = "matrix/agent-".to_owned();
    file.append(agent_name);
    file.append("-state.json");
    join(data_dir, file.as_str())
}

/// The file with an agent's credentials.
pub fn agent_credentials_path(data_dir: &str, agent_name: &str) -> (r: String)
    ensures
        r@ == joined(data_dir@, "matrix/agent-"@ + agent_name@ + ".json"@),
{
    let mut file = "matrix/agent-".to_owned();
    file.append(agent_name);
    file.append(".json");
    join(data_dir, file.as_str())
}

/// The password of an agent on the local server.
pub fn agent_password(agent_name: &str) -> (r: String)
    ensures
        r@ == "agent-"@ + agent_name@ + "-password"@,
{
    let mut r = "agent-".to_owned();
    r.append(agent_name);
    r.append("-password");
    r
}

/// What an agent remembers.
#[derive(Debug, Clone, Copy, PartialEq, Eq, Structural)]
pub struct AgentState {
    /// When the last message was sent that it has worked on, in milliseconds since the
    /// beginning of 1970.
    pub last_dispatch_ts: u64,
}

impl Default for AgentState {
    fn default() -> (s: Self)
        ensures
            s.last_dispatch_ts == 0,
    {
        AgentState { last_dispatch_ts: 0 }
    }
}

impl AgentState {
    /// Notes that a message was worked on.
    pub fn dispatched(&mut self, timestamp: u64)
        ensures
            final(self).last_dispatch_ts == timestamp,
    {
        self.last_dispatch_ts = timestamp;
    }
}

// ---------------------------------------------------------------------------
// Commands
// ---------------------------------------------------------------------------

/// The command that a message begins with: what stands before the first space.
pub open spec fn command_word(content: Seq<char>) -> Seq<char> {
    content.take(place_of(content, ' '))
}

/// What is said to a command, if it is one that the agent knows.
pub open spec fn command_answer(command: Seq<char>) -> Option<Seq<char>> {
    if command == "/quit"@ {
        Some("Shutting down..."@)
    } else if command == "/restart"@ {
        Some("Restart requested (not yet implemented)"@)
    } else if command == "/help"@ {
        Some(
            "Available commands:\n- /quit - Shut down this agent\n- /restart - Restart this agent\n- /help - Show this message"@,
        )
    } else {
        None
    }
}

// ---------------------------------------------------------------------------
// Mentions
// ---------------------------------------------------------------------------

/// How an agent is mentioned.
pub open spec fn mention(agent_name: Seq<char>) -> Seq<char> {
    seq!['@'] + agent_name
}

/// Whether a message begins with the agent's name and a colon; marks may stand between the
/// two, and it may be written in upper or lower case.
pub open spec fn addressed(content: Seq<char>, agent_name: Seq<char>) -> bool {
    let colon = place_of(content, ':');
    &&& colon < content.len()
    &&& stands_at(lowercase(trimmed(content.take(colon))), lowercase(agent_name), 0)
}

/// Whether the agent is mentioned somewhere in a message, or the message is addressed to it.
pub open spec fn mentioned(content: Seq<char>, agent_name: Seq<char>) -> bool {
    has_text(lowercase(content), lowercase(mention(agent_name))) || addressed(content, agent_name)
}

/// What the agent is asked: all that is said to it alone, or what is left of a message
/// without the address or the mention.
pub open spec fn prompt_of(content: Seq<char>, agent_name: Seq<char>, is_dm: bool) -> Seq<char> {
    if is_dm {
        trimmed(content)
    } else if addressed(content, agent_name) {
        trimmed(content.skip(place_of(content, ':') + 1))
    } else {
        trimmed(
            without(
                without(content, mention(agent_name)),
                lowercase(mention(agent_name)),
            ),
        )
    }
}

/// What an agent does.
#[derive(Debug)]
pub enum AgentAction {
    /// Nothing.
    Ignore,
    /// It says something.
    Reply { text: String },
    /// It says something and ends.
    ReplyAndQuit { text: String },
    /// It works on what it is asked, in a directory.
    Dispatch { prompt: String, cwd: String },
}

/// What an agent does, as a value.
pub enum AgentActionModel {
    Ignore,
    Reply { text: Seq<char> },
    ReplyAndQuit { text: Seq<char> },
    Dispatch { prompt: Seq<char>, cwd: Seq<char> },
}

impl View for AgentAction {
    type V = AgentActionModel;

    open spec fn view(&self) -> AgentActionModel {
        match self {
            AgentAction::Ignore => AgentActionModel::Ignore,
            AgentAction::Reply { text } => AgentActionModel::Reply { text: text@ },
            AgentAction::ReplyAndQuit { text } => AgentActionModel::ReplyAndQuit { text: text@ },
            AgentAction::Dispatch { prompt, cwd } => AgentActionModel::Dispatch {
                prompt: prompt@,
                cwd: cwd@,
            },
        }
    }
}

/// An agent.
pub struct Agent {
    /// Its name.
    pub name: String,
    /// Its name on the chat server.
    pub user_id: String,
    /// The directory that it works in, if it has one.
    pub cwd: Option<String>,
}

/// An agent, as a value.
pub struct AgentModel {
    pub name: Seq<char>,
    pub user_id: Seq<char>,
    pub cwd: Option<Seq<char>>,
}

impl View for Agent {
    type V = AgentModel;

    open spec fn view(&self) -> AgentModel {
        AgentModel { name: self.name@, user_id: self.user_id@, cwd: self.cwd.model() }
    }
}

/// What an agent says when it was mentioned and nothing else was said.
pub open spec fn nothing_asked() -> Seq<char> {
    seq!['\u{1f44b}'] + " You mentioned me! What can I help with?"@
}

impl AgentModel {
    /// What the agent does about a command.
    pub open spec fn commanded(self, content: Seq<char>) -> AgentActionModel {
        match command_answer(command_word(content)) {
            Some(text) => if command_word(content) == "/quit"@ {
                AgentActionModel::ReplyAndQuit { text }
            } else {
                AgentActionModel::Reply { text }
            },
            None => AgentActionModel::Ignore,
        }
    }

    /// What the agent does about something it is asked. What it has worked on it does not
    /// work on again.
    pub open spec fn asked(self, prompt: Seq<char>, timestamp: u64, state: AgentState) -> AgentActionModel {
        if prompt.len() == 0 {
            AgentActionModel::Reply { text: nothing_asked() }
        } else {
            match self.cwd {
                Some(cwd) => if timestamp <= state.last_dispatch_ts {
                    AgentActionModel::Ignore
                } else {
                    AgentActionModel::Dispatch { prompt, cwd }
                },
                None => AgentActionModel::Reply {
                    text: "No working directory configured - can't invoke wicket"@,
                },
            }
        }
    }

    /// What the agent does about a message: nothing about its own, nothing about what is not
    /// meant for it.
    pub open spec fn told(self, m: MatrixMessageModel, is_dm: bool, state: AgentState) -> AgentActionModel {
        let content = trimmed(m.content);
        if m.sender == self.user_id {
            AgentActionModel::Ignore
        } else if content.len() > 0 && content[0] == '/' {
            self.commanded(content)
        } else if is_dm || mentioned(content, self.name) {
            self.asked(prompt_of(content, self.name, is_dm), m.timestamp, state)
        } else {
            AgentActionModel::Ignore
        }
    }
}

/// A text in lower case.
fn lower(s: &[char]) -> (r: Vec<char>)
    ensures
        r@ == lowercase(s@),
{
    let text = string_of(s);
    let low = text.as_str().to_lowercase();
    chars_of(low.as_str())
}

/// How an agent is mentioned.
fn mention_chars(agent_name: &str) -> (r: Vec<char>)
    ensures
        r@ == mention(agent_name@),
{
    let mut text = String::new();
    text.push('@');
    text.append(agent_name);
    assert(text@ =~= mention(agent_name@));
    chars_of(text.as_str())
}

/// Where the address of a message to the agent ends, if it has one.
fn address_end(content: &[char], agent_name: &str) -> (r: Option<usize>)
    ensures
        match r {
            Some(colon) => addressed(content@, agent_name@) && colon == place_of(content@, ':')
                && colon < content@.len(),
            None => !addressed(content@, agent_name@),
        },
{
    proof {
        lemma_place_of(content@, ':');
    }
    match find_char(content, ':') {
        Some(colon) => {
            let before = part(content, 0, colon);
            assert(before@ =~= content@.take(colon as int));
            let prefix = trim(before.as_slice());
            let low = lower(prefix.as_slice());
            let name = chars_of(agent_name);
            let low_name = lower(name.as_slice());
            if stands(low.as_slice(), low_name.as_slice(), 0) {
                Some(colon)
            } else {
                None
            }
        },
        None => {
            assert(place_of(content@, ':') == content@.len()) by {
                if place_of(content@, ':') < content@.len() {
                    assert(content@[place_of(content@, ':')] == ':');
                }
            }
            None
        },
    }
}

impl Agent {
    /// What the agent does about a command.
    fn follow_command(&self, content: &[char]) -> (r: AgentAction)
        ensures
            r@ == self@.commanded(content@),
    {
        proof {
            lemma_place_of(content@, ' ');
        }
        let to = match find_char(content, ' ') {
            Some(i) => i,
            None => {
                assert(place_of(content@, ' ') == content@.len()) by {
                    if place_of(content@, ' ') < content@.len() {
                        assert(content@[place_of(content@, ' ')] == ' ');
                    }
                }
                content.len()
            },
        };
        let word = part(content, 0, to);
        assert(word@ =~= command_word(content@));
        let command = string_of(word.as_slice());
        if same_text(command.as_str(), "/quit") {
            AgentAction::ReplyAndQuit { text: "Shutting down...".to_owned() }
        } else if same_text(command.as_str(), "/restart") {
            AgentAction::Reply { text: "Restart requested (not yet implemented)".to_owned() }
        } else if same_text(command.as_str(), "/help") {
            AgentAction::Reply {
                text: "Available commands:\n- /quit - Shut down this agent\n- /restart - Restart this agent\n- /help - Show this message".to_owned(),
            }
        } else {
            AgentAction::Ignore
        }
    }

    /// What the agent is asked by a message that is meant for it, or nothing for any other.
    fn prompt(&self, content: &[char], is_dm: bool) -> (r: Option<Vec<char>>)
        ensures
            match r {
                Some(p) => (is_dm || mentioned(content@, self@.name)) && p@ == prompt_of(
                    content@,
                    self@.name,
                    is_dm,
                ),
                None => !is_dm && !mentioned(content@, self@.name),
            },
    {
        let mention_at = mention_chars(self.name.as_str());
        let low_mention = lower(mention_at.as_slice());
        let end = address_end(content, self.name.as_str());
        let low = lower(content);
        let named = contains(low.as_slice(), low_mention.as_slice());
        if is_dm {
            return Some(trim(content));
        }
        match end {
            Some(colon) => {
                let len = content.len();
                let rest = part(content, colon + 1, len);
                assert(rest@ =~= content@.skip(colon + 1));
                Some(trim(rest.as_slice()))
            },
            None => {
                if named {
                    let once = remove_all(content, mention_at.as_slice());
                    let twice = remove_all(once.as_slice(), low_mention.as_slice());
                    Some(trim(twice.as_slice()))
                } else {
                    None
                }
            },
        }
    }

    /// What the agent does about a message.
    pub fn follow(&self, msg: &MatrixMessage, is_dm: bool, state: &AgentState) -> (r: AgentAction)
        ensures
            r@ == self@.told(msg@, is_dm, *state),
    {
        if same_text(msg.sender.as_str(), self.user_id.as_str()) {
            return AgentAction::Ignore;
        }
        let all = chars_of(msg.content.as_str());
        let content = trim(all.as_slice());
        if content.len() > 0 && content[0] == '/' {
            return self.follow_command(content.as_slice());
        }
        let prompt = match self.prompt(content.as_slice(), is_dm) {
            Some(p) => p,
            None => {
                return AgentAction::Ignore;
            },
        };
        if prompt.len() == 0 {
            let mut text = String::new();
            text.push('\u{1f44b}');
            text.append(" You mentioned me! What can I help with?");
            assert(text@ =~= nothing_asked());
            return AgentAction::Reply { text };
        }
        match &self.cwd {
            Some(cwd) => {
                if msg.timestamp <= state.last_dispatch_ts {
                    AgentAction::Ignore
                } else {
                    AgentAction::Dispatch { prompt: string_of(prompt.as_slice()), cwd: cwd.clone() }
                }
            },
            None => AgentAction::Reply {
                text: "No working directory configured - can't invoke wicket".to_owned(),
            },
        }
    }
}

// ---------------------------------------------------------------------------
// Answers
// ---------------------------------------------------------------------------

/// How the program that answers has ended.
#[derive(Debug)]
pub enum Outcome {
    /// Well, with this output.
    Done(String),
    /// Badly, with these complaints.
    Failed(String),
    /// It could not be started.
    NotStarted(String),
}

/// How the program that answers has ended, as a value.
pub enum OutcomeModel {
    Done(Seq<char>),
    Failed(Seq<char>),
    NotStarted(Seq<char>),
}

impl View for Outcome {
    type V = OutcomeModel;

    open spec fn view(&self) -> OutcomeModel {
        match self {
            Outcome::Done(s) => OutcomeModel::Done(s@),
            Outcome::Failed(s) => OutcomeModel::Failed(s@),
            Outcome::NotStarted(s) => OutcomeModel::NotStarted(s@),
        }
    }
}

/// The whole answer.
pub open spec fn full_answer(o: OutcomeModel) -> Seq<char> {
    match o {
        OutcomeModel::Done(s) => s,
        OutcomeModel::Failed(s) => "Error: "@ + s,
        OutcomeModel::NotStarted(s) => "Failed to invoke wicket: "@ + s,
    }
}

/// Whether an answer can be cut: it is short enough, or a character begins where it is cut.
pub open spec fn can_be_cut(s: Seq<char>) -> bool {
    encode_utf8(s).len() <= ANSWER_LIMIT || is_char_boundary(encode_utf8(s), ANSWER_LIMIT as int)
}

/// An answer that is not too long.
pub open spec fn cut(s: Seq<char>) -> Seq<char> {
    if encode_utf8(s).len() <= ANSWER_LIMIT {
        s
    } else {
        decode_utf8(encode_utf8(s).subrange(0, ANSWER_LIMIT as int)) + "... (truncated)"@
    }
}

/// The whole answer.
pub fn answer_text(outcome: Outcome) -> (r: String)
    ensures
        r@ == full_answer(outcome@),
{
    match outcome {
        Outcome::Done(s) => s,
        Outcome::Failed(s) => {
            let mut r = "Error: ".to_owned();
            r.append(s.as_str());
            r
        },
        Outcome::NotStarted(s) => {
            let mut r = "Failed to invoke wicket: ".to_owned();
            r.append(s.as_str());
            r
        },
    }
}

/// Whether an answer can be cut.
pub fn answer_can_be_cut(answer: &str) -> (r: bool)
    ensures
        r == can_be_cut(answer@),
{
    answer.as_bytes().len() <= ANSWER_LIMIT || answer.is_char_boundary(ANSWER_LIMIT)
}

/// Cuts an answer that is too long.
pub fn cut_answer(answer: String) -> (r: String)
    requires
        can_be_cut(answer@),
    ensures
        r@ == cut(answer@),
{
    if answer.as_str().as_bytes().len() <= ANSWER_LIMIT {
        return answer;
    }
    let (start, _) = answer.as_str().split_at(ANSWER_LIMIT);
    proof {
        encode_utf8_decode_utf8(start@);
    }
    let mut r = start.to_owned();
    r.append("... (truncated)");
    r
}

// ---------------------------------------------------------------------------
// Laws
// ---------------------------------------------------------------------------

/// An agent never follows itself, so that it cannot keep itself busy.
pub proof fn law_agents_do_not_follow_themselves(
    a: AgentModel,
    m: MatrixMessageModel,
    is_dm: bool,
    state: AgentState,
)
    requires
        m.sender == a.user_id,
    ensures
        a.told(m, is_dm, state) == AgentActionModel::Ignore,
{
}

/// What an agent has worked on it does not work on again, nor on anything sent before.
pub proof fn law_nothing_is_worked_on_twice(
    a: AgentModel,
    m: MatrixMessageModel,
    is_dm: bool,
    before: AgentState,
)
    ensures
        a.told(m, is_dm, before) is Dispatch ==> m.timestamp > before.last_dispatch_ts && !(a.told(
            m,
            is_dm,
            AgentState { last_dispatch_ts: m.timestamp },
        ) is Dispatch),
{
}

/// In a room with others an agent works only on messages that mention it.
pub proof fn law_agents_speak_when_spoken_to(a: AgentModel, m: MatrixMessageModel, state: AgentState)
    requires
        !mentioned(trimmed(m.content), a.name),
        trimmed(m.content).len() > 0 ==> trimmed(m.content)[0] != '/',
    ensures
        a.told(m, false, state) == AgentActionModel::Ignore,
{
}

/// Short answers are sent as they are.
pub proof fn law_short_answers_stay(s: Seq<char>)
    requires
        encode_utf8(s).len() <= ANSWER_LIMIT,
    ensures
        can_be_cut(s),
        cut(s) == s,
{
}

/// Where the first character of a text stands that is no white space.
pub open spec fn begins_at(s: Seq<char>, i: int) -> bool {
    &&& 0 <= i < s.len()
    &&& !white_space(s[i])
    &&& forall|k: int| 0 <= k < i ==> white_space(s[k])
}

/// Whether a message is a command: its first character that is no white space is a slash.
pub open spec fn is_command(content: Seq<char>) -> bool {
    exists|i: int| #[trigger] begins_at(content, i) && content[i] == '/'
}

/// Whether a message says nothing: it is all white space.
pub open spec fn is_blank(content: Seq<char>) -> bool {
    forall|k: int| 0 <= k < content.len() ==> white_space(content[k])
}

proof fn lemma_trimmed_message(content: Seq<char>)
    ensures
        trimmed(content).len() == 0 <==> is_blank(content),
        (trimmed(content).len() > 0 && trimmed(content)[0] == '/') <==> is_command(content),
        trimmed(trimmed(content)) == trimmed(content),
{
    let (i, j) = law_trimming_takes_only_white_space(content);
    law_trimming_twice_is_trimming_once(content);
    let t = trimmed(content);
    if i < j {
        assert(t[0] == content[i]);
        assert(begins_at(content, i));
        if is_command(content) {
            let c = choose|c: int| #[trigger] begins_at(content, c) && content[c] == '/';
            assert(c == i) by {
                if c < i {
                    assert(white_space(content[c]));
                }
            }
        }
    } else if is_command(content) {
        let c = choose|c: int| #[trigger] begins_at(content, c) && content[c] == '/';
        assert(white_space(content[c]));
    }
}

/// A direct message that is no command is asked of the agent as it was written: the prompt is the
/// message without the white space at both ends and nothing else. It is one stretch of the message,
/// from the first character to the last that are no white space, over all lines; the places where
/// it begins and ends are returned.
pub proof fn law_direct_messages_are_asked_whole(
    a: AgentModel,
    m: MatrixMessageModel,
    state: AgentState,
) -> (r: (int, int))
    requires
        m.sender != a.user_id,
        !is_command(m.content),
        !is_blank(m.content),
        a.cwd is Some,
        m.timestamp > state.last_dispatch_ts,
    ensures
        0 <= r.0 < r.1 <= m.content.len(),
        a.told(m, true, state) == (AgentActionModel::Dispatch {
            prompt: m.content.subrange(r.0, r.1),
            cwd: a.cwd->0,
        }),
        forall|k: int| 0 <= k < r.0 ==> white_space(m.content[k]),
        forall|k: int| r.1 <= k < m.content.len() ==> white_space(m.content[k]),
        !white_space(m.content[r.0]),
        !white_space(m.content[r.1 - 1]),
{
    lemma_trimmed_message(m.content);
    law_trimming_takes_only_white_space(m.content)
}

/// An agent works only for others, only on messages sent since the last one it has worked on, only
/// in its own directory, and only on what says something: on direct messages, and in other rooms on
/// messages in which its name stands behind an at sign or at the start before a colon.
pub proof fn law_agents_work_on_what_is_asked(
    a: AgentModel,
    m: MatrixMessageModel,
    is_dm: bool,
    state: AgentState,
)
    ensures
        a.told(m, is_dm, state) matches AgentActionModel::Dispatch { prompt, cwd } ==> {
            let content = trimmed(m.content);
            &&& m.sender != a.user_id
            &&& m.timestamp > state.last_dispatch_ts
            &&& a.cwd == Some(cwd)
            &&& prompt.len() > 0
            &&& !is_command(m.content)
            &&& is_dm || has_text(lowercase(content), lowercase(seq!['@'] + a.name)) || (exists|c: int|
                0 <= c < content.len() && #[trigger] content[c] == ':' && stands_at(
                    lowercase(trimmed(content.take(c))),
                    lowercase(a.name),
                    0,
                ))
        },
{
    lemma_trimmed_message(m.content);
    let content = trimmed(m.content);
    lemma_place_of(content, ':');
    if addressed(content, a.name) {
        assert(content[place_of(content, ':')] == ':');
    }
}

/// What an agent answers where it cannot work on a message: it asks what is wanted if nothing was
/// said, says that it has no directory if it has none, and is silent about what was sent before the
/// last message that it has worked on.
pub proof fn law_agents_say_why_they_do_not_work(a: AgentModel, m: MatrixMessageModel, state: AgentState)
    requires
        m.sender != a.user_id,
        !is_command(m.content),
    ensures
        is_blank(m.content) ==> a.told(m, true, state) == (AgentActionModel::Reply {
            text: seq!['\u{1f44b}'] + " You mentioned me! What can I help with?"@,
        }),
        !is_blank(m.content) && a.cwd is None ==> a.told(m, true, state) == (AgentActionModel::Reply {
            text: "No working directory configured - can't invoke wicket"@,
        }),
        !is_blank(m.content) && a.cwd is Some && m.timestamp <= state.last_dispatch_ts ==> a.told(
            m,
            true,
            state,
        ) == AgentActionModel::Ignore,
{
    lemma_trimmed_message(m.content);
}

/// Commands are followed wherever they are given and whatever stands behind them: `/quit` ends the
/// agent and no other does, `/restart` and `/help` are answered, and anything else is passed over.
pub proof fn law_commands_are_followed(
    a: AgentModel,
    m: MatrixMessageModel,
    is_dm: bool,
    state: AgentState,
    word: Seq<char>,
)
    requires
        m.sender != a.user_id,
        word.len() > 0,
        word[0] == '/',
        !word.contains(' '),
        trimmed(m.content) == word || exists|rest: Seq<char>|
            trimmed(m.content) == #[trigger] (word.push(' ') + rest),
    ensures
        word == "/quit"@ ==> a.told(m, is_dm, state) == (AgentActionModel::ReplyAndQuit {
            text: "Shutting down..."@,
        }),
        word == "/restart"@ ==> a.told(m, is_dm, state) == (AgentActionModel::Reply {
            text: "Restart requested (not yet implemented)"@,
        }),
        word == "/help"@ ==> a.told(m, is_dm, state) == (AgentActionModel::Reply {
            text:
                "Available commands:\n- /quit - Shut down this agent\n- /restart - Restart this agent\n- /help - Show this message"@,
        }),
        word != "/quit"@ && word != "/restart"@ && word != "/help"@ ==> a.told(m, is_dm, state)
            == AgentActionModel::Ignore,
{
    reveal_strlit("/quit");
    reveal_strlit("/restart");
    reveal_strlit("/help");
    let content = trimmed(m.content);
    lemma_place_of(content, ' ');
    let n = place_of(content, ' ');
    assert(content.len() >= word.len() && content.take(word.len() as int) =~= word);
    assert(content[0] == word[0]);
    if n < word.len() {
        assert(word[n] == ' ');
        assert(word.contains(' '));
    }
    if content != word {
        let rest = choose|rest: Seq<char>| content == #[trigger] (word.push(' ') + rest);
        assert(content[word.len() as int] == ' ');
    }
    assert(command_word(content) =~= word);
    assert("/quit"@.len() == 5 && "/restart"@.len() == 8 && "/help"@.len() == 5);
    assert("/quit"@[1] != "/help"@[1]);
}

/// In a room with others, a message that begins with the agent's name, and has a colon somewhere behind
/// it, is asked of it without what stands up to the first colon.
pub proof fn law_addressed_messages_are_asked(
    a: AgentModel,
    m: MatrixMessageModel,
    state: AgentState,
    address: Seq<char>,
    rest: Seq<char>,
)
    requires
        m.sender != a.user_id,
        !is_command(m.content),
        trimmed(m.content) == address.push(':') + rest,
        !address.contains(':'),
        stands_at(lowercase(trimmed(address)), lowercase(a.name), 0),
        !is_blank(rest),
        a.cwd is Some,
        m.timestamp > state.last_dispatch_ts,
    ensures
        a.told(m, false, state) == (AgentActionModel::Dispatch {
            prompt: trimmed(rest),
            cwd: a.cwd->0,
        }),
{
    lemma_trimmed_message(m.content);
    lemma_trimmed_message(rest);
    let content = trimmed(m.content);
    lemma_place_of(content, ':');
    let c = place_of(content, ':');
    assert(content[address.len() as int] == ':');
    if c < address.len() {
        assert(address[c] == ':');
        assert(address.contains(':'));
    }
    assert(content.take(c) =~= address);
    assert(content.skip(c + 1) =~= rest);
}

/// In a room with others, a message in which the agent is mentioned is asked of it without the
/// mention: what stands before it and what stands behind it.
pub proof fn law_mentions_are_asked(
    a: AgentModel,
    m: MatrixMessageModel,
    state: AgentState,
    before: Seq<char>,
    after: Seq<char>,
)
    requires
        m.sender != a.user_id,
        !is_command(m.content),
        trimmed(m.content) == before + (seq!['@'] + a.name) + after,
        !trimmed(m.content).contains(':'),
        !before.contains('@'),
        !after.contains('@'),
        !has_text(before + after, lowercase(seq!['@'] + a.name)),
        has_text(lowercase(trimmed(m.content)), lowercase(seq!['@'] + a.name)),
        !is_blank(before + after),
        a.cwd is Some,
        m.timestamp > state.last_dispatch_ts,
    ensures
        a.told(m, false, state) == (AgentActionModel::Dispatch {
            prompt: trimmed(before + after),
            cwd: a.cwd->0,
        }),
{
    lemma_trimmed_message(m.content);
    lemma_trimmed_message(before + after);
    let content = trimmed(m.content);
    let needle = seq!['@'] + a.name;
    let low = lowercase(needle);
    lemma_place_of(content, ':');
    if place_of(content, ':') < content.len() {
        assert(content[place_of(content, ':')] == ':');
    }
    assert forall|i: int| 0 <= i < before.len() implies !(#[trigger] content.subrange(
        i,
        i + needle.len(),
    ) == needle) by {
        if content.subrange(i, i + needle.len()) == needle {
            assert(content.subrange(i, i + needle.len())[0] == '@');
            assert(before[i] == '@');
        }
    }
    law_taking_out(before, needle, after);
    assert forall|i: int| 0 <= i <= after.len() - needle.len() implies !(#[trigger] after.subrange(
        i,
        i + needle.len(),
    ) == needle) by {
        if after.subrange(i, i + needle.len()) == needle {
            assert(after.subrange(i, i + needle.len())[0] == '@');
            assert(after[i] == '@');
        }
    }
    law_nothing_to_take_out(after, needle);
    let rest = before + after;
    assert forall|i: int| 0 <= i <= rest.len() - low.len() implies !(#[trigger] rest.subrange(
        i,
        i + low.len(),
    ) == low) by {
        assert(!stands_at(rest, low, i));
    }
    law_nothing_to_take_out(rest, low);
}

/// An answer that is too long is cut where four thousand bytes of it are full, and says so: what is
/// sent is the beginning of the answer and the note.
pub proof fn law_long_answers_are_cut(s: Seq<char>)
    requires
        can_be_cut(s),
        encode_utf8(s).len() > 4000,
    ensures
        ({
            let start = decode_utf8(encode_utf8(s).subrange(0, 4000));
            let rest = decode_utf8(encode_utf8(s).skip(4000));
            &&& cut(s) == start + "... (truncated)"@
            &&& s == start + rest
            &&& encode_utf8(start).len() == 4000
        }),
{
    let bytes = encode_utf8(s);
    encode_utf8_valid_utf8(s);
    encode_utf8_decode_utf8(s);
    valid_utf8_split(bytes, 4000);
    decode_utf8_split(bytes, 4000);
    decode_utf8_encode_utf8(bytes.subrange(0, 4000));
    assert(bytes.skip(4000) =~= bytes.subrange(4000, bytes.len() as int));
}

/// The answer tells how the program that answers has ended: its output if it ended well, and else
/// what went wrong, with its complaints.
pub proof fn law_answers_tell_what_happened(s: Seq<char>)
    ensures
        full_answer(OutcomeModel::Done(s)) == s,
        full_answer(OutcomeModel::Failed(s)) == "Error: "@ + s,
        full_answer(OutcomeModel::NotStarted(s)) == "Failed to invoke wicket: "@ + s,
{
}

/// What an agent does about a message in a room with others in which it is meant. Whether it is
/// addressed is seen by what stands before the first colon; if it is, the address is not asked, and
/// if not, its mentions are not. Where nothing is left it asks what is wanted, without a directory it
/// says that it has none, what it has worked on it passes over, and on anything else it works.
pub proof fn law_what_agents_do_when_they_are_meant(
    a: AgentModel,
    m: MatrixMessageModel,
    state: AgentState,
    colon: int,
)
    requires
        m.sender != a.user_id,
        !is_command(m.content),
        0 <= colon <= trimmed(m.content).len(),
        colon < trimmed(m.content).len() ==> trimmed(m.content)[colon] == ':',
        forall|k: int| 0 <= k < colon ==> trimmed(m.content)[k] != ':',
    ensures
        ({
            let content = trimmed(m.content);
            let name = seq!['@'] + a.name;
            let to_it = colon < content.len() && stands_at(
                lowercase(trimmed(content.take(colon))),
                lowercase(a.name),
                0,
            );
            let named = has_text(lowercase(content), lowercase(name));
            let prompt = if to_it {
                trimmed(content.skip(colon + 1))
            } else {
                trimmed(without(without(content, name), lowercase(name)))
            };
            a.told(m, false, state) == if !to_it && !named {
                AgentActionModel::Ignore
            } else if prompt.len() == 0 {
                AgentActionModel::Reply {
                    text: seq!['\u{1f44b}'] + " You mentioned me! What can I help with?"@,
                }
            } else if a.cwd is None {
                AgentActionModel::Reply {
                    text: "No working directory configured - can't invoke wicket"@,
                }
            } else if m.timestamp <= state.last_dispatch_ts {
                AgentActionModel::Ignore
            } else {
                AgentActionModel::Dispatch { prompt, cwd: a.cwd->0 }
            }
        }),
{
    lemma_trimmed_message(m.content);
    let content = trimmed(m.content);
    lemma_place_of(content, ':');
    let p = place_of(content, ':');
    assert(p == colon) by {
        if p < colon {
            assert(content[p] != ':');
        }
        if colon < p {
            assert(content[colon] != ':');
        }
    }
}

} // verus!
