//! Finding a room or an agent by name.

use vstd::prelude::*;
use vstd::string::*;

use crate::pty::{ActivityState, PtyStatus};
use crate::room_view::{room_models, RoomModel, RoomView};
use crate::text::{
    chars_of, contains, has_text, is_listing, lemma_listing_complete,
    lemma_listing_exists, listing, listing_of, lowercase, stands_at,
    name_le, places, texts,
};
use crate::ui::{
    item_models, one_line, parts_of, span, span_models, spec_one_line, spec_span, split_area, Color,
    Extent, Item, ItemModel, Rect, Span, Style,
};

verus! {

/// Something with a name that may have something new to show.
pub trait HasNameActivity {
    /// The name.
    spec fn spec_name(&self) -> Seq<char>;

    /// Whether there is something new.
    spec fn spec_activity(&self) -> ActivityState;

    /// The name.
    fn name(&self) -> (r: &str)
        ensures
            r@ == self.spec_name(),
    ;

    /// Whether there is something new.
    fn activity(&self) -> (r: &ActivityState)
        ensures
            *r == self.spec_activity(),
    ;
}

/// Something with a process.
pub trait HasPtyStatus {
    /// Whether the process lives.
    spec fn spec_pty_status(&self) -> PtyStatus;

    /// Whether the process lives.
    fn pty_status(&self) -> (r: &PtyStatus)
        ensures
            *r == self.spec_pty_status(),
    ;
}

/// An agent with a name.
pub trait HasAgentName {
    /// The name.
    spec fn spec_agent_name(&self) -> Seq<char>;

    /// The place of the room for talking to it, if that room is open.
    spec fn spec_dm_room_idx(&self) -> Option<usize>;

    /// The name.
    fn agent_name(&self) -> (r: &str)
        ensures
            r@ == self.spec_agent_name(),
    ;

    /// The place of the room for talking to it, if that room is open.
    fn dm_room_idx(&self) -> (r: Option<usize>)
        ensures
            r == self.spec_dm_room_idx(),
    ;
}

/// An agent that may have something new to show.
pub trait HasAgentActivity {
    /// Whether it has, in these rooms.
    spec fn spec_has_activity(&self, rooms: Seq<RoomModel>) -> bool;

    /// Whether it has, in these rooms.
    fn has_activity(&self, rooms: &[RoomView]) -> (r: bool)
        ensures
            r == self.spec_has_activity(room_models(rooms@)),
    ;
}

/// An agent where there is none.
pub struct NoAgent;

impl HasAgentName for NoAgent {
    open spec fn spec_agent_name(&self) -> Seq<char> {
        Seq::empty()
    }

    open spec fn spec_dm_room_idx(&self) -> Option<usize> {
        None
    }

    fn agent_name(&self) -> &str {
        proof {
            reveal_strlit("");
        }
        assert(""@ =~= Seq::<char>::empty());
        ""
    }

    fn dm_room_idx(&self) -> Option<usize> {
        None
    }
}

impl HasAgentActivity for NoAgent {
    open spec fn spec_has_activity(&self, rooms: Seq<RoomModel>) -> bool {
        false
    }

    fn has_activity(&self, rooms: &[RoomView]) -> bool {
        false
    }
}

// ---------------------------------------------------------------------------
// What is found
// ---------------------------------------------------------------------------

/// Something that was found.
#[derive(Clone, Copy, Debug, PartialEq, Eq, Structural)]
pub enum PickerItem {
    /// The room in this place.
    Channel(usize),
    /// The agent in this place.
    Agent(usize),
}

/// Whether the room in a place is one for talking to an agent.
pub open spec fn is_dm<A: HasAgentName>(agents: Seq<A>, i: int) -> bool {
    exists|a: int| 0 <= a < agents.len() && #[trigger] agents[a].spec_dm_room_idx() == Some(i as usize)
}

/// Whether a name holds what is searched, in upper or lower case.
pub open spec fn matches_query(name: Seq<char>, query: Seq<char>) -> bool {
    has_text(lowercase(name), lowercase(query))
}

/// Whether a room is found. Without a query those are found that have something new.
pub open spec fn room_found<A: HasAgentName>(
    rooms: Seq<RoomModel>,
    agents: Seq<A>,
    query: Seq<char>,
    i: int,
) -> bool {
    &&& !is_dm(agents, i)
    &&& if query.len() == 0 {
        rooms[i].activity() is Active
    } else {
        matches_query(rooms[i].name, query)
    }
}

/// Whether an agent is found. Without a query all are.
pub open spec fn agent_found<A: HasAgentName>(agents: Seq<A>, query: Seq<char>, i: int) -> bool {
    query.len() == 0 || matches_query(agents[i].spec_agent_name(), query)
}

/// The rooms that are found among the first `n`.
pub open spec fn rooms_found<A: HasAgentName>(
    rooms: Seq<RoomModel>,
    agents: Seq<A>,
    query: Seq<char>,
    n: nat,
) -> Seq<PickerItem>
    decreases n,
{
    if n == 0 {
        Seq::empty()
    } else {
        let before = rooms_found(rooms, agents, query, (n - 1) as nat);
        if room_found(rooms, agents, query, n - 1) {
            before.push(PickerItem::Channel((n - 1) as usize))
        } else {
            before
        }
    }
}

/// The agents that are found among the first `n`.
pub open spec fn agents_found<A: HasAgentName>(agents: Seq<A>, query: Seq<char>, n: nat) -> Seq<PickerItem>
    decreases n,
{
    if n == 0 {
        Seq::empty()
    } else {
        let before = agents_found(agents, query, (n - 1) as nat);
        if agent_found(agents, query, n - 1) {
            before.push(PickerItem::Agent((n - 1) as usize))
        } else {
            before
        }
    }
}

/// The name of what was found.
pub open spec fn item_name<A: HasAgentName>(rooms: Seq<RoomModel>, agents: Seq<A>, item: PickerItem) -> Seq<char> {
    match item {
        PickerItem::Channel(i) => rooms[i as int].name,
        PickerItem::Agent(i) => agents[i as int].spec_agent_name(),
    }
}

/// The names of what was found.
pub open spec fn item_names<A: HasAgentName>(
    rooms: Seq<RoomModel>,
    agents: Seq<A>,
    items: Seq<PickerItem>,
) -> Seq<Seq<char>> {
    items.map_values(|item: PickerItem| item_name(rooms, agents, item))
}

/// What was found, listed by name.
pub open spec fn by_name<A: HasAgentName>(
    rooms: Seq<RoomModel>,
    agents: Seq<A>,
    items: Seq<PickerItem>,
) -> Seq<PickerItem> {
    listing_of(item_names(rooms, agents, items)).map_values(|k: int| items[k])
}

/// What is found, as it is listed: without a query the rooms by name and then the agents
/// by name, with one both together by name.
pub open spec fn found<A: HasAgentName>(rooms: Seq<RoomModel>, agents: Seq<A>, query: Seq<char>) -> Seq<PickerItem> {
    let channels = rooms_found(rooms, agents, query, rooms.len());
    let others = agents_found(agents, query, agents.len());
    if query.len() == 0 {
        by_name(rooms, agents, channels) + by_name(rooms, agents, others)
    } else {
        by_name(rooms, agents, channels + others)
    }
}

/// Whether what was found is there.
pub open spec fn item_exists<A: HasAgentName>(rooms: Seq<RoomModel>, agents: Seq<A>, item: PickerItem) -> bool {
    match item {
        PickerItem::Channel(i) => i < rooms.len(),
        PickerItem::Agent(i) => i < agents.len(),
    }
}

/// Whether all that was found is there.
pub open spec fn items_exist<A: HasAgentName>(rooms: Seq<RoomModel>, agents: Seq<A>, items: Seq<PickerItem>) -> bool {
    forall|k: int| 0 <= k < items.len() ==> item_exists(rooms, agents, #[trigger] items[k])
}

/// A search for a room or an agent.
pub struct Picker {
    /// What is searched.
    pub query: String,
    /// Which of the things found is chosen.
    pub selected: usize,
    /// What is found.
    pub filtered: Vec<PickerItem>,
}

/// A search, as a value.
#[verifier::ext_equal]
pub struct PickerModel {
    pub query: Seq<char>,
    pub selected: nat,
    pub filtered: Seq<PickerItem>,
}

impl View for Picker {
    type V = PickerModel;

    open spec fn view(&self) -> PickerModel {
        PickerModel {
            query: self.query@,
            selected: self.selected as nat,
            filtered: self.filtered@,
        }
    }
}

impl PickerModel {
    /// A search that has just been made, with the first thing found chosen.
    pub open spec fn search<A: HasAgentName>(rooms: Seq<RoomModel>, agents: Seq<A>, query: Seq<char>) -> PickerModel {
        PickerModel { query, selected: 0, filtered: found(rooms, agents, query) }
    }

    /// What is chosen.
    pub open spec fn chosen(self) -> Option<PickerItem> {
        if self.selected < self.filtered.len() {
            Some(self.filtered[self.selected as int])
        } else {
            None
        }
    }

    /// The search with the one before chosen, if there is one.
    pub open spec fn up(self) -> PickerModel {
        PickerModel {
            selected: if self.selected > 0 {
                (self.selected - 1) as nat
            } else {
                0
            },
            ..self
        }
    }

    /// The search with the one after chosen, if there is one.
    pub open spec fn down(self) -> PickerModel {
        PickerModel {
            selected: if self.selected + 1 < self.filtered.len() {
                self.selected + 1
            } else {
                self.selected
            },
            ..self
        }
    }
}

impl Picker {
    /// A search for nothing yet.
    pub fn new() -> (p: Picker)
        ensures
            p.query@ == Seq::<char>::empty(),
            p.selected == 0,
            p.filtered@ == Seq::<PickerItem>::empty(),
    {
        Picker { query: String::new(), selected: 0, filtered: Vec::new() }
    }

    /// What is chosen.
    pub fn selected_item(&self) -> (r: Option<PickerItem>)
        ensures
            r == self@.chosen(),
    {
        if self.selected < self.filtered.len() {
            Some(self.filtered[self.selected])
        } else {
            None
        }
    }

    /// Chooses the one before, if there is one.
    pub fn move_up(&mut self)
        ensures
            final(self)@ == old(self)@.up(),
    {
        if self.selected > 0 {
            self.selected = self.selected - 1;
        }
    }

    /// Chooses the one after, if there is one.
    pub fn move_down(&mut self)
        ensures
            final(self)@ == old(self)@.down(),
    {
        let n = self.filtered.len();
        if self.selected < n && self.selected + 1 < n {
            self.selected = self.selected + 1;
        }
    }

    /// Searches again.
    pub fn update_filter<A: HasAgentName>(&mut self, rooms: &[RoomView], agents: &[A])
        ensures
            final(self).query@ == old(self).query@,
            final(self).filtered@ == found(room_models(rooms@), agents@, old(self).query@),
            final(self).selected == if old(self).selected < final(self).filtered@.len() {
                old(self).selected as int
            } else if final(self).filtered@.len() > 0 {
                final(self).filtered@.len() - 1
            } else {
                0
            },
            items_exist(room_models(rooms@), agents@, final(self).filtered@),
    {
        let mut channels = find_rooms(rooms, agents, self.query.as_str());
        let mut others = find_agents(agents, self.query.as_str());
        let ghost cs = channels@;
        let ghost os = others@;
        proof {
            lemma_rooms_found_exist(room_models(rooms@), agents@, self.query@, room_models(rooms@).len());
            lemma_agents_found_exist(room_models(rooms@), agents@, self.query@, agents@.len());
        }
        if self.query.as_str().is_empty() {
            let mut sorted = sort_by_name(rooms, agents, &channels);
            let mut sorted_others = sort_by_name(rooms, agents, &others);
            sorted.append(&mut sorted_others);
            self.filtered = sorted;
        } else {
            channels.append(&mut others);
            assert(items_exist(room_models(rooms@), agents@, channels@));
            self.filtered = sort_by_name(rooms, agents, &channels);
        }
        if self.selected >= self.filtered.len() {
            self.selected = self.filtered.len().saturating_sub(1);
        }
    }
}

proof fn lemma_rooms_found_exist<A: HasAgentName>(
    rooms: Seq<RoomModel>,
    agents: Seq<A>,
    query: Seq<char>,
    n: nat,
)
    requires
        n <= rooms.len() <= usize::MAX,
    ensures
        items_exist(rooms, agents, rooms_found(rooms, agents, query, n)),
        forall|k: int|
            0 <= k < rooms_found(rooms, agents, query, n).len() ==> {
                &&& #[trigger] rooms_found(rooms, agents, query, n)[k] is Channel
                &&& rooms_found(rooms, agents, query, n)[k]->Channel_0 < n
                &&& room_found(rooms, agents, query, rooms_found(rooms, agents, query, n)[k]->Channel_0 as int)
            },
    decreases n,
{
    if n > 0 {
        lemma_rooms_found_exist(rooms, agents, query, (n - 1) as nat);
    }
}

proof fn lemma_agents_found_exist<A: HasAgentName>(
    rooms: Seq<RoomModel>,
    agents: Seq<A>,
    query: Seq<char>,
    n: nat,
)
    requires
        n <= agents.len() <= usize::MAX,
    ensures
        items_exist(rooms, agents, agents_found(agents, query, n)),
        forall|k: int|
            0 <= k < agents_found(agents, query, n).len() ==> {
                &&& #[trigger] agents_found(agents, query, n)[k] is Agent
                &&& agents_found(agents, query, n)[k]->Agent_0 < n
                &&& agent_found(agents, query, agents_found(agents, query, n)[k]->Agent_0 as int)
            },
    decreases n,
{
    if n > 0 {
        lemma_agents_found_exist(rooms, agents, query, (n - 1) as nat);
    }
}

/// Whether the room in a place is one for talking to an agent.
fn room_is_dm<A: HasAgentName>(agents: &[A], i: usize) -> (r: bool)
    ensures
        r == is_dm(agents@, i as int),
{
    let mut a: usize = 0;
    while a < agents.len()
        invariant
            a <= agents@.len(),
            forall|k: int| 0 <= k < a ==> #[trigger] agents@[k].spec_dm_room_idx() != Some(i),
        decreases agents@.len() - a,
    {
        if let Some(dm) = agents[a].dm_room_idx() {
            if dm == i {
                assert(agents@[a as int].spec_dm_room_idx() == Some(i));
                return true;
            }
        }
        a = a + 1;
    }
    false
}

/// Whether a name holds what is searched.
fn name_matches(name: &str, query: &str) -> (r: bool)
    ensures
        r == matches_query(name@, query@),
{
    let lower = name.to_lowercase();
    let query_lower = query.to_lowercase();
    contains(chars_of(lower.as_str()).as_slice(), chars_of(query_lower.as_str()).as_slice())
}

/// Finds rooms.
fn find_rooms<A: HasAgentName>(rooms: &[RoomView], agents: &[A], query: &str) -> (r: Vec<PickerItem>)
    ensures
        r@ == rooms_found(room_models(rooms@), agents@, query@, room_models(rooms@).len()),
        room_models(rooms@).len() <= usize::MAX,
{
    let len = rooms.len();
    let mut r: Vec<PickerItem> = Vec::new();
    let mut i: usize = 0;
    while i < len
        invariant
            i <= len == room_models(rooms@).len(),
            r@ == rooms_found(room_models(rooms@), agents@, query@, i as nat),
        decreases len - i,
    {
        let found = if query.is_empty() {
            rooms[i].activity().is_active()
        } else {
            name_matches(rooms[i].name.as_str(), query)
        };
        if found && !room_is_dm(agents, i) {
            r.push(PickerItem::Channel(i));
        }
        i = i + 1;
    }
    r
}

/// Finds agents.
fn find_agents<A: HasAgentName>(agents: &[A], query: &str) -> (r: Vec<PickerItem>)
    ensures
        r@ == agents_found(agents@, query@, agents@.len()),
        agents@.len() <= usize::MAX,
{
    let len = agents.len();
    let mut r: Vec<PickerItem> = Vec::new();
    let mut i: usize = 0;
    while i < len
        invariant
            i <= len == agents@.len(),
            r@ == agents_found(agents@, query@, i as nat),
        decreases len - i,
    {
        if query.is_empty() || name_matches(agents[i].agent_name(), query) {
            r.push(PickerItem::Agent(i));
        }
        i = i + 1;
    }
    r
}

/// Lists what was found by name.
fn sort_by_name<A: HasAgentName>(rooms: &[RoomView], agents: &[A], items: &Vec<PickerItem>) -> (r: Vec<PickerItem>)
    requires
        items_exist(room_models(rooms@), agents@, items@),
    ensures
        r@ == by_name(room_models(rooms@), agents@, items@),
        items_exist(room_models(rooms@), agents@, r@),
{
    let ghost wanted = item_names(room_models(rooms@), agents@, items@);
    let mut names: Vec<String> = Vec::new();
    let mut i: usize = 0;
    while i < items.len()
        invariant
            i <= items@.len(),
            items_exist(room_models(rooms@), agents@, items@),
            wanted == item_names(room_models(rooms@), agents@, items@),
            names@.len() == i,
            forall|k: int| 0 <= k < i ==> (#[trigger] names@[k])@ == wanted[k],
        decreases items@.len() - i,
    {
        assert(item_exists(room_models(rooms@), agents@, items@[i as int]));
        let name = match items[i] {
            PickerItem::Channel(c) => rooms[c].name.clone(),
            PickerItem::Agent(a) => agents[a].agent_name().to_owned(),
        };
        names.push(name);
        i = i + 1;
    }
    assert(texts(names@) =~= wanted);
    let order = listing(&names);
    let ghost ls = listing_of(wanted);
    assert(places(order@) == ls);
    let mut r: Vec<PickerItem> = Vec::new();
    let mut k: usize = 0;
    while k < order.len()
        invariant
            k <= order@.len() == ls.len(),
            ls == listing_of(wanted),
            ls == places(order@),
            is_listing(wanted, ls),
            wanted.len() == items@.len(),
            items_exist(room_models(rooms@), agents@, items@),
            r@.len() == k,
            forall|j: int| 0 <= j < k ==> #[trigger] r@[j] == items@[ls[j]],
            items_exist(room_models(rooms@), agents@, r@),
        decreases order@.len() - k,
    {
        assert(0 <= ls[k as int] < wanted.len());
        assert(ls[k as int] == order@[k as int]);
        assert(item_exists(room_models(rooms@), agents@, items@[ls[k as int]]));
        r.push(items[order[k]]);
        k = k + 1;
    }
    assert(r@ =~= by_name(room_models(rooms@), agents@, items@));
    r
}

// ---------------------------------------------------------------------------
// How it is shown
// ---------------------------------------------------------------------------

/// Where pickers come from.
pub struct PickerWidget;

impl PickerWidget {
    /// A search among rooms and agents, ready to be shown.
    pub fn from_rooms_and_agents<'a, A: HasAgentName + HasAgentActivity>(
        picker: &'a Picker,
        rooms: &'a [RoomView],
        agents: &'a [A],
    ) -> (w: RoomPickerWidget<'a, A>)
        ensures
            w.picker == picker,
            w.rooms == rooms,
            w.agents == agents,
    {
        RoomPickerWidget { picker, rooms, agents }
    }
}

/// A search, ready to be shown.
pub struct RoomPickerWidget<'a, A: HasAgentName + HasAgentActivity = NoAgent> {
    pub picker: &'a Picker,
    pub rooms: &'a [RoomView],
    pub agents: &'a [A],
}

/// The area of the picker in the middle of the screen, a quarter of the room above it.
pub open spec fn picker_area(area: Rect) -> Rect {
    let w = if area.width < 4 {
        0int
    } else if area.width - 4 < 50 {
        area.width - 4
    } else {
        50
    };
    let h = if area.height < 4 {
        0int
    } else if area.height - 4 < 14 {
        area.height - 4
    } else {
        14
    };
    Rect {
        x: (area.x + (area.width - w) / 2) as u16,
        y: (area.y + (area.height - h) / 4) as u16,
        width: w as u16,
        height: h as u16,
    }
}

/// The line in which the query is typed.
pub open spec fn query_text(query: Seq<char>) -> Seq<char> {
    if query.len() == 0 {
        " > Type to search..."@
    } else {
        seq![' ', '>', ' '] + query
    }
}

/// The entry shown where nothing is found.
pub open spec fn nothing_found(query: Seq<char>) -> ItemModel {
    spec_one_line(
        seq![
            spec_span(
                if query.len() == 0 {
                    seq![' ', ' ', ' ', '\u{25cf}'] + " No rooms with activity"@
                } else {
                    "   No matching items"@
                },
                Style::spec_plain(),
            ),
        ],
        Style::spec_colored(Color::DarkGray).spec_italic(),
    )
}

/// Whether what was found has something new to show.
pub open spec fn item_active<A: HasAgentName + HasAgentActivity>(
    rooms: Seq<RoomModel>,
    agents: Seq<A>,
    item: PickerItem,
) -> bool {
    match item {
        PickerItem::Channel(i) => rooms[i as int].activity() is Active,
        PickerItem::Agent(i) => agents[i as int].spec_has_activity(rooms),
    }
}

/// The text of an entry: a mark if it is chosen, `#` or `@`, its name, and a dot if it has
/// something new.
pub open spec fn item_text<A: HasAgentName + HasAgentActivity>(
    rooms: Seq<RoomModel>,
    agents: Seq<A>,
    item: PickerItem,
    is_selected: bool,
) -> Seq<char> {
    (if is_selected {
        seq![' ', '\u{25b8}', ' ']
    } else {
        seq![' ', ' ', ' ']
    }) + (if item is Channel {
        seq!['#']
    } else {
        seq!['@']
    }) + item_name(rooms, agents, item) + (if item_active(rooms, agents, item) {
        seq![' ', '\u{25cf}']
    } else {
        Seq::empty()
    })
}

/// An entry of the picker.
pub open spec fn picker_item<A: HasAgentName + HasAgentActivity>(
    rooms: Seq<RoomModel>,
    agents: Seq<A>,
    item: PickerItem,
    is_selected: bool,
) -> ItemModel {
    spec_one_line(
        seq![spec_span(item_text(rooms, agents, item, is_selected), Style::spec_plain())],
        if is_selected {
            Style::spec_colored(Color::Cyan).spec_bold()
        } else {
            Style::spec_colored(Color::White)
        },
    )
}

impl<'a, A: HasAgentName + HasAgentActivity> RoomPickerWidget<'a, A> {
    /// The area of the picker.
    pub fn area(&self, area: Rect) -> (r: Rect)
        requires
            area.x + area.width <= u16::MAX,
            area.y + area.height <= u16::MAX,
        ensures
            r == picker_area(area),
    {
        let w: u16 = if area.width < 4 {
            0
        } else if area.width - 4 < 50 {
            area.width - 4
        } else {
            50
        };
        let h: u16 = if area.height < 4 {
            0
        } else if area.height - 4 < 14 {
            area.height - 4
        } else {
            14
        };
        Rect {
            x: area.x + (area.width - w) / 2,
            y: area.y + (area.height - h) / 4,
            width: w,
            height: h,
        }
    }

    /// The areas of the query and of what is found.
    pub fn areas(&self, area: Rect) -> (r: (Rect, Rect))
        requires
            area.x + area.width <= u16::MAX,
            area.y + area.height <= u16::MAX,
        ensures
            r == parts_of(picker_area(area), true, Extent::Length(3), Extent::AtLeast(0)),
    {
        split_area(self.area(area), true, Extent::Length(3), Extent::AtLeast(0))
    }

    /// The line in which the query is typed, and its style.
    pub fn query_line(&self) -> (r: (String, Style))
        ensures
            r.0@ == query_text(self.picker.query@),
            r.1 == if self.picker.query@.len() == 0 {
                Style::spec_colored(Color::DarkGray)
            } else {
                Style::spec_colored(Color::White)
            },
    {
        if self.picker.query.as_str().is_empty() {
            (" > Type to search...".to_owned(), Style::colored(Color::DarkGray))
        } else {
            let mut text = String::new();
            text.push(' ');
            text.push('>');
            text.push(' ');
            text.append(self.picker.query.as_str());
            assert(text@ =~= query_text(self.picker.query@));
            (text, Style::colored(Color::White))
        }
    }

    /// The entries.
    pub fn items(&self) -> (r: Vec<Item>)
        requires
            items_exist(room_models(self.rooms@), self.agents@, self.picker.filtered@),
        ensures
            self.picker.filtered@.len() == 0 ==> item_models(r@) == seq![
                nothing_found(self.picker.query@),
            ],
            self.picker.filtered@.len() > 0 ==> item_models(r@) == Seq::new(
                self.picker.filtered@.len(),
                |i: int|
                    picker_item(
                        room_models(self.rooms@),
                        self.agents@,
                        self.picker.filtered@[i],
                        i == self.picker.selected,
                    ),
            ),
    {
        let mut r: Vec<Item> = Vec::new();
        if self.picker.filtered.len() == 0 {
            let mut text = String::new();
            if self.picker.query.as_str().is_empty() {
                text.push(' ');
                text.push(' ');
                text.push(' ');
                text.push('\u{25cf}');
                text.append(" No rooms with activity");
                assert(text@ =~= seq![' ', ' ', ' ', '\u{25cf}'] + " No rooms with activity"@);
            } else {
                text.append("   No matching items");
                assert(text@ =~= "   No matching items"@);
            }
            let mut spans: Vec<Span> = Vec::new();
            spans.push(span(text.as_str(), Style::plain()));
            assert(span_models(spans@) =~= nothing_found(self.picker.query@).lines[0].spans);
            r.push(one_line(spans, Style::colored(Color::DarkGray).italic()));
            assert(item_models(r@) =~= seq![nothing_found(self.picker.query@)]);
            return r;
        }
        let mut i: usize = 0;
        while i < self.picker.filtered.len()
            invariant
                i <= self.picker.filtered@.len(),
                items_exist(room_models(self.rooms@), self.agents@, self.picker.filtered@),
                r@.len() == i,
                forall|k: int|
                    0 <= k < i ==> (#[trigger] r@[k])@ == picker_item(
                        room_models(self.rooms@),
                        self.agents@,
                        self.picker.filtered@[k],
                        k == self.picker.selected,
                    ),
            decreases self.picker.filtered@.len() - i,
        {
            assert(item_exists(room_models(self.rooms@), self.agents@, self.picker.filtered@[i as int]));
            r.push(self.item(self.picker.filtered[i], i == self.picker.selected));
            i = i + 1;
        }
        assert(item_models(r@) =~= Seq::new(
            self.picker.filtered@.len(),
            |i: int|
                picker_item(
                    room_models(self.rooms@),
                    self.agents@,
                    self.picker.filtered@[i],
                    i == self.picker.selected,
                ),
        ));
        r
    }

    /// One entry.
    fn item(&self, item: PickerItem, is_selected: bool) -> (r: Item)
        requires
            item_exists(room_models(self.rooms@), self.agents@, item),
        ensures
            r@ == picker_item(room_models(self.rooms@), self.agents@, item, is_selected),
    {
        let mut text = String::new();
        text.push(' ');
        text.push(if is_selected { '\u{25b8}' } else { ' ' });
        text.push(' ');
        let active = match item {
            PickerItem::Channel(i) => {
                text.push('#');
                text.append(self.rooms[i].name.as_str());
                self.rooms[i].activity().is_active()
            },
            PickerItem::Agent(i) => {
                text.push('@');
                text.append(self.agents[i].agent_name());
                self.agents[i].has_activity(self.rooms)
            },
        };
        if active {
            text.push(' ');
            text.push('\u{25cf}');
        }
        assert(text@ =~= item_text(room_models(self.rooms@), self.agents@, item, is_selected));
        let mut spans: Vec<Span> = Vec::new();
        spans.push(span(text.as_str(), Style::plain()));
        assert(span_models(spans@) =~= seq![
            spec_span(item_text(room_models(self.rooms@), self.agents@, item, is_selected), Style::spec_plain()),
        ]);
        one_line(
            spans,
            if is_selected {
                Style::colored(Color::Cyan).bold()
            } else {
                Style::colored(Color::White)
            },
        )
    }
}

// ---------------------------------------------------------------------------
// Laws
// ---------------------------------------------------------------------------

proof fn lemma_by_name<A: HasAgentName>(rooms: Seq<RoomModel>, agents: Seq<A>, items: Seq<PickerItem>)
    requires
        exists|order: Seq<int>| is_listing(item_names(rooms, agents, items), order),
    ensures
        by_name(rooms, agents, items).len() == items.len(),
        forall|k: int|
            0 <= k < items.len() ==> items.contains(#[trigger] by_name(rooms, agents, items)[k]),
        forall|i: int| 0 <= i < items.len() ==> by_name(rooms, agents, items).contains(#[trigger] items[i]),
        forall|k: int, l: int|
            0 <= k < l < items.len() ==> name_le(
                item_name(rooms, agents, #[trigger] by_name(rooms, agents, items)[k]),
                item_name(rooms, agents, #[trigger] by_name(rooms, agents, items)[l]),
            ),
{
    let names = item_names(rooms, agents, items);
    let ls = listing_of(names);
    let sorted = by_name(rooms, agents, items);
    assert forall|k: int| 0 <= k < items.len() implies items.contains(#[trigger] sorted[k]) by {
        assert(0 <= ls[k] < names.len());
        assert(sorted[k] == items[ls[k]]);
    }
    assert forall|i: int| 0 <= i < items.len() implies sorted.contains(#[trigger] items[i]) by {
        lemma_listing_complete(names, ls, i);
        let k = choose|k: int| 0 <= k < ls.len() && ls[k] == i;
        assert(sorted[k] == items[i]);
    }
    assert forall|k: int, l: int| 0 <= k < l < items.len() implies name_le(
        item_name(rooms, agents, #[trigger] sorted[k]),
        item_name(rooms, agents, #[trigger] sorted[l]),
    ) by {
        assert(0 <= ls[k] < names.len() && 0 <= ls[l] < names.len());
        assert(crate::text::listed_before(names, ls[k], ls[l]));
        assert(names[ls[k]] == item_name(rooms, agents, items[ls[k]]));
        assert(names[ls[l]] == item_name(rooms, agents, items[ls[l]]));
    }
}

/// A room for talking to an agent is never found as a room, and with a query only what
/// holds it is found.
pub proof fn law_found_items_match<A: HasAgentName>(
    rooms: Seq<RoomModel>,
    agents: Seq<A>,
    query: Seq<char>,
    k: int,
)
    requires
        rooms.len() <= usize::MAX,
        agents.len() <= usize::MAX,
        0 <= k < found(rooms, agents, query).len(),
    ensures
        match found(rooms, agents, query)[k] {
            PickerItem::Channel(i) => i < rooms.len() && room_found(rooms, agents, query, i as int),
            PickerItem::Agent(i) => i < agents.len() && agent_found(agents, query, i as int),
        },
{
    let channels = rooms_found(rooms, agents, query, rooms.len());
    let others = agents_found(agents, query, agents.len());
    lemma_rooms_found_exist(rooms, agents, query, rooms.len());
    lemma_agents_found_exist(rooms, agents, query, agents.len());
    lemma_listing_exists(item_names(rooms, agents, channels));
    lemma_listing_exists(item_names(rooms, agents, others));
    lemma_listing_exists(item_names(rooms, agents, channels + others));
    lemma_by_name(rooms, agents, channels);
    lemma_by_name(rooms, agents, others);
    lemma_by_name(rooms, agents, channels + others);
    let item = found(rooms, agents, query)[k];
    if query.len() == 0 {
        if k < channels.len() {
            assert(channels.contains(item));
        } else {
            assert(item == by_name(rooms, agents, others)[k - channels.len()]);
            assert(others.contains(item));
        }
    } else {
        assert((channels + others).contains(item));
        let j = choose|j: int| 0 <= j < (channels + others).len() && (channels + others)[j] == item;
        if j < channels.len() {
            assert(channels[j] == item);
        } else {
            assert(others[j - channels.len()] == item);
        }
    }
}

/// Everything that is to be found is found: the rooms that have something new and all
/// agents where nothing is searched, and what holds the query where something is.
pub proof fn law_everything_is_found<A: HasAgentName>(
    rooms: Seq<RoomModel>,
    agents: Seq<A>,
    query: Seq<char>,
    i: int,
)
    requires
        rooms.len() <= usize::MAX,
        agents.len() <= usize::MAX,
    ensures
        0 <= i < rooms.len() && room_found(rooms, agents, query, i) ==> found(rooms, agents, query).contains(
            PickerItem::Channel(i as usize),
        ),
        0 <= i < agents.len() && agent_found(agents, query, i) ==> found(rooms, agents, query).contains(
            PickerItem::Agent(i as usize),
        ),
{
    let channels = rooms_found(rooms, agents, query, rooms.len());
    let others = agents_found(agents, query, agents.len());
    lemma_listing_exists(item_names(rooms, agents, channels));
    lemma_listing_exists(item_names(rooms, agents, others));
    lemma_listing_exists(item_names(rooms, agents, channels + others));
    lemma_by_name(rooms, agents, channels);
    lemma_by_name(rooms, agents, others);
    lemma_by_name(rooms, agents, channels + others);
    let all = found(rooms, agents, query);
    if 0 <= i < rooms.len() && room_found(rooms, agents, query, i) {
        lemma_room_is_found(rooms, agents, query, rooms.len(), i);
        let item = PickerItem::Channel(i as usize);
        let j = choose|j: int| 0 <= j < channels.len() && channels[j] == item;
        assert(channels[j] == item);
        assert((channels + others)[j] == item);
        if query.len() == 0 {
            let part = by_name(rooms, agents, channels);
            assert(part.contains(item));
            let k = choose|k: int| 0 <= k < part.len() && part[k] == item;
            assert(all[k] == item);
        }
    }
    if 0 <= i < agents.len() && agent_found(agents, query, i) {
        lemma_agent_is_found(agents, query, agents.len(), i);
        let item = PickerItem::Agent(i as usize);
        let j = choose|j: int| 0 <= j < others.len() && others[j] == item;
        assert(others[j] == item);
        assert((channels + others)[channels.len() + j] == item);
        if query.len() == 0 {
            let part = by_name(rooms, agents, others);
            assert(part.contains(item));
            let k = choose|k: int| 0 <= k < part.len() && part[k] == item;
            assert(all[channels.len() + k] == item);
        }
    }
}

proof fn lemma_room_is_found<A: HasAgentName>(
    rooms: Seq<RoomModel>,
    agents: Seq<A>,
    query: Seq<char>,
    n: nat,
    i: int,
)
    requires
        0 <= i < n <= rooms.len() <= usize::MAX,
        room_found(rooms, agents, query, i),
    ensures
        rooms_found(rooms, agents, query, n).contains(PickerItem::Channel(i as usize)),
    decreases n,
{
    let all = rooms_found(rooms, agents, query, n);
    if i == n - 1 {
        assert(all.last() == PickerItem::Channel(i as usize));
    } else {
        lemma_room_is_found(rooms, agents, query, (n - 1) as nat, i);
        let before = rooms_found(rooms, agents, query, (n - 1) as nat);
        let k = choose|k: int| 0 <= k < before.len() && before[k] == PickerItem::Channel(i as usize);
        assert(all[k] == PickerItem::Channel(i as usize));
    }
}

proof fn lemma_agent_is_found<A: HasAgentName>(agents: Seq<A>, query: Seq<char>, n: nat, i: int)
    requires
        0 <= i < n <= agents.len() <= usize::MAX,
        agent_found(agents, query, i),
    ensures
        agents_found(agents, query, n).contains(PickerItem::Agent(i as usize)),
    decreases n,
{
    let all = agents_found(agents, query, n);
    if i == n - 1 {
        assert(all.last() == PickerItem::Agent(i as usize));
    } else {
        lemma_agent_is_found(agents, query, (n - 1) as nat, i);
        let before = agents_found(agents, query, (n - 1) as nat);
        let k = choose|k: int| 0 <= k < before.len() && before[k] == PickerItem::Agent(i as usize);
        assert(all[k] == PickerItem::Agent(i as usize));
    }
}

/// With a query everything found is listed by name; without one the rooms are, and then
/// the agents are.
pub proof fn law_found_items_are_sorted<A: HasAgentName>(
    rooms: Seq<RoomModel>,
    agents: Seq<A>,
    query: Seq<char>,
    k: int,
    l: int,
)
    requires
        rooms.len() <= usize::MAX,
        agents.len() <= usize::MAX,
        0 <= k < l < found(rooms, agents, query).len(),
    ensures
        ({
            let a = found(rooms, agents, query)[k];
            let b = found(rooms, agents, query)[l];
            if query.len() > 0 || a is Channel == b is Channel {
                name_le(item_name(rooms, agents, a), item_name(rooms, agents, b))
            } else {
                a is Channel && b is Agent
            }
        }),
{
    let channels = rooms_found(rooms, agents, query, rooms.len());
    let others = agents_found(agents, query, agents.len());
    lemma_rooms_found_exist(rooms, agents, query, rooms.len());
    lemma_agents_found_exist(rooms, agents, query, agents.len());
    lemma_listing_exists(item_names(rooms, agents, channels));
    lemma_listing_exists(item_names(rooms, agents, others));
    lemma_listing_exists(item_names(rooms, agents, channels + others));
    lemma_by_name(rooms, agents, channels);
    lemma_by_name(rooms, agents, others);
    lemma_by_name(rooms, agents, channels + others);
    if query.len() == 0 {
        let first = by_name(rooms, agents, channels);
        let second = by_name(rooms, agents, others);
        let n = channels.len() as int;
        if k < n {
            assert(channels.contains(first[k]));
        } else {
            assert(others.contains(second[k - n]));
        }
        if l < n {
            assert(channels.contains(first[l]));
            assert(name_le(item_name(rooms, agents, first[k]), item_name(rooms, agents, first[l])));
        } else {
            assert(others.contains(second[l - n]));
            if k >= n {
                assert(name_le(item_name(rooms, agents, second[k - n]), item_name(rooms, agents, second[l - n])));
            }
        }
    } else {
        let sorted = by_name(rooms, agents, channels + others);
        assert(name_le(item_name(rooms, agents, sorted[k]), item_name(rooms, agents, sorted[l])));
    }
}

/// What is found, by the rooms and agents themselves. Where nothing is searched, a room is found
/// exactly if it has something new and is not one for talking to an agent, and every agent is.
/// Where something is, a room or an agent is found exactly if its name holds it, in upper or lower
/// case; rooms for talking to agents are not.
pub proof fn law_what_is_found<A: HasAgentName>(
    rooms: Seq<RoomModel>,
    agents: Seq<A>,
    query: Seq<char>,
    i: usize,
)
    requires
        rooms.len() <= usize::MAX,
        agents.len() <= usize::MAX,
    ensures
        ({
            let talk = exists|a: int|
                0 <= a < agents.len() && #[trigger] agents[a].spec_dm_room_idx() == Some(i);
            let items = found(rooms, agents, query);
            &&& query.len() == 0 ==> (items.contains(PickerItem::Channel(i)) <==> i < rooms.len() && !talk
                && rooms[i as int].activity() is Active)
            &&& query.len() == 0 ==> (items.contains(PickerItem::Agent(i)) <==> i < agents.len())
            &&& query.len() > 0 ==> (items.contains(PickerItem::Channel(i)) <==> i < rooms.len() && !talk
                && exists|k: int| stands_at(lowercase(rooms[i as int].name), lowercase(query), k))
            &&& query.len() > 0 ==> (items.contains(PickerItem::Agent(i)) <==> i < agents.len()
                && exists|k: int|
                stands_at(lowercase(agents[i as int].spec_agent_name()), lowercase(query), k))
        }),
{
    let items = found(rooms, agents, query);
    law_everything_is_found(rooms, agents, query, i as int);
    if items.contains(PickerItem::Channel(i)) {
        let k = choose|k: int| 0 <= k < items.len() && items[k] == PickerItem::Channel(i);
        law_found_items_match(rooms, agents, query, k);
    }
    if items.contains(PickerItem::Agent(i)) {
        let k = choose|k: int| 0 <= k < items.len() && items[k] == PickerItem::Agent(i);
        law_found_items_match(rooms, agents, query, k);
    }
}

proof fn lemma_rooms_found_once<A: HasAgentName>(rooms: Seq<RoomModel>, agents: Seq<A>, query: Seq<char>, n: nat)
    requires
        n <= rooms.len() <= usize::MAX,
    ensures
        rooms_found(rooms, agents, query, n).no_duplicates(),
    decreases n,
{
    if n > 0 {
        lemma_rooms_found_once(rooms, agents, query, (n - 1) as nat);
        lemma_rooms_found_exist(rooms, agents, query, (n - 1) as nat);
    }
}

proof fn lemma_agents_found_once<A: HasAgentName>(agents: Seq<A>, query: Seq<char>, n: nat)
    requires
        n <= agents.len() <= usize::MAX,
    ensures
        agents_found(agents, query, n).no_duplicates(),
    decreases n,
{
    if n > 0 {
        lemma_agents_found_once(agents, query, (n - 1) as nat);
        lemma_agents_found_exist(Seq::empty(), agents, query, (n - 1) as nat);
    }
}

proof fn lemma_by_name_once<A: HasAgentName>(rooms: Seq<RoomModel>, agents: Seq<A>, items: Seq<PickerItem>)
    requires
        items.no_duplicates(),
    ensures
        by_name(rooms, agents, items).no_duplicates(),
{
    let names = item_names(rooms, agents, items);
    lemma_listing_exists(names);
    let ls = listing_of(names);
    let sorted = by_name(rooms, agents, items);
    assert forall|k: int, l: int| 0 <= k < l < sorted.len() implies sorted[k] != sorted[l] by {
        assert(0 <= ls[k] < names.len() && 0 <= ls[l] < names.len());
        assert(crate::text::listed_before(names, ls[k], ls[l]));
        assert(ls[k] != ls[l]);
        assert(sorted[k] == items[ls[k]] && sorted[l] == items[ls[l]]);
    }
}

/// Nothing is found twice.
pub proof fn law_nothing_is_found_twice<A: HasAgentName>(
    rooms: Seq<RoomModel>,
    agents: Seq<A>,
    query: Seq<char>,
    k: int,
    l: int,
)
    requires
        rooms.len() <= usize::MAX,
        agents.len() <= usize::MAX,
        0 <= k < l < found(rooms, agents, query).len(),
    ensures
        found(rooms, agents, query)[k] != found(rooms, agents, query)[l],
{
    let channels = rooms_found(rooms, agents, query, rooms.len());
    let others = agents_found(agents, query, agents.len());
    lemma_rooms_found_exist(rooms, agents, query, rooms.len());
    lemma_agents_found_exist(rooms, agents, query, agents.len());
    lemma_rooms_found_once(rooms, agents, query, rooms.len());
    lemma_agents_found_once(agents, query, agents.len());
    lemma_listing_exists(item_names(rooms, agents, channels));
    lemma_listing_exists(item_names(rooms, agents, others));
    lemma_by_name(rooms, agents, channels);
    lemma_by_name(rooms, agents, others);
    lemma_by_name_once(rooms, agents, channels);
    lemma_by_name_once(rooms, agents, others);
    assert((channels + others).no_duplicates());
    lemma_by_name_once(rooms, agents, channels + others);
    if query.len() == 0 {
        let n = channels.len() as int;
        let first = by_name(rooms, agents, channels);
        let second = by_name(rooms, agents, others);
        if k < n && l >= n {
            assert(channels.contains(first[k]));
            assert(others.contains(second[l - n]));
        }
    }
}

/// What is found stands in the order of the names: rooms among rooms and agents among agents, and
/// where something is searched all together; else rooms stand before agents.
pub proof fn law_found_items_stand_by_name<A: HasAgentName>(
    rooms: Seq<RoomModel>,
    agents: Seq<A>,
    query: Seq<char>,
    k: int,
    l: int,
)
    requires
        rooms.len() <= usize::MAX,
        agents.len() <= usize::MAX,
        0 <= k < l < found(rooms, agents, query).len(),
    ensures
        match (found(rooms, agents, query)[k], found(rooms, agents, query)[l]) {
            (PickerItem::Channel(i), PickerItem::Channel(j)) => name_le(
                rooms[i as int].name,
                rooms[j as int].name,
            ),
            (PickerItem::Agent(i), PickerItem::Agent(j)) => name_le(
                agents[i as int].spec_agent_name(),
                agents[j as int].spec_agent_name(),
            ),
            (PickerItem::Channel(i), PickerItem::Agent(j)) => query.len() == 0 || name_le(
                rooms[i as int].name,
                agents[j as int].spec_agent_name(),
            ),
            (PickerItem::Agent(i), PickerItem::Channel(j)) => query.len() > 0 && name_le(
                agents[i as int].spec_agent_name(),
                rooms[j as int].name,
            ),
        },
{
    law_found_items_are_sorted(rooms, agents, query, k, l);
}

/// The choice moves by one and stays among what was found; the search itself does not change. A
/// search that was just made has its first thing chosen.
pub proof fn law_the_choice_moves<A: HasAgentName>(
    p: PickerModel,
    rooms: Seq<RoomModel>,
    agents: Seq<A>,
    query: Seq<char>,
)
    ensures
        p.selected < p.filtered.len() ==> p.chosen() == Some(p.filtered[p.selected as int]),
        p.selected >= p.filtered.len() ==> p.chosen() is None,
        0 < p.selected < p.filtered.len() ==> p.up().chosen() == Some(p.filtered[p.selected - 1]),
        p.selected == 0 ==> p.up() == p,
        p.selected + 1 < p.filtered.len() ==> p.down().chosen() == Some(p.filtered[p.selected as int + 1]),
        p.selected + 1 >= p.filtered.len() ==> p.down() == p,
        p.up().filtered == p.filtered && p.down().filtered == p.filtered,
        p.up().query == p.query && p.down().query == p.query,
        ({
            let fresh = PickerModel::search(rooms, agents, query);
            &&& fresh.query == query
            &&& fresh.filtered == found(rooms, agents, query)
            &&& fresh.filtered.len() > 0 ==> fresh.chosen() == Some(fresh.filtered[0])
            &&& fresh.filtered.len() == 0 ==> fresh.chosen() is None
        }),
{
}

/// What is found is shown by its name, a room behind a hash sign and an agent behind an at sign,
/// with a mark before what is chosen and a dot behind what has something new.
pub proof fn law_found_items_are_shown<A: HasAgentName + HasAgentActivity>(
    rooms: Seq<RoomModel>,
    agents: Seq<A>,
    i: usize,
    is_selected: bool,
)
    ensures
        ({
            let start = if is_selected {
                seq![' ', '\u{25b8}', ' ']
            } else {
                seq![' ', ' ', ' ']
            };
            let dot = seq![' ', '\u{25cf}'];
            let room = picker_item(rooms, agents, PickerItem::Channel(i), is_selected);
            let agent = picker_item(rooms, agents, PickerItem::Agent(i), is_selected);
            &&& room.lines.len() == 1 && room.lines[0].spans.len() == 1
            &&& agent.lines.len() == 1 && agent.lines[0].spans.len() == 1
            &&& room.lines[0].spans[0].text == start + seq!['#'] + rooms[i as int].name + if rooms[i as int].activity() is Active {
                dot
            } else {
                Seq::empty()
            }
            &&& agent.lines[0].spans[0].text == start + seq!['@'] + agents[i as int].spec_agent_name()
                + if agents[i as int].spec_has_activity(rooms) {
                dot
            } else {
                Seq::empty()
            }
            &&& room.style.fg == Some(if is_selected { Color::Cyan } else { Color::White })
            &&& agent.style.fg == room.style.fg
        }),
{
}

/// The search shows what is searched, or asks for it, and says so where nothing is found.
pub proof fn law_searches_are_shown(query: Seq<char>)
    ensures
        query.len() > 0 ==> query_text(query) == seq![' ', '>', ' '] + query,
        query.len() == 0 ==> query_text(query) == " > Type to search..."@,
        nothing_found(query).lines.len() == 1,
        query.len() > 0 ==> nothing_found(query).lines[0].spans[0].text == "   No matching items"@,
        query.len() == 0 ==> nothing_found(query).lines[0].spans[0].text == seq![
            ' ',
            ' ',
            ' ',
            '\u{25cf}',
        ] + " No rooms with activity"@,
{
}

/// The search stands inside the screen, two columns and two rows from its edges at least, and is no
/// larger than 50 columns and 14 rows; it is in the middle of the width.
pub proof fn law_where_the_search_stands(area: Rect)
    requires
        area.x + area.width <= u16::MAX,
        area.y + area.height <= u16::MAX,
        area.width >= 4,
        area.height >= 4,
    ensures
        ({
            let r = picker_area(area);
            &&& r.width == (if area.width >= 54 { 50 } else { area.width - 4 })
            &&& r.height == (if area.height >= 18 { 14 } else { area.height - 4 })
            &&& r.x - area.x == (area.width - r.width) / 2
            &&& r.y - area.y == (area.height - r.height) / 4
            &&& r.x + r.width <= area.x + area.width
            &&& r.y + r.height <= area.y + area.height
        }),
{
}

/// Where there are no agents, none is searched for, and none has something new.
pub proof fn law_no_agents(rooms: Seq<RoomModel>, i: usize)
    ensures
        !NoAgent.spec_has_activity(rooms),
        NoAgent.spec_dm_room_idx() is None,
        NoAgent.spec_agent_name().len() == 0,
        rooms.len() <= usize::MAX ==> !found(rooms, Seq::<NoAgent>::empty(), Seq::empty()).contains(
            PickerItem::Agent(i),
        ),
{
    if rooms.len() <= usize::MAX {
        law_what_is_found(rooms, Seq::<NoAgent>::empty(), Seq::empty(), i);
    }
}

} // verus!
