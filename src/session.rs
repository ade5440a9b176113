use vstd::prelude::*;
use vstd::string::StrSliceExecFns;
use crate::provider::ProviderConfig;

verus! {

/// Who authored a message.
#[derive(Clone, Copy, Debug, PartialEq, Eq, Structural)]
pub enum Role {
    User,
    Assistant,
    System,
}

/// What a session talks to.
pub enum EntityId {
    ModelFile(String),
    Agent(String),
    RemoteModel(String),
}

impl EntityId {
    pub fn duplicate(&self) -> (r: EntityId)
        ensures
            r == *self,
    {
        match self {
            EntityId::ModelFile(s) => EntityId::ModelFile(s.clone()),
            EntityId::Agent(s) => EntityId::Agent(s.clone()),
            EntityId::RemoteModel(s) => EntityId::RemoteModel(s.clone()),
        }
    }
}

pub fn copy_entity(e: &Option<EntityId>) -> (r: Option<EntityId>)
    ensures
        r == *e,
{
    match e {
        Some(x) => Some(x.duplicate()),
        None => None,
    }
}

pub fn copy_name(n: &Option<String>) -> (r: Option<String>)
    ensures
        r == *n,
{
    match n {
        Some(s) => Some(s.clone()),
        None => None,
    }
}

pub fn copy_strings(v: &Vec<String>) -> (r: Vec<String>)
    ensures
        r@ == v@,
{
    let mut r: Vec<String> = Vec::new();
    let mut i: usize = 0;
    while i < v.len()
        invariant
            i <= v@.len(),
            r@ == v@.take(i as int),
        decreases v@.len() - i,
    {
        r.push(v[i].clone());
        assert(r@ =~= v@.take(i as int + 1));
        i = i + 1;
    }
    assert(v@.take(i as int) =~= v@);
    r
}

/// Where a session's title comes from.
#[derive(Clone, Copy, Debug, PartialEq, Eq, Structural)]
pub enum TitleState {
    /// The placeholder title; the first user message will replace it.
    Default,
    /// Taken from the first user message.
    Derived,
    /// Set by the user.
    Renamed,
}

/// One message of a session.
pub struct Message {
    pub id: u64,
    pub role: Role,
    pub username: Option<String>,
    pub entity: Option<EntityId>,
    pub content: String,
    pub articles: Vec<String>,
    pub stages: Vec<String>,
}

/// A message as a value.
pub ghost struct MessageView {
    pub id: u64,
    pub role: Role,
    pub username: Option<String>,
    pub entity: Option<EntityId>,
    pub content: Seq<char>,
    pub articles: Seq<String>,
    pub stages: Seq<String>,
}

impl View for Message {
    type V = MessageView;

    open spec fn view(&self) -> MessageView {
        MessageView {
            id: self.id,
            role: self.role,
            username: self.username,
            entity: self.entity,
            content: self.content@,
            articles: self.articles@,
            stages: self.stages@,
        }
    }
}

impl Message {
    /// A message written by the user, to be numbered when appended.
    pub fn from_user(content: String) -> (r: Message)
        ensures
            r@ == (MessageView {
                id: 0,
                role: Role::User,
                username: None,
                entity: None,
                content: content@,
                articles: Seq::empty(),
                stages: Seq::empty(),
            }),
    {
        Message {
            id: 0,
            role: Role::User,
            username: None,
            entity: None,
            content,
            articles: Vec::new(),
            stages: Vec::new(),
        }
    }

    pub fn duplicate(&self) -> (r: Message)
        ensures
            r@ == self@,
    {
        Message {
            id: self.id,
            role: self.role,
            username: copy_name(&self.username),
            entity: copy_entity(&self.entity),
            content: self.content.clone(),
            articles: copy_strings(&self.articles),
            stages: copy_strings(&self.stages),
        }
    }
}

pub open spec fn with_id(m: MessageView, id: u64) -> MessageView {
    MessageView { id: id, ..m }
}

pub open spec fn views(ms: Seq<Message>) -> Seq<MessageView> {
    ms.map_values(|m: Message| m@)
}

/// The id that the next appended message gets: one past the last, or 1.
pub open spec fn next_message_id(ms: Seq<MessageView>) -> int {
    if ms.len() == 0 {
        1
    } else {
        ms.last().id + 1
    }
}

/// Ids are at least 1 and strictly increase along the session.
pub open spec fn ids_increasing(ms: Seq<MessageView>) -> bool {
    &&& forall|i: int| 0 <= i < ms.len() ==> #[trigger] ms[i].id >= 1
    &&& forall|i: int, j: int| 0 <= i < j < ms.len() ==> #[trigger] ms[i].id < #[trigger] ms[j].id
}

/// The longest title taken from a message, in characters.
pub const TITLE_MAX_CHARS: usize = 40;

pub open spec fn truncated(s: Seq<char>) -> Seq<char> {
    if s.len() <= TITLE_MAX_CHARS {
        s
    } else {
        s.take(TITLE_MAX_CHARS as int)
    }
}

pub open spec fn is_first_user(ms: Seq<MessageView>, i: int) -> bool {
    &&& 0 <= i < ms.len()
    &&& ms[i].role == Role::User
    &&& forall|j: int| 0 <= j < i ==> #[trigger] ms[j].role != Role::User
}

pub open spec fn has_user(ms: Seq<MessageView>) -> bool {
    exists|i: int| #[trigger] is_first_user(ms, i)
}

pub open spec fn first_user(ms: Seq<MessageView>) -> MessageView {
    ms[choose|i: int| #[trigger] is_first_user(ms, i)]
}

/// Title derivation: a placeholder title gives way to the truncated body of
/// the first user message; any other title stays.
pub open spec fn title_after(state: TitleState, title: Seq<char>, ms: Seq<MessageView>) -> (
    TitleState,
    Seq<char>,
) {
    if state == TitleState::Default && has_user(ms) {
        (TitleState::Derived, truncated(first_user(ms).content))
    } else {
        (state, title)
    }
}

pub open spec fn default_title() -> Seq<char> {
    seq!['N', 'e', 'w', ' ', 'C', 'h', 'a', 't']
}

/// Deriving a title a second time changes nothing.
pub proof fn lemma_derive_title_idempotent(state: TitleState, title: Seq<char>, ms: Seq<MessageView>)
    ensures
        title_after(title_after(state, title, ms).0, title_after(state, title, ms).1, ms)
            == title_after(state, title, ms),
{
}

} // verus!

verus! {

/// A session as a value.
pub ghost struct SessionView {
    pub id: u64,
    pub title: Seq<char>,
    pub title_state: TitleState,
    pub messages: Seq<MessageView>,
    pub entity: Option<EntityId>,
    pub providers: Seq<ProviderConfig>,
}

/// A session after `append_message`.
pub open spec fn appended(v: SessionView, m: MessageView) -> SessionView {
    let ms = v.messages.push(with_id(m, next_message_id(v.messages) as u64));
    let t = if m.role == Role::User {
        title_after(v.title_state, v.title, ms)
    } else {
        (v.title_state, v.title)
    };
    SessionView { title_state: t.0, title: t.1, messages: ms, ..v }
}

/// A session after `derive_title`.
pub open spec fn derived(v: SessionView) -> SessionView {
    let t = title_after(v.title_state, v.title, v.messages);
    SessionView { title_state: t.0, title: t.1, ..v }
}

/// A session that can take one more message.
pub open spec fn can_append(v: SessionView) -> bool {
    v.messages.len() == 0 || v.messages.last().id < u64::MAX
}

/// One conversation: its messages in order, its title, and what it talks to.
pub struct ChatSession {
    id: u64,
    title: String,
    title_state: TitleState,
    messages: Vec<Message>,
    entity: Option<EntityId>,
    providers: Vec<ProviderConfig>,
}

fn first_user_index(ms: &Vec<Message>) -> (r: Option<usize>)
    ensures
        match r {
            Some(i) => i < ms@.len() && has_user(views(ms@)) && first_user(views(ms@))
                == ms@[i as int]@,
            None => !has_user(views(ms@)),
        },
{
    let ghost vs = views(ms@);
    let mut i: usize = 0;
    while i < ms.len()
        invariant
            i <= ms@.len(),
            vs == views(ms@),
            forall|j: int| 0 <= j < i ==> #[trigger] vs[j].role != Role::User,
        decreases ms@.len() - i,
    {
        if ms[i].role == Role::User {
            proof {
                assert(is_first_user(vs, i as int));
                let x = choose|x: int| #[trigger] is_first_user(vs, x);
                assert(x == i) by {
                    if x < i {
                        assert(vs[x].role != Role::User);
                    } else if x > i {
                        assert(vs[i as int].role != Role::User);
                    }
                }
            }
            return Some(i);
        }
        i = i + 1;
    }
    proof {
        if has_user(vs) {
            let x = choose|x: int| #[trigger] is_first_user(vs, x);
            assert(vs[x].role != Role::User);
        }
    }
    None
}

fn copy_messages(ms: &Vec<Message>) -> (r: Vec<Message>)
    ensures
        views(r@) == views(ms@),
{
    let mut r: Vec<Message> = Vec::new();
    let mut i: usize = 0;
    while i < ms.len()
        invariant
            i <= ms@.len(),
            r@.len() == i,
            forall|k: int| 0 <= k < i ==> (#[trigger] r@[k])@ == ms@[k]@,
        decreases ms@.len() - i,
    {
        r.push(ms[i].duplicate());
        i = i + 1;
    }
    assert(views(r@) =~= views(ms@));
    r
}

fn copy_providers(ps: &Vec<ProviderConfig>) -> (r: Vec<ProviderConfig>)
    ensures
        r@ == ps@,
{
    let mut r: Vec<ProviderConfig> = Vec::new();
    let mut i: usize = 0;
    while i < ps.len()
        invariant
            i <= ps@.len(),
            r@ == ps@.take(i as int),
        decreases ps@.len() - i,
    {
        r.push(ps[i].duplicate());
        assert(r@ =~= ps@.take(i as int + 1));
        i = i + 1;
    }
    assert(ps@.take(i as int) =~= ps@);
    r
}

impl View for ChatSession {
    type V = SessionView;

    closed spec fn view(&self) -> SessionView {
        SessionView {
            id: self.id,
            title: self.title@,
            title_state: self.title_state,
            messages: views(self.messages@),
            entity: self.entity,
            providers: self.providers@,
        }
    }
}

impl ChatSession {
    /// Message ids are at least 1 and strictly increasing.
    pub open spec fn wf(&self) -> bool {
        ids_increasing(self@.messages)
    }

    /// Whether one more message can be numbered.
    pub open spec fn spec_can_append(&self) -> bool {
        can_append(self@)
    }

    /// An empty session with the placeholder title.
    pub fn new(id: u64, entity: Option<EntityId>, providers: Vec<ProviderConfig>) -> (r:
        ChatSession)
        ensures
            r.wf(),
            r@ == (SessionView {
                id: id,
                title: default_title(),
                title_state: TitleState::Default,
                messages: Seq::empty(),
                entity: entity,
                providers: providers@,
            }),
    {
        let title = "New Chat".to_owned();
        proof {
            reveal_strlit("New Chat");
            assert(title@ =~= default_title());
        }
        let r = ChatSession {
            id,
            title,
            title_state: TitleState::Default,
            messages: Vec::new(),
            entity,
            providers,
        };
        assert(views(r.messages@) =~= Seq::<MessageView>::empty());
        r
    }

    pub fn id(&self) -> (r: u64)
        ensures
            r == self@.id,
    {
        self.id
    }

    pub fn title(&self) -> (r: &String)
        ensures
            r@ == self@.title,
    {
        &self.title
    }

    pub fn title_state(&self) -> (r: TitleState)
        ensures
            r == self@.title_state,
    {
        self.title_state
    }

    pub fn messages(&self) -> (r: &Vec<Message>)
        ensures
            views(r@) == self@.messages,
    {
        &self.messages
    }

    pub fn entity(&self) -> (r: &Option<EntityId>)
        ensures
            *r == self@.entity,
    {
        &self.entity
    }

    pub fn providers(&self) -> (r: &Vec<ProviderConfig>)
        ensures
            r@ == self@.providers,
    {
        &self.providers
    }

    pub fn can_append(&self) -> (r: bool)
        ensures
            r == self.spec_can_append(),
    {
        let n = self.messages.len();
        n == 0 || self.messages[n - 1].id < u64::MAX
    }

    /// The id that the next appended message gets.
    pub fn next_message_id(&self) -> (r: u64)
        requires
            self.spec_can_append(),
        ensures
            r as int == next_message_id(self@.messages),
    {
        let n = self.messages.len();
        if n == 0 {
            1
        } else {
            self.messages[n - 1].id + 1
        }
    }

    /// Applies title derivation to the session.
    pub fn derive_title(&mut self)
        ensures
            (final(self)@.title_state, final(self)@.title) == title_after(
                old(self)@.title_state,
                old(self)@.title,
                old(self)@.messages,
            ),
            final(self)@ == derived(old(self)@),
    {
        if self.title_state == TitleState::Default {
            match first_user_index(&self.messages) {
                Some(i) => {
                    let body = self.messages[i].content.as_str();
                    let n = body.unicode_len();
                    let t = if n <= TITLE_MAX_CHARS {
                        body.to_owned()
                    } else {
                        body.substring_char(0, TITLE_MAX_CHARS).to_owned()
                    };
                    self.title = t;
                    self.title_state = TitleState::Derived;
                },
                None => {},
            }
        }
    }

    /// Appends a message under the next id and returns that id; a user
    /// message then goes through title derivation.
    pub fn append_message(&mut self, message: Message) -> (id: u64)
        requires
            old(self).wf(),
            old(self).spec_can_append(),
        ensures
            final(self).wf(),
            id as int == next_message_id(old(self)@.messages),
            final(self)@.messages == old(self)@.messages.push(with_id(message@, id)),
            (final(self)@.title_state, final(self)@.title) == (if message.role == Role::User {
                title_after(old(self)@.title_state, old(self)@.title, final(self)@.messages)
            } else {
                (old(self)@.title_state, old(self)@.title)
            }),
            final(self)@ == appended(old(self)@, message@),
    {
        let id = self.next_message_id();
        let role = message.role;
        let mut message = message;
        message.id = id;
        let ghost mv = message@;
        self.messages.push(message);
        assert(views(self.messages@) =~= old(self)@.messages.push(mv));
        if role == Role::User {
            self.derive_title();
        }
        id
    }

    /// Sets a title of the user's own; derivation leaves it alone.
    pub fn rename(&mut self, title: String)
        ensures
            final(self)@ == (SessionView {
                title: title@,
                title_state: TitleState::Renamed,
                ..old(self)@
            }),
    {
        self.title = title;
        self.title_state = TitleState::Renamed;
    }

    /// Sets what the session talks to.
    pub fn set_entity(&mut self, entity: Option<EntityId>)
        ensures
            final(self)@ == (SessionView { entity: entity, ..old(self)@ }),
    {
        self.entity = entity;
    }

    /// A copy of the session.
    pub fn duplicate(&self) -> (r: ChatSession)
        ensures
            r@ == self@,
    {
        ChatSession {
            id: self.id,
            title: self.title.clone(),
            title_state: self.title_state,
            messages: copy_messages(&self.messages),
            entity: copy_entity(&self.entity),
            providers: copy_providers(&self.providers),
        }
    }
}

} // verus!

verus! {

/// A session after `append_message` with each of these messages in turn.
pub open spec fn append_each(v: SessionView, drafts: Seq<MessageView>) -> SessionView
    decreases drafts.len(),
{
    if drafts.len() == 0 {
        v
    } else {
        appended(append_each(v, drafts.drop_last()), drafts.last())
    }
}

/// Appending to a session with no messages numbers them 1, 2, ... in the
/// order of the calls, and keeps each message as it was given.
pub proof fn lemma_appends_number_from_one(v: SessionView, drafts: Seq<MessageView>)
    requires
        v.messages.len() == 0,
        drafts.len() < u64::MAX,
    ensures
        append_each(v, drafts).messages.len() == drafts.len(),
        forall|i: int|
            0 <= i < drafts.len() ==> #[trigger] append_each(v, drafts).messages[i] == with_id(
                drafts[i],
                (i + 1) as u64,
            ),
    decreases drafts.len(),
{
    if drafts.len() > 0 {
        let prev = drafts.drop_last();
        lemma_appends_number_from_one(v, prev);
        let before = append_each(v, prev).messages;
        if prev.len() > 0 {
            assert(before.last() == with_id(prev[prev.len() - 1], prev.len() as u64));
        }
        assert forall|i: int| 0 <= i < drafts.len() implies #[trigger] append_each(
            v,
            drafts,
        ).messages[i] == with_id(drafts[i], (i + 1) as u64) by {
            if i < prev.len() {
                assert(before[i] == with_id(prev[i], (i + 1) as u64));
            }
        }
    }
}

} // verus!
