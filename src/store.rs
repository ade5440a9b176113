use vstd::prelude::*;
use crate::provider::ProviderConfig;
use crate::session::{
    appended, can_append, default_title, derived, ChatSession, EntityId, Message, SessionView,
    TitleState,
};

verus! {

pub open spec fn session_views(v: Seq<ChatSession>) -> Seq<SessionView> {
    v.map_values(|s: ChatSession| s@)
}

pub open spec fn has_session(vs: Seq<SessionView>, id: u64) -> bool {
    exists|i: int| 0 <= i < vs.len() && #[trigger] vs[i].id == id
}

pub open spec fn session_index(vs: Seq<SessionView>, id: u64) -> int {
    choose|i: int| 0 <= i < vs.len() && #[trigger] vs[i].id == id
}

pub open spec fn unique_session_ids(vs: Seq<SessionView>) -> bool {
    forall|i: int, j: int| 0 <= i < j < vs.len() ==> (#[trigger] vs[i]).id != (#[trigger] vs[j]).id
}

/// Sessions keyed by id.
pub open spec fn as_map(vs: Seq<SessionView>) -> Map<u64, SessionView> {
    Map::new(|id: u64| has_session(vs, id), |id: u64| vs[session_index(vs, id)])
}

/// Every session of the list keeps its message ids increasing.
pub open spec fn all_wf(v: Seq<ChatSession>) -> bool {
    forall|i: int| 0 <= i < v.len() ==> (#[trigger] v[i]).wf()
}

pub proof fn lemma_index_unique(vs: Seq<SessionView>, i: int)
    requires
        unique_session_ids(vs),
        0 <= i < vs.len(),
    ensures
        has_session(vs, vs[i].id),
        session_index(vs, vs[i].id) == i,
{
    assert(vs[i].id == vs[i].id);
    let x = session_index(vs, vs[i].id);
    if x < i {
        assert(vs[x].id != vs[i].id);
    } else if x > i {
        assert(vs[i].id != vs[x].id);
    }
}

pub proof fn lemma_map_update(vs: Seq<SessionView>, j: int, s: SessionView)
    requires
        unique_session_ids(vs),
        0 <= j < vs.len(),
        vs[j].id == s.id,
    ensures
        unique_session_ids(vs.update(j, s)),
        as_map(vs.update(j, s)) == as_map(vs).insert(s.id, s),
{
    let ws = vs.update(j, s);
    assert forall|i: int, k: int| 0 <= i < k < ws.len() implies (#[trigger] ws[i]).id != (
    #[trigger] ws[k]).id by {
        assert(vs[i].id != vs[k].id);
    }
    assert forall|id: u64| has_session(ws, id) <==> has_session(vs, id) by {
        if has_session(vs, id) {
            let i = session_index(vs, id);
            assert(ws[i].id == id);
        }
        if has_session(ws, id) {
            let i = session_index(ws, id);
            assert(vs[i].id == id);
        }
    }
    assert forall|id: u64| has_session(ws, id) implies #[trigger] ws[session_index(ws, id)] == (
    if id == s.id {
        s
    } else {
        vs[session_index(vs, id)]
    }) by {
        let i = session_index(ws, id);
        lemma_index_unique(ws, i);
        if id == s.id {
            lemma_index_unique(ws, j);
        } else {
            lemma_index_unique(vs, i);
        }
    }
    assert(as_map(ws) =~= as_map(vs).insert(s.id, s));
}

pub proof fn lemma_map_push(vs: Seq<SessionView>, s: SessionView)
    requires
        unique_session_ids(vs),
        !has_session(vs, s.id),
    ensures
        unique_session_ids(vs.push(s)),
        as_map(vs.push(s)) == as_map(vs).insert(s.id, s),
{
    let ws = vs.push(s);
    assert forall|i: int, k: int| 0 <= i < k < ws.len() implies (#[trigger] ws[i]).id != (
    #[trigger] ws[k]).id by {
        if k == vs.len() {
            assert(vs[i].id != s.id);
        } else {
            assert(vs[i].id != vs[k].id);
        }
    }
    assert forall|id: u64| has_session(ws, id) <==> (has_session(vs, id) || id == s.id) by {
        if has_session(vs, id) {
            let i = session_index(vs, id);
            assert(ws[i].id == id);
        }
        if id == s.id {
            assert(ws[vs.len() as int].id == id);
        }
        if has_session(ws, id) {
            let i = session_index(ws, id);
            if i < vs.len() {
                assert(vs[i].id == id);
            }
        }
    }
    assert forall|id: u64| has_session(ws, id) implies #[trigger] ws[session_index(ws, id)] == (
    if id == s.id {
        s
    } else {
        vs[session_index(vs, id)]
    }) by {
        let i = session_index(ws, id);
        lemma_index_unique(ws, i);
        if id == s.id {
            lemma_index_unique(ws, vs.len() as int);
        } else {
            lemma_index_unique(vs, i);
        }
    }
    assert(as_map(ws) =~= as_map(vs).insert(s.id, s));
}

pub proof fn lemma_map_insert(vs: Seq<SessionView>, p: int, s: SessionView)
    requires
        unique_session_ids(vs),
        !has_session(vs, s.id),
        0 <= p <= vs.len(),
    ensures
        unique_session_ids(vs.insert(p, s)),
        as_map(vs.insert(p, s)) == as_map(vs).insert(s.id, s),
{
    let ws = vs.insert(p, s);
    assert forall|i: int| 0 <= i < ws.len() && i != p implies #[trigger] ws[i] == vs[if i < p {
        i
    } else {
        i - 1
    }] by {}
    assert forall|i: int, k: int| 0 <= i < k < ws.len() implies (#[trigger] ws[i]).id != (
    #[trigger] ws[k]).id by {
        let a = if i < p { i } else { i - 1 };
        let b = if k < p { k } else { k - 1 };
        if i == p {
            assert(vs[b].id != s.id);
        } else if k == p {
            assert(vs[a].id != s.id);
        } else {
            assert(vs[a].id != vs[b].id);
        }
    }
    assert forall|id: u64| has_session(ws, id) <==> (has_session(vs, id) || id == s.id) by {
        if has_session(vs, id) {
            let i = session_index(vs, id);
            if i < p {
                assert(ws[i].id == id);
            } else {
                assert(ws[i + 1].id == id);
            }
        }
        if id == s.id {
            assert(ws[p].id == id);
        }
        if has_session(ws, id) {
            let i = session_index(ws, id);
            if i < p {
                assert(vs[i].id == id);
            } else if i > p {
                assert(vs[i - 1].id == id);
            }
        }
    }
    assert forall|id: u64| has_session(ws, id) implies #[trigger] ws[session_index(ws, id)] == (
    if id == s.id {
        s
    } else {
        vs[session_index(vs, id)]
    }) by {
        let i = session_index(ws, id);
        lemma_index_unique(ws, i);
        if id == s.id {
            lemma_index_unique(ws, p);
        } else {
            let a = if i < p { i } else { i - 1 };
            lemma_index_unique(vs, a);
        }
    }
    assert(as_map(ws) =~= as_map(vs).insert(s.id, s));
}

fn position(v: &Vec<ChatSession>, id: u64) -> (r: Option<usize>)
    requires
        unique_session_ids(session_views(v@)),
    ensures
        match r {
            Some(i) => i < v@.len() && v@[i as int]@.id == id && has_session(session_views(v@), id)
                && session_index(session_views(v@), id) == i,
            None => !has_session(session_views(v@), id),
        },
{
    let mut i: usize = 0;
    while i < v.len()
        invariant
            i <= v@.len(),
            unique_session_ids(session_views(v@)),
            forall|k: int| 0 <= k < i ==> (#[trigger] v@[k])@.id != id,
        decreases v@.len() - i,
    {
        if v[i].id() == id {
            proof {
                lemma_index_unique(session_views(v@), i as int);
            }
            return Some(i);
        }
        i = i + 1;
    }
    proof {
        if has_session(session_views(v@), id) {
            let k = session_index(session_views(v@), id);
            assert(v@[k]@.id == id);
        }
    }
    None
}

fn copy_sessions(v: &Vec<ChatSession>) -> (r: Vec<ChatSession>)
    ensures
        session_views(r@) == session_views(v@),
        all_wf(v@) ==> all_wf(r@),
{
    let mut r: Vec<ChatSession> = Vec::new();
    let mut i: usize = 0;
    while i < v.len()
        invariant
            i <= v@.len(),
            r@.len() == i,
            forall|k: int| 0 <= k < i ==> (#[trigger] r@[k])@ == v@[k]@,
        decreases v@.len() - i,
    {
        r.push(v[i].duplicate());
        i = i + 1;
    }
    assert(session_views(r@) =~= session_views(v@));
    r
}

/// Durable records of sessions, one per session id. A later save of a
/// session replaces the earlier record whole.
pub struct SessionArchive {
    records: Vec<ChatSession>,
}

impl SessionArchive {
    pub closed spec fn view(&self) -> Map<u64, SessionView> {
        as_map(session_views(self.records@))
    }

    pub closed spec fn wf(&self) -> bool {
        &&& unique_session_ids(session_views(self.records@))
        &&& all_wf(self.records@)
    }

    pub fn new() -> (r: SessionArchive)
        ensures
            r.wf(),
            r@ == Map::<u64, SessionView>::empty(),
    {
        let r = SessionArchive { records: Vec::new() };
        assert(r@ =~= Map::<u64, SessionView>::empty());
        r
    }

    pub fn len(&self) -> (r: usize)
        requires
            self.wf(),
        ensures
            r == self@.len(),
    {
        proof {
            lemma_map_len(session_views(self.records@));
        }
        self.records.len()
    }

    /// Writes the record of a session, replacing any earlier one.
    pub fn save(&mut self, session: &ChatSession)
        requires
            old(self).wf(),
            session.wf(),
        ensures
            final(self).wf(),
            final(self)@ == old(self)@.insert(session@.id, session@),
    {
        let copy = session.duplicate();
        let ghost vs = session_views(self.records@);
        match position(&self.records, session.id()) {
            Some(i) => {
                proof {
                    lemma_map_update(vs, i as int, session@);
                }
                self.records.set(i, copy);
                assert(session_views(self.records@) =~= vs.update(i as int, session@));
            },
            None => {
                proof {
                    lemma_map_push(vs, session@);
                }
                self.records.push(copy);
                assert(session_views(self.records@) =~= vs.push(session@));
            },
        }
    }

    /// Every saved session, one per id.
    pub fn load_all(&self) -> (r: Vec<ChatSession>)
        requires
            self.wf(),
        ensures
            unique_session_ids(session_views(r@)),
            all_wf(r@),
            as_map(session_views(r@)) == self@,
    {
        copy_sessions(&self.records)
    }
}

pub proof fn lemma_map_len(vs: Seq<SessionView>)
    requires
        unique_session_ids(vs),
    ensures
        as_map(vs).dom().finite(),
        as_map(vs).len() == vs.len(),
    decreases vs.len(),
{
    if vs.len() == 0 {
        assert(as_map(vs).dom() =~= Set::<u64>::empty());
    } else {
        let prev = vs.drop_last();
        let s = vs.last();
        assert(unique_session_ids(prev)) by {
            assert forall|i: int, k: int| 0 <= i < k < prev.len() implies (#[trigger] prev[i]).id
                != (#[trigger] prev[k]).id by {
                assert(vs[i].id != vs[k].id);
            }
        }
        lemma_map_len(prev);
        assert(!has_session(prev, s.id)) by {
            if has_session(prev, s.id) {
                let i = session_index(prev, s.id);
                assert(vs[i].id != vs[vs.len() - 1].id);
            }
        }
        lemma_map_push(prev, s);
        assert(prev.push(s) =~= vs);
    }
}

/// Saving a session and loading the records back gives the session as it was
/// saved: the loaded list holds exactly one session with its id, equal to it.
pub proof fn lemma_save_load_round_trip(
    records: Map<u64, SessionView>,
    s: SessionView,
    loaded: Seq<SessionView>,
)
    requires
        unique_session_ids(loaded),
        as_map(loaded) == records.insert(s.id, s),
    ensures
        has_session(loaded, s.id),
        forall|i: int| 0 <= i < loaded.len() && (#[trigger] loaded[i]).id == s.id ==> loaded[i] == s,
{
    assert(as_map(loaded).dom().contains(s.id));
    assert forall|i: int| 0 <= i < loaded.len() && (#[trigger] loaded[i]).id == s.id implies loaded[i]
        == s by {
        lemma_index_unique(loaded, i);
        assert(as_map(loaded)[s.id] == s);
    }
}

/// A later save under the same id replaces the earlier record whole.
pub proof fn lemma_later_save_replaces(
    records: Map<u64, SessionView>,
    s: SessionView,
    later: SessionView,
)
    requires
        later.id == s.id,
    ensures
        records.insert(s.id, s).insert(later.id, later) == records.insert(later.id, later),
{
    assert(records.insert(s.id, s).insert(later.id, later) =~= records.insert(later.id, later));
}

/// A fresh session as `create_empty` and `create_with_entity` make it.
pub open spec fn fresh(id: u64, entity: Option<EntityId>, providers: Seq<ProviderConfig>) -> SessionView {
    SessionView {
        id: id,
        title: default_title(),
        title_state: TitleState::Default,
        messages: Seq::empty(),
        entity: entity,
        providers: providers,
    }
}

/// The ids of the sessions, newest first.
pub open spec fn newest_first(vs: Seq<SessionView>) -> Seq<u64> {
    Seq::new(vs.len(), |k: int| vs[vs.len() - 1 - k].id)
}

/// Every chat session known to the process, in order of creation, and the
/// id that the next new session gets.
pub struct ChatStore {
    sessions: Vec<ChatSession>,
    next_id: u64,
}

impl ChatStore {
    pub closed spec fn view(&self) -> Seq<SessionView> {
        session_views(self.sessions@)
    }

    pub closed spec fn spec_next_id(&self) -> u64 {
        self.next_id
    }

    /// Ids are unique and increase in creation order, each below the next
    /// id, and every session is well formed.
    pub closed spec fn wf(&self) -> bool {
        let vs = session_views(self.sessions@);
        &&& unique_session_ids(vs)
        &&& all_wf(self.sessions@)
        &&& forall|i: int, j: int| 0 <= i < j < vs.len() ==> (#[trigger] vs[i]).id < (
        #[trigger] vs[j]).id
        &&& forall|i: int|
            0 <= i < vs.len() ==> (#[trigger] vs[i]).id < self.next_id || self.next_id == u64::MAX
        &&& self.next_id >= 1
    }

    /// A well-formed store has one session per id.
    pub proof fn lemma_unique(&self)
        requires
            self.wf(),
        ensures
            unique_session_ids(self@),
    {
    }

    pub fn new() -> (r: ChatStore)
        ensures
            r.wf(),
            r@ == Seq::<SessionView>::empty(),
            r.spec_next_id() == 1,
    {
        let r = ChatStore { sessions: Vec::new(), next_id: 1 };
        assert(r@ =~= Seq::<SessionView>::empty());
        r
    }

    /// The store at startup: every saved session, ordered by id, and a next
    /// id above them all, or the largest id where one is saved under it.
    pub fn restore(archive: &SessionArchive) -> (r: ChatStore)
        requires
            archive.wf(),
        ensures
            r.wf(),
            as_map(r@) == archive@,
    {
        let loaded = archive.load_all();
        let ghost lv = session_views(loaded@);
        let mut sessions: Vec<ChatSession> = Vec::new();
        let mut next: u64 = 1;
        let mut k: usize = 0;
        while k < loaded.len()
            invariant
                k <= loaded@.len(),
                lv == session_views(loaded@),
                unique_session_ids(lv),
                all_wf(loaded@),
                unique_session_ids(session_views(sessions@)),
                all_wf(sessions@),
                forall|i: int, j: int|
                    0 <= i < j < sessions@.len() ==> (#[trigger] sessions@[i])@.id < (
                    #[trigger] sessions@[j])@.id,
                forall|i: int|
                    0 <= i < sessions@.len() ==> (#[trigger] sessions@[i])@.id < next || next
                        == u64::MAX,
                next >= 1,
                as_map(session_views(sessions@)) == as_map(lv.take(k as int)),
            decreases loaded@.len() - k,
        {
            let s = loaded[k].duplicate();
            let id = s.id();
            let ghost before = sessions@;
            let ghost bv = session_views(before);
            proof {
                assert(loaded@[k as int].wf());
                let t = lv.take(k as int);
                assert(unique_session_ids(t)) by {
                    assert forall|i: int, j: int| 0 <= i < j < t.len() implies (
                    #[trigger] t[i]).id != (#[trigger] t[j]).id by {
                        assert(lv[i].id != lv[j].id);
                    }
                }
                assert(!has_session(t, id)) by {
                    if has_session(t, id) {
                        let i = session_index(t, id);
                        assert(lv[i].id != lv[k as int].id);
                    }
                }
                lemma_map_push(t, s@);
                assert(t.push(s@) =~= lv.take(k as int + 1));
                assert(!as_map(t).dom().contains(id));
                assert(!has_session(bv, id));
            }
            let mut p: usize = 0;
            while p < sessions.len() && sessions[p].id() < id
                invariant
                    p <= sessions@.len(),
                    forall|q: int| 0 <= q < p ==> (#[trigger] sessions@[q])@.id < id,
                decreases sessions@.len() - p,
            {
                p = p + 1;
            }
            proof {
                assert forall|q: int| p <= q < sessions@.len() implies (
                #[trigger] sessions@[q])@.id > id by {
                    assert(bv[q].id != id);
                    if q > p {
                        assert(sessions@[p as int]@.id < sessions@[q]@.id);
                    }
                }
                lemma_map_insert(bv, p as int, s@);
            }
            sessions.insert(p, s);
            assert(session_views(sessions@) =~= bv.insert(p as int, s@));
            assert(all_wf(sessions@)) by {
                assert forall|i: int| 0 <= i < sessions@.len() implies (
                #[trigger] sessions@[i]).wf() by {
                    if i < p {
                        assert(sessions@[i] == before[i]);
                    } else if i > p {
                        assert(sessions@[i] == before[i - 1]);
                    }
                }
            }
            assert forall|i: int, j: int| 0 <= i < j < sessions@.len() implies (
            #[trigger] sessions@[i])@.id < (#[trigger] sessions@[j])@.id by {
                if i < p && j > p {
                    assert(sessions@[i] == before[i]);
                    assert(sessions@[j] == before[j - 1]);
                } else if j > p && i > p {
                    assert(sessions@[i] == before[i - 1]);
                    assert(sessions@[j] == before[j - 1]);
                } else if j < p {
                    assert(sessions@[i] == before[i]);
                    assert(sessions@[j] == before[j]);
                } else if i == p {
                    assert(sessions@[j] == before[j - 1]);
                } else {
                    assert(sessions@[i] == before[i]);
                }
            }
            if next != u64::MAX && id >= next {
                next = if id < u64::MAX { id + 1 } else { u64::MAX };
            }
            assert forall|i: int| 0 <= i < sessions@.len() implies (
            #[trigger] sessions@[i])@.id < next || next == u64::MAX by {
                if i < p {
                    assert(sessions@[i] == before[i]);
                } else if i > p {
                    assert(sessions@[i] == before[i - 1]);
                }
            }
            k = k + 1;
        }
        assert(lv.take(k as int) =~= lv);
        let r = ChatStore { sessions, next_id: next };
        assert forall|i: int, j: int| 0 <= i < j < r@.len() implies (#[trigger] r@[i]).id < (
        #[trigger] r@[j]).id by {
            assert(r.sessions@[i]@.id < r.sessions@[j]@.id);
        }
        assert forall|i: int| 0 <= i < r@.len() implies (#[trigger] r@[i]).id < r.next_id
            || r.next_id == u64::MAX by {
            assert(r.sessions@[i]@.id < next || next == u64::MAX);
        }
        r
    }

    pub fn len(&self) -> (r: usize)
        ensures
            r == self@.len(),
    {
        self.sessions.len()
    }

    pub fn sessions(&self) -> (r: &Vec<ChatSession>)
        ensures
            session_views(r@) == self@,
    {
        &self.sessions
    }

    pub fn next_id(&self) -> (r: u64)
        ensures
            r == self.spec_next_id(),
    {
        self.next_id
    }

    /// Whether one more session can get an id.
    pub fn can_create(&self) -> (r: bool)
        ensures
            r == (self.spec_next_id() < u64::MAX),
    {
        self.next_id < u64::MAX
    }

    /// Adds a fresh session under the next id and returns that id. Nothing is
    /// written to storage until the session is saved.
    pub fn create_with_entity(&mut self, entity: Option<EntityId>, providers: Vec<ProviderConfig>) -> (id: u64)
        requires
            old(self).wf(),
            old(self).spec_next_id() < u64::MAX,
        ensures
            final(self).wf(),
            id == old(self).spec_next_id(),
            final(self).spec_next_id() == id + 1,
            final(self)@ == old(self)@.push(fresh(id, entity, providers@)),
    {
        let id = self.next_id;
        let s = ChatSession::new(id, entity, providers);
        let ghost before = self.sessions@;
        self.sessions.push(s);
        self.next_id = id + 1;
        assert(session_views(self.sessions@) =~= session_views(before).push(s@));
        assert(all_wf(self.sessions@)) by {
            assert forall|i: int| 0 <= i < self.sessions@.len() implies (
            #[trigger] self.sessions@[i]).wf() by {
                if i < before.len() {
                    assert(self.sessions@[i] == before[i]);
                }
            }
        }
        id
    }

    /// Adds a fresh session with no associated entity.
    pub fn create_empty(&mut self, providers: Vec<ProviderConfig>) -> (id: u64)
        requires
            old(self).wf(),
            old(self).spec_next_id() < u64::MAX,
        ensures
            final(self).wf(),
            id == old(self).spec_next_id(),
            final(self).spec_next_id() == id + 1,
            final(self)@ == old(self)@.push(fresh(id, None, providers@)),
    {
        self.create_with_entity(None, providers)
    }

    /// The session with this id: the current one, where the caller holds the
    /// current id.
    pub fn get(&self, id: u64) -> (r: Option<&ChatSession>)
        requires
            self.wf(),
        ensures
            match r {
                Some(s) => has_session(self@, id) && s@ == as_map(self@)[id],
                None => !has_session(self@, id),
            },
    {
        match position(&self.sessions, id) {
            Some(i) => Some(&self.sessions[i]),
            None => None,
        }
    }

    /// Replaces the session at an index with one of the same id.
    fn replace_at(&mut self, i: usize, s: ChatSession)
        requires
            old(self).wf(),
            i < old(self)@.len(),
            s@.id == old(self)@[i as int].id,
            s.wf(),
        ensures
            final(self).wf(),
            final(self)@ == old(self)@.update(i as int, s@),
            final(self).spec_next_id() == old(self).spec_next_id(),
    {
        let ghost before = self.sessions@;
        self.sessions.set(i, s);
        assert(session_views(self.sessions@) =~= session_views(before).update(i as int, s@));
        assert(all_wf(self.sessions@)) by {
            assert forall|k: int| 0 <= k < self.sessions@.len() implies (
            #[trigger] self.sessions@[k]).wf() by {
                if k != i {
                    assert(self.sessions@[k] == before[k]);
                }
            }
        }
    }

    /// Appends a message to the session with this id and returns the
    /// message's id; `None`, with nothing changed, where no session has the
    /// id or the session's message ids are used up.
    pub fn append_message(&mut self, id: u64, message: Message) -> (r: Option<u64>)
        requires
            old(self).wf(),
        ensures
            final(self).wf(),
            final(self).spec_next_id() == old(self).spec_next_id(),
            match r {
                Some(mid) => {
                    let i = session_index(old(self)@, id);
                    &&& has_session(old(self)@, id)
                    &&& can_append(old(self)@[i])
                    &&& final(self)@ == old(self)@.update(i, appended(old(self)@[i], message@))
                    &&& mid as int == crate::session::next_message_id(old(self)@[i].messages)
                },
                None => final(self)@ == old(self)@ && (!has_session(old(self)@, id) || !can_append(
                    old(self)@[session_index(old(self)@, id)],
                )),
            },
    {
        match position(&self.sessions, id) {
            Some(i) => {
                if !self.sessions[i].can_append() {
                    return None;
                }
                let mut s = self.sessions[i].duplicate();
                proof {
                    assert(self.sessions@[i as int].wf());
                }
                let mid = s.append_message(message);
                self.replace_at(i, s);
                Some(mid)
            },
            None => None,
        }
    }

    /// Applies title derivation to the session with this id; `false`, with
    /// nothing changed, where no session has it.
    pub fn derive_title(&mut self, id: u64) -> (r: bool)
        requires
            old(self).wf(),
        ensures
            final(self).wf(),
            final(self).spec_next_id() == old(self).spec_next_id(),
            r == has_session(old(self)@, id),
            r ==> final(self)@ == old(self)@.update(
                session_index(old(self)@, id),
                derived(old(self)@[session_index(old(self)@, id)]),
            ),
            !r ==> final(self)@ == old(self)@,
    {
        match position(&self.sessions, id) {
            Some(i) => {
                let mut s = self.sessions[i].duplicate();
                proof {
                    assert(self.sessions@[i as int].wf());
                }
                s.derive_title();
                self.replace_at(i, s);
                true
            },
            None => false,
        }
    }

    /// Sets what the session with this id talks to; `false`, with nothing
    /// changed, where no session has the id.
    pub fn set_entity(&mut self, id: u64, entity: Option<EntityId>) -> (r: bool)
        requires
            old(self).wf(),
        ensures
            final(self).wf(),
            final(self).spec_next_id() == old(self).spec_next_id(),
            r == has_session(old(self)@, id),
            r ==> final(self)@ == old(self)@.update(
                session_index(old(self)@, id),
                SessionView { entity: entity, ..old(self)@[session_index(old(self)@, id)] },
            ),
            !r ==> final(self)@ == old(self)@,
    {
        match position(&self.sessions, id) {
            Some(i) => {
                let mut s = self.sessions[i].duplicate();
                proof {
                    assert(self.sessions@[i as int].wf());
                }
                s.set_entity(entity);
                self.replace_at(i, s);
                true
            },
            None => false,
        }
    }

    /// Writes the session with this id to the archive; `false`, with the
    /// archive unchanged, where no session has the id.
    pub fn save(&self, id: u64, archive: &mut SessionArchive) -> (r: bool)
        requires
            self.wf(),
            old(archive).wf(),
        ensures
            final(archive).wf(),
            r == has_session(self@, id),
            r ==> final(archive)@ == old(archive)@.insert(id, as_map(self@)[id]),
            !r ==> final(archive)@ == old(archive)@,
    {
        match position(&self.sessions, id) {
            Some(i) => {
                proof {
                    assert(self.sessions@[i as int].wf());
                }
                archive.save(&self.sessions[i]);
                true
            },
            None => false,
        }
    }

    /// The session ids, newest first.
    pub fn history_ids(&self) -> (r: Vec<u64>)
        requires
            self.wf(),
        ensures
            r@ == newest_first(self@),
            forall|i: int, j: int| 0 <= i < j < r@.len() ==> r@[i] > r@[j],
    {
        let mut r: Vec<u64> = Vec::new();
        let n = self.sessions.len();
        let mut k: usize = 0;
        while k < n
            invariant
                n == self@.len(),
                k <= n,
                r@ =~= newest_first(self@).take(k as int),
            decreases n - k,
        {
            r.push(self.sessions[n - 1 - k].id());
            k = k + 1;
        }
        assert(r@ =~= newest_first(self@));
        r
    }
}

} // verus!
