use vstd::prelude::*;
use crate::session::{appended, can_append, derived, Message, MessageView, Role, SessionView};
use crate::store::{has_session, lemma_index_unique, session_index, ChatStore, SessionArchive};

verus! {

/// Who wrote a message, as the turn engine sees it.
pub enum Sender {
    User,
    Bot(String),
    App,
}

/// A message as the turn engine holds it.
pub struct EngineMessage {
    pub from: Sender,
    pub body: String,
}

/// One task that the turn engine applied.
pub enum ChatTask {
    /// A message was inserted at this position of the engine's list.
    InsertMessage(usize, EngineMessage),
    /// Anything else; the pipeline ignores it.
    Other,
}

/// The bodies of the user-authored insertions of a batch, in batch order.
pub open spec fn captured(tasks: Seq<ChatTask>) -> Seq<Seq<char>>
    decreases tasks.len(),
{
    if tasks.len() == 0 {
        Seq::empty()
    } else {
        let before = captured(tasks.drop_last());
        match tasks.last() {
            ChatTask::InsertMessage(_, m) => match m.from {
                Sender::User => before.push(m.body@),
                _ => before,
            },
            ChatTask::Other => before,
        }
    }
}

/// What the store records of a user message with this body.
pub open spec fn user_message(body: Seq<char>) -> MessageView {
    MessageView {
        id: 0,
        role: Role::User,
        username: None,
        entity: None,
        content: body,
        articles: Seq::empty(),
        stages: Seq::empty(),
    }
}

/// A session after taking these user messages: each is appended, then the
/// title is derived. A session whose ids are used up takes no more.
pub open spec fn ingest(v: SessionView, bodies: Seq<Seq<char>>) -> SessionView
    decreases bodies.len(),
{
    if bodies.len() == 0 {
        v
    } else {
        let before = ingest(v, bodies.drop_last());
        if can_append(before) {
            derived(appended(before, user_message(bodies.last())))
        } else {
            before
        }
    }
}

/// The after hook of a batch: the bodies of the messages the user inserted.
pub fn capture(tasks: &Vec<ChatTask>) -> (r: Vec<String>)
    ensures
        r@.map_values(|s: String| s@) == captured(tasks@),
{
    let mut r: Vec<String> = Vec::new();
    let mut k: usize = 0;
    while k < tasks.len()
        invariant
            k <= tasks@.len(),
            r@.map_values(|s: String| s@) == captured(tasks@.take(k as int)),
        decreases tasks@.len() - k,
    {
        assert(tasks@.take(k as int + 1).drop_last() =~= tasks@.take(k as int));
        let ghost before = r@;
        match &tasks[k] {
            ChatTask::InsertMessage(_, m) => match &m.from {
                Sender::User => {
                    r.push(m.body.clone());
                    assert(r@.map_values(|s: String| s@) =~= before.map_values(|s: String| s@).push(
                        m.body@,
                    ));
                },
                _ => {},
            },
            ChatTask::Other => {},
        }
        k = k + 1;
    }
    assert(tasks@.take(k as int) =~= tasks@);
    r
}

/// Hands captured user messages to the session with this id: for each, in
/// order, append, derive the title, and save. Where no session has the id,
/// nothing changes. Returns how many messages were recorded.
pub fn record_user_messages(
    store: &mut ChatStore,
    current: u64,
    bodies: &Vec<String>,
    archive: &mut SessionArchive,
) -> (n: usize)
    requires
        old(store).wf(),
        old(archive).wf(),
    ensures
        final(store).wf(),
        final(archive).wf(),
        final(store).spec_next_id() == old(store).spec_next_id(),
        has_session(old(store)@, current) ==> {
            let i = session_index(old(store)@, current);
            let v = ingest(old(store)@[i], bodies@.map_values(|s: String| s@));
            &&& final(store)@ == old(store)@.update(i, v)
            &&& bodies@.len() > 0 ==> final(archive)@ == old(archive)@.insert(current, v)
            &&& bodies@.len() == 0 ==> final(archive)@ == old(archive)@
        },
        !has_session(old(store)@, current) ==> final(store)@ == old(store)@ && final(archive)@
            == old(archive)@ && n == 0,
{
    let ghost vs0 = store@;
    let ghost bs = bodies@.map_values(|s: String| s@);
    let ghost i0 = session_index(vs0, current);
    let mut n: usize = 0;
    if store.get(current).is_none() {
        return 0;
    }
    let mut j: usize = 0;
    while j < bodies.len()
        invariant
            j <= bodies@.len(),
            n <= j,
            store.wf(),
            archive.wf(),
            store.spec_next_id() == old(store).spec_next_id(),
            has_session(vs0, current),
            vs0 == old(store)@,
            bs == bodies@.map_values(|s: String| s@),
            i0 == session_index(vs0, current),
            0 <= i0 < store@.len(),
            store@[i0].id == current,
            store@ == vs0.update(i0, ingest(vs0[i0], bs.take(j as int))),
            j > 0 ==> archive@ == old(archive)@.insert(current, ingest(vs0[i0], bs.take(j as int))),
            j == 0 ==> archive@ == old(archive)@,
        decreases bodies@.len() - j,
    {
        assert(bs.take(j as int + 1).drop_last() =~= bs.take(j as int));
        proof {
            store.lemma_unique();
            lemma_index_unique(store@, i0);
        }
        let ghost before = store@;
        let ghost cur = ingest(vs0[i0], bs.take(j as int));
        assert(before[i0] == cur);
        assert(bs.take(j as int + 1).last() == bodies@[j as int]@);
        let message = Message::from_user(bodies[j].clone());
        assert(message@ == user_message(bodies@[j as int]@));
        if store.append_message(current, message).is_some() {
            n = n + 1;
            proof {
                store.lemma_unique();
            lemma_index_unique(store@, i0);
            }
            store.derive_title(current);
            assert(store@ =~= vs0.update(i0, ingest(vs0[i0], bs.take(j as int + 1))));
        } else {
            assert(store@ =~= vs0.update(i0, ingest(vs0[i0], bs.take(j as int + 1))));
        }
        proof {
            store.lemma_unique();
            lemma_index_unique(store@, i0);
        }
        store.save(current, archive);
        j = j + 1;
    }
    assert(bs.take(j as int) =~= bs);
    n
}

/// One batch of the turn engine, end to end: the user's insertions are
/// captured and recorded in the session with this id.
pub fn handle_batch(
    store: &mut ChatStore,
    current: u64,
    tasks: &Vec<ChatTask>,
    archive: &mut SessionArchive,
) -> (n: usize)
    requires
        old(store).wf(),
        old(archive).wf(),
    ensures
        final(store).wf(),
        final(archive).wf(),
        final(store).spec_next_id() == old(store).spec_next_id(),
        has_session(old(store)@, current) ==> {
            let i = session_index(old(store)@, current);
            let v = ingest(old(store)@[i], captured(tasks@));
            &&& final(store)@ == old(store)@.update(i, v)
            &&& captured(tasks@).len() > 0 ==> final(archive)@ == old(archive)@.insert(current, v)
            &&& captured(tasks@).len() == 0 ==> final(archive)@ == old(archive)@
        },
        !has_session(old(store)@, current) ==> final(store)@ == old(store)@ && final(archive)@
            == old(archive)@,
{
    let bodies = capture(tasks);
    record_user_messages(store, current, &bodies, archive)
}

} // verus!
