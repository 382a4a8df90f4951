//! The multiplexer's session table.
//!
//! One entry per logical client session: the session id, the sending end
//! of the session's outbound channel, and the creation time. The table
//! owns the senders; the entry is removed unconditionally when the client
//! connection closes, and looking a sender up for a session that is gone
//! answers nothing, so a late send is a silent no-op, never an error.

use vstd::prelude::*;

verus! {

#[verifier::external_type_specification]
#[verifier::external_body]
#[verifier::reject_recursive_types(T)]
pub struct ExSender<T>(tokio::sync::mpsc::Sender<T>);

/// Relies on tokio's `Sender::clone`: the clone sends into the same
/// channel. The sender is opaque here, so nothing more is stated.
#[verifier::external_body]
fn clone_sender(s: &tokio::sync::mpsc::Sender<String>) -> tokio::sync::mpsc::Sender<String> {
    s.clone()
}

/// One active session: the sending end of its outbound channel and its
/// creation time, in non-leap seconds since the Unix epoch.
pub struct SessionInfo {
    pub sender: tokio::sync::mpsc::Sender<String>,
    pub created_at: i64,
}

/// One table entry: the session id and what the session owns.
pub struct SessionEntry {
    pub session_id: String,
    pub info: SessionInfo,
}

/// No two entries share a session id.
pub open spec fn session_ids_unique(s: Seq<SessionEntry>) -> bool {
    forall|i: int, j: int| 0 <= i < j < s.len() ==> s[i].session_id@ != s[j].session_id@
}

/// Some entry carries this session id.
pub open spec fn table_has(s: Seq<SessionEntry>, id: Seq<char>) -> bool {
    exists|i: int| 0 <= i < s.len() && s[i].session_id@ == id
}

/// The predicate an entry must meet to survive removal of `id`.
pub open spec fn keeps_session(id: Seq<char>) -> spec_fn(SessionEntry) -> bool {
    |e: SessionEntry| e.session_id@ != id
}

/// The table after every entry with this session id is dropped.
pub open spec fn remove_session_id(s: Seq<SessionEntry>, id: Seq<char>) -> Seq<SessionEntry> {
    s.filter(keeps_session(id))
}

proof fn lemma_session_push(t: Seq<SessionEntry>, x: SessionEntry, id: Seq<char>)
    ensures
        table_has(t.push(x), id) <==> (table_has(t, id) || x.session_id@ == id),
{
    if table_has(t, id) {
        let i = choose|i: int| 0 <= i < t.len() && t[i].session_id@ == id;
        assert(t.push(x)[i].session_id@ == id);
    }
    if x.session_id@ == id {
        assert(t.push(x)[t.len() as int].session_id@ == id);
    }
    if table_has(t.push(x), id) && x.session_id@ != id {
        let i = choose|i: int| 0 <= i < t.push(x).len() && t.push(x)[i].session_id@ == id;
        if i < t.len() {
            assert(t[i].session_id@ == id);
        }
    }
}

proof fn lemma_session_filter_ids(s: Seq<SessionEntry>, pred: spec_fn(SessionEntry) -> bool)
    ensures
        forall|id: Seq<char>| #[trigger] table_has(s.filter(pred), id) ==> table_has(s, id),
        session_ids_unique(s) ==> session_ids_unique(s.filter(pred)),
    decreases s.len(),
{
    reveal(Seq::filter);
    if s.len() > 0 {
        let t = s.drop_last();
        lemma_session_filter_ids(t, pred);
        assert forall|id: Seq<char>| #[trigger] table_has(t, id) implies table_has(s, id) by {
            let i = choose|i: int| 0 <= i < t.len() && t[i].session_id@ == id;
            assert(s[i].session_id@ == id);
        }
        assert(session_ids_unique(s) ==> session_ids_unique(t));
        if pred(s.last()) {
            assert forall|id: Seq<char>| #[trigger] table_has(s.filter(pred), id) implies table_has(
                s,
                id,
            ) by {
                lemma_session_push(t.filter(pred), s.last(), id);
                if table_has(t.filter(pred), id) {
                    assert(table_has(t, id));
                } else {
                    assert(s[s.len() - 1].session_id@ == id);
                }
            }
            if session_ids_unique(s) {
                if table_has(t.filter(pred), s.last().session_id@) {
                    let i = choose|i: int|
                        0 <= i < t.len() && t[i].session_id@ == s.last().session_id@;
                    assert(s[i].session_id@ == s[s.len() - 1].session_id@);
                    assert(false);
                }
                assert forall|i: int, j: int|
                    0 <= i < j < t.filter(pred).push(s.last()).len() implies t.filter(pred).push(
                    s.last(),
                )[i].session_id@ != t.filter(pred).push(s.last())[j].session_id@ by {
                    let fp = t.filter(pred);
                    if j < fp.len() {
                        assert(fp[i].session_id@ != fp[j].session_id@);
                    } else {
                        if fp[i].session_id@ == s.last().session_id@ {
                            assert(table_has(fp, s.last().session_id@));
                        }
                    }
                }
            }
        }
    }
}

proof fn lemma_session_filter_all(s: Seq<SessionEntry>, pred: spec_fn(SessionEntry) -> bool)
    requires
        forall|i: int| 0 <= i < s.len() ==> pred(#[trigger] s[i]),
    ensures
        s.filter(pred) == s,
    decreases s.len(),
{
    reveal(Seq::filter);
    if s.len() > 0 {
        let t = s.drop_last();
        lemma_session_filter_all(t, pred);
        assert(s.filter(pred) =~= s);
    }
}

proof fn lemma_session_remove_gone(s: Seq<SessionEntry>, id: Seq<char>)
    ensures
        !table_has(remove_session_id(s, id), id),
{
    broadcast use Seq::lemma_filter_pred;

    if table_has(remove_session_id(s, id), id) {
        let i = choose|i: int|
            0 <= i < remove_session_id(s, id).len() && remove_session_id(s, id)[i].session_id@
                == id;
        assert(keeps_session(id)(s.filter(keeps_session(id))[i]));
    }
}

proof fn lemma_session_filter_singleton(x: SessionEntry, pred: spec_fn(SessionEntry) -> bool)
    ensures
        seq![x].filter(pred) == (if pred(x) {
            seq![x]
        } else {
            Seq::<SessionEntry>::empty()
        }),
{
    reveal(Seq::filter);
    assert(seq![x].drop_last() =~= Seq::<SessionEntry>::empty());
    assert(Seq::<SessionEntry>::empty().filter(pred) =~= Seq::<SessionEntry>::empty());
    assert(seq![x].last() == x);
    if pred(x) {
        assert(seq![x].filter(pred) =~= seq![x]);
    } else {
        assert(seq![x].filter(pred) =~= Seq::<SessionEntry>::empty());
    }
}

/// The session table. Its mathematical value is the sequence of current
/// entries, always free of duplicate session ids.
pub struct SessionTable {
    entries: Vec<SessionEntry>,
}

impl View for SessionTable {
    type V = Seq<SessionEntry>;

    closed spec fn view(&self) -> Seq<SessionEntry> {
        self.entries@
    }
}

impl SessionTable {
    pub open spec fn wf(&self) -> bool {
        session_ids_unique(self@)
    }

    pub fn new() -> (r: Self)
        ensures
            r@ == Seq::<SessionEntry>::empty(),
            r.wf(),
    {
        SessionTable { entries: Vec::new() }
    }

    /// Whether a session with this id is currently stored.
    pub fn contains_session(&self, session_id: &String) -> (b: bool)
        ensures
            b == table_has(self@, session_id@),
    {
        let n = self.entries.len();
        let mut i: usize = 0;
        while i < n
            invariant
                i <= n,
                n == self.entries.len(),
                forall|k: int| 0 <= k < i ==> self.entries@[k].session_id@ != session_id@,
            decreases n - i,
        {
            if self.entries[i].session_id == *session_id {
                assert(self@[i as int].session_id@ == session_id@);
                return true;
            }
            i += 1;
        }
        assert(!table_has(self@, session_id@));
        false
    }

    /// Stores a session, replacing any entry that already carries the id:
    /// the table keeps exactly one entry per session.
    pub fn register_session(&mut self, session_id: String, info: SessionInfo)
        requires
            old(self).wf(),
        ensures
            final(self).wf(),
            final(self)@ == remove_session_id(old(self)@, session_id@).push(
                SessionEntry { session_id, info },
            ),
            table_has(final(self)@, session_id@),
    {
        self.remove_session(&session_id);
        proof {
            lemma_session_remove_gone(old(self)@, session_id@);
        }
        let ghost mid = self@;
        let entry = SessionEntry { session_id, info };
        proof {
            assert forall|i: int, j: int| 0 <= i < j < mid.push(entry).len() implies mid.push(
                entry,
            )[i].session_id@ != mid.push(entry)[j].session_id@ by {
                if j < mid.len() {
                    assert(mid[i].session_id@ != mid[j].session_id@);
                } else {
                    if mid[i].session_id@ == entry.session_id@ {
                        assert(table_has(mid, entry.session_id@));
                    }
                }
            }
            assert(mid.push(entry)[mid.len() as int].session_id@ == entry.session_id@);
        }
        self.entries.push(entry);
    }

    /// Removes the session with this id, if any; absent ids are a no-op.
    pub fn remove_session(&mut self, session_id: &String)
        requires
            old(self).wf(),
        ensures
            final(self).wf(),
            final(self)@ == remove_session_id(old(self)@, session_id@),
            !table_has(final(self)@, session_id@),
    {
        let n = self.entries.len();
        let mut i: usize = 0;
        while i < n
            invariant
                i <= n,
                n == self.entries.len(),
                self@ == old(self)@,
                old(self).wf(),
                forall|k: int| 0 <= k < i ==> self.entries@[k].session_id@ != session_id@,
            decreases n - i,
        {
            if self.entries[i].session_id == *session_id {
                proof {
                    let s = self@;
                    let pred = keeps_session(session_id@);
                    assert(s[i as int].session_id@ == session_id@);
                    assert forall|j: int| 0 <= j < s.take(i as int).len() implies pred(
                        #[trigger] s.take(i as int)[j],
                    ) by {
                        assert(s.take(i as int)[j] == s[j]);
                    }
                    assert forall|j: int| 0 <= j < s.skip(i + 1).len() implies pred(
                        #[trigger] s.skip(i + 1)[j],
                    ) by {
                        assert(s.skip(i + 1)[j] == s[i + 1 + j]);
                        if s[i + 1 + j].session_id@ == session_id@ {
                            assert(s[i as int].session_id@ == s[i + 1 + j].session_id@);
                        }
                    }
                    lemma_session_filter_all(s.take(i as int), pred);
                    lemma_session_filter_all(s.skip(i + 1), pred);
                    lemma_session_filter_singleton(s[i as int], pred);
                    assert(s =~= s.take(i as int) + (seq![s[i as int]] + s.skip(i + 1)));
                    Seq::filter_distributes_over_add(
                        s.take(i as int),
                        seq![s[i as int]] + s.skip(i + 1),
                        pred,
                    );
                    Seq::filter_distributes_over_add(seq![s[i as int]], s.skip(i + 1), pred);
                    assert(remove_session_id(s, session_id@) =~= s.take(i as int) + s.skip(
                        i + 1,
                    ));
                    lemma_session_filter_ids(old(self)@, pred);
                    lemma_session_remove_gone(old(self)@, session_id@);
                }
                self.entries.remove(i);
                proof {
                    assert(self@ =~= old(self)@.take(i as int) + old(self)@.skip(i + 1));
                }
                return;
            }
            i += 1;
        }
        proof {
            assert(!table_has(self@, session_id@));
            assert forall|j: int| 0 <= j < self@.len() implies keeps_session(session_id@)(
                #[trigger] self@[j],
            ) by {
                if self@[j].session_id@ == session_id@ {
                    assert(table_has(self@, session_id@));
                }
            }
            lemma_session_filter_all(self@, keeps_session(session_id@));
        }
    }

    /// The sending end of the session's outbound channel, or nothing when
    /// the session is gone — in which case the caller drops the message
    /// silently.
    pub fn sender_for(&self, session_id: &String) -> (r: Option<
        tokio::sync::mpsc::Sender<String>,
    >)
        ensures
            r is Some <==> table_has(self@, session_id@),
    {
        let n = self.entries.len();
        let mut i: usize = 0;
        while i < n
            invariant
                i <= n,
                n == self.entries.len(),
                forall|k: int| 0 <= k < i ==> self.entries@[k].session_id@ != session_id@,
            decreases n - i,
        {
            if self.entries[i].session_id == *session_id {
                assert(self@[i as int].session_id@ == session_id@);
                return Some(clone_sender(&self.entries[i].info.sender));
            }
            i += 1;
        }
        assert(!table_has(self@, session_id@));
        None
    }

    /// How many sessions are active.
    pub fn session_count(&self) -> (n: usize)
        ensures
            n == self@.len(),
    {
        self.entries.len()
    }
}

} // verus!
