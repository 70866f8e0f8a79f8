//! Registry of immutable query sessions, keyed by window and session id.
//!
//! A session stays available until it is explicitly cancelled or its window
//! is closed; ids are handed out in increasing order.

use crate::error::{AppError, AppResult};
use crate::text::str_eq;
use vstd::prelude::*;
use vstd::string::*;

verus! {

/// A registered session with the window it belongs to.
pub struct SessionEntry<S> {
    window: String,
    id: u64,
    session: S,
}

/// The key under which a session is registered.
spec fn entry_key<S>(e: SessionEntry<S>) -> (Seq<char>, u64) {
    (e.window@, e.id)
}

/// No two entries share a key.
spec fn keys_unique<S>(es: Seq<SessionEntry<S>>) -> bool {
    forall|i: int, j: int|
        0 <= i < es.len() && 0 <= j < es.len() && i != j ==> entry_key(es[i]) != entry_key(es[j])
}

/// Whether some entry has key `k`.
spec fn has_key<S>(es: Seq<SessionEntry<S>>, k: (Seq<char>, u64)) -> bool {
    exists|i: int| 0 <= i < es.len() && entry_key(#[trigger] es[i]) == k
}

/// The sessions of a list of entries, by key.
spec fn session_map<S>(es: Seq<SessionEntry<S>>) -> Map<(Seq<char>, u64), S> {
    Map::new(
        |k: (Seq<char>, u64)| has_key(es, k),
        |k: (Seq<char>, u64)|
            es[choose|i: int| 0 <= i < es.len() && entry_key(#[trigger] es[i]) == k].session,
    )
}

proof fn lemma_map_at<S>(es: Seq<SessionEntry<S>>, i: int)
    requires
        keys_unique(es),
        0 <= i < es.len(),
    ensures
        session_map(es).contains_key(entry_key(es[i])),
        session_map(es)[entry_key(es[i])] == es[i].session,
{
    let k = entry_key(es[i]);
    assert(has_key(es, k));
    let j = choose|j: int| 0 <= j < es.len() && entry_key(#[trigger] es[j]) == k;
    assert(j == i);
}

proof fn lemma_map_remove<S>(es: Seq<SessionEntry<S>>, i: int)
    requires
        keys_unique(es),
        0 <= i < es.len(),
    ensures
        keys_unique(es.remove(i)),
        session_map(es.remove(i)) == session_map(es).remove(entry_key(es[i])),
{
    let r = es.remove(i);
    let k = entry_key(es[i]);
    assert(keys_unique(r)) by {
        assert forall|a: int, b: int|
            0 <= a < r.len() && 0 <= b < r.len() && a != b implies entry_key(r[a]) != entry_key(
            r[b],
        ) by {
            let a2 = if a < i { a } else { a + 1 };
            let b2 = if b < i { b } else { b + 1 };
            assert(r[a] == es[a2] && r[b] == es[b2]);
        }
    }
    let m = session_map(es).remove(k);
    assert forall|k2: (Seq<char>, u64)| #[trigger] session_map(r).contains_key(k2) <==> m.contains_key(k2) by {
        if session_map(r).contains_key(k2) {
            let a = choose|a: int| 0 <= a < r.len() && entry_key(#[trigger] r[a]) == k2;
            let a2 = if a < i { a } else { a + 1 };
            assert(r[a] == es[a2]);
            lemma_map_at(es, a2);
        }
        if m.contains_key(k2) {
            let a2 = choose|a: int| 0 <= a < es.len() && entry_key(#[trigger] es[a]) == k2;
            assert(a2 != i);
            let a = if a2 < i { a2 } else { a2 - 1 };
            assert(r[a] == es[a2]);
        }
    }
    assert forall|k2: (Seq<char>, u64)| #[trigger] session_map(r).contains_key(k2) implies session_map(r)[k2] == m[k2] by {
        let a = choose|a: int| 0 <= a < r.len() && entry_key(#[trigger] r[a]) == k2;
        let a2 = if a < i { a } else { a + 1 };
        assert(r[a] == es[a2]);
        lemma_map_at(r, a);
        lemma_map_at(es, a2);
    }
    assert(session_map(r) =~= m);
}

proof fn lemma_map_push<S>(es: Seq<SessionEntry<S>>, e: SessionEntry<S>)
    requires
        keys_unique(es),
        !has_key(es, entry_key(e)),
    ensures
        keys_unique(es.push(e)),
        session_map(es.push(e)) == session_map(es).insert(entry_key(e), e.session),
{
    let p = es.push(e);
    assert(keys_unique(p)) by {
        assert forall|a: int, b: int|
            0 <= a < p.len() && 0 <= b < p.len() && a != b implies entry_key(p[a]) != entry_key(
            p[b],
        ) by {
            if a < es.len() && b < es.len() {
                assert(p[a] == es[a] && p[b] == es[b]);
            } else if a < es.len() {
                assert(p[a] == es[a]);
            } else {
                assert(p[b] == es[b]);
            }
        }
    }
    let m = session_map(es).insert(entry_key(e), e.session);
    assert forall|k2: (Seq<char>, u64)| #[trigger] session_map(p).contains_key(k2) <==> m.contains_key(k2) by {
        if session_map(p).contains_key(k2) {
            let a = choose|a: int| 0 <= a < p.len() && entry_key(#[trigger] p[a]) == k2;
            if a < es.len() {
                assert(p[a] == es[a]);
            }
        }
        if m.contains_key(k2) && k2 != entry_key(e) {
            let a = choose|a: int| 0 <= a < es.len() && entry_key(#[trigger] es[a]) == k2;
            assert(p[a] == es[a]);
        }
        if k2 == entry_key(e) {
            assert(p[es.len() as int] == e);
        }
    }
    assert forall|k2: (Seq<char>, u64)| #[trigger] session_map(p).contains_key(k2) implies session_map(p)[k2] == m[k2] by {
        let a = choose|a: int| 0 <= a < p.len() && entry_key(#[trigger] p[a]) == k2;
        lemma_map_at(p, a);
        if a < es.len() {
            assert(p[a] == es[a]);
            lemma_map_at(es, a);
        }
    }
    assert(session_map(p) =~= m);
}

/// What the registry holds: the next id to hand out, the live sessions, and
/// whether the id counter has wrapped around.
pub struct SessionsView<S> {
    pub next_id: u64,
    pub sessions: Map<(Seq<char>, u64), S>,
    pub wrapped: bool,
}

/// Every live query session, keyed by window label and id.
pub struct SessionRegistry<S> {
    next_id: u64,
    entries: Vec<SessionEntry<S>>,
    wrapped: Ghost<bool>,
}

impl<S> View for SessionRegistry<S> {
    type V = SessionsView<S>;

    closed spec fn view(&self) -> SessionsView<S> {
        SessionsView { next_id: self.next_id, sessions: session_map(self.entries@), wrapped: self.wrapped@ }
    }
}

/// Until the id counter wraps around, every registered id is at least 1 and
/// below the next id to hand out.
pub open spec fn ids_issued_below<S>(v: SessionsView<S>) -> bool {
    !v.wrapped ==> v.next_id >= 1 && forall|k: (Seq<char>, u64)|
        #[trigger] v.sessions.contains_key(k) ==> 1 <= k.1 < v.next_id
}

spec fn entry_ids_below<S>(es: Seq<SessionEntry<S>>, wrapped: bool, next_id: u64) -> bool {
    !wrapped ==> next_id >= 1 && forall|i: int| 0 <= i < es.len() ==> 1 <= (#[trigger] es[i]).id < next_id
}

proof fn lemma_ids_issued_below<S>(es: Seq<SessionEntry<S>>, wrapped: bool, next_id: u64)
    requires
        keys_unique(es),
        entry_ids_below(es, wrapped, next_id),
    ensures
        ids_issued_below(SessionsView { next_id, sessions: session_map(es), wrapped }),
{
    assert forall|k: (Seq<char>, u64)| !wrapped && #[trigger] session_map(es).contains_key(k) implies 1 <= k.1 < next_id by {
        let a = choose|a: int| 0 <= a < es.len() && entry_key(#[trigger] es[a]) == k;
        assert(1 <= es[a].id < next_id);
    }
}

/// The message for a session that is no longer registered.
pub open spec fn expired_message() -> Seq<char> {
    "This result is no longer available. Run the query again."@
}

/// The message for work asked of a session that was cancelled.
pub open spec fn cancelled_message() -> Seq<char> {
    "The query was cancelled."@
}

/// Whether a session may start new work: once it has been cancelled, every
/// page, count or export it is asked for is refused.
pub fn admit_work(cancelled: bool) -> (r: AppResult<()>)
    ensures
        r is Ok <==> !cancelled,
        r matches Err(e) ==> (e matches AppError::QuerySession(m) && m@ == cancelled_message()),
{
    if cancelled {
        return Err(AppError::QuerySession(String::from_str("The query was cancelled.")));
    }
    Ok(())
}

/// The id handed out after `id` (wrapping like an atomic counter).
pub open spec fn following_id(id: u64) -> u64 {
    if id == u64::MAX {
        0
    } else {
        (id + 1) as u64
    }
}

fn find_entry<S>(entries: &Vec<SessionEntry<S>>, window: &str, id: u64) -> (r: Option<usize>)
    ensures
        r is None <==> !has_key(entries@, (window@, id)),
        r matches Some(i) ==> i < entries@.len() && entry_key(entries@[i as int]) == (window@, id),
{
    let n = entries.len();
    let mut i: usize = 0;
    while i < n
        invariant
            n == entries@.len(),
            i <= n,
            forall|k: int| 0 <= k < i ==> entry_key(#[trigger] entries@[k]) != (window@, id),
        decreases n - i,
    {
        if entries[i].id == id && str_eq(entries[i].window.as_str(), window) {
            return Some(i);
        }
        i = i + 1;
    }
    None
}

impl<S> SessionRegistry<S> {
    #[verifier::type_invariant]
    spec fn inv(self) -> bool {
        &&& keys_unique(self.entries@)
        &&& entry_ids_below(self.entries@, self.wrapped@, self.next_id)
    }

    /// An empty registry whose first id is 1.
    pub fn new() -> (r: Self)
        ensures
            r@.next_id == 1,
            r@.sessions == Map::<(Seq<char>, u64), S>::empty(),
            !r@.wrapped,
    {
        let r = SessionRegistry { next_id: 1, entries: Vec::new(), wrapped: Ghost(false) };
        assert(session_map(r.entries@) =~= Map::<(Seq<char>, u64), S>::empty());
        r
    }

    /// The id the next created session will get.
    pub fn peek_next_id(&self) -> (r: u64)
        ensures
            r == self@.next_id,
    {
        self.next_id
    }

    /// Registers `session` for `window` under the next id and returns that id.
    pub fn create(&mut self, window: &str, session: S) -> (id: u64)
        ensures
            id == old(self)@.next_id,
            final(self)@.next_id == following_id(id),
            final(self)@.sessions == old(self)@.sessions.insert((window@, id), session),
            final(self)@.wrapped == (old(self)@.wrapped || id == u64::MAX),
            !old(self)@.wrapped ==> id >= 1 && forall|w: Seq<char>|
                !(#[trigger] old(self)@.sessions.contains_key((w, id))),
            ids_issued_below(final(self)@),
    {
        proof {
            use_type_invariant(&*self);
        }
        let id = self.next_id;
        let next = if id == u64::MAX { 0 } else { id + 1 };
        let ghost was_wrapped = self.wrapped@;
        let ghost now_wrapped = was_wrapped || id == u64::MAX;
        proof {
            lemma_ids_issued_below(self.entries@, was_wrapped, id);
        }
        let mut taken = SessionRegistry { next_id: next, entries: Vec::new(), wrapped: Ghost(true) };
        std::mem::swap(self, &mut taken);
        proof {
            use_type_invariant(&taken);
        }
        let SessionRegistry { mut entries, .. } = taken;
        let ghost initial = entries@;
        match find_entry(&entries, window, id) {
            Some(i) => {
                proof {
                    lemma_map_remove(entries@, i as int);
                }
                let _replaced = entries.remove(i);
                assert(entry_ids_below(entries@, was_wrapped, id)) by {
                    assert forall|k: int| !was_wrapped && 0 <= k < entries@.len() implies 1 <= (#[trigger] entries@[k]).id < id by {
                        if k < i {
                            assert(entries@[k] == initial[k]);
                        } else {
                            assert(entries@[k] == initial[k + 1]);
                        }
                    }
                }
            },
            None => {},
        }
        let entry = SessionEntry { window: String::from_str(window), id, session };
        assert(!has_key(entries@, entry_key(entry))) by {
            if has_key(entries@, entry_key(entry)) {
                let a = choose|a: int| 0 <= a < entries@.len() && entry_key(#[trigger] entries@[a]) == entry_key(entry);
                assert(session_map(entries@).contains_key(entry_key(entry)));
            }
        }
        proof {
            lemma_map_push(entries@, entry);
        }
        let ghost before_push = entries@;
        entries.push(entry);
        assert(session_map(entries@) =~= session_map(initial).insert((window@, id), session));
        assert(entry_ids_below(entries@, now_wrapped, next)) by {
            assert forall|k: int| !now_wrapped && 0 <= k < entries@.len() implies 1 <= (#[trigger] entries@[k]).id < next by {
                if k < before_push.len() {
                    assert(entries@[k] == before_push[k]);
                }
            }
        }
        proof {
            lemma_ids_issued_below(entries@, now_wrapped, next);
        }
        *self = SessionRegistry { next_id: next, entries, wrapped: Ghost(now_wrapped) };
        id
    }

    /// The session registered as `id` for `window`.
    pub fn get(&self, window: &str, id: u64) -> (r: AppResult<&S>)
        ensures
            self@.sessions.contains_key((window@, id)) <==> r is Ok,
            r matches Ok(s) ==> *s == self@.sessions[(window@, id)],
            r matches Err(e) ==> (e matches AppError::QuerySession(m) && m@ == expired_message()),
    {
        proof {
            use_type_invariant(self);
        }
        match find_entry(&self.entries, window, id) {
            Some(i) => {
                proof {
                    lemma_map_at(self.entries@, i as int);
                }
                Ok(&self.entries[i].session)
            },
            None => Err(
                AppError::QuerySession(
                    String::from_str("This result is no longer available. Run the query again."),
                ),
            ),
        }
    }

    /// Unregisters the session `id` of `window`, handing it back so that it
    /// can be interrupted.
    pub fn cancel(&mut self, window: &str, id: u64) -> (r: Option<S>)
        ensures
            final(self)@.next_id == old(self)@.next_id,
            final(self)@.sessions == old(self)@.sessions.remove((window@, id)),
            old(self)@.sessions.contains_key((window@, id)) <==> r is Some,
            r matches Some(s) ==> s == old(self)@.sessions[(window@, id)],
            final(self)@.wrapped == old(self)@.wrapped,
            ids_issued_below(final(self)@),
    {
        proof {
            use_type_invariant(&*self);
        }
        let next = self.next_id;
        let ghost wrapped = self.wrapped@;
        let mut taken = SessionRegistry { next_id: next, entries: Vec::new(), wrapped: Ghost(true) };
        std::mem::swap(self, &mut taken);
        proof {
            use_type_invariant(&taken);
        }
        let SessionRegistry { mut entries, .. } = taken;
        let ghost initial = entries@;
        let r = match find_entry(&entries, window, id) {
            Some(i) => {
                proof {
                    lemma_map_at(entries@, i as int);
                    lemma_map_remove(entries@, i as int);
                }
                let e = entries.remove(i);
                assert(entry_ids_below(entries@, wrapped, next)) by {
                    assert forall|k: int| !wrapped && 0 <= k < entries@.len() implies 1 <= (#[trigger] entries@[k]).id < next by {
                        if k < i {
                            assert(entries@[k] == initial[k]);
                        } else {
                            assert(entries@[k] == initial[k + 1]);
                        }
                    }
                }
                Some(e.session)
            },
            None => {
                assert(session_map(initial).remove((window@, id)) =~= session_map(initial));
                None
            },
        };
        proof {
            lemma_ids_issued_below(entries@, wrapped, next);
        }
        *self = SessionRegistry { next_id: next, entries, wrapped: Ghost(wrapped) };
        r
    }

    /// Unregisters every session of `window`, handing back their ids and
    /// sessions; the sessions of other windows stay.
    pub fn remove_window(&mut self, window: &str) -> (r: Vec<(u64, S)>)
        ensures
            final(self)@.next_id == old(self)@.next_id,
            forall|k: (Seq<char>, u64)|
                #[trigger] final(self)@.sessions.contains_key(k) <==> old(self)@.sessions.contains_key(
                    k,
                ) && k.0 != window@,
            forall|k: (Seq<char>, u64)|
                #[trigger] final(self)@.sessions.contains_key(k) ==> final(self)@.sessions[k]
                    == old(self)@.sessions[k],
            forall|i: int|
                0 <= i < r@.len() ==> old(self)@.sessions.contains_key((window@, (#[trigger] r@[i]).0))
                    && r@[i].1 == old(self)@.sessions[(window@, r@[i].0)],
            forall|i: int, j: int| 0 <= i < j < r@.len() ==> r@[i].0 != r@[j].0,
            forall|id: u64|
                old(self)@.sessions.contains_key((window@, id)) ==> exists|i: int|
                    0 <= i < r@.len() && (#[trigger] r@[i]).0 == id,
            final(self)@.wrapped == old(self)@.wrapped,
            ids_issued_below(final(self)@),
    {
        proof {
            use_type_invariant(&*self);
        }
        let next = self.next_id;
        let ghost wrapped = self.wrapped@;
        let mut taken = SessionRegistry { next_id: next, entries: Vec::new(), wrapped: Ghost(true) };
        std::mem::swap(self, &mut taken);
        proof {
            use_type_invariant(&taken);
        }
        let SessionRegistry { mut entries, .. } = taken;
        let ghost old_map = session_map(entries@);
        let mut out: Vec<(u64, S)> = Vec::new();
        let mut i: usize = 0;
        while i < entries.len()
            invariant
                keys_unique(entries@),
                entry_ids_below(entries@, wrapped, next),
                i <= entries@.len(),
                forall|k: (Seq<char>, u64)|
                    #[trigger] session_map(entries@).contains_key(k) ==> old_map.contains_key(k)
                        && session_map(entries@)[k] == old_map[k],
                forall|k: (Seq<char>, u64)|
                    old_map.contains_key(k) && k.0 != window@ ==> #[trigger] session_map(
                        entries@,
                    ).contains_key(k),
                forall|j: int| 0 <= j < i ==> (#[trigger] entries@[j]).window@ != window@,
                forall|o: int|
                    0 <= o < out@.len() ==> old_map.contains_key((window@, (#[trigger] out@[o]).0))
                        && out@[o].1 == old_map[(window@, out@[o].0)] && !session_map(
                        entries@,
                    ).contains_key((window@, out@[o].0)),
                forall|a: int, b: int| 0 <= a < b < out@.len() ==> out@[a].0 != out@[b].0,
                forall|id: u64|
                    old_map.contains_key((window@, id)) && !session_map(entries@).contains_key(
                        (window@, id),
                    ) ==> exists|o: int| 0 <= o < out@.len() && (#[trigger] out@[o]).0 == id,
            decreases entries@.len() - i,
        {
            if str_eq(entries[i].window.as_str(), window) {
                let ghost before = entries@;
                let ghost before_out = out@;
                proof {
                    lemma_map_at(before, i as int);
                    lemma_map_remove(before, i as int);
                }
                let e = entries.remove(i);
                assert(entry_ids_below(entries@, wrapped, next)) by {
                    assert forall|k: int| !wrapped && 0 <= k < entries@.len() implies 1 <= (#[trigger] entries@[k]).id < next by {
                        if k < i {
                            assert(entries@[k] == before[k]);
                        } else {
                            assert(entries@[k] == before[k + 1]);
                        }
                    }
                }
                let ghost removed_key = entry_key(e);
                assert(forall|o: int| 0 <= o < before_out.len() ==> before_out[o].0 != e.id) by {
                    assert forall|o: int| 0 <= o < before_out.len() implies before_out[o].0 != e.id by {
                        assert(!session_map(before).contains_key((window@, before_out[o].0)));
                    }
                }
                out.push((e.id, e.session));
                assert forall|j: int| 0 <= j < i implies (#[trigger] entries@[j]).window@ != window@ by {
                    assert(entries@[j] == before[j]);
                }
                assert forall|id: u64|
                    old_map.contains_key((window@, id)) && !session_map(entries@).contains_key(
                        (window@, id),
                    ) implies exists|o: int| 0 <= o < out@.len() && (#[trigger] out@[o]).0 == id by {
                    if id == e.id {
                        assert(out@[out@.len() - 1].0 == id);
                    } else {
                        assert(!session_map(before).contains_key((window@, id)));
                        let o = choose|o: int| 0 <= o < before_out.len() && (#[trigger] before_out[o]).0 == id;
                        assert(out@[o] == before_out[o]);
                    }
                }
            } else {
                i = i + 1;
            }
        }
        proof {
            lemma_ids_issued_below(entries@, wrapped, next);
        }
        *self = SessionRegistry { next_id: next, entries, wrapped: Ghost(wrapped) };
        proof {
            assert forall|k: (Seq<char>, u64)| #[trigger] session_map(entries@).contains_key(k) implies k.0 != window@ by {
                let a = choose|a: int| 0 <= a < entries@.len() && entry_key(#[trigger] entries@[a]) == k;
                assert(entries@[a].window@ != window@);
            }
        }
        out
    }
}

/// Sessions persist until explicitly cancelled: creating a session keeps
/// every other registered session, and the new one is found under its id.
pub proof fn law_create_keeps_sessions<S>(v: SessionsView<S>, window: Seq<char>, session: S, k: (Seq<char>, u64))
    requires
        v.sessions.contains_key(k),
        k != (window, v.next_id),
    ensures
        v.sessions.insert((window, v.next_id), session).contains_key(k),
        v.sessions.insert((window, v.next_id), session)[k] == v.sessions[k],
        v.sessions.insert((window, v.next_id), session)[(window, v.next_id)] == session,
{
}

/// A cancelled session is no longer found, and cancelling it leaves every
/// other session registered unchanged.
pub proof fn law_cancel_removes_only_that_session<S>(v: SessionsView<S>, k: (Seq<char>, u64), other: (Seq<char>, u64))
    requires
        other != k,
    ensures
        !v.sessions.remove(k).contains_key(k),
        v.sessions.remove(k).contains_key(other) == v.sessions.contains_key(other),
        v.sessions.contains_key(other) ==> v.sessions.remove(k)[other] == v.sessions[other],
{
}

/// Until the id counter wraps around, the id the next session gets is at
/// least 1 and is not the id of any session still registered, in any window.
pub proof fn law_fresh_ids<S>(v: SessionsView<S>)
    requires
        ids_issued_below(v),
        !v.wrapped,
    ensures
        v.next_id >= 1,
        forall|w: Seq<char>| !(#[trigger] v.sessions.contains_key((w, v.next_id))),
{
    assert forall|w: Seq<char>| !(#[trigger] v.sessions.contains_key((w, v.next_id))) by {
        if v.sessions.contains_key((w, v.next_id)) {
            assert(1 <= v.next_id < v.next_id);
        }
    }
}

/// Session ids increase from one creation to the next until the counter
/// wraps around.
pub proof fn law_ids_increase(id: u64)
    requires
        id < u64::MAX,
    ensures
        following_id(id) > id,
{
}

} // verus!
