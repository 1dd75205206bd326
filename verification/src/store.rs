use vstd::prelude::*;
use vstd::pervasive::VecAdditionalExecFns;

use crate::clock::now_timestamp;
use crate::error::Error;
use crate::ids::new_session_id;
use crate::session::Session;
use crate::session::can_end_by_id;
use crate::session::is_end_transition;
use crate::session::opt_str_view;
use crate::session::SessionModel;
use crate::session::clone_opt_string;
use crate::session::clone_string_vec;
use crate::session::ended;
use crate::session::has_running;
use crate::session::has_session_id;
use crate::session::is_first_index_of_id;
use crate::session::is_newest_running;
use crate::session::label_in_store;
use crate::session::matching_sessions;
use crate::session::session_matches;
use crate::session::sorted_by_start;
use crate::session::labels_without;
use crate::session::model_without_label;
use crate::session::sessions_with_label;
use crate::session::with_note;

verus! {

/// The whole persisted document: an ordered sequence of sessions, in
/// creation order.
pub struct Store {
    pub sessions: Vec<Session>,
}

impl View for Store {
    type V = Seq<SessionModel>;

    open spec fn view(&self) -> Seq<SessionModel> {
        self.sessions.deep_view()
    }
}

impl Store {
    /// Creates a store with no sessions, the state of a document that has
    /// never been saved.
    pub fn new() -> (r: Store)
        ensures
            r@ == Seq::<SessionModel>::empty(),
    {
        let r = Store { sessions: Vec::new() };
        proof {
            assert(r@ =~= Seq::<SessionModel>::empty());
        }
        r
    }

    /// Wraps an already loaded sequence of sessions into a store.
    pub fn from_sessions(sessions: Vec<Session>) -> (r: Store)
        ensures
            r@ == sessions.deep_view(),
    {
        Store { sessions }
    }

    /// Finds the position of the session carrying `id`.
    ///
    /// Returns the first such position, and a not-found error exactly when no
    /// session carries the identifier.
    pub fn get_session_by_id(&self, id: &str) -> (r: Result<usize, Error>)
        ensures
            r is Ok <==> has_session_id(self@, id@),
            r matches Ok(i) ==> is_first_index_of_id(self@, id@, i as int),
            r matches Err(e) ==> e matches Error::NotFound { id: e_id } && e_id@ == id@,
    {
        let sought = id.to_owned();
        let mut i: usize = 0;
        while i < self.sessions.len()
            invariant
                i <= self.sessions.len(),
                sought@ == id@,
                forall|j: int| 0 <= j < i ==> self@[j].id != id@,
            decreases self.sessions.len() - i,
        {
            if self.sessions[i].id == sought {
                proof {
                    assert(self@[i as int].id == id@);
                }
                return Ok(i);
            }
            i = i + 1;
        }
        Err(Error::NotFound { id: sought })
    }

    /// Finds the position of the running session that ending by default
    /// resolves to: the running session with the greatest start instant, the
    /// most recently created one among equal start instants.
    ///
    /// Fails exactly when no session is running.
    pub fn get_newest_running_session(&self) -> (r: Result<usize, Error>)
        ensures
            r is Ok <==> has_running(self@),
            r matches Ok(i) ==> is_newest_running(self@, i as int),
            r matches Err(e) ==> e matches Error::NoRunningSession,
    {
        let mut best: Option<usize> = None;
        let mut i: usize = 0;
        while i < self.sessions.len()
            invariant
                i <= self.sessions.len(),
                best is None ==> forall|j: int| 0 <= j < i ==> self@[j].end_at is Some,
                best matches Some(b) ==> {
                    &&& b < i
                    &&& self@[b as int].end_at is None
                    &&& forall|j: int|
                        0 <= j < i && self@[j].end_at is None ==> self@[j].start_at
                            <= self@[b as int].start_at
                    &&& forall|j: int|
                        b < j < i && self@[j].end_at is None ==> self@[j].start_at
                            < self@[b as int].start_at
                },
            decreases self.sessions.len() - i,
        {
            if self.sessions[i].end_at.is_none() {
                best = match best {
                    None => Some(i),
                    Some(b) => {
                        if self.sessions[i].start_at >= self.sessions[b].start_at {
                            Some(i)
                        } else {
                            Some(b)
                        }
                    },
                };
            }
            i = i + 1;
        }
        match best {
            Some(b) => Ok(b),
            None => Err(Error::NoRunningSession),
        }
    }

    /// Replaces the note of the session carrying `id`, whatever its running
    /// state; fails exactly when the identifier is unknown, leaving the store
    /// unchanged.
    pub fn update_note(&mut self, id: &str, note: String) -> (r: Result<(), Error>)
        ensures
            r is Ok <==> has_session_id(old(self)@, id@),
            r is Ok ==> exists|i: int|
                #[trigger] is_first_index_of_id(old(self)@, id@, i) && final(self)@ == old(
                    self,
                )@.update(i, with_note(old(self)@[i], note@)),
            r matches Err(e) ==> final(self)@ == old(self)@ && (e matches Error::NotFound {
                id: e_id,
            } && e_id@ == id@),
    {
        let idx = match self.get_session_by_id(id) {
            Ok(i) => i,
            Err(e) => {
                return Err(e);
            },
        };
        let s = &self.sessions[idx];
        let updated = Session {
            id: s.id.clone(),
            start_at: s.start_at,
            end_at: s.end_at,
            note: Some(note),
            labels: clone_string_vec(&s.labels),
        };
        proof {
            assert(updated@ =~= with_note(old(self)@[idx as int], note@));
        }
        self.sessions.set(idx, updated);
        proof {
            assert(self@ =~= old(self)@.update(
                idx as int,
                with_note(old(self)@[idx as int], note@),
            ));
        }
        Ok(())
    }

    /// Appends a new session with the given identifier, start instant and
    /// labels; its end instant and note start absent.
    ///
    /// Fails with a conflict exactly when the identifier is already taken,
    /// leaving the store unchanged. On success the created session is
    /// returned for display.
    pub fn start_session_at(&mut self, id: String, start_at: i64, labels: Vec<String>) -> (r:
        Result<Session, Error>)
        ensures
            r is Ok <==> !has_session_id(old(self)@, id@),
            r matches Ok(s) ==> {
                &&& s@ == (SessionModel {
                    id: id@,
                    start_at,
                    end_at: None,
                    note: None,
                    labels: labels.deep_view(),
                })
                &&& final(self)@ == old(self)@.push(s@)
            },
            r matches Err(e) ==> final(self)@ == old(self)@ && (e matches Error::Conflict {
                id: e_id,
            } && e_id@ == id@),
    {
        if self.get_session_by_id(id.as_str()).is_ok() {
            return Err(Error::Conflict { id });
        }
        let session = Session { id, start_at, end_at: None, note: None, labels };
        let created = session.clone();
        self.sessions.push(session);
        proof {
            assert(self@ =~= old(self)@.push(created@));
        }
        Ok(created)
    }

    /// Starts a new session: draws a fresh identifier, stamps the current
    /// instant as its start, and appends it with the given labels; its end
    /// instant and note start absent. The created session is returned for
    /// display.
    ///
    /// The identifier is drawn at random; on the practically impossible draw
    /// of an identifier already in the store the operation fails with a
    /// conflict and changes nothing.
    pub fn start_session(&mut self, labels: Vec<String>) -> (r: Result<Session, Error>)
        ensures
            r matches Ok(s) ==> {
                &&& s@.end_at is None
                &&& s@.note is None
                &&& s@.labels == labels.deep_view()
                &&& !has_session_id(old(self)@, s@.id)
                &&& final(self)@ == old(self)@.push(s@)
            },
            r matches Err(e) ==> final(self)@ == old(self)@ && e matches Error::Conflict { id: _ },
    {
        let id = new_session_id();
        let now = now_timestamp();
        self.start_session_at(id, now, labels)
    }

    /// Ends a session at the current instant, replacing its note with `note`
    /// (see [`Store::end_session_at`] for how the session is chosen and when
    /// the operation fails).
    pub fn end_session(&mut self, id: Option<&str>, note: Option<String>) -> (r: Result<
        Session,
        Error,
    >)
        ensures
            r is Ok <==> match id {
                Some(x) => can_end_by_id(old(self)@, x@),
                None => has_running(old(self)@),
            },
            r matches Ok(s) ==> exists|t: i64|
                is_end_transition(
                    old(self)@,
                    final(self)@,
                    opt_str_view(id),
                    t,
                    note.deep_view(),
                    s@,
                ),
            r is Err ==> final(self)@ == old(self)@,
            r matches Err(e) ==> match id {
                Some(x) => {
                    ||| (e matches Error::NotFound { id: e_id } && e_id@ == x@ && !has_session_id(
                        old(self)@,
                        x@,
                    ))
                    ||| (e matches Error::Conflict { id: e_id } && e_id@ == x@)
                },
                None => e matches Error::NoRunningSession && !has_running(old(self)@),
            },
    {
        let now = now_timestamp();
        self.end_session_at(id, now, note)
    }

    /// Ends a session at instant `now`, replacing its note with `note`
    /// (absent `note` clears any prior one).
    ///
    /// With an identifier, the session it names is ended; this fails with a
    /// not-found error when the identifier is unknown and with a conflict
    /// when that session has already ended. Without an identifier, the
    /// newest running session is ended; this fails when nothing is running.
    /// Every failure leaves the store unchanged.
    pub fn end_session_at(&mut self, id: Option<&str>, now: i64, note: Option<String>) -> (r:
        Result<Session, Error>)
        ensures
            r is Ok <==> match id {
                Some(x) => can_end_by_id(old(self)@, x@),
                None => has_running(old(self)@),
            },
            r matches Ok(s) ==> is_end_transition(
                old(self)@,
                final(self)@,
                opt_str_view(id),
                now,
                note.deep_view(),
                s@,
            ),
            r is Err ==> final(self)@ == old(self)@,
            r matches Err(e) ==> match id {
                Some(x) => {
                    ||| (e matches Error::NotFound { id: e_id } && e_id@ == x@ && !has_session_id(
                        old(self)@,
                        x@,
                    ))
                    ||| (e matches Error::Conflict { id: e_id } && e_id@ == x@)
                },
                None => e matches Error::NoRunningSession && !has_running(old(self)@),
            },
    {
        let idx: usize = match id {
            Some(sid) => {
                let i = match self.get_session_by_id(sid) {
                    Ok(i) => i,
                    Err(e) => {
                        return Err(e);
                    },
                };
                if self.sessions[i].end_at.is_some() {
                    return Err(Error::Conflict { id: sid.to_owned() });
                }
                i
            },
            None => {
                match self.get_newest_running_session() {
                    Ok(i) => i,
                    Err(e) => {
                        return Err(e);
                    },
                }
            },
        };
        let s = &self.sessions[idx];
        let updated = Session {
            id: s.id.clone(),
            start_at: s.start_at,
            end_at: Some(now),
            note,
            labels: clone_string_vec(&s.labels),
        };
        proof {
            assert(updated@ =~= ended(old(self)@[idx as int], now, updated.note.deep_view()));
        }
        let result = updated.clone();
        self.sessions.set(idx, updated);
        proof {
            assert(self@ =~= old(self)@.update(idx as int, result@));
        }
        Ok(result)
    }
}

/// Whether some string of `v` has the view `s@`.
pub fn vec_contains_string(v: &Vec<String>, s: &String) -> (r: bool)
    ensures
        r == v.deep_view().contains(s@),
{
    let mut i: usize = 0;
    while i < v.len()
        invariant
            i <= v.len(),
            forall|j: int| 0 <= j < i ==> v.deep_view()[j] != s@,
        decreases v.len() - i,
    {
        if v[i] == *s {
            proof {
                assert(v.deep_view()[i as int] == s@);
            }
            return true;
        }
        i = i + 1;
    }
    false
}

/// Whether some string of the slice `v` has the view `s@`.
pub fn slice_contains_string(v: &[String], s: &String) -> (r: bool)
    ensures
        r == v.deep_view().contains(s@),
{
    let mut i: usize = 0;
    while i < v.len()
        invariant
            i <= v.len(),
            forall|j: int| 0 <= j < i ==> v.deep_view()[j] != s@,
        decreases v.len() - i,
    {
        if v[i] == *s {
            proof {
                assert(v.deep_view()[i as int] == s@);
            }
            return true;
        }
        i = i + 1;
    }
    false
}

/// Whether the label lists `a` and `b` share at least one entry.
fn labels_intersect(a: &Vec<String>, b: &[String]) -> (r: bool)
    ensures
        r == exists|k: int|
            0 <= k < a.deep_view().len() && b.deep_view().contains(#[trigger] a.deep_view()[k]),
{
    let mut i: usize = 0;
    while i < a.len()
        invariant
            i <= a.len(),
            forall|k: int| 0 <= k < i ==> !b.deep_view().contains(#[trigger] a.deep_view()[k]),
        decreases a.len() - i,
    {
        if slice_contains_string(b, &a[i]) {
            proof {
                assert(b.deep_view().contains(a.deep_view()[i as int]));
            }
            return true;
        }
        i = i + 1;
    }
    false
}

/// Whether the session passes the query filters; the executable counterpart
/// of [`session_matches`].
fn session_matches_exec(s: &Session, from: Option<i64>, to: Option<i64>, labels: &[String]) -> (r:
    bool)
    ensures
        r == session_matches(s@, from, to, labels.deep_view()),
{
    if let Some(f) = from {
        if f > s.start_at {
            return false;
        }
    }
    if let Some(t) = to {
        if let Some(e) = s.end_at {
            if t < e {
                return false;
            }
        }
    }
    if labels.len() > 0 {
        let inter = labels_intersect(&s.labels, labels);
        if !inter {
            return false;
        }
        proof {
            let k = choose|k: int|
                0 <= k < s.labels.deep_view().len() && labels.deep_view().contains(
                    #[trigger] s.labels.deep_view()[k],
                );
            assert(s@.labels[k] == s.labels.deep_view()[k]);
            assert(labels.deep_view().contains(s@.labels[k]));
        }
    }
    true
}

/// The position before the first entry of `r` that starts strictly later
/// than `start_at`; inserting there keeps the vector sorted.
fn insert_position(r: &Vec<Session>, start_at: i64) -> (pos: usize)
    ensures
        pos <= r.deep_view().len(),
        forall|q: int| 0 <= q < pos ==> r.deep_view()[q].start_at <= start_at,
        pos < r.deep_view().len() ==> r.deep_view()[pos as int].start_at > start_at,
{
    let mut pos: usize = 0;
    while pos < r.len()
        invariant
            pos <= r.len(),
            forall|q: int| 0 <= q < pos ==> r.deep_view()[q].start_at <= start_at,
        decreases r.len() - pos,
    {
        if r[pos].start_at > start_at {
            proof {
                assert(r.deep_view()[pos as int].start_at > start_at);
            }
            return pos;
        }
        pos = pos + 1;
    }
    pos
}

/// Copies `v` without the entries equal to `name`.
fn labels_remove_name(v: &Vec<String>, name: &String) -> (r: Vec<String>)
    ensures
        r.deep_view() == labels_without(v.deep_view(), name@),
{
    let ghost pred = |l: Seq<char>| l != name@;
    let mut kept: Vec<String> = Vec::new();
    let mut i: usize = 0;
    while i < v.len()
        invariant
            i <= v.len(),
            kept.deep_view() == v.deep_view().take(i as int).filter(pred),
            pred == (|l: Seq<char>| l != name@),
        decreases v.len() - i,
    {
        let ghost dv = v.deep_view();
        let ghost kept0 = kept.deep_view();
        if !(v[i] == *name) {
            kept.push(v[i].clone());
        }
        proof {
            reveal(Seq::filter);
            assert(dv.take(i as int + 1).drop_last() =~= dv.take(i as int));
            assert(dv.take(i as int + 1).last() == dv[i as int]);
            assert(dv[i as int] == v@[i as int]@);
            if pred(dv[i as int]) {
                assert(kept.deep_view() =~= kept0.push(dv[i as int]));
                assert(dv.take(i as int + 1).filter(pred) == dv.take(i as int).filter(pred).push(
                    dv[i as int],
                ));
            } else {
                assert(kept.deep_view() =~= kept0);
                assert(dv.take(i as int + 1).filter(pred) == dv.take(i as int).filter(pred));
            }
        }
        i = i + 1;
    }
    proof {
        assert(v.deep_view().take(v.len() as int) =~= v.deep_view());
    }
    kept
}

impl Store {
    /// Returns the sessions that pass all three query filters (see
    /// [`session_matches`]): started at or after `from_timestamp` when one is
    /// given, still running or ended at or before `to_timestamp` when one is
    /// given, and carrying one of the requested labels when any are given.
    /// The result is ordered by ascending start instant.
    pub fn get_all_sessions(
        &self,
        from_timestamp: Option<i64>,
        to_timestamp: Option<i64>,
        labels: &[String],
    ) -> (r: Vec<Session>)
        ensures
            sorted_by_start(r.deep_view()),
            r.deep_view().to_multiset() == matching_sessions(
                self@,
                from_timestamp,
                to_timestamp,
                labels.deep_view(),
            ).to_multiset(),
    {
        let ghost lv = labels.deep_view();
        let mut r: Vec<Session> = Vec::new();
        let mut i: usize = 0;
        proof {
            assert(r.deep_view() =~= Seq::<SessionModel>::empty());
            assert(matching_sessions(self@.take(0), from_timestamp, to_timestamp, lv)
                =~= Seq::<SessionModel>::empty());
            vstd::seq_lib::to_multiset_len(r.deep_view());
            vstd::seq_lib::to_multiset_len(
                matching_sessions(self@.take(0), from_timestamp, to_timestamp, lv),
            );
            assert(r.deep_view().to_multiset() =~= matching_sessions(
                self@.take(0),
                from_timestamp,
                to_timestamp,
                lv,
            ).to_multiset());
        }
        while i < self.sessions.len()
            invariant
                i <= self.sessions.len(),
                lv == labels.deep_view(),
                sorted_by_start(r.deep_view()),
                r.deep_view().to_multiset() == matching_sessions(
                    self@.take(i as int),
                    from_timestamp,
                    to_timestamp,
                    lv,
                ).to_multiset(),
            decreases self.sessions.len() - i,
        {
            let ghost r0 = r.deep_view();
            let ghost m0 = matching_sessions(self@.take(i as int), from_timestamp, to_timestamp, lv);
            let s = &self.sessions[i];
            proof {
                assert(s@ == self@[i as int]);
                assert(self@.take(i as int + 1).drop_last() =~= self@.take(i as int));
                assert(self@.take(i as int + 1).last() == self@[i as int]);
            }
            if session_matches_exec(s, from_timestamp, to_timestamp, labels) {
                let pos = insert_position(&r, s.start_at);
                r.insert(pos, s.clone());
                proof {
                    assert(r.deep_view() =~= r0.insert(pos as int, s@));
                    r0.insert_ensures(pos as int, s@);
                    vstd::seq_lib::to_multiset_insert(r0, pos as int, s@);
                    assert(matching_sessions(self@.take(i as int + 1), from_timestamp, to_timestamp, lv)
                        == m0.push(s@));
                    vstd::seq_lib::to_multiset_build(m0, s@);
                    assert forall|a: int, b: int|
                        0 <= a < b < r.deep_view().len() implies r.deep_view()[a].start_at
                        <= r.deep_view()[b].start_at by {
                        let dv = r.deep_view();
                        if b < pos {
                            assert(dv[a] == r0[a] && dv[b] == r0[b]);
                        } else if a > pos {
                            assert(dv[a] == r0[a - 1] && dv[b] == r0[b - 1]);
                        } else if a == pos {
                            assert(dv[a] == s@ && dv[b] == r0[b - 1]);
                            assert(r0[pos as int].start_at > s@.start_at);
                            assert(r0[b - 1].start_at >= r0[pos as int].start_at);
                        } else if b == pos {
                            assert(dv[a] == r0[a] && dv[b] == s@);
                        } else {
                            assert(dv[a] == r0[a] && dv[b] == r0[b - 1]);
                            assert(r0[pos as int].start_at > s@.start_at);
                            assert(r0[b - 1].start_at >= r0[pos as int].start_at);
                        }
                    }
                }
            } else {
                proof {
                    assert(matching_sessions(self@.take(i as int + 1), from_timestamp, to_timestamp, lv)
                        == m0);
                }
            }
            i = i + 1;
        }
        proof {
            assert(self@.take(self@.len() as int) =~= self@);
        }
        r
    }

    /// Strips the label `name` from every session that carries it, leaving
    /// all other fields and all other sessions untouched, and reports how
    /// many sessions were actually modified. Removing a label that appears
    /// nowhere is not an error: the count is then zero.
    pub fn remove_label(&mut self, name: &str) -> (r: Result<u32, Error>)
        requires
            old(self)@.len() <= u32::MAX,
        ensures
            r matches Ok(c) && c == sessions_with_label(old(self)@, name@),
            final(self)@.len() == old(self)@.len(),
            forall|i: int|
                0 <= i < old(self)@.len() ==> final(self)@[i] == model_without_label(
                    old(self)@[i],
                    name@,
                ),
    {
        let sought = name.to_owned();
        let mut count: u32 = 0;
        let mut i: usize = 0;
        while i < self.sessions.len()
            invariant
                i <= self.sessions.len(),
                sought@ == name@,
                self@.len() == old(self)@.len(),
                old(self)@.len() <= u32::MAX,
                count <= i,
                count == sessions_with_label(old(self)@.take(i as int), name@),
                forall|j: int|
                    0 <= j < i ==> self@[j] == model_without_label(old(self)@[j], name@),
                forall|j: int| i <= j < self@.len() ==> self@[j] == old(self)@[j],
            decreases self.sessions.len() - i,
        {
            let s = &self.sessions[i];
            let carried = vec_contains_string(&s.labels, &sought);
            let kept = labels_remove_name(&s.labels, &sought);
            let updated = Session {
                id: s.id.clone(),
                start_at: s.start_at,
                end_at: s.end_at,
                note: clone_opt_string(&s.note),
                labels: kept,
            };
            proof {
                assert(self@[i as int] == old(self)@[i as int]);
                assert(updated@ =~= model_without_label(old(self)@[i as int], name@));
                assert(old(self)@.take(i as int + 1).drop_last() =~= old(self)@.take(i as int));
                assert(old(self)@.take(i as int + 1).last() == old(self)@[i as int]);
            }
            let ghost pre = self@;
            let ghost updated_model = updated@;
            self.sessions.set(i, updated);
            proof {
                assert(self@ =~= pre.update(i as int, updated_model));
            }
            if carried {
                count = count + 1;
            }
            i = i + 1;
        }
        proof {
            assert(old(self)@.take(self@.len() as int) =~= old(self)@);
        }
        Ok(count)
    }

    /// Collects every label that any session carries, each exactly once, in
    /// first-use order.
    pub fn get_all_labels(&self) -> (r: Vec<String>)
        ensures
            r.deep_view().no_duplicates(),
            forall|l: Seq<char>| #[trigger] r.deep_view().contains(l) <==> label_in_store(self@, l),
    {
        let mut r: Vec<String> = Vec::new();
        let mut i: usize = 0;
        while i < self.sessions.len()
            invariant
                i <= self.sessions.len(),
                r.deep_view().no_duplicates(),
                forall|l: Seq<char>| #[trigger] r.deep_view().contains(l) <==> label_in_store(
                    self@.take(i as int),
                    l,
                ),
            decreases self.sessions.len() - i,
        {
            let labels = &self.sessions[i].labels;
            proof {
                assert(labels.deep_view() == self@[i as int].labels);
            }
            let mut k: usize = 0;
            while k < labels.len()
                invariant
                    k <= labels.len(),
                    labels.deep_view() == self@[i as int].labels,
                    0 <= (i as int) < self@.len(),
                    r.deep_view().no_duplicates(),
                    forall|l: Seq<char>| #[trigger] r.deep_view().contains(l) <==> label_in_store(
                        self@.take(i as int),
                        l,
                    ) || exists|t: int|
                        0 <= t < k && #[trigger] self@[i as int].labels[t] == l,
                decreases labels.len() - k,
            {
                let lab = &labels[k];
                let ghost r0 = r.deep_view();
                let present = vec_contains_string(&r, lab);
                if !present {
                    r.push(lab.clone());
                }
                proof {
                    assert(lab@ == self@[i as int].labels[k as int]);
                    if !present {
                        assert(r.deep_view() =~= r0.push(lab@));
                        assert forall|a: int, b: int|
                            0 <= a < b < r.deep_view().len() implies r.deep_view()[a]
                            != r.deep_view()[b] by {
                            if b < r0.len() {
                                assert(r0[a] == r.deep_view()[a] && r0[b] == r.deep_view()[b]);
                            } else {
                                assert(r0[a] == r.deep_view()[a]);
                                if r.deep_view()[a] == lab@ {
                                    assert(r0.contains(lab@));
                                }
                            }
                        }
                        assert(r.deep_view().no_duplicates());
                    }
                    assert forall|l: Seq<char>| #[trigger] r.deep_view().contains(l) <==> (
                    label_in_store(self@.take(i as int), l) || exists|t: int|
                        0 <= t < k + 1 && #[trigger] self@[i as int].labels[t] == l) by {
                        let m = self@[i as int];
                        if r.deep_view().contains(l) {
                            let j = choose|j: int|
                                0 <= j < r.deep_view().len() && r.deep_view()[j] == l;
                            if j < r0.len() {
                                assert(r0[j] == l);
                                assert(r0.contains(l));
                            } else {
                                assert(l == lab@);
                                assert(m.labels[k as int] == l);
                            }
                            if r0.contains(l) && !label_in_store(self@.take(i as int), l) {
                                let t = choose|t: int| 0 <= t < k && #[trigger] m.labels[t] == l;
                                assert(m.labels[t] == l);
                            }
                        }
                        if label_in_store(self@.take(i as int), l) {
                            assert(r0.contains(l));
                            let j = choose|j: int| 0 <= j < r0.len() && r0[j] == l;
                            assert(r.deep_view()[j] == l);
                        }
                        if exists|t: int| 0 <= t < k + 1 && #[trigger] m.labels[t] == l {
                            let t = choose|t: int| 0 <= t < k + 1 && #[trigger] m.labels[t] == l;
                            if t < k {
                                assert(r0.contains(l));
                                let j = choose|j: int| 0 <= j < r0.len() && r0[j] == l;
                                assert(r.deep_view()[j] == l);
                            } else {
                                assert(l == lab@);
                                if present {
                                    assert(r0.contains(l));
                                    let j = choose|j: int| 0 <= j < r0.len() && r0[j] == l;
                                    assert(r.deep_view()[j] == l);
                                } else {
                                    assert(r.deep_view()[r0.len() as int] == l);
                                }
                            }
                        }
                    }
                }
                k = k + 1;
            }
            proof {
                let s1 = self@.take(i as int + 1);
                let s0 = self@.take(i as int);
                let m = self@[i as int];
                assert forall|l: Seq<char>| #[trigger] r.deep_view().contains(l) <==> label_in_store(
                    s1,
                    l,
                ) by {
                    if r.deep_view().contains(l) {
                        if label_in_store(s0, l) {
                            let j = choose|j: int|
                                0 <= j < s0.len() && #[trigger] s0[j].labels.contains(l);
                            assert(s1[j].labels.contains(l));
                        } else {
                            let t = choose|t: int|
                                0 <= t < labels.deep_view().len() && #[trigger] m.labels[t] == l;
                            assert(m.labels.contains(l));
                            assert(s1[i as int].labels.contains(l));
                        }
                    }
                    if label_in_store(s1, l) {
                        let j = choose|j: int| 0 <= j < s1.len() && #[trigger] s1[j].labels.contains(
                            l,
                        );
                        if j < i as int {
                            assert(s0[j].labels.contains(l));
                            assert(label_in_store(s0, l));
                        } else {
                            assert(s1[j] == m);
                            let t = choose|t: int| 0 <= t < m.labels.len() && m.labels[t] == l;
                            assert(0 <= t < labels.deep_view().len() && m.labels[t] == l);
                        }
                    }
                }
            }
            i = i + 1;
        }
        proof {
            assert(self@.take(self@.len() as int) =~= self@);
        }
        r
    }
}

} // verus!
