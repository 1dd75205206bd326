use vstd::prelude::*;

verus! {

/// The mathematical value of a [`Session`]: every field reduced to its view.
///
/// Contracts throughout the crate speak of sequences of these models rather
/// than of the executable type itself.
#[verifier::ext_equal]
pub ghost struct SessionModel {
    pub id: Seq<char>,
    pub start_at: i64,
    pub end_at: Option<i64>,
    pub note: Option<Seq<char>>,
    pub labels: Seq<Seq<char>>,
}

/// One tracked interval of work.
///
/// The identifier is assigned at creation and never changes; the start
/// instant is set once; the end instant is absent while the session is
/// running and is set at most once; the note and the labels are free text.
/// Instants are epoch seconds.
pub struct Session {
    pub id: String,
    pub start_at: i64,
    pub end_at: Option<i64>,
    pub note: Option<String>,
    pub labels: Vec<String>,
}

impl View for Session {
    type V = SessionModel;

    open spec fn view(&self) -> SessionModel {
        SessionModel {
            id: self.id@,
            start_at: self.start_at,
            end_at: self.end_at,
            note: self.note.deep_view(),
            labels: self.labels.deep_view(),
        }
    }
}

impl DeepView for Session {
    type V = SessionModel;

    open spec fn deep_view(&self) -> SessionModel {
        self@
    }
}

impl Clone for Session {
    fn clone(&self) -> (res: Self)
        ensures
            res@ == self@,
    {
        let res = Session {
            id: self.id.clone(),
            start_at: self.start_at,
            end_at: self.end_at,
            note: clone_opt_string(&self.note),
            labels: clone_string_vec(&self.labels),
        };
        proof {
            assert(res@ =~= self@);
        }
        res
    }
}

/// Clones an optional note, keeping its view.
pub fn clone_opt_string(s: &Option<String>) -> (r: Option<String>)
    ensures
        r.deep_view() == s.deep_view(),
{
    match s {
        Some(x) => Some(x.clone()),
        None => None,
    }
}

/// Clones a vector of strings, keeping its view.
pub fn clone_string_vec(v: &Vec<String>) -> (r: Vec<String>)
    ensures
        r.deep_view() == v.deep_view(),
{
    let mut r: Vec<String> = Vec::new();
    let mut i: usize = 0;
    while i < v.len()
        invariant
            i <= v.len(),
            r@.len() == i,
            forall|j: int| 0 <= j < i ==> r@[j]@ == v@[j]@,
        decreases v.len() - i,
    {
        r.push(v[i].clone());
        i = i + 1;
    }
    proof {
        assert(r.deep_view() =~= v.deep_view());
    }
    r
}

/// Holds when some session in `s` carries the identifier `id`.
pub open spec fn has_session_id(s: Seq<SessionModel>, id: Seq<char>) -> bool {
    exists|i: int| 0 <= i < s.len() && s[i].id == id
}

/// Holds when `i` is the first position in `s` whose session carries `id`.
pub open spec fn is_first_index_of_id(s: Seq<SessionModel>, id: Seq<char>, i: int) -> bool {
    &&& 0 <= i < s.len()
    &&& s[i].id == id
    &&& forall|j: int| 0 <= j < i ==> s[j].id != id
}

/// Holds when some session in `s` is still running (has no end instant).
pub open spec fn has_running(s: Seq<SessionModel>) -> bool {
    exists|i: int| 0 <= i < s.len() && s[i].end_at is None
}

/// Holds when `i` points at the running session that default end resolution
/// picks: the running session with the greatest start instant, and among
/// equal start instants the one appended last.
pub open spec fn is_newest_running(s: Seq<SessionModel>, i: int) -> bool {
    &&& 0 <= i < s.len()
    &&& s[i].end_at is None
    &&& forall|j: int| 0 <= j < s.len() && s[j].end_at is None ==> s[j].start_at <= s[i].start_at
    &&& forall|j: int| i < j < s.len() && s[j].end_at is None ==> s[j].start_at < s[i].start_at
}

/// Session identifiers are pairwise distinct.
pub open spec fn unique_ids(s: Seq<SessionModel>) -> bool {
    forall|i: int, j: int| 0 <= i < j < s.len() ==> s[i].id != s[j].id
}

/// The model of a session after it has been ended at `now` with note `note`.
pub open spec fn ended(m: SessionModel, now: i64, note: Option<Seq<char>>) -> SessionModel {
    SessionModel { end_at: Some(now), note, ..m }
}

/// The model of a session after its note has been replaced by `note`.
pub open spec fn with_note(m: SessionModel, note: Seq<char>) -> SessionModel {
    SessionModel { note: Some(note), ..m }
}

/// The view of an optional borrowed string.
pub open spec fn opt_str_view(s: Option<&str>) -> Option<Seq<char>> {
    match s {
        Some(x) => Some(x@),
        None => None,
    }
}

/// Ending by identifier can succeed: the first session carrying `id` exists
/// and is still running.
pub open spec fn can_end_by_id(s: Seq<SessionModel>, id: Seq<char>) -> bool {
    exists|i: int| #[trigger] is_first_index_of_id(s, id, i) && s[i].end_at is None
}

/// The label list `ls` with every occurrence of `name` removed.
pub open spec fn labels_without(ls: Seq<Seq<char>>, name: Seq<char>) -> Seq<Seq<char>> {
    ls.filter(|l: Seq<char>| l != name)
}

/// The model of a session after the label `name` has been stripped from it.
pub open spec fn model_without_label(m: SessionModel, name: Seq<char>) -> SessionModel {
    SessionModel { labels: labels_without(m.labels, name), ..m }
}

/// How many sessions of `s` carry the label `name` at least once: the
/// sessions that stripping the label actually modifies.
pub open spec fn sessions_with_label(s: Seq<SessionModel>, name: Seq<char>) -> int
    decreases s.len(),
{
    if s.len() == 0 {
        0
    } else {
        sessions_with_label(s.drop_last(), name) + if s.last().labels.contains(name) {
            1int
        } else {
            0int
        }
    }
}

/// Whether a session passes the three query filters: it started no earlier
/// than `from` (when given); it either still runs or ended no later than `to`
/// (when given); and it carries at least one of the requested labels (when
/// any are requested).
pub open spec fn session_matches(
    m: SessionModel,
    from: Option<i64>,
    to: Option<i64>,
    labels: Seq<Seq<char>>,
) -> bool {
    &&& (from matches Some(f) ==> f <= m.start_at)
    &&& (to matches Some(t) ==> (m.end_at matches Some(e) ==> e <= t))
    &&& (labels.len() > 0 ==> exists|k: int|
        0 <= k < m.labels.len() && labels.contains(#[trigger] m.labels[k]))
}

/// The subsequence of `s` that passes the query filters, in the order of `s`.
pub open spec fn matching_sessions(
    s: Seq<SessionModel>,
    from: Option<i64>,
    to: Option<i64>,
    labels: Seq<Seq<char>>,
) -> Seq<SessionModel>
    decreases s.len(),
{
    if s.len() == 0 {
        Seq::empty()
    } else {
        let rest = matching_sessions(s.drop_last(), from, to, labels);
        if session_matches(s.last(), from, to, labels) {
            rest.push(s.last())
        } else {
            rest
        }
    }
}

/// The matching sessions are exactly the sessions that pass the filters:
/// every entry of `s` that matches is among them, and they hold nothing but
/// matching entries of `s`.
pub proof fn lemma_matching_sessions_exact(
    s: Seq<SessionModel>,
    from: Option<i64>,
    to: Option<i64>,
    labels: Seq<Seq<char>>,
)
    ensures
        forall|i: int|
            0 <= i < s.len() && session_matches(#[trigger] s[i], from, to, labels)
                ==> matching_sessions(s, from, to, labels).contains(s[i]),
        forall|j: int|
            0 <= j < matching_sessions(s, from, to, labels).len() ==> session_matches(
                #[trigger] matching_sessions(s, from, to, labels)[j],
                from,
                to,
                labels,
            ) && s.contains(matching_sessions(s, from, to, labels)[j]),
    decreases s.len(),
{
    if s.len() > 0 {
        lemma_matching_sessions_exact(s.drop_last(), from, to, labels);
        let rest = matching_sessions(s.drop_last(), from, to, labels);
        let whole = matching_sessions(s, from, to, labels);
        assert forall|i: int|
            0 <= i < s.len() && session_matches(#[trigger] s[i], from, to, labels) implies whole
            .contains(s[i]) by {
            if i < s.len() - 1 {
                assert(s.drop_last()[i] == s[i]);
                assert(rest.contains(s[i]));
                let j = choose|j: int| 0 <= j < rest.len() && rest[j] == s[i];
                assert(whole[j] == s[i]);
            } else {
                assert(whole[whole.len() - 1] == s.last());
            }
        }
        assert forall|j: int| 0 <= j < whole.len() implies session_matches(
            #[trigger] whole[j],
            from,
            to,
            labels,
        ) && s.contains(whole[j]) by {
            if j < rest.len() {
                assert(whole[j] == rest[j]);
                let i = choose|i: int| 0 <= i < s.drop_last().len() && s.drop_last()[i] == rest[j];
                assert(s[i] == rest[j]);
            } else {
                assert(whole[j] == s.last());
                assert(s[s.len() - 1] == s.last());
            }
        }
    }
}

/// The sessions of `s` are ordered by ascending start instant.
pub open spec fn sorted_by_start(s: Seq<SessionModel>) -> bool {
    forall|i: int, j: int| 0 <= i < j < s.len() ==> s[i].start_at <= s[j].start_at
}

/// Holds when some session in `s` carries the label `l`.
pub open spec fn label_in_store(s: Seq<SessionModel>, l: Seq<char>) -> bool {
    exists|i: int| 0 <= i < s.len() && #[trigger] s[i].labels.contains(l)
}

/// Relates the store before and after a successful end operation: the ended
/// session is the one `id` names (or the newest running one when `id` is
/// absent), `result` is its model with the end instant and note set, and no
/// other session changes.
pub open spec fn is_end_transition(
    pre: Seq<SessionModel>,
    post: Seq<SessionModel>,
    id: Option<Seq<char>>,
    now: i64,
    note: Option<Seq<char>>,
    result: SessionModel,
) -> bool {
    exists|i: int|
        #![trigger pre.update(i, result)]
        {
            &&& match id {
                Some(x) => is_first_index_of_id(pre, x, i),
                None => is_newest_running(pre, i),
            }
            &&& result == ended(pre[i], now, note)
            &&& post == pre.update(i, result)
        }
}

/// Session identifiers stay pairwise distinct across any run of starts: a
/// successful start appends a session whose identifier no existing session
/// carries (see [`crate::store::Store::start_session`]), and that keeps the
/// identifiers unique.
pub proof fn lemma_start_preserves_unique_ids(s: Seq<SessionModel>, m: SessionModel)
    requires
        unique_ids(s),
        !has_session_id(s, m.id),
    ensures
        unique_ids(s.push(m)),
{
    let t = s.push(m);
    assert forall|i: int, j: int| 0 <= i < j < t.len() implies t[i].id != t[j].id by {
        if j < s.len() {
            assert(t[i] == s[i] && t[j] == s[j]);
        } else {
            assert(t[j] == m);
            assert(t[i] == s[i]);
            if s[i].id == m.id {
                assert(has_session_id(s, m.id));
            }
        }
    }
}

/// The other mutations — ending a session, replacing a note, stripping a
/// label — replace one session by one carrying the same identifier, and that
/// too keeps the identifiers pairwise distinct.
pub proof fn lemma_update_preserves_unique_ids(s: Seq<SessionModel>, i: int, m: SessionModel)
    requires
        unique_ids(s),
        0 <= i < s.len(),
        m.id == s[i].id,
    ensures
        unique_ids(s.update(i, m)),
{
}

/// Default end resolution is unambiguous: at most one position can be the
/// newest running session, so ending without an identifier touches exactly
/// one session — the running one with the latest start instant.
pub proof fn lemma_newest_running_unique(s: Seq<SessionModel>, i: int, j: int)
    requires
        is_newest_running(s, i),
        is_newest_running(s, j),
    ensures
        i == j,
{
    if i < j {
        assert(s[j].start_at < s[i].start_at);
        assert(s[i].start_at <= s[j].start_at);
    }
    if j < i {
        assert(s[i].start_at < s[j].start_at);
        assert(s[j].start_at <= s[i].start_at);
    }
}

/// Ending a session twice fails the second time: after a successful end by
/// identifier, that identifier still resolves to the same position, which now
/// holds an ended session. By [`crate::store::Store::end_session_at`]'s
/// contract a second end with the same identifier therefore returns the
/// conflict error and leaves the store — including the end instant and note
/// that the first call set — unchanged.
pub proof fn lemma_end_twice_conflicts(
    pre: Seq<SessionModel>,
    post: Seq<SessionModel>,
    id: Seq<char>,
    now: i64,
    note: Option<Seq<char>>,
    result: SessionModel,
)
    requires
        is_end_transition(pre, post, Some(id), now, note, result),
    ensures
        has_session_id(post, id),
        !can_end_by_id(post, id),
{
    let i = choose|i: int|
        #![trigger pre.update(i, result)]
        {
            &&& is_first_index_of_id(pre, id, i)
            &&& result == ended(pre[i], now, note)
            &&& post == pre.update(i, result)
        };
    assert(post[i].id == id);
    assert(has_session_id(post, id));
    assert forall|j: int| #[trigger]
        is_first_index_of_id(post, id, j) && post[j].end_at is None implies false by {
        if j < i {
            assert(post[j].id == pre[j].id);
        } else if j > i {
            assert(post[i].id == id);
        } else {
            assert(post[i].end_at == Some(now));
        }
    }
    if can_end_by_id(post, id) {
        let j = choose|j: int| #[trigger]
            is_first_index_of_id(post, id, j) && post[j].end_at is None;
        assert(false);
    }
}

} // verus!
