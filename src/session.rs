use vstd::prelude::*;

use std::collections::HashMap;

use rand::Rng;

use crate::cast::CastStatus;
use crate::text::{decimal, four_digit_code, four_digits, push_decimal};
use crate::youtube::{create_video_info, placeholder_title, validate_youtube_url, youtube_url_match, youtube_video_id, VideoInfo};

verus! {

broadcast use vstd::std_specs::hash::group_hash_axioms;

/// One submitted video, waiting or already played.
#[derive(Clone, Debug)]
pub struct QueueItem {
    pub video_info: VideoInfo,
    pub added_by: u64,
    pub username: Option<String>,
    pub added_at: i64,
    pub played: bool,
    pub note: Option<String>,
}

/// A shared queue, identified by its code.
#[derive(Clone, Debug)]
pub struct Session {
    pub code: String,
    pub users: Vec<(u64, Option<String>)>,
    pub queue: Vec<QueueItem>,
    pub owner: u64,
    pub cast_status: CastStatus,
    pub created_at: i64,
}

/// The store of all live sessions and the membership index, which maps a
/// caller to the code of the session they occupy.
#[derive(Clone, Debug)]
pub struct SessionState {
    pub sessions: Vec<Session>,
    pub user_sessions: HashMap<u64, String>,
}

/// Why a video could not be queued.
#[derive(Clone, Copy, Debug, PartialEq, Eq, Structural)]
pub enum QueueError {
    /// The caller occupies no session.
    NotInSession,
    /// The link is not a supported video link.
    InvalidUrl,
}

/// Whether `u` is in the member list `users`.
pub open spec fn lists(users: Seq<(u64, Option<String>)>, u: u64) -> bool {
    exists|k: int| 0 <= k < users.len() && #[trigger] users[k].0 == u
}

/// Holds of the members other than `u`.
pub open spec fn other_than(u: u64) -> spec_fn((u64, Option<String>)) -> bool {
    |m: (u64, Option<String>)| m.0 != u
}

/// The member list `users` without `u`.
pub open spec fn without_user(users: Seq<(u64, Option<String>)>, u: u64) -> Seq<(u64, Option<String>)> {
    users.filter(other_than(u))
}

/// Holds of the items that wait to be played.
pub open spec fn is_waiting() -> spec_fn(QueueItem) -> bool {
    |it: QueueItem| !it.played
}

/// Holds of the items that were played.
pub open spec fn is_played() -> spec_fn(QueueItem) -> bool {
    |it: QueueItem| it.played
}

/// The items of a queue that wait to be played, in insertion order.
pub open spec fn pending(q: Seq<QueueItem>) -> Seq<QueueItem> {
    q.filter(is_waiting())
}

/// The items of a queue that were played, in play order.
pub open spec fn played(q: Seq<QueueItem>) -> Seq<QueueItem> {
    q.filter(is_played())
}

/// Played items form a prefix of the queue: an item is played only after
/// every item added before it.
pub open spec fn played_first(q: Seq<QueueItem>) -> bool {
    forall|i: int, j: int| 0 <= i < j < q.len() && #[trigger] q[j].played ==> #[trigger] q[i].played
}

/// Whether a queue holds an item of video `id`.
pub open spec fn holds_video(q: Seq<QueueItem>, id: Seq<char>) -> bool {
    exists|k: int| 0 <= k < q.len() && #[trigger] q[k].video_info.id@ == id
}

/// `it`, marked played.
pub open spec fn as_played(it: QueueItem) -> QueueItem {
    QueueItem { played: true, ..it }
}

impl Session {
    /// The session is in a state the store can hold: it has a member, and
    /// its played items precede its waiting ones.
    pub open spec fn wf(&self) -> bool {
        &&& self.users@.len() > 0
        &&& played_first(self.queue@)
    }
}

/// Session codes are pairwise distinct.
pub open spec fn codes_unique(s: Seq<Session>) -> bool {
    forall|i: int, j: int| 0 <= i < j < s.len() ==> #[trigger] s[i].code@ != #[trigger] s[j].code@
}

/// Every session of the sequence is well formed.
pub open spec fn all_wf(s: Seq<Session>) -> bool {
    forall|i: int| 0 <= i < s.len() ==> #[trigger] s[i].wf()
}

/// Two sessions agree on everything but their member lists.
pub open spec fn same_but_users(a: Session, b: Session) -> bool {
    &&& a.code@ == b.code@
    &&& a.queue@ == b.queue@
    &&& a.owner == b.owner
    &&& a.cast_status == b.cast_status
    &&& a.created_at == b.created_at
}

/// Two sessions agree on everything but their queues and cast status.
pub open spec fn same_but_queue(a: Session, b: Session) -> bool {
    &&& a.code@ == b.code@
    &&& a.users@ == b.users@
    &&& a.owner == b.owner
    &&& a.created_at == b.created_at
}

/// Two sessions agree on every field.
pub open spec fn same_session(a: Session, b: Session) -> bool {
    same_but_users(a, b) && a.users@ == b.users@
}

/// How a member is shown: their name, or "Anonymous".
pub open spec fn display_name(name: Option<String>) -> Seq<char> {
    match name {
        Some(s) => s@,
        None => "Anonymous"@,
    }
}

/// One line per member, each starting on a new line with a dash.
pub open spec fn member_lines(users: Seq<(u64, Option<String>)>) -> Seq<char>
    decreases users.len(),
{
    if users.len() == 0 {
        Seq::<char>::empty()
    } else {
        member_lines(users.drop_last()) + "\n- "@ + display_name(users.last().1)
    }
}

/// The summary of session `s` as shown to `u`, `elapsed` seconds after its
/// creation: code, duration in hours and minutes, member count, and, for
/// the owner alone, the member list.
pub open spec fn info_text(s: Session, u: u64, elapsed: nat) -> Seq<char> {
    "Session ID: "@ + s.code@ + "\nDuration: "@ + decimal(elapsed / 3600) + "h "@
        + decimal((elapsed % 3600) / 60) + "m\nUsers in session: "@ + decimal(s.users@.len())
        + if s.owner == u {
        "\n\nUsers in session:"@ + member_lines(s.users@)
    } else {
        Seq::<char>::empty()
    }
}

/// The seconds from `from` to `to`, or zero when `to` is not later.
pub open spec fn elapsed(from: i64, to: i64) -> nat {
    if to > from { (to - from) as nat } else { 0 }
}

/// The index entry of `u` for code `c` names a session of `sessions` that
/// lists `u`.
pub open spec fn entry_valid(sessions: Seq<Session>, u: u64, c: Seq<char>) -> bool {
    exists|i: int| 0 <= i < sessions.len() && #[trigger] sessions[i].code@ == c && lists(sessions[i].users@, u)
}

/// The index that a list of entries gives, a later entry for a caller
/// replacing an earlier one.
pub open spec fn entries_map(entries: Seq<(u64, String)>) -> Map<u64, Seq<char>>
    decreases entries.len(),
{
    if entries.len() == 0 {
        Map::<u64, Seq<char>>::empty()
    } else {
        entries_map(entries.drop_last()).insert(entries.last().0, entries.last().1@)
    }
}

/// The parts of a saved store form a valid store: codes are unique, each
/// session is well formed, and each index entry names a session listing
/// its caller.
pub open spec fn snapshot_valid(sessions: Seq<Session>, entries: Seq<(u64, String)>) -> bool {
    &&& codes_unique(sessions)
    &&& all_wf(sessions)
    &&& forall|k: int| 0 <= k < entries.len() ==> entry_valid(sessions, (#[trigger] entries[k]).0, entries[k].1@)
}

/// Whether a list of index entries names each caller once.
pub open spec fn callers_distinct(entries: Seq<(u64, String)>) -> bool {
    forall|a: int, b: int| 0 <= a < b < entries.len() ==> #[trigger] entries[a].0 != #[trigger] entries[b].0
}

/// `new` is `old` with `u` taken off the member list of session `c`; the
/// session is deleted once no member is left. No other session changes.
pub open spec fn member_removed(old: SessionState, new: SessionState, c: Seq<char>, u: u64) -> bool {
    &&& forall|c2: Seq<char>| c2 != c ==> #[trigger] new.has_session(c2) == old.has_session(c2)
    &&& forall|c2: Seq<char>| c2 != c && old.has_session(c2) ==> same_session(#[trigger] new.session(c2), old.session(c2))
    &&& if without_user(old.session(c).users@, u).len() == 0 {
        !new.has_session(c)
    } else {
        &&& new.has_session(c)
        &&& new.session(c).users@ == without_user(old.session(c).users@, u)
        &&& same_but_users(new.session(c), old.session(c))
    }
}

/// `new` is `old` with `u`, named `name`, appended to the member list of
/// session `c` unless already listed there. No other session changes.
pub open spec fn member_added(old: SessionState, new: SessionState, c: Seq<char>, u: u64, name: Option<String>) -> bool {
    &&& forall|c2: Seq<char>| #[trigger] new.has_session(c2) == old.has_session(c2)
    &&& forall|c2: Seq<char>| c2 != c && old.has_session(c2) ==> same_session(#[trigger] new.session(c2), old.session(c2))
    &&& new.session(c).users@ == if lists(old.session(c).users@, u) {
        old.session(c).users@
    } else {
        old.session(c).users@.push((u, name))
    }
    &&& same_but_users(new.session(c), old.session(c))
}

/// `new` is `old` with a new session of code `c` owned by `u`, whose sole
/// member is `u` named `name`, with an empty queue and nothing cast, and with
/// the index entry of `u` pointing to it. No other session changes.
pub open spec fn session_created(old: SessionState, new: SessionState, u: u64, name: Option<String>, c: Seq<char>) -> bool {
    &&& !old.has_session(c)
    &&& new.index() == old.index().insert(u, c)
    &&& new.has_session(c)
    &&& new.session(c).users@ == seq![(u, name)]
    &&& new.session(c).queue@.len() == 0
    &&& new.session(c).owner == u
    &&& new.session(c).cast_status.is_empty()
    &&& forall|c2: Seq<char>| c2 != c ==> #[trigger] new.has_session(c2) == old.has_session(c2)
    &&& forall|c2: Seq<char>| c2 != c && old.has_session(c2) ==> same_session(#[trigger] new.session(c2), old.session(c2))
}

/// `new` differs from `old` at most in the queue and the cast status of
/// session `c`.
pub open spec fn only_queue_changed(old: SessionState, new: SessionState, c: Seq<char>) -> bool {
    &&& new.user_sessions@ == old.user_sessions@
    &&& forall|c2: Seq<char>| #[trigger] new.has_session(c2) == old.has_session(c2)
    &&& forall|c2: Seq<char>| c2 != c && old.has_session(c2) ==> same_session(#[trigger] new.session(c2), old.session(c2))
    &&& same_but_queue(new.session(c), old.session(c))
}

/// Leaving keeps the membership index and the member lists in agreement.
pub proof fn lemma_leave_consistent(old: SessionState, new: SessionState, u: u64)
    requires
        old.wf(),
        old.consistent(),
        old.in_session(u),
        new.index() == old.index().remove(u),
        member_removed(old, new, old.index()[u], u),
    ensures
        new.consistent(),
{
    let c = old.index()[u];
    assert(old.points(u));
    assert forall|c2: Seq<char>, k: int|
        new.has_session(c2) && 0 <= k < new.session(c2).users@.len() implies {
            let v = #[trigger] new.session(c2).users@[k].0;
            new.index().contains_key(v) && new.index()[v] == c2
        } by {
        let v = new.session(c2).users@[k].0;
        if c2 == c {
            lemma_without_user_member(old.session(c).users@, u, k);
            let k2 = choose|k2: int| 0 <= k2 < old.session(c).users@.len()
                && old.session(c).users@[k2] == without_user(old.session(c).users@, u)[k];
            assert(old.session(c).users@[k2].0 == v);
        } else {
            assert(old.has_session(c2));
            assert(old.session(c2).users@[k].0 == v);
        }
    }
}

/// Joining keeps the membership index and the member lists in agreement,
/// when the caller stays in their session or had none.
pub proof fn lemma_join_consistent(old: SessionState, new: SessionState, u: u64, name: Option<String>, code: Seq<char>)
    requires
        old.wf(),
        old.consistent(),
        old.has_session(code),
        !(old.in_session(u) && old.index()[u] != code),
        new.index() == old.index().insert(u, code),
        member_added(old, new, code, u, name),
    ensures
        new.consistent(),
{
    assert forall|c2: Seq<char>, k: int|
        new.has_session(c2) && 0 <= k < new.session(c2).users@.len() implies {
            let v = #[trigger] new.session(c2).users@[k].0;
            new.index().contains_key(v) && new.index()[v] == c2
        } by {
        let v = new.session(c2).users@[k].0;
        if c2 == code {
            if k < old.session(code).users@.len() {
                assert(old.session(code).users@[k].0 == v);
            }
        } else {
            assert(old.session(c2).users@[k].0 == v);
        }
    }
}

/// Moving to another session keeps the membership index and the member
/// lists in agreement.
pub proof fn lemma_move_consistent(
    old: SessionState,
    mid: SessionState,
    new: SessionState,
    u: u64,
    name: Option<String>,
    code: Seq<char>,
)
    requires
        old.wf(),
        old.consistent(),
        old.has_session(code),
        old.in_session(u),
        old.index()[u] != code,
        new.index() == old.index().insert(u, code),
        member_removed(old, mid, old.index()[u], u),
        member_added(mid, new, code, u, name),
    ensures
        new.consistent(),
{
    let prev = old.index()[u];
    assert(old.points(u));
    assert(mid.has_session(code));
    assert(same_session(mid.session(code), old.session(code)));
    assert forall|c2: Seq<char>, k: int|
        new.has_session(c2) && 0 <= k < new.session(c2).users@.len() implies {
            let v = #[trigger] new.session(c2).users@[k].0;
            new.index().contains_key(v) && new.index()[v] == c2
        } by {
        let v = new.session(c2).users@[k].0;
        if c2 == code {
            if k < old.session(code).users@.len() {
                assert(old.session(code).users@[k].0 == v);
            }
        } else if c2 == prev {
            assert(mid.has_session(prev));
            lemma_without_user_member(old.session(prev).users@, u, k);
            let k2 = choose|k2: int| 0 <= k2 < old.session(prev).users@.len()
                && old.session(prev).users@[k2] == without_user(old.session(prev).users@, u)[k];
            assert(old.session(prev).users@[k2].0 == v);
        } else {
            assert(mid.has_session(c2));
            assert(old.session(c2).users@[k].0 == v);
        }
    }
}

/// When the last member leaves a session, the session is deleted, and no
/// caller who was in it occupies a session any more.
pub proof fn lemma_last_leave_deletes(old: SessionState, new: SessionState, u: u64, v: u64)
    requires
        old.wf(),
        old.in_session(u),
        new.index() == old.index().remove(u),
        member_removed(old, new, old.index()[u], u),
        without_user(old.session_of(u).users@, u).len() == 0,
        old.in_session(v),
        old.index()[v] == old.index()[u],
    ensures
        !new.has_session(old.index()[u]),
        !new.in_session(v),
{
    assert(old.points(v));
    if v != u {
        lemma_still_listed(old.session_of(u).users@, u, v);
        let w = without_user(old.session_of(u).users@, u);
        assert(w.len() > 0);
    }
}

/// Changing queues and cast status keeps the membership index and the
/// member lists in agreement.
pub proof fn lemma_queue_change_consistent(old: SessionState, new: SessionState, c: Seq<char>)
    requires
        old.consistent(),
        old.has_session(c),
        only_queue_changed(old, new, c),
    ensures
        new.consistent(),
{
    assert(new.index() == old.index());
    assert forall|c2: Seq<char>, k: int|
        new.has_session(c2) && 0 <= k < new.session(c2).users@.len() implies {
            let v = #[trigger] new.session(c2).users@[k].0;
            new.index().contains_key(v) && new.index()[v] == c2
        } by {
        assert(old.has_session(c2));
        if c2 != c {
            assert(same_session(new.session(c2), old.session(c2)));
        }
        assert(old.session(c2).users@[k] == new.session(c2).users@[k]);
    }
}

/// Starting a session keeps the membership index and the member lists in
/// agreement, when its owner had no session.
pub proof fn lemma_create_consistent(old: SessionState, new: SessionState, u: u64, name: Option<String>, c: Seq<char>)
    requires
        old.consistent(),
        !old.in_session(u),
        session_created(old, new, u, name, c),
    ensures
        new.consistent(),
{
    assert forall|c2: Seq<char>, k: int|
        new.has_session(c2) && 0 <= k < new.session(c2).users@.len() implies {
            let v = #[trigger] new.session(c2).users@[k].0;
            new.index().contains_key(v) && new.index()[v] == c2
        } by {
        if c2 != c {
            assert(old.has_session(c2));
            assert(old.session(c2).users@[k] == new.session(c2).users@[k]);
        }
    }
}

/// Restoring the parts of a well-formed store gives it back: its sessions
/// and an entry list of its index, naming each caller once, form a valid
/// snapshot whose index is the store's.
pub proof fn lemma_snapshot_round_trip(s: SessionState, entries: Seq<(u64, String)>)
    requires
        s.wf(),
        callers_distinct(entries),
        entries_map(entries) == s.index(),
    ensures
        snapshot_valid(s.sessions@, entries),
        entries_map(entries) == s.index(),
{
    assert forall|k: int| 0 <= k < entries.len() implies entry_valid(s.sessions@, (#[trigger] entries[k]).0, entries[k].1@) by {
        lemma_entries_map_has(entries, k);
        let u = entries[k].0;
        assert(s.index().contains_key(u));
        assert(s.points(u));
        let c = s.index()[u];
        let i = s.position(c);
        assert(s.sessions@[i].code@ == c);
    }
}

proof fn lemma_sessions_update(old: SessionState, new: SessionState, i: int)
    requires
        codes_unique(old.sessions@),
        0 <= i < old.sessions@.len(),
        new.sessions@ == old.sessions@.update(i, new.sessions@[i]),
        new.sessions@[i].code@ == old.sessions@[i].code@,
    ensures
        codes_unique(new.sessions@),
        forall|c: Seq<char>| #[trigger] new.has_session(c) == old.has_session(c),
        forall|c: Seq<char>| c != old.sessions@[i].code@ && old.has_session(c)
            ==> #[trigger] new.session(c) == old.session(c),
        new.has_session(old.sessions@[i].code@),
        new.session(old.sessions@[i].code@) == new.sessions@[i],
{
    assert forall|a: int, b: int| 0 <= a < b < new.sessions@.len()
        implies #[trigger] new.sessions@[a].code@ != #[trigger] new.sessions@[b].code@ by {
        assert(old.sessions@[a].code@ != old.sessions@[b].code@);
    }
    assert forall|c: Seq<char>| #[trigger] new.has_session(c) == old.has_session(c) by {
        if old.has_session(c) {
            let j = old.position(c);
            assert(new.sessions@[j].code@ == c);
        }
        if new.has_session(c) {
            let j = new.position(c);
            assert(old.sessions@[j].code@ == c);
        }
    }
    assert forall|c: Seq<char>| c != old.sessions@[i].code@ && old.has_session(c)
        implies #[trigger] new.session(c) == old.session(c) by {
        let j = old.position(c);
        old.lemma_position(j);
        new.lemma_position(j);
    }
    new.lemma_position(i);
}

proof fn lemma_sessions_remove(old: SessionState, new: SessionState, i: int)
    requires
        codes_unique(old.sessions@),
        0 <= i < old.sessions@.len(),
        new.sessions@ == old.sessions@.remove(i),
    ensures
        codes_unique(new.sessions@),
        forall|c: Seq<char>| c != old.sessions@[i].code@ ==> #[trigger] new.has_session(c) == old.has_session(c),
        forall|c: Seq<char>| c != old.sessions@[i].code@ && old.has_session(c)
            ==> #[trigger] new.session(c) == old.session(c),
        !new.has_session(old.sessions@[i].code@),
{
    assert forall|a: int, b: int| 0 <= a < b < new.sessions@.len()
        implies #[trigger] new.sessions@[a].code@ != #[trigger] new.sessions@[b].code@ by {
        let a0 = if a < i { a } else { a + 1 };
        let b0 = if b < i { b } else { b + 1 };
        assert(old.sessions@[a0].code@ != old.sessions@[b0].code@);
    }
    assert forall|c: Seq<char>| c != old.sessions@[i].code@ implies #[trigger] new.has_session(c) == old.has_session(c) by {
        if old.has_session(c) {
            let j = old.position(c);
            let j1 = if j < i { j } else { j - 1 };
            assert(new.sessions@[j1].code@ == c);
        }
        if new.has_session(c) {
            let j = new.position(c);
            let j0 = if j < i { j } else { j + 1 };
            assert(old.sessions@[j0].code@ == c);
        }
    }
    assert forall|c: Seq<char>| c != old.sessions@[i].code@ && old.has_session(c)
        implies #[trigger] new.session(c) == old.session(c) by {
        let j = old.position(c);
        old.lemma_position(j);
        let j1 = if j < i { j } else { j - 1 };
        assert(new.sessions@[j1] == old.sessions@[j]);
        new.lemma_position(j1);
    }
    if new.has_session(old.sessions@[i].code@) {
        let j = new.position(old.sessions@[i].code@);
        let j0 = if j < i { j } else { j + 1 };
        assert(old.sessions@[j0].code@ == old.sessions@[i].code@);
        if j0 < i {
            assert(old.sessions@[j0].code@ != old.sessions@[i].code@);
        } else {
            assert(old.sessions@[i].code@ != old.sessions@[j0].code@);
        }
    }
}

proof fn lemma_sessions_push(old: SessionState, new: SessionState, s: Session)
    requires
        codes_unique(old.sessions@),
        !old.has_session(s.code@),
        new.sessions@ == old.sessions@.push(s),
    ensures
        codes_unique(new.sessions@),
        forall|c: Seq<char>| c != s.code@ ==> #[trigger] new.has_session(c) == old.has_session(c),
        forall|c: Seq<char>| c != s.code@ && old.has_session(c)
            ==> #[trigger] new.session(c) == old.session(c),
        new.has_session(s.code@),
        new.session(s.code@) == s,
{
    let n = old.sessions@.len() as int;
    assert forall|a: int, b: int| 0 <= a < b < new.sessions@.len()
        implies #[trigger] new.sessions@[a].code@ != #[trigger] new.sessions@[b].code@ by {
        if b == n {
            assert(old.sessions@[a].code@ == new.sessions@[a].code@);
        } else {
            assert(old.sessions@[a].code@ != old.sessions@[b].code@);
        }
    }
    assert forall|c: Seq<char>| c != s.code@ implies #[trigger] new.has_session(c) == old.has_session(c) by {
        if old.has_session(c) {
            let j = old.position(c);
            assert(new.sessions@[j].code@ == c);
        }
        if new.has_session(c) {
            let j = new.position(c);
            assert(old.sessions@[j].code@ == c);
        }
    }
    assert forall|c: Seq<char>| c != s.code@ && old.has_session(c)
        implies #[trigger] new.session(c) == old.session(c) by {
        let j = old.position(c);
        old.lemma_position(j);
        new.lemma_position(j);
    }
    new.lemma_position(n);
}

proof fn lemma_filter_all<A>(s: Seq<A>, pred: spec_fn(A) -> bool)
    requires
        forall|i: int| 0 <= i < s.len() ==> pred(#[trigger] s[i]),
    ensures
        s.filter(pred) == s,
    decreases s.len(),
{
    if s.len() == 0 {
        s.lemma_filter_len(pred);
        assert(s.filter(pred) =~= s);
    } else {
        let d = s.drop_last();
        assert forall|i: int| 0 <= i < d.len() implies pred(#[trigger] d[i]) by {
            assert(d[i] == s[i]);
        }
        lemma_filter_all(d, pred);
        assert(s == d.push(s.last()));
        d.lemma_filter_push(s.last(), pred);
    }
}

proof fn lemma_filter_none<A>(s: Seq<A>, pred: spec_fn(A) -> bool)
    requires
        forall|i: int| 0 <= i < s.len() ==> !pred(#[trigger] s[i]),
    ensures
        s.filter(pred) == Seq::<A>::empty(),
    decreases s.len(),
{
    if s.len() == 0 {
        s.lemma_filter_len(pred);
        assert(s.filter(pred) =~= Seq::<A>::empty());
    } else {
        let d = s.drop_last();
        assert forall|i: int| 0 <= i < d.len() implies !pred(#[trigger] d[i]) by {
            assert(d[i] == s[i]);
        }
        lemma_filter_none(d, pred);
        assert(s == d.push(s.last()));
        d.lemma_filter_push(s.last(), pred);
    }
}

/// With the played items first, the played ones are the queue up to the
/// first waiting item `p`, and the waiting ones are the rest.
proof fn lemma_queue_split(q: Seq<QueueItem>, p: int)
    requires
        played_first(q),
        0 <= p <= q.len(),
        forall|j: int| 0 <= j < p ==> (#[trigger] q[j]).played,
        p < q.len() ==> !q[p].played,
    ensures
        played(q) == q.take(p),
        pending(q) == q.skip(p),
{
    let a = q.take(p);
    let b = q.skip(p);
    assert(q == a + b);
    assert forall|i: int| 0 <= i < b.len() implies !(#[trigger] b[i]).played by {
        assert(b[i] == q[p + i]);
        if b[i].played && i > 0 {
            assert(q[p].played);
        }
    }
    assert forall|i: int| 0 <= i < a.len() implies (#[trigger] a[i]).played by {
        assert(a[i] == q[i]);
    }
    Seq::filter_distributes_over_add(a, b, is_played());
    Seq::filter_distributes_over_add(a, b, is_waiting());
    lemma_filter_all(a, is_played());
    lemma_filter_none(b, is_played());
    lemma_filter_none(a, is_waiting());
    lemma_filter_all(b, is_waiting());
    assert(a + Seq::<QueueItem>::empty() == a);
    assert(Seq::<QueueItem>::empty() + b == b);
}

proof fn lemma_still_listed(users: Seq<(u64, Option<String>)>, u: u64, v: u64)
    requires
        lists(users, v),
        v != u,
    ensures
        lists(without_user(users, u), v),
{
    let k = choose|k: int| 0 <= k < users.len() && #[trigger] users[k].0 == v;
    users.lemma_filter_contains(other_than(u), k);
    let w = without_user(users, u);
    let j = choose|j: int| 0 <= j < w.len() && w[j] == users[k];
    assert(w[j].0 == v);
}

proof fn lemma_without_user_member(users: Seq<(u64, Option<String>)>, u: u64, k: int)
    requires
        0 <= k < without_user(users, u).len(),
    ensures
        without_user(users, u)[k].0 != u,
        exists|k2: int| 0 <= k2 < users.len() && users[k2] == without_user(users, u)[k],
{
    let w = without_user(users, u);
    users.lemma_filter_pred(other_than(u), k);
    assert(w.contains(w[k]));
    users.lemma_filter_contains_rev(other_than(u), w[k]);
}

proof fn lemma_entries_map_has(entries: Seq<(u64, String)>, k: int)
    requires
        callers_distinct(entries),
        0 <= k < entries.len(),
    ensures
        entries_map(entries).contains_key(entries[k].0),
        entries_map(entries)[entries[k].0] == entries[k].1@,
    decreases entries.len(),
{
    let d = entries.drop_last();
    if k < entries.len() - 1 {
        assert(d[k] == entries[k]);
        assert forall|a: int, b: int| 0 <= a < b < d.len() implies #[trigger] d[a].0 != #[trigger] d[b].0 by {
            assert(entries[a].0 != entries[b].0);
        }
        lemma_entries_map_has(d, k);
        assert(entries[k].0 != entries[entries.len() - 1].0);
    }
}

proof fn lemma_entries_map_valid(sessions: Seq<Session>, entries: Seq<(u64, String)>, u: u64)
    requires
        forall|k: int| 0 <= k < entries.len() ==> entry_valid(sessions, (#[trigger] entries[k]).0, entries[k].1@),
        entries_map(entries).contains_key(u),
    ensures
        entry_valid(sessions, u, entries_map(entries)[u]),
    decreases entries.len(),
{
    let d = entries.drop_last();
    let last = entries[entries.len() - 1];
    if u != last.0 {
        assert forall|k: int| 0 <= k < d.len() implies entry_valid(sessions, (#[trigger] d[k]).0, d[k].1@) by {
            assert(d[k] == entries[k]);
        }
        lemma_entries_map_valid(sessions, d, u);
    }
}

/// Relies on rand::thread_rng and Rng::gen_range: the value lies in `0..bound`.
#[verifier::external_body]
fn random_below(bound: u32) -> (r: u32)
    requires
        bound > 0,
    ensures
        r < bound,
{
    rand::thread_rng().gen_range(0..bound)
}

/// Relies on chrono::Utc::now and DateTime::timestamp: the current time in
/// whole seconds since the Unix epoch.
#[verifier::external_body]
fn current_timestamp() -> (r: i64) {
    chrono::Utc::now().timestamp()
}

/// Whether `url` is a supported video link.
pub fn is_valid_youtube_url(url: &str) -> (r: bool)
    ensures
        r == youtube_url_match(url@),
{
    validate_youtube_url(url)
}

/// A random four-digit session code.
pub fn generate_session_code() -> (r: String)
    ensures
        exists|n: nat| n < 10000 && r@ == four_digits(n),
{
    let n = random_below(10000);
    let r = four_digit_code(n);
    assert(r@ == four_digits(n as nat));
    r
}

fn copy_name(n: &Option<String>) -> (r: Option<String>)
    ensures
        r == *n,
{
    match n {
        Some(s) => Some(s.clone()),
        None => None,
    }
}

fn copy_video(v: &VideoInfo) -> (r: VideoInfo)
    ensures
        r == *v,
{
    VideoInfo { id: v.id.clone(), title: copy_name(&v.title), url: v.url.clone() }
}

fn copy_item(it: &QueueItem) -> (r: QueueItem)
    ensures
        r == *it,
{
    QueueItem {
        video_info: copy_video(&it.video_info),
        added_by: it.added_by,
        username: copy_name(&it.username),
        added_at: it.added_at,
        played: it.played,
        note: copy_name(&it.note),
    }
}

/// The position of the first waiting item of `q`, or its length when
/// every item was played.
fn first_waiting(q: &Vec<QueueItem>) -> (p: usize)
    ensures
        p <= q@.len(),
        forall|j: int| 0 <= j < p ==> (#[trigger] q@[j]).played,
        p < q@.len() ==> !q@[p as int].played,
{
    let mut p: usize = 0;
    while p < q.len()
        invariant
            p <= q@.len(),
            forall|j: int| 0 <= j < p ==> (#[trigger] q@[j]).played,
        decreases q@.len() - p,
    {
        if !q[p].played {
            return p;
        }
        p = p + 1;
    }
    p
}

fn users_without(users: &Vec<(u64, Option<String>)>, u: u64) -> (r: Vec<(u64, Option<String>)>)
    ensures
        r@ == without_user(users@, u),
{
    let mut r: Vec<(u64, Option<String>)> = Vec::new();
    let mut k: usize = 0;
    while k < users.len()
        invariant
            k <= users@.len(),
            r@ == without_user(users@.take(k as int), u),
        decreases users@.len() - k,
    {
        proof {
            assert(users@.take(k as int + 1) == users@.take(k as int).push(users@[k as int]));
            users@.take(k as int).lemma_filter_push(users@[k as int], other_than(u));
        }
        if users[k].0 != u {
            r.push((users[k].0, copy_name(&users[k].1)));
        }
        k = k + 1;
    }
    assert(users@.take(users@.len() as int) == users@);
    r
}

impl SessionState {
    /// The membership index as a map from caller to session code.
    pub open spec fn index(&self) -> Map<u64, Seq<char>> {
        self.user_sessions@.map_values(|c: String| c@)
    }

    /// Whether a live session has code `c`.
    pub open spec fn has_session(&self, c: Seq<char>) -> bool {
        exists|i: int| 0 <= i < self.sessions@.len() && #[trigger] self.sessions@[i].code@ == c
    }

    /// The position of the live session with code `c`.
    pub open spec fn position(&self, c: Seq<char>) -> int {
        choose|i: int| 0 <= i < self.sessions@.len() && #[trigger] self.sessions@[i].code@ == c
    }

    /// The live session with code `c`.
    pub open spec fn session(&self, c: Seq<char>) -> Session {
        self.sessions@[self.position(c)]
    }

    /// Whether `u` has a session, per the membership index.
    pub open spec fn in_session(&self, u: u64) -> bool {
        self.index().contains_key(u)
    }

    /// The session that `u` occupies.
    pub open spec fn session_of(&self, u: u64) -> Session {
        self.session(self.index()[u])
    }

    /// The store's invariant: codes are unique, every session is well
    /// formed, and every caller in the index is a listed member of a live
    /// session with the indexed code.
    pub open spec fn wf(&self) -> bool {
        &&& codes_unique(self.sessions@)
        &&& all_wf(self.sessions@)
        &&& forall|u: u64| #[trigger] self.index().contains_key(u) ==> self.points(u)
    }

    /// The index entry of `u` names a live session that lists `u`.
    pub open spec fn points(&self, u: u64) -> bool {
        &&& self.has_session(self.index()[u])
        &&& lists(self.session(self.index()[u]).users@, u)
    }

    /// The invariant, with the index entry of `u` exempt.
    pub open spec fn wf_except(&self, u: u64) -> bool {
        &&& codes_unique(self.sessions@)
        &&& all_wf(self.sessions@)
        &&& forall|u2: u64| #[trigger] self.index().contains_key(u2) && u2 != u ==> self.points(u2)
    }

    /// The membership index and the member lists agree both ways: a caller
    /// is listed in a session exactly when the index maps them to its code.
    pub open spec fn consistent(&self) -> bool {
        forall|c: Seq<char>, k: int|
            self.has_session(c) && 0 <= k < self.session(c).users@.len() ==> {
                let v = #[trigger] self.session(c).users@[k].0;
                self.index().contains_key(v) && self.index()[v] == c
            }
    }

    proof fn lemma_position(&self, i: int)
        requires
            codes_unique(self.sessions@),
            0 <= i < self.sessions@.len(),
        ensures
            self.has_session(self.sessions@[i].code@),
            self.position(self.sessions@[i].code@) == i,
    {
        let c = self.sessions@[i].code@;
        assert(self.sessions@[i].code@ == c);
        let j = self.position(c);
        if j != i {
            if i < j {
                assert(self.sessions@[i].code@ != self.sessions@[j].code@);
            } else {
                assert(self.sessions@[j].code@ != self.sessions@[i].code@);
            }
        }
    }

    /// An empty store.
    pub fn new() -> (r: Self)
        ensures
            r.wf(),
            r.consistent(),
            r.sessions@.len() == 0,
            r.index() == Map::<u64, Seq<char>>::empty(),
    {
        let r = SessionState { sessions: Vec::new(), user_sessions: HashMap::new() };
        assert(r.index() =~= Map::<u64, Seq<char>>::empty());
        r
    }

    fn find_code(&self, code: &String) -> (r: Option<usize>)
        requires
            codes_unique(self.sessions@),
        ensures
            match r {
                Some(i) => i < self.sessions@.len() && self.position(code@) == i as int
                    && self.has_session(code@),
                None => !self.has_session(code@),
            },
    {
        let mut i: usize = 0;
        while i < self.sessions.len()
            invariant
                codes_unique(self.sessions@),
                i <= self.sessions@.len(),
                forall|j: int| 0 <= j < i ==> #[trigger] self.sessions@[j].code@ != code@,
            decreases self.sessions@.len() - i,
        {
            if self.sessions[i].code == *code {
                proof {
                    self.lemma_position(i as int);
                }
                return Some(i);
            }
            i = i + 1;
        }
        None
    }

    fn find_user(&self, user_id: u64) -> (r: Option<usize>)
        requires
            self.wf(),
        ensures
            r is Some <==> self.in_session(user_id),
            r is Some ==> r->0 < self.sessions@.len() && self.position(self.index()[user_id]) == r->0 as int,
    {
        match self.user_sessions.get(&user_id) {
            Some(code) => {
                assert(self.index().contains_key(user_id));
                self.find_code(code)
            },
            None => None,
        }
    }

    /// Whether `user_id` occupies a session.
    pub fn is_in_session(&self, user_id: &u64) -> (r: bool)
        requires
            self.wf(),
        ensures
            r == self.in_session(*user_id),
    {
        self.user_sessions.contains_key(user_id)
    }

    /// Whether `user_id` occupies a session that they own.
    pub fn is_session_owner(&self, user_id: &u64) -> (r: bool)
        requires
            self.wf(),
        ensures
            r == (self.in_session(*user_id) && self.session_of(*user_id).owner == *user_id),
    {
        match self.find_user(*user_id) {
            Some(i) => self.sessions[i].owner == *user_id,
            None => false,
        }
    }
    /// Takes `u` off the member list of the session at `i`, deleting the
    /// session once no member is left.
    fn remove_member(&mut self, i: usize, u: u64)
        requires
            old(self).wf_except(u),
            i < old(self).sessions@.len(),
        ensures
            final(self).wf_except(u),
            final(self).user_sessions@ == old(self).user_sessions@,
            member_removed(*old(self), *final(self), old(self).sessions@[i as int].code@, u),
    {
        let ghost pre = *self;
        let ghost c = self.sessions@[i as int].code@;
        proof {
            pre.lemma_position(i as int);
        }
        let rest = users_without(&self.sessions[i].users, u);
        if rest.len() == 0 {
            self.sessions.remove(i);
            proof {
                lemma_sessions_remove(pre, *self, i as int);
                assert forall|u2: u64| #[trigger] self.index().contains_key(u2) && u2 != u implies self.points(u2) by {
                    assert(pre.index().contains_key(u2));
                    assert(pre.points(u2));
                    if pre.index()[u2] == c {
                        lemma_still_listed(pre.session(c).users@, u, u2);
                    }
                }
                assert forall|j: int| 0 <= j < self.sessions@.len() implies #[trigger] self.sessions@[j].wf() by {
                    let j0 = if j < i { j } else { j + 1 };
                    assert(self.sessions@[j] == pre.sessions@[j0]);
                    assert(pre.sessions@[j0].wf());
                }
            }
        } else {
            self.sessions[i].users = rest;
            proof {
                lemma_sessions_update(pre, *self, i as int);
                assert forall|u2: u64| #[trigger] self.index().contains_key(u2) && u2 != u implies self.points(u2) by {
                    assert(pre.index().contains_key(u2));
                    assert(pre.points(u2));
                    if pre.index()[u2] == c {
                        lemma_still_listed(pre.session(c).users@, u, u2);
                    }
                }
                assert forall|j: int| 0 <= j < self.sessions@.len() implies #[trigger] self.sessions@[j].wf() by {
                    assert(pre.sessions@[j].wf());
                    if j != i {
                        assert(self.sessions@[j] == pre.sessions@[j]);
                    }
                }
            }
        }
    }

    /// Puts `u`, named `name`, on the member list of the session at `i`
    /// unless already listed there.
    fn add_member(&mut self, i: usize, u: u64, name: Option<String>)
        requires
            old(self).wf_except(u),
            i < old(self).sessions@.len(),
        ensures
            final(self).wf_except(u),
            final(self).user_sessions@ == old(self).user_sessions@,
            member_added(*old(self), *final(self), old(self).sessions@[i as int].code@, u, name),
            lists(final(self).sessions@[i as int].users@, u),
            final(self).sessions@.len() == old(self).sessions@.len(),
            final(self).sessions@[i as int].code@ == old(self).sessions@[i as int].code@,
    {
        let ghost pre = *self;
        let ghost c = self.sessions@[i as int].code@;
        proof {
            pre.lemma_position(i as int);
        }
        let mut k: usize = 0;
        let mut found = false;
        while k < self.sessions[i].users.len()
            invariant
                *self == pre,
                i < self.sessions@.len(),
                k <= self.sessions@[i as int].users@.len(),
                found ==> lists(self.sessions@[i as int].users@, u),
                !found ==> forall|m: int| 0 <= m < k ==> #[trigger] self.sessions@[i as int].users@[m].0 != u,
            decreases self.sessions@[i as int].users@.len() - k,
        {
            if self.sessions[i].users[k].0 == u {
                found = true;
            }
            k = k + 1;
        }
        if !found {
            self.sessions[i].users.push((u, name));
            proof {
                let us = self.sessions@[i as int].users@;
                assert(us[us.len() - 1].0 == u);
            }
        }
        proof {
            assert(self.sessions@ =~= pre.sessions@.update(i as int, self.sessions@[i as int]));
            lemma_sessions_update(pre, *self, i as int);
            assert forall|u2: u64| #[trigger] self.index().contains_key(u2) && u2 != u implies self.points(u2) by {
                assert(pre.index().contains_key(u2));
                assert(pre.points(u2));
                if pre.index()[u2] == c && !found {
                    let us = pre.session(c).users@;
                    let k2 = choose|k2: int| 0 <= k2 < us.len() && #[trigger] us[k2].0 == u2;
                    assert(self.session(c).users@[k2].0 == u2);
                }
            }
            assert forall|j: int| 0 <= j < self.sessions@.len() implies #[trigger] self.sessions@[j].wf() by {
                assert(pre.sessions@[j].wf());
                if j != i {
                    assert(self.sessions@[j] == pre.sessions@[j]);
                }
            }
        }
    }

    /// Adds `user_id` to the session with code `code` and points the index
    /// there. A caller who occupied another session is taken off its member
    /// list first, which deletes it if they were its last member. Fails,
    /// changing nothing, when no live session has that code.
    pub fn join_session(&mut self, user_id: u64, username: Option<String>, code: &str) -> (r: bool)
        requires
            old(self).wf(),
        ensures
            final(self).wf(),
            r == old(self).has_session(code@),
            !r ==> *final(self) == *old(self),
            r ==> final(self).index() == old(self).index().insert(user_id, code@),
            r && !(old(self).in_session(user_id) && old(self).index()[user_id] != code@)
                ==> member_added(*old(self), *final(self), code@, user_id, username),
            r && old(self).in_session(user_id) && old(self).index()[user_id] != code@
                ==> exists|mid: SessionState|
                    member_removed(*old(self), mid, old(self).index()[user_id], user_id)
                    && member_added(mid, *final(self), code@, user_id, username),
            old(self).consistent() ==> final(self).consistent(),
    {
        let code_s = code.to_owned();
        let ghost pre = *self;
        let target = match self.find_code(&code_s) {
            Some(i) => i,
            None => { return false; },
        };
        let moving = match self.user_sessions.get(&user_id) {
            Some(p) => {
                proof {
                    assert(pre.index().contains_key(user_id));
                    assert(pre.index()[user_id] == p@);
                }
                *p != code_s
            },
            None => false,
        };
        proof {
            if moving {
                assert(pre.points(user_id));
            }
        }
        let mut target = target;
        if moving {
            let p = self.find_user(user_id).unwrap();
            proof {
                pre.lemma_position(target as int);
                pre.lemma_position(p as int);
                assert(pre.sessions@[p as int].code@ == pre.index()[user_id]);
                assert(pre.sessions@[target as int].code@ == code@);
            }
            self.remove_member(p, user_id);
            proof {
                assert(self.has_session(code@));
            }
            target = self.find_code(&code_s).unwrap();
        }
        let ghost mid = *self;
        proof {
            mid.lemma_position(target as int);
            assert(mid.sessions@[target as int].code@ == code@);
            assert(moving ==> member_removed(pre, mid, pre.index()[user_id], user_id));
            assert(!moving ==> mid == pre);
        }
        self.add_member(target, user_id, username);
        let ghost after = *self;
        proof {
            assert(member_added(mid, after, code@, user_id, username));
        }
        self.user_sessions.insert(user_id, code_s);
        proof {
            assert(self.sessions == after.sessions);
            assert(self.index() =~= pre.index().insert(user_id, code@));
            assert forall|c2: Seq<char>| #[trigger] self.has_session(c2) == after.has_session(c2)
                && self.session(c2) == after.session(c2) by {}
            assert forall|c2: Seq<char>| #[trigger] self.session(c2) == after.session(c2) by {}
            assert(member_added(mid, *self, code@, user_id, username));
            assert forall|u2: u64| #[trigger] self.index().contains_key(u2) implies self.points(u2) by {
                if u2 != user_id {
                    assert(after.index().contains_key(u2));
                    assert(after.points(u2));
                    assert(after.index()[u2] == self.index()[u2]);
                } else {
                    self.lemma_position(target as int);
                }
            }
            if pre.consistent() {
                if moving {
                    lemma_move_consistent(pre, mid, *self, user_id, username, code@);
                } else {
                    lemma_join_consistent(pre, *self, user_id, username, code@);
                }
            }
        }
        true
    }

    /// Takes `user_id` off the index and off the member list of their
    /// session, deleting the session once no member is left. Fails,
    /// changing nothing, when the caller has no session.
    pub fn leave_session(&mut self, user_id: &u64) -> (r: bool)
        requires
            old(self).wf(),
        ensures
            final(self).wf(),
            r == old(self).in_session(*user_id),
            !r ==> *final(self) == *old(self),
            r ==> final(self).index() == old(self).index().remove(*user_id),
            r ==> member_removed(*old(self), *final(self), old(self).index()[*user_id], *user_id),
            old(self).consistent() ==> final(self).consistent(),
    {
        let ghost pre = *self;
        if !self.user_sessions.contains_key(user_id) {
            return false;
        }
        proof {
            assert(pre.index().contains_key(*user_id));
        }
        match self.user_sessions.remove(user_id) {
            Some(code) => {
                proof {
                    assert(pre.points(*user_id));
                    assert(code@ == pre.index()[*user_id]);
                    assert(self.index() =~= pre.index().remove(*user_id));
                    assert forall|u2: u64| #[trigger] self.index().contains_key(u2) && u2 != *user_id implies self.points(u2) by {
                        assert(pre.points(u2));
                    }
                }
                let i = self.find_code(&code).unwrap();
                proof {
                    self.lemma_position(i as int);
                    assert(self.sessions@[i as int].code@ == code@);
                }
                self.remove_member(i, *user_id);
                proof {
                    assert forall|u2: u64| #[trigger] self.index().contains_key(u2) implies self.points(u2) by {
                        assert(u2 != *user_id);
                    }
                    if pre.consistent() {
                        lemma_leave_consistent(pre, *self, *user_id);
                    }
                }
                true
            },
            None => false,
        }
    }
    /// A code that no live session has: zeros, one longer than every code.
    fn unused_code(&self) -> (r: String)
        requires
            codes_unique(self.sessions@),
        ensures
            !self.has_session(r@),
    {
        let mut longest: usize = 0;
        let mut i: usize = 0;
        while i < self.sessions.len()
            invariant
                i <= self.sessions@.len(),
                forall|j: int| 0 <= j < i ==> #[trigger] self.sessions@[j].code@.len() <= longest,
            decreases self.sessions@.len() - i,
        {
            let n = self.sessions[i].code.as_str().unicode_len();
            if n > longest {
                longest = n;
            }
            i = i + 1;
        }
        let mut r = "0".to_owned();
        proof {
            reveal_strlit("0");
        }
        let mut k: usize = 0;
        while k < longest
            invariant
                k <= longest,
                r@.len() == k + 1,
            decreases longest - k,
        {
            r.append("0");
            proof {
                reveal_strlit("0");
            }
            k = k + 1;
        }
        proof {
            if self.has_session(r@) {
                let j = self.position(r@);
                assert(self.sessions@[j].code@.len() <= longest);
            }
        }
        r
    }

    /// Starts a session with code `code`, owned by `user_id` as its sole
    /// member, and points the caller's index entry to it. A session the
    /// caller occupied before keeps its member list. Fails, changing
    /// nothing, when a live session has that code.
    pub fn create_session_with_code(&mut self, user_id: u64, username: Option<String>, code: String, created_at: i64) -> (r: bool)
        requires
            old(self).wf(),
        ensures
            final(self).wf(),
            r == !old(self).has_session(code@),
            !r ==> *final(self) == *old(self),
            r ==> session_created(*old(self), *final(self), user_id, username, code@),
            r ==> final(self).session(code@).created_at == created_at,
            old(self).consistent() && !old(self).in_session(user_id) ==> final(self).consistent(),
    {
        let ghost pre = *self;
        match self.find_code(&code) {
            Some(_) => { return false; },
            None => {},
        }
        let mut users: Vec<(u64, Option<String>)> = Vec::new();
        users.push((user_id, username));
        let session = Session {
            code: code.clone(),
            users,
            queue: Vec::new(),
            owner: user_id,
            cast_status: CastStatus::default(),
            created_at,
        };
        assert(session.users@ =~= seq![(user_id, username)]);
        self.sessions.push(session);
        let ghost after = *self;
        self.user_sessions.insert(user_id, code);
        proof {
            lemma_sessions_push(pre, after, session);
            assert(self.index() =~= pre.index().insert(user_id, session.code@));
            assert forall|c2: Seq<char>| #[trigger] self.has_session(c2) == after.has_session(c2)
                && self.session(c2) == after.session(c2) by {}
            assert forall|c2: Seq<char>| #[trigger] self.session(c2) == after.session(c2) by {}
            assert forall|j: int| 0 <= j < self.sessions@.len() implies #[trigger] self.sessions@[j].wf() by {
                if j < pre.sessions@.len() {
                    assert(pre.sessions@[j].wf());
                } else {
                    assert(self.sessions@[j] == session);
                }
            }
            assert forall|u2: u64| #[trigger] self.index().contains_key(u2) implies self.points(u2) by {
                if u2 != user_id {
                    assert(pre.index().contains_key(u2));
                    assert(pre.points(u2));
                } else {
                    assert(self.session(session.code@).users@[0].0 == user_id);
                }
            }
            if pre.consistent() && !pre.in_session(user_id) {
                lemma_create_consistent(pre, *self, user_id, username, session.code@);
            }
        }
        true
    }

    /// Starts a session owned by `user_id` under a fresh code and returns
    /// the code. Random four-digit codes are drawn until one is free; should
    /// every draw collide, a code longer than all live ones is used.
    pub fn create_session(&mut self, user_id: u64, username: Option<String>) -> (r: String)
        requires
            old(self).wf(),
        ensures
            final(self).wf(),
            session_created(*old(self), *final(self), user_id, username, r@),
            old(self).consistent() && !old(self).in_session(user_id) ==> final(self).consistent(),
    {
        let created_at = current_timestamp();
        let mut attempts: u32 = 0;
        while attempts < 32
            invariant
                self.wf(),
                *self == *old(self),
            decreases 32 - attempts,
        {
            let code = generate_session_code();
            if self.create_session_with_code(user_id, copy_name(&username), code.clone(), created_at) {
                return code;
            }
            attempts = attempts + 1;
        }
        let code = self.unused_code();
        let created = self.create_session_with_code(user_id, username, code.clone(), created_at);
        assert(created);
        code
    }
    /// Appends `video_info` as a waiting item, added by `user_id` at time
    /// `added_at`, to the queue of the caller's session. Fails with
    /// `NotInSession` when the caller has no session; declines (`Ok(false)`,
    /// changing nothing) when the queue already holds a video with that id.
    pub fn add_video(
        &mut self,
        user_id: u64,
        video_info: VideoInfo,
        username: Option<String>,
        note: Option<String>,
        added_at: i64,
    ) -> (r: Result<bool, QueueError>)
        requires
            old(self).wf(),
        ensures
            final(self).wf(),
            !old(self).in_session(user_id) <==> r == Err::<bool, QueueError>(QueueError::NotInSession),
            r is Err ==> r == Err::<bool, QueueError>(QueueError::NotInSession),
            old(self).in_session(user_id) ==> (r == Ok::<bool, QueueError>(false)
                <==> holds_video(old(self).session_of(user_id).queue@, video_info.id@)),
            r != Ok::<bool, QueueError>(true) ==> *final(self) == *old(self),
            r == Ok::<bool, QueueError>(true) ==> {
                &&& only_queue_changed(*old(self), *final(self), old(self).index()[user_id])
                &&& final(self).session_of(user_id).queue@ == old(self).session_of(user_id).queue@.push(
                    (QueueItem { video_info, added_by: user_id, username, added_at, played: false, note }))
                &&& pending(final(self).session_of(user_id).queue@) == pending(old(self).session_of(user_id).queue@).push(
                    (QueueItem { video_info, added_by: user_id, username, added_at, played: false, note }))
                &&& played(final(self).session_of(user_id).queue@) == played(old(self).session_of(user_id).queue@)
                &&& final(self).session_of(user_id).cast_status == old(self).session_of(user_id).cast_status
            },
            old(self).consistent() ==> final(self).consistent(),
    {
        let ghost pre = *self;
        let i = match self.find_user(user_id) {
            Some(i) => i,
            None => { return Err(QueueError::NotInSession); },
        };
        let ghost c = pre.index()[user_id];
        proof {
            assert(pre.points(user_id));
            pre.lemma_position(i as int);
            assert(pre.sessions@[i as int].code@ == c);
        }
        let mut k: usize = 0;
        while k < self.sessions[i].queue.len()
            invariant
                *self == pre,
                pre.wf(),
                pre.in_session(user_id),
                i < self.sessions@.len(),
                pre.session_of(user_id) == pre.sessions@[i as int],
                k <= self.sessions@[i as int].queue@.len(),
                forall|j: int| 0 <= j < k ==> #[trigger] self.sessions@[i as int].queue@[j].video_info.id@ != video_info.id@,
            decreases self.sessions@[i as int].queue@.len() - k,
        {
            if self.sessions[i].queue[k].video_info.id == video_info.id {
                proof {
                    assert(self.sessions@[i as int].queue@[k as int].video_info.id@ == video_info.id@);
                }
                return Ok(false);
            }
            k = k + 1;
        }
        let item = QueueItem { video_info, added_by: user_id, username, added_at, played: false, note };
        self.sessions[i].queue.push(item);
        proof {
            assert(self.sessions@ =~= pre.sessions@.update(i as int, self.sessions@[i as int]));
            lemma_sessions_update(pre, *self, i as int);
            let q = self.sessions@[i as int].queue@;
            let q0 = pre.sessions@[i as int].queue@;
            assert(q == q0.push(item));
            q0.lemma_filter_push(item, is_waiting());
            q0.lemma_filter_push(item, is_played());
            assert(pre.sessions@[i as int].wf());
            assert(played_first(q));
            assert(self.index() == pre.index());
            assert forall|u2: u64| #[trigger] self.index().contains_key(u2) implies self.points(u2) by {
                assert(pre.points(u2));
            }
            assert forall|j: int| 0 <= j < self.sessions@.len() implies #[trigger] self.sessions@[j].wf() by {
                assert(pre.sessions@[j].wf());
            }
            if pre.consistent() {
                lemma_queue_change_consistent(pre, *self, c);
            }
        }
        Ok(true)
    }
    /// Resolves `url` and appends it to the queue of the caller's session,
    /// stamped with the current time. `fetched_title` is the title looked up
    /// for the link's video, if any. Fails with `NotInSession` when the
    /// caller has no session and with `InvalidUrl` when the link is not a
    /// supported video link; declines (`Ok(false)`, changing nothing) when
    /// the queue already holds the link's video.
    pub fn add_to_queue(
        &mut self,
        user_id: u64,
        url: String,
        username: Option<String>,
        note: Option<String>,
        fetched_title: Option<String>,
    ) -> (r: Result<bool, QueueError>)
        requires
            old(self).wf(),
        ensures
            final(self).wf(),
            !old(self).in_session(user_id) ==> r == Err::<bool, QueueError>(QueueError::NotInSession),
            old(self).in_session(user_id) && !youtube_url_match(url@)
                ==> r == Err::<bool, QueueError>(QueueError::InvalidUrl),
            old(self).in_session(user_id) && youtube_url_match(url@) ==> {
                &&& r is Ok
                &&& youtube_video_id(url@) is Some
                &&& (r == Ok::<bool, QueueError>(false)
                    <==> holds_video(old(self).session_of(user_id).queue@, youtube_video_id(url@)->0))
            },
            r != Ok::<bool, QueueError>(true) ==> *final(self) == *old(self),
            r == Ok::<bool, QueueError>(true) ==> {
                let q = old(self).session_of(user_id).queue@;
                let item = final(self).session_of(user_id).queue@.last();
                &&& only_queue_changed(*old(self), *final(self), old(self).index()[user_id])
                &&& final(self).session_of(user_id).queue@ == q.push(item)
                &&& pending(final(self).session_of(user_id).queue@) == pending(q).push(item)
                &&& played(final(self).session_of(user_id).queue@) == played(q)
                &&& final(self).session_of(user_id).cast_status == old(self).session_of(user_id).cast_status
                &&& Some(item.video_info.id@) == youtube_video_id(url@)
                &&& item.video_info.url@ == url@
                &&& item.video_info.title is Some
                &&& item.video_info.title->0@ == match fetched_title {
                    Some(t) => t@,
                    None => placeholder_title(item.video_info.id@),
                }
                &&& item.added_by == user_id
                &&& item.username == username
                &&& item.note == note
                &&& !item.played
            },
            old(self).consistent() ==> final(self).consistent(),
    {
        if !self.user_sessions.contains_key(&user_id) {
            return Err(QueueError::NotInSession);
        }
        let info = match create_video_info(url.as_str(), fetched_title) {
            Some(info) => info,
            None => { return Err(QueueError::InvalidUrl); },
        };
        let added_at = current_timestamp();
        let r = self.add_video(user_id, info, username, note, added_at);
        proof {
            if r == Ok::<bool, QueueError>(true) {
                let q = old(self).session_of(user_id).queue@;
                assert(self.session_of(user_id).queue@.last() == (QueueItem { video_info: info, added_by: user_id, username, added_at, played: false, note }));
            }
        }
        r
    }
    /// The waiting items of the caller's session, in insertion order;
    /// `None` when the caller has no session.
    pub fn get_queue(&self, user_id: &u64) -> (r: Option<Vec<&QueueItem>>)
        requires
            self.wf(),
        ensures
            r is Some <==> self.in_session(*user_id),
            r is Some ==> {
                let w = pending(self.session_of(*user_id).queue@);
                &&& r->0@.len() == w.len()
                &&& forall|j: int| 0 <= j < w.len() ==> *#[trigger] r->0@[j] == w[j]
            },
    {
        let i = match self.find_user(*user_id) {
            Some(i) => i,
            None => { return None; },
        };
        let q = &self.sessions[i].queue;
        let p = first_waiting(q);
        proof {
            assert(self.sessions@[i as int].wf());
            lemma_queue_split(q@, p as int);
        }
        let mut r: Vec<&QueueItem> = Vec::new();
        let mut k: usize = p;
        while k < q.len()
            invariant
                p <= k <= q@.len(),
                r@.len() == k - p,
                forall|j: int| 0 <= j < r@.len() ==> *#[trigger] r@[j] == q@[p + j],
            decreases q@.len() - k,
        {
            r.push(&q[k]);
            k = k + 1;
        }
        Some(r)
    }

    /// The played items of the caller's session, in play order; `None` when
    /// the caller has no session.
    pub fn get_history(&self, user_id: &u64) -> (r: Option<Vec<&QueueItem>>)
        requires
            self.wf(),
        ensures
            r is Some <==> self.in_session(*user_id),
            r is Some ==> {
                let h = played(self.session_of(*user_id).queue@);
                &&& r->0@.len() == h.len()
                &&& forall|j: int| 0 <= j < h.len() ==> *#[trigger] r->0@[j] == h[j]
            },
    {
        let i = match self.find_user(*user_id) {
            Some(i) => i,
            None => { return None; },
        };
        let q = &self.sessions[i].queue;
        let p = first_waiting(q);
        proof {
            assert(self.sessions@[i as int].wf());
            lemma_queue_split(q@, p as int);
        }
        let mut r: Vec<&QueueItem> = Vec::new();
        let mut k: usize = 0;
        while k < p
            invariant
                k <= p <= q@.len(),
                r@.len() == k,
                forall|j: int| 0 <= j < r@.len() ==> *#[trigger] r@[j] == q@[j],
            decreases p - k,
        {
            r.push(&q[k]);
            k = k + 1;
        }
        Some(r)
    }

    /// Advances the queue of the caller's session: the earliest waiting item
    /// is marked played, becomes the video now playing, and a copy of it is
    /// returned. Returns `None`, changing nothing, when the caller does not
    /// own their session or nothing waits.
    pub fn next_in_queue(&mut self, user_id: &u64) -> (r: Option<QueueItem>)
        requires
            old(self).wf(),
        ensures
            final(self).wf(),
            r is Some <==> old(self).in_session(*user_id) && old(self).session_of(*user_id).owner == *user_id
                && pending(old(self).session_of(*user_id).queue@).len() > 0,
            r is None ==> *final(self) == *old(self),
            r is Some ==> {
                let s0 = old(self).session_of(*user_id);
                let s1 = final(self).session_of(*user_id);
                &&& r->0 == pending(s0.queue@)[0]
                &&& only_queue_changed(*old(self), *final(self), old(self).index()[*user_id])
                &&& pending(s1.queue@) == pending(s0.queue@).drop_first()
                &&& played(s1.queue@) == played(s0.queue@).push(as_played(r->0))
                &&& s1.cast_status.current_video == Some(r->0.video_info)
                &&& s1.cast_status.cast_device == s0.cast_status.cast_device
                &&& s1.cast_status.is_playing == s0.cast_status.is_playing
            },
            old(self).consistent() ==> final(self).consistent(),
    {
        let ghost pre = *self;
        let i = match self.find_user(*user_id) {
            Some(i) => i,
            None => { return None; },
        };
        proof {
            assert(pre.points(*user_id));
            pre.lemma_position(i as int);
            assert(pre.sessions@[i as int].wf());
        }
        if self.sessions[i].owner != *user_id {
            return None;
        }
        let p = first_waiting(&self.sessions[i].queue);
        proof {
            lemma_queue_split(pre.sessions@[i as int].queue@, p as int);
        }
        if p == self.sessions[i].queue.len() {
            return None;
        }
        let item = copy_item(&self.sessions[i].queue[p]);
        let video = copy_video(&self.sessions[i].queue[p].video_info);
        self.sessions[i].queue[p].played = true;
        self.sessions[i].cast_status.current_video = Some(video);
        proof {
            let q0 = pre.sessions@[i as int].queue@;
            let q1 = self.sessions@[i as int].queue@;
            assert(q1 == q0.update(p as int, as_played(item)));
            assert(self.sessions@ =~= pre.sessions@.update(i as int, self.sessions@[i as int]));
            lemma_sessions_update(pre, *self, i as int);
            assert(played_first(q1)) by {
                assert forall|a: int, b: int| 0 <= a < b < q1.len() && #[trigger] q1[b].played implies #[trigger] q1[a].played by {
                    if b != p && a != p {
                        assert(q0[b].played);
                    }
                    if b > p && a != p {
                        assert(q0[b].played);
                        assert(q0[p as int].played);
                    }
                }
            }
            let next_pos = (p + 1) as int;
            if next_pos < q1.len() {
                assert(!q1[next_pos].played) by {
                    assert(q1[next_pos] == q0[next_pos]);
                    if q0[next_pos].played {
                        assert(q0[p as int].played);
                    }
                }
            }
            assert forall|j: int| 0 <= j < next_pos implies (#[trigger] q1[j]).played by {
                if j < p {
                    assert(q1[j] == q0[j]);
                }
            }
            lemma_queue_split(q1, next_pos);
            assert(q1.skip(next_pos) =~= q0.skip(p as int).drop_first());
            assert(q1.take(next_pos) =~= q0.take(p as int).push(as_played(item)));
            assert forall|u2: u64| #[trigger] self.index().contains_key(u2) implies self.points(u2) by {
                assert(pre.points(u2));
            }
            assert forall|j: int| 0 <= j < self.sessions@.len() implies #[trigger] self.sessions@[j].wf() by {
                assert(pre.sessions@[j].wf());
            }
            if pre.consistent() {
                lemma_queue_change_consistent(pre, *self, pre.index()[*user_id]);
            }
        }
        Some(item)
    }

    /// The video now playing in the caller's session; `None` when the caller
    /// has no session or nothing plays.
    pub fn get_current_video(&self, user_id: &u64) -> (r: Option<&VideoInfo>)
        requires
            self.wf(),
        ensures
            match r {
                Some(v) => self.in_session(*user_id) && self.session_of(*user_id).cast_status.current_video == Some(*v),
                None => !self.in_session(*user_id) || self.session_of(*user_id).cast_status.current_video is None,
            },
    {
        match self.find_user(*user_id) {
            Some(i) => match &self.sessions[i].cast_status.current_video {
                Some(v) => Some(v),
                None => None,
            },
            None => None,
        }
    }

    /// Binds the cast device of the caller's session; `false`, changing
    /// nothing, when the caller has no session.
    pub fn set_device(&mut self, user_id: &u64, device_name: String) -> (r: bool)
        requires
            old(self).wf(),
        ensures
            final(self).wf(),
            r == old(self).in_session(*user_id),
            !r ==> *final(self) == *old(self),
            r ==> {
                let s0 = old(self).session_of(*user_id);
                let s1 = final(self).session_of(*user_id);
                &&& only_queue_changed(*old(self), *final(self), old(self).index()[*user_id])
                &&& s1.queue@ == s0.queue@
                &&& s1.cast_status.cast_device == Some(device_name)
                &&& s1.cast_status.current_video == s0.cast_status.current_video
                &&& s1.cast_status.is_playing == s0.cast_status.is_playing
            },
            old(self).consistent() ==> final(self).consistent(),
    {
        let ghost pre = *self;
        let i = match self.find_user(*user_id) {
            Some(i) => i,
            None => { return false; },
        };
        proof {
            assert(pre.points(*user_id));
            pre.lemma_position(i as int);
        }
        self.sessions[i].cast_status.cast_device = Some(device_name);
        proof {
            assert(self.sessions@ =~= pre.sessions@.update(i as int, self.sessions@[i as int]));
            lemma_sessions_update(pre, *self, i as int);
            assert forall|u2: u64| #[trigger] self.index().contains_key(u2) implies self.points(u2) by {
                assert(pre.points(u2));
            }
            assert forall|j: int| 0 <= j < self.sessions@.len() implies #[trigger] self.sessions@[j].wf() by {
                assert(pre.sessions@[j].wf());
            }
            if pre.consistent() {
                lemma_queue_change_consistent(pre, *self, pre.index()[*user_id]);
            }
        }
        true
    }

    /// The cast device bound to the caller's session; `None` when the caller
    /// has no session or none is bound.
    pub fn get_device(&self, user_id: &u64) -> (r: Option<String>)
        requires
            self.wf(),
        ensures
            r == if self.in_session(*user_id) {
                self.session_of(*user_id).cast_status.cast_device
            } else {
                None::<String>
            },
    {
        match self.find_user(*user_id) {
            Some(i) => copy_name(&self.sessions[i].cast_status.cast_device),
            None => None,
        }
    }
    /// The summary of the caller's session at time `now`; `None` when the
    /// caller has no session.
    pub fn session_info_at(&self, user_id: &u64, now: i64) -> (r: Option<String>)
        requires
            self.wf(),
        ensures
            r is Some <==> self.in_session(*user_id),
            r is Some ==> r->0@ == info_text(self.session_of(*user_id), *user_id,
                elapsed(self.session_of(*user_id).created_at, now)),
    {
        let i = match self.find_user(*user_id) {
            Some(i) => i,
            None => { return None; },
        };
        let s = &self.sessions[i];
        let secs: u64 = if now > s.created_at { (now as i128 - s.created_at as i128) as u64 } else { 0 };
        assert(secs as nat == elapsed(s.created_at, now));
        let mut info = "Session ID: ".to_owned();
        info.append(s.code.as_str());
        info.append("\nDuration: ");
        push_decimal(&mut info, secs / 3600);
        info.append("h ");
        push_decimal(&mut info, (secs % 3600) / 60);
        info.append("m\nUsers in session: ");
        push_decimal(&mut info, s.users.len() as u64);
        let ghost head = info@;
        if s.owner == *user_id {
            info.append("\n\nUsers in session:");
            let ghost start = info@;
            let mut k: usize = 0;
            while k < s.users.len()
                invariant
                    k <= s.users@.len(),
                    info@ == start + member_lines(s.users@.take(k as int)),
                decreases s.users@.len() - k,
            {
                info.append("\n- ");
                match &s.users[k].1 {
                    Some(name) => info.append(name.as_str()),
                    None => info.append("Anonymous"),
                }
                proof {
                    let t1 = s.users@.take(k as int + 1);
                    assert(t1.drop_last() == s.users@.take(k as int));
                    assert(t1.last() == s.users@[k as int]);
                }
                k = k + 1;
            }
            proof {
                assert(s.users@.take(s.users@.len() as int) == s.users@);
            }
        }
        Some(info)
    }

    /// The summary of the caller's session now; `None` when the caller has
    /// no session.
    pub fn get_session_info(&self, user_id: &u64) -> (r: Option<String>)
        requires
            self.wf(),
        ensures
            r is Some <==> self.in_session(*user_id),
            r is Some ==> exists|secs: nat| r->0@ == info_text(self.session_of(*user_id), *user_id, secs),
    {
        let now = current_timestamp();
        self.session_info_at(user_id, now)
    }
    /// Rebuilds a store from saved parts: its sessions and its index
    /// entries. `None` when the parts do not form a valid store.
    pub fn restore(sessions: Vec<Session>, entries: Vec<(u64, String)>) -> (r: Option<SessionState>)
        ensures
            r is Some <==> snapshot_valid(sessions@, entries@),
            match r {
                Some(s) => s.wf() && s.sessions@ == sessions@ && s.index() == entries_map(entries@),
                None => true,
            },
    {
        let ghost ss = sessions@;
        // distinct codes
        let mut i: usize = 0;
        while i < sessions.len()
            invariant
                ss == sessions@,
                i <= ss.len(),
                forall|a: int, b: int| 0 <= a < b < ss.len() && a < i ==> #[trigger] ss[a].code@ != #[trigger] ss[b].code@,
            decreases ss.len() - i,
        {
            let mut j: usize = i + 1;
            while j < sessions.len()
                invariant
                    ss == sessions@,
                    i < ss.len(),
                    i + 1 <= j <= ss.len(),
                    forall|a: int, b: int| 0 <= a < b < ss.len() && a < i ==> #[trigger] ss[a].code@ != #[trigger] ss[b].code@,
                    forall|b: int| i < b < j ==> ss[i as int].code@ != #[trigger] ss[b].code@,
                decreases ss.len() - j,
            {
                if sessions[i].code == sessions[j].code {
                    return None;
                }
                j = j + 1;
            }
            i = i + 1;
        }
        // well-formed sessions
        let mut i: usize = 0;
        while i < sessions.len()
            invariant
                ss == sessions@,
                codes_unique(ss),
                i <= ss.len(),
                forall|a: int| 0 <= a < i ==> #[trigger] ss[a].wf(),
            decreases ss.len() - i,
        {
            if sessions[i].users.len() == 0 {
                proof {
                    assert(!ss[i as int].wf());
                }
                return None;
            }
            let q = &sessions[i].queue;
            let mut k: usize = 0;
            let mut waiting_seen = false;
            while k < q.len()
                invariant
                    ss == sessions@,
                    i < ss.len(),
                    *q == ss[i as int].queue,
                    k <= q@.len(),
                    played_first(q@.take(k as int)),
                    waiting_seen <==> exists|m: int| 0 <= m < k && !(#[trigger] q@[m]).played,
                decreases q@.len() - k,
            {
                if q[k].played && waiting_seen {
                    proof {
                        let m = choose|m: int| 0 <= m < k && !(#[trigger] q@[m]).played;
                        assert(!played_first(q@)) by {
                            assert(q@[k as int].played && !q@[m].played);
                        }
                        assert(!ss[i as int].wf());
                    }
                    return None;
                }
                if !q[k].played {
                    waiting_seen = true;
                }
                proof {
                    let t1 = q@.take(k as int + 1);
                    assert forall|a: int, b: int| 0 <= a < b < t1.len() && #[trigger] t1[b].played implies #[trigger] t1[a].played by {
                        if b < k {
                            assert(q@.take(k as int)[b] == t1[b]);
                            assert(q@.take(k as int)[a] == t1[a]);
                        } else if !t1[a].played {
                            assert(!q@[a].played);
                        }
                    }
                }
                k = k + 1;
            }
            proof {
                assert(q@.take(q@.len() as int) == q@);
            }
            i = i + 1;
        }
        // index entries
        let mut m: HashMap<u64, String> = HashMap::new();
        let mut k: usize = 0;
        while k < entries.len()
            invariant
                ss == sessions@,
                codes_unique(ss),
                all_wf(ss),
                k <= entries@.len(),
                forall|e: int| 0 <= e < k ==> entry_valid(ss, (#[trigger] entries@[e]).0, entries@[e].1@),
                m@.map_values(|c: String| c@) == entries_map(entries@.take(k as int)),
            decreases entries@.len() - k,
        {
            let (u, c) = (entries[k].0, &entries[k].1);
            let mut j: usize = 0;
            let mut ok = false;
            while j < sessions.len() && !ok
                invariant
                    ss == sessions@,
                    j <= ss.len(),
                    ok ==> entry_valid(ss, u, c@),
                    !ok ==> forall|a: int| 0 <= a < j ==> !(#[trigger] ss[a].code@ == c@ && lists(ss[a].users@, u)),
                decreases ss.len() - j + if ok { 0int } else { 1int },
            {
                if sessions[j].code == *c {
                    let us = &sessions[j].users;
                    let mut t: usize = 0;
                    while t < us.len() && !ok
                        invariant
                            ss == sessions@,
                            j < ss.len(),
                            ss[j as int].code@ == c@,
                            *us == ss[j as int].users,
                            t <= us@.len(),
                            ok ==> entry_valid(ss, u, c@),
                            !ok ==> forall|b: int| 0 <= b < t ==> (#[trigger] us@[b]).0 != u,
                        decreases us@.len() - t + if ok { 0int } else { 1int },
                    {
                        if us[t].0 == u {
                            ok = true;
                            proof {
                                assert(lists(ss[j as int].users@, u));
                            }
                        } else {
                            t = t + 1;
                        }
                    }
                }
                if !ok {
                    j = j + 1;
                }
            }
            if !ok {
                return None;
            }
            m.insert(u, c.clone());
            proof {
                let t1 = entries@.take(k as int + 1);
                assert(t1.drop_last() =~= entries@.take(k as int));
                assert(t1.last() == entries@[k as int]);
                assert(m@.map_values(|c: String| c@) =~= entries_map(t1));
            }
            k = k + 1;
        }
        proof {
            assert(entries@.take(entries@.len() as int) =~= entries@);
        }
        let s = SessionState { sessions, user_sessions: m };
        proof {
            assert forall|u: u64| #[trigger] s.index().contains_key(u) implies s.points(u) by {
                lemma_entries_map_valid(ss, entries@, u);
                let c = s.index()[u];
                let i = choose|i: int| 0 <= i < ss.len() && #[trigger] ss[i].code@ == c && lists(ss[i].users@, u);
                s.lemma_position(i);
            }
        }
        Some(s)
    }
}

} // verus!
