//! User sessions and the UI tabs that belong to them.
//!
//! Each session holds the ids of its tabs in the order they were opened and at most one
//! active tab; a session with too many tabs refuses new ones; sessions left untouched for
//! longer than the configured timeout are cleaned up together with their tabs.

use vstd::prelude::*;
use std::collections::HashMap;
use crate::clock::unix_now;
use crate::ids::{
    ids_issued, issued_id, lemma_fresh_id, lemma_ids_issued_filter, lemma_ids_issued_grow,
    lemma_ids_issued_insert, lemma_ids_issued_remove, lemma_ids_issued_same_keys,
    lemma_numbered_injective, numbered, numbered_id,
};
use crate::json::copy_opt_json;
use crate::table::{
    has_key, insert_entry, key_index, key_seq, keys_unique, lemma_keys_no_duplicates,
    lemma_lookup_at, lemma_lookup_filter, lemma_lookup_insert, lemma_lookup_remove, lemma_map_filter_commute,
    lemma_view_values_insert, lemma_view_values_keys, lemma_view_values_lookup,
    lemma_view_values_remove, lookup, option_view, remove_entry, view_values, Table,
};
use crate::text::{
    copy_opt_string, copy_strings, join3, join4, option_text, result_text, texts, texts_without,
    unit_result_text,
};

verus! {

/// Represents a user session
pub struct UserSession {
    pub id: String,
    pub user_id: Option<String>,
    pub created_at: u64,
    pub last_accessed: u64,
    /// Tab IDs
    pub tabs: Vec<String>,
    pub active_tab: Option<String>,
    pub metadata: HashMap<String, String>,
}

/// A session with its texts taken as their characters.
pub struct UserSessionView {
    pub id: Seq<char>,
    pub user_id: Option<Seq<char>>,
    pub created_at: u64,
    pub last_accessed: u64,
    pub tabs: Seq<Seq<char>>,
    pub active_tab: Option<Seq<char>>,
    pub metadata: Map<String, String>,
}

impl View for UserSession {
    type V = UserSessionView;

    open spec fn view(&self) -> UserSessionView {
        UserSessionView {
            id: self.id@,
            user_id: option_text(self.user_id),
            created_at: self.created_at,
            last_accessed: self.last_accessed,
            tabs: texts(self.tabs@),
            active_tab: option_text(self.active_tab),
            metadata: self.metadata@,
        }
    }
}

impl UserSession {
    /// A copy of the session.
    pub fn duplicate(&self) -> (r: UserSession)
        ensures
            r@ == self@,
    {
        UserSession {
            id: self.id.clone(),
            user_id: copy_opt_string(&self.user_id),
            created_at: self.created_at,
            last_accessed: self.last_accessed,
            tabs: copy_strings(&self.tabs),
            active_tab: copy_opt_string(&self.active_tab),
            metadata: self.metadata.clone(),
        }
    }
}

/// Represents a UI tab
pub struct UITab {
    pub id: String,
    pub session_id: String,
    pub title: String,
    /// e.g., "terminal", "browser", "editor"
    pub component_type: String,
    pub component_state: Option<serde_json::Value>,
    pub created_at: u64,
    pub last_accessed: u64,
    pub is_active: bool,
    pub settings: HashMap<String, String>,
}

/// A tab with its texts taken as their characters.
pub struct UITabView {
    pub id: Seq<char>,
    pub session_id: Seq<char>,
    pub title: Seq<char>,
    pub component_type: Seq<char>,
    pub component_state: Option<serde_json::Value>,
    pub created_at: u64,
    pub last_accessed: u64,
    pub is_active: bool,
    pub settings: Map<String, String>,
}

impl View for UITab {
    type V = UITabView;

    open spec fn view(&self) -> UITabView {
        UITabView {
            id: self.id@,
            session_id: self.session_id@,
            title: self.title@,
            component_type: self.component_type@,
            component_state: self.component_state,
            created_at: self.created_at,
            last_accessed: self.last_accessed,
            is_active: self.is_active,
            settings: self.settings@,
        }
    }
}

impl UITab {
    /// A copy of the tab.
    pub fn duplicate(&self) -> (r: UITab)
        ensures
            r@ == self@,
    {
        UITab {
            id: self.id.clone(),
            session_id: self.session_id.clone(),
            title: self.title.clone(),
            component_type: self.component_type.clone(),
            component_state: copy_opt_json(&self.component_state),
            created_at: self.created_at,
            last_accessed: self.last_accessed,
            is_active: self.is_active,
            settings: self.settings.clone(),
        }
    }
}

/// Configuration for a session
#[derive(Debug, Clone, Copy)]
pub struct SessionConfig {
    pub timeout_minutes: u64,
    pub max_tabs_per_session: usize,
    pub allow_tab_restore: bool,
}

/// The configuration of a manager made by `SessionManager::new`.
pub open spec fn default_session_config() -> SessionConfig {
    SessionConfig { timeout_minutes: 30, max_tabs_per_session: 10, allow_tab_restore: true }
}

/// The state of a session manager.
pub struct SessionManagerView {
    pub sessions: Seq<(Seq<char>, UserSessionView)>,
    pub tabs: Seq<(Seq<char>, UITabView)>,
    pub config: SessionConfig,
    pub next_session_id: u64,
    pub next_tab_id: u64,
}

/// The id given to the `n`-th session.
pub open spec fn session_id_for(n: u64) -> Seq<char> {
    numbered("session-"@, n as nat)
}

/// The id given to the `n`-th tab.
pub open spec fn tab_id_for(n: u64) -> Seq<char> {
    numbered("tab-"@, n as nat)
}

pub open spec fn session_not_found_message(id: Seq<char>) -> Seq<char> {
    "Session "@ + id + " not found"@
}

pub open spec fn tab_limit_message(id: Seq<char>) -> Seq<char> {
    "Session "@ + id + " has exceeded maximum tabs limit"@
}

pub open spec fn tab_not_found_message(id: Seq<char>) -> Seq<char> {
    "Tab "@ + id + " not found"@
}

pub open spec fn foreign_tab_message(tab_id: Seq<char>, session_id: Seq<char>) -> Seq<char> {
    "Tab "@ + tab_id + " does not belong to session "@ + session_id
}

/// A fresh session created at `now`.
pub open spec fn new_session_view(
    id: Seq<char>,
    user_id: Option<Seq<char>>,
    now: u64,
) -> UserSessionView {
    UserSessionView {
        id,
        user_id,
        created_at: now,
        last_accessed: now,
        tabs: Seq::empty(),
        active_tab: None,
        metadata: Map::empty(),
    }
}

/// The session stored under `id`.
pub open spec fn session_of(m: SessionManagerView, id: Seq<char>) -> UserSessionView {
    lookup(m.sessions, id)->0
}

/// The tab stored under `id`.
pub open spec fn tab_of(m: SessionManagerView, id: Seq<char>) -> UITabView {
    lookup(m.tabs, id)->0
}

/// What `create_session_at` does.
pub open spec fn session_created(
    old: SessionManagerView,
    new: SessionManagerView,
    user_id: Option<Seq<char>>,
    now: u64,
    r: Result<Seq<char>, Seq<char>>,
) -> bool {
    let id = session_id_for(old.next_session_id);
    &&& r == Ok::<Seq<char>, Seq<char>>(id)
    &&& new == SessionManagerView {
        sessions: insert_entry(old.sessions, id, new_session_view(id, user_id, now)),
        next_session_id: (old.next_session_id + 1) as u64,
        ..old
    }
}

/// What `touch_session_at` does.
pub open spec fn session_touched(
    old: SessionManagerView,
    new: SessionManagerView,
    id: Seq<char>,
    now: u64,
    r: Result<(), Seq<char>>,
) -> bool {
    if has_key(old.sessions, id) {
        &&& r == Ok::<(), Seq<char>>(())
        &&& new == SessionManagerView {
            sessions: insert_entry(
                old.sessions,
                id,
                UserSessionView { last_accessed: now, ..session_of(old, id) },
            ),
            ..old
        }
    } else {
        &&& r == Err::<(), Seq<char>>(session_not_found_message(id))
        &&& new == old
    }
}

/// The tabs that do not belong to the session `id`.
pub open spec fn tabs_outside(
    tabs: Seq<(Seq<char>, UITabView)>,
    id: Seq<char>,
) -> Seq<(Seq<char>, UITabView)> {
    tabs.filter(|e: (Seq<char>, UITabView)| e.1.session_id != id)
}

/// A fresh tab created at `now`.
pub open spec fn new_tab_view(
    id: Seq<char>,
    session_id: Seq<char>,
    title: Seq<char>,
    component_type: Seq<char>,
    component_state: Option<serde_json::Value>,
    settings: Map<String, String>,
    now: u64,
) -> UITabView {
    UITabView {
        id,
        session_id,
        title,
        component_type,
        component_state,
        created_at: now,
        last_accessed: now,
        is_active: false,
        settings,
    }
}

/// What `create_tab_at` does.
pub open spec fn tab_created(
    old: SessionManagerView,
    new: SessionManagerView,
    session_id: Seq<char>,
    title: Seq<char>,
    component_type: Seq<char>,
    component_state: Option<serde_json::Value>,
    settings: Map<String, String>,
    now: u64,
    r: Result<Seq<char>, Seq<char>>,
) -> bool {
    let id = tab_id_for(old.next_tab_id);
    let s = session_of(old, session_id);
    if !has_key(old.sessions, session_id) {
        &&& r == Err::<Seq<char>, Seq<char>>(session_not_found_message(session_id))
        &&& new == old
    } else if s.tabs.len() >= old.config.max_tabs_per_session {
        &&& r == Err::<Seq<char>, Seq<char>>(tab_limit_message(session_id))
        &&& new == old
    } else {
        &&& r == Ok::<Seq<char>, Seq<char>>(id)
        &&& new == SessionManagerView {
            tabs: insert_entry(
                old.tabs,
                id,
                new_tab_view(id, session_id, title, component_type, component_state, settings, now),
            ),
            sessions: insert_entry(
                old.sessions,
                session_id,
                UserSessionView { tabs: s.tabs.push(id), last_accessed: now, ..s },
            ),
            next_tab_id: (old.next_tab_id + 1) as u64,
            ..old
        }
    }
}

/// The tabs after `tab_id` became the active tab of `session_id` at `now`: the other tabs
/// of that session are no longer active.
pub open spec fn activate_tab(
    tabs: Seq<(Seq<char>, UITabView)>,
    session_id: Seq<char>,
    tab_id: Seq<char>,
    now: u64,
) -> Seq<(Seq<char>, UITabView)> {
    tabs.map_values(
        |e: (Seq<char>, UITabView)|
            (e.0, if e.0 == tab_id {
                UITabView { is_active: true, last_accessed: now, ..e.1 }
            } else if e.1.session_id == session_id {
                UITabView { is_active: false, ..e.1 }
            } else {
                e.1
            }),
    )
}

/// What `set_active_tab_at` does.
pub open spec fn tab_activated(
    old: SessionManagerView,
    new: SessionManagerView,
    session_id: Seq<char>,
    tab_id: Seq<char>,
    now: u64,
    r: Result<(), Seq<char>>,
) -> bool {
    if !has_key(old.sessions, session_id) {
        &&& r == Err::<(), Seq<char>>(session_not_found_message(session_id))
        &&& new == old
    } else if !has_key(old.tabs, tab_id) {
        &&& r == Err::<(), Seq<char>>(tab_not_found_message(tab_id))
        &&& new == old
    } else if tab_of(old, tab_id).session_id != session_id {
        &&& r == Err::<(), Seq<char>>(foreign_tab_message(tab_id, session_id))
        &&& new == old
    } else {
        &&& r == Ok::<(), Seq<char>>(())
        &&& new == SessionManagerView {
            tabs: activate_tab(old.tabs, session_id, tab_id, now),
            sessions: insert_entry(
                old.sessions,
                session_id,
                UserSessionView {
                    active_tab: Some(tab_id),
                    last_accessed: now,
                    ..session_of(old, session_id)
                },
            ),
            ..old
        }
    }
}

/// The session after its tab `tab_id` closed at `now`: the tab leaves its list, and if it
/// was the active tab the first remaining tab, if any, becomes the active one.
pub open spec fn session_after_close(
    s: UserSessionView,
    tab_id: Seq<char>,
    now: u64,
) -> UserSessionView {
    let remaining = s.tabs.filter(|x: Seq<char>| x != tab_id);
    UserSessionView {
        tabs: remaining,
        active_tab: if s.active_tab == Some(tab_id) {
            if remaining.len() > 0 {
                Some(remaining[0])
            } else {
                None
            }
        } else {
            s.active_tab
        },
        last_accessed: now,
        ..s
    }
}

/// The tab that a close promotes to active, if any.
pub open spec fn promoted_tab(s: UserSessionView, tab_id: Seq<char>) -> Option<Seq<char>> {
    if s.active_tab == Some(tab_id) {
        session_after_close(s, tab_id, 0).active_tab
    } else {
        None
    }
}

/// What `close_tab_at` does.
pub open spec fn tab_closed(
    old: SessionManagerView,
    new: SessionManagerView,
    tab_id: Seq<char>,
    now: u64,
    r: Result<(), Seq<char>>,
) -> bool {
    let sid = tab_of(old, tab_id).session_id;
    let s = session_of(old, sid);
    let removed = remove_entry(old.tabs, tab_id);
    if !has_key(old.tabs, tab_id) {
        &&& r == Err::<(), Seq<char>>(tab_not_found_message(tab_id))
        &&& new == old
    } else if !has_key(old.sessions, sid) {
        &&& r == Ok::<(), Seq<char>>(())
        &&& new == SessionManagerView { tabs: removed, ..old }
    } else {
        &&& r == Ok::<(), Seq<char>>(())
        &&& new == SessionManagerView {
            tabs: match promoted_tab(s, tab_id) {
                Some(first) => if has_key(removed, first) {
                    insert_entry(removed, first, UITabView { is_active: true, ..lookup(removed, first)->0 })
                } else {
                    removed
                },
                None => removed,
            },
            sessions: insert_entry(old.sessions, sid, session_after_close(s, tab_id, now)),
            ..old
        }
    }
}

/// A session last accessed more than `timeout_secs` seconds before `now` has expired.
pub open spec fn is_expired(s: UserSessionView, now: u64, timeout_secs: int) -> bool {
    now - s.last_accessed > timeout_secs
}

/// `id` names an expired session.
pub open spec fn expired_id(
    sessions: Seq<(Seq<char>, UserSessionView)>,
    id: Seq<char>,
    now: u64,
    timeout_secs: int,
) -> bool {
    match lookup(sessions, id) {
        Some(s) => is_expired(s, now, timeout_secs),
        None => false,
    }
}

/// What `cleanup_expired_sessions_at` does: it removes the expired sessions and their tabs
/// and returns how many sessions it removed.
pub open spec fn sessions_cleaned(
    old: SessionManagerView,
    new: SessionManagerView,
    now: u64,
    r: usize,
) -> bool {
    let t = old.config.timeout_minutes * 60;
    &&& new == SessionManagerView {
        sessions: old.sessions.filter(
            |e: (Seq<char>, UserSessionView)| !is_expired(e.1, now, t),
        ),
        tabs: old.tabs.filter(
            |e: (Seq<char>, UITabView)| !expired_id(old.sessions, e.1.session_id, now, t),
        ),
        ..old
    }
    &&& r == old.sessions.len() - new.sessions.len()
}

/// Sessions and tabs get distinct ids: the ids given out for two different counts differ.
pub proof fn lemma_ids_never_repeat(a: u64, b: u64)
    requires
        a != b,
    ensures
        session_id_for(a) != session_id_for(b),
        tab_id_for(a) != tab_id_for(b),
{
    if session_id_for(a) == session_id_for(b) {
        lemma_numbered_injective("session-"@, a as nat, b as nat);
    }
    if tab_id_for(a) == tab_id_for(b) {
        lemma_numbered_injective("tab-"@, a as nat, b as nat);
    }
}

/// A session that `create_session_at` made is what a read of its id gives back: fresh,
/// with no tabs and no active tab; reads of other ids are unchanged.
pub proof fn lemma_created_session_found(
    old: SessionManagerView,
    new: SessionManagerView,
    user_id: Option<Seq<char>>,
    now: u64,
    r: Result<Seq<char>, Seq<char>>,
    q: Seq<char>,
)
    requires
        keys_unique(old.sessions),
        session_created(old, new, user_id, now, r),
    ensures
        r matches Ok(id) && lookup(new.sessions, q) == if q == id {
            Some(new_session_view(id, user_id, now))
        } else {
            lookup(old.sessions, q)
        },
        r == Ok::<Seq<char>, Seq<char>>(session_id_for(old.next_session_id)),
        session_of(new, r->Ok_0).id == r->Ok_0,
        session_of(new, r->Ok_0).user_id == user_id,
        session_of(new, r->Ok_0).created_at == now,
        session_of(new, r->Ok_0).last_accessed == now,
        session_of(new, r->Ok_0).tabs.len() == 0,
        session_of(new, r->Ok_0).active_tab is None,
        session_of(new, r->Ok_0).metadata == Map::<String, String>::empty(),
        new.tabs == old.tabs,
        new.next_session_id == (old.next_session_id + 1) as u64,
{
    let id = session_id_for(old.next_session_id);
    lemma_lookup_insert(old.sessions, id, new_session_view(id, user_id, now), q);
    lemma_lookup_insert(old.sessions, id, new_session_view(id, user_id, now), id);
}

/// A tab that `create_tab_at` made is what a read of its id gives back, and its session
/// lists it last; a session never gets more tabs than the configured maximum this way.
pub proof fn lemma_created_tab_found(
    old: SessionManagerView,
    new: SessionManagerView,
    session_id: Seq<char>,
    title: Seq<char>,
    component_type: Seq<char>,
    component_state: Option<serde_json::Value>,
    settings: Map<String, String>,
    now: u64,
    r: Result<Seq<char>, Seq<char>>,
)
    requires
        keys_unique(old.sessions),
        keys_unique(old.tabs),
        tab_created(
            old,
            new,
            session_id,
            title,
            component_type,
            component_state,
            settings,
            now,
            r,
        ),
        r is Ok,
    ensures
        lookup(new.tabs, r->Ok_0) == Some(
            new_tab_view(
                r->Ok_0,
                session_id,
                title,
                component_type,
                component_state,
                settings,
                now,
            ),
        ),
        session_of(new, session_id).tabs == session_of(old, session_id).tabs.push(r->Ok_0),
        session_of(new, session_id).tabs.len() <= old.config.max_tabs_per_session,
        r->Ok_0 == tab_id_for(old.next_tab_id),
        !has_key(old.tabs, r->Ok_0) ==> new.tabs.len() == old.tabs.len() + 1,
        tab_of(new, r->Ok_0).id == r->Ok_0,
        tab_of(new, r->Ok_0).session_id == session_id,
        tab_of(new, r->Ok_0).title == title,
        tab_of(new, r->Ok_0).component_type == component_type,
        tab_of(new, r->Ok_0).component_state == component_state,
        tab_of(new, r->Ok_0).settings == settings,
        tab_of(new, r->Ok_0).created_at == now,
        tab_of(new, r->Ok_0).last_accessed == now,
        !tab_of(new, r->Ok_0).is_active,
        session_of(new, session_id).last_accessed == now,
        session_of(new, session_id).active_tab == session_of(old, session_id).active_tab,
        forall|q: Seq<char>| q != r->Ok_0 ==> lookup(new.tabs, q) == lookup(old.tabs, q),
        forall|q: Seq<char>| q != session_id ==> lookup(new.sessions, q) == lookup(old.sessions, q),
{
    let id = tab_id_for(old.next_tab_id);
    let s = session_of(old, session_id);
    let t = new_tab_view(id, session_id, title, component_type, component_state, settings, now);
    let s2 = UserSessionView { tabs: s.tabs.push(id), last_accessed: now, ..s };
    lemma_lookup_insert(old.tabs, id, t, id);
    lemma_lookup_insert(old.sessions, session_id, s2, session_id);
    assert forall|q: Seq<char>| q != id implies lookup(new.tabs, q) == lookup(old.tabs, q) by {
        lemma_lookup_insert(old.tabs, id, t, q);
    }
    assert forall|q: Seq<char>| q != session_id implies lookup(new.sessions, q) == lookup(
        old.sessions,
        q,
    ) by {
        lemma_lookup_insert(old.sessions, session_id, s2, q);
    }
}

/// Touching an existing session at `now` sets its last access to `now` and changes nothing
/// else: no other field of it, no other session, no tab. Touching an unknown id is an error
/// that changes nothing.
pub proof fn lemma_touch_sets_last_access(
    old: SessionManagerView,
    new: SessionManagerView,
    id: Seq<char>,
    now: u64,
    r: Result<(), Seq<char>>,
)
    requires
        keys_unique(old.sessions),
        session_touched(old, new, id, now, r),
    ensures
        has_key(old.sessions, id) ==> {
            &&& r is Ok
            &&& has_key(new.sessions, id)
            &&& session_of(new, id).last_accessed == now
            &&& session_of(new, id).id == session_of(old, id).id
            &&& session_of(new, id).user_id == session_of(old, id).user_id
            &&& session_of(new, id).created_at == session_of(old, id).created_at
            &&& session_of(new, id).tabs == session_of(old, id).tabs
            &&& session_of(new, id).active_tab == session_of(old, id).active_tab
            &&& session_of(new, id).metadata == session_of(old, id).metadata
            &&& key_seq(new.sessions) == key_seq(old.sessions)
            &&& forall|q: Seq<char>| q != id ==> lookup(new.sessions, q) == lookup(old.sessions, q)
            &&& new.tabs == old.tabs
            &&& new.config == old.config
        },
        !has_key(old.sessions, id) ==> r is Err && new == old,
{
    if has_key(old.sessions, id) {
        let s2 = UserSessionView { last_accessed: now, ..session_of(old, id) };
        lemma_lookup_insert(old.sessions, id, s2, id);
        assert forall|q: Seq<char>| q != id implies lookup(new.sessions, q) == lookup(old.sessions, q) by {
            lemma_lookup_insert(old.sessions, id, s2, q);
        }
        assert(key_seq(new.sessions) =~= key_seq(old.sessions));
    }
}

/// Destroying a session leaves no tab of it behind and keeps every tab of other sessions.
pub proof fn lemma_destroy_takes_tabs(tabs: Seq<(Seq<char>, UITabView)>, id: Seq<char>)
    ensures
        forall|i: int|
            0 <= i < tabs_outside(tabs, id).len() ==> (#[trigger] tabs_outside(tabs, id)[i]).1.session_id
                != id,
        forall|j: int|
            0 <= j < tabs.len() && (#[trigger] tabs[j]).1.session_id != id ==> tabs_outside(
                tabs,
                id,
            ).contains(tabs[j]),
{
    broadcast use vstd::seq_lib::group_filter_ensures;

    assert forall|j: int| 0 <= j < tabs.len() && (#[trigger] tabs[j]).1.session_id != id implies tabs_outside(
        tabs,
        id,
    ).contains(tabs[j]) by {
        tabs.lemma_filter_contains(|e: (Seq<char>, UITabView)| e.1.session_id != id, j);
    }
}

/// A read of a tab after `activate_tab`: the activated tab is active and was accessed at
/// `now`; another tab of the session is inactive; a tab of another session is unchanged.
proof fn lemma_lookup_activated(
    tabs: Seq<(Seq<char>, UITabView)>,
    session_id: Seq<char>,
    tab_id: Seq<char>,
    now: u64,
    q: Seq<char>,
)
    requires
        keys_unique(tabs),
    ensures
        keys_unique(activate_tab(tabs, session_id, tab_id, now)),
        has_key(activate_tab(tabs, session_id, tab_id, now), q) == has_key(tabs, q),
        has_key(tabs, q) ==> lookup(activate_tab(tabs, session_id, tab_id, now), q) == Some(
            if q == tab_id {
                UITabView { is_active: true, last_accessed: now, ..lookup(tabs, q)->0 }
            } else if lookup(tabs, q)->0.session_id == session_id {
                UITabView { is_active: false, ..lookup(tabs, q)->0 }
            } else {
                lookup(tabs, q)->0
            },
        ),
{
    let t = activate_tab(tabs, session_id, tab_id, now);
    lemma_one_active_tab(tabs, session_id, tab_id, now);
    assert(keys_unique(t)) by {
        assert forall|a: int, b: int| 0 <= a < t.len() && 0 <= b < t.len() && a != b implies t[a].0
            != t[b].0 by {
            assert(key_seq(t)[a] == key_seq(tabs)[a]);
            assert(key_seq(t)[b] == key_seq(tabs)[b]);
        }
    }
    if has_key(tabs, q) {
        let i = key_index(tabs, q);
        lemma_lookup_at(tabs, i);
        assert(t[i].0 == q);
        lemma_lookup_at(t, i);
    }
    if has_key(t, q) {
        let i = key_index(t, q);
        assert(tabs[i].0 == q);
    }
}

/// Making a tab the active tab of a session succeeds exactly when the session exists and
/// the tab exists and belongs to it, and otherwise changes nothing. On success the session
/// names the tab as its active one and was accessed at `now`, keeping its tabs; the tab is
/// active and was accessed at `now`; every other tab of the session is inactive and
/// otherwise unchanged; tabs and sessions elsewhere are unchanged.
pub proof fn lemma_activation_result(
    old: SessionManagerView,
    new: SessionManagerView,
    session_id: Seq<char>,
    tab_id: Seq<char>,
    now: u64,
    r: Result<(), Seq<char>>,
)
    requires
        keys_unique(old.sessions),
        keys_unique(old.tabs),
        tab_activated(old, new, session_id, tab_id, now, r),
    ensures
        r is Ok <==> (has_key(old.sessions, session_id) && has_key(old.tabs, tab_id) && tab_of(
            old,
            tab_id,
        ).session_id == session_id),
        r is Err ==> new == old,
        r is Ok ==> {
            &&& session_of(new, session_id).active_tab == Some(tab_id)
            &&& session_of(new, session_id).last_accessed == now
            &&& session_of(new, session_id).tabs == session_of(old, session_id).tabs
            &&& has_key(new.tabs, tab_id)
            &&& tab_of(new, tab_id).is_active
            &&& tab_of(new, tab_id).last_accessed == now
            &&& tab_of(new, tab_id).session_id == session_id
            &&& key_seq(new.tabs) == key_seq(old.tabs)
            &&& forall|q: Seq<char>|
                q != tab_id && has_key(old.tabs, q) && tab_of(old, q).session_id == session_id
                    ==> !tab_of(new, q).is_active && (UITabView { is_active: tab_of(old, q).is_active, ..tab_of(new, q) }) == tab_of(old, q)
            &&& forall|q: Seq<char>|
                q != tab_id && has_key(old.tabs, q) && tab_of(old, q).session_id != session_id
                    ==> lookup(new.tabs, q) == lookup(old.tabs, q)
            &&& forall|q: Seq<char>|
                q != session_id ==> lookup(new.sessions, q) == lookup(old.sessions, q)
        },
{
    if r is Ok {
        let s2 = UserSessionView {
            active_tab: Some(tab_id),
            last_accessed: now,
            ..session_of(old, session_id)
        };
        lemma_lookup_insert(old.sessions, session_id, s2, session_id);
        lemma_lookup_activated(old.tabs, session_id, tab_id, now, tab_id);
        lemma_one_active_tab(old.tabs, session_id, tab_id, now);
        assert forall|q: Seq<char>|
            q != tab_id && has_key(old.tabs, q) && tab_of(old, q).session_id == session_id implies !tab_of(
            new,
            q,
        ).is_active && (UITabView { is_active: tab_of(old, q).is_active, ..tab_of(new, q) })
            == tab_of(old, q) by {
            lemma_lookup_activated(old.tabs, session_id, tab_id, now, q);
        }
        assert forall|q: Seq<char>|
            q != tab_id && has_key(old.tabs, q) && tab_of(old, q).session_id != session_id implies lookup(
            new.tabs,
            q,
        ) == lookup(old.tabs, q) by {
            lemma_lookup_activated(old.tabs, session_id, tab_id, now, q);
        }
        assert forall|q: Seq<char>| q != session_id implies lookup(new.sessions, q) == lookup(
            old.sessions,
            q,
        ) by {
            lemma_lookup_insert(old.sessions, session_id, s2, q);
        }
    }
}

/// Closing a tab succeeds exactly when the tab exists, and otherwise changes nothing. On
/// success the tab is gone and every other tab stays, with only its active flag possibly
/// changed; its session, if stored, no longer lists it, keeps its other tabs and was
/// accessed at `now`; its active tab is never the closed one: it is unchanged if another tab
/// was active, and when the closed tab was active it is the first remaining tab, itself
/// marked active, or none when no tab remains. Other sessions are unchanged.
pub proof fn lemma_close_result(
    old: SessionManagerView,
    new: SessionManagerView,
    tab_id: Seq<char>,
    now: u64,
    r: Result<(), Seq<char>>,
)
    requires
        keys_unique(old.sessions),
        keys_unique(old.tabs),
        tab_closed(old, new, tab_id, now, r),
    ensures
        r is Ok <==> has_key(old.tabs, tab_id),
        r is Err ==> new == old,
        r is Ok ==> {
            &&& !has_key(new.tabs, tab_id)
            &&& new.tabs.len() == old.tabs.len() - 1
            &&& forall|q: Seq<char>| q != tab_id ==> has_key(new.tabs, q) == has_key(old.tabs, q)
            &&& forall|q: Seq<char>|
                q != tab_id && has_key(old.tabs, q) ==> (UITabView {
                    is_active: tab_of(old, q).is_active,
                    ..tab_of(new, q)
                }) == tab_of(old, q)
        },
        r is Ok && !has_key(old.sessions, tab_of(old, tab_id).session_id) ==> new.sessions
            == old.sessions,
        r is Ok && has_key(old.sessions, tab_of(old, tab_id).session_id) ==> {
            let sid = tab_of(old, tab_id).session_id;
            let before = session_of(old, sid);
            let after = session_of(new, sid);
            &&& has_key(new.sessions, sid)
            &&& !after.tabs.contains(tab_id)
            &&& forall|x: Seq<char>| before.tabs.contains(x) && x != tab_id ==> after.tabs.contains(x)
            &&& forall|x: Seq<char>| after.tabs.contains(x) ==> before.tabs.contains(x)
            &&& after.last_accessed == now
            &&& after.active_tab != Some(tab_id)
            &&& before.active_tab != Some(tab_id) ==> after.active_tab == before.active_tab
            &&& before.active_tab == Some(tab_id) ==> {
                &&& after.active_tab is None <==> after.tabs.len() == 0
                &&& after.active_tab matches Some(a) ==> a == after.tabs[0] && (has_key(new.tabs, a)
                    ==> tab_of(new, a).is_active)
            }
            &&& forall|q: Seq<char>| q != sid ==> lookup(new.sessions, q) == lookup(old.sessions, q)
        },
{
    broadcast use vstd::seq_lib::group_filter_ensures, vstd::seq::Seq::lemma_filter_contains_rev;

    if has_key(old.tabs, tab_id) {
        let sid = tab_of(old, tab_id).session_id;
        let s = session_of(old, sid);
        let removed = remove_entry(old.tabs, tab_id);
        lemma_lookup_remove(old.tabs, tab_id, tab_id);
        assert(removed.len() == old.tabs.len() - 1);
        lemma_closed_tab_gone(old, new, tab_id, now, r);
        if has_key(old.sessions, sid) {
            match promoted_tab(s, tab_id) {
                Some(first) => {
                    if has_key(removed, first) {
                        assert(new.tabs.len() == removed.len());
                    }
                },
                None => {},
            }
        }
        assert forall|q: Seq<char>| q != tab_id implies #[trigger] has_key(new.tabs, q) == has_key(
            old.tabs,
            q,
        ) && (has_key(old.tabs, q) ==> (UITabView {
            is_active: tab_of(old, q).is_active,
            ..tab_of(new, q)
        }) == tab_of(old, q)) by {
            lemma_lookup_remove(old.tabs, tab_id, q);
            if has_key(old.sessions, sid) {
                match promoted_tab(s, tab_id) {
                    Some(first) => {
                        if has_key(removed, first) {
                            lemma_lookup_insert(
                                removed,
                                first,
                                UITabView { is_active: true, ..lookup(removed, first)->0 },
                                q,
                            );
                        }
                    },
                    None => {},
                }
            }
        }
        if has_key(old.sessions, sid) {
            let after = session_after_close(s, tab_id, now);
            lemma_lookup_insert(old.sessions, sid, after, sid);
            assert forall|q: Seq<char>| q != sid implies lookup(new.sessions, q) == lookup(
                old.sessions,
                q,
            ) by {
                lemma_lookup_insert(old.sessions, sid, after, q);
            }
            assert forall|x: Seq<char>| s.tabs.contains(x) && x != tab_id implies after.tabs.contains(
                x,
            ) by {
                let k = choose|k: int| 0 <= k < s.tabs.len() && s.tabs[k] == x;
                assert(after.tabs.contains(s.tabs[k]));
            }
            assert forall|x: Seq<char>| after.tabs.contains(x) implies s.tabs.contains(x) by {}
            match promoted_tab(s, tab_id) {
                Some(first) => {
                    if has_key(removed, first) {
                        lemma_lookup_remove(old.tabs, tab_id, first);
                        lemma_lookup_insert(
                            removed,
                            first,
                            UITabView { is_active: true, ..lookup(removed, first)->0 },
                            first,
                        );
                    }
                    assert(after.tabs.len() > 0);
                },
                None => {},
            }
            if s.active_tab == Some(tab_id) && after.tabs.len() > 0 {
                assert(after.tabs[0] != tab_id);
            }
        }
    }
}

/// A cleanup at `now` keeps exactly the sessions last accessed no more than the timeout
/// before `now`, each unchanged, and exactly the tabs whose session was kept or is not
/// stored at all; it returns how many sessions it removed.
pub proof fn lemma_cleanup_keeps_exactly_live(
    old: SessionManagerView,
    new: SessionManagerView,
    now: u64,
    r: usize,
    q: Seq<char>,
)
    requires
        keys_unique(old.sessions),
        keys_unique(old.tabs),
        sessions_cleaned(old, new, now, r),
    ensures
        lookup(new.sessions, q) == match lookup(old.sessions, q) {
            Some(s) => if now - s.last_accessed > old.config.timeout_minutes * 60 {
                None
            } else {
                Some(s)
            },
            None => None,
        },
        lookup(new.tabs, q) == match lookup(old.tabs, q) {
            Some(t) => if has_key(old.sessions, t.session_id) && now - session_of(
                old,
                t.session_id,
            ).last_accessed > old.config.timeout_minutes * 60 {
                None
            } else {
                Some(t)
            },
            None => None,
        },
        r == old.sessions.len() - new.sessions.len(),
        new.config == old.config,
        new.next_session_id == old.next_session_id,
        new.next_tab_id == old.next_tab_id,
{
    let t = old.config.timeout_minutes * 60;
    lemma_lookup_filter(
        old.sessions,
        |e: (Seq<char>, UserSessionView)| !is_expired(e.1, now, t),
        q,
    );
    lemma_lookup_filter(
        old.tabs,
        |e: (Seq<char>, UITabView)| !expired_id(old.sessions, e.1.session_id, now, t),
        q,
    );
    if has_key(old.sessions, q) {
        lemma_lookup_at(old.sessions, key_index(old.sessions, q));
    }
    if has_key(old.tabs, q) {
        lemma_lookup_at(old.tabs, key_index(old.tabs, q));
    }
}

/// Making a tab active leaves it the only active tab of its session; tabs of other sessions
/// and every tab's id and place stay as they were.
pub proof fn lemma_one_active_tab(
    tabs: Seq<(Seq<char>, UITabView)>,
    session_id: Seq<char>,
    tab_id: Seq<char>,
    now: u64,
)
    ensures
        key_seq(activate_tab(tabs, session_id, tab_id, now)) == key_seq(tabs),
        forall|i: int|
            0 <= i < tabs.len() && tabs[i].1.session_id == session_id ==> (#[trigger] activate_tab(
                tabs,
                session_id,
                tab_id,
                now,
            )[i]).1.is_active == (tabs[i].0 == tab_id),
        forall|i: int|
            0 <= i < tabs.len() && tabs[i].1.session_id != session_id && tabs[i].0 != tab_id
                ==> #[trigger] activate_tab(tabs, session_id, tab_id, now)[i] == tabs[i],
{
    assert(key_seq(activate_tab(tabs, session_id, tab_id, now)) =~= key_seq(tabs));
}

/// A tab that `close_tab_at` closed is gone, and the session it belonged to no longer
/// lists it.
pub proof fn lemma_closed_tab_gone(
    old: SessionManagerView,
    new: SessionManagerView,
    tab_id: Seq<char>,
    now: u64,
    r: Result<(), Seq<char>>,
)
    requires
        keys_unique(old.sessions),
        keys_unique(old.tabs),
        tab_closed(old, new, tab_id, now, r),
        has_key(old.tabs, tab_id),
    ensures
        !has_key(new.tabs, tab_id),
        has_key(old.sessions, tab_of(old, tab_id).session_id) ==> !session_of(
            new,
            tab_of(old, tab_id).session_id,
        ).tabs.contains(tab_id),
{
    let sid = tab_of(old, tab_id).session_id;
    let s = session_of(old, sid);
    let removed = remove_entry(old.tabs, tab_id);
    lemma_lookup_remove(old.tabs, tab_id, tab_id);
    if has_key(old.sessions, sid) {
        match promoted_tab(s, tab_id) {
            Some(first) => {
                if has_key(removed, first) {
                    lemma_lookup_insert(
                        removed,
                        first,
                        UITabView { is_active: true, ..lookup(removed, first)->0 },
                        tab_id,
                    );
                }
            },
            None => {},
        }
        lemma_lookup_insert(old.sessions, sid, session_after_close(s, tab_id, now), sid);
        broadcast use vstd::seq_lib::group_filter_ensures;

        let p = |x: Seq<char>| x != tab_id;
        assert(!s.tabs.filter(p).contains(tab_id)) by {
            if s.tabs.filter(p).contains(tab_id) {
                let k = choose|k: int| 0 <= k < s.tabs.filter(p).len() && s.tabs.filter(p)[k] == tab_id;
                assert(p(s.tabs.filter(p)[k]));
            }
        }
    }
}

/// After a cleanup no remaining session has expired, and no remaining tab belongs to a
/// session that did.
pub proof fn lemma_cleanup_leaves_live_sessions(
    old: SessionManagerView,
    new: SessionManagerView,
    now: u64,
    r: usize,
)
    requires
        sessions_cleaned(old, new, now, r),
    ensures
        forall|i: int|
            0 <= i < new.sessions.len() ==> !is_expired(
                (#[trigger] new.sessions[i]).1,
                now,
                old.config.timeout_minutes * 60,
            ),
        forall|i: int|
            0 <= i < new.tabs.len() ==> !expired_id(
                old.sessions,
                (#[trigger] new.tabs[i]).1.session_id,
                now,
                old.config.timeout_minutes * 60,
            ),
{
    broadcast use vstd::seq_lib::group_filter_ensures;

}

/// What every session manager keeps: one session per id and one tab per id, each id one
/// that the manager has given out.
pub open spec fn session_wf(m: SessionManagerView) -> bool {
    &&& keys_unique(m.sessions)
    &&& keys_unique(m.tabs)
    &&& ids_issued(m.sessions, "session-"@, m.next_session_id)
    &&& ids_issued(m.tabs, "tab-"@, m.next_tab_id)
}

/// Manager for user sessions and tabs
pub struct SessionManager {
    sessions: Table<String, UserSession>,
    tabs: Table<String, UITab>,
    config: SessionConfig,
    next_session_id: u64,
    next_tab_id: u64,
}

impl View for SessionManager {
    type V = SessionManagerView;

    closed spec fn view(&self) -> SessionManagerView {
        SessionManagerView {
            sessions: view_values(self.sessions@),
            tabs: view_values(self.tabs@),
            config: self.config,
            next_session_id: self.next_session_id,
            next_tab_id: self.next_tab_id,
        }
    }
}

impl SessionManager {
    #[verifier::type_invariant]
    spec fn well_formed(self) -> bool {
        &&& keys_unique(self.sessions@)
        &&& keys_unique(self.tabs@)
        &&& session_wf(self@)
    }

    /// Confirms what every session manager keeps: one session per id and one tab per id,
    /// each id one that the manager has given out.
    pub fn check_invariants(&self)
        ensures
            session_wf(self@),
    {
        proof {
            use_type_invariant(self);
        }
        self.sessions.check_keys();
        self.tabs.check_keys();
        proof {
            lemma_view_values_keys(self.sessions@);
            lemma_view_values_keys(self.tabs@);
        }
    }

    /// How many session ids the manager has given out, which is the number in the next one.
    pub fn sessions_numbered(&self) -> (n: u64)
        ensures
            n == self@.next_session_id,
    {
        self.next_session_id
    }

    /// How many tab ids the manager has given out, which is the number in the next one.
    pub fn tabs_numbered(&self) -> (n: u64)
        ensures
            n == self@.next_tab_id,
    {
        self.next_tab_id
    }

    /// Create a new session manager with default configuration
    pub fn new() -> (m: Self)
        ensures
            m@.sessions == Seq::<(Seq<char>, UserSessionView)>::empty(),
            m@.tabs == Seq::<(Seq<char>, UITabView)>::empty(),
            m@.config == default_session_config(),
            m@.next_session_id == 0,
            m@.next_tab_id == 0,
            session_wf(m@),
    {
        Self::with_config(
            SessionConfig { timeout_minutes: 30, max_tabs_per_session: 10, allow_tab_restore: true },
        )
    }

    /// Create a new session manager with custom configuration
    pub fn with_config(config: SessionConfig) -> (m: Self)
        ensures
            m@.sessions == Seq::<(Seq<char>, UserSessionView)>::empty(),
            m@.tabs == Seq::<(Seq<char>, UITabView)>::empty(),
            m@.config == config,
            m@.next_session_id == 0,
            m@.next_tab_id == 0,
            session_wf(m@),
    {
        let sessions: Table<String, UserSession> = Table::new();
        let tabs: Table<String, UITab> = Table::new();
        assert(view_values(sessions@) =~= Seq::<(Seq<char>, UserSessionView)>::empty());
        assert(view_values(tabs@) =~= Seq::<(Seq<char>, UITabView)>::empty());
        sessions.check_keys();
        tabs.check_keys();
        let m = SessionManager { sessions, tabs, config, next_session_id: 0, next_tab_id: 0 };
        m
    }

    /// Generate a unique session ID
    fn generate_session_id(&mut self) -> (id: String)
        requires
            old(self).next_session_id < u64::MAX,
        ensures
            id@ == session_id_for(old(self).next_session_id),
            final(self).next_session_id == old(self).next_session_id + 1,
            final(self).sessions == old(self).sessions,
            final(self).tabs == old(self).tabs,
            final(self).config == old(self).config,
            final(self).next_tab_id == old(self).next_tab_id,
    {
        proof {
            use_type_invariant(&*self);
            lemma_ids_issued_grow(
                self@.sessions,
                "session-"@,
                self.next_session_id,
                (self.next_session_id + 1) as u64,
            );
        }
        let id = numbered_id("session-", self.next_session_id);
        self.next_session_id = self.next_session_id + 1;
        id
    }

    /// Generate a unique tab ID
    fn generate_tab_id(&mut self) -> (id: String)
        requires
            old(self).next_tab_id < u64::MAX,
        ensures
            id@ == tab_id_for(old(self).next_tab_id),
            final(self).next_tab_id == old(self).next_tab_id + 1,
            final(self).sessions == old(self).sessions,
            final(self).tabs == old(self).tabs,
            final(self).config == old(self).config,
            final(self).next_session_id == old(self).next_session_id,
    {
        proof {
            use_type_invariant(&*self);
            lemma_ids_issued_grow(self@.tabs, "tab-"@, self.next_tab_id, (self.next_tab_id + 1) as u64);
        }
        let id = numbered_id("tab-", self.next_tab_id);
        self.next_tab_id = self.next_tab_id + 1;
        id
    }

    /// Create a new user session, stamped with the current time
    pub fn create_session(&mut self, user_id: Option<String>) -> (r: Result<String, String>)
        requires
            old(self)@.next_session_id < u64::MAX,
        ensures
            exists|now: u64|
                session_created(old(self)@, final(self)@, option_text(user_id), now, result_text(r)),
            !has_key(old(self)@.sessions, session_id_for(old(self)@.next_session_id)),
            final(self)@.sessions.len() == old(self)@.sessions.len() + 1,
            session_wf(final(self)@),
    {
        let now = unix_now();
        self.create_session_at(user_id, now)
    }

    /// Create a new user session at the time `now`
    pub fn create_session_at(&mut self, user_id: Option<String>, now: u64) -> (r: Result<
        String,
        String,
    >)
        requires
            old(self)@.next_session_id < u64::MAX,
        ensures
            session_created(old(self)@, final(self)@, option_text(user_id), now, result_text(r)),
            !has_key(old(self)@.sessions, session_id_for(old(self)@.next_session_id)),
            final(self)@.sessions.len() == old(self)@.sessions.len() + 1,
            session_wf(final(self)@),
    {
        proof {
            use_type_invariant(&*self);
            lemma_fresh_id(self@.sessions, "session-"@, self.next_session_id);
        }
        self.sessions.check_keys();
        let ghost n = self.next_session_id;
        let session_id = self.generate_session_id();
        let session = UserSession {
            id: session_id.clone(),
            user_id,
            created_at: now,
            last_accessed: now,
            tabs: Vec::new(),
            active_tab: None,
            metadata: HashMap::new(),
        };
        assert(session@.tabs =~= Seq::<Seq<char>>::empty());
        assert(session@ == new_session_view(session_id@, session@.user_id, now));
        let mut sessions: Table<String, UserSession> = Table::new();
        std::mem::swap(&mut sessions, &mut self.sessions);
        let ghost before = sessions@;
        sessions.insert(session_id.clone(), session);
        proof {
            lemma_view_values_insert(before, session_id@, session);
            lemma_view_values_keys(sessions@);
            assert(issued_id("session-"@, session_id@, self.next_session_id)) by {
                assert(n < self.next_session_id && session_id@ == numbered("session-"@, n as nat));
            }
            lemma_ids_issued_insert(
                view_values(before),
                "session-"@,
                self.next_session_id,
                session_id@,
                session@,
            );
        }
        self.sessions = sessions;
        Ok(session_id)
    }

    /// Get a session by ID
    pub fn get_session(&self, session_id: &str) -> (r: Option<UserSession>)
        ensures
            option_view(r) == lookup(self@.sessions, session_id@),
    {
        self.sessions.check_keys();
        let key = session_id.to_owned();
        proof {
            lemma_view_values_lookup(self.sessions@, key@);
        }
        match self.sessions.get(&key) {
            Some(s) => Some(s.duplicate()),
            None => None,
        }
    }

    /// Update the session's last accessed time to the current time
    pub fn touch_session(&mut self, session_id: &str) -> (r: Result<(), String>)
        ensures
            exists|now: u64|
                session_touched(old(self)@, final(self)@, session_id@, now, unit_result_text(r)),
            session_wf(final(self)@),
    {
        let now = unix_now();
        self.touch_session_at(session_id, now)
    }

    /// Update the session's last accessed time to `now`
    pub fn touch_session_at(&mut self, session_id: &str, now: u64) -> (r: Result<(), String>)
        ensures
            session_touched(old(self)@, final(self)@, session_id@, now, unit_result_text(r)),
            session_wf(final(self)@),
    {
        proof {
            use_type_invariant(&*self);
        }
        self.sessions.check_keys();
        let key = session_id.to_owned();
        proof {
            lemma_view_values_keys(self.sessions@);
        }
        match self.sessions.find(&key) {
            None => Err(join3("Session ", session_id, " not found")),
            Some(i) => {
                let mut s = self.sessions.value_at(i).duplicate();
                s.last_accessed = now;
                let mut sessions: Table<String, UserSession> = Table::new();
                std::mem::swap(&mut sessions, &mut self.sessions);
                let ghost before = sessions@;
                sessions.set_value_at(i, s);
                proof {
                    lemma_lookup_at(before, i as int);
                    lemma_lookup_at(view_values(before), i as int);
                    assert(view_values(sessions@) =~= insert_entry(view_values(before), key@, s@));
                    assert(key_seq(sessions@) =~= key_seq(before));
                    lemma_view_values_keys(sessions@);
                    lemma_view_values_keys(before);
                    lemma_ids_issued_same_keys(
                        view_values(before),
                        view_values(sessions@),
                        "session-"@,
                        self.next_session_id,
                    );
                }
                self.sessions = sessions;
                Ok(())
            },
        }
    }

    /// Destroy a session and all its tabs
    pub fn destroy_session(&mut self, session_id: &str) -> (r: Result<(), String>)
        ensures
            r is Ok,
            final(self)@ == (SessionManagerView {
                sessions: remove_entry(old(self)@.sessions, session_id@),
                tabs: tabs_outside(old(self)@.tabs, session_id@),
                ..old(self)@
            }),
            session_wf(final(self)@),
    {
        proof {
            use_type_invariant(&*self);
        }
        self.sessions.check_keys();
        let key = session_id.to_owned();
        let ghost old_tabs = self.tabs@;
        let ghost pred = |k: Seq<char>, t: UITab| t.session_id@ != key@;
        let keep = |k: &String, t: &UITab| -> (b: bool)
            ensures
                b == (t.session_id@ != key@),
            { !(t.session_id == key) };
        let mut tabs: Table<String, UITab> = Table::new();
        std::mem::swap(&mut tabs, &mut self.tabs);
        tabs.retain(keep, Ghost(pred));
        proof {
            lemma_map_filter_commute(
                old_tabs,
                |e: (Seq<char>, UITab)| (e.0, e.1@),
                |e: (Seq<char>, UITab)| pred(e.0, e.1),
                |e: (Seq<char>, UITabView)| e.1.session_id != key@,
            );
            assert(old_tabs.filter(|e: (Seq<char>, UITab)| pred(e.0, e.1)).map_values(
                |e: (Seq<char>, UITab)| (e.0, e.1@),
            ) == view_values(tabs@));
            lemma_view_values_keys(tabs@);
            lemma_ids_issued_filter(
                view_values(old_tabs),
                "tab-"@,
                self.next_tab_id,
                |e: (Seq<char>, UITabView)| e.1.session_id != key@,
            );
        }
        self.tabs = tabs;
        let mut sessions: Table<String, UserSession> = Table::new();
        std::mem::swap(&mut sessions, &mut self.sessions);
        let ghost before = sessions@;
        sessions.remove(&key);
        proof {
            lemma_view_values_remove(before, key@);
            lemma_view_values_keys(sessions@);
            lemma_ids_issued_remove(view_values(before), "session-"@, self.next_session_id, key@);
        }
        self.sessions = sessions;
        Ok(())
    }

    /// Create a new tab in a session, stamped with the current time; the session must exist
    /// and have fewer tabs than the configured maximum.
    pub fn create_tab(
        &mut self,
        session_id: &str,
        title: String,
        component_type: String,
        component_state: Option<serde_json::Value>,
        settings: HashMap<String, String>,
    ) -> (r: Result<String, String>)
        requires
            has_key(old(self)@.sessions, session_id@) && session_of(old(self)@, session_id@).tabs.len()
                < old(self)@.config.max_tabs_per_session ==> old(self)@.next_tab_id < u64::MAX,
        ensures
            exists|now: u64|
                tab_created(
                    old(self)@,
                    final(self)@,
                    session_id@,
                    title@,
                    component_type@,
                    component_state,
                    settings@,
                    now,
                    result_text(r),
                ),
            !has_key(old(self)@.tabs, tab_id_for(old(self)@.next_tab_id)),
            r is Ok ==> final(self)@.tabs.len() == old(self)@.tabs.len() + 1,
            session_wf(final(self)@),
    {
        let now = unix_now();
        self.create_tab_at(session_id, title, component_type, component_state, settings, now)
    }

    /// Create a new tab in a session at the time `now`
    pub fn create_tab_at(
        &mut self,
        session_id: &str,
        title: String,
        component_type: String,
        component_state: Option<serde_json::Value>,
        settings: HashMap<String, String>,
        now: u64,
    ) -> (r: Result<String, String>)
        requires
            has_key(old(self)@.sessions, session_id@) && session_of(old(self)@, session_id@).tabs.len()
                < old(self)@.config.max_tabs_per_session ==> old(self)@.next_tab_id < u64::MAX,
        ensures
            tab_created(
                old(self)@,
                final(self)@,
                session_id@,
                title@,
                component_type@,
                component_state,
                settings@,
                now,
                result_text(r),
            ),
            !has_key(old(self)@.tabs, tab_id_for(old(self)@.next_tab_id)),
            r is Ok ==> final(self)@.tabs.len() == old(self)@.tabs.len() + 1,
            session_wf(final(self)@),
    {
        proof {
            use_type_invariant(&*self);
            lemma_fresh_id(self@.tabs, "tab-"@, self.next_tab_id);
        }
        self.check_invariants();
        self.sessions.check_keys();
        self.tabs.check_keys();
        let key = session_id.to_owned();
        proof {
            lemma_view_values_keys(self.sessions@);
        }
        let pos = self.sessions.find(&key);
        match pos {
            None => Err(join3("Session ", session_id, " not found")),
            Some(i) => {
                proof {
                    lemma_lookup_at(self.sessions@, i as int);
                    lemma_lookup_at(view_values(self.sessions@), i as int);
                }
                if self.sessions.value_at(i).tabs.len() >= self.config.max_tabs_per_session {
                    return Err(join3("Session ", session_id, " has exceeded maximum tabs limit"));
                }
                let ghost n = self.next_tab_id;
                let tab_id = self.generate_tab_id();
                let tab = UITab {
                    id: tab_id.clone(),
                    session_id: key.clone(),
                    title,
                    component_type,
                    component_state,
                    created_at: now,
                    last_accessed: now,
                    is_active: false,
                    settings,
                };
                let mut tabs: Table<String, UITab> = Table::new();
                std::mem::swap(&mut tabs, &mut self.tabs);
                let ghost tabs_before = tabs@;
                tabs.insert(tab_id.clone(), tab);
                proof {
                    lemma_view_values_insert(tabs_before, tab_id@, tab);
                    lemma_view_values_keys(tabs@);
                    assert(issued_id("tab-"@, tab_id@, self.next_tab_id)) by {
                        assert(n < self.next_tab_id && tab_id@ == numbered("tab-"@, n as nat));
                    }
                    lemma_ids_issued_insert(
                        view_values(tabs_before),
                        "tab-"@,
                        self.next_tab_id,
                        tab_id@,
                        tab@,
                    );
                }
                self.tabs = tabs;
                let mut s = self.sessions.value_at(i).duplicate();
                let ghost old_s = s@;
                s.tabs.push(tab_id.clone());
                s.last_accessed = now;
                assert(s@.tabs =~= old_s.tabs.push(tab_id@));
                let mut sessions: Table<String, UserSession> = Table::new();
                std::mem::swap(&mut sessions, &mut self.sessions);
                let ghost before = sessions@;
                sessions.set_value_at(i, s);
                proof {
                    assert(view_values(sessions@) =~= insert_entry(view_values(before), key@, s@));
                    assert(key_seq(sessions@) =~= key_seq(before));
                    lemma_view_values_keys(sessions@);
                    lemma_view_values_keys(before);
                    lemma_ids_issued_same_keys(
                        view_values(before),
                        view_values(sessions@),
                        "session-"@,
                        self.next_session_id,
                    );
                }
                self.sessions = sessions;
                Ok(tab_id)
            },
        }
    }

    /// Get a tab by ID
    pub fn get_tab(&self, tab_id: &str) -> (r: Option<UITab>)
        ensures
            option_view(r) == lookup(self@.tabs, tab_id@),
    {
        self.tabs.check_keys();
        let key = tab_id.to_owned();
        proof {
            lemma_view_values_lookup(self.tabs@, key@);
        }
        match self.tabs.get(&key) {
            Some(t) => Some(t.duplicate()),
            None => None,
        }
    }

    /// Make a tab of a session its active tab, stamped with the current time
    pub fn set_active_tab(&mut self, session_id: &str, tab_id: &str) -> (r: Result<(), String>)
        ensures
            exists|now: u64|
                tab_activated(
                    old(self)@,
                    final(self)@,
                    session_id@,
                    tab_id@,
                    now,
                    unit_result_text(r),
                ),
            r is Ok ==> forall|i: int|
                0 <= i < final(self)@.tabs.len() && final(self)@.tabs[i].1.session_id == session_id@
                    ==> (#[trigger] final(self)@.tabs[i]).1.is_active == (final(self)@.tabs[i].0
                    == tab_id@),
            session_wf(final(self)@),
    {
        let now = unix_now();
        self.set_active_tab_at(session_id, tab_id, now)
    }

    /// Make a tab of a session its active tab at the time `now`
    pub fn set_active_tab_at(&mut self, session_id: &str, tab_id: &str, now: u64) -> (r: Result<
        (),
        String,
    >)
        ensures
            tab_activated(old(self)@, final(self)@, session_id@, tab_id@, now, unit_result_text(r)),
            r is Ok ==> forall|i: int|
                0 <= i < final(self)@.tabs.len() && final(self)@.tabs[i].1.session_id == session_id@
                    ==> (#[trigger] final(self)@.tabs[i]).1.is_active == (final(self)@.tabs[i].0
                    == tab_id@),
            session_wf(final(self)@),
    {
        proof {
            use_type_invariant(&*self);
        }
        self.sessions.check_keys();
        self.tabs.check_keys();
        let skey = session_id.to_owned();
        let tkey = tab_id.to_owned();
        proof {
            lemma_view_values_keys(self.sessions@);
            lemma_view_values_keys(self.tabs@);
            lemma_view_values_lookup(self.tabs@, tkey@);
        }
        let si = match self.sessions.find(&skey) {
            None => {
                return Err(join3("Session ", session_id, " not found"));
            },
            Some(i) => i,
        };
        let belongs = match self.tabs.get(&tkey) {
            None => {
                return Err(join3("Tab ", tab_id, " not found"));
            },
            Some(t) => t.session_id == skey,
        };
        if !belongs {
            return Err(join4("Tab ", tab_id, " does not belong to session ", session_id));
        }
        let ghost orig = self@.tabs;
        let ghost target = activate_tab(orig, skey@, tkey@, now);
        let mut tabs: Table<String, UITab> = Table::new();
        std::mem::swap(&mut tabs, &mut self.tabs);
        let n = tabs.len();
        let mut i: usize = 0;
        while i < n
            invariant
                n == tabs@.len(),
                orig.len() == n,
                i <= n,
                key_seq(tabs@) == key_seq(orig),
                target == activate_tab(orig, skey@, tkey@, now),
                forall|j: int| 0 <= j < i ==> #[trigger] view_values(tabs@)[j] == target[j],
                forall|j: int| i <= j < n ==> #[trigger] view_values(tabs@)[j] == orig[j],
            decreases n - i,
        {
            assert(key_seq(tabs@)[i as int] == key_seq(orig)[i as int]);
            assert(view_values(tabs@)[i as int] == orig[i as int]);
            let is_target = *tabs.key_at(i) == tkey;
            let in_session = tabs.value_at(i).session_id == skey;
            if is_target || in_session {
                let mut t = tabs.value_at(i).duplicate();
                if is_target {
                    t.is_active = true;
                    t.last_accessed = now;
                } else {
                    t.is_active = false;
                }
                let ghost before = tabs@;
                tabs.set_value_at(i, t);
                proof {
                    assert(key_seq(tabs@) =~= key_seq(before));
                    assert forall|j: int| 0 <= j < n && j != i implies #[trigger] view_values(
                        tabs@,
                    )[j] == view_values(before)[j] by {}
                }
            }
            assert(view_values(tabs@)[i as int] == target[i as int]);
            i = i + 1;
        }
        assert(view_values(tabs@) =~= target);
        assert forall|j: int| 0 <= j < target.len() && target[j].1.session_id == skey@ implies (
        #[trigger] target[j]).1.is_active == (target[j].0 == tkey@) by {
            if orig[j].0 == tkey@ {
                lemma_lookup_at(orig, j);
            }
        }
        tabs.check_keys();
        proof {
            lemma_one_active_tab(orig, skey@, tkey@, now);
            lemma_view_values_keys(tabs@);
            lemma_ids_issued_same_keys(orig, target, "tab-"@, self.next_tab_id);
        }
        self.tabs = tabs;
        let mut s = self.sessions.value_at(si).duplicate();
        s.active_tab = Some(tkey.clone());
        s.last_accessed = now;
        let mut sessions: Table<String, UserSession> = Table::new();
        std::mem::swap(&mut sessions, &mut self.sessions);
        let ghost before = sessions@;
        sessions.set_value_at(si, s);
        proof {
            lemma_lookup_at(before, si as int);
            lemma_lookup_at(view_values(before), si as int);
            assert(view_values(sessions@) =~= insert_entry(view_values(before), skey@, s@));
            assert(key_seq(sessions@) =~= key_seq(before));
            lemma_view_values_keys(sessions@);
            lemma_view_values_keys(before);
            lemma_ids_issued_same_keys(
                view_values(before),
                view_values(sessions@),
                "session-"@,
                self.next_session_id,
            );
        }
        self.sessions = sessions;
        Ok(())
    }

    /// Get the active tab of a session
    pub fn get_active_tab(&self, session_id: &str) -> (r: Option<UITab>)
        ensures
            option_view(r) == match lookup(self@.sessions, session_id@) {
                Some(s) => match s.active_tab {
                    Some(t) => lookup(self@.tabs, t),
                    None => None,
                },
                None => None,
            },
    {
        self.sessions.check_keys();
        let key = session_id.to_owned();
        proof {
            lemma_view_values_lookup(self.sessions@, key@);
        }
        match self.sessions.get(&key) {
            None => None,
            Some(s) => match &s.active_tab {
                None => None,
                Some(t) => self.get_tab(t.as_str()),
            },
        }
    }

    /// Close a tab, stamped with the current time
    pub fn close_tab(&mut self, tab_id: &str) -> (r: Result<(), String>)
        ensures
            exists|now: u64| tab_closed(old(self)@, final(self)@, tab_id@, now, unit_result_text(r)),
            session_wf(final(self)@),
    {
        let now = unix_now();
        self.close_tab_at(tab_id, now)
    }

    /// Close a tab at the time `now`
    pub fn close_tab_at(&mut self, tab_id: &str, now: u64) -> (r: Result<(), String>)
        ensures
            tab_closed(old(self)@, final(self)@, tab_id@, now, unit_result_text(r)),
            session_wf(final(self)@),
    {
        proof {
            use_type_invariant(&*self);
        }
        self.sessions.check_keys();
        self.tabs.check_keys();
        let key = tab_id.to_owned();
        proof {
            lemma_view_values_keys(self.sessions@);
            lemma_view_values_keys(self.tabs@);
        }
        let ti = match self.tabs.find(&key) {
            None => {
                return Err(join3("Tab ", tab_id, " not found"));
            },
            Some(i) => i,
        };
        proof {
            lemma_lookup_at(self.tabs@, ti as int);
            lemma_lookup_at(view_values(self.tabs@), ti as int);
        }
        let sid = self.tabs.value_at(ti).session_id.clone();
        let mut tabs: Table<String, UITab> = Table::new();
        std::mem::swap(&mut tabs, &mut self.tabs);
        let ghost tabs_before = tabs@;
        tabs.remove(&key);
        proof {
            lemma_view_values_remove(tabs_before, key@);
            lemma_view_values_keys(tabs@);
            lemma_ids_issued_remove(view_values(tabs_before), "tab-"@, self.next_tab_id, key@);
        }
        let ghost removed = view_values(tabs@);
        let si = match self.sessions.find(&sid) {
            None => {
                self.tabs = tabs;
                return Ok(());
            },
            Some(i) => i,
        };
        proof {
            lemma_lookup_at(self.sessions@, si as int);
            lemma_lookup_at(view_values(self.sessions@), si as int);
        }
        let mut s = self.sessions.value_at(si).duplicate();
        let ghost old_s = s@;
        s.tabs = texts_without(&s.tabs, &key);
        let was_active = match &s.active_tab {
            Some(a) => *a == key,
            None => false,
        };
        if was_active {
            if s.tabs.len() > 0 {
                let first = s.tabs[0].clone();
                s.active_tab = Some(first.clone());
                proof {
                    lemma_view_values_lookup(tabs@, first@);
                }
                match tabs.find(&first) {
                    Some(fi) => {
                        proof {
                            lemma_lookup_at(tabs@, fi as int);
                            lemma_lookup_at(view_values(tabs@), fi as int);
                        }
                        let mut t = tabs.value_at(fi).duplicate();
                        t.is_active = true;
                        let ghost before = tabs@;
                        tabs.set_value_at(fi, t);
                        proof {
                            assert(view_values(tabs@) =~= insert_entry(
                                view_values(before),
                                first@,
                                t@,
                            ));
                            assert(key_seq(tabs@) =~= key_seq(before));
                            lemma_view_values_keys(tabs@);
                            lemma_view_values_keys(before);
                            lemma_ids_issued_same_keys(
                                view_values(before),
                                view_values(tabs@),
                                "tab-"@,
                                self.next_tab_id,
                            );
                        }
                    },
                    None => {},
                }
            } else {
                s.active_tab = None;
            }
        }
        self.tabs = tabs;
        s.last_accessed = now;
        assert(s@ == session_after_close(old_s, key@, now));
        let mut sessions: Table<String, UserSession> = Table::new();
        std::mem::swap(&mut sessions, &mut self.sessions);
        let ghost before = sessions@;
        sessions.set_value_at(si, s);
        proof {
            assert(view_values(sessions@) =~= insert_entry(view_values(before), sid@, s@));
            assert(key_seq(sessions@) =~= key_seq(before));
            lemma_view_values_keys(sessions@);
            lemma_view_values_keys(before);
            lemma_ids_issued_same_keys(
                view_values(before),
                view_values(sessions@),
                "session-"@,
                self.next_session_id,
            );
        }
        self.sessions = sessions;
        Ok(())
    }

    /// List all session IDs
    pub fn list_sessions(&self) -> (r: Vec<String>)
        ensures
            texts(r@) == key_seq(self@.sessions),
            texts(r@).no_duplicates(),
    {
        proof {
            use_type_invariant(self);
            lemma_view_values_keys(self.sessions@);
            lemma_keys_no_duplicates(self@.sessions);
        }
        self.sessions.keys()
    }

    /// List the tab IDs of a session; none for a session that does not exist
    pub fn list_session_tabs(&self, session_id: &str) -> (r: Vec<String>)
        ensures
            texts(r@) == match lookup(self@.sessions, session_id@) {
                Some(s) => s.tabs,
                None => Seq::empty(),
            },
    {
        self.sessions.check_keys();
        let key = session_id.to_owned();
        proof {
            lemma_view_values_lookup(self.sessions@, key@);
        }
        match self.sessions.get(&key) {
            Some(s) => copy_strings(&s.tabs),
            None => {
                let r: Vec<String> = Vec::new();
                assert(texts(r@) =~= Seq::<Seq<char>>::empty());
                r
            },
        }
    }

    fn session_has_expired(
        sessions: &Table<String, UserSession>,
        id: &String,
        now: u64,
        timeout_secs: u64,
    ) -> (b: bool)
        ensures
            b == expired_id(view_values(sessions@), id@, now, timeout_secs as int),
    {
        sessions.check_keys();
        proof {
            lemma_view_values_lookup(sessions@, id@);
        }
        match sessions.get(id) {
            Some(s) => now >= s.last_accessed && now - s.last_accessed > timeout_secs,
            None => false,
        }
    }

    /// Remove the sessions that have expired by the current time, with their tabs, and
    /// return how many sessions were removed
    pub fn cleanup_expired_sessions(&mut self) -> (r: usize)
        requires
            old(self)@.config.timeout_minutes * 60 <= u64::MAX,
        ensures
            exists|now: u64| sessions_cleaned(old(self)@, final(self)@, now, r),
            session_wf(final(self)@),
    {
        let now = unix_now();
        self.cleanup_expired_sessions_at(now)
    }

    /// Remove the sessions that have expired by the time `now`, with their tabs, and return
    /// how many sessions were removed; a session last accessed after `now` has not expired
    pub fn cleanup_expired_sessions_at(&mut self, now: u64) -> (r: usize)
        requires
            old(self)@.config.timeout_minutes * 60 <= u64::MAX,
        ensures
            sessions_cleaned(old(self)@, final(self)@, now, r),
            session_wf(final(self)@),
    {
        proof {
            use_type_invariant(&*self);
        }
        self.sessions.check_keys();
        let timeout_secs = self.config.timeout_minutes * 60;
        let ghost t = timeout_secs as int;
        let ghost old_sessions = view_values(self.sessions@);
        let ghost old_raw_sessions = self.sessions@;
        let ghost old_tabs = self.tabs@;
        let before_len = self.sessions.len();
        let sessions_ref = &self.sessions;
        let ghost tab_pred = |k: Seq<char>, tab: UITab|
            !expired_id(old_sessions, tab.session_id@, now, t);
        let keep_tab = |k: &String, tab: &UITab| -> (b: bool)
            ensures
                b == !expired_id(view_values(sessions_ref@), tab.session_id@, now, timeout_secs as int),
            { !Self::session_has_expired(sessions_ref, &tab.session_id, now, timeout_secs) };
        let mut tabs: Table<String, UITab> = Table::new();
        std::mem::swap(&mut tabs, &mut self.tabs);
        tabs.retain(keep_tab, Ghost(tab_pred));
        let ghost session_pred = |k: Seq<char>, s: UserSession| !is_expired(s@, now, t);
        let keep_session = |k: &String, s: &UserSession| -> (b: bool)
            ensures
                b == !is_expired(s@, now, timeout_secs as int),
            { !(now >= s.last_accessed && now - s.last_accessed > timeout_secs) };
        let mut sessions: Table<String, UserSession> = Table::new();
        std::mem::swap(&mut sessions, &mut self.sessions);
        sessions.retain(keep_session, Ghost(session_pred));
        let after_len = sessions.len();
        proof {
            lemma_map_filter_commute(
                old_tabs,
                |e: (Seq<char>, UITab)| (e.0, e.1@),
                |e: (Seq<char>, UITab)| tab_pred(e.0, e.1),
                |e: (Seq<char>, UITabView)| !expired_id(old_sessions, e.1.session_id, now, t),
            );
            lemma_map_filter_commute(
                old_raw_sessions,
                |e: (Seq<char>, UserSession)| (e.0, e.1@),
                |e: (Seq<char>, UserSession)| session_pred(e.0, e.1),
                |e: (Seq<char>, UserSessionView)| !is_expired(e.1, now, t),
            );
            old_raw_sessions.lemma_filter_len(|e: (Seq<char>, UserSession)| session_pred(e.0, e.1));
            lemma_view_values_keys(tabs@);
            lemma_view_values_keys(sessions@);
            lemma_ids_issued_filter(
                view_values(old_tabs),
                "tab-"@,
                self.next_tab_id,
                |e: (Seq<char>, UITabView)| !expired_id(old_sessions, e.1.session_id, now, t),
            );
            lemma_ids_issued_filter(
                old_sessions,
                "session-"@,
                self.next_session_id,
                |e: (Seq<char>, UserSessionView)| !is_expired(e.1, now, t),
            );
        }
        self.tabs = tabs;
        self.sessions = sessions;
        before_len - after_len
    }

    /// Get session configuration
    pub fn get_config(&self) -> (r: &SessionConfig)
        ensures
            *r == self@.config,
    {
        &self.config
    }

    /// Set session configuration
    pub fn set_config(&mut self, config: SessionConfig)
        ensures
            final(self)@ == (SessionManagerView { config, ..old(self)@ }),
            session_wf(final(self)@),
    {
        proof {
            use_type_invariant(&*self);
        }
        self.config = config;
    }
}

} // verus!
