//! Permissions, security policies, security contexts, and the manager that decides
//! whether a permission is allowed in a context.
//!
//! A permission is allowed in a context when the context's own override for it says so;
//! without an override, when one of the context's policies lists it; otherwise it is
//! denied, and it is always denied in a context that does not exist.

use vstd::prelude::*;
use crate::table::{
    all_entries, has_key, insert_entry, key_index, key_seq, keys_unique, lemma_all_entries_at,
    lemma_all_entries_insert, lemma_all_entries_remove, lemma_keys_no_duplicates,
    lemma_lookup_at, lemma_lookup_insert, lemma_lookup_remove, lemma_view_values_insert,
    lemma_view_values_keys, lemma_view_values_lookup, lemma_view_values_remove, lookup,
    option_view, remove_entry, view_values, Table, TableKey,
};
use crate::text::{copy_opt_string, copy_strings, join3, option_text};

verus! {

/// Represents a permission that can be granted or denied
#[derive(Debug, Clone, Hash, PartialEq, Eq)]
pub enum Permission {
    /// Read files under a path or pattern
    FileRead(String),
    /// Write files under a path or pattern
    FileWrite(String),
    /// Create files under a path or pattern
    FileCreate(String),
    /// Delete files under a path or pattern
    FileDelete(String),
    /// General network access
    NetworkAccess,
    /// Outbound traffic to a specific domain or IP
    NetworkOutbound(String),
    /// Inbound traffic on a specific port
    NetworkInbound(u16),
    /// Ability to spawn processes
    ProcessSpawn,
    /// Ability to kill processes
    ProcessKill,
    /// Read environment variables
    EnvRead,
    /// Write a specific environment variable
    EnvWrite(String),
    CameraAccess,
    MicrophoneAccess,
    ScreenCapture,
    /// A permission named by the user
    Custom(String),
}

/// A permission with each text taken as its characters.
pub enum PermissionView {
    FileRead(Seq<char>),
    FileWrite(Seq<char>),
    FileCreate(Seq<char>),
    FileDelete(Seq<char>),
    NetworkAccess,
    NetworkOutbound(Seq<char>),
    NetworkInbound(u16),
    ProcessSpawn,
    ProcessKill,
    EnvRead,
    EnvWrite(Seq<char>),
    CameraAccess,
    MicrophoneAccess,
    ScreenCapture,
    Custom(Seq<char>),
}

impl View for Permission {
    type V = PermissionView;

    open spec fn view(&self) -> PermissionView {
        match self {
            Permission::FileRead(p) => PermissionView::FileRead(p@),
            Permission::FileWrite(p) => PermissionView::FileWrite(p@),
            Permission::FileCreate(p) => PermissionView::FileCreate(p@),
            Permission::FileDelete(p) => PermissionView::FileDelete(p@),
            Permission::NetworkAccess => PermissionView::NetworkAccess,
            Permission::NetworkOutbound(d) => PermissionView::NetworkOutbound(d@),
            Permission::NetworkInbound(port) => PermissionView::NetworkInbound(*port),
            Permission::ProcessSpawn => PermissionView::ProcessSpawn,
            Permission::ProcessKill => PermissionView::ProcessKill,
            Permission::EnvRead => PermissionView::EnvRead,
            Permission::EnvWrite(v) => PermissionView::EnvWrite(v@),
            Permission::CameraAccess => PermissionView::CameraAccess,
            Permission::MicrophoneAccess => PermissionView::MicrophoneAccess,
            Permission::ScreenCapture => PermissionView::ScreenCapture,
            Permission::Custom(c) => PermissionView::Custom(c@),
        }
    }
}

impl TableKey for Permission {
    fn same_key(&self, other: &Self) -> (r: bool) {
        match (self, other) {
            (Permission::FileRead(a), Permission::FileRead(b)) => *a == *b,
            (Permission::FileWrite(a), Permission::FileWrite(b)) => *a == *b,
            (Permission::FileCreate(a), Permission::FileCreate(b)) => *a == *b,
            (Permission::FileDelete(a), Permission::FileDelete(b)) => *a == *b,
            (Permission::NetworkAccess, Permission::NetworkAccess) => true,
            (Permission::NetworkOutbound(a), Permission::NetworkOutbound(b)) => *a == *b,
            (Permission::NetworkInbound(a), Permission::NetworkInbound(b)) => *a == *b,
            (Permission::ProcessSpawn, Permission::ProcessSpawn) => true,
            (Permission::ProcessKill, Permission::ProcessKill) => true,
            (Permission::EnvRead, Permission::EnvRead) => true,
            (Permission::EnvWrite(a), Permission::EnvWrite(b)) => *a == *b,
            (Permission::CameraAccess, Permission::CameraAccess) => true,
            (Permission::MicrophoneAccess, Permission::MicrophoneAccess) => true,
            (Permission::ScreenCapture, Permission::ScreenCapture) => true,
            (Permission::Custom(a), Permission::Custom(b)) => *a == *b,
            _ => false,
        }
    }

    fn copy_key(&self) -> (r: Self) {
        match self {
            Permission::FileRead(p) => Permission::FileRead(p.clone()),
            Permission::FileWrite(p) => Permission::FileWrite(p.clone()),
            Permission::FileCreate(p) => Permission::FileCreate(p.clone()),
            Permission::FileDelete(p) => Permission::FileDelete(p.clone()),
            Permission::NetworkAccess => Permission::NetworkAccess,
            Permission::NetworkOutbound(d) => Permission::NetworkOutbound(d.clone()),
            Permission::NetworkInbound(port) => Permission::NetworkInbound(*port),
            Permission::ProcessSpawn => Permission::ProcessSpawn,
            Permission::ProcessKill => Permission::ProcessKill,
            Permission::EnvRead => Permission::EnvRead,
            Permission::EnvWrite(v) => Permission::EnvWrite(v.clone()),
            Permission::CameraAccess => Permission::CameraAccess,
            Permission::MicrophoneAccess => Permission::MicrophoneAccess,
            Permission::ScreenCapture => Permission::ScreenCapture,
            Permission::Custom(c) => Permission::Custom(c.clone()),
        }
    }
}

/// Represents a security policy that defines what permissions are allowed
#[derive(Debug, Clone)]
pub struct SecurityPolicy {
    pub name: String,
    pub description: Option<String>,
    pub permissions: Vec<Permission>,
    pub is_default: bool,
}

/// A policy with its texts and permissions taken by their views.
pub struct PolicyView {
    pub name: Seq<char>,
    pub description: Option<Seq<char>>,
    pub permissions: Seq<PermissionView>,
    pub is_default: bool,
}

impl View for SecurityPolicy {
    type V = PolicyView;

    open spec fn view(&self) -> PolicyView {
        PolicyView {
            name: self.name@,
            description: option_text(self.description),
            permissions: self.permissions@.map_values(|p: Permission| p@),
            is_default: self.is_default,
        }
    }
}

impl SecurityPolicy {
    /// A copy of the policy.
    pub fn duplicate(&self) -> (r: SecurityPolicy)
        ensures
            r@ == self@,
    {
        let mut permissions: Vec<Permission> = Vec::new();
        let n = self.permissions.len();
        let mut i: usize = 0;
        while i < n
            invariant
                n == self.permissions@.len(),
                i <= n,
                permissions@.len() == i,
                forall|j: int| 0 <= j < i ==> #[trigger] permissions@[j]@ == self.permissions@[j]@,
            decreases n - i,
        {
            permissions.push(self.permissions[i].copy_key());
            i = i + 1;
        }
        assert(permissions@.map_values(|p: Permission| p@) =~= self.permissions@.map_values(
            |p: Permission| p@,
        ));
        SecurityPolicy {
            name: self.name.clone(),
            description: copy_opt_string(&self.description),
            permissions,
            is_default: self.is_default,
        }
    }
}

impl SecurityPolicy {
    /// A policy that allows reading and writing under "./" and nothing else, not marked as
    /// the default.
    pub fn file_access_policy(name: String, description: Option<String>) -> (p: SecurityPolicy)
        ensures
            p@ == (PolicyView {
                name: name@,
                description: option_text(description),
                permissions: seq![PermissionView::FileRead("./"@), PermissionView::FileWrite("./"@)],
                is_default: false,
            }),
    {
        let mut permissions: Vec<Permission> = Vec::new();
        permissions.push(Permission::FileRead(String::from_str("./")));
        permissions.push(Permission::FileWrite(String::from_str("./")));
        let p = SecurityPolicy { name, description, permissions, is_default: false };
        assert(p@.permissions =~= seq![
            PermissionView::FileRead("./"@),
            PermissionView::FileWrite("./"@),
        ]);
        p
    }
}

/// Represents a security context for a component or operation
pub struct SecurityContext {
    pub id: String,
    /// Names of the policies applied
    pub policies: Vec<String>,
    /// Specific permission overrides (true = allow, false = deny)
    pub overrides: Table<Permission, bool>,
}

/// A context with its texts and overrides taken by their views.
pub struct ContextView {
    pub id: Seq<char>,
    pub policies: Seq<Seq<char>>,
    pub overrides: Seq<(PermissionView, bool)>,
}

impl View for SecurityContext {
    type V = ContextView;

    open spec fn view(&self) -> ContextView {
        ContextView {
            id: self.id@,
            policies: self.policies@.map_values(|s: String| s@),
            overrides: self.overrides@,
        }
    }
}

impl SecurityContext {
    /// A copy of the context.
    pub fn duplicate(&self) -> (r: SecurityContext)
        ensures
            r@ == self@,
    {
        SecurityContext {
            id: self.id.clone(),
            policies: copy_strings(&self.policies),
            overrides: self.overrides.duplicate(),
        }
    }
}

/// The overrides after applying `updates` in order, a later one for a permission
/// replacing an earlier one.
pub open spec fn apply_overrides(
    overrides: Seq<(PermissionView, bool)>,
    updates: Seq<(PermissionView, bool)>,
) -> Seq<(PermissionView, bool)>
    decreases updates.len(),
{
    if updates.len() == 0 {
        overrides
    } else {
        let e = updates.last();
        insert_entry(apply_overrides(overrides, updates.drop_last()), e.0, e.1)
    }
}

/// The state of a security manager.
pub struct SecurityManagerView {
    pub policies: Seq<(Seq<char>, PolicyView)>,
    pub contexts: Seq<(Seq<char>, ContextView)>,
    pub default_policy: Option<Seq<char>>,
}

/// Whether the policy named `name` exists and lists `perm`.
pub open spec fn policy_grants(
    policies: Seq<(Seq<char>, PolicyView)>,
    name: Seq<char>,
    perm: PermissionView,
) -> bool {
    match lookup(policies, name) {
        Some(p) => p.permissions.contains(perm),
        None => false,
    }
}

/// Whether `perm` is allowed in the context `context_id`: the context's override decides
/// when there is one; otherwise the permission must be listed by one of the context's
/// policies; a missing context allows nothing.
pub open spec fn permission_allowed(
    m: SecurityManagerView,
    context_id: Seq<char>,
    perm: PermissionView,
) -> bool {
    match lookup(m.contexts, context_id) {
        None => false,
        Some(ctx) => match lookup(ctx.overrides, perm) {
            Some(allowed) => allowed,
            None => exists|i: int|
                0 <= i < ctx.policies.len() && #[trigger] policy_grants(
                    m.policies,
                    ctx.policies[i],
                    perm,
                ),
        },
    }
}

/// The policy that a new manager holds.
pub open spec fn default_policy_view() -> PolicyView {
    PolicyView {
        name: "default"@,
        description: Some("Default restrictive security policy"@),
        permissions: seq![
            PermissionView::FileRead("./"@),
            PermissionView::FileWrite("./"@),
            PermissionView::FileCreate("./"@),
            PermissionView::NetworkOutbound("localhost"@),
            PermissionView::NetworkOutbound("127.0.0.1"@),
            PermissionView::NetworkOutbound("::1"@),
            PermissionView::EnvRead,
        ],
        is_default: true,
    }
}

/// The message of `add_policy` for a name that is taken.
pub open spec fn policy_exists_message(name: Seq<char>) -> Seq<char> {
    "Policy with name '"@ + name + "' already exists"@
}

/// The message for a policy name that is not known.
pub open spec fn missing_policy_message(name: Seq<char>) -> Seq<char> {
    "Policy '"@ + name + "' does not exist"@
}

/// The message for a context id that is not known.
pub open spec fn missing_context_message(id: Seq<char>) -> Seq<char> {
    "Context '"@ + id + "' not found"@
}

/// Every name in `names` is a policy.
pub open spec fn all_policies_exist(
    policies: Seq<(Seq<char>, PolicyView)>,
    names: Seq<Seq<char>>,
) -> bool {
    forall|i: int| 0 <= i < names.len() ==> has_key(policies, #[trigger] names[i])
}

/// `i` is the first position in `names` that is not a policy.
pub open spec fn first_missing_policy(
    policies: Seq<(Seq<char>, PolicyView)>,
    names: Seq<Seq<char>>,
    i: int,
) -> bool {
    &&& 0 <= i < names.len()
    &&& !has_key(policies, names[i])
    &&& forall|j: int| 0 <= j < i ==> has_key(policies, #[trigger] names[j])
}

/// The policies with only `name` marked as the default.
pub open spec fn mark_default(
    policies: Seq<(Seq<char>, PolicyView)>,
    name: Seq<char>,
) -> Seq<(Seq<char>, PolicyView)> {
    policies.map_values(
        |e: (Seq<char>, PolicyView)|
            (e.0, PolicyView { is_default: e.0 == name, ..e.1 }),
    )
}

/// The last override given for `perm` among `updates`, if any.
pub open spec fn last_override(updates: Seq<(PermissionView, bool)>, perm: PermissionView) -> Option<
    bool,
>
    decreases updates.len(),
{
    if updates.len() == 0 {
        None
    } else if updates.last().0 == perm {
        Some(updates.last().1)
    } else {
        last_override(updates.drop_last(), perm)
    }
}

/// The last override given for a permission: none among no updates; the value of a final
/// update for that permission; past a final update for another permission, the last one
/// among the earlier updates.
pub proof fn lemma_last_override_steps(
    updates: Seq<(PermissionView, bool)>,
    perm: PermissionView,
    other: PermissionView,
    allowed: bool,
)
    ensures
        last_override(Seq::empty(), perm) is None,
        last_override(updates.push((perm, allowed)), perm) == Some(allowed),
        other != perm ==> last_override(updates.push((other, allowed)), perm) == last_override(
            updates,
            perm,
        ),
{
    assert(updates.push((perm, allowed)).drop_last() =~= updates);
    assert(updates.push((other, allowed)).drop_last() =~= updates);
}

/// A policy grants a permission exactly when a policy of that name is stored and the
/// permission occurs among the permissions it lists.
pub proof fn lemma_policy_grants_listed(
    policies: Seq<(Seq<char>, PolicyView)>,
    name: Seq<char>,
    perm: PermissionView,
)
    ensures
        policy_grants(policies, name, perm) <==> (has_key(policies, name) && exists|j: int|
            0 <= j < lookup(policies, name)->0.permissions.len() && lookup(
                policies,
                name,
            )->0.permissions[j] == perm),
{
}

/// Overrides applied in order: the last one given for a permission is the one that holds,
/// and a permission given none keeps the override it had.
pub proof fn lemma_last_override_wins(
    overrides: Seq<(PermissionView, bool)>,
    updates: Seq<(PermissionView, bool)>,
    perm: PermissionView,
)
    requires
        keys_unique(overrides),
    ensures
        keys_unique(apply_overrides(overrides, updates)),
        lookup(apply_overrides(overrides, updates), perm) == match last_override(updates, perm) {
            Some(b) => Some(b),
            None => lookup(overrides, perm),
        },
    decreases updates.len(),
{
    if updates.len() > 0 {
        let e = updates.last();
        lemma_last_override_wins(overrides, updates.drop_last(), perm);
        lemma_lookup_insert(apply_overrides(overrides, updates.drop_last()), e.0, e.1, perm);
    }
}

/// Once a context's overrides are updated, a permission that the update covers is allowed
/// in that context exactly when the last override given for it allows it, whatever the
/// context's policies say.
pub proof fn lemma_override_decides(
    before: SecurityManagerView,
    after: SecurityManagerView,
    id: Seq<char>,
    updates: Seq<(PermissionView, bool)>,
    perm: PermissionView,
)
    requires
        keys_unique(before.contexts),
        keys_unique(lookup(before.contexts, id)->0.overrides),
        has_key(before.contexts, id),
        after.contexts == insert_entry(
            before.contexts,
            id,
            ContextView {
                overrides: apply_overrides(lookup(before.contexts, id)->0.overrides, updates),
                ..lookup(before.contexts, id)->0
            },
        ),
        last_override(updates, perm) is Some,
    ensures
        permission_allowed(after, id, perm) == last_override(updates, perm)->0,
{
    let ctx = lookup(before.contexts, id)->0;
    lemma_last_override_wins(ctx.overrides, updates, perm);
    lemma_lookup_insert(
        before.contexts,
        id,
        ContextView { overrides: apply_overrides(ctx.overrides, updates), ..ctx },
        id,
    );
}

/// No permission is allowed in a context that does not exist.
pub proof fn lemma_unknown_context_denies(m: SecurityManagerView, id: Seq<char>, perm: PermissionView)
    requires
        !has_key(m.contexts, id),
    ensures
        !permission_allowed(m, id, perm),
{
}

/// Without an override for it, a permission is allowed in a context exactly when one of
/// the context's policies exists and lists it.
pub proof fn lemma_policies_decide(m: SecurityManagerView, id: Seq<char>, perm: PermissionView)
    requires
        has_key(m.contexts, id),
        lookup(lookup(m.contexts, id)->0.overrides, perm) is None,
    ensures
        permission_allowed(m, id, perm) == exists|i: int|
            0 <= i < lookup(m.contexts, id)->0.policies.len() && #[trigger] policy_grants(
                m.policies,
                lookup(m.contexts, id)->0.policies[i],
                perm,
            ),
{
}

/// A policy that `add_policy` stored is what a read of its name gives back, and reads of
/// other names are unchanged.
pub proof fn lemma_added_policy_found(
    policies: Seq<(Seq<char>, PolicyView)>,
    policy: PolicyView,
    name: Seq<char>,
)
    requires
        keys_unique(policies),
        !has_key(policies, policy.name),
    ensures
        lookup(policies.push((policy.name, policy)), name) == if name == policy.name {
            Some(policy)
        } else {
            lookup(policies, name)
        },
{
    lemma_lookup_insert(policies, policy.name, policy, name);
}

/// A context that `create_context` stored is what a read of its id gives back, replacing
/// any earlier context with that id; reads of other ids are unchanged.
pub proof fn lemma_created_context_found(
    contexts: Seq<(Seq<char>, ContextView)>,
    context: ContextView,
    id: Seq<char>,
)
    requires
        keys_unique(contexts),
    ensures
        lookup(insert_entry(contexts, context.id, context), id) == if id == context.id {
            Some(context)
        } else {
            lookup(contexts, id)
        },
{
    lemma_lookup_insert(contexts, context.id, context, id);
}

/// After `set_default_policy` the named policy is the only one marked as the default, and
/// every policy keeps its name, its place and everything else about it.
pub proof fn lemma_single_default(policies: Seq<(Seq<char>, PolicyView)>, name: Seq<char>)
    ensures
        key_seq(mark_default(policies, name)) == key_seq(policies),
        forall|i: int|
            0 <= i < policies.len() ==> (#[trigger] mark_default(policies, name)[i]).1.is_default
                == (policies[i].0 == name),
        forall|i: int|
            0 <= i < policies.len() ==> (PolicyView {
                is_default: policies[i].1.is_default,
                ..#[trigger] mark_default(policies, name)[i].1
            }) == policies[i].1,
{
    assert(key_seq(mark_default(policies, name)) =~= key_seq(policies));
}

/// After `remove_policy` nothing is found under the removed name, and reads of other names
/// are unchanged.
pub proof fn lemma_removed_policy_gone(
    policies: Seq<(Seq<char>, PolicyView)>,
    removed: Seq<char>,
    name: Seq<char>,
)
    requires
        keys_unique(policies),
    ensures
        lookup(remove_entry(policies, removed), name) == if name == removed {
            None
        } else {
            lookup(policies, name)
        },
{
    lemma_lookup_remove(policies, removed, name);
}

/// Adding a policy under a new name and then removing that name gives back the policy that
/// was added and leaves the policies as they were before.
pub proof fn lemma_remove_after_add(policies: Seq<(Seq<char>, PolicyView)>, policy: PolicyView)
    requires
        keys_unique(policies),
        !has_key(policies, policy.name),
    ensures
        lookup(policies.push((policy.name, policy)), policy.name) == Some(policy),
        remove_entry(policies.push((policy.name, policy)), policy.name) == policies,
{
    let t = policies.push((policy.name, policy));
    lemma_lookup_insert(policies, policy.name, policy, policy.name);
    lemma_lookup_at(t, policies.len() as int);
    assert(t.remove(policies.len() as int) =~= policies);
}

/// After the default is set to a stored policy, a read of any stored name gives a policy
/// with that name, marked as default exactly when it is the chosen one.
pub proof fn lemma_default_flags(m: SecurityManagerView, name: Seq<char>, n: Seq<char>)
    requires
        security_wf(m),
        has_key(m.policies, name),
        has_key(m.policies, n),
    ensures
        has_key(mark_default(m.policies, name), n),
        lookup(mark_default(m.policies, name), n)->0.name == n,
        lookup(mark_default(m.policies, name), n)->0.is_default == (n == name),
{
    let t = mark_default(m.policies, name);
    let i = key_index(m.policies, n);
    lemma_lookup_at(m.policies, i);
    lemma_all_entries_at(m.policies, |k: Seq<char>, p: PolicyView| policy_named(k, p), i);
    assert(t[i].0 == n);
    assert(keys_unique(t)) by {
        assert forall|a: int, b: int| 0 <= a < t.len() && 0 <= b < t.len() && a != b implies t[a].0
            != t[b].0 by {
            assert(t[a].0 == m.policies[a].0);
            assert(t[b].0 == m.policies[b].0);
        }
    }
    lemma_lookup_at(t, i);
}

/// A stored policy is named by its key.
pub open spec fn policy_named(k: Seq<char>, p: PolicyView) -> bool {
    p.name == k
}

/// A stored context has its key as id, and no permission twice among its overrides.
pub open spec fn context_keyed(k: Seq<char>, c: ContextView) -> bool {
    c.id == k && keys_unique(c.overrides)
}

/// What every security manager keeps: one policy per name, stored under that name, and one
/// context per id, stored under that id.
pub open spec fn security_wf(m: SecurityManagerView) -> bool {
    &&& keys_unique(m.policies)
    &&& keys_unique(m.contexts)
    &&& all_entries(m.policies, |k: Seq<char>, p: PolicyView| policy_named(k, p))
    &&& all_entries(m.contexts, |k: Seq<char>, c: ContextView| context_keyed(k, c))
}

/// Manager for security policies and permissions
pub struct SecurityManager {
    policies: Table<String, SecurityPolicy>,
    contexts: Table<String, SecurityContext>,
    default_policy: Option<String>,
}

impl View for SecurityManager {
    type V = SecurityManagerView;

    closed spec fn view(&self) -> SecurityManagerView {
        SecurityManagerView {
            policies: view_values(self.policies@),
            contexts: view_values(self.contexts@),
            default_policy: option_text(self.default_policy),
        }
    }
}

impl SecurityManager {
    #[verifier::type_invariant]
    spec fn well_formed(self) -> bool {
        &&& keys_unique(self.policies@)
        &&& keys_unique(self.contexts@)
        &&& security_wf(self@)
    }

    /// Create a new security manager holding the default restrictive policy, which is the
    /// default policy.
    pub fn new() -> (m: Self)
        ensures
            m@.policies == seq![("default"@, default_policy_view())],
            m@.contexts == Seq::<(Seq<char>, ContextView)>::empty(),
            m@.default_policy == Some("default"@),
            security_wf(m@),
    {
        let mut permissions: Vec<Permission> = Vec::new();
        permissions.push(Permission::FileRead(String::from_str("./")));
        permissions.push(Permission::FileWrite(String::from_str("./")));
        permissions.push(Permission::FileCreate(String::from_str("./")));
        permissions.push(Permission::NetworkOutbound(String::from_str("localhost")));
        permissions.push(Permission::NetworkOutbound(String::from_str("127.0.0.1")));
        permissions.push(Permission::NetworkOutbound(String::from_str("::1")));
        permissions.push(Permission::EnvRead);
        let default_policy = SecurityPolicy {
            name: String::from_str("default"),
            description: Some(String::from_str("Default restrictive security policy")),
            permissions,
            is_default: true,
        };
        assert(default_policy@.permissions =~= default_policy_view().permissions);
        let policy_name = default_policy.name.clone();
        let mut policies: Table<String, SecurityPolicy> = Table::new();
        policies.insert(policy_name.clone(), default_policy);
        let contexts: Table<String, SecurityContext> = Table::new();
        policies.check_keys();
        contexts.check_keys();
        assert(view_values(policies@) =~= seq![("default"@, default_policy_view())]);
        assert(view_values(contexts@) =~= Seq::<(Seq<char>, ContextView)>::empty());
        proof {
            lemma_view_values_keys(policies@);
            lemma_view_values_keys(contexts@);
            reveal_strlit("default");
        }
        SecurityManager { policies, contexts, default_policy: Some(policy_name) }
    }

    /// Confirms what every security manager keeps: one policy per name, stored under that
    /// name, and one context per id, stored under that id.
    pub fn check_invariants(&self)
        ensures
            security_wf(self@),
    {
        proof {
            use_type_invariant(self);
        }
    }

    /// Add a new security policy; a policy with the same name must not exist already.
    pub fn add_policy(&mut self, policy: SecurityPolicy) -> (r: Result<(), String>)
        ensures
            has_key(old(self)@.policies, policy@.name) ==> {
                &&& r matches Err(e) && e@ == policy_exists_message(policy@.name)
                &&& final(self)@ == old(self)@
            },
            !has_key(old(self)@.policies, policy@.name) ==> {
                &&& r is Ok
                &&& final(self)@.policies == old(self)@.policies.push((policy@.name, policy@))
                &&& final(self)@.contexts == old(self)@.contexts
                &&& final(self)@.default_policy == old(self)@.default_policy
            },
            security_wf(final(self)@),
    {
        proof {
            use_type_invariant(&*self);
        }
        self.policies.check_keys();
        proof {
            lemma_view_values_keys(self.policies@);
        }
        if self.policies.contains_key(&policy.name) {
            return Err(join3("Policy with name '", policy.name.as_str(), "' already exists"));
        }
        let ghost pv = policy@;
        let mut policies: Table<String, SecurityPolicy> = Table::new();
        std::mem::swap(&mut policies, &mut self.policies);
        let ghost before = policies@;
        let name = policy.name.clone();
        policies.insert(name, policy);
        proof {
            lemma_view_values_insert(before, pv.name, policy);
            lemma_view_values_keys(policies@);
            lemma_all_entries_insert(
                view_values(before),
                pv.name,
                pv,
                |k: Seq<char>, p: PolicyView| policy_named(k, p),
            );
        }
        self.policies = policies;
        Ok(())
    }

    /// Get a security policy by name
    pub fn get_policy(&self, name: &str) -> (r: Option<SecurityPolicy>)
        ensures
            option_view(r) == lookup(self@.policies, name@),
            r matches Some(p) ==> p@.name == name@,
    {
        proof {
            use_type_invariant(self);
            if has_key(self@.policies, name@) {
                let i = key_index(self@.policies, name@);
                lemma_all_entries_at(
                    self@.policies,
                    |k: Seq<char>, p: PolicyView| policy_named(k, p),
                    i,
                );
            }
        }
        self.policies.check_keys();
        let key = name.to_owned();
        proof {
            lemma_view_values_lookup(self.policies@, key@);
        }
        match self.policies.get(&key) {
            Some(p) => Some(p.duplicate()),
            None => None,
        }
    }

    /// Remove a security policy and return it; the default policy's name is kept even when
    /// that policy is removed.
    pub fn remove_policy(&mut self, name: &str) -> (r: Result<Option<SecurityPolicy>, String>)
        ensures
            r matches Ok(p) && option_view(p) == lookup(old(self)@.policies, name@),
            final(self)@.policies == remove_entry(old(self)@.policies, name@),
            final(self)@.contexts == old(self)@.contexts,
            final(self)@.default_policy == old(self)@.default_policy,
            !has_key(final(self)@.policies, name@),
            security_wf(final(self)@),
    {
        proof {
            use_type_invariant(&*self);
        }
        self.policies.check_keys();
        let key = name.to_owned();
        let mut policies: Table<String, SecurityPolicy> = Table::new();
        std::mem::swap(&mut policies, &mut self.policies);
        let ghost before = policies@;
        proof {
            lemma_view_values_lookup(before, key@);
            lemma_view_values_remove(before, key@);
            lemma_lookup_remove(view_values(before), key@, key@);
            lemma_all_entries_remove(
                view_values(before),
                key@,
                |k: Seq<char>, p: PolicyView| policy_named(k, p),
            );
        }
        let removed = policies.remove(&key);
        proof {
            lemma_view_values_keys(policies@);
        }
        self.policies = policies;
        Ok(removed)
    }

    /// Set the default policy, which must exist; it becomes the only policy marked as default.
    pub fn set_default_policy(&mut self, name: &str) -> (r: Result<(), String>)
        ensures
            !has_key(old(self)@.policies, name@) ==> {
                &&& r matches Err(e) && e@ == missing_policy_message(name@)
                &&& final(self)@ == old(self)@
            },
            has_key(old(self)@.policies, name@) ==> {
                &&& r is Ok
                &&& final(self)@.policies == mark_default(old(self)@.policies, name@)
                &&& final(self)@.contexts == old(self)@.contexts
                &&& final(self)@.default_policy == Some(name@)
                &&& forall|n: Seq<char>| #[trigger] has_key(final(self)@.policies, n) ==> {
                    &&& lookup(final(self)@.policies, n)->0.name == n
                    &&& lookup(final(self)@.policies, n)->0.is_default == (n == name@)
                }
            },
            security_wf(final(self)@),
    {
        proof {
            use_type_invariant(&*self);
        }
        self.policies.check_keys();
        proof {
            lemma_view_values_keys(self.policies@);
        }
        let key = name.to_owned();
        if !self.policies.contains_key(&key) {
            return Err(join3("Policy '", name, "' does not exist"));
        }
        self.default_policy = Some(name.to_owned());
        let ghost orig = self@.policies;
        let mut policies: Table<String, SecurityPolicy> = Table::new();
        std::mem::swap(&mut policies, &mut self.policies);
        let n = policies.len();
        let mut i: usize = 0;
        while i < n
            invariant
                n == policies@.len(),
                i <= n,
                orig.len() == n,
                key_seq(policies@) == key_seq(orig),
                key@ == name@,
                self.contexts == old(self).contexts,
                all_entries(orig, |k: Seq<char>, p: PolicyView| policy_named(k, p)),
                option_text(self.default_policy) == Some(name@),
                forall|j: int|
                    0 <= j < i ==> #[trigger] view_values(policies@)[j] == mark_default(
                        orig,
                        name@,
                    )[j],
                forall|j: int|
                    i <= j < n ==> #[trigger] view_values(policies@)[j] == orig[j],
            decreases n - i,
        {
            assert(key_seq(policies@)[i as int] == key_seq(orig)[i as int]);
            let is_named = *policies.key_at(i) == key;
            assert(is_named == (orig[i as int].0 == name@));
            let mut p = policies.value_at(i).duplicate();
            assert(view_values(policies@)[i as int] == orig[i as int]);
            assert(p@ == orig[i as int].1);
            p.is_default = is_named;
            let ghost before = policies@;
            policies.set_value_at(i, p);
            proof {
                assert(key_seq(policies@) =~= key_seq(before));
                assert(view_values(policies@)[i as int] == mark_default(orig, name@)[i as int]);
                assert forall|j: int| 0 <= j < n && j != i implies #[trigger] view_values(
                    policies@,
                )[j] == view_values(before)[j] by {}
            }
            i = i + 1;
        }
        assert(view_values(policies@) =~= mark_default(orig, name@));
        policies.check_keys();
        proof {
            lemma_view_values_keys(policies@);
            let t = view_values(policies@);
            assert forall|i: int| 0 <= i < t.len() implies #[trigger] policy_named(t[i].0, t[i].1) by {
                lemma_all_entries_at(orig, |k: Seq<char>, p: PolicyView| policy_named(k, p), i);
            }
            assert(all_entries(t, |k: Seq<char>, p: PolicyView| policy_named(k, p)));
            assert forall|q: Seq<char>| #[trigger] has_key(t, q) implies {
                &&& lookup(t, q)->0.name == q
                &&& lookup(t, q)->0.is_default == (q == name@)
            } by {
                let j = key_index(t, q);
                assert(orig[j].0 == q);
                lemma_default_flags(old(self)@, name@, q);
            }
        }
        self.policies = policies;
        Ok(())
    }

    /// Get the default policy, if it is set and still exists
    pub fn get_default_policy(&self) -> (r: Option<SecurityPolicy>)
        ensures
            option_view(r) == match self@.default_policy {
                Some(n) => lookup(self@.policies, n),
                None => None,
            },
                r matches Some(p) ==> self@.default_policy == Some(p@.name),
    {
        match &self.default_policy {
            Some(n) => self.get_policy(n.as_str()),
            None => None,
        }
    }

    /// Create a new security context applying the named policies, which must all exist;
    /// a context with the same id is replaced.
    pub fn create_context(&mut self, id: &str, policy_names: Vec<String>) -> (r: Result<
        SecurityContext,
        String,
    >)
        ensures
            !all_policies_exist(old(self)@.policies, policy_names@.map_values(|s: String| s@))
                ==> {
                &&& r matches Err(e) && exists|i: int|
                    first_missing_policy(
                        old(self)@.policies,
                        policy_names@.map_values(|s: String| s@),
                        i,
                    ) && e@ == missing_policy_message(policy_names@[i]@)
                &&& final(self)@ == old(self)@
            },
            all_policies_exist(old(self)@.policies, policy_names@.map_values(|s: String| s@))
                ==> {
                &&& r matches Ok(c) && c@ == ContextView {
                    id: id@,
                    policies: policy_names@.map_values(|s: String| s@),
                    overrides: Seq::empty(),
                }
                &&& final(self)@.contexts == insert_entry(
                    old(self)@.contexts,
                    id@,
                    r->Ok_0@,
                )
                &&& final(self)@.policies == old(self)@.policies
                &&& final(self)@.default_policy == old(self)@.default_policy
            },
            security_wf(final(self)@),
    {
        proof {
            use_type_invariant(&*self);
        }
        self.policies.check_keys();
        self.contexts.check_keys();
        proof {
            lemma_view_values_keys(self.policies@);
        }
        let ghost names = policy_names@.map_values(|s: String| s@);
        let n = policy_names.len();
        let mut i: usize = 0;
        while i < n
            invariant
                n == policy_names@.len(),
                names == policy_names@.map_values(|s: String| s@),
                i <= n,
                forall|j: int| 0 <= j < i ==> has_key(old(self)@.policies, #[trigger] names[j]),
                self == old(self),
                security_wf(self@),
                keys_unique(self.policies@),
                forall|q: Seq<char>| has_key(view_values(self.policies@), q) == has_key(self.policies@, q),
            decreases n - i,
        {
            if !self.policies.contains_key(&policy_names[i]) {
                let e = join3("Policy '", policy_names[i].as_str(), "' does not exist");
                assert(first_missing_policy(old(self)@.policies, names, i as int));
                return Err(e);
            }
            i = i + 1;
        }
        let overrides: Table<Permission, bool> = Table::new();
        let context = SecurityContext { id: id.to_owned(), policies: policy_names, overrides };
        assert(context@.overrides =~= Seq::<(PermissionView, bool)>::empty());
        let result = context.duplicate();
        let ghost cv = context@;
        let mut contexts: Table<String, SecurityContext> = Table::new();
        std::mem::swap(&mut contexts, &mut self.contexts);
        let ghost before = contexts@;
        contexts.insert(id.to_owned(), context);
        proof {
            lemma_view_values_insert(before, id@, context);
            lemma_view_values_keys(contexts@);
            assert(context_keyed(id@, cv));
            lemma_all_entries_insert(
                view_values(before),
                id@,
                cv,
                |k: Seq<char>, c: ContextView| context_keyed(k, c),
            );
        }
        self.contexts = contexts;
        Ok(result)
    }

    /// Get a security context by ID
    pub fn get_context(&self, id: &str) -> (r: Option<SecurityContext>)
        ensures
            option_view(r) == lookup(self@.contexts, id@),
    {
        self.contexts.check_keys();
        let key = id.to_owned();
        proof {
            lemma_view_values_lookup(self.contexts@, key@);
        }
        match self.contexts.get(&key) {
            Some(c) => Some(c.duplicate()),
            None => None,
        }
    }

    /// Update permission overrides for a context: each given override is applied in order,
    /// replacing an earlier one for the same permission.
    pub fn update_overrides(&mut self, id: &str, overrides: Vec<(Permission, bool)>) -> (r: Result<
        (),
        String,
    >)
        ensures
            !has_key(old(self)@.contexts, id@) ==> {
                &&& r matches Err(e) && e@ == missing_context_message(id@)
                &&& final(self)@ == old(self)@
            },
            has_key(old(self)@.contexts, id@) ==> {
                &&& r is Ok
                &&& final(self)@.contexts == insert_entry(
                    old(self)@.contexts,
                    id@,
                    ContextView {
                        overrides: apply_overrides(
                            lookup(old(self)@.contexts, id@)->0.overrides,
                            overrides@.map_values(|e: (Permission, bool)| (e.0@, e.1)),
                        ),
                        ..lookup(old(self)@.contexts, id@)->0
                    },
                )
                &&& final(self)@.policies == old(self)@.policies
                &&& final(self)@.default_policy == old(self)@.default_policy
            },
            security_wf(final(self)@),
    {
        proof {
            use_type_invariant(&*self);
        }
        self.contexts.check_keys();
        let key = id.to_owned();
        proof {
            lemma_view_values_keys(self.contexts@);
            lemma_view_values_lookup(self.contexts@, key@);
        }
        let pos = self.contexts.find(&key);
        match pos {
            None => Err(join3("Context '", id, "' not found")),
            Some(idx) => {
                proof {
                    lemma_lookup_at(self.contexts@, idx as int);
                }
                let mut ctx = self.contexts.value_at(idx).duplicate();
                let ghost start = ctx@;
                let ghost ups = overrides@.map_values(|e: (Permission, bool)| (e.0@, e.1));
                let n = overrides.len();
                let mut i: usize = 0;
                while i < n
                    invariant
                        n == overrides@.len(),
                        ups == overrides@.map_values(|e: (Permission, bool)| (e.0@, e.1)),
                        i <= n,
                        ctx@.id == start.id,
                        ctx@.policies == start.policies,
                        ctx@.overrides == apply_overrides(start.overrides, ups.take(i as int)),
                    decreases n - i,
                {
                    let p = overrides[i].0.copy_key();
                    let b = overrides[i].1;
                    ctx.overrides.insert(p, b);
                    proof {
                        assert(ups.take(i + 1).drop_last() =~= ups.take(i as int));
                        assert(ups.take(i + 1).last() == ups[i as int]);
                    }
                    i = i + 1;
                }
                assert(ups.take(n as int) =~= ups);
                ctx.overrides.check_keys();
                let ghost cv = ctx@;
                let mut contexts: Table<String, SecurityContext> = Table::new();
                std::mem::swap(&mut contexts, &mut self.contexts);
                let ghost before = contexts@;
                proof {
                    lemma_lookup_at(before, idx as int);
                    lemma_lookup_at(view_values(before), idx as int);
                    lemma_all_entries_at(
                        view_values(before),
                        |k: Seq<char>, c: ContextView| context_keyed(k, c),
                        idx as int,
                    );
                    assert(context_keyed(key@, cv));
                }
                contexts.set_value_at(idx, ctx);
                proof {
                    assert(view_values(contexts@) =~= insert_entry(
                        view_values(before),
                        key@,
                        cv,
                    ));
                    lemma_view_values_keys(contexts@);
                    lemma_all_entries_insert(
                        view_values(before),
                        key@,
                        cv,
                        |k: Seq<char>, c: ContextView| context_keyed(k, c),
                    );
                }
                self.contexts = contexts;
                Ok(())
            },
        }
    }

    /// Check if a permission is allowed in a given context
    pub fn is_allowed(&self, context_id: &str, permission: &Permission) -> (r: bool)
        ensures
            r == permission_allowed(self@, context_id@, permission@),
    {
        self.contexts.check_keys();
        self.policies.check_keys();
        let key = context_id.to_owned();
        proof {
            lemma_view_values_lookup(self.contexts@, key@);
        }
        let context = match self.contexts.get(&key) {
            Some(ctx) => ctx,
            None => return false,
        };
        match context.overrides.get(permission) {
            Some(allowed) => {
                return *allowed;
            },
            None => {},
        }
        let ghost ctx = context@;
        assert(lookup(self@.contexts, context_id@) == Some(ctx));
        assert(lookup(ctx.overrides, permission@).is_none());
        let n = context.policies.len();
        let mut i: usize = 0;
        while i < n
            invariant
                n == context.policies@.len(),
                ctx == context@,
                lookup(self@.contexts, context_id@) == Some(ctx),
                lookup(ctx.overrides, permission@).is_none(),
                i <= n,
                keys_unique(self.policies@),
                forall|j: int|
                    0 <= j < i ==> !#[trigger] policy_grants(
                        self@.policies,
                        ctx.policies[j],
                        permission@,
                    ),
            decreases n - i,
        {
            proof {
                lemma_view_values_lookup(self.policies@, context.policies@[i as int]@);
            }
            match self.policies.get(&context.policies[i]) {
                Some(policy) => {
                    if Self::lists_permission(&policy.permissions, permission) {
                        assert(policy_grants(self@.policies, ctx.policies[i as int], permission@));
                        return true;
                    }
                },
                None => {},
            }
            i = i + 1;
        }
        false
    }

    fn lists_permission(permissions: &Vec<Permission>, permission: &Permission) -> (r: bool)
        ensures
            r == permissions@.map_values(|p: Permission| p@).contains(permission@),
    {
        let ghost pv = permissions@.map_values(|p: Permission| p@);
        let n = permissions.len();
        let mut i: usize = 0;
        while i < n
            invariant
                n == permissions@.len(),
                pv == permissions@.map_values(|p: Permission| p@),
                i <= n,
                forall|j: int| 0 <= j < i ==> pv[j] != permission@,
            decreases n - i,
        {
            if permissions[i].same_key(permission) {
                assert(pv[i as int] == permission@);
                return true;
            }
            i = i + 1;
        }
        false
    }

    /// List all policy names
    pub fn list_policies(&self) -> (r: Vec<String>)
        ensures
            r@.map_values(|s: String| s@) == key_seq(self@.policies),
            r@.map_values(|s: String| s@).no_duplicates(),
    {
        proof {
            use_type_invariant(self);
            lemma_view_values_keys(self.policies@);
            lemma_keys_no_duplicates(self@.policies);
        }
        self.policies.keys()
    }

    /// List all context IDs
    pub fn list_contexts(&self) -> (r: Vec<String>)
        ensures
            r@.map_values(|s: String| s@) == key_seq(self@.contexts),
            r@.map_values(|s: String| s@).no_duplicates(),
    {
        proof {
            use_type_invariant(self);
            lemma_view_values_keys(self.contexts@);
            lemma_keys_no_duplicates(self@.contexts);
        }
        self.contexts.keys()
    }
}

} // verus!
