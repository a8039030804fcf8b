use vstd::prelude::*;

use crate::kv::KvVec;
use crate::perms::{bit_index, BotPermission, PermSet};
use crate::scope::Scope;

verus! {

// The four fixed permission sets of the resolver.
/// Baseline bits every guild holds whatever is stored.
pub open spec fn spec_always_global_guild(p: BotPermission) -> bool {
    p == BotPermission::GuildAdmin || p == BotPermission::ManageGuildSettings || p
        == BotPermission::ManageRoles
}

/// Default for the all-guilds scope when its row is absent.
pub open spec fn spec_default_global_all_guilds(p: BotPermission) -> bool {
    p == BotPermission::LogAllVerifications
}

/// Default for the all-users scope when its row is absent.
pub open spec fn spec_default_global_all_users(p: BotPermission) -> bool {
    p == BotPermission::Unverify || p == BotPermission::Whois || p == BotPermission::Whowas
}

/// Bits that only make sense inside a guild and are stripped from any
/// user-level set.
pub open spec fn spec_guild_only(p: BotPermission) -> bool {
    p == BotPermission::LogAllVerifications
}

pub fn always_global_guild() -> (r: PermSet)
    ensures
        r.wf(),
        forall|p: BotPermission| r.has(p) == spec_always_global_guild(p),
{
    PermSet::empty().insert(BotPermission::GuildAdmin).insert(
        BotPermission::ManageGuildSettings,
    ).insert(BotPermission::ManageRoles)
}

pub fn default_global_all_guilds() -> (r: PermSet)
    ensures
        r.wf(),
        forall|p: BotPermission| r.has(p) == spec_default_global_all_guilds(p),
{
    PermSet::empty().insert(BotPermission::LogAllVerifications)
}

pub fn default_global_all_users() -> (r: PermSet)
    ensures
        r.wf(),
        forall|p: BotPermission| r.has(p) == spec_default_global_all_users(p),
{
    PermSet::empty().insert(BotPermission::Unverify).insert(BotPermission::Whois).insert(
        BotPermission::Whowas,
    )
}

pub fn guild_only() -> (r: PermSet)
    ensures
        r.wf(),
        forall|p: BotPermission| r.has(p) == spec_guild_only(p),
{
    PermSet::empty().insert(BotPermission::LogAllVerifications)
}

/// In-memory model of the persisted permission table: one integer bitset
/// per `(scope class, secondary id, primary id)` key, with upsert and
/// point lookup, as the backing store exposes them.
pub struct PermStore {
    rows: KvVec<(u64, u64, u64), u64>,
}

impl View for PermStore {
    type V = Map<(u64, u64, u64), u64>;

    closed spec fn view(&self) -> Map<(u64, u64, u64), u64> {
        self.rows@
    }
}

impl PermStore {
    pub closed spec fn wf(self) -> bool {
        self.rows.wf()
    }

    pub fn new() -> (r: PermStore)
        ensures
            r.wf(),
            r@ == Map::<(u64, u64, u64), u64>::empty(),
    {
        PermStore { rows: KvVec::new() }
    }

    pub fn query(&self, key: (u64, u64, u64)) -> (r: Option<u64>)
        requires
            self.wf(),
        ensures
            match r {
                Some(bits) => self@.contains_key(key) && bits == self@[key],
                None => !self@.contains_key(key),
            },
    {
        match self.rows.get(&key) {
            Some(v) => Some(*v),
            None => None,
        }
    }

    pub fn upsert(&mut self, key: (u64, u64, u64), bits: u64)
        requires
            old(self).wf(),
        ensures
            final(self).wf(),
            final(self)@ == old(self)@.insert(key, bits),
    {
        self.rows.insert(key, bits);
    }
}

/// What a scope's row decodes to, or its default when the row is absent:
/// the two process-wide scopes fall back to fixed baselines, every other
/// scope to the empty set.
pub open spec fn spec_scope_default(scope: Scope, p: BotPermission) -> bool {
    match scope {
        Scope::GlobalAllGuilds => spec_default_global_all_guilds(p),
        Scope::GlobalAllUsers => spec_default_global_all_users(p),
        _ => false,
    }
}

/// The set a scope resolves to against a given store, bit by bit.
pub open spec fn spec_resolve(
    store: Map<(u64, u64, u64), u64>,
    scope: Scope,
    p: BotPermission,
) -> bool {
    if store.contains_key(scope.spec_sql_key()) {
        store[scope.spec_sql_key()] & (1u64 << bit_index(p)) != 0
    } else {
        spec_scope_default(scope, p)
    }
}

/// What `get_scope` returns: the cached set when one is present, else the
/// store resolution.
pub open spec fn spec_scope_result(
    cache: Map<Scope, PermSet>,
    store: Map<(u64, u64, u64), u64>,
    scope: Scope,
    p: BotPermission,
) -> bool {
    if cache.contains_key(scope) {
        cache[scope].has(p)
    } else {
        spec_resolve(store, scope, p)
    }
}

/// Two cache states that resolve every scope alike against one store.
pub open spec fn spec_same_results(
    c1: Map<Scope, PermSet>,
    c2: Map<Scope, PermSet>,
    store: Map<(u64, u64, u64), u64>,
) -> bool {
    forall|s: Scope, p: BotPermission|
        spec_scope_result(c2, store, s, p) == spec_scope_result(c1, store, s, p)
}

/// Caching what a scope resolves to changes no scope's resolution, so
/// repeated reads are idempotent however they interleave with each other.
pub proof fn lemma_memoize_stable(
    cache: Map<Scope, PermSet>,
    store: Map<(u64, u64, u64), u64>,
    scope: Scope,
    v: PermSet,
)
    requires
        forall|p: BotPermission| v.has(p) == spec_scope_result(cache, store, scope, p),
    ensures
        spec_same_results(cache, cache.insert(scope, v), store),
{
    let c2 = cache.insert(scope, v);
    assert forall|s: Scope, p: BotPermission|
        spec_scope_result(c2, store, s, p) == spec_scope_result(cache, store, s, p) by {
        if s == scope {
            assert(v.has(p) == spec_scope_result(cache, store, scope, p));
        }
    }
}

/// The guild-level effective set: the all-guilds scope, the guild's own
/// scope, and the fixed baseline.
pub open spec fn spec_guild_perms(
    cache: Map<Scope, PermSet>,
    store: Map<(u64, u64, u64), u64>,
    guild_id: u64,
    p: BotPermission,
) -> bool {
    spec_scope_result(cache, store, Scope::GlobalAllGuilds, p) || spec_scope_result(
        cache,
        store,
        Scope::Guild(guild_id),
        p,
    ) || spec_always_global_guild(p)
}

/// The bits granted to a user before the admin and guild-only adjustments:
/// the all-users scope, the user's own scope, and a caller-supplied
/// additional set.
pub open spec fn spec_user_base(
    cache: Map<Scope, PermSet>,
    store: Map<(u64, u64, u64), u64>,
    user: u64,
    additional: PermSet,
    p: BotPermission,
) -> bool {
    spec_scope_result(cache, store, Scope::GlobalAllUsers, p) || spec_scope_result(
        cache,
        store,
        Scope::User(user),
        p,
    ) || additional.has(p)
}

/// The global layering rule: a holder of the bot-admin bit gets exactly
/// every non-guild-only bit; anyone else keeps their granted bits with the
/// guild-only ones stripped.
pub open spec fn spec_user_raw(
    cache: Map<Scope, PermSet>,
    store: Map<(u64, u64, u64), u64>,
    user: u64,
    additional: PermSet,
    p: BotPermission,
) -> bool {
    if spec_user_base(cache, store, user, additional, BotPermission::BotAdmin) {
        !spec_guild_only(p)
    } else {
        spec_user_base(cache, store, user, additional, p) && !spec_guild_only(p)
    }
}

/// The bits a guild member is explicitly granted: everyone-in-guild, the
/// member's own slot, and every role the member holds.
pub open spec fn spec_member_guild_perms(
    cache: Map<Scope, PermSet>,
    store: Map<(u64, u64, u64), u64>,
    guild_id: u64,
    user: u64,
    roles: Seq<u64>,
    p: BotPermission,
) -> bool {
    spec_scope_result(cache, store, Scope::GuildAllUsers(guild_id), p) || spec_scope_result(
        cache,
        store,
        Scope::GuildUser(guild_id, user),
        p,
    ) || exists|j: int|
        0 <= j < roles.len() && spec_scope_result(
            cache,
            store,
            Scope::GuildRole(guild_id, roles[j]),
            p,
        )
}

/// The guild-derived layer of a user's effective set: a guild admin or the
/// guild's owner gets everything the guild scope grants; anyone else is
/// capped by it.
pub open spec fn spec_user_guild_layer(
    cache: Map<Scope, PermSet>,
    store: Map<(u64, u64, u64), u64>,
    guild_id: u64,
    user: u64,
    roles: Seq<u64>,
    owner_id: u64,
    p: BotPermission,
) -> bool {
    if spec_member_guild_perms(cache, store, guild_id, user, roles, BotPermission::GuildAdmin)
        || owner_id == user {
        spec_guild_perms(cache, store, guild_id, p)
    } else {
        spec_member_guild_perms(cache, store, guild_id, user, roles, p) && spec_guild_perms(
            cache,
            store,
            guild_id,
            p,
        )
    }
}

/// The granted bits entering the global layering rule for one guild.
pub open spec fn spec_user_perms_base(
    cache: Map<Scope, PermSet>,
    store: Map<(u64, u64, u64), u64>,
    guild_id: u64,
    user: u64,
    roles: Seq<u64>,
    owner_id: u64,
    p: BotPermission,
) -> bool {
    spec_scope_result(cache, store, Scope::GlobalAllUsers, p) || spec_scope_result(
        cache,
        store,
        Scope::User(user),
        p,
    ) || spec_user_guild_layer(cache, store, guild_id, user, roles, owner_id, p)
}

/// A user's effective set within one guild.
pub open spec fn spec_user_perms(
    cache: Map<Scope, PermSet>,
    store: Map<(u64, u64, u64), u64>,
    guild_id: u64,
    user: u64,
    roles: Seq<u64>,
    owner_id: u64,
    p: BotPermission,
) -> bool {
    if spec_user_perms_base(cache, store, guild_id, user, roles, owner_id, BotPermission::BotAdmin) {
        !spec_guild_only(p)
    } else {
        spec_user_perms_base(cache, store, guild_id, user, roles, owner_id, p) && !spec_guild_only(
            p,
        )
    }
}

proof fn lemma_same_results_trans(
    c1: Map<Scope, PermSet>,
    c2: Map<Scope, PermSet>,
    c3: Map<Scope, PermSet>,
    store: Map<(u64, u64, u64), u64>,
)
    requires
        spec_same_results(c1, c2, store),
        spec_same_results(c2, c3, store),
    ensures
        spec_same_results(c1, c3, store),
{
    assert forall|s: Scope, p: BotPermission|
        spec_scope_result(c3, store, s, p) == spec_scope_result(c1, store, s, p) by {
        assert(spec_scope_result(c2, store, s, p) == spec_scope_result(c1, store, s, p));
        assert(spec_scope_result(c3, store, s, p) == spec_scope_result(c2, store, s, p));
    }
}

/// Resolving a scope twice with no intervening write yields the same set:
/// after the first read memoizes its outcome, the second read returns
/// exactly that outcome.
pub proof fn lemma_get_scope_idempotent(
    cache: Map<Scope, PermSet>,
    store: Map<(u64, u64, u64), u64>,
    scope: Scope,
    r: PermSet,
    p: BotPermission,
)
    requires
        forall|q: BotPermission| r.has(q) == spec_scope_result(cache, store, scope, q),
    ensures
        spec_scope_result(cache.insert(scope, r), store, scope, p) == r.has(p),
{
}

/// A persisted write is read back exactly: after `set_scope`, a resolver
/// with no cached entry for the scope resolves it to the written set.
pub proof fn lemma_set_scope_round_trip(
    store: Map<(u64, u64, u64), u64>,
    scope: Scope,
    v: PermSet,
    p: BotPermission,
)
    ensures
        spec_resolve(store.insert(scope.spec_sql_key(), v.bits), scope, p) == v.has(p),
{
}

/// Writing one scope's row touches no other scope's resolution: distinct
/// scopes persist under distinct keys.
pub proof fn lemma_set_scope_isolated(
    store: Map<(u64, u64, u64), u64>,
    scope: Scope,
    other: Scope,
    bits: u64,
    p: BotPermission,
)
    requires
        other != scope,
    ensures
        spec_resolve(store.insert(scope.spec_sql_key(), bits), other, p) == spec_resolve(
            store,
            other,
            p,
        ),
{
    crate::scope::lemma_sql_key_injective(scope, other);
}

/// A holder of the bot-admin bit resolves globally to exactly the
/// complement of the guild-only bits: every declared flag but those.
pub proof fn lemma_bot_admin_exact(
    cache: Map<Scope, PermSet>,
    store: Map<(u64, u64, u64), u64>,
    user: u64,
    additional: PermSet,
    p: BotPermission,
)
    requires
        spec_user_base(cache, store, user, additional, BotPermission::BotAdmin),
    ensures
        spec_user_raw(cache, store, user, additional, p) == !spec_guild_only(p),
{
}

/// A guild's owner receives at least what a non-owner with the same role
/// assignments and stored grants receives.
pub proof fn lemma_owner_superset(
    cache: Map<Scope, PermSet>,
    store: Map<(u64, u64, u64), u64>,
    guild_id: u64,
    user: u64,
    roles: Seq<u64>,
    owner_id: u64,
    p: BotPermission,
)
    requires
        spec_user_perms(cache, store, guild_id, user, roles, owner_id, p),
    ensures
        spec_user_perms(cache, store, guild_id, user, roles, user, p),
{
    assert forall|q: BotPermission|
        spec_user_guild_layer(cache, store, guild_id, user, roles, owner_id, q) implies
        spec_user_guild_layer(cache, store, guild_id, user, roles, user, q) by {}
}

/// The scoped permission resolver: a write-through cache over the
/// permission table.
pub struct PermissionManagerData {
    scope_cache: KvVec<Scope, PermSet>,
}

/// The resolver's shared handle; cloning and locking are the embedding
/// application's business, so here it owns its data directly.
pub struct PermissionManager {
    data: PermissionManagerData,
}

impl View for PermissionManager {
    type V = Map<Scope, PermSet>;

    closed spec fn view(&self) -> Map<Scope, PermSet> {
        self.data.scope_cache@
    }
}

impl PermissionManager {
    /// Every cached set is well formed.
    pub closed spec fn wf(self) -> bool {
        &&& self.data.scope_cache.wf()
        &&& forall|s: Scope| self@.contains_key(s) ==> (#[trigger] self@[s]).wf()
    }

    pub fn new() -> (r: PermissionManager)
        ensures
            r.wf(),
            r@ == Map::<Scope, PermSet>::empty(),
    {
        PermissionManager { data: PermissionManagerData { scope_cache: KvVec::new() } }
    }

    /// Cache-or-compute resolution of one scope against the store.
    pub fn get_scope(&mut self, store: &PermStore, scope: Scope) -> (r: PermSet)
        requires
            old(self).wf(),
            store.wf(),
        ensures
            final(self).wf(),
            r.wf(),
            forall|p: BotPermission| r.has(p) == spec_scope_result(old(self)@, store@, scope, p),
            final(self)@ == old(self)@.insert(scope, r),
            spec_same_results(old(self)@, final(self)@, store@),
    {
        let cached = match self.data.scope_cache.get(&scope) {
            Some(v) => Some(*v),
            None => None,
        };
        let r = match cached {
            Some(v) => {
                self.data.scope_cache.insert(scope, v);
                v
            },
            None => {
                let key = scope.to_sql();
                let v = match store.query(key) {
                    Some(bits) => PermSet::from_bits(bits),
                    None => match scope {
                        Scope::GlobalAllGuilds => default_global_all_guilds(),
                        Scope::GlobalAllUsers => default_global_all_users(),
                        _ => PermSet::empty(),
                    },
                };
                self.data.scope_cache.insert(scope, v);
                v
            },
        };
        proof {
            lemma_memoize_stable(old(self)@, store@, scope, r);
        }
        r
    }

    /// Persist a scope's set, then install it into the cache slot without a
    /// second store round-trip.
    pub fn set_scope(&mut self, store: &mut PermStore, scope: Scope, permissions: PermSet)
        requires
            old(self).wf(),
            old(store).wf(),
            permissions.wf(),
        ensures
            final(self).wf(),
            final(store).wf(),
            final(store)@ == old(store)@.insert(scope.spec_sql_key(), permissions.bits),
            final(self)@ == old(self)@.insert(scope, permissions),
    {
        let key = scope.to_sql();
        store.upsert(key, permissions.to_bits());
        self.data.scope_cache.insert(scope, permissions);
        proof {
            assert forall|s: Scope| self@.contains_key(s) implies (#[trigger] self@[s]).wf() by {
                if s != scope {
                    assert(old(self)@.contains_key(s));
                    assert(old(self)@[s].wf());
                }
            }
        }
    }

    /// A guild's effective set always contains the fixed baseline bits,
    /// whatever the store holds.
    pub fn get_guild_perms(&mut self, store: &PermStore, guild_id: u64) -> (r: PermSet)
        requires
            old(self).wf(),
            store.wf(),
        ensures
            final(self).wf(),
            r.wf(),
            forall|p: BotPermission| r.has(p) == spec_guild_perms(old(self)@, store@, guild_id, p),
            forall|p: BotPermission| spec_always_global_guild(p) ==> r.has(p),
            spec_same_results(old(self)@, final(self)@, store@),
    {
        let a = self.get_scope(store, Scope::GlobalAllGuilds);
        let ghost c1 = self@;
        let b = self.get_scope(store, Scope::Guild(guild_id));
        let r = a.union(b).union(always_global_guild());
        proof {
            assert forall|p: BotPermission|
                r.has(p) == spec_guild_perms(old(self)@, store@, guild_id, p) by {
                assert(b.has(p) == spec_scope_result(c1, store@, Scope::Guild(guild_id), p));
                assert(spec_scope_result(c1, store@, Scope::Guild(guild_id), p)
                    == spec_scope_result(old(self)@, store@, Scope::Guild(guild_id), p));
            }
        }
        r
    }

    fn get_user_raw(&mut self, store: &PermStore, user: u64, additional: PermSet) -> (r: PermSet)
        requires
            old(self).wf(),
            store.wf(),
            additional.wf(),
        ensures
            final(self).wf(),
            r.wf(),
            forall|p: BotPermission|
                r.has(p) == spec_user_raw(old(self)@, store@, user, additional, p),
            spec_same_results(old(self)@, final(self)@, store@),
    {
        let a = self.get_scope(store, Scope::GlobalAllUsers);
        let ghost c1 = self@;
        let b = self.get_scope(store, Scope::User(user));
        let perms = a.union(b).union(additional);
        proof {
            assert forall|p: BotPermission|
                perms.has(p) == spec_user_base(old(self)@, store@, user, additional, p) by {
                assert(b.has(p) == spec_scope_result(c1, store@, Scope::User(user), p));
                assert(spec_scope_result(c1, store@, Scope::User(user), p) == spec_scope_result(
                    old(self)@,
                    store@,
                    Scope::User(user),
                    p,
                ));
            }
        }
        if perms.contains(BotPermission::BotAdmin) {
            guild_only().complement()
        } else {
            perms.difference(guild_only())
        }
    }

    /// A user's effective set outside any guild.
    pub fn get_user_global_perms(&mut self, store: &PermStore, user: u64) -> (r: PermSet)
        requires
            old(self).wf(),
            store.wf(),
        ensures
            final(self).wf(),
            r.wf(),
            forall|p: BotPermission|
                r.has(p) == spec_user_raw(old(self)@, store@, user, PermSet { bits: 0 }, p),
            spec_same_results(old(self)@, final(self)@, store@),
    {
        let e = PermSet::empty();
        self.get_user_raw(store, user, e)
    }

    /// A user's effective set within one guild. The member's role ids and
    /// the guild's owner come from the external membership directory; the
    /// caller passes them in as plain values.
    pub fn get_user_perms(
        &mut self,
        store: &PermStore,
        guild_id: u64,
        user: u64,
        roles: &Vec<u64>,
        owner_id: u64,
    ) -> (r: PermSet)
        requires
            old(self).wf(),
            store.wf(),
        ensures
            final(self).wf(),
            r.wf(),
            forall|p: BotPermission|
                r.has(p) == spec_user_perms(
                    old(self)@,
                    store@,
                    guild_id,
                    user,
                    roles@,
                    owner_id,
                    p,
                ),
            spec_same_results(old(self)@, final(self)@, store@),
    {
        let ghost c0 = self@;
        let ghost st = store@;
        let a = self.get_scope(store, Scope::GuildAllUsers(guild_id));
        let ghost c1 = self@;
        let b = self.get_scope(store, Scope::GuildUser(guild_id, user));
        proof {
            lemma_same_results_trans(c0, c1, self@, st);
        }
        let mut guild_perms = a.union(b);
        proof {
            assert forall|p: BotPermission|
                guild_perms.has(p) == (spec_scope_result(c0, st, Scope::GuildAllUsers(guild_id), p)
                    || spec_scope_result(c0, st, Scope::GuildUser(guild_id, user), p)) by {
                assert(spec_scope_result(c1, st, Scope::GuildUser(guild_id, user), p)
                    == spec_scope_result(c0, st, Scope::GuildUser(guild_id, user), p));
            }
        }
        let n = roles.len();
        let mut i: usize = 0;
        while i < n
            invariant
                self.wf(),
                store.wf(),
                store@ == st,
                n == roles@.len(),
                i <= n,
                spec_same_results(c0, self@, st),
                guild_perms.wf(),
                forall|p: BotPermission|
                    guild_perms.has(p) == (spec_scope_result(
                        c0,
                        st,
                        Scope::GuildAllUsers(guild_id),
                        p,
                    ) || spec_scope_result(c0, st, Scope::GuildUser(guild_id, user), p) || exists|
                        j: int,
                    |
                        0 <= j < i && spec_scope_result(
                            c0,
                            st,
                            Scope::GuildRole(guild_id, roles@[j]),
                            p,
                        )),
            decreases n - i,
        {
            let ghost cpre = self@;
            let ghost gp_pre = guild_perms;
            let role = roles[i];
            let rset = self.get_scope(store, Scope::GuildRole(guild_id, role));
            proof {
                lemma_same_results_trans(c0, cpre, self@, st);
            }
            guild_perms = guild_perms.union(rset);
            proof {
                assert forall|p: BotPermission|
                    guild_perms.has(p) == (spec_scope_result(
                        c0,
                        st,
                        Scope::GuildAllUsers(guild_id),
                        p,
                    ) || spec_scope_result(c0, st, Scope::GuildUser(guild_id, user), p) || exists|
                        j: int,
                    |
                        0 <= j < i + 1 && spec_scope_result(
                            c0,
                            st,
                            Scope::GuildRole(guild_id, roles@[j]),
                            p,
                        )) by {
                    assert(rset.has(p) == spec_scope_result(
                        cpre,
                        st,
                        Scope::GuildRole(guild_id, roles@[i as int]),
                        p,
                    ));
                    assert(spec_scope_result(cpre, st, Scope::GuildRole(guild_id, roles@[i as int]), p)
                        == spec_scope_result(c0, st, Scope::GuildRole(guild_id, roles@[i as int]), p));
                    if guild_perms.has(p) {
                        if gp_pre.has(p) {
                            assert((spec_scope_result(c0, st, Scope::GuildAllUsers(guild_id), p)
                                || spec_scope_result(c0, st, Scope::GuildUser(guild_id, user), p)
                                || exists|j: int|
                                0 <= j < i + 1 && spec_scope_result(
                                    c0,
                                    st,
                                    Scope::GuildRole(guild_id, roles@[j]),
                                    p,
                                )));
                        } else {
                            assert(spec_scope_result(
                                c0,
                                st,
                                Scope::GuildRole(guild_id, roles@[i as int]),
                                p,
                            ));
                            assert(exists|j: int|
                                0 <= j < i + 1 && spec_scope_result(
                                    c0,
                                    st,
                                    Scope::GuildRole(guild_id, roles@[j]),
                                    p,
                                ));
                        }
                    }
                    if exists|j: int|
                        0 <= j < i + 1 && spec_scope_result(
                            c0,
                            st,
                            Scope::GuildRole(guild_id, roles@[j]),
                            p,
                        ) {
                        let j = choose|j: int|
                            0 <= j < i + 1 && spec_scope_result(
                                c0,
                                st,
                                Scope::GuildRole(guild_id, roles@[j]),
                                p,
                            );
                        if j < i {
                            assert(gp_pre.has(p));
                        } else {
                            assert(rset.has(p));
                        }
                    }
                }
            }
            i += 1;
        }
        let ghost cloop = self@;
        proof {
            assert(guild_perms.has(BotPermission::GuildAdmin) == spec_member_guild_perms(
                c0,
                st,
                guild_id,
                user,
                roles@,
                BotPermission::GuildAdmin,
            ));
        }
        let admin = guild_perms.contains(BotPermission::GuildAdmin);
        if admin || owner_id == user {
            guild_perms = self.get_guild_perms(store, guild_id);
            proof {
                lemma_same_results_trans(c0, cloop, self@, st);
                assert forall|p: BotPermission|
                    guild_perms.has(p) == spec_user_guild_layer(
                        c0,
                        st,
                        guild_id,
                        user,
                        roles@,
                        owner_id,
                        p,
                    ) by {
                    assert(spec_scope_result(cloop, st, Scope::GlobalAllGuilds, p)
                        == spec_scope_result(c0, st, Scope::GlobalAllGuilds, p));
                    assert(spec_scope_result(cloop, st, Scope::Guild(guild_id), p)
                        == spec_scope_result(c0, st, Scope::Guild(guild_id), p));
                }
            }
        } else {
            let g = self.get_guild_perms(store, guild_id);
            proof {
                lemma_same_results_trans(c0, cloop, self@, st);
            }
            let ghost gp_pre = guild_perms;
            guild_perms = guild_perms.intersect(g);
            proof {
                assert forall|p: BotPermission|
                    guild_perms.has(p) == spec_user_guild_layer(
                        c0,
                        st,
                        guild_id,
                        user,
                        roles@,
                        owner_id,
                        p,
                    ) by {
                    assert(spec_scope_result(cloop, st, Scope::GlobalAllGuilds, p)
                        == spec_scope_result(c0, st, Scope::GlobalAllGuilds, p));
                    assert(spec_scope_result(cloop, st, Scope::Guild(guild_id), p)
                        == spec_scope_result(c0, st, Scope::Guild(guild_id), p));
                    assert(gp_pre.has(p) == spec_member_guild_perms(
                        c0,
                        st,
                        guild_id,
                        user,
                        roles@,
                        p,
                    ));
                }
            }
        }
        let ghost cmid = self@;
        let r = self.get_user_raw(store, user, guild_perms);
        proof {
            lemma_same_results_trans(c0, cmid, self@, st);
            assert forall|p: BotPermission|
                r.has(p) == spec_user_perms(c0, st, guild_id, user, roles@, owner_id, p) by {
                assert(spec_scope_result(cmid, st, Scope::GlobalAllUsers, BotPermission::BotAdmin)
                    == spec_scope_result(c0, st, Scope::GlobalAllUsers, BotPermission::BotAdmin));
                assert(spec_scope_result(cmid, st, Scope::User(user), BotPermission::BotAdmin)
                    == spec_scope_result(c0, st, Scope::User(user), BotPermission::BotAdmin));
                assert(spec_scope_result(cmid, st, Scope::GlobalAllUsers, p) == spec_scope_result(
                    c0,
                    st,
                    Scope::GlobalAllUsers,
                    p,
                ));
                assert(spec_scope_result(cmid, st, Scope::User(user), p) == spec_scope_result(
                    c0,
                    st,
                    Scope::User(user),
                    p,
                ));
                assert(spec_user_base(cmid, st, user, guild_perms, BotPermission::BotAdmin)
                    == spec_user_perms_base(
                    c0,
                    st,
                    guild_id,
                    user,
                    roles@,
                    owner_id,
                    BotPermission::BotAdmin,
                ));
                assert(spec_user_base(cmid, st, user, guild_perms, p) == spec_user_perms_base(
                    c0,
                    st,
                    guild_id,
                    user,
                    roles@,
                    owner_id,
                    p,
                ));
            }
        }
        r
    }

    /// Housekeeping on the periodic maintenance tick: give surplus cache
    /// capacity back; no entry is evicted.
    pub fn on_cleanup_tick(&mut self)
        ensures
            final(self)@ == old(self)@,
            old(self).wf() ==> final(self).wf(),
    {
        self.data.scope_cache.maintain();
        proof {
            if old(self).wf() {
                assert forall|s: Scope| self@.contains_key(s) implies (#[trigger] self@[s]).wf() by {
                    assert(old(self)@.contains_key(s));
                    assert(old(self)@[s].wf());
                }
            }
        }
    }

    /// Housekeeping when a guild goes away; the guild's entries themselves
    /// are not purged.
    pub fn on_guild_remove(&mut self, _guild: u64)
        ensures
            final(self)@ == old(self)@,
            old(self).wf() ==> final(self).wf(),
    {
        self.data.scope_cache.maintain();
        proof {
            if old(self).wf() {
                assert forall|s: Scope| self@.contains_key(s) implies (#[trigger] self@[s]).wf() by {
                    assert(old(self)@.contains_key(s));
                    assert(old(self)@[s].wf());
                }
            }
        }
    }
}

} // verus!
