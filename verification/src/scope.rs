use vstd::prelude::*;

verus! {

// Scope classes as persisted in the permission table's first key column.
// These values are part of the stored format and must never be renumbered.
pub const SCOPE_GLOBAL_GUILD: u64 = 0;

pub const SCOPE_GLOBAL_USERS: u64 = 1;

pub const SCOPE_USER: u64 = 2;

pub const SCOPE_GUILD: u64 = 3;

pub const SCOPE_GUILD_USERS: u64 = 4;

pub const SCOPE_GUILD_ROLE: u64 = 5;

pub const SCOPE_GUILD_USER: u64 = 6;

/// A hierarchical identifier that permission bits are assigned against:
/// the two process-wide scopes, one user, one guild, everyone in a guild,
/// one role within a guild, or one user within a guild.
#[derive(Copy, Clone, Debug, PartialEq, Eq, Hash, Structural)]
pub enum Scope {
    GlobalAllGuilds,
    GlobalAllUsers,
    User(u64),
    Guild(u64),
    GuildAllUsers(u64),
    GuildRole(u64, u64),
    GuildUser(u64, u64),
}

impl Scope {
    /// The fixed `(scope class, secondary id, primary id)` key under which
    /// this scope's permission row is persisted.
    pub open spec fn spec_sql_key(self) -> (u64, u64, u64) {
        match self {
            Scope::GlobalAllGuilds => (SCOPE_GLOBAL_GUILD, 0, 0),
            Scope::GlobalAllUsers => (SCOPE_GLOBAL_USERS, 0, 0),
            Scope::User(uid) => (SCOPE_USER, 0, uid),
            Scope::Guild(gid) => (SCOPE_GUILD, 0, gid),
            Scope::GuildAllUsers(gid) => (SCOPE_GUILD_USERS, 0, gid),
            Scope::GuildRole(gid, rid) => (SCOPE_GUILD_ROLE, gid, rid),
            Scope::GuildUser(gid, uid) => (SCOPE_GUILD_USER, gid, uid),
        }
    }

    pub fn to_sql(self) -> (r: (u64, u64, u64))
        ensures
            r == self.spec_sql_key(),
    {
        match self {
            Scope::GlobalAllGuilds => (SCOPE_GLOBAL_GUILD, 0, 0),
            Scope::GlobalAllUsers => (SCOPE_GLOBAL_USERS, 0, 0),
            Scope::User(uid) => (SCOPE_USER, 0, uid),
            Scope::Guild(gid) => (SCOPE_GUILD, 0, gid),
            Scope::GuildAllUsers(gid) => (SCOPE_GUILD_USERS, 0, gid),
            Scope::GuildRole(gid, rid) => (SCOPE_GUILD_ROLE, gid, rid),
            Scope::GuildUser(gid, uid) => (SCOPE_GUILD_USER, gid, uid),
        }
    }
}

impl crate::kv::KeyEq for Scope {
    fn key_eq(&self, other: &Self) -> (r: bool) {
        *self == *other
    }
}

/// Distinct scopes persist under distinct keys, so one row never serves
/// two scopes.
pub proof fn lemma_sql_key_injective(a: Scope, b: Scope)
    ensures
        a.spec_sql_key() == b.spec_sql_key() ==> a == b,
{
}

} // verus!
