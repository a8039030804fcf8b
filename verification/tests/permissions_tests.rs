use config_perms::perms::{BotPermission, PermSet};
use config_perms::permissions::{PermissionManager, PermStore};
use config_perms::scope::Scope;

fn baseline() -> PermSet {
    PermSet::empty()
        .insert(BotPermission::GuildAdmin)
        .insert(BotPermission::ManageGuildSettings)
        .insert(BotPermission::ManageRoles)
}

#[test]
fn global_scopes_have_fixed_defaults() {
    let store = PermStore::new();
    let mut mgr = PermissionManager::new();
    let g = mgr.get_scope(&store, Scope::GlobalAllGuilds);
    assert_eq!(g.to_bits(), 1 << 12); // LogAllVerifications
    let u = mgr.get_scope(&store, Scope::GlobalAllUsers);
    assert!(u.contains(BotPermission::Unverify));
    assert!(u.contains(BotPermission::Whois));
    assert!(u.contains(BotPermission::Whowas));
    assert_eq!(u.to_bits(), (1 << 8) | (1 << 10) | (1 << 11));
}

#[test]
fn guild_user_scope_defaults_to_empty() {
    // A guild-user scope with no stored row resolves to the empty set,
    // not to the global defaults.
    let store = PermStore::new();
    let mut mgr = PermissionManager::new();
    let s = mgr.get_scope(&store, Scope::GuildUser(42, 7));
    assert_eq!(s.to_bits(), 0);
}

#[test]
fn get_scope_is_idempotent() {
    let mut store = PermStore::new();
    let mut mgr = PermissionManager::new();
    let first = mgr.get_scope(&store, Scope::Guild(3));
    let second = mgr.get_scope(&store, Scope::Guild(3));
    assert_eq!(first, second);
    // An intervening write changes the answer; repeating it is stable again.
    let bits = PermSet::empty().insert(BotPermission::Whois);
    mgr.set_scope(&mut store, Scope::Guild(3), bits);
    let third = mgr.get_scope(&store, Scope::Guild(3));
    assert_eq!(third, bits);
    assert_eq!(mgr.get_scope(&store, Scope::Guild(3)), bits);
}

#[test]
fn set_scope_persists_and_caches() {
    let mut store = PermStore::new();
    let mut mgr = PermissionManager::new();
    let bits = PermSet::empty().insert(BotPermission::ManageBot);
    mgr.set_scope(&mut store, Scope::User(4), bits);
    // a fresh resolver sees the persisted row
    let mut fresh = PermissionManager::new();
    assert_eq!(fresh.get_scope(&store, Scope::User(4)), bits);
}

#[test]
fn guild_perms_always_include_baseline() {
    let store = PermStore::new();
    let mut mgr = PermissionManager::new();
    let g = mgr.get_guild_perms(&store, 12);
    assert!(g.contains(BotPermission::GuildAdmin));
    assert!(g.contains(BotPermission::ManageGuildSettings));
    assert!(g.contains(BotPermission::ManageRoles));
    // the all-guilds default rides along
    assert!(g.contains(BotPermission::LogAllVerifications));
    assert_eq!(g.to_bits(), baseline().union(PermSet::from_bits(1 << 12)).to_bits());
}

#[test]
fn bot_admin_gets_exact_complement_of_guild_only() {
    let mut store = PermStore::new();
    let mut mgr = PermissionManager::new();
    let admin = PermSet::empty().insert(BotPermission::BotAdmin);
    mgr.set_scope(&mut store, Scope::User(8), admin);
    let r = mgr.get_user_global_perms(&store, 8);
    // exactly everything but LogAllVerifications, the one guild-only bit
    assert_eq!(r.to_bits(), 0x1FFF & !(1 << 12));
}

#[test]
fn plain_user_keeps_grants_minus_guild_only() {
    let mut store = PermStore::new();
    let mut mgr = PermissionManager::new();
    let grant = PermSet::empty()
        .insert(BotPermission::ManageBot)
        .insert(BotPermission::LogAllVerifications);
    mgr.set_scope(&mut store, Scope::User(9), grant);
    let r = mgr.get_user_global_perms(&store, 9);
    assert!(r.contains(BotPermission::ManageBot));
    assert!(!r.contains(BotPermission::LogAllVerifications));
    // the all-users defaults ride along
    assert!(r.contains(BotPermission::Unverify));
    assert!(r.contains(BotPermission::Whois));
    assert!(r.contains(BotPermission::Whowas));
}

#[test]
fn user_perms_union_roles_and_cap_by_guild() {
    let mut store = PermStore::new();
    let mut mgr = PermissionManager::new();
    // the guild itself is granted Whois and Unverify on top of the baseline
    let guild_grant = PermSet::empty()
        .insert(BotPermission::Whois)
        .insert(BotPermission::Unverify);
    mgr.set_scope(&mut store, Scope::Guild(20), guild_grant);
    // one role carries Whois and Whowas
    let role_grant = PermSet::empty()
        .insert(BotPermission::Whois)
        .insert(BotPermission::Whowas);
    mgr.set_scope(&mut store, Scope::GuildRole(20, 501), role_grant);
    let roles = vec![501u64];
    // user 30 is not the owner (owner is 99): role grants are capped by
    // what the guild scope allows, so Whowas is stripped at the guild
    // layer but returns through the global all-users default.
    let r = mgr.get_user_perms(&store, 20, 30, &roles, 99);
    assert!(r.contains(BotPermission::Whois));
    assert!(r.contains(BotPermission::Unverify));
    assert!(r.contains(BotPermission::Whowas));
    assert!(!r.contains(BotPermission::ManageRoles));
}

#[test]
fn owner_receives_superset_of_non_owner() {
    let mut store = PermStore::new();
    let mut mgr = PermissionManager::new();
    let guild_grant = PermSet::empty().insert(BotPermission::BypassHierarchy);
    mgr.set_scope(&mut store, Scope::Guild(21), guild_grant);
    let roles: Vec<u64> = Vec::new();
    let plain = mgr.get_user_perms(&store, 21, 30, &roles, 99);
    let mut mgr2 = PermissionManager::new();
    let owner = mgr2.get_user_perms(&store, 21, 30, &roles, 30);
    // every bit of the plain user's set is in the owner's set
    assert_eq!(owner.to_bits() & plain.to_bits(), plain.to_bits());
    // and the owner actually gains the guild-scope grants
    assert!(owner.contains(BotPermission::BypassHierarchy));
    assert!(!plain.contains(BotPermission::BypassHierarchy));
}

#[test]
fn guild_admin_bypasses_cap() {
    let mut store = PermStore::new();
    let mut mgr = PermissionManager::new();
    let guild_grant = PermSet::empty().insert(BotPermission::BypassHierarchy);
    mgr.set_scope(&mut store, Scope::Guild(22), guild_grant);
    let admin_grant = PermSet::empty().insert(BotPermission::GuildAdmin);
    mgr.set_scope(&mut store, Scope::GuildUser(22, 31), admin_grant);
    let roles: Vec<u64> = Vec::new();
    let r = mgr.get_user_perms(&store, 22, 31, &roles, 99);
    assert!(r.contains(BotPermission::BypassHierarchy));
    assert!(r.contains(BotPermission::GuildAdmin));
}

#[test]
fn maintenance_keeps_entries() {
    let mut store = PermStore::new();
    let mut mgr = PermissionManager::new();
    let bits = PermSet::empty().insert(BotPermission::Whowas);
    mgr.set_scope(&mut store, Scope::Guild(7), bits);
    mgr.on_cleanup_tick();
    mgr.on_guild_remove(7);
    assert_eq!(mgr.get_scope(&store, Scope::Guild(7)), bits);
}
