use config_perms::perms::{BotPermission, PermSet};
use config_perms::scope::Scope;

#[test]
fn empty_set_has_nothing() {
    let e = PermSet::empty();
    assert!(!e.contains(BotPermission::BotAdmin));
    assert!(!e.contains(BotPermission::LogAllVerifications));
    assert_eq!(e.to_bits(), 0);
}

#[test]
fn insert_and_contains() {
    let s = PermSet::empty().insert(BotPermission::BotAdmin).insert(BotPermission::Whois);
    assert!(s.contains(BotPermission::BotAdmin));
    assert!(s.contains(BotPermission::Whois));
    assert!(!s.contains(BotPermission::Whowas));
    // BotAdmin is bit 0, Whois is bit 10
    assert_eq!(s.to_bits(), 1 | (1 << 10));
}

#[test]
fn union_intersect_difference() {
    let a = PermSet::empty().insert(BotPermission::Unverify).insert(BotPermission::Whois);
    let b = PermSet::empty().insert(BotPermission::Whois).insert(BotPermission::Whowas);
    let u = a.union(b);
    assert!(u.contains(BotPermission::Unverify));
    assert!(u.contains(BotPermission::Whois));
    assert!(u.contains(BotPermission::Whowas));
    let i = a.intersect(b);
    assert!(!i.contains(BotPermission::Unverify));
    assert!(i.contains(BotPermission::Whois));
    assert!(!i.contains(BotPermission::Whowas));
    let d = a.difference(b);
    assert!(d.contains(BotPermission::Unverify));
    assert!(!d.contains(BotPermission::Whois));
}

#[test]
fn complement_within_declared_flags() {
    let g = PermSet::empty().insert(BotPermission::LogAllVerifications);
    let c = g.complement();
    assert!(!c.contains(BotPermission::LogAllVerifications));
    assert!(c.contains(BotPermission::BotAdmin));
    assert!(c.contains(BotPermission::Whowas));
    // 13 declared flags, one removed
    assert_eq!(c.to_bits(), 0x1FFF & !(1 << 12));
}

#[test]
fn from_bits_ignores_undeclared_bits() {
    let s = PermSet::from_bits(0xFFFF_FFFF_FFFF_FFFF);
    assert_eq!(s.to_bits(), 0x1FFF);
    let t = PermSet::from_bits(0b10);
    assert!(t.contains(BotPermission::GuildAdmin));
    assert!(!t.contains(BotPermission::BotAdmin));
}

#[test]
fn scope_sql_keys_are_fixed() {
    assert_eq!(Scope::GlobalAllGuilds.to_sql(), (0, 0, 0));
    assert_eq!(Scope::GlobalAllUsers.to_sql(), (1, 0, 0));
    assert_eq!(Scope::User(9).to_sql(), (2, 0, 9));
    assert_eq!(Scope::Guild(5).to_sql(), (3, 0, 5));
    assert_eq!(Scope::GuildAllUsers(5).to_sql(), (4, 0, 5));
    assert_eq!(Scope::GuildRole(5, 77).to_sql(), (5, 5, 77));
    assert_eq!(Scope::GuildUser(5, 9).to_sql(), (6, 5, 9));
}
