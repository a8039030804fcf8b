use config_perms::config::{
    ChangeHook, ConfigError, ConfigKey, ConfigKeys, ConfigManager, ConfigStore, ConfigValue,
    ValueModel,
};

struct RecordingHook {
    calls: Vec<(Option<u64>, ConfigKeys, ConfigValue)>,
    fail: bool,
}

impl RecordingHook {
    fn new() -> RecordingHook {
        RecordingHook { calls: Vec::new(), fail: false }
    }
}

impl ChangeHook for RecordingHook {
    // The two ghost members exist only for specifications; they are never
    // executed.
    fn calls(&self) -> vstd::seq::Seq<(Option<u64>, ConfigKeys, ValueModel)> {
        unreachable!()
    }

    fn verdict(
        &self,
        _guild: Option<u64>,
        _key: ConfigKeys,
        _value: ValueModel,
    ) -> Result<(), ConfigError> {
        unreachable!()
    }

    fn on_change(
        &mut self,
        guild: Option<u64>,
        key: ConfigKey,
        value: &ConfigValue,
    ) -> Result<(), ConfigError> {
        self.calls.push((guild, key.id, value.clone()));
        if self.fail {
            Err(ConfigError::Hook)
        } else {
            Ok(())
        }
    }
}

#[test]
fn get_on_empty_store_yields_default() {
    let store = ConfigStore::new();
    let mut mgr = ConfigManager::new();
    let key = ConfigKey::new(ConfigKeys::TokenValiditySeconds);
    let v = mgr.get(&store, None, key).unwrap();
    assert_eq!(v, ConfigValue::Int(300));
    let p = mgr.get(&store, None, ConfigKey::new(ConfigKeys::CommandPrefix)).unwrap();
    assert_eq!(p, ConfigValue::Text(String::from("!")));
    let t = mgr.get(&store, None, ConfigKey::new(ConfigKeys::DiscordToken)).unwrap();
    assert_eq!(t, ConfigValue::OptText(None));
    let r = mgr.get(&store, None, ConfigKey::new(ConfigKeys::ReverificationTimeout)).unwrap();
    assert_eq!(r, ConfigValue::UInt(600));
}

#[test]
fn guild_get_without_write_equals_global_get() {
    let store = ConfigStore::new();
    let mut mgr = ConfigManager::new();
    let key = ConfigKey::new(ConfigKeys::TokenValiditySeconds);
    let guild_view = mgr.get(&store, Some(5), key).unwrap();
    let global_view = mgr.get(&store, None, key).unwrap();
    assert_eq!(guild_view, global_view);
    assert_eq!(guild_view, ConfigValue::Int(300));
}

#[test]
fn set_then_get_returns_written_value() {
    let mut store = ConfigStore::new();
    let mut mgr = ConfigManager::new();
    let mut hook = RecordingHook::new();
    let key = ConfigKey::new(ConfigKeys::TokenValiditySeconds);
    mgr.set(&mut hook, &mut store, None, key, ConfigValue::Int(120)).unwrap();
    assert_eq!(mgr.get(&store, None, key).unwrap(), ConfigValue::Int(120));
    // the hook fired exactly once, with the new value
    assert_eq!(hook.calls.len(), 1);
    assert_eq!(hook.calls[0].0, None);
    assert_eq!(hook.calls[0].1, ConfigKeys::TokenValiditySeconds);
    assert_eq!(hook.calls[0].2, ConfigValue::Int(120));
}

#[test]
fn persistence_round_trip_through_fresh_cache() {
    let mut store = ConfigStore::new();
    let mut mgr = ConfigManager::new();
    let mut hook = RecordingHook::new();
    let key = ConfigKey::new(ConfigKeys::CommandPrefix);
    // characters that exercise JSON quoting and escaping
    let v = ConfigValue::Text(String::from("pre\"fix\\ ~"));
    mgr.set(&mut hook, &mut store, None, key, v.clone()).unwrap();
    let mut fresh = ConfigManager::new();
    assert_eq!(fresh.get(&store, None, key).unwrap(), v);
    // and the same for an optional value
    let tok = ConfigKey::new(ConfigKeys::DiscordToken);
    let t = ConfigValue::OptText(Some(String::from("example-token")));
    mgr.set(&mut hook, &mut store, None, tok, t.clone()).unwrap();
    let mut fresh2 = ConfigManager::new();
    assert_eq!(fresh2.get(&store, None, tok).unwrap(), t);
}

#[test]
fn guild_set_overrides_only_that_guild() {
    let mut store = ConfigStore::new();
    let mut mgr = ConfigManager::new();
    let mut hook = RecordingHook::new();
    let key = ConfigKey::new(ConfigKeys::ReverificationTimeout);
    mgr.set(&mut hook, &mut store, Some(8), key, ConfigValue::UInt(42)).unwrap();
    assert_eq!(mgr.get(&store, Some(8), key).unwrap(), ConfigValue::UInt(42));
    // another guild and the global scope still see the default
    assert_eq!(mgr.get(&store, Some(9), key).unwrap(), ConfigValue::UInt(600));
    assert_eq!(mgr.get(&store, None, key).unwrap(), ConfigValue::UInt(600));
}

#[test]
fn reset_restores_default_and_removes_row() {
    let mut store = ConfigStore::new();
    let mut mgr = ConfigManager::new();
    let mut hook = RecordingHook::new();
    let key = ConfigKey::new(ConfigKeys::TokenValiditySeconds);
    mgr.set(&mut hook, &mut store, None, key, ConfigValue::Int(120)).unwrap();
    assert!(store.get_row(None, ConfigKeys::TokenValiditySeconds).is_some());
    mgr.reset(&mut hook, &mut store, None, key).unwrap();
    assert_eq!(mgr.get(&store, None, key).unwrap(), ConfigValue::Int(300));
    // the store no longer holds a row for the key
    assert!(store.get_row(None, ConfigKeys::TokenValiditySeconds).is_none());
    // the hook saw the write and then the reset's default
    assert_eq!(hook.calls.len(), 2);
    assert_eq!(hook.calls[1].2, ConfigValue::Int(300));
}

#[test]
fn corrupt_row_is_a_serialization_error() {
    let mut store = ConfigStore::new();
    let mut mgr = ConfigManager::new();
    // a stored value of the wrong shape for an integer entry
    store.set_row(None, ConfigKeys::TokenValiditySeconds, String::from("\"abc\""));
    let key = ConfigKey::new(ConfigKeys::TokenValiditySeconds);
    assert_eq!(mgr.get(&store, None, key), Err(ConfigError::Serialization));
    // text that is not JSON at all fails the same way
    store.set_row(None, ConfigKeys::ReverificationTimeout, String::from("not json"));
    let rk = ConfigKey::new(ConfigKeys::ReverificationTimeout);
    assert_eq!(mgr.get(&store, None, rk), Err(ConfigError::Serialization));
}

#[test]
fn hook_failure_is_a_partial_success() {
    let mut store = ConfigStore::new();
    let mut mgr = ConfigManager::new();
    let mut hook = RecordingHook::new();
    hook.fail = true;
    let key = ConfigKey::new(ConfigKeys::TokenValiditySeconds);
    let r = mgr.set(&mut hook, &mut store, None, key, ConfigValue::Int(60));
    assert_eq!(r, Err(ConfigError::Hook));
    // the store row and the cache were updated before the hook ran
    assert!(store.get_row(None, ConfigKeys::TokenValiditySeconds).is_some());
    assert_eq!(mgr.get(&store, None, key).unwrap(), ConfigValue::Int(60));
}

#[test]
fn cold_get_caches_the_outcome() {
    // two consecutive cold reads agree, and the second is served from the
    // cache the first one filled: clearing the store row between the
    // reads does not change the answer.
    let mut store = ConfigStore::new();
    let mut mgr = ConfigManager::new();
    store.set_row(None, ConfigKeys::TokenValiditySeconds, String::from("45"));
    let key = ConfigKey::new(ConfigKeys::TokenValiditySeconds);
    assert_eq!(mgr.get(&store, None, key).unwrap(), ConfigValue::Int(45));
    store.remove_row(None, ConfigKeys::TokenValiditySeconds);
    assert_eq!(mgr.get(&store, None, key).unwrap(), ConfigValue::Int(45));
}

#[test]
fn rows_hold_canonical_json() {
    let mut store = ConfigStore::new();
    let mut mgr = ConfigManager::new();
    let mut hook = RecordingHook::new();
    let key = ConfigKey::new(ConfigKeys::TokenValiditySeconds);
    mgr.set(&mut hook, &mut store, None, key, ConfigValue::Int(-120)).unwrap();
    assert_eq!(store.get_row(None, ConfigKeys::TokenValiditySeconds).unwrap(), "-120");
    let pfx = ConfigKey::new(ConfigKeys::CommandPrefix);
    mgr.set(&mut hook, &mut store, None, pfx, ConfigValue::Text(String::from("a\"b"))).unwrap();
    assert_eq!(store.get_row(None, ConfigKeys::CommandPrefix).unwrap(), "\"a\\\"b\"");
    let tok = ConfigKey::new(ConfigKeys::DiscordToken);
    mgr.set(&mut hook, &mut store, None, tok, ConfigValue::OptText(None)).unwrap();
    assert_eq!(store.get_row(None, ConfigKeys::DiscordToken).unwrap(), "null");
}

#[test]
fn names_and_kinds_are_stable() {
    assert_eq!(ConfigKeys::CommandPrefix.db_name(), "CommandPrefix");
    assert_eq!(ConfigKeys::DiscordToken.db_name(), "DiscordToken");
    assert_eq!(ConfigKeys::TokenValiditySeconds.db_name(), "TokenValiditySeconds");
    assert_eq!(ConfigKeys::ReverificationTimeout.db_name(), "ReverificationTimeout");
}
