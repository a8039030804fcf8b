use vstd::prelude::*;
use vstd::string::StringExecFns;

use crate::codec::{
    json_encode_i32, json_encode_string, json_encode_u64, json_parse_i32, json_parse_opt_string,
    json_parse_string, json_parse_u64, json_parsed_i32, json_parsed_opt_string,
    json_parsed_string, json_parsed_u64, json_string_rep, spec_dec, spec_null,
};
use crate::kv::{KeyEq, KvVec};

verus! {

/// The closed registry of configuration entries. Identity is the entry's
/// persistence name; entries are fixed for the process lifetime.
#[derive(Copy, Clone, Debug, PartialEq, Eq, Hash, Structural)]
pub enum ConfigKeys {
    CommandPrefix,
    DiscordToken,
    TokenValiditySeconds,
    ReverificationTimeout,
}

/// An opaque handle to one registry entry, carried instead of a raw name
/// throughout the rest of the system.
#[derive(Copy, Clone, Debug, PartialEq, Eq, Structural)]
pub struct ConfigKey {
    pub id: ConfigKeys,
}

impl ConfigKey {
    pub fn new(id: ConfigKeys) -> (r: ConfigKey)
        ensures
            r.id == id,
    {
        ConfigKey { id }
    }
}

/// The value shape a registry entry stores.
#[derive(Copy, Clone, Debug, PartialEq, Eq, Structural)]
pub enum ValueKind {
    Text,
    OptText,
    Int,
    UInt,
}

/// The mathematical value of one configuration entry.
pub enum ValueModel {
    Text(Seq<char>),
    OptText(Option<Seq<char>>),
    Int(int),
    UInt(int),
}

/// A configuration value of one of the registry's shapes.
#[derive(Debug, PartialEq, Eq)]
pub enum ConfigValue {
    Text(String),
    OptText(Option<String>),
    Int(i32),
    UInt(u64),
}

impl View for ConfigValue {
    type V = ValueModel;

    open spec fn view(&self) -> ValueModel {
        match self {
            ConfigValue::Text(s) => ValueModel::Text(s@),
            ConfigValue::OptText(o) => ValueModel::OptText(
                match o {
                    Some(s) => Some(s@),
                    None => None,
                },
            ),
            ConfigValue::Int(n) => ValueModel::Int(*n as int),
            ConfigValue::UInt(n) => ValueModel::UInt(*n as int),
        }
    }
}

impl Clone for ConfigValue {
    fn clone(&self) -> (r: Self)
        ensures
            r == *self,
    {
        match self {
            ConfigValue::Text(s) => ConfigValue::Text(s.clone()),
            ConfigValue::OptText(o) => ConfigValue::OptText(
                match o {
                    Some(s) => Some(s.clone()),
                    None => None,
                },
            ),
            ConfigValue::Int(n) => ConfigValue::Int(*n),
            ConfigValue::UInt(n) => ConfigValue::UInt(*n),
        }
    }
}

pub open spec fn spec_kind_of(m: ValueModel) -> ValueKind {
    match m {
        ValueModel::Text(_) => ValueKind::Text,
        ValueModel::OptText(_) => ValueKind::OptText,
        ValueModel::Int(_) => ValueKind::Int,
        ValueModel::UInt(_) => ValueKind::UInt,
    }
}

/// Whether a model value fits the machine representation of its shape.
pub open spec fn spec_value_wf(m: ValueModel) -> bool {
    match m {
        ValueModel::Int(n) => i32::MIN <= n <= i32::MAX,
        ValueModel::UInt(n) => 0 <= n <= u64::MAX,
        _ => true,
    }
}

impl ConfigValue {
    pub fn kind(&self) -> (k: ValueKind)
        ensures
            k == spec_kind_of(self@),
    {
        match self {
            ConfigValue::Text(_) => ValueKind::Text,
            ConfigValue::OptText(_) => ValueKind::OptText,
            ConfigValue::Int(_) => ValueKind::Int,
            ConfigValue::UInt(_) => ValueKind::UInt,
        }
    }

    pub proof fn lemma_view_wf(&self)
        ensures
            spec_value_wf(self@),
    {
    }
}

impl ConfigKeys {
    /// The name the entry persists under.
    pub open spec fn spec_name(self) -> Seq<char> {
        match self {
            ConfigKeys::CommandPrefix => "CommandPrefix"@,
            ConfigKeys::DiscordToken => "DiscordToken"@,
            ConfigKeys::TokenValiditySeconds => "TokenValiditySeconds"@,
            ConfigKeys::ReverificationTimeout => "ReverificationTimeout"@,
        }
    }

    pub fn db_name(self) -> (r: &'static str)
        ensures
            r@ == self.spec_name(),
    {
        match self {
            ConfigKeys::CommandPrefix => "CommandPrefix",
            ConfigKeys::DiscordToken => "DiscordToken",
            ConfigKeys::TokenValiditySeconds => "TokenValiditySeconds",
            ConfigKeys::ReverificationTimeout => "ReverificationTimeout",
        }
    }

    /// The value shape the entry stores.
    pub open spec fn spec_kind(self) -> ValueKind {
        match self {
            ConfigKeys::CommandPrefix => ValueKind::Text,
            ConfigKeys::DiscordToken => ValueKind::OptText,
            ConfigKeys::TokenValiditySeconds => ValueKind::Int,
            ConfigKeys::ReverificationTimeout => ValueKind::UInt,
        }
    }

    pub fn kind(self) -> (k: ValueKind)
        ensures
            k == self.spec_kind(),
    {
        match self {
            ConfigKeys::CommandPrefix => ValueKind::Text,
            ConfigKeys::DiscordToken => ValueKind::OptText,
            ConfigKeys::TokenValiditySeconds => ValueKind::Int,
            ConfigKeys::ReverificationTimeout => ValueKind::UInt,
        }
    }

    /// The entry's default, materialized when neither cache nor store has
    /// a value.
    pub open spec fn spec_default(self) -> ValueModel {
        match self {
            ConfigKeys::CommandPrefix => ValueModel::Text("!"@),
            ConfigKeys::DiscordToken => ValueModel::OptText(None),
            ConfigKeys::TokenValiditySeconds => ValueModel::Int(300),
            ConfigKeys::ReverificationTimeout => ValueModel::UInt(600),
        }
    }

    pub fn default_value(self) -> (r: ConfigValue)
        ensures
            r@ == self.spec_default(),
            spec_kind_of(r@) == self.spec_kind(),
    {
        match self {
            ConfigKeys::CommandPrefix => ConfigValue::Text(String::from_str("!")),
            ConfigKeys::DiscordToken => ConfigValue::OptText(None),
            ConfigKeys::TokenValiditySeconds => ConfigValue::Int(300),
            ConfigKeys::ReverificationTimeout => ConfigValue::UInt(600),
        }
    }

    /// Every entry's default fits its own shape.
    pub proof fn lemma_default_kind(self)
        ensures
            spec_kind_of(self.spec_default()) == self.spec_kind(),
            spec_value_wf(self.spec_default()),
    {
    }
}

/// Distinct entries persist under distinct names.
pub proof fn lemma_names_injective(a: ConfigKeys, b: ConfigKeys)
    ensures
        a.spec_name() == b.spec_name() ==> a == b,
{
    if a != b && a.spec_name() == b.spec_name() {
        reveal_strlit("CommandPrefix");
        reveal_strlit("DiscordToken");
        reveal_strlit("TokenValiditySeconds");
        reveal_strlit("ReverificationTimeout");
        assert("CommandPrefix"@.len() == 13);
        assert("DiscordToken"@.len() == 12);
        assert("TokenValiditySeconds"@.len() == 20);
        assert("ReverificationTimeout"@.len() == 21);
    }
}

impl KeyEq for ConfigKeys {
    fn key_eq(&self, other: &Self) -> (r: bool) {
        *self == *other
    }
}

impl KeyEq for (u64, ConfigKeys) {
    fn key_eq(&self, other: &Self) -> (r: bool) {
        self.0 == other.0 && self.1 == other.1
    }
}

/// How a configuration operation fails: a stored value that no longer
/// decodes as its entry's shape, or a change-hook that rejected the write
/// after store and cache were already updated.
#[derive(Copy, Clone, Debug, PartialEq, Eq, Structural)]
pub enum ConfigError {
    Serialization,
    Hook,
}

/// The serialized JSON text of a model value: strings quoted and escaped,
/// the absent option as `null`, numbers in decimal.
pub open spec fn spec_encode(m: ValueModel) -> Seq<char> {
    match m {
        ValueModel::Text(s) => json_string_rep(s),
        ValueModel::OptText(o) => match o {
            Some(s) => json_string_rep(s),
            None => spec_null(),
        },
        ValueModel::Int(n) => spec_dec(n),
        ValueModel::UInt(n) => spec_dec(n),
    }
}

fn null_string() -> (r: String)
    ensures
        r@ == spec_null(),
{
    let r = String::from_str("null");
    proof {
        reveal_strlit("null");
        assert(r@ =~= spec_null());
    }
    r
}

/// Serialize one value as the store persists it.
pub fn encode_value(v: &ConfigValue) -> (r: String)
    ensures
        r@ == spec_encode(v@),
{
    match v {
        ConfigValue::Text(s) => json_encode_string(s),
        ConfigValue::OptText(o) => match o {
            Some(s) => json_encode_string(s),
            None => null_string(),
        },
        ConfigValue::Int(n) => json_encode_i32(*n),
        ConfigValue::UInt(n) => json_encode_u64(*n),
    }
}

/// What decoding a stored text as a given shape yields, in terms of the
/// named parse outcomes.
pub open spec fn spec_decode(kind: ValueKind, s: Seq<char>) -> Option<ValueModel> {
    match kind {
        ValueKind::Text => match json_parsed_string(s) {
            Some(t) => Some(ValueModel::Text(t)),
            None => None,
        },
        ValueKind::OptText => match json_parsed_opt_string(s) {
            Some(o) => Some(ValueModel::OptText(o)),
            None => None,
        },
        ValueKind::Int => match json_parsed_i32(s) {
            Some(n) => Some(ValueModel::Int(n as int)),
            None => None,
        },
        ValueKind::UInt => match json_parsed_u64(s) {
            Some(n) => Some(ValueModel::UInt(n as int)),
            None => None,
        },
    }
}

/// Decode a stored row as a given shape: exactly `spec_decode`, so the
/// outcome is fixed for every row. Any value the encoder produced for
/// that shape comes back exactly; text that does not parse as the shape
/// is rejected.
pub fn decode_value(kind: ValueKind, s: &str) -> (r: Option<ConfigValue>)
    ensures
        r is Some <==> spec_decode(kind, s@) is Some,
        r is Some ==> Some((r->Some_0)@) == spec_decode(kind, s@),
        r is Some ==> spec_kind_of((r->Some_0)@) == kind,
        forall|m: ValueModel|
            spec_value_wf(m) && spec_kind_of(m) == kind && s@ == spec_encode(m) ==> r is Some && (
            r->Some_0)@ == m,
{
    match kind {
        ValueKind::Text => {
            let px = json_parse_string(s);
            let r = match px {
                Some(x) => Some(ConfigValue::Text(x)),
                None => None,
            };
            proof {
                assert forall|m: ValueModel|
                    spec_value_wf(m) && spec_kind_of(m) == kind && s@ == spec_encode(m) implies r
                    is Some && (r->Some_0)@ == m by {
                    match m {
                        ValueModel::Text(t) => {
                            assert(s@ == json_string_rep(t));
                        },
                        _ => {},
                    }
                }
            }
            r
        },
        ValueKind::OptText => {
            let px = json_parse_opt_string(s);
            let r = match px {
                Some(x) => Some(ConfigValue::OptText(x)),
                None => None,
            };
            proof {
                assert forall|m: ValueModel|
                    spec_value_wf(m) && spec_kind_of(m) == kind && s@ == spec_encode(m) implies r
                    is Some && (r->Some_0)@ == m by {
                    match m {
                        ValueModel::OptText(o) => {
                            match o {
                                Some(t) => {
                                    assert(s@ == json_string_rep(t));
                                },
                                None => {
                                    assert(s@ == spec_null());
                                },
                            }
                        },
                        _ => {},
                    }
                }
            }
            r
        },
        ValueKind::Int => {
            let px = json_parse_i32(s);
            let r = match px {
                Some(n) => Some(ConfigValue::Int(n)),
                None => None,
            };
            proof {
                assert forall|m: ValueModel|
                    spec_value_wf(m) && spec_kind_of(m) == kind && s@ == spec_encode(m) implies r
                    is Some && (r->Some_0)@ == m by {
                    match m {
                        ValueModel::Int(n) => {
                            let n32 = n as i32;
                            assert(n32 as int == n);
                            assert(s@ == spec_dec(n32 as int));
                        },
                        _ => {},
                    }
                }
            }
            r
        },
        ValueKind::UInt => {
            let px = json_parse_u64(s);
            let r = match px {
                Some(n) => Some(ConfigValue::UInt(n)),
                None => None,
            };
            proof {
                assert forall|m: ValueModel|
                    spec_value_wf(m) && spec_kind_of(m) == kind && s@ == spec_encode(m) implies r
                    is Some && (r->Some_0)@ == m by {
                    match m {
                        ValueModel::UInt(n) => {
                            let n64 = n as u64;
                            assert(n64 as int == n);
                            assert(s@ == spec_dec(n64 as int));
                        },
                        _ => {},
                    }
                }
            }
            r
        },
    }
}

/// In-memory model of the persisted configuration tables: global rows
/// keyed by entry, guild rows keyed by guild and entry, each holding the
/// serialized JSON text of the value.
pub struct ConfigStore {
    global: KvVec<ConfigKeys, String>,
    guild: KvVec<(u64, ConfigKeys), String>,
}

impl ConfigStore {
    pub closed spec fn wf(self) -> bool {
        self.global.wf() && self.guild.wf()
    }

    pub closed spec fn global_rows(self) -> Map<ConfigKeys, String> {
        self.global@
    }

    pub closed spec fn guild_rows(self) -> Map<(u64, ConfigKeys), String> {
        self.guild@
    }

    pub fn new() -> (r: ConfigStore)
        ensures
            r.wf(),
            r.global_rows() == Map::<ConfigKeys, String>::empty(),
            r.guild_rows() == Map::<(u64, ConfigKeys), String>::empty(),
    {
        ConfigStore { global: KvVec::new(), guild: KvVec::new() }
    }

    /// One row lookup by scope and entry, as the backing store's key-value
    /// query exposes it.
    pub fn get_row(&self, guild: Option<u64>, key: ConfigKeys) -> (r: Option<&String>)
        requires
            self.wf(),
        ensures
            match guild {
                Some(g) => match r {
                    Some(v) => self.guild_rows().contains_key((g, key)) && *v == self.guild_rows()[
                        (g, key)
                    ],
                    None => !self.guild_rows().contains_key((g, key)),
                },
                None => match r {
                    Some(v) => self.global_rows().contains_key(key) && *v == self.global_rows()[
                        key
                    ],
                    None => !self.global_rows().contains_key(key),
                },
            },
    {
        match guild {
            Some(g) => self.guild.get(&(g, key)),
            None => self.global.get(&key),
        }
    }

    /// Upsert of one row, replacing any existing value for the same key.
    pub fn set_row(&mut self, guild: Option<u64>, key: ConfigKeys, value: String)
        requires
            old(self).wf(),
        ensures
            final(self).wf(),
            match guild {
                Some(g) => final(self).guild_rows() == old(self).guild_rows().insert(
                    (g, key),
                    value,
                ) && final(self).global_rows() == old(self).global_rows(),
                None => final(self).global_rows() == old(self).global_rows().insert(key, value)
                    && final(self).guild_rows() == old(self).guild_rows(),
            },
    {
        match guild {
            Some(g) => self.guild.insert((g, key), value),
            None => self.global.insert(key, value),
        }
    }

    /// Point delete of one row; deleting an absent row is a no-op.
    pub fn remove_row(&mut self, guild: Option<u64>, key: ConfigKeys)
        requires
            old(self).wf(),
        ensures
            final(self).wf(),
            match guild {
                Some(g) => final(self).guild_rows() == old(self).guild_rows().remove((g, key))
                    && final(self).global_rows() == old(self).global_rows(),
                None => final(self).global_rows() == old(self).global_rows().remove(key)
                    && final(self).guild_rows() == old(self).guild_rows(),
            },
    {
        match guild {
            Some(g) => {
                let _ = self.guild.take(&(g, key));
            },
            None => {
                let _ = self.global.take(&key);
            },
        }
    }
}

/// One row now holds the given text and every other row is untouched.
pub open spec fn spec_row_set<K>(
    old_rows: Map<K, String>,
    new_rows: Map<K, String>,
    k: K,
    enc: Seq<char>,
) -> bool {
    &&& new_rows.contains_key(k)
    &&& new_rows[k]@ == enc
    &&& forall|p: K| p != k ==> #[trigger] new_rows.contains_key(p) == old_rows.contains_key(p)
    &&& forall|p: K| p != k && old_rows.contains_key(p) ==> #[trigger] new_rows[p] == old_rows[p]
}

/// The per-write callback: invoked synchronously after a write's store row
/// and cache slot are already updated, with the scope and the new value.
/// Implementations carry their own context and may perform further
/// application-level effects; their failure becomes the write's result,
/// while the store and cache updates stand (a partial success).
pub trait ChangeHook: Sized {
    /// The log of invocations made so far, oldest first: the scope, the
    /// entry, and the value handed over.
    spec fn calls(&self) -> Seq<(Option<u64>, ConfigKeys, ValueModel)>;

    /// The verdict one invocation returns, as a function of the hook's
    /// state before the call and the arguments.
    spec fn verdict(&self, guild: Option<u64>, key: ConfigKeys, value: ValueModel) -> Result<
        (),
        ConfigError,
    >;

    fn on_change(&mut self, guild: Option<u64>, key: ConfigKey, value: &ConfigValue) -> (r: Result<
        (),
        ConfigError,
    >)
        ensures
            final(self).calls() == old(self).calls().push((guild, key.id, value@)),
            r == old(self).verdict(guild, key.id, value@),
    ;
}

/// The two-tier configuration cache: one lazily filled cache per scope,
/// with guild reads falling back to the global scope and from there to
/// each entry's default.
pub struct ConfigManager {
    global_cache: KvVec<ConfigKeys, ConfigValue>,
    guild_cache: KvVec<u64, KvVec<ConfigKeys, ConfigValue>>,
}

impl ConfigManager {
    /// The global cache slot of one entry; absent means not yet loaded.
    pub closed spec fn spec_global_slot(self, k: ConfigKeys) -> Option<ConfigValue> {
        if self.global_cache@.contains_key(k) {
            Some(self.global_cache@[k])
        } else {
            None
        }
    }

    /// The guild cache slot of one entry; absent means never written for
    /// that guild.
    pub closed spec fn spec_guild_slot(self, g: u64, k: ConfigKeys) -> Option<ConfigValue> {
        if self.guild_cache@.contains_key(g) && self.guild_cache@[g]@.contains_key(k) {
            Some(self.guild_cache@[g]@[k])
        } else {
            None
        }
    }

    /// The slot a read consults for a scope: the guild slot when one is
    /// filled, else the global slot.
    pub open spec fn spec_effective_slot(self, guild: Option<u64>, k: ConfigKeys) -> Option<
        ConfigValue,
    > {
        match guild {
            Some(g) => if self.spec_guild_slot(g, k) is Some {
                self.spec_guild_slot(g, k)
            } else {
                self.spec_global_slot(k)
            },
            None => self.spec_global_slot(k),
        }
    }

    /// Every cached value has its entry's shape.
    pub closed spec fn wf(self) -> bool {
        &&& self.global_cache.wf()
        &&& self.guild_cache.wf()
        &&& forall|g: u64|
            self.guild_cache@.contains_key(g) ==> (#[trigger] self.guild_cache@[g]).wf()
        &&& forall|k: ConfigKeys|
            (#[trigger] self.spec_global_slot(k)) is Some ==> spec_kind_of(
                self.spec_global_slot(k)->Some_0@,
            ) == k.spec_kind()
        &&& forall|g: u64, k: ConfigKeys|
            (#[trigger] self.spec_guild_slot(g, k)) is Some ==> spec_kind_of(
                self.spec_guild_slot(g, k)->Some_0@,
            ) == k.spec_kind()
    }

    pub fn new() -> (r: ConfigManager)
        ensures
            r.wf(),
            forall|k: ConfigKeys| #[trigger] r.spec_global_slot(k) is None,
            forall|g: u64, k: ConfigKeys| #[trigger] r.spec_guild_slot(g, k) is None,
    {
        ConfigManager { global_cache: KvVec::new(), guild_cache: KvVec::new() }
    }

    proof fn lemma_wf_after_global_insert(self, pre: ConfigManager, k: ConfigKeys, v: ConfigValue)
        requires
            pre.wf(),
            self.global_cache.wf(),
            self.global_cache@ == pre.global_cache@.insert(k, v),
            self.guild_cache == pre.guild_cache,
            spec_kind_of(v@) == k.spec_kind(),
        ensures
            self.wf(),
    {
        assert forall|k2: ConfigKeys| (#[trigger] self.spec_global_slot(k2)) is Some implies
            spec_kind_of(self.spec_global_slot(k2)->Some_0@) == k2.spec_kind() by {
            if k2 == k {
                assert(self.spec_global_slot(k2) == Some(v));
            } else {
                assert(self.spec_global_slot(k2) == pre.spec_global_slot(k2));
            }
        }
        assert forall|g2: u64, k2: ConfigKeys| (#[trigger] self.spec_guild_slot(g2, k2)) is Some
            implies spec_kind_of(self.spec_guild_slot(g2, k2)->Some_0@) == k2.spec_kind() by {
            assert(self.spec_guild_slot(g2, k2) == pre.spec_guild_slot(g2, k2));
        }
    }

    fn get_global(&mut self, store: &ConfigStore, key: ConfigKey) -> (r: Result<
        ConfigValue,
        ConfigError,
    >)
        requires
            old(self).wf(),
            store.wf(),
        ensures
            final(self).wf(),
            forall|g2: u64, k2: ConfigKeys| #[trigger]
                final(self).spec_guild_slot(g2, k2) == old(self).spec_guild_slot(g2, k2),
            forall|k2: ConfigKeys|
                k2 != key.id ==> #[trigger] final(self).spec_global_slot(k2) == old(self).spec_global_slot(k2),
            r is Ok ==> spec_kind_of((r->Ok_0)@) == key.id.spec_kind(),
            r is Ok <==> spec_global_result(*old(self), *store, key.id) is Ok,
            r is Ok ==> Ok::<ValueModel, ConfigError>((r->Ok_0)@) == spec_global_result(
                *old(self),
                *store,
                key.id,
            ),
            old(self).spec_global_slot(key.id) is Some ==> r is Ok && (r->Ok_0)@ == old(self).spec_global_slot(key.id)->Some_0@ && final(self).spec_global_slot(key.id) == old(self).spec_global_slot(key.id),
            (old(self).spec_global_slot(key.id) is None && !store.global_rows().contains_key(
                key.id,
            )) ==> r is Ok && (r->Ok_0)@ == key.id.spec_default() && final(self).spec_global_slot(
                key.id,
            ) is Some && final(self).spec_global_slot(key.id)->Some_0@ == key.id.spec_default(),
            forall|m: ValueModel|
                (old(self).spec_global_slot(key.id) is None && store.global_rows().contains_key(
                    key.id,
                ) && spec_value_wf(m) && spec_kind_of(m) == key.id.spec_kind()
                    && store.global_rows()[key.id]@ == spec_encode(m)) ==> r is Ok && (r->Ok_0)@
                    == m && final(self).spec_global_slot(key.id) is Some && final(self).spec_global_slot(key.id)->Some_0@ == m,
            r is Err ==> r == Err::<ConfigValue, ConfigError>(ConfigError::Serialization) && final(self).spec_global_slot(key.id) == old(self).spec_global_slot(key.id),
    {
        let cached = match self.global_cache.get(&key.id) {
            Some(v) => Some(v.clone()),
            None => None,
        };
        match cached {
            Some(v) => Ok(v),
            None => {
                // The terminal path: in the embedding this read-then-fill
                // sequence runs inside an immediate transaction on the
                // backing store, so racing first readers cannot
                // materialize divergent rows.
                match store.get_row(None, key.id) {
                    None => {
                        let v = key.id.default_value();
                        self.global_cache.insert(key.id, v.clone());
                        proof {
                            self.lemma_wf_after_global_insert(*old(self), key.id, v);
                        }
                        Ok(v)
                    },
                    Some(row) => {
                        let k = key.id.kind();
                        match decode_value(k, row.as_str()) {
                            Some(v) => {
                                self.global_cache.insert(key.id, v.clone());
                                proof {
                                    self.lemma_wf_after_global_insert(*old(self), key.id, v);
                                }
                                Ok(v)
                            },
                            None => Err(ConfigError::Serialization),
                        }
                    },
                }
            },
        }
    }

    proof fn lemma_wf_after_guild_insert(
        self,
        pre: ConfigManager,
        g: u64,
        k: ConfigKeys,
        v: ConfigValue,
        c: KvVec<ConfigKeys, ConfigValue>,
    )
        requires
            pre.wf(),
            self.global_cache == pre.global_cache,
            self.guild_cache.wf(),
            self.guild_cache@ == pre.guild_cache@.insert(g, c),
            c.wf(),
            c@ == (if pre.guild_cache@.contains_key(g) {
                pre.guild_cache@[g]@
            } else {
                Map::<ConfigKeys, ConfigValue>::empty()
            }).insert(k, v),
            spec_kind_of(v@) == k.spec_kind(),
        ensures
            self.wf(),
            self.spec_guild_slot(g, k) == Some(v),
            forall|g2: u64, k2: ConfigKeys|
                !(g2 == g && k2 == k) ==> #[trigger] self.spec_guild_slot(g2, k2)
                    == pre.spec_guild_slot(g2, k2),
            forall|k2: ConfigKeys| #[trigger] self.spec_global_slot(k2) == pre.spec_global_slot(
                k2,
            ),
    {
        assert forall|g2: u64| self.guild_cache@.contains_key(g2) implies (
        #[trigger] self.guild_cache@[g2]).wf() by {
            if g2 != g {
                assert(pre.guild_cache@.contains_key(g2));
                assert(pre.guild_cache@[g2].wf());
            }
        }
        assert forall|g2: u64, k2: ConfigKeys|
            !(g2 == g && k2 == k) implies #[trigger] self.spec_guild_slot(g2, k2)
            == pre.spec_guild_slot(g2, k2) by {
            if g2 != g {
                if pre.guild_cache@.contains_key(g2) {
                    assert(self.guild_cache@[g2] == pre.guild_cache@[g2]);
                }
            }
        }
        assert forall|g2: u64, k2: ConfigKeys| (#[trigger] self.spec_guild_slot(g2, k2)) is Some
            implies spec_kind_of(self.spec_guild_slot(g2, k2)->Some_0@) == k2.spec_kind() by {
            if g2 == g && k2 == k {
                assert(self.spec_guild_slot(g2, k2) == Some(v));
            } else {
                assert(self.spec_guild_slot(g2, k2) == pre.spec_guild_slot(g2, k2));
            }
        }
        assert forall|k2: ConfigKeys| (#[trigger] self.spec_global_slot(k2)) is Some implies
            spec_kind_of(self.spec_global_slot(k2)->Some_0@) == k2.spec_kind() by {
            assert(self.spec_global_slot(k2) == pre.spec_global_slot(k2));
        }
    }

    /// Read one entry for a scope: the guild's own slot first, then the
    /// global scope, then the store, then the entry's default; the
    /// terminal outcome is cached globally. A guild with no explicitly
    /// written value reads the global value: there is no per-guild
    /// default apart from the global one.
    pub fn get(&mut self, store: &ConfigStore, guild: Option<u64>, key: ConfigKey) -> (r: Result<
        ConfigValue,
        ConfigError,
    >)
        requires
            old(self).wf(),
            store.wf(),
        ensures
            final(self).wf(),
            forall|g2: u64, k2: ConfigKeys| #[trigger]
                final(self).spec_guild_slot(g2, k2) == old(self).spec_guild_slot(g2, k2),
            forall|k2: ConfigKeys|
                k2 != key.id ==> #[trigger] final(self).spec_global_slot(k2) == old(self).spec_global_slot(k2),
            r is Ok ==> spec_kind_of((r->Ok_0)@) == key.id.spec_kind(),
            r is Ok <==> spec_get_result(*old(self), *store, guild, key.id) is Ok,
            r is Ok ==> Ok::<ValueModel, ConfigError>((r->Ok_0)@) == spec_get_result(
                *old(self),
                *store,
                guild,
                key.id,
            ),
            old(self).spec_effective_slot(guild, key.id) is Some ==> r is Ok && (r->Ok_0)@ == old(self).spec_effective_slot(guild, key.id)->Some_0@ && final(self).spec_global_slot(key.id)
                == old(self).spec_global_slot(key.id),
            (old(self).spec_effective_slot(guild, key.id) is None
                && !store.global_rows().contains_key(key.id)) ==> r is Ok && (r->Ok_0)@
                == key.id.spec_default() && final(self).spec_global_slot(key.id) is Some && final(self).spec_global_slot(key.id)->Some_0@ == key.id.spec_default(),
            forall|m: ValueModel|
                (old(self).spec_effective_slot(guild, key.id) is None
                    && store.global_rows().contains_key(key.id) && spec_value_wf(m) && spec_kind_of(
                    m,
                ) == key.id.spec_kind() && store.global_rows()[key.id]@ == spec_encode(m)) ==> r
                    is Ok && (r->Ok_0)@ == m && final(self).spec_global_slot(key.id) is Some
                    && final(self).spec_global_slot(key.id)->Some_0@ == m,
            r is Err ==> r == Err::<ConfigValue, ConfigError>(ConfigError::Serialization) && final(self).spec_global_slot(key.id) == old(self).spec_global_slot(key.id),
    {
        match guild {
            Some(g) => {
                let cached = match self.guild_cache.get(&g) {
                    Some(c) => {
                        proof {
                            assert(self.guild_cache@[g].wf());
                        }
                        match c.get(&key.id) {
                            Some(v) => Some(v.clone()),
                            None => None,
                        }
                    },
                    None => None,
                };
                match cached {
                    Some(v) => {
                        proof {
                            assert(old(self).spec_guild_slot(g, key.id) == Some(v));
                        }
                        Ok(v)
                    },
                    None => {
                        proof {
                            assert(old(self).spec_guild_slot(g, key.id) is None);
                        }
                        self.get_global(store, key)
                    },
                }
            },
            None => self.get_global(store, key),
        }
    }

    /// Write one entry for a scope: the store row first, then the cache
    /// slot, then the entry's change hook. The hook's verdict is the
    /// result; the row and the slot stay updated even when the hook
    /// rejects the write (a partial success).
    pub fn set<H: ChangeHook>(
        &mut self,
        hook: &mut H,
        store: &mut ConfigStore,
        guild: Option<u64>,
        key: ConfigKey,
        val: ConfigValue,
    ) -> (r: Result<(), ConfigError>)
        requires
            old(self).wf(),
            old(store).wf(),
            spec_kind_of(val@) == key.id.spec_kind(),
        ensures
            final(self).wf(),
            final(store).wf(),
            final(hook).calls() == old(hook).calls().push((guild, key.id, val@)),
            r == old(hook).verdict(guild, key.id, val@),
            match guild {
                Some(g) => spec_row_set(
                    old(store).guild_rows(),
                    final(store).guild_rows(),
                    (g, key.id),
                    spec_encode(val@),
                ) && final(store).global_rows() == old(store).global_rows(),
                None => spec_row_set(
                    old(store).global_rows(),
                    final(store).global_rows(),
                    key.id,
                    spec_encode(val@),
                ) && final(store).guild_rows() == old(store).guild_rows(),
            },
            match guild {
                Some(g) => final(self).spec_guild_slot(g, key.id) == Some(val) && (forall|
                    g2: u64,
                    k2: ConfigKeys,
                |
                    !(g2 == g && k2 == key.id) ==> #[trigger] final(self).spec_guild_slot(g2, k2)
                        == old(self).spec_guild_slot(g2, k2)) && (forall|k2: ConfigKeys| #[trigger]
                    final(self).spec_global_slot(k2) == old(self).spec_global_slot(k2)),
                None => final(self).spec_global_slot(key.id) == Some(val) && (forall|
                    k2: ConfigKeys,
                |
                    k2 != key.id ==> #[trigger] final(self).spec_global_slot(k2) == old(self).spec_global_slot(k2)) && (forall|g2: u64, k2: ConfigKeys| #[trigger]
                    final(self).spec_guild_slot(g2, k2) == old(self).spec_guild_slot(g2, k2)),
            },
    {
        let enc = encode_value(&val);
        store.set_row(guild, key.id, enc);
        match guild {
            Some(g) => {
                let c_opt = self.guild_cache.take(&g);
                let mut c = match c_opt {
                    Some(c) => {
                        proof {
                            assert(old(self).guild_cache@[g].wf());
                        }
                        c
                    },
                    None => KvVec::new(),
                };
                c.insert(key.id, val.clone());
                self.guild_cache.insert(g, c);
                proof {
                    assert(self.guild_cache@ =~= old(self).guild_cache@.insert(g, c));
                    self.lemma_wf_after_guild_insert(*old(self), g, key.id, val, c);
                }
            },
            None => {
                self.global_cache.insert(key.id, val.clone());
                proof {
                    self.lemma_wf_after_global_insert(*old(self), key.id, val);
                    assert forall|k2: ConfigKeys|
                        k2 != key.id implies #[trigger] self.spec_global_slot(k2) == old(self).spec_global_slot(k2) by {}
                }
            },
        }
        hook.on_change(guild, key, &val)
    }

    /// Reset one entry to its default: delete the persisted row, install
    /// the freshly computed default into the cache slot, and run the
    /// change hook with it. The value is persisted as an absence rather
    /// than an explicit row.
    pub fn reset<H: ChangeHook>(
        &mut self,
        hook: &mut H,
        store: &mut ConfigStore,
        guild: Option<u64>,
        key: ConfigKey,
    ) -> (r: Result<(), ConfigError>)
        requires
            old(self).wf(),
            old(store).wf(),
        ensures
            final(self).wf(),
            final(store).wf(),
            final(hook).calls() == old(hook).calls().push(
                (guild, key.id, key.id.spec_default()),
            ),
            r == old(hook).verdict(guild, key.id, key.id.spec_default()),
            match guild {
                Some(g) => final(store).guild_rows() == old(store).guild_rows().remove(
                    (g, key.id),
                ) && final(store).global_rows() == old(store).global_rows(),
                None => final(store).global_rows() == old(store).global_rows().remove(key.id)
                    && final(store).guild_rows() == old(store).guild_rows(),
            },
            match guild {
                Some(g) => final(self).spec_guild_slot(g, key.id) is Some && final(self).spec_guild_slot(g, key.id)->Some_0@ == key.id.spec_default() && (forall|
                    g2: u64,
                    k2: ConfigKeys,
                |
                    !(g2 == g && k2 == key.id) ==> #[trigger] final(self).spec_guild_slot(g2, k2)
                        == old(self).spec_guild_slot(g2, k2)) && (forall|k2: ConfigKeys| #[trigger]
                    final(self).spec_global_slot(k2) == old(self).spec_global_slot(k2)),
                None => final(self).spec_global_slot(key.id) is Some && final(self).spec_global_slot(key.id)->Some_0@ == key.id.spec_default() && (forall|
                    k2: ConfigKeys,
                |
                    k2 != key.id ==> #[trigger] final(self).spec_global_slot(k2) == old(self).spec_global_slot(k2)) && (forall|g2: u64, k2: ConfigKeys| #[trigger]
                    final(self).spec_guild_slot(g2, k2) == old(self).spec_guild_slot(g2, k2)),
            },
    {
        store.remove_row(guild, key.id);
        let val = key.id.default_value();
        match guild {
            Some(g) => {
                let c_opt = self.guild_cache.take(&g);
                let mut c = match c_opt {
                    Some(c) => {
                        proof {
                            assert(old(self).guild_cache@[g].wf());
                        }
                        c
                    },
                    None => KvVec::new(),
                };
                c.insert(key.id, val.clone());
                self.guild_cache.insert(g, c);
                proof {
                    assert(self.guild_cache@ =~= old(self).guild_cache@.insert(g, c));
                    self.lemma_wf_after_guild_insert(*old(self), g, key.id, val, c);
                }
            },
            None => {
                self.global_cache.insert(key.id, val.clone());
                proof {
                    self.lemma_wf_after_global_insert(*old(self), key.id, val);
                }
            },
        }
        hook.on_change(guild, key, &val)
    }
}


/// The outcome `get` yields for the global scope, as a function of the
/// cache and the store: the cached value, else the default when no row
/// exists, else the decoded row or a serialization error.
pub open spec fn spec_global_result(m: ConfigManager, store: ConfigStore, k: ConfigKeys) -> Result<
    ValueModel,
    ConfigError,
> {
    match m.spec_global_slot(k) {
        Some(v) => Ok(v@),
        None => if !store.global_rows().contains_key(k) {
            Ok(k.spec_default())
        } else {
            match spec_decode(k.spec_kind(), store.global_rows()[k]@) {
                Some(mm) => Ok(mm),
                None => Err(ConfigError::Serialization),
            }
        },
    }
}

/// The outcome `get` yields for a scope: the guild slot's value when one
/// is filled, else the global outcome.
pub open spec fn spec_get_result(
    m: ConfigManager,
    store: ConfigStore,
    guild: Option<u64>,
    k: ConfigKeys,
) -> Result<ValueModel, ConfigError> {
    match guild {
        Some(g) => match m.spec_guild_slot(g, k) {
            Some(v) => Ok(v@),
            None => spec_global_result(m, store, k),
        },
        None => spec_global_result(m, store, k),
    }
}

/// With nothing ever written for a guild's entry, a guild-scoped read
/// yields exactly what a global read yields, whatever the store holds:
/// the same value, or the same error.
pub proof fn lemma_unset_guild_reads_global(
    m: ConfigManager,
    store: ConfigStore,
    g: u64,
    k: ConfigKeys,
)
    requires
        m.spec_guild_slot(g, k) is None,
    ensures
        spec_get_result(m, store, Some(g), k) == spec_get_result(m, store, None, k),
{
}

/// A guild with nothing written for an entry reads what the global scope
/// reads: its effective slot is the global slot, so `get` for the guild
/// and `get` for the global scope return the same value, the entry's
/// default when the store has no row either.
pub proof fn lemma_unset_guild_falls_back(m: ConfigManager, g: u64, k: ConfigKeys)
    requires
        m.spec_guild_slot(g, k) is None,
    ensures
        m.spec_effective_slot(Some(g), k) == m.spec_effective_slot(None, k),
{
}

/// After a write, the written scope's effective slot holds exactly the
/// written value, so a read of that scope returns it.
pub proof fn lemma_set_then_get(
    m: ConfigManager,
    guild: Option<u64>,
    k: ConfigKeys,
    v: ConfigValue,
)
    requires
        match guild {
            Some(g) => m.spec_guild_slot(g, k) == Some(v),
            None => m.spec_global_slot(k) == Some(v),
        },
    ensures
        m.spec_effective_slot(guild, k) == Some(v),
{
}

/// After a reset, the scope's effective slot holds the entry's default,
/// so a read of that scope returns the default while the persisted row
/// is gone.
pub proof fn lemma_reset_then_get(m: ConfigManager, guild: Option<u64>, k: ConfigKeys)
    requires
        match guild {
            Some(g) => m.spec_guild_slot(g, k) is Some && m.spec_guild_slot(g, k)->Some_0@
                == k.spec_default(),
            None => m.spec_global_slot(k) is Some && m.spec_global_slot(k)->Some_0@
                == k.spec_default(),
        },
    ensures
        m.spec_effective_slot(guild, k) is Some,
        m.spec_effective_slot(guild, k)->Some_0@ == k.spec_default(),
{
}

} // verus!
