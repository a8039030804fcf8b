use vstd::prelude::*;

verus! {

/// The closed set of permission flags.
///
/// The declaration order fixes each flag's bit position in the persisted
/// integer, so the list is append-only: a retired flag is replaced by a
/// dummy entry rather than removed, and new flags go at the end.
#[derive(Copy, Clone, Debug, PartialEq, Eq, Hash, Structural)]
pub enum BotPermission {
    // Bypass permissions
    BotAdmin,
    GuildAdmin,
    // Global permissions
    ManageBot,
    ManageGlobalSetings,
    ManageVerification,
    // Guild permissions
    BypassHierarchy,
    ManageGuildSettings,
    ManageRoles,
    // Command permissions
    Unverify,
    UnverifyOther,
    Whois,
    Whowas,
    // Logging permissions
    LogAllVerifications,
}

/// Number of flags currently declared; bits at or above this index are unused.
pub const PERM_COUNT: u64 = 13;

/// Mask with one bit set for every declared flag.
pub const PERM_MASK: u64 = 0x1FFF;

/// The persisted bit position of a flag: its index in declaration order.
pub open spec fn bit_index(p: BotPermission) -> u64 {
    match p {
        BotPermission::BotAdmin => 0,
        BotPermission::GuildAdmin => 1,
        BotPermission::ManageBot => 2,
        BotPermission::ManageGlobalSetings => 3,
        BotPermission::ManageVerification => 4,
        BotPermission::BypassHierarchy => 5,
        BotPermission::ManageGuildSettings => 6,
        BotPermission::ManageRoles => 7,
        BotPermission::Unverify => 8,
        BotPermission::UnverifyOther => 9,
        BotPermission::Whois => 10,
        BotPermission::Whowas => 11,
        BotPermission::LogAllVerifications => 12,
    }
}

pub proof fn lemma_bit_index_bound(p: BotPermission)
    ensures
        bit_index(p) < PERM_COUNT,
{
}

/// A set of permission flags, persisted as a single integer whose bit `i`
/// records the flag with `bit_index` `i`.
#[derive(Copy, Clone, Debug, PartialEq, Eq, Structural)]
pub struct PermSet {
    pub bits: u64,
}

impl PermSet {
    /// Only bits of declared flags are ever set.
    pub open spec fn wf(self) -> bool {
        self.bits & !PERM_MASK == 0
    }

    /// Membership of one flag, read straight off the persisted bits.
    pub open spec fn has(self, p: BotPermission) -> bool {
        self.bits & (1u64 << bit_index(p)) != 0
    }

    pub open spec fn spec_subset_of(self, other: PermSet) -> bool {
        forall|p: BotPermission| self.has(p) ==> other.has(p)
    }

    pub fn empty() -> (r: PermSet)
        ensures
            r.wf(),
            forall|p: BotPermission| !r.has(p),
            r == (PermSet { bits: 0u64 }),
    {
        let r = PermSet { bits: 0 };
        proof {
            assert forall|p: BotPermission| !r.has(p) by {
                let i = bit_index(p);
                assert(0u64 & (1u64 << i) == 0) by (bit_vector);
            }
            assert(0u64 & !PERM_MASK == 0) by (bit_vector);
        }
        r
    }

    fn index_of(p: BotPermission) -> (i: u64)
        ensures
            i == bit_index(p),
    {
        match p {
            BotPermission::BotAdmin => 0,
            BotPermission::GuildAdmin => 1,
            BotPermission::ManageBot => 2,
            BotPermission::ManageGlobalSetings => 3,
            BotPermission::ManageVerification => 4,
            BotPermission::BypassHierarchy => 5,
            BotPermission::ManageGuildSettings => 6,
            BotPermission::ManageRoles => 7,
            BotPermission::Unverify => 8,
            BotPermission::UnverifyOther => 9,
            BotPermission::Whois => 10,
            BotPermission::Whowas => 11,
            BotPermission::LogAllVerifications => 12,
        }
    }

    pub fn insert(self, p: BotPermission) -> (r: PermSet)
        requires
            self.wf(),
        ensures
            r.wf(),
            forall|q: BotPermission| r.has(q) <==> self.has(q) || q == p,
    {
        let i = PermSet::index_of(p);
        let r = PermSet { bits: self.bits | (1u64 << i) };
        proof {
            assert forall|q: BotPermission| r.has(q) <==> self.has(q) || q == p by {
                let j = bit_index(q);
                lemma_bit_index_bound(q);
                lemma_or_bit(self.bits, 1u64 << i, j);
                lemma_single_bit(i, j);
                lemma_bit_index_inj(p, q);
            }
            let a = self.bits;
            assert(a & !0x1FFFu64 == 0 && i < 13 ==> (a | (1u64 << i)) & !0x1FFFu64 == 0)
                by (bit_vector);
        }
        r
    }

    pub fn contains(self, p: BotPermission) -> (r: bool)
        ensures
            r == self.has(p),
    {
        let i = PermSet::index_of(p);
        proof {
            lemma_bit_index_bound(p);
        }
        self.bits & (1u64 << i) != 0
    }

    pub fn union(self, other: PermSet) -> (r: PermSet)
        requires
            self.wf(),
            other.wf(),
        ensures
            r.wf(),
            forall|p: BotPermission| r.has(p) <==> self.has(p) || other.has(p),
    {
        let r = PermSet { bits: self.bits | other.bits };
        proof {
            assert forall|p: BotPermission| r.has(p) <==> self.has(p) || other.has(p) by {
                lemma_or_bit(self.bits, other.bits, bit_index(p));
                lemma_bit_index_bound(p);
            }
            let a = self.bits;
            let b = other.bits;
            assert(a & !0x1FFFu64 == 0 && b & !0x1FFFu64 == 0 ==> (a | b) & !0x1FFFu64 == 0)
                by (bit_vector);
        }
        r
    }

    pub fn intersect(self, other: PermSet) -> (r: PermSet)
        requires
            self.wf(),
            other.wf(),
        ensures
            r.wf(),
            forall|p: BotPermission| r.has(p) <==> self.has(p) && other.has(p),
    {
        let r = PermSet { bits: self.bits & other.bits };
        proof {
            assert forall|p: BotPermission| r.has(p) <==> self.has(p) && other.has(p) by {
                lemma_and_bit(self.bits, other.bits, bit_index(p));
                lemma_bit_index_bound(p);
            }
            let a = self.bits;
            let b = other.bits;
            assert(a & !0x1FFFu64 == 0 ==> (a & b) & !0x1FFFu64 == 0) by (bit_vector);
        }
        r
    }

    /// Set difference: the flags of `self` that `other` lacks.
    pub fn difference(self, other: PermSet) -> (r: PermSet)
        requires
            self.wf(),
            other.wf(),
        ensures
            r.wf(),
            forall|p: BotPermission| r.has(p) <==> self.has(p) && !other.has(p),
    {
        let r = PermSet { bits: self.bits & !other.bits };
        proof {
            assert forall|p: BotPermission| r.has(p) <==> self.has(p) && !other.has(p) by {
                lemma_andnot_bit(self.bits, other.bits, bit_index(p));
                lemma_bit_index_bound(p);
            }
            let a = self.bits;
            let b = other.bits;
            assert(a & !0x1FFFu64 == 0 ==> (a & !b) & !0x1FFFu64 == 0) by (bit_vector);
        }
        r
    }

    /// Complement within the declared flags: every flag `self` lacks.
    pub fn complement(self) -> (r: PermSet)
        requires
            self.wf(),
        ensures
            r.wf(),
            forall|p: BotPermission| r.has(p) <==> !self.has(p),
    {
        let r = PermSet { bits: PERM_MASK & !self.bits };
        proof {
            assert forall|p: BotPermission| r.has(p) <==> !self.has(p) by {
                let i = bit_index(p);
                lemma_bit_index_bound(p);
                let b = self.bits;
                assert(i < 13 ==> ((0x1FFFu64 & !b) & (1u64 << i) != 0 <==> b & (1u64 << i)
                    == 0)) by (bit_vector);
            }
            let b = self.bits;
            assert((0x1FFFu64 & !b) & !0x1FFFu64 == 0) by (bit_vector);
        }
        r
    }

    /// The persisted representation.
    pub fn to_bits(self) -> (r: u64)
        ensures
            r == self.bits,
    {
        self.bits
    }

    /// Decode a persisted integer, ignoring bits of undeclared flags.
    pub fn from_bits(bits: u64) -> (r: PermSet)
        ensures
            r.wf(),
            forall|p: BotPermission| r.has(p) <==> bits & (1u64 << bit_index(p)) != 0,
    {
        let r = PermSet { bits: bits & PERM_MASK };
        proof {
            assert forall|p: BotPermission| r.has(p) <==> bits & (1u64 << bit_index(p)) != 0 by {
                let i = bit_index(p);
                lemma_bit_index_bound(p);
                assert(i < 13 ==> ((bits & 0x1FFFu64) & (1u64 << i) != 0 <==> bits & (1u64 << i)
                    != 0)) by (bit_vector);
            }
            assert((bits & 0x1FFFu64) & !0x1FFFu64 == 0) by (bit_vector);
        }
        r
    }

    /// Two well-formed sets with the same members are the same value, so the
    /// persisted integer is determined by the members alone.
    pub proof fn lemma_ext_equal(self, other: PermSet)
        requires
            self.wf(),
            other.wf(),
            forall|p: BotPermission| self.has(p) <==> other.has(p),
        ensures
            self == other,
    {
        let a = self.bits;
        let b = other.bits;
        assert forall|i: u64| i < 13 implies (a & (1u64 << i) != 0 <==> b & (1u64 << i) != 0) by {
            let p = perm_at(i);
            assert(bit_index(p) == i);
            assert(self.has(p) <==> other.has(p));
        }
        assert(a & (1u64 << 0u64) != 0 <==> b & (1u64 << 0u64) != 0);
        assert(a & (1u64 << 1u64) != 0 <==> b & (1u64 << 1u64) != 0);
        assert(a & (1u64 << 2u64) != 0 <==> b & (1u64 << 2u64) != 0);
        assert(a & (1u64 << 3u64) != 0 <==> b & (1u64 << 3u64) != 0);
        assert(a & (1u64 << 4u64) != 0 <==> b & (1u64 << 4u64) != 0);
        assert(a & (1u64 << 5u64) != 0 <==> b & (1u64 << 5u64) != 0);
        assert(a & (1u64 << 6u64) != 0 <==> b & (1u64 << 6u64) != 0);
        assert(a & (1u64 << 7u64) != 0 <==> b & (1u64 << 7u64) != 0);
        assert(a & (1u64 << 8u64) != 0 <==> b & (1u64 << 8u64) != 0);
        assert(a & (1u64 << 9u64) != 0 <==> b & (1u64 << 9u64) != 0);
        assert(a & (1u64 << 10u64) != 0 <==> b & (1u64 << 10u64) != 0);
        assert(a & (1u64 << 11u64) != 0 <==> b & (1u64 << 11u64) != 0);
        assert(a & (1u64 << 12u64) != 0 <==> b & (1u64 << 12u64) != 0);
        assert(a & !0x1FFFu64 == 0 && b & !0x1FFFu64 == 0
            && (a & (1u64 << 0u64) != 0 <==> b & (1u64 << 0u64) != 0)
            && (a & (1u64 << 1u64) != 0 <==> b & (1u64 << 1u64) != 0)
            && (a & (1u64 << 2u64) != 0 <==> b & (1u64 << 2u64) != 0)
            && (a & (1u64 << 3u64) != 0 <==> b & (1u64 << 3u64) != 0)
            && (a & (1u64 << 4u64) != 0 <==> b & (1u64 << 4u64) != 0)
            && (a & (1u64 << 5u64) != 0 <==> b & (1u64 << 5u64) != 0)
            && (a & (1u64 << 6u64) != 0 <==> b & (1u64 << 6u64) != 0)
            && (a & (1u64 << 7u64) != 0 <==> b & (1u64 << 7u64) != 0)
            && (a & (1u64 << 8u64) != 0 <==> b & (1u64 << 8u64) != 0)
            && (a & (1u64 << 9u64) != 0 <==> b & (1u64 << 9u64) != 0)
            && (a & (1u64 << 10u64) != 0 <==> b & (1u64 << 10u64) != 0)
            && (a & (1u64 << 11u64) != 0 <==> b & (1u64 << 11u64) != 0)
            && (a & (1u64 << 12u64) != 0 <==> b & (1u64 << 12u64) != 0) ==> a == b)
            by (bit_vector);
    }
}

/// The flag at a given bit position, inverse of `bit_index`.
pub open spec fn perm_at(i: u64) -> BotPermission {
    if i == 0 {
        BotPermission::BotAdmin
    } else if i == 1 {
        BotPermission::GuildAdmin
    } else if i == 2 {
        BotPermission::ManageBot
    } else if i == 3 {
        BotPermission::ManageGlobalSetings
    } else if i == 4 {
        BotPermission::ManageVerification
    } else if i == 5 {
        BotPermission::BypassHierarchy
    } else if i == 6 {
        BotPermission::ManageGuildSettings
    } else if i == 7 {
        BotPermission::ManageRoles
    } else if i == 8 {
        BotPermission::Unverify
    } else if i == 9 {
        BotPermission::UnverifyOther
    } else if i == 10 {
        BotPermission::Whois
    } else if i == 11 {
        BotPermission::Whowas
    } else {
        BotPermission::LogAllVerifications
    }
}

/// Distinct flags sit at distinct bit positions.
pub proof fn lemma_bit_index_inj(p: BotPermission, q: BotPermission)
    ensures
        bit_index(p) == bit_index(q) ==> p == q,
{
}

proof fn lemma_or_bit(a: u64, b: u64, i: u64)
    requires
        i < 64,
    ensures
        (a | b) & (1u64 << i) != 0 <==> a & (1u64 << i) != 0 || b & (1u64 << i) != 0,
{
    assert(i < 64 ==> ((a | b) & (1u64 << i) != 0 <==> a & (1u64 << i) != 0 || b & (1u64 << i)
        != 0)) by (bit_vector);
}

proof fn lemma_and_bit(a: u64, b: u64, i: u64)
    requires
        i < 64,
    ensures
        (a & b) & (1u64 << i) != 0 <==> a & (1u64 << i) != 0 && b & (1u64 << i) != 0,
{
    assert(i < 64 ==> ((a & b) & (1u64 << i) != 0 <==> a & (1u64 << i) != 0 && b & (1u64 << i)
        != 0)) by (bit_vector);
}

proof fn lemma_andnot_bit(a: u64, b: u64, i: u64)
    requires
        i < 64,
    ensures
        (a & !b) & (1u64 << i) != 0 <==> a & (1u64 << i) != 0 && b & (1u64 << i) == 0,
{
    assert(i < 64 ==> ((a & !b) & (1u64 << i) != 0 <==> a & (1u64 << i) != 0 && b & (1u64 << i)
        == 0)) by (bit_vector);
}

proof fn lemma_single_bit(i: u64, j: u64)
    requires
        i < 64,
        j < 64,
    ensures
        (1u64 << i) & (1u64 << j) != 0 <==> i == j,
{
    assert(i < 64 && j < 64 ==> ((1u64 << i) & (1u64 << j) != 0 <==> i == j)) by (bit_vector);
}

} // verus!
