//! Account-level progression: tiers grant land pieces, and the summary
//! of the unlocked tiers is the total experience and land they carry.
use vstd::prelude::*;
use crate::advancement::{Advancement, AdvancementSet, AdvancementSum, deref_tiers};
use crate::config::ConfigError;

verus! {

/// What an account-level tier grants: more land.
#[derive(Debug, Clone, PartialEq, Eq, Structural)]
pub enum HacksteadAdvancementKind {
    Land { pieces: u32 },
}

/// Account-level effective stats.
#[derive(Debug, Clone, PartialEq, Eq, Structural)]
pub struct HacksteadAdvancementSum {
    pub land: u32,
    pub xp: u64,
}

pub type HacksteadAdvancement = Advancement<HacksteadAdvancementSum>;

pub type HacksteadAdvancementSet = AdvancementSet<HacksteadAdvancementSum>;

/// The land pieces an account-level tier grants.
pub open spec fn pieces_of(k: HacksteadAdvancementKind) -> u32 {
    match k {
        HacksteadAdvancementKind::Land { pieces } => pieces,
    }
}

/// The mathematical account summary: plain sums, no machine bounds.
pub ghost struct HacksteadSumModel {
    pub land: int,
    pub xp: int,
}

/// Left fold of an account tier sequence: experience and land pieces
/// both accumulate additively.
pub open spec fn hackstead_folded(tiers: Seq<HacksteadAdvancement>) -> HacksteadSumModel
    decreases tiers.len(),
{
    if tiers.len() == 0 {
        HacksteadSumModel { land: 0, xp: 0 }
    } else {
        let front = hackstead_folded(tiers.drop_last());
        HacksteadSumModel {
            land: front.land + pieces_of(tiers.last().kind),
            xp: front.xp + tiers.last().xp,
        }
    }
}

/// Every prefix of the fold stays at or below the whole: both sums only
/// ever grow.
pub proof fn lemma_hackstead_prefix_bound(tiers: Seq<HacksteadAdvancement>, k: int)
    requires
        0 <= k <= tiers.len(),
    ensures
        hackstead_folded(tiers.subrange(0, k)).xp <= hackstead_folded(tiers).xp,
        hackstead_folded(tiers.subrange(0, k)).land <= hackstead_folded(tiers).land,
    decreases tiers.len() - k,
{
    if k == tiers.len() {
        assert(tiers.subrange(0, k) =~= tiers);
    } else {
        lemma_hackstead_prefix_bound(tiers, k + 1);
        assert(tiers.subrange(0, k + 1).drop_last() =~= tiers.subrange(0, k));
        assert(tiers.subrange(0, k + 1).last() == tiers[k]);
    }
}

impl HacksteadAdvancementSum {
    /// Total a tier list if the sums fit the summary's machine
    /// integers: the load-time validation of an account ladder.
    pub fn try_total(tiers: &Vec<&HacksteadAdvancement>) -> (r: Option<HacksteadAdvancementSum>)
        ensures
            match r {
                Some(s) => {
                    &&& s.xp == hackstead_folded(deref_tiers(tiers@)).xp
                    &&& s.land == hackstead_folded(deref_tiers(tiers@)).land
                },
                None => {
                    ||| hackstead_folded(deref_tiers(tiers@)).xp > u64::MAX
                    ||| hackstead_folded(deref_tiers(tiers@)).land > u32::MAX
                },
            },
    {
        let ghost seq_tiers = deref_tiers(tiers@);
        let mut xp: u64 = 0;
        let mut land: u32 = 0;
        let mut i: usize = 0;
        while i < tiers.len()
            invariant
                0 <= i <= tiers.len(),
                xp == hackstead_folded(seq_tiers.subrange(0, i as int)).xp,
                land == hackstead_folded(seq_tiers.subrange(0, i as int)).land,
            decreases tiers.len() - i,
        {
            proof {
                lemma_hackstead_prefix_bound(seq_tiers, i + 1);
                assert(seq_tiers.subrange(0, i + 1).drop_last() =~= seq_tiers.subrange(
                    0,
                    i as int,
                ));
                assert(seq_tiers.subrange(0, i + 1).last() == seq_tiers[i as int]);
                assert(seq_tiers[i as int] == *tiers@[i as int]);
                assert(seq_tiers.subrange(0, seq_tiers.len() as int) =~= seq_tiers);
            }
            let a = tiers[i];
            if a.xp > u64::MAX - xp {
                return None;
            }
            xp = xp + a.xp;
            let pieces = match &a.kind {
                HacksteadAdvancementKind::Land { pieces } => *pieces,
            };
            if pieces > u32::MAX - land {
                return None;
            }
            land = land + pieces;
            i = i + 1;
        }
        proof {
            assert(seq_tiers.subrange(0, seq_tiers.len() as int) =~= seq_tiers);
        }
        Some(HacksteadAdvancementSum { land, xp })
    }
}

impl AdvancementSum for HacksteadAdvancementSum {
    type Kind = HacksteadAdvancementKind;

    type Model = HacksteadSumModel;

    open spec fn model(self) -> HacksteadSumModel {
        HacksteadSumModel { land: self.land as int, xp: self.xp as int }
    }

    /// Aggregation never fails for accounts: no names to resolve.
    open spec fn folded(tiers: Seq<Advancement<Self>>, item_names: Seq<Seq<char>>) -> Result<
        HacksteadSumModel,
        ConfigError,
    > {
        Ok(hackstead_folded(tiers))
    }

    open spec fn fold_fits(tiers: Seq<Advancement<Self>>) -> bool {
        &&& hackstead_folded(tiers).xp <= u64::MAX
        &&& hackstead_folded(tiers).land <= u32::MAX
    }

    /// Every account tier counts toward the account's own stats.
    open spec fn counts_toward_base(a: Advancement<Self>) -> bool {
        true
    }

    fn new(unlocked: &Vec<&Advancement<Self>>, item_names: &Vec<String>) -> (r: Result<
        Self,
        ConfigError,
    >) {
        let ghost tiers = deref_tiers(unlocked@);
        let mut xp: u64 = 0;
        let mut land: u32 = 0;
        let mut i: usize = 0;
        while i < unlocked.len()
            invariant
                0 <= i <= unlocked.len(),
                xp == hackstead_folded(tiers.subrange(0, i as int)).xp,
                land == hackstead_folded(tiers.subrange(0, i as int)).land,
            decreases unlocked.len() - i,
        {
            proof {
                lemma_hackstead_prefix_bound(tiers, i + 1);
                assert(tiers.subrange(0, i + 1).drop_last() =~= tiers.subrange(0, i as int));
                assert(tiers.subrange(0, i + 1).last() == tiers[i as int]);
                assert(tiers[i as int] == *unlocked@[i as int]);
            }
            let a = unlocked[i];
            xp = xp + a.xp;
            let pieces = match &a.kind {
                HacksteadAdvancementKind::Land { pieces } => *pieces,
            };
            land = land + pieces;
            i = i + 1;
        }
        proof {
            assert(tiers.subrange(0, tiers.len() as int) =~= tiers);
        }
        Ok(HacksteadAdvancementSum { land, xp })
    }

    fn filter_base(a: &Advancement<Self>) -> (r: bool) {
        true
    }
}

} // verus!
