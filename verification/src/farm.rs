//! The tick scheduler's core: which accounts are active, how many
//! simulation cycles are owed since the checkpoint, the exactly-once
//! advancement of every active entity's progression state for those
//! cycles, and the checkpoint protocol that makes a crash unable to
//! double-apply or silently skip a cycle. All state mutation here is a
//! pure re-derivation from stored experience — never a replayed diff —
//! so resubmitting a failed batch is safe.
use vstd::prelude::*;
use crate::advancement::{deref_tiers, lemma_reached_prefix_facts, lemma_reached_prefix_monotone};
use crate::config::Config;
use crate::hackstead::{
    HacksteadAdvancementKind, HacksteadAdvancementSum, hackstead_folded,
    lemma_hackstead_prefix_bound, pieces_of,
};

verus! {

/// How long one simulation cycle lasts.
pub const FARM_CYCLE_MILLIS: u64 = 15 * 1000;

/// How long an account stays active after its last interaction.
pub const ACTIVE_DURATION_MILLIS: u64 = 5 * 60 * 1000;

/// Per-account progression state: cumulative experience, monotonically
/// non-decreasing, and the moment of the last qualifying interaction
/// (milliseconds since the Unix epoch).
#[derive(Debug, Clone, Copy, PartialEq, Eq, Structural)]
pub struct Profile {
    pub xp: u64,
    pub last_active: u64,
}

/// Per-tile plant state: the species handle and cumulative experience.
#[derive(Debug, Clone, Copy, PartialEq, Eq, Structural)]
pub struct Plant {
    pub archetype_handle: usize,
    pub xp: u64,
}

/// A tile holding a plant, owned by the account at index `steader` of
/// the tick's profile list.
#[derive(Debug, Clone, Copy, PartialEq, Eq, Structural)]
pub struct PlantedTile {
    pub steader: usize,
    pub plant: Plant,
}

/// A queued tier-crossing notification: the new tier's display fields,
/// and, for account-level crossings, the land summary at the moment of
/// the crossing. Delivery is best-effort and outside the consistency
/// boundary; this type only records what is owed.
#[derive(Debug, Clone, PartialEq)]
pub enum Notification {
    Hackstead {
        steader: usize,
        title: String,
        description: String,
        achiever_title: String,
        tier_xp: u64,
        land: u32,
        land_gained: u32,
    },
    Plant {
        steader: usize,
        tile: usize,
        plant_name: String,
        title: String,
        description: String,
        achiever_title: String,
        tier_xp: u64,
    },
}

/// How many of the first tiles of `tiles` the account at `j` owns.
pub open spec fn count_tiles_of(tiles: Seq<PlantedTile>, j: int) -> int
    decreases tiles.len(),
{
    if tiles.len() == 0 {
        0
    } else {
        count_tiles_of(tiles.drop_last(), j) + if tiles.last().steader == j {
            1int
        } else {
            0int
        }
    }
}

/// Tile counts are non-negative.
pub proof fn lemma_count_tiles_nonneg(tiles: Seq<PlantedTile>, j: int)
    ensures
        count_tiles_of(tiles, j) >= 0,
    decreases tiles.len(),
{
    if tiles.len() > 0 {
        lemma_count_tiles_nonneg(tiles.drop_last(), j);
    }
}

/// One more tile counts exactly when its owner matches.
pub proof fn lemma_count_tiles_step(tiles: Seq<PlantedTile>, k: int, j: int)
    requires
        0 <= k < tiles.len(),
    ensures
        count_tiles_of(tiles.subrange(0, k + 1), j) == count_tiles_of(tiles.subrange(0, k), j) + (
        if tiles[k].steader == j {
            1int
        } else {
            0int
        }),
{
    assert(tiles.subrange(0, k + 1).drop_last() =~= tiles.subrange(0, k));
    assert(tiles.subrange(0, k + 1).last() == tiles[k]);
}

/// A prefix's tile count never exceeds the whole's.
pub proof fn lemma_count_tiles_prefix(tiles: Seq<PlantedTile>, k: int, j: int)
    requires
        0 <= k <= tiles.len(),
    ensures
        count_tiles_of(tiles.subrange(0, k), j) <= count_tiles_of(tiles, j),
    decreases tiles.len() - k,
{
    if k == tiles.len() {
        assert(tiles.subrange(0, k) =~= tiles);
    } else {
        lemma_count_tiles_step(tiles, k, j);
        lemma_count_tiles_prefix(tiles, k + 1, j);
    }
}

/// The account-level notification for crossing to ladder position `p`:
/// the tier's display fields, the land total the account already had,
/// and the pieces the new tier grants.
pub open spec fn account_note(config: Config, steader: int, p: int) -> Notification {
    let ladder = config.profile_archetype.advancements;
    let tier = ladder.all_tiers()[p];
    Notification::Hackstead {
        steader: steader as usize,
        title: tier.title,
        description: tier.description,
        achiever_title: tier.achiever_title,
        tier_xp: tier.xp,
        land: hackstead_folded(ladder.all_tiers().subrange(0, p)).land as u32,
        land_gained: pieces_of(tier.kind),
    }
}

/// The account-level notifications for the crossings past position
/// `p0`, up to and including `p1`.
pub open spec fn account_notes(config: Config, steader: int, p0: int, p1: int) -> Seq<
    Notification,
> {
    Seq::new((p1 - p0) as nat, |k: int| account_note(config, steader, p0 + 1 + k))
}

/// The plant-level notification for tile `tile` crossing to position
/// `p` of its species' ladder.
pub open spec fn plant_note(config: Config, steader: int, tile: int, handle: int, p: int) -> Notification {
    let arch = config.plant_archetypes@[handle];
    let tier = arch.advancements.all_tiers()[p];
    Notification::Plant {
        steader: steader as usize,
        tile: tile as usize,
        plant_name: arch.name,
        title: tier.title,
        description: tier.description,
        achiever_title: tier.achiever_title,
        tier_xp: tier.xp,
    }
}

/// The plant-level notifications for the crossings past position `p0`,
/// up to and including `p1`.
pub open spec fn plant_notes(
    config: Config,
    steader: int,
    tile: int,
    handle: int,
    p0: int,
    p1: int,
) -> Seq<Notification> {
    Seq::new((p1 - p0) as nat, |k: int| plant_note(config, steader, tile, handle, p0 + 1 + k))
}

/// The owner's experience when the tick reaches tile `i`: the stored
/// experience plus one step per elapsed cycle for each of the owner's
/// earlier tiles — cycles are applied strictly in order per entity.
pub open spec fn owner_xp_before(
    profiles: Seq<Profile>,
    tiles: Seq<PlantedTile>,
    i: int,
    elapsed: u64,
) -> int {
    profiles[tiles[i].steader as int].xp + elapsed * count_tiles_of(
        tiles.subrange(0, i),
        tiles[i].steader as int,
    )
}

/// The notifications tile `i` queues: the owner's account crossings,
/// then the plant's own crossings.
pub open spec fn tile_notes(
    config: Config,
    profiles: Seq<Profile>,
    tiles: Seq<PlantedTile>,
    i: int,
    elapsed: u64,
) -> Seq<Notification> {
    let t = tiles[i];
    let xb = owner_xp_before(profiles, tiles, i, elapsed);
    let aladder = config.profile_archetype.advancements;
    let pladder = config.plant_archetypes@[t.plant.archetype_handle as int].advancements;
    account_notes(
        config,
        t.steader as int,
        aladder.position_spec(xb as u64),
        aladder.position_spec((xb + elapsed) as u64),
    ) + plant_notes(
        config,
        t.steader as int,
        i,
        t.plant.archetype_handle as int,
        pladder.position_spec(t.plant.xp),
        pladder.position_spec((t.plant.xp + elapsed) as u64),
    )
}

/// Every notification the first `k` tiles queue, in order.
pub open spec fn tick_notes(
    config: Config,
    profiles: Seq<Profile>,
    tiles: Seq<PlantedTile>,
    elapsed: u64,
    k: int,
) -> Seq<Notification>
    decreases k,
{
    if k <= 0 {
        Seq::empty()
    } else {
        tick_notes(config, profiles, tiles, elapsed, k - 1) + tile_notes(
            config,
            profiles,
            tiles,
            k - 1,
            elapsed,
        )
    }
}

/// What a tick needs of its inputs: a loadable catalog, every tile
/// owned by a listed account and planted with a cataloged species, and
/// enough headroom that no experience counter overflows.
pub open spec fn tick_pre(
    config: Config,
    profiles: Seq<Profile>,
    tiles: Seq<PlantedTile>,
    elapsed: u64,
) -> bool {
    &&& config.catalog_wf()
    &&& forall|m: int| 0 <= m < tiles.len() ==> (#[trigger] tiles[m]).steader < profiles.len()
    &&& forall|m: int|
        0 <= m < tiles.len() ==> (#[trigger] tiles[m]).plant.archetype_handle
            < config.plant_archetypes@.len()
    &&& forall|m: int|
        0 <= m < tiles.len() ==> (#[trigger] tiles[m]).plant.xp + elapsed <= u64::MAX
    &&& forall|j: int|
        0 <= j < profiles.len() ==> (#[trigger] profiles[j]).xp + elapsed * count_tiles_of(
            tiles,
            j,
        ) <= u64::MAX
}

/// Apply `elapsed` simulation cycles to every planted tile: each cycle
/// steps the owning account's and the plant's experience by one, and
/// every tier boundary crossed queues a notification with the new
/// tier's display fields. State is recomputed from stored experience,
/// so the tick is a pure function of its inputs: re-running it from the
/// same inputs reproduces the same mutations and notifications.
pub fn run_tick(
    config: &Config,
    profiles: &mut Vec<Profile>,
    tiles: &mut Vec<PlantedTile>,
    elapsed: u64,
) -> (notes: Vec<Notification>)
    requires
        tick_pre(*config, old(profiles)@, old(tiles)@, elapsed),
    ensures
        final(profiles)@.len() == old(profiles)@.len(),
        forall|j: int|
            0 <= j < old(profiles)@.len() ==> final(profiles)@[j] == (Profile {
                xp: (old(profiles)@[j].xp + elapsed * count_tiles_of(old(tiles)@, j)) as u64,
                last_active: old(profiles)@[j].last_active,
            }),
        final(tiles)@.len() == old(tiles)@.len(),
        forall|m: int|
            0 <= m < old(tiles)@.len() ==> final(tiles)@[m] == (PlantedTile {
                steader: old(tiles)@[m].steader,
                plant: Plant {
                    archetype_handle: old(tiles)@[m].plant.archetype_handle,
                    xp: (old(tiles)@[m].plant.xp + elapsed) as u64,
                },
            }),
        notes@ == tick_notes(*config, old(profiles)@, old(tiles)@, elapsed, old(tiles)@.len() as int),
{
    let ghost profiles0 = profiles@;
    let ghost tiles0 = tiles@;
    let mut notes: Vec<Notification> = Vec::new();
    let mut i: usize = 0;
    while i < tiles.len()
        invariant
            0 <= i <= tiles0.len(),
            tiles@.len() == tiles0.len(),
            profiles@.len() == profiles0.len(),
            forall|m: int| i <= m < tiles0.len() ==> tiles@[m] == tiles0[m],
            forall|m: int|
                0 <= m < i ==> tiles@[m] == (PlantedTile {
                    steader: tiles0[m].steader,
                    plant: Plant {
                        archetype_handle: tiles0[m].plant.archetype_handle,
                        xp: (tiles0[m].plant.xp + elapsed) as u64,
                    },
                }),
            forall|j: int|
                0 <= j < profiles0.len() ==> profiles@[j] == (Profile {
                    xp: (profiles0[j].xp + elapsed * count_tiles_of(
                        tiles0.subrange(0, i as int),
                        j,
                    )) as u64,
                    last_active: profiles0[j].last_active,
                }),
            notes@ == tick_notes(*config, profiles0, tiles0, elapsed, i as int),
        decreases tiles0.len() - i,
    {
        let t = tiles[i];
        let s = t.steader;
        proof {
            assert(tiles@[i as int] == tiles0[i as int]);
            lemma_count_tiles_nonneg(tiles0.subrange(0, i as int), s as int);
            lemma_count_tiles_nonneg(tiles0, s as int);
            lemma_count_tiles_step(tiles0, i as int, s as int);
            lemma_count_tiles_prefix(tiles0, i as int, s as int);
            lemma_count_tiles_prefix(tiles0, i + 1, s as int);
            let csub = count_tiles_of(tiles0.subrange(0, i as int), s as int);
            let cnext = count_tiles_of(tiles0.subrange(0, i + 1), s as int);
            let cwhole = count_tiles_of(tiles0, s as int);
            assert(elapsed * (csub + 1) == elapsed * csub + elapsed) by (nonlinear_arith);
            assert((0 <= csub <= cnext <= cwhole) ==> (0 <= elapsed * csub <= elapsed * cnext
                <= elapsed * cwhole)) by (nonlinear_arith);
        }
        let ghost xb = owner_xp_before(profiles0, tiles0, i as int, elapsed);
        let la = profiles[s].last_active;
        let mut pxp = profiles[s].xp;
        proof {
            assert(pxp == xb);
        }
        let aladder = &config.profile_archetype.advancements;
        let ghost pa0 = aladder.position_spec(pxp);
        let unl = aladder.unlocked(pxp);
        let mut land: u32 = match HacksteadAdvancementSum::try_total(&unl) {
            Some(sm) => sm.land,
            None => {
                proof {
                    lemma_reached_prefix_facts::<HacksteadAdvancementSum>(aladder.rest@, pxp);
                    lemma_hackstead_prefix_bound(aladder.all_tiers(), pa0 + 1);
                }
                0
            },
        };
        let ghost xp_before = pxp;
        let crossed_a = aladder.advance_xp(&mut pxp, elapsed);
        profiles[s] = Profile { xp: pxp, last_active: la };
        let ghost pa1 = aladder.position_spec(pxp);
        proof {
            lemma_reached_prefix_monotone::<HacksteadAdvancementSum>(aladder.rest@, xp_before, pxp);
            lemma_reached_prefix_facts::<HacksteadAdvancementSum>(aladder.rest@, xp_before);
            lemma_reached_prefix_facts::<HacksteadAdvancementSum>(aladder.rest@, pxp);
            assert(deref_tiers(crossed_a@).len() == crossed_a@.len());
            assert(aladder.all_tiers().subrange(pa0 + 1, pa1 + 1).len() == pa1 - pa0);
        }
        let ghost base_notes = notes@;
        let mut k: usize = 0;
        proof {
            assert(base_notes + account_notes(*config, s as int, pa0, pa0) =~= base_notes);
        }
        while k < crossed_a.len()
            invariant
                0 <= k <= crossed_a.len(),
                crossed_a@.len() == pa1 - pa0,
                notes@ == base_notes + account_notes(*config, s as int, pa0, pa0 + k as int),
                land == hackstead_folded(
                    aladder.all_tiers().subrange(0, pa0 + 1 + k),
                ).land,
            decreases crossed_a.len() - k,
        {
            proof {
                assert(*crossed_a@[k as int] == aladder.all_tiers().subrange(pa0 + 1, pa1 + 1)[
                    k as int]);
                assert(*crossed_a@[k as int] == aladder.all_tiers()[pa0 + 1 + k]);
            }
            let c = crossed_a[k];
            let pieces = match &c.kind {
                HacksteadAdvancementKind::Land { pieces } => *pieces,
            };
            notes.push(
                Notification::Hackstead {
                    steader: s,
                    title: c.title.clone(),
                    description: c.description.clone(),
                    achiever_title: c.achiever_title.clone(),
                    tier_xp: c.xp,
                    land,
                    land_gained: pieces,
                },
            );
            proof {
                assert(notes@.last() == account_note(*config, s as int, pa0 + 1 + k));
                assert(notes@ =~= base_notes + account_notes(
                    *config,
                    s as int,
                    pa0,
                    pa0 + k + 1,
                ));
                let sub_next = aladder.all_tiers().subrange(0, pa0 + 2 + k);
                assert(sub_next.drop_last() =~= aladder.all_tiers().subrange(0, pa0 + 1 + k));
                assert(sub_next.last() == aladder.all_tiers()[pa0 + 1 + k]);
                lemma_hackstead_prefix_bound(aladder.all_tiers(), pa0 + 2 + k);
            }
            land = land + pieces;
            k = k + 1;
        }
        let plant_arch = &config.plant_archetypes[t.plant.archetype_handle];
        let pladder = &plant_arch.advancements;
        let mut plxp = t.plant.xp;
        let ghost pp0 = pladder.position_spec(plxp);
        let crossed_p = pladder.advance_xp(&mut plxp, elapsed);
        proof {
            lemma_reached_prefix_monotone::<crate::plant::PlantAdvancementSum>(
                pladder.rest@,
                t.plant.xp,
                plxp,
            );
            lemma_reached_prefix_facts::<crate::plant::PlantAdvancementSum>(
                pladder.rest@,
                t.plant.xp,
            );
            lemma_reached_prefix_facts::<crate::plant::PlantAdvancementSum>(pladder.rest@, plxp);
            assert(deref_tiers(crossed_p@).len() == crossed_p@.len());
            assert(pladder.all_tiers().subrange(
                pladder.position_spec(t.plant.xp) + 1,
                pladder.position_spec(plxp) + 1,
            ).len() == pladder.position_spec(plxp) - pladder.position_spec(t.plant.xp));
        }
        tiles[i] = PlantedTile {
            steader: s,
            plant: Plant { archetype_handle: t.plant.archetype_handle, xp: plxp },
        };
        let ghost pp1 = pladder.position_spec(plxp);
        let ghost base2 = notes@;
        let mut k2: usize = 0;
        proof {
            assert(base2 + plant_notes(
                *config,
                s as int,
                i as int,
                t.plant.archetype_handle as int,
                pp0,
                pp0,
            ) =~= base2);
        }
        while k2 < crossed_p.len()
            invariant
                0 <= k2 <= crossed_p.len(),
                crossed_p@.len() == pp1 - pp0,
                notes@ == base2 + plant_notes(
                    *config,
                    s as int,
                    i as int,
                    t.plant.archetype_handle as int,
                    pp0,
                    pp0 + k2 as int,
                ),
            decreases crossed_p.len() - k2,
        {
            proof {
                assert(*crossed_p@[k2 as int] == pladder.all_tiers().subrange(pp0 + 1, pp1 + 1)[
                    k2 as int]);
                assert(*crossed_p@[k2 as int] == pladder.all_tiers()[pp0 + 1 + k2]);
            }
            let c = crossed_p[k2];
            notes.push(
                Notification::Plant {
                    steader: s,
                    tile: i,
                    plant_name: plant_arch.name.clone(),
                    title: c.title.clone(),
                    description: c.description.clone(),
                    achiever_title: c.achiever_title.clone(),
                    tier_xp: c.xp,
                },
            );
            proof {
                assert(notes@.last() == plant_note(
                    *config,
                    s as int,
                    i as int,
                    t.plant.archetype_handle as int,
                    pp0 + 1 + k2,
                ));
                assert(notes@ =~= base2 + plant_notes(
                    *config,
                    s as int,
                    i as int,
                    t.plant.archetype_handle as int,
                    pp0,
                    pp0 + k2 + 1,
                ));
            }
            k2 = k2 + 1;
        }
        proof {
            assert(tile_notes(*config, profiles0, tiles0, i as int, elapsed) == account_notes(
                *config,
                s as int,
                pa0,
                pa1,
            ) + plant_notes(
                *config,
                s as int,
                i as int,
                t.plant.archetype_handle as int,
                pp0,
                pp1,
            ));
            assert(notes@ =~= tick_notes(*config, profiles0, tiles0, elapsed, i + 1));
            assert forall|j: int|
                0 <= j < profiles0.len() implies profiles@[j] == (Profile {
                xp: (profiles0[j].xp + elapsed * count_tiles_of(
                    tiles0.subrange(0, i + 1),
                    j,
                )) as u64,
                last_active: profiles0[j].last_active,
            }) by {
                lemma_count_tiles_step(tiles0, i as int, j);
            }
        }
        i = i + 1;
    }
    proof {
        assert(tiles0.subrange(0, tiles0.len() as int) =~= tiles0);
    }
    notes
}

/// Number of whole simulation cycles owed since the checkpoint: zero
/// when the tick fired early, more than one when catching up after
/// downtime.
pub open spec fn elapsed_cycles_spec(now: u64, checkpoint: u64, cycle_ms: u64) -> int {
    if now <= checkpoint {
        0
    } else {
        ((now - checkpoint) as int) / (cycle_ms as int)
    }
}

/// Compute the cycles owed since the checkpoint.
pub fn compute_elapsed(now: u64, checkpoint: u64, cycle_ms: u64) -> (r: u64)
    requires
        cycle_ms > 0,
    ensures
        r == elapsed_cycles_spec(now, checkpoint, cycle_ms),
{
    if now <= checkpoint {
        0
    } else {
        (now - checkpoint) / cycle_ms
    }
}

/// The checkpoint after a tick: advanced by exactly the applied cycles
/// when the write batch succeeded, untouched when it failed.
pub open spec fn checkpoint_after(checkpoint: u64, elapsed: u64, cycle_ms: u64, write_ok: bool) -> int {
    if write_ok {
        checkpoint + elapsed * cycle_ms
    } else {
        checkpoint as int
    }
}

/// Advance the checkpoint only after the write batch succeeded: a
/// failed batch leaves it alone, so the next tick recomputes the same
/// cycles and resubmits the same mutations.
pub fn advance_checkpoint(checkpoint: u64, elapsed: u64, cycle_ms: u64, write_ok: bool) -> (r: u64)
    requires
        checkpoint + elapsed * cycle_ms <= u64::MAX,
    ensures
        r == checkpoint_after(checkpoint, elapsed, cycle_ms, write_ok),
{
    if write_ok {
        checkpoint + elapsed * cycle_ms
    } else {
        checkpoint
    }
}

/// Law: scheduler idempotence. A failed write leaves the checkpoint in
/// place, so a retry at the same wall-clock reading owes exactly the
/// same number of cycles — and the tick being a pure function of the
/// stored state and that count, it recomputes identical mutated
/// profiles and tiles and identical notifications: a crash between the
/// write and the checkpoint can neither double-apply nor skip a cycle.
pub proof fn lemma_retry_after_failed_write(
    config: Config,
    profiles: Seq<Profile>,
    tiles: Seq<PlantedTile>,
    now: u64,
    checkpoint: u64,
    cycle_ms: u64,
)
    requires
        cycle_ms > 0,
    ensures
        ({
            let first = elapsed_cycles_spec(now, checkpoint, cycle_ms);
            let unmoved = checkpoint_after(checkpoint, first as u64, cycle_ms, false);
            let retry = elapsed_cycles_spec(now, unmoved as u64, cycle_ms);
            &&& unmoved == checkpoint
            &&& retry == first
            &&& tick_notes(config, profiles, tiles, retry as u64, tiles.len() as int)
                == tick_notes(config, profiles, tiles, first as u64, tiles.len() as int)
            &&& forall|j: int|
                0 <= j < profiles.len() ==> profiles[j].xp + (retry as u64) * count_tiles_of(
                    tiles,
                    j,
                ) == profiles[j].xp + (first as u64) * count_tiles_of(tiles, j)
        }),
{
}

/// The active-set decision for one account at a tick boundary: a fresh
/// interaction stamps the account active now and keeps it; otherwise
/// the account is kept exactly when its last activity lies less than a
/// full window in the past (a clock reading behind `last_active` also
/// keeps it). Experience is untouched either way.
pub fn refresh_activity(profile: &mut Profile, fresh: bool, now: u64, window: u64) -> (keep: bool)
    ensures
        final(profile).xp == old(profile).xp,
        fresh ==> final(profile).last_active == now && keep,
        !fresh ==> *final(profile) == *old(profile) && (keep <==> !(now
            >= old(profile).last_active && now - old(profile).last_active >= window)),
{
    if fresh {
        profile.last_active = now;
        true
    } else {
        !(now >= profile.last_active && now - profile.last_active >= window)
    }
}

} // verus!
