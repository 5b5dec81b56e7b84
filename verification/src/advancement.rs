//! Tiered advancement ladders: an ordered sequence of tiers keyed by a
//! cumulative experience threshold, with threshold lookup, tier-crossing
//! detection, and aggregation of all unlocked tiers into a summary.
use vstd::prelude::*;
use crate::config::ConfigError;

verus! {

/// One tier of an advancement ladder. `xp` is the cumulative experience
/// threshold at which the tier unlocks; the remaining fields are display
/// text for the notification that announces the crossing.
pub struct Advancement<S: AdvancementSum> {
    pub kind: S::Kind,
    pub xp: u64,
    pub art: String,
    pub title: String,
    pub description: String,
    pub achiever_title: String,
}

/// The values behind a sequence of borrows.
pub open spec fn deref_tiers<T>(tiers: Seq<&T>) -> Seq<T> {
    tiers.map_values(|a: &T| *a)
}

/// The character sequences of a sequence of names.
pub open spec fn name_views(names: Seq<String>) -> Seq<Seq<char>> {
    names.map_values(|n: String| n@)
}

/// The tiers of `tiers` that count toward a holder's own base stats,
/// in order.
pub open spec fn base_counted<S: AdvancementSum>(tiers: Seq<Advancement<S>>) -> Seq<
    Advancement<S>,
>
    decreases tiers.len(),
{
    if tiers.len() == 0 {
        Seq::empty()
    } else {
        let front = base_counted(tiers.drop_last());
        if S::counts_toward_base(tiers.last()) {
            front.push(tiers.last())
        } else {
            front
        }
    }
}

/// A capability every effective-stats summary offers: folding a tier list
/// into a summary, and saying whether a given tier counts toward the
/// holder's own base stats (as opposed to only propagating to neighbors).
pub trait AdvancementSum: Sized {
    type Kind;

    /// The mathematical value a summary stands for.
    type Model;

    /// The mathematical value of this summary.
    spec fn model(self) -> Self::Model;

    /// The mathematical summary of a tier sequence, resolving any item
    /// names it mentions against the catalog's item name list.
    spec fn folded(tiers: Seq<Advancement<Self>>, item_names: Seq<Seq<char>>) -> Result<
        Self::Model,
        ConfigError,
    >;

    /// Whether every intermediate value of the fold fits the machine
    /// integers the summary is stored in.
    spec fn fold_fits(tiers: Seq<Advancement<Self>>) -> bool;

    /// Whether a tier counts toward a holder's own base stats.
    spec fn counts_toward_base(a: Advancement<Self>) -> bool;

    /// Fold a tier list into a summary.
    fn new(unlocked: &Vec<&Advancement<Self>>, item_names: &Vec<String>) -> (r: Result<
        Self,
        ConfigError,
    >)
        requires
            Self::fold_fits(deref_tiers(unlocked@)),
        ensures
            match r {
                Ok(s) => Self::folded(deref_tiers(unlocked@), name_views(item_names@)) == Ok::<
                    Self::Model,
                    ConfigError,
                >(s.model()),
                Err(e) => Self::folded(deref_tiers(unlocked@), name_views(item_names@)) == Err::<
                    Self::Model,
                    ConfigError,
                >(e),
            },
    ;

    /// Whether a tier counts toward a holder's own base stats.
    fn filter_base(a: &Advancement<Self>) -> (r: bool)
        ensures
            r == Self::counts_toward_base(*a),
    ;
}

/// Whether folding `tiers` against `item_names` accounts for the result
/// `r` exactly: a summary whose model is the fold's value, or the very
/// error the fold runs into.
pub open spec fn fold_matches<S: AdvancementSum>(
    r: Result<S, ConfigError>,
    tiers: Seq<Advancement<S>>,
    item_names: Seq<Seq<char>>,
) -> bool {
    match r {
        Ok(s) => S::folded(tiers, item_names) == Ok::<S::Model, ConfigError>(s.model()),
        Err(e) => S::folded(tiers, item_names) == Err::<S::Model, ConfigError>(e),
    }
}

/// Keep the borrowed tiers that count toward the holder's own base
/// stats, in order, then borrows of every extra tier.
fn filter_and_extend<'a, S: AdvancementSum>(
    tiers: &Vec<&'a Advancement<S>>,
    extras: &'a Vec<Advancement<S>>,
) -> (r: Vec<&'a Advancement<S>>)
    ensures
        deref_tiers(r@) == base_counted(deref_tiers(tiers@)) + extras@,
{
    let mut out: Vec<&Advancement<S>> = Vec::new();
    let mut k: usize = 0;
    while k < tiers.len()
        invariant
            0 <= k <= tiers.len(),
            deref_tiers(out@) =~= base_counted(deref_tiers(tiers@).subrange(0, k as int)),
        decreases tiers.len() - k,
    {
        let keep = S::filter_base(tiers[k]);
        if keep {
            out.push(tiers[k]);
        }
        proof {
            assert(deref_tiers(tiers@).subrange(0, k + 1).drop_last() =~= deref_tiers(
                tiers@,
            ).subrange(0, k as int));
            assert(deref_tiers(tiers@).subrange(0, k + 1).last() == deref_tiers(tiers@)[k as int]);
            assert(deref_tiers(out@) =~= base_counted(deref_tiers(tiers@).subrange(0, k + 1)));
        }
        k = k + 1;
    }
    proof {
        assert(deref_tiers(tiers@).subrange(0, tiers@.len() as int) =~= deref_tiers(tiers@));
    }
    let ghost filtered = deref_tiers(out@);
    let mut j: usize = 0;
    while j < extras.len()
        invariant
            0 <= j <= extras.len(),
            deref_tiers(out@) =~= filtered + extras@.subrange(0, j as int),
        decreases extras.len() - j,
    {
        let ghost old_out = out@;
        out.push(&extras[j]);
        proof {
            assert(*out@.last() == extras@[j as int]);
            assert(out@.drop_last() =~= old_out);
            assert(deref_tiers(out@) =~= deref_tiers(old_out).push(extras@[j as int]));
            assert(deref_tiers(out@) =~= filtered + extras@.subrange(0, j + 1));
        }
        j = j + 1;
    }
    proof {
        assert(extras@.subrange(0, extras@.len() as int) =~= extras@);
    }
    out
}

/// In a well-formed ladder the tier thresholds strictly increase with
/// position, across any gap, not only between neighbors.
pub proof fn lemma_tier_order_chain<S: AdvancementSum>(
    tiers: Seq<Advancement<S>>,
    i: int,
    j: int,
)
    requires
        forall|k: int| 0 <= k < tiers.len() - 1 ==> #[trigger] tiers[k].xp < tiers[k + 1].xp,
        0 <= i < j < tiers.len(),
    ensures
        tiers[i].xp < tiers[j].xp,
    decreases j - i,
{
    if j > i + 1 {
        lemma_tier_order_chain(tiers, i, j - 1);
    }
}

/// A ladder whose neighboring tiers strictly increase is well-formed,
/// provided its base sits at zero.
proof fn lemma_all_tiers_sorted<S: AdvancementSum>(set: AdvancementSet<S>)
    requires
        set.base.xp == 0,
        forall|k: int|
            0 <= k < set.all_tiers().len() - 1 ==> #[trigger] set.all_tiers()[k].xp
                < set.all_tiers()[k + 1].xp,
    ensures
        set.wf(),
{
    assert forall|i: int, j: int|
        0 <= i < j < set.all_tiers().len() implies set.all_tiers()[i].xp
        < set.all_tiers()[j].xp by {
        lemma_tier_order_chain(set.all_tiers(), i, j);
    }
}

/// Index of the first tier with a zero threshold, or the length if
/// there is none.
pub open spec fn first_base_index<S: AdvancementSum>(tiers: Seq<Advancement<S>>) -> int
    decreases tiers.len(),
{
    if tiers.len() == 0 {
        0
    } else if tiers[0].xp == 0 {
        0
    } else {
        1 + first_base_index(tiers.drop_first())
    }
}

/// The first base index is the first zero-threshold tier, if any.
pub proof fn lemma_first_base_index<S: AdvancementSum>(tiers: Seq<Advancement<S>>)
    ensures
        0 <= first_base_index(tiers) <= tiers.len(),
        forall|j: int| 0 <= j < first_base_index(tiers) ==> tiers[j].xp != 0,
        first_base_index(tiers) < tiers.len() ==> tiers[first_base_index(tiers)].xp == 0,
    decreases tiers.len(),
{
    if tiers.len() == 0 || tiers[0].xp == 0 {
    } else {
        let rest = tiers.drop_first();
        lemma_first_base_index(rest);
        let cut = first_base_index(tiers);
        assert forall|j: int| 0 <= j < cut implies tiers[j].xp != 0 by {
            if j > 0 {
                assert(rest[j - 1] == tiers[j]);
            }
        }
        if cut < tiers.len() {
            assert(rest[cut - 1] == tiers[cut]);
        }
    }
}

/// How many leading tiers of `tiers` have a threshold at or below `xp`.
pub open spec fn reached_prefix<S: AdvancementSum>(tiers: Seq<Advancement<S>>, xp: u64) -> int
    decreases tiers.len(),
{
    if tiers.len() == 0 || tiers[0].xp > xp {
        0
    } else {
        1 + reached_prefix(tiers.drop_first(), xp)
    }
}

/// The reached prefix is the unique cut: everything before it is at or
/// below `xp`, and the tier right after it (if any) is above.
pub proof fn lemma_reached_prefix_is<S: AdvancementSum>(
    tiers: Seq<Advancement<S>>,
    xp: u64,
    cut: int,
)
    requires
        0 <= cut <= tiers.len(),
        forall|j: int| 0 <= j < cut ==> tiers[j].xp <= xp,
        cut < tiers.len() ==> tiers[cut].xp > xp,
    ensures
        reached_prefix(tiers, xp) == cut,
    decreases tiers.len(),
{
    if tiers.len() == 0 {
    } else if tiers[0].xp > xp {
        assert(cut == 0);
    } else {
        assert(cut != 0);
        let rest = tiers.drop_first();
        assert(forall|j: int| 0 <= j < cut - 1 ==> rest[j].xp <= xp);
        lemma_reached_prefix_is(rest, xp, cut - 1);
    }
}

/// Bounds and ordering facts about the reached prefix.
pub proof fn lemma_reached_prefix_facts<S: AdvancementSum>(tiers: Seq<Advancement<S>>, xp: u64)
    ensures
        0 <= reached_prefix(tiers, xp) <= tiers.len(),
        forall|j: int| 0 <= j < reached_prefix(tiers, xp) ==> tiers[j].xp <= xp,
        reached_prefix(tiers, xp) < tiers.len() ==> tiers[reached_prefix(tiers, xp)].xp > xp,
    decreases tiers.len(),
{
    if tiers.len() == 0 || tiers[0].xp > xp {
    } else {
        let rest = tiers.drop_first();
        lemma_reached_prefix_facts(rest, xp);
        let cut = reached_prefix(tiers, xp);
        assert forall|j: int| 0 <= j < cut implies tiers[j].xp <= xp by {
            if j > 0 {
                assert(rest[j - 1] == tiers[j]);
            }
        }
        if cut < tiers.len() {
            assert(rest[cut - 1] == tiers[cut]);
        }
    }
}

/// The reached prefix never shrinks as experience grows.
pub proof fn lemma_reached_prefix_monotone<S: AdvancementSum>(
    tiers: Seq<Advancement<S>>,
    x: u64,
    y: u64,
)
    requires
        x <= y,
    ensures
        reached_prefix(tiers, x) <= reached_prefix(tiers, y),
    decreases tiers.len(),
{
    lemma_reached_prefix_facts(tiers, x);
    lemma_reached_prefix_facts(tiers, y);
    if tiers.len() == 0 || tiers[0].xp > x {
    } else {
        lemma_reached_prefix_monotone(tiers.drop_first(), x, y);
    }
}

/// One complete tier ladder for one subject kind: a base tier that is
/// always unlocked (its threshold is zero) followed by the remaining
/// tiers in ascending threshold order.
pub struct AdvancementSet<S: AdvancementSum> {
    pub base: Advancement<S>,
    pub rest: Vec<Advancement<S>>,
}

impl<S: AdvancementSum> AdvancementSet<S> {
    /// Base tier and rest tiers as one sequence; position 0 is the base.
    pub open spec fn all_tiers(self) -> Seq<Advancement<S>> {
        seq![self.base] + self.rest@
    }

    /// A well-formed ladder starts at zero experience and keeps strictly
    /// increasing thresholds; authoring-time validation rejects the rest.
    pub open spec fn wf(self) -> bool {
        &&& self.base.xp == 0
        &&& forall|i: int, j: int|
            0 <= i < j < self.all_tiers().len() ==> self.all_tiers()[i].xp
                < self.all_tiers()[j].xp
    }

    /// Position of the last tier whose stored threshold is at or below
    /// `xp`; position 0 (the base) if no other tier qualifies.
    pub open spec fn position_spec(self, xp: u64) -> int {
        reached_prefix(self.rest@, xp)
    }

    /// All tiers, base first.
    pub fn all(&self) -> (r: Vec<&Advancement<S>>)
        ensures
            deref_tiers(r@) == self.all_tiers(),
    {
        let mut out: Vec<&Advancement<S>> = Vec::new();
        out.push(&self.base);
        let mut i: usize = 0;
        while i < self.rest.len()
            invariant
                0 <= i <= self.rest.len(),
                deref_tiers(out@) =~= self.all_tiers().subrange(0, i + 1),
            decreases self.rest.len() - i,
        {
            out.push(&self.rest[i]);
            proof {
                assert(deref_tiers(out@) =~= self.all_tiers().subrange(0, i + 2));
            }
            i = i + 1;
        }
        proof {
            assert(self.all_tiers().subrange(0, self.all_tiers().len() as int) =~= self.all_tiers());
        }
        out
    }

    /// The tier at `index` counting the base as 0, if there is one.
    pub fn get(&self, index: usize) -> (r: Option<&Advancement<S>>)
        ensures
            match r {
                Some(a) => index < self.all_tiers().len() && *a == self.all_tiers()[index as int],
                None => index >= self.all_tiers().len(),
            },
    {
        if index == 0 {
            Some(&self.base)
        } else if index - 1 < self.rest.len() {
            Some(&self.rest[index - 1])
        } else {
            None
        }
    }

    /// Largest position whose tier's stored threshold is at or below
    /// `xp`, defaulting to the base.
    pub fn current_position(&self, xp: u64) -> (r: usize)
        ensures
            r == self.position_spec(xp),
    {
        let mut i: usize = 0;
        while i < self.rest.len() && self.rest[i].xp <= xp
            invariant
                0 <= i <= self.rest.len(),
                forall|j: int| 0 <= j < i ==> self.rest@[j].xp <= xp,
            decreases self.rest.len() - i,
        {
            i = i + 1;
        }
        proof {
            lemma_reached_prefix_is(self.rest@, xp, i as int);
        }
        i
    }

    /// The tier the subject currently stands on.
    pub fn current(&self, xp: u64) -> (r: &Advancement<S>)
        ensures
            *r == self.all_tiers()[self.position_spec(xp)],
    {
        proof {
            lemma_reached_prefix_facts(self.rest@, xp);
        }
        let pos = self.current_position(xp);
        match self.get(pos) {
            Some(a) => a,
            None => &self.base,
        }
    }

    /// The next tier to unlock, or `None` past the last tier: a normal
    /// terminal state, not an error.
    pub fn next(&self, xp: u64) -> (r: Option<&Advancement<S>>)
        ensures
            match r {
                Some(a) => self.position_spec(xp) + 1 < self.all_tiers().len() && *a
                    == self.all_tiers()[self.position_spec(xp) + 1],
                None => self.position_spec(xp) + 1 >= self.all_tiers().len(),
            },
    {
        proof {
            lemma_reached_prefix_facts(self.rest@, xp);
        }
        let pos = self.current_position(xp);
        if pos < self.rest.len() {
            self.get(pos + 1)
        } else {
            None
        }
    }

    /// The base tier plus every rest tier up to and including the current
    /// position, in order.
    pub fn unlocked(&self, xp: u64) -> (r: Vec<&Advancement<S>>)
        ensures
            deref_tiers(r@) == self.all_tiers().subrange(0, self.position_spec(xp) + 1),
    {
        proof {
            lemma_reached_prefix_facts(self.rest@, xp);
        }
        let pos = self.current_position(xp);
        let mut out: Vec<&Advancement<S>> = Vec::new();
        out.push(&self.base);
        let mut i: usize = 0;
        while i < pos
            invariant
                0 <= i <= pos <= self.rest.len(),
                deref_tiers(out@) =~= self.all_tiers().subrange(0, i + 1),
            decreases pos - i,
        {
            out.push(&self.rest[i]);
            proof {
                assert(deref_tiers(out@) =~= self.all_tiers().subrange(0, i + 2));
            }
            i = i + 1;
        }
        out
    }

    /// The tiers that `sum` folds for a subject at `xp`: the unlocked
    /// tiers that count toward the holder's own base stats, then the
    /// injected extra tiers from other sources (neighbor propagation).
    pub open spec fn sum_input(self, xp: u64, extras: Seq<Advancement<S>>) -> Seq<
        Advancement<S>,
    > {
        base_counted(self.all_tiers().subrange(0, self.position_spec(xp) + 1)) + extras
    }

    /// The tiers that `max` folds: every tier that counts toward the
    /// holder's own base stats, as if fully unlocked, then the extras.
    pub open spec fn max_input(self, extras: Seq<Advancement<S>>) -> Seq<Advancement<S>> {
        base_counted(self.all_tiers()) + extras
    }

    /// Aggregate the tiers unlocked at `xp` that count toward the
    /// holder's own base stats, plus the injected extra tiers.
    pub fn sum(&self, xp: u64, extras: &Vec<Advancement<S>>, item_names: &Vec<String>) -> (r:
        Result<S, ConfigError>)
        requires
            S::fold_fits(self.sum_input(xp, extras@)),
        ensures
            fold_matches(r, self.sum_input(xp, extras@), name_views(item_names@)),
    {
        let unl = self.unlocked(xp);
        let picked = filter_and_extend(&unl, extras);
        S::new(&picked, item_names)
    }

    /// Aggregate every unlocked tier at `xp`, unfiltered and with no
    /// extras.
    pub fn raw_sum(&self, xp: u64, item_names: &Vec<String>) -> (r: Result<S, ConfigError>)
        requires
            S::fold_fits(self.all_tiers().subrange(0, self.position_spec(xp) + 1)),
        ensures
            fold_matches(
                r,
                self.all_tiers().subrange(0, self.position_spec(xp) + 1),
                name_views(item_names@),
            ),
    {
        let unl = self.unlocked(xp);
        S::new(&unl, item_names)
    }

    /// Aggregate as if fully unlocked: the upper bound used for previews.
    pub fn max(&self, extras: &Vec<Advancement<S>>, item_names: &Vec<String>) -> (r: Result<
        S,
        ConfigError,
    >)
        requires
            S::fold_fits(self.max_input(extras@)),
        ensures
            fold_matches(r, self.max_input(extras@), name_views(item_names@)),
    {
        let every = self.all();
        let picked = filter_and_extend(&every, extras);
        S::new(&picked, item_names)
    }

    /// Whether the ladder is well-formed: authoring-time validation,
    /// run at catalog load; the process must not start on a ladder
    /// that fails it.
    pub fn check_wf(&self) -> (r: bool)
        ensures
            r == self.wf(),
    {
        if self.base.xp != 0 {
            return false;
        }
        let mut prev: u64 = 0;
        let mut i: usize = 0;
        while i < self.rest.len()
            invariant
                0 <= i <= self.rest.len(),
                forall|k: int|
                    0 <= k < i - 1 ==> #[trigger] self.rest@[k].xp < self.rest@[k + 1].xp,
                i > 0 ==> prev == self.rest@[i - 1].xp,
                i > 0 ==> prev > 0,
                i == 0 ==> prev == 0,
                i > 0 ==> self.rest@[0].xp > 0,
            decreases self.rest.len() - i,
        {
            if self.rest[i].xp <= prev {
                proof {
                    if i == 0 {
                        assert(self.all_tiers()[0].xp == 0);
                        assert(self.all_tiers()[1] == self.rest@[0]);
                    } else {
                        assert(self.all_tiers()[i as int] == self.rest@[i - 1]);
                        assert(self.all_tiers()[i + 1] == self.rest@[i as int]);
                    }
                }
                return false;
            }
            prev = self.rest[i].xp;
            i = i + 1;
        }
        proof {
            lemma_all_tiers_sorted(*self);
        }
        true
    }

    /// Split an authored tier list into a ladder: the first tier with a
    /// zero threshold becomes the base, the remaining tiers keep their
    /// order. A list with no zero-threshold tier is rejected — fatal at
    /// load time.
    pub fn from_tiers(tiers: Vec<Advancement<S>>) -> (r: Result<AdvancementSet<S>, ConfigError>)
        ensures
            match r {
                Ok(set) => {
                    &&& first_base_index(tiers@) < tiers@.len()
                    &&& set.base == tiers@[first_base_index(tiers@)]
                    &&& set.rest@ == tiers@.remove(first_base_index(tiers@))
                },
                Err(e) => {
                    &&& first_base_index(tiers@) == tiers@.len()
                    &&& e is MissingBaseTier
                },
            },
    {
        proof {
            lemma_first_base_index(tiers@);
        }
        let mut tiers = tiers;
        let mut i: usize = 0;
        while i < tiers.len() && tiers[i].xp != 0
            invariant
                0 <= i <= tiers.len(),
                forall|j: int| 0 <= j < i ==> tiers@[j].xp != 0,
            decreases tiers.len() - i,
        {
            i = i + 1;
        }
        if i == tiers.len() {
            proof {
                if first_base_index(tiers@) < tiers@.len() {
                    assert(tiers@[first_base_index(tiers@)].xp == 0);
                }
            }
            return Err(ConfigError::MissingBaseTier);
        }
        proof {
            if first_base_index(tiers@) < i {
                assert(tiers@[first_base_index(tiers@)].xp == 0);
            }
            assert(first_base_index(tiers@) == i);
        }
        let base = tiers.remove(i);
        Ok(AdvancementSet { base, rest: tiers })
    }

    /// Law: the ladder never reports a tier the subject has not reached;
    /// the current tier's stored threshold is at most the subject's
    /// experience.
    pub proof fn lemma_current_within_xp(self, xp: u64)
        requires
            self.wf(),
        ensures
            self.all_tiers()[self.position_spec(xp)].xp <= xp,
    {
        lemma_reached_prefix_facts::<S>(self.rest@, xp);
        let pos = self.position_spec(xp);
        if pos > 0 {
            assert(self.all_tiers()[pos] == self.rest@[pos - 1]);
        }
    }

    /// Law: a subject with no experience stands on the base tier, whose
    /// threshold is zero.
    pub proof fn lemma_fresh_subject_at_base(self)
        requires
            self.wf(),
        ensures
            self.position_spec(0) == 0,
            self.base.xp == 0,
    {
        if self.rest@.len() > 0 {
            assert(self.all_tiers()[0].xp < self.all_tiers()[1].xp);
            assert(self.all_tiers()[1] == self.rest@[0]);
        }
    }

    /// In a well-formed ladder one experience step crosses at most one
    /// tier boundary.
    pub proof fn lemma_position_step(self, xp: u64)
        requires
            self.wf(),
            xp < u64::MAX,
        ensures
            self.position_spec(xp) <= self.position_spec((xp + 1) as u64) <= self.position_spec(
                xp,
            ) + 1,
    {
        lemma_reached_prefix_monotone::<S>(self.rest@, xp, (xp + 1) as u64);
        lemma_reached_prefix_facts::<S>(self.rest@, xp);
        lemma_reached_prefix_facts::<S>(self.rest@, (xp + 1) as u64);
        let p0 = self.position_spec(xp);
        let p1 = self.position_spec((xp + 1) as u64);
        if p1 > p0 + 1 {
            assert(self.all_tiers()[p1 - 1] == self.rest@[p1 - 2]);
            assert(self.all_tiers()[p1] == self.rest@[p1 - 1]);
            assert(self.rest@[p1 - 2].xp < self.rest@[p1 - 1].xp);
            assert(self.rest@[p1 - 2].xp <= xp);
            assert forall|j: int| 0 <= j < p1 - 1 implies self.rest@[j].xp <= xp by {
                if j < p1 - 2 {
                    assert(self.all_tiers()[j + 1] == self.rest@[j]);
                    assert(self.rest@[j].xp < self.rest@[p1 - 2].xp);
                }
            }
            assert(self.rest@[p0].xp <= xp);
            assert(false);
        }
    }

    /// Step the subject's experience up `n` times, returning each newly
    /// reached tier, in order: one entry per tier boundary crossed.
    pub fn advance_xp(&self, xp: &mut u64, n: u64) -> (crossed: Vec<&Advancement<S>>)
        requires
            self.wf(),
            *old(xp) + n <= u64::MAX,
        ensures
            *final(xp) == *old(xp) + n,
            deref_tiers(crossed@) == self.all_tiers().subrange(
                self.position_spec(*old(xp)) + 1,
                self.position_spec(*final(xp)) + 1,
            ),
    {
        let ghost xp0 = *xp;
        let mut crossed: Vec<&Advancement<S>> = Vec::new();
        let mut k: u64 = 0;
        proof {
            lemma_reached_prefix_facts::<S>(self.rest@, xp0);
            assert(deref_tiers(crossed@) =~= self.all_tiers().subrange(
                self.position_spec(xp0) + 1,
                self.position_spec(xp0) + 1,
            ));
        }
        while k < n
            invariant
                0 <= k <= n,
                *xp == xp0 + k,
                self.position_spec(xp0) <= self.position_spec(*xp)
                    <= self.all_tiers().len() - 1,
                deref_tiers(crossed@) == self.all_tiers().subrange(
                    self.position_spec(xp0) + 1,
                    self.position_spec(*xp) + 1,
                ),
            decreases n - k,
        {
            proof {
                self.lemma_position_step(*xp);
                lemma_reached_prefix_monotone::<S>(self.rest@, xp0, *xp);
                lemma_reached_prefix_facts::<S>(self.rest@, *xp);
                lemma_reached_prefix_facts::<S>(self.rest@, (*xp + 1) as u64);
            }
            let ghost prev_pos = self.position_spec(*xp);
            let ghost old_crossed = crossed@;
            match self.increment_xp(xp) {
                Some(t) => {
                    crossed.push(t);
                    proof {
                        assert(self.position_spec(*xp) == prev_pos + 1);
                        assert(*crossed@.last() == self.all_tiers()[prev_pos + 1]);
                        assert(deref_tiers(crossed@) =~= self.all_tiers().subrange(
                            self.position_spec(xp0) + 1,
                            self.position_spec(*xp) + 1,
                        ));
                    }
                },
                None => {},
            }
            k = k + 1;
        }
        crossed
    }

    /// Step the subject's experience up by one. Returns the newly reached
    /// tier exactly when the step crossed a tier boundary — the primitive
    /// the scheduler uses to decide whether to notify a user — and `None`
    /// otherwise.
    pub fn increment_xp(&self, xp: &mut u64) -> (r: Option<&Advancement<S>>)
        requires
            *old(xp) < u64::MAX,
        ensures
            *final(xp) == *old(xp) + 1,
            match r {
                Some(a) => self.position_spec(*final(xp)) != self.position_spec(*old(xp)) && *a
                    == self.all_tiers()[self.position_spec(*final(xp))],
                None => self.position_spec(*final(xp)) == self.position_spec(*old(xp)),
            },
    {
        proof {
            lemma_reached_prefix_facts(self.rest@, *xp);
            lemma_reached_prefix_facts(self.rest@, (*xp + 1) as u64);
        }
        let before = self.current_position(*xp);
        *xp = *xp + 1;
        let after = self.current_position(*xp);
        if after != before {
            self.get(after)
        } else {
            None
        }
    }
}

} // verus!
