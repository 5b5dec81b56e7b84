//! Plant-level progression: tiers grant experience multipliers, yield
//! speed and size multipliers, new harvest yields and crafting recipes.
//! "Neighbor" tiers carry an effect for neighboring plants: the fold
//! computes it here once, as if local, for propagation purposes, but
//! such tiers never count toward the holder's own base stats.
use vstd::prelude::*;
use crate::advancement::{Advancement, AdvancementSet, AdvancementSum, deref_tiers, name_views};
use crate::config::{ConfigError, find_name};
use crate::fixed::{Fixed, FIXED_SCALE};
use crate::recipe::{Recipe, RecipeModel, first_unfound, lemma_first_unfound_is};
use crate::spawn::{SpawnRate, SpawnRateModel, rescale_fits, rescaled_rate};

verus! {

/// What a plant-level tier grants.
#[derive(Debug)]
pub enum PlantAdvancementKind {
    /// Multiply the experience the plant earns.
    Xp(Fixed),
    /// Multiply how fast yields come.
    YieldSpeed(Fixed),
    /// Multiply how large yields are.
    YieldSize(Fixed),
    /// Apply the wrapped effect to neighboring plants instead.
    Neighbor(Box<PlantAdvancementKind>),
    /// New harvest yields: spawn rates for named items.
    Yield(Vec<(SpawnRate, String)>),
    /// New crafting recipes, authored by item name.
    Craft(Vec<Recipe<String>>),
}

/// Plant-level effective stats: the summary of every unlocked tier.
#[derive(Debug, Clone, PartialEq)]
pub struct PlantAdvancementSum {
    pub xp: u64,
    pub xp_multiplier: Fixed,
    pub yield_speed_multiplier: Fixed,
    pub yield_size_multiplier: Fixed,
    pub yields: Vec<(SpawnRate, usize)>,
    pub recipes: Vec<Recipe<usize>>,
}

pub type PlantAdvancement = Advancement<PlantAdvancementSum>;

pub type PlantAdvancementSet = AdvancementSet<PlantAdvancementSum>;

/// The effect a tier applies during the fold: a neighbor wrapper is
/// unwrapped once and applied as if it were local.
pub open spec fn effective_kind(k: PlantAdvancementKind) -> PlantAdvancementKind {
    match k {
        PlantAdvancementKind::Neighbor(inner) => *inner,
        other => other,
    }
}

/// The names a yield list references, in order.
pub open spec fn yield_names(v: Seq<(SpawnRate, String)>) -> Seq<Seq<char>> {
    v.map_values(|p: (SpawnRate, String)| p.1@)
}

/// A yield list with every name replaced by its handle (meaningful when
/// every name resolves).
pub open spec fn resolved_yield(v: Seq<(SpawnRate, String)>, names: Seq<Seq<char>>) -> Seq<
    (SpawnRateModel, int),
> {
    v.map_values(|p: (SpawnRate, String)| (p.0.model(), find_name(names, p.1@).unwrap()))
}

/// An authored recipe list, resolved (meaningful when every recipe
/// resolves).
pub open spec fn resolved_recipes(rs: Seq<Recipe<String>>, names: Seq<Seq<char>>) -> Seq<
    RecipeModel,
> {
    rs.map_values(|r: Recipe<String>| r.resolved(names))
}

/// Index of the first recipe that fails to resolve, or the length.
pub open spec fn first_failing_recipe(rs: Seq<Recipe<String>>, names: Seq<Seq<char>>) -> int
    decreases rs.len(),
{
    if rs.len() == 0 {
        0
    } else if rs[0].failure(names) is Some {
        0
    } else {
        1 + first_failing_recipe(rs.drop_first(), names)
    }
}

/// `first_failing_recipe` returns exactly the first failing index.
pub proof fn lemma_first_failing_recipe_is(
    rs: Seq<Recipe<String>>,
    names: Seq<Seq<char>>,
    cut: int,
)
    requires
        0 <= cut <= rs.len(),
        forall|j: int| 0 <= j < cut ==> (#[trigger] rs[j]).failure(names) is None,
        cut < rs.len() ==> rs[cut].failure(names) is Some,
    ensures
        first_failing_recipe(rs, names) == cut,
    decreases rs.len(),
{
    if rs.len() == 0 {
    } else if rs[0].failure(names) is Some {
        assert(cut == 0);
    } else {
        let rest = rs.drop_first();
        assert(cut != 0);
        assert forall|j: int| 0 <= j < cut - 1 implies (#[trigger] rest[j]).failure(names)
            is None by {
            assert(rest[j] == rs[j + 1]);
        }
        if cut < rs.len() {
            assert(rest[cut - 1] == rs[cut]);
        }
        lemma_first_failing_recipe_is(rest, names, cut - 1);
    }
}

/// The failure of the first failing recipe in a list, if any.
pub open spec fn recipes_failure(rs: Seq<Recipe<String>>, names: Seq<Seq<char>>) -> Option<
    String,
> {
    if first_failing_recipe(rs, names) < rs.len() {
        rs[first_failing_recipe(rs, names)].failure(names)
    } else {
        None
    }
}

/// The first unknown item name a tier's effect references, if any:
/// resolution failure is surfaced, never silently dropped.
pub open spec fn kind_failure(k: PlantAdvancementKind, names: Seq<Seq<char>>) -> Option<String> {
    match effective_kind(k) {
        PlantAdvancementKind::Yield(entries) => if first_unfound(yield_names(entries@), names)
            < entries@.len() {
            Some(entries@[first_unfound(yield_names(entries@), names)].1)
        } else {
            None
        },
        PlantAdvancementKind::Craft(rs) => recipes_failure(rs@, names),
        _ => None,
    }
}

/// Index of the first tier whose effect fails to resolve, or the length.
pub open spec fn first_failing(tiers: Seq<PlantAdvancement>, names: Seq<Seq<char>>) -> int
    decreases tiers.len(),
{
    if tiers.len() == 0 {
        0
    } else if kind_failure(tiers[0].kind, names) is Some {
        0
    } else {
        1 + first_failing(tiers.drop_first(), names)
    }
}

/// `first_failing` returns exactly the first failing tier index.
pub proof fn lemma_first_failing_is(tiers: Seq<PlantAdvancement>, names: Seq<Seq<char>>, cut: int)
    requires
        0 <= cut <= tiers.len(),
        forall|j: int| 0 <= j < cut ==> kind_failure((#[trigger] tiers[j]).kind, names) is None,
        cut < tiers.len() ==> kind_failure(tiers[cut].kind, names) is Some,
    ensures
        first_failing(tiers, names) == cut,
    decreases tiers.len(),
{
    if tiers.len() == 0 {
    } else if kind_failure(tiers[0].kind, names) is Some {
        assert(cut == 0);
    } else {
        let rest = tiers.drop_first();
        assert(cut != 0);
        assert forall|j: int| 0 <= j < cut - 1 implies kind_failure(
            (#[trigger] rest[j]).kind,
            names,
        ) is None by {
            assert(rest[j] == tiers[j + 1]);
        }
        if cut < tiers.len() {
            assert(rest[cut - 1] == tiers[cut]);
        }
        lemma_first_failing_is(rest, names, cut - 1);
    }
}

/// The numeric accumulator of the plant fold, independent of name
/// resolution: total experience and the three composed multipliers.
pub ghost struct PlantNums {
    pub xp: int,
    pub xp_multiplier: int,
    pub yield_speed_multiplier: int,
    pub yield_size_multiplier: int,
}

/// Left fold of the numeric effects: experience accumulates additively,
/// multiplier effects compose multiplicatively (truncating fixed-point,
/// starting from one).
pub open spec fn plant_nums(tiers: Seq<PlantAdvancement>) -> PlantNums
    decreases tiers.len(),
{
    if tiers.len() == 0 {
        PlantNums {
            xp: 0,
            xp_multiplier: FIXED_SCALE as int,
            yield_speed_multiplier: FIXED_SCALE as int,
            yield_size_multiplier: FIXED_SCALE as int,
        }
    } else {
        let front = plant_nums(tiers.drop_last());
        let t = tiers.last();
        match effective_kind(t.kind) {
            PlantAdvancementKind::Xp(m) => PlantNums {
                xp: front.xp + t.xp,
                xp_multiplier: (front.xp_multiplier * m.0) / (FIXED_SCALE as int),
                yield_speed_multiplier: front.yield_speed_multiplier,
                yield_size_multiplier: front.yield_size_multiplier,
            },
            PlantAdvancementKind::YieldSpeed(m) => PlantNums {
                xp: front.xp + t.xp,
                xp_multiplier: front.xp_multiplier,
                yield_speed_multiplier: (front.yield_speed_multiplier * m.0) / (
                FIXED_SCALE as int),
                yield_size_multiplier: front.yield_size_multiplier,
            },
            PlantAdvancementKind::YieldSize(m) => PlantNums {
                xp: front.xp + t.xp,
                xp_multiplier: front.xp_multiplier,
                yield_speed_multiplier: front.yield_speed_multiplier,
                yield_size_multiplier: (front.yield_size_multiplier * m.0) / (FIXED_SCALE as int),
            },
            _ => PlantNums {
                xp: front.xp + t.xp,
                xp_multiplier: front.xp_multiplier,
                yield_speed_multiplier: front.yield_speed_multiplier,
                yield_size_multiplier: front.yield_size_multiplier,
            },
        }
    }
}

/// The yields a tier contributes, resolved.
pub open spec fn kind_yields(k: PlantAdvancementKind, names: Seq<Seq<char>>) -> Seq<
    (SpawnRateModel, int),
> {
    match effective_kind(k) {
        PlantAdvancementKind::Yield(entries) => resolved_yield(entries@, names),
        _ => Seq::empty(),
    }
}

/// The recipes a tier contributes, resolved.
pub open spec fn kind_recipes(k: PlantAdvancementKind, names: Seq<Seq<char>>) -> Seq<RecipeModel> {
    match effective_kind(k) {
        PlantAdvancementKind::Craft(rs) => resolved_recipes(rs@, names),
        _ => Seq::empty(),
    }
}

/// The spawn rates a tier contributes, before any resolution: name
/// resolution never changes a rate.
pub open spec fn kind_rates(k: PlantAdvancementKind) -> Seq<SpawnRate> {
    match effective_kind(k) {
        PlantAdvancementKind::Yield(entries) => entries@.map_values(
            |p: (SpawnRate, String)| p.0,
        ),
        _ => Seq::empty(),
    }
}

/// All yields the tiers contribute, in unlock order, unscaled.
pub open spec fn yields_acc(tiers: Seq<PlantAdvancement>, names: Seq<Seq<char>>) -> Seq<
    (SpawnRateModel, int),
>
    decreases tiers.len(),
{
    if tiers.len() == 0 {
        Seq::empty()
    } else {
        yields_acc(tiers.drop_last(), names) + kind_yields(tiers.last().kind, names)
    }
}

/// All recipes the tiers contribute, in unlock order.
pub open spec fn recipes_acc(tiers: Seq<PlantAdvancement>, names: Seq<Seq<char>>) -> Seq<
    RecipeModel,
>
    decreases tiers.len(),
{
    if tiers.len() == 0 {
        Seq::empty()
    } else {
        recipes_acc(tiers.drop_last(), names) + kind_recipes(tiers.last().kind, names)
    }
}

/// All spawn rates the tiers contribute, in unlock order.
pub open spec fn raw_rates(tiers: Seq<PlantAdvancement>) -> Seq<SpawnRate>
    decreases tiers.len(),
{
    if tiers.len() == 0 {
        Seq::empty()
    } else {
        raw_rates(tiers.drop_last()) + kind_rates(tiers.last().kind)
    }
}

/// The accumulated yields' rates are the raw rates, position for
/// position: resolution only fills in handles.
pub proof fn lemma_rates_align(tiers: Seq<PlantAdvancement>, names: Seq<Seq<char>>)
    ensures
        yields_acc(tiers, names).len() == raw_rates(tiers).len(),
        forall|k: int|
            0 <= k < raw_rates(tiers).len() ==> (#[trigger] yields_acc(tiers, names)[k]).0
                == raw_rates(tiers)[k].model(),
    decreases tiers.len(),
{
    if tiers.len() > 0 {
        lemma_rates_align(tiers.drop_last(), names);
        let front_y = yields_acc(tiers.drop_last(), names);
        let front_r = raw_rates(tiers.drop_last());
        let seg_y = kind_yields(tiers.last().kind, names);
        let seg_r = kind_rates(tiers.last().kind);
        assert(seg_y.len() == seg_r.len());
        assert forall|k: int|
            0 <= k < raw_rates(tiers).len() implies (#[trigger] yields_acc(tiers, names)[k]).0
            == raw_rates(tiers)[k].model() by {
            if k < front_y.len() {
                assert(yields_acc(tiers, names)[k] == front_y[k]);
                assert(raw_rates(tiers)[k] == front_r[k]);
            } else {
                assert(yields_acc(tiers, names)[k] == seg_y[k - front_y.len()]);
                assert(raw_rates(tiers)[k] == seg_r[k - front_r.len()]);
            }
        }
    }
}

/// Whether a numeric accumulator fits the machine integers.
pub open spec fn nums_fit(n: PlantNums) -> bool {
    &&& n.xp <= u64::MAX
    &&& n.xp_multiplier <= u64::MAX
    &&& n.yield_speed_multiplier <= u64::MAX
    &&& n.yield_size_multiplier <= u64::MAX
}

/// Whether every intermediate value of the plant fold, and the final
/// yield rescaling, fits the machine integers.
pub open spec fn plant_fold_fits(tiers: Seq<PlantAdvancement>) -> bool {
    &&& forall|k: int| 0 <= k <= tiers.len() ==> nums_fit(#[trigger] plant_nums(tiers.subrange(0, k)))
    &&& forall|k: int|
        0 <= k < raw_rates(tiers).len() ==> rescale_fits(
            (#[trigger] raw_rates(tiers)[k]).model(),
            plant_nums(tiers).yield_size_multiplier,
        )
}

/// The mathematical plant summary, free of machine bounds.
pub ghost struct PlantSumModel {
    pub xp: int,
    pub xp_multiplier: int,
    pub yield_speed_multiplier: int,
    pub yield_size_multiplier: int,
    pub yields: Seq<(SpawnRateModel, int)>,
    pub recipes: Seq<RecipeModel>,
}

/// Every accumulated yield scaled by the final yield-size multiplier.
pub open spec fn rescaled_yields(ys: Seq<(SpawnRateModel, int)>, mult: int) -> Seq<
    (SpawnRateModel, int),
> {
    ys.map_values(|p: (SpawnRateModel, int)| (rescaled_rate(p.0, mult), p.1))
}

/// The plant summary of a tier sequence: the numeric fold, the resolved
/// recipes, and the accumulated yields rescaled — once, after the whole
/// fold — by the final yield-size multiplier, so that multiplier tiers
/// unlocked later retroactively scale yields unlocked earlier. Fails
/// with the first unknown item name any tier references.
pub open spec fn plant_folded(tiers: Seq<PlantAdvancement>, names: Seq<Seq<char>>) -> Result<
    PlantSumModel,
    ConfigError,
> {
    if first_failing(tiers, names) < tiers.len() {
        Err(
            ConfigError::UnknownArchetypeName(
                kind_failure(tiers[first_failing(tiers, names)].kind, names).unwrap(),
            ),
        )
    } else {
        let n = plant_nums(tiers);
        Ok(
            PlantSumModel {
                xp: n.xp,
                xp_multiplier: n.xp_multiplier,
                yield_speed_multiplier: n.yield_speed_multiplier,
                yield_size_multiplier: n.yield_size_multiplier,
                yields: rescaled_yields(yields_acc(tiers, names), n.yield_size_multiplier),
                recipes: recipes_acc(tiers, names),
            },
        )
    }
}

/// The mathematical value of a resolved yield vector.
pub open spec fn yield_model(v: Seq<(SpawnRate, usize)>) -> Seq<(SpawnRateModel, int)> {
    v.map_values(|p: (SpawnRate, usize)| (p.0.model(), p.1 as int))
}

/// The mathematical value of a resolved recipe vector.
pub open spec fn recipe_models(v: Seq<Recipe<usize>>) -> Seq<RecipeModel> {
    v.map_values(|r: Recipe<usize>| r.model())
}

/// Law: aggregation is order-independent for multiplicative effects.
/// Folding two tiers in either order yields the same total experience
/// and the same three multipliers: one scale-multiplication is exact,
/// and integer multiplication commutes.
pub proof fn lemma_two_tier_fold_commutes(a: PlantAdvancement, b: PlantAdvancement)
    ensures
        plant_nums(seq![a, b]) == plant_nums(seq![b, a]),
{
    let ab = seq![a, b];
    let ba = seq![b, a];
    assert(ab.drop_last() =~= seq![a]);
    assert(ba.drop_last() =~= seq![b]);
    assert(seq![a].drop_last() =~= Seq::<PlantAdvancement>::empty());
    assert(seq![b].drop_last() =~= Seq::<PlantAdvancement>::empty());
    assert forall|x: u64| #[trigger] ((FIXED_SCALE * x) / (FIXED_SCALE as int)) == x by {
        assert((FIXED_SCALE * x) / (FIXED_SCALE as int) == x) by (nonlinear_arith);
    }
    assert forall|x: u64, y: u64| #[trigger] (x * y) == y * x by {
        assert(x * y == y * x) by (nonlinear_arith);
    }
    let none = plant_nums(Seq::<PlantAdvancement>::empty());
    assert(none.xp_multiplier == FIXED_SCALE as int);
    let na = plant_nums(seq![a]);
    let nb = plant_nums(seq![b]);
    let nab = plant_nums(ab);
    let nba = plant_nums(ba);
    assert(nab.xp == nba.xp);
    assert(nab.xp_multiplier == nba.xp_multiplier);
    assert(nab.yield_speed_multiplier == nba.yield_speed_multiplier);
    assert(nab.yield_size_multiplier == nba.yield_size_multiplier);
}

/// Law: yield rescaling happens once, after the whole fold, not per
/// tier: a size-multiplier tier unlocked after a yield tier scales that
/// yield's count range by the final multiplier all the same.
pub proof fn lemma_rescale_is_post_fold(
    a: PlantAdvancement,
    b: PlantAdvancement,
    entries: Vec<(SpawnRate, String)>,
    m: Fixed,
    names: Seq<Seq<char>>,
)
    requires
        a.kind == PlantAdvancementKind::Yield(entries),
        b.kind == PlantAdvancementKind::YieldSize(m),
        first_failing(seq![a, b], names) == 2,
    ensures
        match plant_folded(seq![a, b], names) {
            Ok(s) => {
                &&& s.yield_size_multiplier == m.0
                &&& s.yields.len() == entries@.len()
                &&& forall|k: int|
                    0 <= k < entries@.len() ==> (#[trigger] s.yields[k]).0.lo == (entries@[k].0.model().lo
                        * m.0) / (FIXED_SCALE as int)
                &&& forall|k: int|
                    0 <= k < entries@.len() ==> (#[trigger] s.yields[k]).0.hi == (entries@[k].0.model().hi
                        * m.0) / (FIXED_SCALE as int)
            },
            Err(_) => false,
        },
{
    let ab = seq![a, b];
    assert(ab.drop_last() =~= seq![a]);
    assert(seq![a].drop_last() =~= Seq::<PlantAdvancement>::empty());
    assert((FIXED_SCALE * m.0) / (FIXED_SCALE as int) == m.0) by (nonlinear_arith);
    let none = plant_nums(Seq::<PlantAdvancement>::empty());
    assert(none.yield_size_multiplier == FIXED_SCALE as int);
    let na = plant_nums(seq![a]);
    assert(na.yield_size_multiplier == FIXED_SCALE as int);
    assert(plant_nums(ab).yield_size_multiplier == m.0);
    let ys = yields_acc(ab, names);
    assert(yields_acc(Seq::<PlantAdvancement>::empty(), names) =~= Seq::<(
        SpawnRateModel,
        int,
    )>::empty());
    assert(yields_acc(seq![a], names) =~= resolved_yield(entries@, names));
    assert(kind_yields(b.kind, names) =~= Seq::<(SpawnRateModel, int)>::empty());
    assert(ys =~= resolved_yield(entries@, names));
    match plant_folded(ab, names) {
        Ok(s) => {
            assert(s.yields == rescaled_yields(ys, m.0 as int));
            assert forall|k: int|
                0 <= k < entries@.len() implies (#[trigger] s.yields[k]).0.lo == (
            entries@[k].0.model().lo * m.0) / (FIXED_SCALE as int) && s.yields[k].0.hi == (
            entries@[k].0.model().hi * m.0) / (FIXED_SCALE as int) by {
                assert(ys[k] == (entries@[k].0.model(), find_name(names, entries@[k].1@).unwrap()));
                assert(s.yields[k] == (rescaled_rate(ys[k].0, m.0 as int), ys[k].1));
            }
        },
        Err(_) => {
            assert(false);
        },
    }
}

/// Resolving one more yield entry extends the resolved prefix by one.
proof fn lemma_resolved_yield_push(
    front: Seq<(SpawnRate, usize)>,
    v: Seq<(SpawnRate, String)>,
    names: Seq<Seq<char>>,
    i: int,
    h: usize,
)
    requires
        0 <= i < v.len(),
        yield_model(front) == resolved_yield(v.subrange(0, i), names),
        find_name(names, v[i].1@) == Some(h as int),
    ensures
        yield_model(front.push((v[i].0, h))) == resolved_yield(v.subrange(0, i + 1), names),
{
    let out = front.push((v[i].0, h));
    let sub1 = v.subrange(0, i + 1);
    assert(yield_model(front).len() == front.len());
    assert(resolved_yield(v.subrange(0, i), names).len() == i);
    assert(front.len() == i);
    assert forall|j: int|
        0 <= j < out.len() implies yield_model(out)[j] == resolved_yield(sub1, names)[j] by {
        if j < i {
            assert(yield_model(front)[j] == resolved_yield(v.subrange(0, i), names)[j]);
            assert(out[j] == front[j]);
            assert(sub1[j] == v.subrange(0, i)[j]);
        } else {
            assert(out[j] == (v[i].0, h));
            assert(sub1[j] == v[i]);
        }
    }
    assert(yield_model(out) =~= resolved_yield(sub1, names));
}

/// Resolving one more recipe extends the resolved prefix by one.
proof fn lemma_resolved_recipe_push(
    front: Seq<Recipe<usize>>,
    rs: Seq<Recipe<String>>,
    names: Seq<Seq<char>>,
    i: int,
    m: Recipe<usize>,
)
    requires
        0 <= i < rs.len(),
        recipe_models(front) == resolved_recipes(rs.subrange(0, i), names),
        m.model() == rs[i].resolved(names),
    ensures
        recipe_models(front.push(m)) == resolved_recipes(rs.subrange(0, i + 1), names),
{
    let out = front.push(m);
    let sub1 = rs.subrange(0, i + 1);
    assert(recipe_models(front).len() == front.len());
    assert(resolved_recipes(rs.subrange(0, i), names).len() == i);
    assert(front.len() == i);
    assert forall|j: int|
        0 <= j < out.len() implies recipe_models(out)[j] == resolved_recipes(sub1, names)[j] by {
        if j < i {
            assert(recipe_models(front)[j] == resolved_recipes(rs.subrange(0, i), names)[j]);
            assert(out[j] == front[j]);
            assert(recipe_models(out)[j] == out[j].model());
            assert(recipe_models(front)[j] == front[j].model());
            assert(sub1[j] == rs.subrange(0, i)[j]);
            assert(resolved_recipes(sub1, names)[j] == sub1[j].resolved(names));
            assert(resolved_recipes(rs.subrange(0, i), names)[j] == rs.subrange(0, i)[j].resolved(names));
        } else {
            assert(j == i);
            assert(out[j] == m);
            assert(recipe_models(out)[j] == m.model());
            assert(sub1[j] == rs[i]);
            assert(resolved_recipes(sub1, names)[j] == rs[i].resolved(names));
        }
    }
    assert(recipe_models(out) =~= resolved_recipes(sub1, names));
}

/// Resolve a yield list's item names to catalog handles, failing with
/// the first unknown name.
fn resolve_yield_entries(entries: &Vec<(SpawnRate, String)>, item_names: &Vec<String>) -> (r:
    Result<Vec<(SpawnRate, usize)>, ConfigError>)
    ensures
        match r {
            Ok(v) => first_unfound(yield_names(entries@), name_views(item_names@)) == entries@.len()
                && yield_model(v@) == resolved_yield(entries@, name_views(item_names@)),
            Err(e) => {
                let fu = first_unfound(yield_names(entries@), name_views(item_names@));
                &&& fu < entries@.len()
                &&& e == ConfigError::UnknownArchetypeName(entries@[fu].1)
            },
        },
{
    let ghost names_v = name_views(item_names@);
    let mut out: Vec<(SpawnRate, usize)> = Vec::new();
    let mut i: usize = 0;
    proof {
        assert(yield_model(out@) =~= resolved_yield(entries@.subrange(0, 0), names_v));
    }
    while i < entries.len()
        invariant
            0 <= i <= entries.len(),
            forall|j: int|
                0 <= j < i ==> find_name(names_v, #[trigger] yield_names(entries@)[j]) is Some,
            yield_model(out@) == resolved_yield(entries@.subrange(0, i as int), names_v),
        decreases entries.len() - i,
    {
        let (rate, name) = &entries[i];
        match crate::config::find_handle(item_names, name) {
            Some(h) => {
                proof {
                    lemma_resolved_yield_push(out@, entries@, names_v, i as int, h);
                }
                out.push((*rate, h));
                proof {
                    assert((*rate, h) == (entries@[i as int].0, h));
                }
            },
            None => {
                proof {
                    lemma_first_unfound_is(yield_names(entries@), names_v, i as int);
                }
                return Err(ConfigError::UnknownArchetypeName(name.clone()));
            },
        }
        i = i + 1;
    }
    proof {
        lemma_first_unfound_is(yield_names(entries@), names_v, entries@.len() as int);
        assert(entries@.subrange(0, entries@.len() as int) =~= entries@);
    }
    Ok(out)
}

/// Resolve an authored recipe list, failing with the first unknown name
/// of the first failing recipe.
fn resolve_recipe_entries(rs: &Vec<Recipe<String>>, item_names: &Vec<String>) -> (r: Result<
    Vec<Recipe<usize>>,
    ConfigError,
>)
    ensures
        match r {
            Ok(v) => first_failing_recipe(rs@, name_views(item_names@)) == rs@.len()
                && recipe_models(v@) == resolved_recipes(rs@, name_views(item_names@)),
            Err(e) => {
                let fr = first_failing_recipe(rs@, name_views(item_names@));
                &&& fr < rs@.len()
                &&& rs@[fr].failure(name_views(item_names@)) is Some
                &&& e == ConfigError::UnknownArchetypeName(
                    rs@[fr].failure(name_views(item_names@)).unwrap(),
                )
            },
        },
{
    let ghost names_v = name_views(item_names@);
    let mut out: Vec<Recipe<usize>> = Vec::new();
    let mut i: usize = 0;
    proof {
        assert(recipe_models(out@) =~= resolved_recipes(rs@.subrange(0, 0), names_v));
    }
    while i < rs.len()
        invariant
            0 <= i <= rs.len(),
            forall|j: int| 0 <= j < i ==> (#[trigger] rs@[j]).failure(names_v) is None,
            recipe_models(out@) == resolved_recipes(rs@.subrange(0, i as int), names_v),
        decreases rs.len() - i,
    {
        match rs[i].find_handles(item_names) {
            Ok(m) => {
                proof {
                    lemma_resolved_recipe_push(out@, rs@, names_v, i as int, m);
                }
                out.push(m);
            },
            Err(e) => {
                proof {
                    lemma_first_failing_recipe_is(rs@, names_v, i as int);
                }
                return Err(e);
            },
        }
        i = i + 1;
    }
    proof {
        lemma_first_failing_recipe_is(rs@, names_v, rs@.len() as int);
        assert(rs@.subrange(0, rs@.len() as int) =~= rs@);
    }
    Ok(out)
}

impl AdvancementSum for PlantAdvancementSum {
    type Kind = PlantAdvancementKind;

    type Model = PlantSumModel;

    open spec fn model(self) -> PlantSumModel {
        PlantSumModel {
            xp: self.xp as int,
            xp_multiplier: self.xp_multiplier.0 as int,
            yield_speed_multiplier: self.yield_speed_multiplier.0 as int,
            yield_size_multiplier: self.yield_size_multiplier.0 as int,
            yields: yield_model(self.yields@),
            recipes: recipe_models(self.recipes@),
        }
    }

    open spec fn folded(tiers: Seq<Advancement<Self>>, item_names: Seq<Seq<char>>) -> Result<
        PlantSumModel,
        ConfigError,
    > {
        plant_folded(tiers, item_names)
    }

    open spec fn fold_fits(tiers: Seq<Advancement<Self>>) -> bool {
        plant_fold_fits(tiers)
    }

    /// A neighbor tier never counts toward the holder's own base stats:
    /// it only ever reaches a plant through the injected extras of a
    /// neighboring entity's ladder.
    open spec fn counts_toward_base(a: Advancement<Self>) -> bool {
        !(a.kind is Neighbor)
    }

    fn new(unlocked: &Vec<&Advancement<Self>>, item_names: &Vec<String>) -> (r: Result<
        Self,
        ConfigError,
    >) {
        let ghost tiers = deref_tiers(unlocked@);
        let ghost names_v = name_views(item_names@);
        let mut xp: u64 = 0;
        let mut xp_multiplier = Fixed::one();
        let mut yield_speed_multiplier = Fixed::one();
        let mut yield_size_multiplier = Fixed::one();
        let mut yields: Vec<(SpawnRate, usize)> = Vec::new();
        let mut recipes: Vec<Recipe<usize>> = Vec::new();
        let mut i: usize = 0;
        proof {
            assert(tiers.subrange(0, 0) =~= Seq::<PlantAdvancement>::empty());
            assert(yield_model(yields@) =~= yields_acc(tiers.subrange(0, 0), names_v));
            assert(recipe_models(recipes@) =~= recipes_acc(tiers.subrange(0, 0), names_v));
        }
        while i < unlocked.len()
            invariant
                0 <= i <= unlocked.len(),
                forall|j: int|
                    0 <= j < i ==> kind_failure((#[trigger] tiers[j]).kind, names_v) is None,
                xp == plant_nums(tiers.subrange(0, i as int)).xp,
                xp_multiplier.0 == plant_nums(tiers.subrange(0, i as int)).xp_multiplier,
                yield_speed_multiplier.0 == plant_nums(
                    tiers.subrange(0, i as int),
                ).yield_speed_multiplier,
                yield_size_multiplier.0 == plant_nums(
                    tiers.subrange(0, i as int),
                ).yield_size_multiplier,
                yield_model(yields@) == yields_acc(tiers.subrange(0, i as int), names_v),
                recipe_models(recipes@) == recipes_acc(tiers.subrange(0, i as int), names_v),
            decreases unlocked.len() - i,
        {
            proof {
                assert(nums_fit(plant_nums(tiers.subrange(0, i + 1))));
                assert(tiers.subrange(0, i + 1).drop_last() =~= tiers.subrange(0, i as int));
                assert(tiers.subrange(0, i + 1).last() == tiers[i as int]);
                assert(tiers[i as int] == *unlocked@[i as int]);
            }
            let a = unlocked[i];
            let ghost front = plant_nums(tiers.subrange(0, i as int));
            let ghost stepped = plant_nums(tiers.subrange(0, i + 1));
            xp = xp + a.xp;
            let kind = match &a.kind {
                PlantAdvancementKind::Neighbor(inner) => &**inner,
                other => other,
            };
            proof {
                assert(*kind == effective_kind(tiers[i as int].kind));
            }
            match kind {
                PlantAdvancementKind::Xp(m) => {
                    xp_multiplier = xp_multiplier.mul(*m);
                },
                PlantAdvancementKind::YieldSpeed(m) => {
                    yield_speed_multiplier = yield_speed_multiplier.mul(*m);
                },
                PlantAdvancementKind::YieldSize(m) => {
                    yield_size_multiplier = yield_size_multiplier.mul(*m);
                },
                PlantAdvancementKind::Neighbor(_) => {},
                PlantAdvancementKind::Yield(entries) => {
                    match resolve_yield_entries(entries, item_names) {
                        Ok(mut seg) => {
                            let ghost old_yields = yields@;
                            let ghost seg_view = seg@;
                            yields.append(&mut seg);
                            proof {
                                assert(yield_model(old_yields + seg_view) =~= yield_model(
                                    old_yields,
                                ) + yield_model(seg_view));
                            }
                        },
                        Err(e) => {
                            proof {
                                lemma_first_failing_is(tiers, names_v, i as int);
                            }
                            return Err(e);
                        },
                    }
                },
                PlantAdvancementKind::Craft(rs) => {
                    match resolve_recipe_entries(rs, item_names) {
                        Ok(mut seg) => {
                            let ghost old_recipes = recipes@;
                            let ghost seg_view = seg@;
                            recipes.append(&mut seg);
                            proof {
                                assert(recipe_models(old_recipes + seg_view) =~= recipe_models(
                                    old_recipes,
                                ) + recipe_models(seg_view));
                            }
                        },
                        Err(e) => {
                            proof {
                                lemma_first_failing_is(tiers, names_v, i as int);
                            }
                            return Err(e);
                        },
                    }
                },
            }
            i = i + 1;
        }
        proof {
            assert(tiers.subrange(0, tiers.len() as int) =~= tiers);
            lemma_first_failing_is(tiers, names_v, tiers.len() as int);
            lemma_rates_align(tiers, names_v);
        }
        let ghost unscaled = yield_model(yields@);
        let mut scaled: Vec<(SpawnRate, usize)> = Vec::new();
        let mut k: usize = 0;
        proof {
            assert(yield_model(scaled@) =~= rescaled_yields(unscaled, yield_size_multiplier.0 as int).subrange(0, 0));
        }
        while k < yields.len()
            invariant
                0 <= k <= yields.len(),
                yield_model(scaled@) == rescaled_yields(
                    unscaled,
                    yield_size_multiplier.0 as int,
                ).subrange(0, k as int),
            decreases yields.len() - k,
        {
            proof {
                assert(yields@[k as int].0.model() == unscaled[k as int].0);
                assert(rescale_fits(
                    raw_rates(tiers)[k as int].model(),
                    plant_nums(tiers).yield_size_multiplier,
                ));
            }
            let (rate, handle) = yields[k];
            let scaled_rate = rate.rescale(yield_size_multiplier);
            let ghost old_scaled = scaled@;
            scaled.push((scaled_rate, handle));
            proof {
                let full = rescaled_yields(unscaled, yield_size_multiplier.0 as int);
                assert(yield_model(scaled@).len() == k + 1);
                assert forall|j: int|
                    0 <= j < k + 1 implies yield_model(scaled@)[j] == full.subrange(0, k + 1)[j] by {
                    if j < k {
                        assert(yield_model(old_scaled)[j] == full.subrange(0, k as int)[j]);
                        assert(scaled@[j] == old_scaled[j]);
                    } else {
                        assert(scaled@[j] == (scaled_rate, handle));
                        assert(full[j] == (rescaled_rate(unscaled[j].0, yield_size_multiplier.0 as int), unscaled[j].1));
                    }
                }
                assert(yield_model(scaled@) =~= full.subrange(0, k + 1));
            }
            k = k + 1;
        }
        proof {
            let full = rescaled_yields(unscaled, yield_size_multiplier.0 as int);
            assert(full.subrange(0, full.len() as int) =~= full);
        }
        Ok(
            PlantAdvancementSum {
                xp,
                xp_multiplier,
                yield_speed_multiplier,
                yield_size_multiplier,
                yields: scaled,
                recipes,
            },
        )
    }

    fn filter_base(a: &Advancement<Self>) -> (r: bool) {
        match &a.kind {
            PlantAdvancementKind::Neighbor(_) => false,
            _ => true,
        }
    }
}

} // verus!
