//! Crafting recipes, generic over how items are referenced: by name at
//! authoring time, by resolved catalog handle at run time. Content is
//! authored by name, so an explicit, fallible resolution step maps each
//! name to its stable handle before recipes reach the tick path.
use vstd::prelude::*;
use crate::fixed::{Fixed, FIXED_SCALE};
use crate::config::{ConfigError, find_name};
use crate::config::find_handle;
use crate::rng::rand_below;
use crate::advancement::name_views;

verus! {

/// What a recipe produces: a fixed count of one item, one of several
/// weighted outcomes, or one of several counted outputs. Despite the
/// name, `AllOf` selects a single output, weighted by relative count;
/// it does not produce all of its outputs at once, and downstream
/// content depends on exactly that behavior.
#[derive(Debug, Clone, PartialEq)]
pub enum RecipeMakes<Handle> {
    Just(usize, Handle),
    OneOf(Vec<(Fixed, Handle)>),
    AllOf(Vec<(usize, Handle)>),
}

/// A crafting recipe: the items it needs, what it makes, whether
/// completing it destroys the plant, and how long it takes, in cycles.
#[derive(Debug, Clone, PartialEq)]
pub struct Recipe<Handle> {
    pub needs: Vec<(usize, Handle)>,
    pub makes: RecipeMakes<Handle>,
    pub destroys_plant: bool,
    pub time: Fixed,
}

/// Mathematical value of a resolved `RecipeMakes`.
pub ghost enum MakesModel {
    Just(int, int),
    OneOf(Seq<(Fixed, int)>),
    AllOf(Seq<(int, int)>),
}

/// Mathematical value of a resolved `Recipe`.
pub ghost struct RecipeModel {
    pub needs: Seq<(int, int)>,
    pub makes: MakesModel,
    pub destroys_plant: bool,
    pub time: Fixed,
}

/// The mathematical value of a weighted handle list.
pub open spec fn weighted_model(v: Seq<(Fixed, usize)>) -> Seq<(Fixed, int)> {
    v.map_values(|p: (Fixed, usize)| (p.0, p.1 as int))
}

/// The mathematical value of a counted handle list.
pub open spec fn counted_model(v: Seq<(usize, usize)>) -> Seq<(int, int)> {
    v.map_values(|p: (usize, usize)| (p.0 as int, p.1 as int))
}

/// The names a weighted output list references, in order.
pub open spec fn weighted_names(v: Seq<(Fixed, String)>) -> Seq<Seq<char>> {
    v.map_values(|p: (Fixed, String)| p.1@)
}

/// The names a counted list references, in order.
pub open spec fn counted_names(v: Seq<(usize, String)>) -> Seq<Seq<char>> {
    v.map_values(|p: (usize, String)| p.1@)
}

/// Index of the first referenced name the catalog does not hold, or the
/// list's length when every name resolves.
pub open spec fn first_unfound(targets: Seq<Seq<char>>, names: Seq<Seq<char>>) -> int
    decreases targets.len(),
{
    if targets.len() == 0 {
        0
    } else if find_name(names, targets[0]) is None {
        0
    } else {
        1 + first_unfound(targets.drop_first(), names)
    }
}

/// `first_unfound` returns exactly the first unresolvable index.
pub proof fn lemma_first_unfound_is(targets: Seq<Seq<char>>, names: Seq<Seq<char>>, cut: int)
    requires
        0 <= cut <= targets.len(),
        forall|j: int| 0 <= j < cut ==> find_name(names, #[trigger] targets[j]) is Some,
        cut < targets.len() ==> find_name(names, targets[cut]) is None,
    ensures
        first_unfound(targets, names) == cut,
    decreases targets.len(),
{
    if targets.len() == 0 {
    } else if find_name(names, targets[0]) is None {
        assert(cut == 0);
    } else {
        let rest = targets.drop_first();
        assert(cut != 0);
        assert forall|j: int| 0 <= j < cut - 1 implies find_name(names, #[trigger] rest[j]) is Some by {
            assert(rest[j] == targets[j + 1]);
        }
        if cut < targets.len() {
            assert(rest[cut - 1] == targets[cut]);
        }
        lemma_first_unfound_is(rest, names, cut - 1);
    }
}

/// A weighted name list with every name replaced by its handle
/// (meaningful when every name resolves).
pub open spec fn resolved_weighted(v: Seq<(Fixed, String)>, names: Seq<Seq<char>>) -> Seq<
    (Fixed, int),
> {
    v.map_values(|p: (Fixed, String)| (p.0, find_name(names, p.1@).unwrap()))
}

/// A counted name list with every name replaced by its handle.
pub open spec fn resolved_counted(v: Seq<(usize, String)>, names: Seq<Seq<char>>) -> Seq<
    (int, int),
> {
    v.map_values(|p: (usize, String)| (p.0 as int, find_name(names, p.1@).unwrap()))
}

/// Resolving one more weighted entry extends the resolved prefix by one.
proof fn lemma_resolved_weighted_push(
    front: Seq<(Fixed, usize)>,
    v: Seq<(Fixed, String)>,
    names: Seq<Seq<char>>,
    i: int,
    h: usize,
)
    requires
        0 <= i < v.len(),
        weighted_model(front) == resolved_weighted(v.subrange(0, i), names),
        find_name(names, v[i].1@) == Some(h as int),
    ensures
        weighted_model(front.push((v[i].0, h))) == resolved_weighted(v.subrange(0, i + 1), names),
{
    let out = front.push((v[i].0, h));
    let sub1 = v.subrange(0, i + 1);
    assert(weighted_model(front).len() == front.len());
    assert(resolved_weighted(v.subrange(0, i), names).len() == i);
    assert(front.len() == i);
    assert forall|j: int|
        0 <= j < out.len() implies weighted_model(out)[j] == resolved_weighted(sub1, names)[j] by {
        if j < i {
            assert(weighted_model(front)[j] == resolved_weighted(v.subrange(0, i), names)[j]);
            assert(out[j] == front[j]);
            assert(sub1[j] == v.subrange(0, i)[j]);
        } else {
            assert(out[j] == (v[i].0, h));
            assert(sub1[j] == v[i]);
        }
    }
    assert(weighted_model(out) =~= resolved_weighted(sub1, names));
}

/// Resolving one more counted entry extends the resolved prefix by one.
proof fn lemma_resolved_counted_push(
    front: Seq<(usize, usize)>,
    v: Seq<(usize, String)>,
    names: Seq<Seq<char>>,
    i: int,
    h: usize,
)
    requires
        0 <= i < v.len(),
        counted_model(front) == resolved_counted(v.subrange(0, i), names),
        find_name(names, v[i].1@) == Some(h as int),
    ensures
        counted_model(front.push((v[i].0, h))) == resolved_counted(v.subrange(0, i + 1), names),
{
    let out = front.push((v[i].0, h));
    let sub1 = v.subrange(0, i + 1);
    assert(counted_model(front).len() == front.len());
    assert(resolved_counted(v.subrange(0, i), names).len() == i);
    assert(front.len() == i);
    assert forall|j: int|
        0 <= j < out.len() implies counted_model(out)[j] == resolved_counted(sub1, names)[j] by {
        if j < i {
            assert(counted_model(front)[j] == resolved_counted(v.subrange(0, i), names)[j]);
            assert(out[j] == front[j]);
            assert(sub1[j] == v.subrange(0, i)[j]);
        } else {
            assert(out[j] == (v[i].0, h));
            assert(sub1[j] == v[i]);
        }
    }
    assert(counted_model(out) =~= resolved_counted(sub1, names));
}

impl RecipeMakes<usize> {
    /// The mathematical value of this resolved makes.
    pub open spec fn model(self) -> MakesModel {
        match self {
            RecipeMakes::Just(n, h) => MakesModel::Just(n as int, h as int),
            RecipeMakes::OneOf(v) => MakesModel::OneOf(weighted_model(v@)),
            RecipeMakes::AllOf(v) => MakesModel::AllOf(counted_model(v@)),
        }
    }
}

impl RecipeMakes<String> {
    /// The first output name the catalog does not hold, if any.
    pub open spec fn failure(self, names: Seq<Seq<char>>) -> Option<String> {
        match self {
            RecipeMakes::Just(_, s) => if find_name(names, s@) is None {
                Some(s)
            } else {
                None
            },
            RecipeMakes::OneOf(v) => if first_unfound(weighted_names(v@), names) < v@.len() {
                Some(v@[first_unfound(weighted_names(v@), names)].1)
            } else {
                None
            },
            RecipeMakes::AllOf(v) => if first_unfound(counted_names(v@), names) < v@.len() {
                Some(v@[first_unfound(counted_names(v@), names)].1)
            } else {
                None
            },
        }
    }

    /// The handle form this authored makes resolves to (meaningful when
    /// `failure` is `None`).
    pub open spec fn resolved(self, names: Seq<Seq<char>>) -> MakesModel {
        match self {
            RecipeMakes::Just(n, s) => MakesModel::Just(n as int, find_name(names, s@).unwrap()),
            RecipeMakes::OneOf(v) => MakesModel::OneOf(resolved_weighted(v@, names)),
            RecipeMakes::AllOf(v) => MakesModel::AllOf(resolved_counted(v@, names)),
        }
    }

    /// Resolve every authored item name to its catalog handle. Authored
    /// content may reference an unknown item: that fails, carrying the
    /// first such name.
    pub fn find_handles(&self, item_names: &Vec<String>) -> (r: Result<
        RecipeMakes<usize>,
        ConfigError,
    >)
        ensures
            match r {
                Ok(m) => (*self).failure(name_views(item_names@)) is None && m.model() == (
                *self).resolved(name_views(item_names@)),
                Err(e) => match (*self).failure(name_views(item_names@)) {
                    Some(n) => e == ConfigError::UnknownArchetypeName(n),
                    None => false,
                },
            },
    {
        let ghost names_v = name_views(item_names@);
        match self {
            RecipeMakes::Just(n, s) => {
                match find_handle(item_names, s) {
                    Some(h) => Ok(RecipeMakes::Just(*n, h)),
                    None => Err(ConfigError::UnknownArchetypeName(s.clone())),
                }
            },
            RecipeMakes::OneOf(v) => {
                let mut out: Vec<(Fixed, usize)> = Vec::new();
                let mut i: usize = 0;
                proof {
                    assert(weighted_model(out@) =~= resolved_weighted(
                        v@.subrange(0, 0),
                        names_v,
                    ));
                }
                while i < v.len()
                    invariant
                        0 <= i <= v.len(),
                        forall|j: int|
                            0 <= j < i ==> find_name(names_v, #[trigger] weighted_names(v@)[j])
                                is Some,
                        weighted_model(out@) == resolved_weighted(
                            v@.subrange(0, i as int),
                            names_v,
                        ),
                    decreases v.len() - i,
                {
                    let (w, name) = &v[i];
                    match find_handle(item_names, name) {
                        Some(h) => {
                            proof {
                                lemma_resolved_weighted_push(out@, v@, names_v, i as int, h);
                            }
                            out.push((*w, h));
                            proof {
                                assert((*w, h) == (v@[i as int].0, h));
                            }
                        },
                        None => {
                            proof {
                                lemma_first_unfound_is(weighted_names(v@), names_v, i as int);
                            }
                            return Err(ConfigError::UnknownArchetypeName(name.clone()));
                        },
                    }
                    i = i + 1;
                }
                proof {
                    lemma_first_unfound_is(weighted_names(v@), names_v, v@.len() as int);
                    assert(v@.subrange(0, v@.len() as int) =~= v@);
                }
                Ok(RecipeMakes::OneOf(out))
            },
            RecipeMakes::AllOf(v) => {
                let mut out: Vec<(usize, usize)> = Vec::new();
                let mut i: usize = 0;
                proof {
                    assert(counted_model(out@) =~= resolved_counted(v@.subrange(0, 0), names_v));
                }
                while i < v.len()
                    invariant
                        0 <= i <= v.len(),
                        forall|j: int|
                            0 <= j < i ==> find_name(names_v, #[trigger] counted_names(v@)[j])
                                is Some,
                        counted_model(out@) == resolved_counted(
                            v@.subrange(0, i as int),
                            names_v,
                        ),
                    decreases v.len() - i,
                {
                    let (n, name) = &v[i];
                    match find_handle(item_names, name) {
                        Some(h) => {
                            proof {
                                lemma_resolved_counted_push(out@, v@, names_v, i as int, h);
                            }
                            out.push((*n, h));
                            proof {
                                assert((*n, h) == (v@[i as int].0, h));
                            }
                        },
                        None => {
                            proof {
                                lemma_first_unfound_is(counted_names(v@), names_v, i as int);
                            }
                            return Err(ConfigError::UnknownArchetypeName(name.clone()));
                        },
                    }
                    i = i + 1;
                }
                proof {
                    lemma_first_unfound_is(counted_names(v@), names_v, v@.len() as int);
                    assert(v@.subrange(0, v@.len() as int) =~= v@);
                }
                Ok(RecipeMakes::AllOf(out))
            },
        }
    }
}

impl Recipe<usize> {
    /// The mathematical value of this resolved recipe.
    pub open spec fn model(self) -> RecipeModel {
        RecipeModel {
            needs: counted_model(self.needs@),
            makes: self.makes.model(),
            destroys_plant: self.destroys_plant,
            time: self.time,
        }
    }

    /// Whether an inventory of item handles holds every input the
    /// recipe needs, in sufficient count.
    pub fn satisfies(&self, inventory: &Vec<usize>) -> (r: bool)
        ensures
            r == (forall|j: int|
                0 <= j < self.needs@.len() ==> (#[trigger] self.needs@[j]).0 <= count_of(
                    inventory@,
                    self.needs@[j].1,
                )),
    {
        let mut j: usize = 0;
        while j < self.needs.len()
            invariant
                0 <= j <= self.needs.len(),
                forall|k: int|
                    0 <= k < j ==> (#[trigger] self.needs@[k]).0 <= count_of(
                        inventory@,
                        self.needs@[k].1,
                    ),
            decreases self.needs.len() - j,
        {
            let (cnt, h) = self.needs[j];
            let have = count_matching(inventory, h);
            if have < cnt {
                return false;
            }
            j = j + 1;
        }
        true
    }
}

impl Recipe<String> {
    /// The first name this recipe references that the catalog does not
    /// hold: its outputs take priority over its inputs.
    pub open spec fn failure(self, names: Seq<Seq<char>>) -> Option<String> {
        match self.makes.failure(names) {
            Some(n) => Some(n),
            None => if first_unfound(counted_names(self.needs@), names) < self.needs@.len() {
                Some(self.needs@[first_unfound(counted_names(self.needs@), names)].1)
            } else {
                None
            },
        }
    }

    /// The handle form this authored recipe resolves to (meaningful
    /// when `failure` is `None`).
    pub open spec fn resolved(self, names: Seq<Seq<char>>) -> RecipeModel {
        RecipeModel {
            needs: resolved_counted(self.needs@, names),
            makes: self.makes.resolved(names),
            destroys_plant: self.destroys_plant,
            time: self.time,
        }
    }

    /// Resolve this authored recipe's names — outputs first, then
    /// inputs — to catalog handles.
    pub fn find_handles(&self, item_names: &Vec<String>) -> (r: Result<Recipe<usize>, ConfigError>)
        ensures
            match r {
                Ok(m) => (*self).failure(name_views(item_names@)) is None && m.model() == (
                *self).resolved(name_views(item_names@)),
                Err(e) => match (*self).failure(name_views(item_names@)) {
                    Some(n) => e == ConfigError::UnknownArchetypeName(n),
                    None => false,
                },
            },
    {
        let ghost names_v = name_views(item_names@);
        let makes = match self.makes.find_handles(item_names) {
            Ok(m) => m,
            Err(e) => {
                return Err(e);
            },
        };
        let mut needs: Vec<(usize, usize)> = Vec::new();
        let mut i: usize = 0;
        proof {
            assert(counted_model(needs@) =~= resolved_counted(
                self.needs@.subrange(0, 0),
                names_v,
            ));
        }
        while i < self.needs.len()
            invariant
                0 <= i <= self.needs.len(),
                forall|j: int|
                    0 <= j < i ==> find_name(names_v, #[trigger] counted_names(self.needs@)[j])
                        is Some,
                counted_model(needs@) == resolved_counted(
                    self.needs@.subrange(0, i as int),
                    names_v,
                ),
            decreases self.needs.len() - i,
        {
            let (n, name) = &self.needs[i];
            match find_handle(item_names, name) {
                Some(h) => {
                    proof {
                        lemma_resolved_counted_push(needs@, self.needs@, names_v, i as int, h);
                    }
                    needs.push((*n, h));
                    proof {
                        assert((*n, h) == (self.needs@[i as int].0, h));
                    }
                },
                None => {
                    proof {
                        lemma_first_unfound_is(counted_names(self.needs@), names_v, i as int);
                    }
                    return Err(ConfigError::UnknownArchetypeName(name.clone()));
                },
            }
            i = i + 1;
        }
        proof {
            lemma_first_unfound_is(counted_names(self.needs@), names_v, self.needs@.len() as int);
            assert(self.needs@.subrange(0, self.needs@.len() as int) =~= self.needs@);
        }
        Ok(Recipe { needs, makes, destroys_plant: self.destroys_plant, time: self.time })
    }
}

/// The weight column of a weighted output list, as plain integers.
pub open spec fn weights_of(v: Seq<(Fixed, usize)>) -> Seq<int> {
    v.map_values(|p: (Fixed, usize)| p.0.0 as int)
}

/// The count column of a counted output list, as plain integers.
pub open spec fn counts_of(v: Seq<(usize, usize)>) -> Seq<int> {
    v.map_values(|p: (usize, usize)| p.0 as int)
}

/// The integer values of a weight vector.
pub open spec fn int_weights(ws: Seq<u64>) -> Seq<int> {
    ws.map_values(|w: u64| w as int)
}

/// The sum of the first `k` weights.
pub open spec fn prefix_total(ws: Seq<int>, k: int) -> int
    decreases k,
{
    if k <= 0 {
        0
    } else {
        prefix_total(ws, k - 1) + ws[k - 1]
    }
}

/// The entry a draw `x` selects: the first index whose cumulative
/// weight exceeds the draw, walking the list and subtracting weights.
pub open spec fn pick_index(ws: Seq<int>, x: int) -> int
    decreases ws.len(),
{
    if ws.len() == 0 {
        0
    } else if x < ws[0] {
        0
    } else {
        1 + pick_index(ws.drop_first(), x - ws[0])
    }
}

/// Splitting off the first weight shifts prefix sums by one.
proof fn lemma_prefix_shift(ws: Seq<int>, k: int)
    requires
        1 <= k <= ws.len(),
    ensures
        prefix_total(ws, k) == ws[0] + prefix_total(ws.drop_first(), k - 1),
    decreases k,
{
    if k == 1 {
        assert(prefix_total(ws, 1) == prefix_total(ws, 0) + ws[0]);
        assert(prefix_total(ws.drop_first(), 0) == 0);
    } else {
        lemma_prefix_shift(ws, k - 1);
        assert(ws.drop_first()[k - 2] == ws[k - 1]);
        assert(prefix_total(ws, k) == prefix_total(ws, k - 1) + ws[k - 1]);
        assert(prefix_total(ws.drop_first(), k - 1) == prefix_total(ws.drop_first(), k - 2)
            + ws.drop_first()[k - 2]);
    }
}

/// With non-negative weights, prefix sums only grow.
pub proof fn lemma_prefix_monotone(ws: Seq<int>, i: int, j: int)
    requires
        forall|k: int| 0 <= k < ws.len() ==> ws[k] >= 0,
        0 <= i <= j <= ws.len(),
    ensures
        prefix_total(ws, i) <= prefix_total(ws, j),
    decreases j - i,
{
    if i < j {
        lemma_prefix_monotone(ws, i, j - 1);
        assert(ws[j - 1] >= 0);
    }
}

/// The picked entry's cumulative window holds the draw: everything
/// before it is already used up, and its own weight covers the rest.
pub proof fn lemma_pick_index_facts(ws: Seq<int>, x: int)
    requires
        forall|k: int| 0 <= k < ws.len() ==> ws[k] >= 0,
        0 <= x < prefix_total(ws, ws.len() as int),
    ensures
        0 <= pick_index(ws, x) < ws.len(),
        prefix_total(ws, pick_index(ws, x)) <= x,
        x < prefix_total(ws, pick_index(ws, x)) + ws[pick_index(ws, x)],
    decreases ws.len(),
{
    assert(ws.len() > 0);
    if x < ws[0] {
    } else {
        let rest = ws.drop_first();
        assert(forall|k: int| 0 <= k < rest.len() ==> #[trigger] rest[k] == ws[k + 1]);
        lemma_prefix_shift(ws, ws.len() as int);
        lemma_pick_index_facts(rest, x - ws[0]);
        let p = pick_index(ws, x);
        lemma_prefix_shift(ws, p);
        assert(rest[p - 1] == ws[p]);
    }
}

/// Law: weighted selection is exact. A draw `x` selects entry `i`
/// precisely when `x` falls inside `i`'s cumulative-weight window, so
/// each entry is selected by exactly as many draws as its weight — and
/// only ever one entry at a time.
pub proof fn lemma_pick_index_window(ws: Seq<int>, x: int, i: int)
    requires
        forall|k: int| 0 <= k < ws.len() ==> ws[k] >= 0,
        0 <= x < prefix_total(ws, ws.len() as int),
        0 <= i < ws.len(),
    ensures
        pick_index(ws, x) == i <==> (prefix_total(ws, i) <= x < prefix_total(ws, i) + ws[i]),
{
    lemma_pick_index_facts(ws, x);
    let p = pick_index(ws, x);
    if p < i {
        lemma_prefix_monotone(ws, p + 1, i);
        assert(prefix_total(ws, p + 1) == prefix_total(ws, p) + ws[p]);
    }
    if i < p {
        lemma_prefix_monotone(ws, i + 1, p);
        assert(prefix_total(ws, i + 1) == prefix_total(ws, i) + ws[i]);
    }
}

/// Sum a weight vector.
fn sum_weights(ws: &Vec<u64>) -> (r: u64)
    requires
        prefix_total(int_weights(ws@), ws@.len() as int) <= u64::MAX,
    ensures
        r == prefix_total(int_weights(ws@), ws@.len() as int),
{
    let ghost iw = int_weights(ws@);
    proof {
        assert(forall|k: int| 0 <= k < iw.len() ==> iw[k] >= 0);
    }
    let mut acc: u64 = 0;
    let mut i: usize = 0;
    while i < ws.len()
        invariant
            0 <= i <= ws.len(),
            acc == prefix_total(iw, i as int),
        decreases ws.len() - i,
    {
        proof {
            lemma_prefix_monotone(iw, i + 1, iw.len() as int);
            assert(prefix_total(iw, i + 1) == prefix_total(iw, i as int) + iw[i as int]);
        }
        acc = acc + ws[i];
        i = i + 1;
    }
    acc
}

/// The entry a draw selects from a weight vector: the public, verified
/// face of the weighted-selection logic, exact for every draw.
pub fn pick_weighted(ws: &Vec<u64>, x: u64) -> (idx: usize)
    requires
        (x as int) < prefix_total(int_weights(ws@), ws@.len() as int),
    ensures
        idx < ws@.len(),
        idx == pick_index(int_weights(ws@), x as int),
{
    let ghost iw = int_weights(ws@);
    proof {
        assert(forall|k: int| 0 <= k < iw.len() ==> iw[k] >= 0);
    }
    let mut i: usize = 0;
    let mut rem: u64 = x;
    while i < ws.len() && ws[i] <= rem
        invariant
            0 <= i <= ws.len(),
            prefix_total(iw, i as int) <= x,
            rem == x - prefix_total(iw, i as int),
        decreases ws.len() - i,
    {
        proof {
            assert(prefix_total(iw, i + 1) == prefix_total(iw, i as int) + iw[i as int]);
        }
        rem = rem - ws[i];
        i = i + 1;
    }
    if i == ws.len() {
        proof {
            assert(false);
        }
        0
    } else {
        proof {
            lemma_pick_index_window(iw, x as int, i as int);
        }
        i
    }
}

impl RecipeMakes<usize> {
    /// Whether `any` can select an output: a weighted list must cover
    /// the whole unit draw, a counted list must hold at least one item,
    /// and either total must fit the machine.
    pub open spec fn any_enabled(self) -> bool {
        match self {
            RecipeMakes::Just(_, _) => true,
            RecipeMakes::OneOf(v) => FIXED_SCALE <= prefix_total(weights_of(v@), v@.len() as int)
                <= u64::MAX,
            RecipeMakes::AllOf(v) => 0 < prefix_total(counts_of(v@), v@.len() as int) <= u64::MAX,
        }
    }

    /// One possible output, randomly but properly weighted when more
    /// than one is possible: whatever the draw, the selected output is
    /// one of the listed entries with positive weight. `AllOf` selects
    /// a single output, weighted by relative count.
    pub fn any(&self) -> (r: usize)
        requires
            (*self).any_enabled(),
        ensures
            match *self {
                RecipeMakes::Just(_, h) => r == h,
                RecipeMakes::OneOf(v) => exists|i: int|
                    0 <= i < v@.len() && r == (#[trigger] v@[i]).1 && v@[i].0.0 > 0,
                RecipeMakes::AllOf(v) => exists|i: int|
                    0 <= i < v@.len() && r == (#[trigger] v@[i]).1 && v@[i].0 > 0,
            },
    {
        match self {
            RecipeMakes::Just(_, h) => *h,
            RecipeMakes::OneOf(v) => {
                let mut ws: Vec<u64> = Vec::new();
                let mut i: usize = 0;
                proof {
                    assert(int_weights(ws@) =~= weights_of(v@).subrange(0, 0));
                }
                while i < v.len()
                    invariant
                        0 <= i <= v.len(),
                        int_weights(ws@) == weights_of(v@).subrange(0, i as int),
                    decreases v.len() - i,
                {
                    ws.push(v[i].0.0);
                    proof {
                        assert(int_weights(ws@) =~= weights_of(v@).subrange(0, i + 1));
                    }
                    i = i + 1;
                }
                proof {
                    assert(weights_of(v@).subrange(0, v@.len() as int) =~= weights_of(v@));
                }
                let x = rand_below(FIXED_SCALE);
                proof {
                    assert((x as int) < prefix_total(int_weights(ws@), ws@.len() as int));
                }
                let idx = pick_weighted(&ws, x);
                proof {
                    assert(forall|k: int|
                        0 <= k < weights_of(v@).len() ==> #[trigger] weights_of(v@)[k] >= 0);
                    lemma_pick_index_facts(int_weights(ws@), x as int);
                    assert(v@[idx as int].0.0 > 0);
                }
                v[idx].1
            },
            RecipeMakes::AllOf(v) => {
                let mut ws: Vec<u64> = Vec::new();
                let mut i: usize = 0;
                proof {
                    assert(int_weights(ws@) =~= counts_of(v@).subrange(0, 0));
                }
                while i < v.len()
                    invariant
                        0 <= i <= v.len(),
                        int_weights(ws@) == counts_of(v@).subrange(0, i as int),
                    decreases v.len() - i,
                {
                    ws.push(v[i].0 as u64);
                    proof {
                        assert(int_weights(ws@) =~= counts_of(v@).subrange(0, i + 1));
                    }
                    i = i + 1;
                }
                proof {
                    assert(counts_of(v@).subrange(0, v@.len() as int) =~= counts_of(v@));
                }
                let total = sum_weights(&ws);
                let x = rand_below(total);
                let idx = pick_weighted(&ws, x);
                proof {
                    assert(forall|k: int|
                        0 <= k < counts_of(v@).len() ==> #[trigger] counts_of(v@)[k] >= 0);
                    lemma_pick_index_facts(int_weights(ws@), x as int);
                    assert(v@[idx as int].0 > 0);
                }
                v[idx].1
            },
        }
    }
}

/// How many entries of `inv` equal `h`.
pub open spec fn count_of(inv: Seq<usize>, h: usize) -> int
    decreases inv.len(),
{
    if inv.len() == 0 {
        0
    } else {
        count_of(inv.drop_last(), h) + if inv.last() == h {
            1int
        } else {
            0int
        }
    }
}

/// Count the inventory entries with the given handle.
fn count_matching(inv: &Vec<usize>, h: usize) -> (r: usize)
    ensures
        r == count_of(inv@, h),
{
    let mut cnt: usize = 0;
    let mut i: usize = 0;
    while i < inv.len()
        invariant
            0 <= i <= inv.len(),
            cnt <= i,
            cnt == count_of(inv@.subrange(0, i as int), h),
        decreases inv.len() - i,
    {
        proof {
            assert(inv@.subrange(0, i + 1).drop_last() =~= inv@.subrange(0, i as int));
        }
        if inv[i] == h {
            cnt = cnt + 1;
        }
        i = i + 1;
    }
    proof {
        assert(inv@.subrange(0, inv@.len() as int) =~= inv@);
    }
    cnt
}

} // verus!
