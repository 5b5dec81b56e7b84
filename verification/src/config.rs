use vstd::prelude::*;
use vstd::string::StringExecFns;
use crate::advancement::{AdvancementSet, name_views};
use crate::fixed::Fixed;
use crate::hackstead::{HacksteadAdvancementSum, hackstead_folded};
use crate::plant::{PlantAdvancement, PlantAdvancementSum};
use crate::recipe::{Recipe, RecipeMakes};

verus! {

/// A configuration error, fatal at catalog load time: the process must
/// not start with invalid content.
#[derive(Debug, Clone)]
pub enum ConfigError {
    /// An archetype referenced by name that the catalog does not hold.
    UnknownArchetypeName(String),
    /// An authored ladder with no tier at zero experience.
    MissingBaseTier,
    /// An authored ladder whose thresholds do not strictly increase.
    NonMonotonicLadder,
}

impl ConfigError {
    /// A human-readable account of the error.
    pub fn describe(&self) -> (r: String)
        ensures
            match self {
                ConfigError::UnknownArchetypeName(name) => r@ == "no archetype by the name of "@
                    + name@,
                ConfigError::MissingBaseTier => r@ == "ladder has no starting tier at zero xp"@,
                ConfigError::NonMonotonicLadder => r@
                    == "ladder thresholds must strictly increase"@,
            },
    {
        match self {
            ConfigError::UnknownArchetypeName(name) => {
                let mut out = String::new();
                out.append("no archetype by the name of ");
                out.append(name.as_str());
                out
            },
            ConfigError::MissingBaseTier => {
                let mut out = String::new();
                out.append("ladder has no starting tier at zero xp");
                out
            },
            ConfigError::NonMonotonicLadder => {
                let mut out = String::new();
                out.append("ladder thresholds must strictly increase");
                out
            },
        }
    }
}

/// Index of the first name in `names` equal to `name`, if any: the
/// stable integer handle a name resolves to.
pub open spec fn find_name(names: Seq<Seq<char>>, name: Seq<char>) -> Option<int>
    decreases names.len(),
{
    if names.len() == 0 {
        None
    } else if names[0] == name {
        Some(0int)
    } else {
        match find_name(names.drop_first(), name) {
            Some(i) => Some(i + 1),
            None => None,
        }
    }
}

/// `find_name` points at the first occurrence of `name`, if one exists.
pub proof fn lemma_find_name(names: Seq<Seq<char>>, name: Seq<char>)
    ensures
        match find_name(names, name) {
            Some(i) => 0 <= i < names.len() && names[i] == name && forall|j: int|
                0 <= j < i ==> names[j] != name,
            None => forall|j: int| 0 <= j < names.len() ==> names[j] != name,
        },
    decreases names.len(),
{
    if names.len() == 0 || names[0] == name {
    } else {
        let rest = names.drop_first();
        lemma_find_name(rest, name);
        match find_name(names, name) {
            Some(i) => {
                assert(rest[i - 1] == names[i]);
                assert forall|j: int| 0 <= j < i implies names[j] != name by {
                    if j > 0 {
                        assert(rest[j - 1] == names[j]);
                    }
                }
            },
            None => {
                assert forall|j: int| 0 <= j < names.len() implies names[j] != name by {
                    if j > 0 {
                        assert(rest[j - 1] == names[j]);
                    }
                }
            },
        }
    }
}

/// `find_name` returns exactly the first index holding `name`.
pub proof fn lemma_find_name_is(names: Seq<Seq<char>>, name: Seq<char>, cut: int)
    requires
        0 <= cut <= names.len(),
        forall|j: int| 0 <= j < cut ==> names[j] != name,
        cut < names.len() ==> names[cut] == name,
    ensures
        cut < names.len() ==> find_name(names, name) == Some(cut),
        cut == names.len() ==> find_name(names, name) is None,
    decreases names.len(),
{
    if names.len() == 0 {
    } else if names[0] == name {
        assert(cut == 0);
    } else {
        let rest = names.drop_first();
        assert(forall|j: int| 0 <= j < cut - 1 ==> rest[j] != name);
        if cut < names.len() {
            assert(rest[cut - 1] == names[cut]);
        }
        lemma_find_name_is(rest, name, cut - 1);
    }
}

/// First index of `name` among `names`, the executable side of
/// `find_name`.
pub fn find_handle(names: &Vec<String>, name: &String) -> (r: Option<usize>)
    ensures
        match r {
            Some(i) => find_name(name_views(names@), name@) == Some(i as int),
            None => find_name(name_views(names@), name@) is None,
        },
{
    let ghost names_v = name_views(names@);
    let mut i: usize = 0;
    while i < names.len()
        invariant
            0 <= i <= names.len(),
            forall|j: int| 0 <= j < i ==> name_views(names@)[j] != name@,
        decreases names.len() - i,
    {
        if names[i] == *name {
            proof {
                lemma_find_name_is(names_v, name@, i as int);
            }
            return Some(i);
        }
        i = i + 1;
    }
    proof {
        lemma_find_name_is(names_v, name@, names@.len() as int);
    }
    None
}

/// A stable, dense index into a catalog array; valid only relative to
/// the catalog it was resolved against, and never persisted across
/// catalog reloads without re-resolution by name.
pub type ArchetypeHandle = usize;

/// The account-level archetype: one ladder shared by every account.
pub struct ProfileArchetype {
    pub advancements: AdvancementSet<HacksteadAdvancementSum>,
}

/// A plant species: its name, how long a yield takes at base speed (in
/// cycles), and its tier ladder.
pub struct PlantArchetype {
    pub name: String,
    pub base_yield_duration: Fixed,
    pub advancements: AdvancementSet<PlantAdvancementSum>,
}

/// A companion item: its base happiness, and optionally an effect it
/// lends a named plant.
pub struct GotchiArchetype {
    pub base_happiness: u64,
    pub plant_effects: Option<(String, PlantAdvancement)>,
}

/// A seed item: the plant species it grows into, by name.
pub struct SeedArchetype {
    pub grows_into: String,
}

/// What applying an item to a plant does.
pub enum ApplicationEffect {
    TimeIncrease { extra_cycles: u64, duration_cycles: u64 },
}

/// A land grant an item can unlock.
pub struct LandUnlock {
    pub requires_xp: bool,
}

/// A keepsake item: optional application effect, land unlock, and an
/// effect it lends a named plant.
pub struct KeepsakeArchetype {
    pub item_application_effect: Option<ApplicationEffect>,
    pub unlocks_land: Option<LandUnlock>,
    pub plant_effects: Option<(String, PlantAdvancement)>,
}

/// The three families of possession archetypes.
pub enum ArchetypeKind {
    Gotchi(GotchiArchetype),
    Seed(SeedArchetype),
    Keepsake(KeepsakeArchetype),
}

/// Which display category an item belongs to.
#[derive(Debug, Clone, Copy, PartialEq, Eq, Structural)]
pub enum Category {
    Gotchi,
    Misc,
}

impl ArchetypeKind {
    /// The display category of items of this kind.
    pub fn category(&self) -> (r: Category)
        ensures
            r == (match self {
                ArchetypeKind::Gotchi(_) => Category::Gotchi,
                _ => Category::Misc,
            }),
    {
        match self {
            ArchetypeKind::Gotchi(_) => Category::Gotchi,
            _ => Category::Misc,
        }
    }

    /// The keepsake behind this kind, if it is one.
    pub fn keepsake(&self) -> (r: Option<&KeepsakeArchetype>)
        ensures
            match r {
                Some(k) => self is Keepsake && *k == self->Keepsake_0,
                None => !(self is Keepsake),
            },
    {
        match self {
            ArchetypeKind::Keepsake(k) => Some(k),
            _ => None,
        }
    }
}

/// One possession archetype: a named item definition.
pub struct Archetype {
    pub name: String,
    pub description: String,
    pub kind: ArchetypeKind,
}

/// The process-wide, read-only registry of game content: loaded once at
/// startup, validated, and addressed thereafter by stable handles.
pub struct Config {
    pub special_users: Vec<String>,
    pub profile_archetype: ProfileArchetype,
    pub plant_archetypes: Vec<PlantArchetype>,
    pub possession_archetypes: Vec<Archetype>,
}

impl Config {
    /// The plant species names, in handle order.
    pub open spec fn plant_names(self) -> Seq<Seq<char>> {
        self.plant_archetypes@.map_values(|a: PlantArchetype| a.name@)
    }

    /// The possession names, in handle order.
    pub open spec fn possession_names(self) -> Seq<Seq<char>> {
        self.possession_archetypes@.map_values(|a: Archetype| a.name@)
    }

    /// A loadable catalog: every ladder is well-formed and the account
    /// ladder's totals fit the summary's machine integers. The process
    /// must not start with a catalog that fails this.
    pub open spec fn catalog_wf(self) -> bool {
        &&& self.profile_archetype.advancements.wf()
        &&& hackstead_folded(self.profile_archetype.advancements.all_tiers()).xp <= u64::MAX
        &&& hackstead_folded(self.profile_archetype.advancements.all_tiers()).land <= u32::MAX
        &&& forall|h: int|
            0 <= h < self.plant_archetypes@.len() ==> (#[trigger] self.plant_archetypes@[h]).advancements.wf()
    }

    /// Whether the catalog passes load-time validation.
    pub fn check_catalog(&self) -> (r: bool)
        ensures
            r == self.catalog_wf(),
    {
        if !self.profile_archetype.advancements.check_wf() {
            return false;
        }
        let ladder = self.profile_archetype.advancements.all();
        match HacksteadAdvancementSum::try_total(&ladder) {
            Some(_) => {},
            None => {
                return false;
            },
        }
        let mut h: usize = 0;
        while h < self.plant_archetypes.len()
            invariant
                0 <= h <= self.plant_archetypes.len(),
                forall|j: int|
                    0 <= j < h ==> (#[trigger] self.plant_archetypes@[j]).advancements.wf(),
            decreases self.plant_archetypes.len() - h,
        {
            if !self.plant_archetypes[h].advancements.check_wf() {
                return false;
            }
            h = h + 1;
        }
        true
    }

    /// The possession names as owned strings, for resolution calls.
    pub fn possession_name_list(&self) -> (r: Vec<String>)
        ensures
            name_views(r@) == self.possession_names(),
    {
        let mut out: Vec<String> = Vec::new();
        let mut i: usize = 0;
        proof {
            assert(name_views(out@) =~= self.possession_names().subrange(0, 0));
        }
        while i < self.possession_archetypes.len()
            invariant
                0 <= i <= self.possession_archetypes.len(),
                name_views(out@) == self.possession_names().subrange(0, i as int),
            decreases self.possession_archetypes.len() - i,
        {
            let ghost old_out = out@;
            out.push(self.possession_archetypes[i].name.clone());
            proof {
                assert(name_views(out@) =~= self.possession_names().subrange(0, i + 1));
            }
            i = i + 1;
        }
        proof {
            assert(self.possession_names().subrange(0, self.possession_names().len() as int)
                =~= self.possession_names());
        }
        out
    }

    /// Look a plant species up by name: its archetype, or the unknown
    /// name, exactly when the catalog holds no species of that name.
    pub fn find_plant(&self, name: &String) -> (r: Result<&PlantArchetype, ConfigError>)
        ensures
            match r {
                Ok(p) => find_name(self.plant_names(), name@) is Some && *p
                    == self.plant_archetypes@[find_name(self.plant_names(), name@).unwrap()],
                Err(e) => find_name(self.plant_names(), name@) is None && e
                    == ConfigError::UnknownArchetypeName(*name),
            },
    {
        match self.find_plant_handle(name) {
            Ok(h) => {
                proof {
                    lemma_find_name(self.plant_names(), name@);
                }
                Ok(&self.plant_archetypes[h])
            },
            Err(e) => Err(e),
        }
    }

    /// Look a plant species up by name: its handle, or the unknown
    /// name, exactly when the catalog holds no species of that name.
    pub fn find_plant_handle(&self, name: &String) -> (r: Result<ArchetypeHandle, ConfigError>)
        ensures
            match r {
                Ok(h) => find_name(self.plant_names(), name@) == Some(h as int),
                Err(e) => find_name(self.plant_names(), name@) is None && e
                    == ConfigError::UnknownArchetypeName(*name),
            },
    {
        let ghost names_v = self.plant_names();
        let mut i: usize = 0;
        while i < self.plant_archetypes.len()
            invariant
                0 <= i <= self.plant_archetypes.len(),
                forall|j: int| 0 <= j < i ==> self.plant_names()[j] != name@,
            decreases self.plant_archetypes.len() - i,
        {
            if self.plant_archetypes[i].name == *name {
                proof {
                    lemma_find_name_is(names_v, name@, i as int);
                }
                return Ok(i);
            }
            i = i + 1;
        }
        proof {
            lemma_find_name_is(names_v, name@, self.plant_archetypes@.len() as int);
        }
        Err(ConfigError::UnknownArchetypeName(name.clone()))
    }

    /// Look a possession up by name: its archetype, or the unknown
    /// name, exactly when the catalog holds no item of that name.
    pub fn find_possession(&self, name: &String) -> (r: Result<&Archetype, ConfigError>)
        ensures
            match r {
                Ok(p) => find_name(self.possession_names(), name@) is Some && *p
                    == self.possession_archetypes@[find_name(
                    self.possession_names(),
                    name@,
                ).unwrap()],
                Err(e) => find_name(self.possession_names(), name@) is None && e
                    == ConfigError::UnknownArchetypeName(*name),
            },
    {
        match self.find_possession_handle(name) {
            Ok(h) => {
                proof {
                    lemma_find_name(self.possession_names(), name@);
                }
                Ok(&self.possession_archetypes[h])
            },
            Err(e) => Err(e),
        }
    }

    /// Look a possession up by name: its handle, or the unknown name,
    /// exactly when the catalog holds no item of that name.
    pub fn find_possession_handle(&self, name: &String) -> (r: Result<ArchetypeHandle, ConfigError>)
        ensures
            match r {
                Ok(h) => find_name(self.possession_names(), name@) == Some(h as int),
                Err(e) => find_name(self.possession_names(), name@) is None && e
                    == ConfigError::UnknownArchetypeName(*name),
            },
    {
        let ghost names_v = self.possession_names();
        let mut i: usize = 0;
        while i < self.possession_archetypes.len()
            invariant
                0 <= i <= self.possession_archetypes.len(),
                forall|j: int| 0 <= j < i ==> self.possession_names()[j] != name@,
            decreases self.possession_archetypes.len() - i,
        {
            if self.possession_archetypes[i].name == *name {
                proof {
                    lemma_find_name_is(names_v, name@, i as int);
                }
                return Ok(i);
            }
            i = i + 1;
        }
        proof {
            lemma_find_name_is(names_v, name@, self.possession_archetypes@.len() as int);
        }
        Err(ConfigError::UnknownArchetypeName(name.clone()))
    }
}

/// Whether every handle a resolved makes mentions indexes the catalog.
pub open spec fn makes_handles_ok(m: RecipeMakes<usize>, n: int) -> bool {
    match m {
        RecipeMakes::Just(_, h) => h < n,
        RecipeMakes::OneOf(v) => forall|i: int| 0 <= i < v@.len() ==> (#[trigger] v@[i]).1 < n,
        RecipeMakes::AllOf(v) => forall|i: int| 0 <= i < v@.len() ==> (#[trigger] v@[i]).1 < n,
    }
}

impl RecipeMakes<usize> {
    /// Hold every output handle against the catalog: the same makes
    /// back when each indexes a possession archetype, `None` otherwise.
    pub fn lookup_handles(self, config: &Config) -> (r: Option<RecipeMakes<usize>>)
        ensures
            match r {
                Some(m) => m == self && makes_handles_ok(
                    self,
                    config.possession_archetypes@.len() as int,
                ),
                None => !makes_handles_ok(self, config.possession_archetypes@.len() as int),
            },
    {
        let n = config.possession_archetypes.len();
        match &self {
            RecipeMakes::Just(_, h) => {
                if *h < n {
                    Some(self)
                } else {
                    None
                }
            },
            RecipeMakes::OneOf(v) => {
                let mut i: usize = 0;
                while i < v.len()
                    invariant
                        0 <= i <= v.len(),
                        forall|j: int| 0 <= j < i ==> (#[trigger] v@[j]).1 < n,
                    decreases v.len() - i,
                {
                    if v[i].1 >= n {
                        return None;
                    }
                    i = i + 1;
                }
                Some(self)
            },
            RecipeMakes::AllOf(v) => {
                let mut i: usize = 0;
                while i < v.len()
                    invariant
                        0 <= i <= v.len(),
                        forall|j: int| 0 <= j < i ==> (#[trigger] v@[j]).1 < n,
                    decreases v.len() - i,
                {
                    if v[i].1 >= n {
                        return None;
                    }
                    i = i + 1;
                }
                Some(self)
            },
        }
    }
}

/// Whether every handle a resolved recipe mentions indexes the catalog.
pub open spec fn recipe_handles_ok(r: Recipe<usize>, n: int) -> bool {
    &&& makes_handles_ok(r.makes, n)
    &&& forall|i: int| 0 <= i < r.needs@.len() ==> (#[trigger] r.needs@[i]).1 < n
}

impl Recipe<usize> {
    /// Hold every handle this recipe mentions — outputs and inputs —
    /// against the catalog: the same recipe back when each indexes a
    /// possession archetype, `None` otherwise.
    pub fn lookup_handles(self, config: &Config) -> (r: Option<Recipe<usize>>)
        ensures
            match r {
                Some(m) => m == self && recipe_handles_ok(
                    self,
                    config.possession_archetypes@.len() as int,
                ),
                None => !recipe_handles_ok(self, config.possession_archetypes@.len() as int),
            },
    {
        let n = config.possession_archetypes.len();
        let mut i: usize = 0;
        while i < self.needs.len()
            invariant
                0 <= i <= self.needs.len(),
                forall|j: int| 0 <= j < i ==> (#[trigger] self.needs@[j]).1 < n,
            decreases self.needs.len() - i,
        {
            if self.needs[i].1 >= n {
                return None;
            }
            i = i + 1;
        }
        let makes_ok = match &self.makes {
            RecipeMakes::Just(_, h) => *h < n,
            RecipeMakes::OneOf(v) => {
                let mut k: usize = 0;
                let mut ok = true;
                while k < v.len()
                    invariant
                        0 <= k <= v.len(),
                        ok == (forall|j: int| 0 <= j < k ==> (#[trigger] v@[j]).1 < n),
                    decreases v.len() - k,
                {
                    if v[k].1 >= n {
                        ok = false;
                    }
                    k = k + 1;
                }
                ok
            },
            RecipeMakes::AllOf(v) => {
                let mut k: usize = 0;
                let mut ok = true;
                while k < v.len()
                    invariant
                        0 <= k <= v.len(),
                        ok == (forall|j: int| 0 <= j < k ==> (#[trigger] v@[j]).1 < n),
                    decreases v.len() - k,
                {
                    if v[k].1 >= n {
                        ok = false;
                    }
                    k = k + 1;
                }
                ok
            },
        };
        if makes_ok {
            Some(self)
        } else {
            None
        }
    }
}

} // verus!
