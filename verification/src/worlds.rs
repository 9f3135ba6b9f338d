//! The registry of the worlds that exist, and the making of new ones.

use std::collections::HashMap;
use rand::Rng;
use vstd::prelude::*;
use crate::generation::world::{World, WorldView};

verus! {

/// The worlds that exist, each under its identifier.
pub struct WorldRegistry {
    worlds: HashMap<u64, World>,
}

impl WorldRegistry {
    /// The worlds of the registry, by identifier.
    pub closed spec fn view(&self) -> Map<u64, WorldView> {
        self.worlds@.map_values(|world: World| world@)
    }

    /// No world is stored under zero, and each is stored under its own
    /// identifier.
    pub open spec fn wf(&self) -> bool {
        forall|id: u64| #[trigger]
            self@.contains_key(id) ==> id != 0 && self@[id].id == id
    }

    /// The number of worlds is the size of the map, and the map is finite.
    pub proof fn lemma_finite(&self)
        ensures
            self@.dom().finite(),
    {
        assert(self@.dom() =~= self.worlds@.dom());
    }

    /// A registry without worlds.
    pub fn new() -> (out: Self)
        ensures
            out@ == Map::<u64, WorldView>::empty(),
            out.wf(),
    {
        let out = WorldRegistry { worlds: HashMap::new() };
        assert(out@ =~= Map::<u64, WorldView>::empty());
        out
    }

    /// How many worlds the registry holds.
    pub fn len(&self) -> (n: usize)
        ensures
            n == self@.len(),
    {
        assert(self@.dom() =~= self.worlds@.dom());
        self.worlds.len()
    }
}

/// A copy of the world stored under `id`, if there is one.
pub fn get_world_for_id(registry: &WorldRegistry, id: u64) -> (out: Option<World>)
    ensures
        out is Some <==> registry@.contains_key(id),
        out matches Some(world) ==> world@ == registry@[id],
{
    match registry.worlds.get(&id) {
        Some(world) => Some(world.clone()),
        None => None,
    }
}

/// Stores `world` under its identifier, in place of any world stored there
/// before.
pub fn store_world(registry: &mut WorldRegistry, world: World)
    requires
        old(registry).wf(),
        world.id != 0,
    ensures
        final(registry).wf(),
        final(registry)@ == old(registry)@.insert(world.id, world@),
{
    let ghost value = world@;
    let id = world.id;
    registry.worlds.insert(id, world);
    assert(registry@ =~= old(registry)@.insert(id, value));
}

/// Whether a world is stored under `id`.
pub fn world_id_exists(registry: &WorldRegistry, id: u64) -> (out: bool)
    ensures
        out == registry@.contains_key(id),
{
    registry.worlds.contains_key(&id)
}

/// How many characters a generated seed has.
pub const SEED_LENGTH: usize = 16;

/// How many random identifiers are tried before the registry is searched
/// for the smallest free one.
pub const ID_DRAWS: u32 = 32;

/// Whether `c` is an ASCII letter or digit.
pub open spec fn is_alphanumeric(c: char) -> bool {
    ||| 'a' <= c <= 'z'
    ||| 'A' <= c <= 'Z'
    ||| '0' <= c <= '9'
}

/// Whether `seed` has the shape of a generated seed: sixteen ASCII letters
/// and digits.
pub open spec fn is_generated_seed(seed: Seq<char>) -> bool {
    &&& seed.len() == SEED_LENGTH
    &&& forall|i: int| 0 <= i < seed.len() ==> is_alphanumeric(#[trigger] seed[i])
}

/// Draws a 64-bit number from `rand::thread_rng()` with `Rng::gen`. Any
/// number may come back, so the contract promises nothing.
#[verifier::external_body]
fn random_id() -> (id: u64) {
    rand::thread_rng().gen()
}

/// Draws a character from `rand::thread_rng()` with the distribution
/// `rand::distributions::Alphanumeric`, which yields the letters a to z and
/// A to Z and the digits 0 to 9.
#[verifier::external_body]
fn random_alphanumeric() -> (c: char)
    ensures
        is_alphanumeric(c),
{
    rand::thread_rng().sample(rand::distributions::Alphanumeric)
}

/// A fresh seed: sixteen random letters and digits.
pub fn generate_seed() -> (seed: String)
    ensures
        is_generated_seed(seed@),
{
    let mut seed = String::new();
    let mut i: usize = 0;
    while i < SEED_LENGTH
        invariant
            i <= SEED_LENGTH,
            seed@.len() == i,
            forall|k: int| 0 <= k < seed@.len() ==> is_alphanumeric(#[trigger] seed@[k]),
        decreases SEED_LENGTH - i,
    {
        let c = random_alphanumeric();
        seed.push(c);
        i += 1;
    }
    seed
}

/// Whether `candidate` can be given to a new world: it is not zero and no
/// world is stored under it.
pub fn is_free_id(registry: &WorldRegistry, candidate: u64) -> (out: bool)
    ensures
        out == (candidate != 0 && !registry@.contains_key(candidate)),
{
    candidate != 0 && !world_id_exists(registry, candidate)
}

/// The identifiers from one to `n`.
pub open spec fn first_ids(n: nat) -> Set<u64> {
    Set::new(|id: u64| 1 <= id <= n)
}

/// There are `n` identifiers from one to `n`.
pub proof fn lemma_first_ids_len(n: nat)
    requires
        n <= u64::MAX,
    ensures
        first_ids(n).finite(),
        first_ids(n).len() == n,
    decreases n,
{
    if n == 0 {
        assert(first_ids(0) =~= Set::<u64>::empty());
    } else {
        lemma_first_ids_len((n - 1) as nat);
        assert(first_ids(n) =~= first_ids((n - 1) as nat).insert(n as u64));
    }
}

/// The smallest identifier above zero under which no world is stored.
pub fn smallest_free_id(registry: &WorldRegistry) -> (id: u64)
    requires
        registry@.len() < u64::MAX,
    ensures
        id != 0,
        !registry@.contains_key(id),
        forall|below: u64| 1 <= below < id ==> registry@.contains_key(below),
{
    let mut candidate: u64 = 1;
    while world_id_exists(registry, candidate)
        invariant
            1 <= candidate,
            registry@.len() < u64::MAX,
            forall|below: u64| 1 <= below < candidate ==> registry@.contains_key(below),
        decreases u64::MAX - candidate,
    {
        proof {
            registry.lemma_finite();
            lemma_first_ids_len(candidate as nat);
            assert(first_ids(candidate as nat).subset_of(registry@.dom()));
            vstd::set_lib::lemma_len_subset(first_ids(candidate as nat), registry@.dom());
        }
        candidate += 1;
    }
    candidate
}

/// An identifier for a new world: not zero, and not in use. Random numbers
/// are tried first; if every draw is taken, the smallest free identifier is
/// used.
pub fn fresh_id(registry: &WorldRegistry) -> (id: u64)
    requires
        registry@.len() < u64::MAX,
    ensures
        id != 0,
        !registry@.contains_key(id),
{
    let mut draws: u32 = 0;
    while draws < ID_DRAWS
        invariant
            draws <= ID_DRAWS,
        decreases ID_DRAWS - draws,
    {
        let candidate = random_id();
        if is_free_id(registry, candidate) {
            return candidate;
        }
        draws += 1;
    }
    smallest_free_id(registry)
}

/// What the creation of a world does to the registry: `world` has an
/// identifier that is not zero and was not in use `before`, and `after` is
/// `before` with `world` stored under that identifier.
pub open spec fn created(
    before: Map<u64, WorldView>,
    world: WorldView,
    after: Map<u64, WorldView>,
) -> bool {
    &&& world.id != 0
    &&& !before.contains_key(world.id)
    &&& after == before.insert(world.id, world)
}

/// Worlds created one after another: `states[i]` is the registry before the
/// world `worlds[i]` is created, and `states[i + 1]` the registry after.
pub open spec fn creations(states: Seq<Map<u64, WorldView>>, worlds: Seq<WorldView>) -> bool {
    &&& states.len() == worlds.len() + 1
    &&& forall|i: int|
        0 <= i < worlds.len() ==> created(states[i], #[trigger] worlds[i], states[i + 1])
}

/// A world that was created is still stored, as it was made, after any
/// number of later creations.
pub proof fn lemma_created_world_stays(
    states: Seq<Map<u64, WorldView>>,
    worlds: Seq<WorldView>,
    i: int,
    k: int,
)
    requires
        creations(states, worlds),
        0 <= i < k <= worlds.len(),
    ensures
        states[k].contains_key(worlds[i].id),
        states[k][worlds[i].id] == worlds[i],
    decreases k,
{
    assert(created(states[k - 1], worlds[k - 1], states[k]));
    if i < k - 1 {
        lemma_created_world_stays(states, worlds, i, k - 1);
    }
}

/// However many worlds are created one after another, their identifiers are
/// not zero, no two of them share an identifier, and each is found in the
/// registry afterwards with the values it was created with.
pub proof fn lemma_created_worlds_are_distinct(
    states: Seq<Map<u64, WorldView>>,
    worlds: Seq<WorldView>,
)
    requires
        creations(states, worlds),
    ensures
        forall|i: int| 0 <= i < worlds.len() ==> (#[trigger] worlds[i]).id != 0,
        forall|i: int, j: int|
            0 <= i < j < worlds.len() ==> (#[trigger] worlds[i]).id != (#[trigger] worlds[j]).id,
        forall|i: int|
            0 <= i < worlds.len() ==> states.last().contains_key((#[trigger] worlds[i]).id)
                && states.last()[worlds[i].id] == worlds[i],
{
    assert forall|i: int| 0 <= i < worlds.len() implies (#[trigger] worlds[i]).id != 0 by {
        assert(created(states[i], worlds[i], states[i + 1]));
    }
    assert forall|i: int, j: int| 0 <= i < j < worlds.len() implies (#[trigger] worlds[i]).id != (
    #[trigger] worlds[j]).id by {
        lemma_created_world_stays(states, worlds, i, j);
        assert(created(states[j], worlds[j], states[j + 1]));
    }
    assert forall|i: int| 0 <= i < worlds.len() implies states.last().contains_key(
        (#[trigger] worlds[i]).id,
    ) && states.last()[worlds[i].id] == worlds[i] by {
        lemma_created_world_stays(states, worlds, i, worlds.len() as int);
    }
}

/// Climate readings drawn for a new world, for the fields that the caller
/// leaves open.
#[derive(Debug, PartialEq, Eq)]
pub struct ClimateDraw {
    pub sea_level: String,
    pub temperature: String,
    pub humidity: String,
}

/// `given` if there is one, else `drawn`.
pub open spec fn reading(given: Option<String>, drawn: String) -> Seq<char> {
    match given {
        Some(value) => value@,
        None => drawn@,
    }
}

fn reading_of(given: Option<String>, drawn: String) -> (out: String)
    ensures
        out@ == reading(given, drawn),
{
    match given {
        Some(value) => value,
        None => drawn,
    }
}

/// Whether `world` has the values that a creation gives it. A name, a seed
/// that is not empty and climate readings are taken as they are given.
/// Without a name the world has the empty name; without a seed, or with an
/// empty one, it has a generated seed; a climate reading that is not given
/// is taken from `drawn`.
pub open spec fn takes_values(
    world: World,
    name: Option<String>,
    seed: Option<String>,
    sea_level: Option<String>,
    temperature: Option<String>,
    humidity: Option<String>,
    drawn: ClimateDraw,
) -> bool {
    &&& world.name@ == (match name {
        Some(given) => given@,
        None => Seq::<char>::empty(),
    })
    &&& match seed {
        Some(given) => if given@.len() > 0 {
            world.seed@ == given@
        } else {
            is_generated_seed(world.seed@)
        },
        None => is_generated_seed(world.seed@),
    }
    &&& world.sea_level@ == reading(sea_level, drawn.sea_level)
    &&& world.temperature@ == reading(temperature, drawn.temperature)
    &&& world.humidity@ == reading(humidity, drawn.humidity)
}

/// Whether an identifier is left for a new world: one that is not zero and
/// under which no world is stored.
pub open spec fn has_free_id(worlds: Map<u64, WorldView>) -> bool {
    exists|id: u64| id != 0 && !worlds.contains_key(id)
}

/// An identifier is left exactly as long as the registry holds fewer worlds
/// than there are identifiers above zero.
pub proof fn lemma_free_id_unless_full(registry: &WorldRegistry)
    requires
        registry.wf(),
    ensures
        has_free_id(registry@) <==> registry@.len() < u64::MAX,
{
    registry.lemma_finite();
    let all = first_ids(u64::MAX as nat);
    lemma_first_ids_len(u64::MAX as nat);
    if has_free_id(registry@) {
        let free = choose|id: u64| id != 0 && !registry@.contains_key(id);
        assert(registry@.dom().subset_of(all.remove(free))) by {
            assert forall|id: u64| registry@.dom().contains(id) implies all.remove(free).contains(
                id,
            ) by {
                assert(registry@.contains_key(id));
            }
        }
        assert(all.contains(free));
        vstd::set_lib::lemma_len_subset(registry@.dom(), all.remove(free));
    } else {
        assert(all.subset_of(registry@.dom())) by {
            assert forall|id: u64| all.contains(id) implies registry@.dom().contains(id) by {
                assert(id != 0);
            }
        }
        vstd::set_lib::lemma_len_subset(all, registry@.dom());
    }
}

/// Creates a world and stores it. The identifier is new and not zero, and
/// the world has the values that `takes_values` describes. The registry
/// must have an identifier left.
pub fn new_world_with_values(
    registry: &mut WorldRegistry,
    name: Option<String>,
    seed: Option<String>,
    sea_level: Option<String>,
    temperature: Option<String>,
    humidity: Option<String>,
    drawn: ClimateDraw,
) -> (world: World)
    requires
        old(registry).wf(),
        old(registry)@.len() < u64::MAX,
    ensures
        final(registry).wf(),
        created(old(registry)@, world@, final(registry)@),
        takes_values(world, name, seed, sea_level, temperature, humidity, drawn),
{
    let id = fresh_id(registry);
    let name = match name {
        Some(given) => given,
        None => String::new(),
    };
    let seed = match seed {
        Some(given) => if !given.as_str().is_empty() {
            given
        } else {
            generate_seed()
        },
        None => generate_seed(),
    };
    let world = World {
        name,
        id,
        seed,
        sea_level: reading_of(sea_level, drawn.sea_level),
        temperature: reading_of(temperature, drawn.temperature),
        humidity: reading_of(humidity, drawn.humidity),
    };
    store_world(registry, world.clone());
    world
}

/// Creates a world and stores it, as `new_world_with_values` does, on any
/// registry: where no identifier is left, no world is made and the registry
/// stays as it is.
pub fn try_new_world_with_values(
    registry: &mut WorldRegistry,
    name: Option<String>,
    seed: Option<String>,
    sea_level: Option<String>,
    temperature: Option<String>,
    humidity: Option<String>,
    drawn: ClimateDraw,
) -> (out: Option<World>)
    requires
        old(registry).wf(),
    ensures
        final(registry).wf(),
        out is Some <==> has_free_id(old(registry)@),
        out is None ==> final(registry)@ == old(registry)@,
        out matches Some(world) ==> created(old(registry)@, world@, final(registry)@)
            && takes_values(world, name, seed, sea_level, temperature, humidity, drawn),
{
    proof {
        lemma_free_id_unless_full(registry);
    }
    if (registry.len() as u64) < u64::MAX {
        Some(new_world_with_values(registry, name, seed, sea_level, temperature, humidity, drawn))
    } else {
        None
    }
}

/// Creates a world of which nothing is given, and stores it.
pub fn new_world(registry: &mut WorldRegistry, drawn: ClimateDraw) -> (world: World)
    requires
        old(registry).wf(),
        old(registry)@.len() < u64::MAX,
    ensures
        final(registry).wf(),
        created(old(registry)@, world@, final(registry)@),
        world.name@ == Seq::<char>::empty(),
        is_generated_seed(world.seed@),
        world.sea_level@ == drawn.sea_level@,
        world.temperature@ == drawn.temperature@,
        world.humidity@ == drawn.humidity@,
{
    new_world_with_values(registry, None, None, None, None, None, drawn)
}

} // verus!
