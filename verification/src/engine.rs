//! Trusted boundary to the external crafting mechanics engine
//! (`ffxiv_crafting`). The search core treats a craft state as an opaque,
//! copyable snapshot: it only reads a few numeric fields of it and asks the
//! engine which actions are legal and what state an action leads to.
//!
//! Everything the rest of the crate knows about the engine is stated here,
//! as contracts over the uninterpreted functions below. The engine's own
//! arithmetic is unchecked, and its level table stops at level 80, so the
//! wrappers that run engine code carry `requires` that keep every operation
//! the engine performs inside `i32` and inside its tables; `engine_room`
//! states those ranges with enough margin for a whole bounded search.

use vstd::prelude::*;

use ffxiv_crafting::Attributes;
use ffxiv_crafting::Recipe;
use ffxiv_crafting::Skills;
use ffxiv_crafting::Status;

verus! {

#[verifier::external_type_specification]
#[verifier::external_body]
pub struct ExStatus(Status);

#[verifier::external_type_specification]
#[verifier::external_body]
pub struct ExSkills(Skills);

/// The `progress` field of a craft state.
pub uninterp spec fn progress_of(s: Status) -> i32;

/// The `quality` field of a craft state.
pub uninterp spec fn quality_of(s: Status) -> i32;

/// The `step` field of a craft state: the engine's own step counter.
pub uninterp spec fn step_of(s: Status) -> i32;

/// The remaining durability (`durability`) of a craft state.
pub uninterp spec fn durability_of(s: Status) -> i32;

/// The remaining craft points (`craft_points`) of a craft state.
pub uninterp spec fn craft_points_of(s: Status) -> i32;

/// The player level (`attributes.level`) carried by a craft state.
pub uninterp spec fn level_of(s: Status) -> i32;

/// The craftsmanship rating (`attributes.craftsmanship`) carried by a state.
pub uninterp spec fn craftsmanship_of(s: Status) -> i32;

/// The control rating (`attributes.control`) carried by a craft state.
pub uninterp spec fn control_of(s: Status) -> i32;

/// The craft-point pool (`attributes.craft_points`) carried by a state.
pub uninterp spec fn max_craft_points_of(s: Status) -> i32;

/// The target progress (`recipe.progress`) carried by a craft state.
pub uninterp spec fn target_progress_of(s: Status) -> i32;

/// The target quality (`recipe.quality`) carried by a craft state.
pub uninterp spec fn target_quality_of(s: Status) -> i32;

/// The recipe durability (`recipe.durability`) carried by a craft state.
pub uninterp spec fn target_durability_of(s: Status) -> i32;

/// The recipe's player level (`recipe.level`) carried by a craft state.
pub uninterp spec fn recipe_level_of(s: Status) -> i32;

/// The engine-internal parts of a state that no field above exposes are
/// ones the engine itself builds: `Status::new` establishes this and
/// `cast_action` keeps it (an inner-quiet buff always has at least one
/// layer, the recipe's internal ratings and recipe level come from the
/// engine's own tables). A hand-assembled `Status` need not satisfy it; its
/// arithmetic could then underflow inside the engine.
pub uninterp spec fn engine_state_sound(s: Status) -> bool;

/// Whether the engine may be asked to cast `k` more actions from `s`
/// without panicking: the player level is one the engine's level table
/// covers, the ratings are in ranges that keep the engine's formula values
/// small, and every mutable field has room for `k` steps of bounded growth
/// (progress and quality grow by at most `0x100_0000` per step under these
/// ranges, craft points move by at most `1024` or jump to the pool,
/// durability moves by at most `35` or jumps to the recipe durability).
pub open spec fn engine_room(s: Status, k: int) -> bool {
    &&& 1 <= level_of(s) <= 80
    &&& 0 <= craftsmanship_of(s) <= 10000
    &&& 0 <= control_of(s) <= 10000
    &&& -0x4000_0000 <= recipe_level_of(s) <= 0x4000_0000
    &&& 0 <= target_progress_of(s)
    &&& 0 <= target_quality_of(s) <= 0x100_0000
    &&& progress_of(s) + 0x100_0000 * k <= i32::MAX
    &&& target_progress_of(s) + 0x100_0000 * k <= i32::MAX
    &&& quality_of(s) + 0x100_0000 * k <= i32::MAX
    &&& -0x4000_0000 <= craft_points_of(s) - 1024 * k
    &&& craft_points_of(s) + 1024 * k <= 0x4000_0000
    &&& -0x4000_0000 <= max_craft_points_of(s) - 1024 * k
    &&& max_craft_points_of(s) + 1024 * k <= 0x4000_0000
    &&& -0x4000_0000 <= durability_of(s) - 35 * k
    &&& durability_of(s) + 35 * k <= 0x4000_0000
    &&& -0x4000_0000 <= target_durability_of(s) - 35 * k
    &&& target_durability_of(s) + 35 * k <= 0x4000_0000
    &&& engine_state_sound(s)
}

/// Relies on the public field `progress` of `ffxiv_crafting::Status`.
#[verifier::external_body]
pub(crate) fn read_progress(s: &Status) -> (r: i32)
    ensures
        r == progress_of(*s),
{
    s.progress
}

/// Relies on the public field `quality` of `ffxiv_crafting::Status`.
#[verifier::external_body]
pub(crate) fn read_quality(s: &Status) -> (r: i32)
    ensures
        r == quality_of(*s),
{
    s.quality
}

/// Relies on the public field `step` of `ffxiv_crafting::Status`.
#[verifier::external_body]
pub(crate) fn read_step(s: &Status) -> (r: i32)
    ensures
        r == step_of(*s),
{
    s.step
}

/// Relies on the public field `durability` of `ffxiv_crafting::Status`.
#[verifier::external_body]
pub(crate) fn read_durability(s: &Status) -> (r: i32)
    ensures
        r == durability_of(*s),
{
    s.durability
}

/// Relies on the public field `craft_points` of `ffxiv_crafting::Status`.
#[verifier::external_body]
pub(crate) fn read_craft_points(s: &Status) -> (r: i32)
    ensures
        r == craft_points_of(*s),
{
    s.craft_points
}

/// Relies on the public field `attributes.level` of `ffxiv_crafting::Status`.
#[verifier::external_body]
pub(crate) fn read_level(s: &Status) -> (r: i32)
    ensures
        r == level_of(*s),
{
    s.attributes.level
}

/// Relies on the public field `attributes.craftsmanship` of `Status`.
#[verifier::external_body]
pub(crate) fn read_craftsmanship(s: &Status) -> (r: i32)
    ensures
        r == craftsmanship_of(*s),
{
    s.attributes.craftsmanship
}

/// Relies on the public field `attributes.control` of `Status`.
#[verifier::external_body]
pub(crate) fn read_control(s: &Status) -> (r: i32)
    ensures
        r == control_of(*s),
{
    s.attributes.control
}

/// Relies on the public field `attributes.craft_points` of `Status`.
#[verifier::external_body]
pub(crate) fn read_max_craft_points(s: &Status) -> (r: i32)
    ensures
        r == max_craft_points_of(*s),
{
    s.attributes.craft_points
}

/// Relies on the public field `recipe.progress` of `ffxiv_crafting::Status`.
#[verifier::external_body]
pub(crate) fn read_target_progress(s: &Status) -> (r: i32)
    ensures
        r == target_progress_of(*s),
{
    s.recipe.progress
}

/// Relies on the public field `recipe.quality` of `ffxiv_crafting::Status`.
#[verifier::external_body]
pub(crate) fn read_target_quality(s: &Status) -> (r: i32)
    ensures
        r == target_quality_of(*s),
{
    s.recipe.quality
}

/// Relies on the public field `recipe.durability` of `ffxiv_crafting::Status`.
#[verifier::external_body]
pub(crate) fn read_target_durability(s: &Status) -> (r: i32)
    ensures
        r == target_durability_of(*s),
{
    s.recipe.durability
}

/// Relies on the public field `recipe.level` of `ffxiv_crafting::Status`.
#[verifier::external_body]
pub(crate) fn read_recipe_level(s: &Status) -> (r: i32)
    ensures
        r == recipe_level_of(*s),
{
    s.recipe.level
}

/// Relies on `ffxiv_crafting::Status::is_action_allowed`, a pure predicate
/// over the fields of the state and the action. Its only arithmetic beyond
/// constant tables is `attributes.level - recipe.level` (the TrainedEye
/// arm), which the bounds below keep inside `i32`.
#[verifier::external_body]
pub(crate) fn action_allowed(s: &Status, sk: Skills) -> (r: bool)
    requires
        1 <= level_of(*s) <= 80,
        -0x4000_0000 <= recipe_level_of(*s) <= 0x4000_0000,
    ensures
        r == allowed(*s, sk),
{
    s.is_action_allowed(sk).is_ok()
}

/// Whether the engine reports an action as legal in a state
/// (`Status::is_action_allowed` returns `Ok`).
pub uninterp spec fn allowed(s: Status, sk: Skills) -> bool;

/// The state the engine produces when an action is cast in a state
/// (`Status::cast_action` applied to a copy).
pub uninterp spec fn next_state(s: Status, sk: Skills) -> Status;

/// Relies on `ffxiv_crafting::Status::cast_action`: a deterministic
/// transition computed from the state and the action alone (the engine
/// draws no randomness), which never writes the `attributes` or `recipe`
/// fields. The caller's state is copied first, so it is left untouched.
/// The `requires` keeps the engine inside its level table (it aborts above
/// level 80) and its unchecked arithmetic inside `i32`; under these ranges
/// one action adds at most `0x100_0000` to progress and quality (their
/// formula values stay under two million and a TrainedEye adds at most the
/// target quality), moves craft points by at most `1024` or onto the pool
/// (TricksOfTheTrade), and moves durability by at most `35` upward or `20`
/// downward or onto the recipe durability (MastersMend, Manipulation).
#[verifier::external_body]
pub(crate) fn apply_action(s: &Status, sk: Skills) -> (r: Status)
    requires
        engine_room(*s, 1),
    ensures
        r == next_state(*s, sk),
        level_of(r) == level_of(*s),
        craftsmanship_of(r) == craftsmanship_of(*s),
        control_of(r) == control_of(*s),
        max_craft_points_of(r) == max_craft_points_of(*s),
        recipe_level_of(r) == recipe_level_of(*s),
        target_progress_of(r) == target_progress_of(*s),
        target_quality_of(r) == target_quality_of(*s),
        target_durability_of(r) == target_durability_of(*s),
        engine_state_sound(r),
        quality_of(*s) <= quality_of(r) <= quality_of(*s) + 0x100_0000,
        progress_of(r) <= progress_of(*s) + 0x100_0000 || progress_of(r) < target_progress_of(*s),
        craft_points_of(r) <= craft_points_of(*s) + 1024,
        craft_points_of(r) >= craft_points_of(*s) - 1024 || craft_points_of(r)
            == max_craft_points_of(*s),
        durability_of(r) <= durability_of(*s) + 35,
        durability_of(r) >= durability_of(*s) - 20 || durability_of(r) == target_durability_of(
            *s,
        ),
{
    let mut t = *s;
    t.cast_action(sk);
    t
}

/// Relies on `ffxiv_crafting::Status::new` and `Recipe::new`: the fresh
/// state starts at progress, quality and step zero, with the recipe's
/// durability and the attribute's craft points, and its internal parts are
/// the engine's own (`engine_state_sound`). `Recipe::new` keeps the given
/// progress, quality, durability and level, and looks the internal ratings
/// up in a table keyed by `rlv`, which covers 1 through 520 and panics
/// outside it.
#[verifier::external_body]
pub fn new_status(
    level: i32,
    craftsmanship: i32,
    control: i32,
    craft_points: i32,
    rlv: i32,
    recipe_level: i32,
    difficulty: i32,
    quality: i32,
    durability: i32,
    cond_flag: i32,
) -> (r: Status)
    requires
        1 <= rlv <= 520,
    ensures
        progress_of(r) == 0,
        quality_of(r) == 0,
        step_of(r) == 0,
        durability_of(r) == durability,
        craft_points_of(r) == craft_points,
        level_of(r) == level,
        craftsmanship_of(r) == craftsmanship,
        control_of(r) == control,
        max_craft_points_of(r) == craft_points,
        target_progress_of(r) == difficulty,
        target_quality_of(r) == quality,
        target_durability_of(r) == durability,
        recipe_level_of(r) == recipe_level,
        engine_state_sound(r),
{
    let attributes = Attributes { level, craftsmanship, control, craft_points };
    let recipe = Recipe::new(rlv, recipe_level, difficulty, quality, durability, cond_flag);
    Status::new(attributes, recipe)
}

/// The default action catalog: the actions considered at every search node,
/// in the order they are tried. Some mechanically valid actions are left
/// out on purpose to bound the branching factor; pass any other list to the
/// search to tune this. Relies only on the `Skills` enum's variants.
#[verifier::external_body]
pub fn default_catalog() -> (r: Vec<Skills>)
    ensures
        r@.len() == 24,
{
    vec![
        Skills::MuscleMemory, Skills::Reflect, Skills::BasicSynthesis,
        Skills::BrandOfTheElements, Skills::CarefulSynthesis, Skills::Groundwork,
        Skills::DelicateSynthesis, Skills::BasicTouch, Skills::StandardTouch,
        Skills::ByregotsBlessing, Skills::PrudentTouch, Skills::PreparatoryTouch,
        Skills::TricksOfTheTrade, Skills::MastersMend, Skills::WasteNot,
        Skills::WasteNotII, Skills::Manipulation, Skills::InnerQuiet,
        Skills::Veneration, Skills::GreatStrides, Skills::Innovation,
        Skills::NameOfTheElements, Skills::Observe, Skills::FinalAppraisal,
    ]
}

} // verus!
