//! Which texture files stand for a block: the candidate names tried in turn for a block's
//! name, and the fixed slots of the atlas that hold extra textures.

use vstd::prelude::*;
use crate::text::chars_of;
use crate::strings::{
    contains_seq, contains_text, ends_with, ends_with_text, is_text, starts_with,
    starts_with_text, trim_end_all, trim_end_text, trim_start_all, trim_start_text,
};

verus! {

/// The texture atlas is a square of this many pixels a side.
pub const ATLAS_SIZE: u32 = 512;

/// Each tile of the atlas is a square of this many pixels a side.
pub const TILE_SIZE: u32 = 16;

/// The number of tiles in a row of the atlas.
pub const TILES_PER_ROW: u32 = 32;

/// The texts held by a list of strings.
pub open spec fn names(v: Seq<String>) -> Seq<Seq<char>> {
    v.map_values(|s: String| s@)
}

/// The candidates of the block names matched by the first arms of the table.
pub open spec fn named_group_a(n: Seq<char>) -> Option<Seq<Seq<char>>> {
    if n == "bedstone"@ {
        Some(seq!["bedrock"@])
    } else if n == "granite"@ {
        Some(seq!["stone"@, "andesite1"@])
    } else if n == "loam"@ {
        Some(seq!["dirt"@])
    } else if n == "verdant_turf"@ {
        Some(seq!["grass_block_top"@])
    } else if n == "dune_sand"@ || n == "sand"@ {
        Some(seq!["sand"@])
    } else if n == "timber_log"@ {
        Some(seq!["oak_log"@])
    } else if n == "hewn_plank"@ || n == "fence"@ {
        Some(seq!["oak_planks"@])
    } else if n == "canopy_leaves"@ {
        Some(seq!["oak_leaves"@])
    } else if n == "snowcap"@ {
        Some(seq!["snow"@])
    } else if n == "still_water"@ {
        Some(seq!["water_still"@, "water_flow"@])
    } else if starts_with(n, "flowing_water_"@) {
        Some(seq!["water_flow"@, "water_still"@])
    } else if n == "rubblestone"@ {
        Some(seq!["cobblestone"@])
    } else if n == "iron_vein"@ {
        Some(seq!["iron_ore"@])
    } else if n == "coal_vein"@ {
        Some(seq!["coal_ore"@])
    } else if n == "copper_vein"@ {
        Some(seq!["copper_ore"@])
    } else if n == "gold_vein"@ {
        Some(seq!["gold_ore"@])
    } else {
        None
    }
}

/// The candidates of the block names matched by the second run of arms of the table.
pub open spec fn named_group_b(n: Seq<char>) -> Option<Seq<Seq<char>>> {
    if n == "diamond_vein"@ {
        Some(seq!["diamond_ore"@])
    } else if n == "tall_grass"@ {
        Some(seq!["short_grass1"@])
    } else if n == "wildflower"@ {
        Some(seq!["dandelion1"@])
    } else if n == "clay_deposit"@ {
        Some(seq!["clay"@])
    } else if n == "kiln_brick"@ {
        Some(seq!["stonebrick1"@])
    } else if n == "gravel_bed"@ {
        Some(seq!["gravel3"@, "gravel"@])
    } else if n == "mossy_rubble"@ {
        Some(seq!["mossy_cobblestone"@])
    } else if n == "ice"@ {
        Some(seq!["ice"@])
    } else if n == "packed_ice"@ {
        Some(seq!["packed_ice"@])
    } else if n == "blue_ice"@ {
        Some(seq!["blue_ice"@])
    } else if n == "hardened_clay"@ {
        Some(seq!["terracotta"@])
    } else if n == "magma_block"@ {
        Some(seq!["magma_block"@, "magma"@])
    } else if n == "tuff"@ {
        Some(seq!["tuff"@])
    } else if n == "netherite_block"@ {
        Some(seq!["netherite_block"@])
    } else if n == "polished_blackstone"@ {
        Some(seq!["polished_blackstone"@])
    } else if n == "dripstone_block"@ {
        Some(seq!["dripstone_block"@])
    } else if n == "torch"@ {
        Some(seq!["torch"@])
    } else if n == "wooden_door"@ {
        Some(seq!["oak_door_side"@])
    } else if starts_with(n, "door_"@) {
        Some(seq!["oak_door_side"@])
    } else {
        None
    }
}

/// The candidates of the block names matched by the third run of arms of the table.
pub open spec fn named_group_c(n: Seq<char>) -> Option<Seq<Seq<char>>> {
    if n == "ladder"@ || n == "ladder_east"@ || n == "ladder_south"@ || n == "ladder_west"@ {
        Some(seq!["ladder"@])
    } else if n == "crafting_table"@ {
        Some(seq!["crafting_table_side"@])
    } else if n == "furnace"@ {
        Some(seq!["furnace_side"@])
    } else if n == "chest"@ {
        Some(seq!["oak_planks"@])
    } else if n == "sapling"@ {
        Some(seq!["oak_sapling"@])
    } else if n == "sugar_cane"@ {
        Some(seq!["sugar_cane"@])
    } else if n == "lava_source"@ {
        Some(seq!["lava_still"@, "lava_flow"@])
    } else if starts_with(n, "flowing_lava_"@) {
        Some(seq!["lava_flow"@, "lava_still"@])
    } else if n == "obsidian"@ {
        Some(seq!["obsidian"@])
    } else if n == "tnt"@ {
        Some(seq!["tnt_side"@])
    } else if starts_with(n, "trapdoor_"@) {
        Some(seq!["oak_trapdoor"@])
    } else if starts_with(n, "bed_"@) {
        Some(seq!["white_wool"@, "oak_planks"@])
    } else if n == "farmland"@ {
        Some(seq!["farmland"@, "farmland_side"@])
    } else if starts_with(n, "wheat_stage_"@) {
        let stage = trim_start_all(n, "wheat_stage_"@);
        Some(seq!["wheat_stage"@ + stage, "wheat_stage_full_"@ + stage])
    } else if n == "fire"@ {
        Some(seq!["fire_0"@, "fire_1"@])
    } else if n == "stone_pressure_plate"@ {
        Some(seq!["plate_stone"@, "button_stone"@])
    } else if n == "stone_slab_bottom"@ || n == "stone_slab_top"@ {
        Some(seq!["cobblestone_slab"@, "stone"@])
    } else if n == "wooden_slab_bottom"@ || n == "wooden_slab_top"@ {
        Some(seq!["oak_planks"@, "acacia_slab"@])
    } else {
        None
    }
}

/// The candidates of the block names matched by the last arms of the table.
pub open spec fn named_group_d(n: Seq<char>) -> Option<Seq<Seq<char>>> {
    if n == "glass_pane"@ {
        Some(seq!["glass_simple"@, "glass"@])
    } else if n == "crystal_pane"@ {
        Some(seq!["glass_simple"@, "glass"@])
    } else if n == "lever_off"@ || n == "lever_on"@ {
        Some(seq!["button_stone"@])
    } else if n == "stone_button_off"@ || n == "stone_button_on"@ {
        Some(seq!["button_stone"@])
    } else if starts_with(n, "stone_stairs_"@) {
        Some(seq!["cobblestone"@, "stone"@])
    } else if starts_with(n, "wooden_stairs_"@) {
        Some(seq!["oak_planks"@])
    } else if starts_with(n, "sign_"@) {
        Some(seq!["oak_planks"@])
    } else if starts_with(n, "wool_"@) {
        Some(seq![trim_start_all(n, "wool_"@) + "_wool"@])
    } else if starts_with(n, "carpet_"@) {
        let color = trim_start_all(n, "carpet_"@);
        Some(seq![color + "_carpet"@, color + "_wool"@])
    } else if n == "cobweb"@ {
        Some(seq!["cobweb"@, "white_wool"@])
    } else if starts_with(n, "vine_"@) {
        Some(seq!["vine"@])
    } else if n == "cactus"@ {
        Some(seq!["cactus_side"@])
    } else if n == "pumpkin"@ {
        Some(seq!["pumpkin_side"@])
    } else if n == "jack_o_lantern"@ {
        Some(seq!["jack_o_lantern"@])
    } else if n == "melon"@ {
        Some(seq!["melon_side"@])
    } else if n == "hay_bale"@ {
        Some(seq!["hay_block_side"@])
    } else if n == "bookshelf"@ {
        Some(seq!["bookshelf"@])
    } else if n == "red_mushroom"@ {
        Some(seq!["red_mushroom"@])
    } else if n == "brown_mushroom"@ {
        Some(seq!["brown_mushroom"@])
    } else if n == "soul_sand"@ {
        Some(seq!["soul_sand"@])
    } else if n == "honey_block"@ {
        Some(seq!["honey_block_side"@])
    } else {
        None
    }
}

/// The texture names that the table gives for a block name, tried first; a name the table
/// does not list stands for itself.
pub open spec fn named_candidates(n: Seq<char>) -> Seq<Seq<char>> {
    match named_group_a(n) {
        Some(c) => c,
        None => match named_group_b(n) {
            Some(c) => c,
            None => match named_group_c(n) {
                Some(c) => c,
                None => match named_group_d(n) {
                    Some(c) => c,
                    None => seq![n],
                },
            },
        },
    }
}

/// The block name without its trailing orientation and state words.
pub open spec fn normalized_block_name(n: Seq<char>) -> Seq<char> {
    trim_end_all(
        trim_end_all(
            trim_end_all(
                trim_end_all(
                    trim_end_all(
                        trim_end_all(
                            trim_end_all(trim_end_all(n, "_north"@), "_east"@),
                            "_south"@,
                        ),
                        "_west"@,
                    ),
                    "_open"@,
                ),
                "_closed"@,
            ),
            "_on"@,
        ),
        "_off"@,
    )
}

/// `s` when `c` holds, else nothing.
pub open spec fn when(c: bool, s: Seq<Seq<char>>) -> Seq<Seq<char>> {
    if c {
        s
    } else {
        Seq::empty()
    }
}

/// The shape-based fallbacks, tried after the table's names and the normalized name.
pub open spec fn shape_candidates(n: Seq<char>) -> Seq<Seq<char>> {
    when(contains_seq(n, "door"@), seq!["oak_door_side"@])
        + when(contains_seq(n, "trapdoor"@), seq!["oak_trapdoor"@])
        + when(
        contains_seq(n, "stairs"@),
        if contains_seq(n, "stone"@) {
            seq!["cobblestone"@]
        } else {
            seq!["oak_planks"@]
        },
    ) + when(
        contains_seq(n, "slab"@),
        if contains_seq(n, "stone"@) {
            seq!["cobblestone_slab"@, "stone"@]
        } else {
            seq!["oak_planks"@]
        },
    ) + when(
        contains_seq(n, "button"@) || contains_seq(n, "lever"@) || contains_seq(
            n,
            "pressure_plate"@,
        ),
        seq!["button_stone"@],
    ) + when(contains_seq(n, "log"@), seq!["oak_log"@]) + when(
        contains_seq(n, "plank"@),
        seq!["oak_planks"@],
    ) + when(contains_seq(n, "leaf"@), seq!["oak_leaves"@]) + when(
        contains_seq(n, "ore"@) || ends_with(n, "_vein"@),
        seq!["iron_ore"@],
    ) + when(contains_seq(n, "water"@), seq!["water_still"@, "water_flow"@]) + when(
        contains_seq(n, "lava"@),
        seq!["lava_still"@, "lava_flow"@],
    )
}

/// All texture names tried for a block, in order: the table's names, the normalized name
/// when it differs, the shape-based fallbacks, and `stone` last.
pub open spec fn texture_candidates(n: Seq<char>) -> Seq<Seq<char>> {
    named_candidates(n) + when(normalized_block_name(n) != n, seq![normalized_block_name(n)])
        + shape_candidates(n) + seq!["stone"@]
}

fn owned(lit: &str) -> (r: String)
    ensures
        r@ == lit@,
{
    let mut s = String::new();
    s.push_str(lit);
    assert(s@ =~= lit@);
    s
}

fn push_name(v: &mut Vec<String>, lit: &str)
    ensures
        names(final(v)@) == names(old(v)@).push(lit@),
{
    v.push(owned(lit));
    assert(names(final(v)@) =~= names(old(v)@).push(lit@));
}

fn push_owned(v: &mut Vec<String>, s: String)
    ensures
        names(final(v)@) == names(old(v)@).push(s@),
{
    let ghost t = s@;
    v.push(s);
    assert(names(final(v)@) =~= names(old(v)@).push(t));
}

fn one(a: &str) -> (r: Vec<String>)
    ensures
        names(r@) == seq![a@],
{
    let mut v: Vec<String> = Vec::new();
    push_name(&mut v, a);
    assert(names(v@) =~= seq![a@]);
    v
}

fn two(a: &str, b: &str) -> (r: Vec<String>)
    ensures
        names(r@) == seq![a@, b@],
{
    let mut v: Vec<String> = Vec::new();
    push_name(&mut v, a);
    push_name(&mut v, b);
    assert(names(v@) =~= seq![a@, b@]);
    v
}

/// `head` followed by `tail`.
fn joined(head: &[char], tail: &[char]) -> (r: String)
    ensures
        r@ == head@ + tail@,
{
    let mut s = String::new();
    let mut i: usize = 0;
    while i < head.len()
        invariant
            i <= head@.len(),
            s@ == head@.subrange(0, i as int),
        decreases head@.len() - i,
    {
        s.push(head[i]);
        i += 1;
        assert(s@ =~= head@.subrange(0, i as int));
    }
    let mut j: usize = 0;
    while j < tail.len()
        invariant
            i == head@.len(),
            j <= tail@.len(),
            s@ == head@ + tail@.subrange(0, j as int),
        decreases tail@.len() - j,
    {
        s.push(tail[j]);
        j += 1;
        assert(s@ =~= head@ + tail@.subrange(0, j as int));
    }
    assert(tail@.subrange(0, j as int) =~= tail@);
    s
}

fn group_a(name: &[char]) -> (r: Option<Vec<String>>)
    ensures
        match r {
            Some(v) => named_group_a(name@) == Some(names(v@)),
            None => named_group_a(name@) is None,
        },
{
    if is_text(name, "bedstone") {
        Some(one("bedrock"))
    } else if is_text(name, "granite") {
        Some(two("stone", "andesite1"))
    } else if is_text(name, "loam") {
        Some(one("dirt"))
    } else if is_text(name, "verdant_turf") {
        Some(one("grass_block_top"))
    } else if is_text(name, "dune_sand") || is_text(name, "sand") {
        Some(one("sand"))
    } else if is_text(name, "timber_log") {
        Some(one("oak_log"))
    } else if is_text(name, "hewn_plank") || is_text(name, "fence") {
        Some(one("oak_planks"))
    } else if is_text(name, "canopy_leaves") {
        Some(one("oak_leaves"))
    } else if is_text(name, "snowcap") {
        Some(one("snow"))
    } else if is_text(name, "still_water") {
        Some(two("water_still", "water_flow"))
    } else if starts_with_text(name, "flowing_water_") {
        Some(two("water_flow", "water_still"))
    } else if is_text(name, "rubblestone") {
        Some(one("cobblestone"))
    } else if is_text(name, "iron_vein") {
        Some(one("iron_ore"))
    } else if is_text(name, "coal_vein") {
        Some(one("coal_ore"))
    } else if is_text(name, "copper_vein") {
        Some(one("copper_ore"))
    } else if is_text(name, "gold_vein") {
        Some(one("gold_ore"))
    } else {
        None
    }
}

fn group_b(name: &[char]) -> (r: Option<Vec<String>>)
    ensures
        match r {
            Some(v) => named_group_b(name@) == Some(names(v@)),
            None => named_group_b(name@) is None,
        },
{
    if is_text(name, "diamond_vein") {
        Some(one("diamond_ore"))
    } else if is_text(name, "tall_grass") {
        Some(one("short_grass1"))
    } else if is_text(name, "wildflower") {
        Some(one("dandelion1"))
    } else if is_text(name, "clay_deposit") {
        Some(one("clay"))
    } else if is_text(name, "kiln_brick") {
        Some(one("stonebrick1"))
    } else if is_text(name, "gravel_bed") {
        Some(two("gravel3", "gravel"))
    } else if is_text(name, "mossy_rubble") {
        Some(one("mossy_cobblestone"))
    } else if is_text(name, "ice") {
        Some(one("ice"))
    } else if is_text(name, "packed_ice") {
        Some(one("packed_ice"))
    } else if is_text(name, "blue_ice") {
        Some(one("blue_ice"))
    } else if is_text(name, "hardened_clay") {
        Some(one("terracotta"))
    } else if is_text(name, "magma_block") {
        Some(two("magma_block", "magma"))
    } else if is_text(name, "tuff") {
        Some(one("tuff"))
    } else if is_text(name, "netherite_block") {
        Some(one("netherite_block"))
    } else if is_text(name, "polished_blackstone") {
        Some(one("polished_blackstone"))
    } else if is_text(name, "dripstone_block") {
        Some(one("dripstone_block"))
    } else if is_text(name, "torch") {
        Some(one("torch"))
    } else if is_text(name, "wooden_door") {
        Some(one("oak_door_side"))
    } else if starts_with_text(name, "door_") {
        Some(one("oak_door_side"))
    } else {
        None
    }
}

fn group_c(name: &[char]) -> (r: Option<Vec<String>>)
    ensures
        match r {
            Some(v) => named_group_c(name@) == Some(names(v@)),
            None => named_group_c(name@) is None,
        },
{
    if is_text(name, "ladder") || is_text(name, "ladder_east") || is_text(name, "ladder_south")
        || is_text(name, "ladder_west") {
        Some(one("ladder"))
    } else if is_text(name, "crafting_table") {
        Some(one("crafting_table_side"))
    } else if is_text(name, "furnace") {
        Some(one("furnace_side"))
    } else if is_text(name, "chest") {
        Some(one("oak_planks"))
    } else if is_text(name, "sapling") {
        Some(one("oak_sapling"))
    } else if is_text(name, "sugar_cane") {
        Some(one("sugar_cane"))
    } else if is_text(name, "lava_source") {
        Some(two("lava_still", "lava_flow"))
    } else if starts_with_text(name, "flowing_lava_") {
        Some(two("lava_flow", "lava_still"))
    } else if is_text(name, "obsidian") {
        Some(one("obsidian"))
    } else if is_text(name, "tnt") {
        Some(one("tnt_side"))
    } else if starts_with_text(name, "trapdoor_") {
        Some(one("oak_trapdoor"))
    } else if starts_with_text(name, "bed_") {
        Some(two("white_wool", "oak_planks"))
    } else if is_text(name, "farmland") {
        Some(two("farmland", "farmland_side"))
    } else if starts_with_text(name, "wheat_stage_") {
        let stage = trim_start_text(name, "wheat_stage_");
        let mut v: Vec<String> = Vec::new();
        push_owned(&mut v, joined(chars_of("wheat_stage").as_slice(), stage.as_slice()));
        push_owned(&mut v, joined(chars_of("wheat_stage_full_").as_slice(), stage.as_slice()));
        assert(names(v@) =~= seq![
            "wheat_stage"@ + stage@,
            "wheat_stage_full_"@ + stage@,
        ]);
        Some(v)
    } else if is_text(name, "fire") {
        Some(two("fire_0", "fire_1"))
    } else if is_text(name, "stone_pressure_plate") {
        Some(two("plate_stone", "button_stone"))
    } else if is_text(name, "stone_slab_bottom") || is_text(name, "stone_slab_top") {
        Some(two("cobblestone_slab", "stone"))
    } else if is_text(name, "wooden_slab_bottom") || is_text(name, "wooden_slab_top") {
        Some(two("oak_planks", "acacia_slab"))
    } else {
        None
    }
}

fn group_d(name: &[char]) -> (r: Option<Vec<String>>)
    ensures
        match r {
            Some(v) => named_group_d(name@) == Some(names(v@)),
            None => named_group_d(name@) is None,
        },
{
    if is_text(name, "glass_pane") {
        Some(two("glass_simple", "glass"))
    } else if is_text(name, "crystal_pane") {
        Some(two("glass_simple", "glass"))
    } else if is_text(name, "lever_off") || is_text(name, "lever_on") {
        Some(one("button_stone"))
    } else if is_text(name, "stone_button_off") || is_text(name, "stone_button_on") {
        Some(one("button_stone"))
    } else if starts_with_text(name, "stone_stairs_") {
        Some(two("cobblestone", "stone"))
    } else if starts_with_text(name, "wooden_stairs_") {
        Some(one("oak_planks"))
    } else if starts_with_text(name, "sign_") {
        Some(one("oak_planks"))
    } else if starts_with_text(name, "wool_") {
        let color = trim_start_text(name, "wool_");
        let mut v: Vec<String> = Vec::new();
        push_owned(&mut v, joined(color.as_slice(), chars_of("_wool").as_slice()));
        assert(names(v@) =~= seq![color@ + "_wool"@]);
        Some(v)
    } else if starts_with_text(name, "carpet_") {
        let color = trim_start_text(name, "carpet_");
        let mut v: Vec<String> = Vec::new();
        push_owned(&mut v, joined(color.as_slice(), chars_of("_carpet").as_slice()));
        push_owned(&mut v, joined(color.as_slice(), chars_of("_wool").as_slice()));
        assert(names(v@) =~= seq![color@ + "_carpet"@, color@ + "_wool"@]);
        Some(v)
    } else if is_text(name, "cobweb") {
        Some(two("cobweb", "white_wool"))
    } else if starts_with_text(name, "vine_") {
        Some(one("vine"))
    } else if is_text(name, "cactus") {
        Some(one("cactus_side"))
    } else if is_text(name, "pumpkin") {
        Some(one("pumpkin_side"))
    } else if is_text(name, "jack_o_lantern") {
        Some(one("jack_o_lantern"))
    } else if is_text(name, "melon") {
        Some(one("melon_side"))
    } else if is_text(name, "hay_bale") {
        Some(one("hay_block_side"))
    } else if is_text(name, "bookshelf") {
        Some(one("bookshelf"))
    } else if is_text(name, "red_mushroom") {
        Some(one("red_mushroom"))
    } else if is_text(name, "brown_mushroom") {
        Some(one("brown_mushroom"))
    } else if is_text(name, "soul_sand") {
        Some(one("soul_sand"))
    } else if is_text(name, "honey_block") {
        Some(one("honey_block_side"))
    } else {
        None
    }
}

fn named(name: &[char]) -> (r: Vec<String>)
    ensures
        names(r@) == named_candidates(name@),
{
    match group_a(name) {
        Some(v) => v,
        None => match group_b(name) {
            Some(v) => v,
            None => match group_c(name) {
                Some(v) => v,
                None => match group_d(name) {
                    Some(v) => v,
                    None => {
                        let mut v: Vec<String> = Vec::new();
                        push_owned(&mut v, crate::text::string_of(name));
                        assert(names(v@) =~= seq![name@]);
                        v
                    },
                },
            },
        },
    }
}

fn normalized(name: &[char]) -> (r: Vec<char>)
    ensures
        r@ == normalized_block_name(name@),
{
    let a = trim_end_text(name, "_north");
    let b = trim_end_text(a.as_slice(), "_east");
    let c = trim_end_text(b.as_slice(), "_south");
    let d = trim_end_text(c.as_slice(), "_west");
    let e = trim_end_text(d.as_slice(), "_open");
    let f = trim_end_text(e.as_slice(), "_closed");
    let g = trim_end_text(f.as_slice(), "_on");
    trim_end_text(g.as_slice(), "_off")
}

fn seq_differs(a: &[char], b: &[char]) -> (r: bool)
    ensures
        r == (a@ != b@),
{
    if a.len() != b.len() {
        return true;
    }
    let mut i: usize = 0;
    while i < a.len()
        invariant
            a@.len() == b@.len(),
            i <= a@.len(),
            forall|j: int| 0 <= j < i ==> a@[j] == b@[j],
        decreases a@.len() - i,
    {
        if a[i] != b[i] {
            return true;
        }
        i += 1;
    }
    assert(a@ =~= b@);
    false
}

fn append_when(v: &mut Vec<String>, c: bool, extra: Vec<String>)
    ensures
        names(final(v)@) == names(old(v)@) + when(c, names(extra@)),
{
    if c {
        let mut extra = extra;
        let ghost e = names(extra@);
        v.append(&mut extra);
        assert(names(final(v)@) =~= names(old(v)@) + e);
    } else {
        assert(names(old(v)@) + when(c, names(extra@)) =~= names(old(v)@));
    }
}

fn shapes(name: &[char]) -> (r: Vec<String>)
    ensures
        names(r@) == shape_candidates(name@),
{
    let n = name;
    let mut v: Vec<String> = Vec::new();
    let has_stone = contains_text(n, "stone");
    append_when(&mut v, contains_text(n, "door"), one("oak_door_side"));
    append_when(&mut v, contains_text(n, "trapdoor"), one("oak_trapdoor"));
    append_when(
        &mut v,
        contains_text(n, "stairs"),
        if has_stone {
            one("cobblestone")
        } else {
            one("oak_planks")
        },
    );
    append_when(
        &mut v,
        contains_text(n, "slab"),
        if has_stone {
            two("cobblestone_slab", "stone")
        } else {
            one("oak_planks")
        },
    );
    append_when(
        &mut v,
        contains_text(n, "button") || contains_text(n, "lever") || contains_text(n, "pressure_plate"),
        one("button_stone"),
    );
    append_when(&mut v, contains_text(n, "log"), one("oak_log"));
    append_when(&mut v, contains_text(n, "plank"), one("oak_planks"));
    append_when(&mut v, contains_text(n, "leaf"), one("oak_leaves"));
    append_when(&mut v, contains_text(n, "ore") || ends_with_text(n, "_vein"), one("iron_ore"));
    append_when(&mut v, contains_text(n, "water"), two("water_still", "water_flow"));
    append_when(&mut v, contains_text(n, "lava"), two("lava_still", "lava_flow"));
    proof {
        let e = Seq::<Seq<char>>::empty();
        assert(e + when(contains_seq(name@, "door"@), seq!["oak_door_side"@]) =~= when(
            contains_seq(name@, "door"@),
            seq!["oak_door_side"@],
        ));
    }
    v
}

/// The texture names tried for a block name, in order; the first that a texture file
/// exists for is the block's texture, and `stone` comes last.
pub fn texture_name_candidates(block_name: &str) -> (r: Vec<String>)
    ensures
        names(r@) == texture_candidates(block_name@),
{
    let name = chars_of(block_name);
    let mut candidates = named(name.as_slice());
    let norm = normalized(name.as_slice());
    let differs = seq_differs(norm.as_slice(), name.as_slice());
    let mut extra: Vec<String> = Vec::new();
    if differs {
        push_owned(&mut extra, crate::text::string_of(norm.as_slice()));
        assert(names(extra@) =~= seq![norm@]);
    }
    append_when(&mut candidates, differs, extra);
    let mut tail = shapes(name.as_slice());
    candidates.append(&mut tail);
    push_name(&mut candidates, "stone");
    proof {
        let n = block_name@;
        assert(names(candidates@) =~= named_candidates(n) + when(
            normalized_block_name(n) != n,
            seq![normalized_block_name(n)],
        ) + shape_candidates(n) + seq!["stone"@]);
    }
    candidates
}

/// The first of the candidates that a loaded texture exists for, else `stone`.
pub open spec fn first_loaded(c: Seq<Seq<char>>, loaded: Seq<Seq<char>>) -> Seq<char>
    decreases c.len(),
{
    if c.len() == 0 {
        "stone"@
    } else if loaded.contains(c[0]) {
        c[0]
    } else {
        first_loaded(c.drop_first(), loaded)
    }
}

/// The texture a block is drawn with, given the names of the loaded textures; `air` has none.
pub open spec fn resolved_texture(n: Seq<char>, loaded: Seq<Seq<char>>) -> Option<Seq<char>> {
    if n == "air"@ {
        None
    } else {
        Some(first_loaded(texture_candidates(n), loaded))
    }
}

fn is_loaded(name: &String, loaded: &[String]) -> (r: bool)
    ensures
        r == names(loaded@).contains(name@),
{
    let mut i: usize = 0;
    while i < loaded.len()
        invariant
            i <= loaded@.len(),
            forall|j: int| 0 <= j < i ==> loaded@[j]@ != name@,
        decreases loaded@.len() - i,
    {
        if loaded[i] == *name {
            assert(names(loaded@)[i as int] == name@);
            return true;
        }
        i += 1;
    }
    proof {
        if names(loaded@).contains(name@) {
            let k = choose|k: int| 0 <= k < names(loaded@).len() && names(loaded@)[k] == name@;
            assert(loaded@[k]@ == name@);
        }
    }
    false
}

/// The texture a block is drawn with: the first of its candidate names that a texture was
/// loaded for, `stone` when none was, and no texture for `air`.
pub fn resolve_texture_name_for_block(block_name: &str, loaded: &[String]) -> (r: Option<String>)
    ensures
        match r {
            Some(t) => resolved_texture(block_name@, names(loaded@)) == Some(t@),
            None => resolved_texture(block_name@, names(loaded@)) is None,
        },
{
    let name = chars_of(block_name);
    if is_text(name.as_slice(), "air") {
        return None;
    }
    let candidates = texture_name_candidates(block_name);
    let ghost all = names(candidates@);
    assert(all.subrange(0, all.len() as int) =~= all);
    let mut i: usize = 0;
    while i < candidates.len()
        invariant
            i <= candidates@.len(),
            all == names(candidates@),
            all == texture_candidates(block_name@),
            block_name@ != "air"@,
            first_loaded(all, names(loaded@)) == first_loaded(all.subrange(i as int, all.len() as int), names(loaded@)),
        decreases candidates@.len() - i,
    {
        let ghost rest = all.subrange(i as int, all.len() as int);
        assert(rest[0] == candidates@[i as int]@);
        if is_loaded(&candidates[i], loaded) {
            assert(first_loaded(rest, names(loaded@)) == rest[0]);
            let found = candidates[i].clone();
            assert(found@ == rest[0]);
            return Some(found);
        }
        assert(rest.drop_first() =~= all.subrange(i + 1, all.len() as int));
        i += 1;
    }
    assert(all.subrange(i as int, all.len() as int) =~= Seq::<Seq<char>>::empty());
    Some(owned("stone"))
}

proof fn lemma_texts_differ(a: Seq<char>, b: Seq<char>)
    requires
        a.len() != b.len() || (a.len() > 0 && b.len() > 0 && a[0] != b[0]) || (a.len() > 1
            && b.len() > 1 && a[1] != b[1]),
    ensures
        a != b,
{
}

/// The metals whose ore lies in the world as veins named `<metal>_vein`.
pub open spec fn vein_metal(metal: Seq<char>) -> bool {
    metal == "iron"@ || metal == "coal"@ || metal == "copper"@ || metal == "gold"@ || metal
        == "diamond"@
}

/// Each ore vein is drawn with the ore texture of its own metal: the first name tried for
/// `<metal>_vein` is `<metal>_ore`, and whenever a texture of that name is loaded the vein
/// resolves to it, whatever else is loaded.
pub proof fn lemma_vein_drawn_with_its_ore(metal: Seq<char>, loaded: Seq<Seq<char>>)
    requires
        vein_metal(metal),
    ensures
        texture_candidates(metal + "_vein"@)[0] == metal + "_ore"@,
        loaded.contains(metal + "_ore"@) ==> resolved_texture(metal + "_vein"@, loaded) == Some(
            metal + "_ore"@,
        ),
{
    reveal_strlit("iron");
    reveal_strlit("coal");
    reveal_strlit("copper");
    reveal_strlit("gold");
    reveal_strlit("diamond");
    reveal_strlit("_vein");
    reveal_strlit("_ore");
    reveal_strlit("iron_vein");
    reveal_strlit("coal_vein");
    reveal_strlit("copper_vein");
    reveal_strlit("gold_vein");
    reveal_strlit("diamond_vein");
    reveal_strlit("iron_ore");
    reveal_strlit("coal_ore");
    reveal_strlit("copper_ore");
    reveal_strlit("gold_ore");
    reveal_strlit("diamond_ore");
    reveal_strlit("bedstone");
    reveal_strlit("granite");
    reveal_strlit("loam");
    reveal_strlit("verdant_turf");
    reveal_strlit("dune_sand");
    reveal_strlit("sand");
    reveal_strlit("timber_log");
    reveal_strlit("hewn_plank");
    reveal_strlit("fence");
    reveal_strlit("canopy_leaves");
    reveal_strlit("snowcap");
    reveal_strlit("still_water");
    reveal_strlit("flowing_water_");
    reveal_strlit("rubblestone");
    reveal_strlit("air");
    let n = metal + "_vein"@;
    let ore = metal + "_ore"@;
    if metal == "iron"@ {
        assert(n =~= "iron_vein"@);
        assert(ore =~= "iron_ore"@);
        lemma_texts_differ(n, "bedstone"@);
        lemma_texts_differ(n, "granite"@);
        lemma_texts_differ(n, "loam"@);
        lemma_texts_differ(n, "verdant_turf"@);
        lemma_texts_differ(n, "dune_sand"@);
        lemma_texts_differ(n, "sand"@);
        lemma_texts_differ(n, "timber_log"@);
        lemma_texts_differ(n, "hewn_plank"@);
        lemma_texts_differ(n, "fence"@);
        lemma_texts_differ(n, "canopy_leaves"@);
        lemma_texts_differ(n, "snowcap"@);
        lemma_texts_differ(n, "still_water"@);
        lemma_texts_differ(n, "rubblestone"@);
        assert(named_candidates(n) == seq![ore]);
    } else if metal == "coal"@ {
        assert(n =~= "coal_vein"@);
        assert(ore =~= "coal_ore"@);
        lemma_texts_differ(n, "bedstone"@);
        lemma_texts_differ(n, "granite"@);
        lemma_texts_differ(n, "loam"@);
        lemma_texts_differ(n, "verdant_turf"@);
        lemma_texts_differ(n, "dune_sand"@);
        lemma_texts_differ(n, "sand"@);
        lemma_texts_differ(n, "timber_log"@);
        lemma_texts_differ(n, "hewn_plank"@);
        lemma_texts_differ(n, "fence"@);
        lemma_texts_differ(n, "canopy_leaves"@);
        lemma_texts_differ(n, "snowcap"@);
        lemma_texts_differ(n, "still_water"@);
        lemma_texts_differ(n, "rubblestone"@);
        lemma_texts_differ(n, "iron_vein"@);
        assert(named_candidates(n) == seq![ore]);
    } else if metal == "copper"@ {
        assert(n =~= "copper_vein"@);
        assert(ore =~= "copper_ore"@);
        lemma_texts_differ(n, "bedstone"@);
        lemma_texts_differ(n, "granite"@);
        lemma_texts_differ(n, "loam"@);
        lemma_texts_differ(n, "verdant_turf"@);
        lemma_texts_differ(n, "dune_sand"@);
        lemma_texts_differ(n, "sand"@);
        lemma_texts_differ(n, "timber_log"@);
        lemma_texts_differ(n, "hewn_plank"@);
        lemma_texts_differ(n, "fence"@);
        lemma_texts_differ(n, "canopy_leaves"@);
        lemma_texts_differ(n, "snowcap"@);
        lemma_texts_differ(n, "still_water"@);
        lemma_texts_differ(n, "rubblestone"@);
        lemma_texts_differ(n, "iron_vein"@);
        lemma_texts_differ(n, "coal_vein"@);
        assert(named_candidates(n) == seq![ore]);
    } else if metal == "gold"@ {
        assert(n =~= "gold_vein"@);
        assert(ore =~= "gold_ore"@);
        lemma_texts_differ(n, "bedstone"@);
        lemma_texts_differ(n, "granite"@);
        lemma_texts_differ(n, "loam"@);
        lemma_texts_differ(n, "verdant_turf"@);
        lemma_texts_differ(n, "dune_sand"@);
        lemma_texts_differ(n, "sand"@);
        lemma_texts_differ(n, "timber_log"@);
        lemma_texts_differ(n, "hewn_plank"@);
        lemma_texts_differ(n, "fence"@);
        lemma_texts_differ(n, "canopy_leaves"@);
        lemma_texts_differ(n, "snowcap"@);
        lemma_texts_differ(n, "still_water"@);
        lemma_texts_differ(n, "rubblestone"@);
        lemma_texts_differ(n, "iron_vein"@);
        lemma_texts_differ(n, "coal_vein"@);
        lemma_texts_differ(n, "copper_vein"@);
        assert(named_candidates(n) == seq![ore]);
    } else {
        assert(n =~= "diamond_vein"@);
        assert(ore =~= "diamond_ore"@);
        assert(!starts_with(n, "flowing_water_"@));
        lemma_texts_differ(n, "bedstone"@);
        lemma_texts_differ(n, "granite"@);
        lemma_texts_differ(n, "loam"@);
        lemma_texts_differ(n, "verdant_turf"@);
        lemma_texts_differ(n, "dune_sand"@);
        lemma_texts_differ(n, "sand"@);
        lemma_texts_differ(n, "timber_log"@);
        lemma_texts_differ(n, "hewn_plank"@);
        lemma_texts_differ(n, "fence"@);
        lemma_texts_differ(n, "canopy_leaves"@);
        lemma_texts_differ(n, "snowcap"@);
        lemma_texts_differ(n, "still_water"@);
        lemma_texts_differ(n, "rubblestone"@);
        lemma_texts_differ(n, "iron_vein"@);
        lemma_texts_differ(n, "coal_vein"@);
        lemma_texts_differ(n, "copper_vein"@);
        lemma_texts_differ(n, "gold_vein"@);
        assert(named_group_a(n) is None);
        assert(named_candidates(n) == seq![ore]);
    }
    assert(named_candidates(n) == seq![ore]);
    assert(texture_candidates(n)[0] == ore);
    assert(n != "air"@);
}

/// The extra textures and the fixed atlas slots that hold them.
pub open spec fn extra_slot_table() -> Seq<(Seq<char>, u32)> {
    seq![
        ("oak_log_top"@, 960u32),
        ("oak_log"@, 961u32),
        ("crafting_table_top"@, 962u32),
        ("crafting_table_front"@, 963u32),
        ("crafting_table_side"@, 964u32),
        ("torch"@, 965u32),
        ("torch_flame"@, 966u32),
        ("water_still"@, 967u32),
        ("water_flow"@, 968u32),
        ("lava_still"@, 969u32),
        ("lava_flow"@, 970u32),
    ]
}

/// The texts and slots of a list of named slots.
pub open spec fn slot_entries(a: Seq<(&str, u32)>) -> Seq<(Seq<char>, u32)> {
    a.map_values(|e: (&str, u32)| (e.0@, e.1))
}

/// The extra textures placed at fixed slots of the atlas, after the blocks' own tiles.
pub fn extra_texture_slots() -> (r: [(&'static str, u32); 11])
    ensures
        slot_entries(r@) == extra_slot_table(),
{
    let r = [
        ("oak_log_top", 960u32),
        ("oak_log", 961),
        ("crafting_table_top", 962),
        ("crafting_table_front", 963),
        ("crafting_table_side", 964),
        ("torch", 965),
        ("torch_flame", 966),
        ("water_still", 967),
        ("water_flow", 968),
        ("lava_still", 969),
        ("lava_flow", 970),
    ];
    assert(slot_entries(r@) =~= extra_slot_table());
    r
}

/// The pixel at which the tile of a slot begins: slots run along rows of the atlas.
pub fn slot_pixel_origin(slot: u32) -> (r: (u32, u32))
    ensures
        r.0 == (slot % TILES_PER_ROW) * TILE_SIZE,
        r.1 == (slot / TILES_PER_ROW) * TILE_SIZE,
{
    ((slot % TILES_PER_ROW) * TILE_SIZE, (slot / TILES_PER_ROW) * TILE_SIZE)
}

/// The extra textures that are placed, in order: each whose texture was loaded, up to the
/// first slot past the end of the atlas.
pub open spec fn extra_placements(t: Seq<(Seq<char>, u32)>, loaded: Seq<Seq<char>>) -> Seq<(Seq<char>, u32)>
    decreases t.len(),
{
    if t.len() == 0 {
        Seq::empty()
    } else if !loaded.contains(t[0].0) {
        extra_placements(t.drop_first(), loaded)
    } else if t[0].1 >= TILES_PER_ROW * TILES_PER_ROW {
        Seq::empty()
    } else {
        seq![t[0]] + extra_placements(t.drop_first(), loaded)
    }
}

/// The extra textures placed in the atlas and their slots, given the loaded textures' names.
pub fn extra_texture_placements(loaded: &[String]) -> (r: Vec<(&'static str, u32)>)
    ensures
        slot_entries(r@) == extra_placements(extra_slot_table(), names(loaded@)),
{
    let table = extra_texture_slots();
    let ghost all = slot_entries(table@);
    assert(all.subrange(0, 11) =~= all);
    let mut r: Vec<(&'static str, u32)> = Vec::new();
    assert(slot_entries(r@) + all =~= all);
    let mut i: usize = 0;
    while i < 11
        invariant
            i <= 11,
            all == slot_entries(table@),
            all == extra_slot_table(),
            extra_placements(all, names(loaded@)) == slot_entries(r@) + extra_placements(all.subrange(i as int, 11), names(loaded@)),
        decreases 11 - i,
    {
        let (name, slot) = table[i];
        let ghost rest = all.subrange(i as int, 11);
        assert(rest.drop_first() =~= all.subrange(i + 1, 11));
        assert(rest[0] == (name@, slot));
        let mut owned_name = String::new();
        owned_name.push_str(name);
        assert(owned_name@ =~= name@);
        if !is_loaded(&owned_name, loaded) {
            i += 1;
            continue;
        }
        if slot >= TILES_PER_ROW * TILES_PER_ROW {
            assert(slot_entries(r@) + Seq::<(Seq<char>, u32)>::empty() =~= slot_entries(r@));
            return r;
        }
        let ghost before = slot_entries(r@);
        r.push((name, slot));
        assert(slot_entries(r@) =~= before + seq![(name@, slot)]);
        i += 1;
    }
    assert(all.subrange(11, 11) =~= Seq::<(Seq<char>, u32)>::empty());
    assert(slot_entries(r@) + Seq::<(Seq<char>, u32)>::empty() =~= slot_entries(r@));
    r
}

/// `a` comes before `b` in the order of `str`'s comparison: character by character, a proper
/// prefix first.
pub open spec fn text_lt(a: Seq<char>, b: Seq<char>) -> bool
    decreases a.len(),
{
    if a.len() == 0 {
        b.len() > 0
    } else if b.len() == 0 {
        false
    } else if a[0] != b[0] {
        a[0] < b[0]
    } else {
        text_lt(a.drop_first(), b.drop_first())
    }
}

proof fn lemma_text_lt_total(a: Seq<char>, b: Seq<char>)
    ensures
        text_lt(a, b) || text_lt(b, a) || a == b,
        !(text_lt(a, b) && text_lt(b, a)),
    decreases a.len(),
{
    if a.len() > 0 && b.len() > 0 {
        if a[0] == b[0] {
            lemma_text_lt_total(a.drop_first(), b.drop_first());
            if a.drop_first() == b.drop_first() {
                assert(a =~= seq![a[0]] + a.drop_first());
                assert(b =~= seq![b[0]] + b.drop_first());
            }
        }
    } else if a.len() == 0 && b.len() == 0 {
        assert(a =~= b);
    }
}

proof fn lemma_text_lt_transitive(a: Seq<char>, b: Seq<char>, c: Seq<char>)
    requires
        text_lt(a, b),
        text_lt(b, c),
    ensures
        text_lt(a, c),
    decreases a.len(),
{
    if a.len() > 0 && b.len() > 0 && c.len() > 0 && a[0] == b[0] && b[0] == c[0] {
        lemma_text_lt_transitive(a.drop_first(), b.drop_first(), c.drop_first());
    }
}

fn text_less(a: &[char], b: &[char]) -> (r: bool)
    ensures
        r == text_lt(a@, b@),
{
    let mut i: usize = 0;
    assert(a@.subrange(0, a@.len() as int) =~= a@);
    assert(b@.subrange(0, b@.len() as int) =~= b@);
    while i < a.len() && i < b.len() && a[i] == b[i]
        invariant
            i <= a@.len(),
            i <= b@.len(),
            text_lt(a@, b@) == text_lt(a@.subrange(i as int, a@.len() as int), b@.subrange(i as int, b@.len() as int)),
        decreases a@.len() - i,
    {
        proof {
            let x = a@.subrange(i as int, a@.len() as int);
            let y = b@.subrange(i as int, b@.len() as int);
            assert(x.drop_first() =~= a@.subrange(i + 1, a@.len() as int));
            assert(y.drop_first() =~= b@.subrange(i + 1, b@.len() as int));
        }
        i += 1;
    }
    let ghost x = a@.subrange(i as int, a@.len() as int);
    let ghost y = b@.subrange(i as int, b@.len() as int);
    if i == a.len() {
        i < b.len()
    } else if i == b.len() {
        false
    } else {
        assert(x[0] == a@[i as int] && y[0] == b@[i as int]);
        a[i] < b[i]
    }
}

/// The names in the order `sort` puts them.
pub open spec fn names_sorted(s: Seq<Seq<char>>) -> bool {
    forall|i: int, j: int| 0 <= i < j < s.len() ==> !text_lt(s[j], s[i])
}

/// Sorts texture names into the order of `str`'s comparison.
pub fn sort_names(list: &[String]) -> (r: Vec<String>)
    ensures
        names_sorted(names(r@)),
        names(r@).to_multiset() == names(list@).to_multiset(),
{
    broadcast use vstd::seq_lib::group_to_multiset_ensures;
    let mut r: Vec<String> = Vec::new();
    let mut i: usize = 0;
    while i < list.len()
        invariant
            i <= list@.len(),
            names_sorted(names(r@)),
            names(r@).to_multiset() == names(list@.subrange(0, i as int)).to_multiset(),
        decreases list@.len() - i,
    {
        let x = chars_of(list[i].as_str());
        let mut k: usize = 0;
        while k < r.len() && !text_less(x.as_slice(), chars_of(r[k].as_str()).as_slice())
            invariant
                k <= r@.len(),
                forall|j: int| 0 <= j < k ==> !text_lt(x@, #[trigger] r@[j]@),
            decreases r@.len() - k,
        {
            k += 1;
        }
        let ghost before = names(r@);
        let ghost xv = x@;
        r.insert(k, list[i].clone());
        proof {
            assert(names(r@) =~= before.insert(k as int, xv));
            assert forall|a: int, b: int| 0 <= a < b < names(r@).len() implies !text_lt(names(r@)[b], names(r@)[a]) by {
                let s = names(r@);
                if b == k {
                    assert(s[a] == before[a]);
                    assert(!text_lt(xv, before[a]));
                } else if a == k {
                    assert(s[b] == before[b - 1]);
                    if k < before.len() {
                        assert(text_lt(xv, before[k as int]));
                        if b - 1 > k {
                            assert(!text_lt(before[b - 1], before[k as int]));
                            lemma_text_lt_total(before[b - 1], before[k as int]);
                            if before[b - 1] != before[k as int] {
                                lemma_text_lt_transitive(xv, before[k as int], before[b - 1]);
                            }
                        }
                        lemma_text_lt_total(xv, before[b - 1]);
                    }
                } else if a < k && b > k {
                    assert(s[a] == before[a]);
                    assert(s[b] == before[b - 1]);
                } else if a > k {
                    assert(s[a] == before[a - 1]);
                    assert(s[b] == before[b - 1]);
                } else {
                    assert(s[a] == before[a]);
                    assert(s[b] == before[b]);
                }
            }
            assert(names(list@.subrange(0, i + 1)) =~= names(list@.subrange(0, i as int)).push(xv));
            let t = before.insert(k as int, xv);
            assert(t.remove(k as int) =~= before);
            vstd::seq_lib::to_multiset_remove(t, k as int);
            assert(t[k as int] == xv);
            assert(t.to_multiset().count(xv) > 0) by {
                assert(t.contains(xv));
                t.to_multiset_ensures();
            }
            assert(t.to_multiset() =~= before.to_multiset().insert(xv));
            vstd::seq_lib::to_multiset_build(names(list@.subrange(0, i as int)), xv);
        }
        i += 1;
    }
    assert(list@.subrange(0, i as int) =~= list@);
    r
}

/// The first slot from `next` on that neither a block nor an extra texture holds.
pub open spec fn first_free_slot(next: nat, block_count: nat) -> nat {
    let m = if next < block_count {
        block_count
    } else {
        next
    };
    if 960 <= m <= 970 {
        971
    } else {
        m
    }
}

/// The slots the item textures get, in order: each the first free slot after the previous
/// one, until the atlas is full.
pub open spec fn item_slots(names: Seq<Seq<char>>, next: nat, block_count: nat) -> Seq<(Seq<char>, u32)>
    decreases names.len(),
{
    if names.len() == 0 {
        Seq::empty()
    } else {
        let slot = first_free_slot(next, block_count);
        if slot >= TILES_PER_ROW * TILES_PER_ROW {
            Seq::empty()
        } else {
            seq![(names[0], slot as u32)] + item_slots(names.drop_first(), slot + 1, block_count)
        }
    }
}

/// The texts and slots of a list of named slots.
pub open spec fn owned_slot_entries(a: Seq<(String, u32)>) -> Seq<(Seq<char>, u32)> {
    a.map_values(|e: (String, u32)| (e.0@, e.1))
}

/// The atlas slots the loaded item textures go to: in name order, each in the first slot
/// after the blocks' tiles and the extra textures that is still free, until the atlas is
/// full.
pub fn item_texture_slots(block_count: u32, texture_names: &[String]) -> (r: Vec<(String, u32)>)
    ensures
        exists|sorted: Seq<Seq<char>>|
            names_sorted(sorted) && sorted.to_multiset() == names(texture_names@).to_multiset()
                && owned_slot_entries(r@) == item_slots(sorted, block_count as nat, block_count as nat),
{
    let sorted = sort_names(texture_names);
    let ghost all = names(sorted@);
    let mut r: Vec<(String, u32)> = Vec::new();
    let mut next: u32 = block_count;
    let mut i: usize = 0;
    let ghost target = item_slots(all, block_count as nat, block_count as nat);
    assert(all.subrange(0, all.len() as int) =~= all);
    assert(owned_slot_entries(r@) + item_slots(all, block_count as nat, block_count as nat) =~= target);
    while i < sorted.len()
        invariant
            i <= sorted@.len(),
            all == names(sorted@),
            target == item_slots(all, block_count as nat, block_count as nat),
            owned_slot_entries(r@) + item_slots(all.subrange(i as int, all.len() as int), next as nat, block_count as nat)
                == target,
        ensures
            owned_slot_entries(r@) == target,
        decreases sorted@.len() - i,
    {
        let ghost rest = all.subrange(i as int, all.len() as int);
        assert(rest.drop_first() =~= all.subrange(i + 1, all.len() as int));
        assert(rest[0] == sorted@[i as int]@);
        if next < block_count {
            next = block_count;
        }
        if 960 <= next && next <= 970 {
            next = 971;
        }
        if next >= TILES_PER_ROW * TILES_PER_ROW {
            assert(owned_slot_entries(r@) + Seq::<(Seq<char>, u32)>::empty() =~= owned_slot_entries(r@));
            break;
        }
        let ghost before = owned_slot_entries(r@);
        r.push((sorted[i].clone(), next));
        assert(owned_slot_entries(r@) =~= before + seq![(rest[0], next)]);
        next += 1;
        i += 1;
        proof {
            if i == sorted@.len() {
                assert(all.subrange(i as int, all.len() as int) =~= Seq::<Seq<char>>::empty());
                assert(owned_slot_entries(r@) + Seq::<(Seq<char>, u32)>::empty() =~= owned_slot_entries(r@));
            }
        }
    }
    proof {
        if sorted@.len() == 0 {
            assert(all =~= Seq::<Seq<char>>::empty());
            assert(owned_slot_entries(r@) =~= Seq::<(Seq<char>, u32)>::empty());
        }
    }
    r
}

} // verus!
