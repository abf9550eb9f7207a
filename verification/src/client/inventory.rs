//! The inventory screen's pure parts: its crafting grids, what can be hit on it, how far the
//! creative catalog scrolls, which blocks the catalog lists, how names are cut, and its font.

use vstd::prelude::*;
use crate::glyphs::{alnum_rows, alnum_glyph};
use crate::text::chars_of;
use crate::strings::{contains_seq, occurs_at, occurs_at_exec, starts_with, ends_with, starts_with_text, ends_with_text, is_text};

verus! {

/// Slots in a chest.
pub const CHEST_SLOT_COUNT: usize = 27;

/// Columns of the creative catalog.
pub const CREATIVE_COLUMNS: usize = 9;

/// Rows of the creative catalog shown at once.
pub const CREATIVE_VISIBLE_ROWS: usize = 5;

/// The crafting grid the inventory screen shows.
#[derive(Debug, Clone, Copy, PartialEq, Eq, Structural)]
pub enum CraftingUiMode {
    Inventory2x2,
    CraftingTable3x3,
}

impl CraftingUiMode {
    /// The number of input slots of the grid.
    pub fn input_slot_count(self) -> (r: usize)
        ensures
            r == match self {
                CraftingUiMode::Inventory2x2 => 4usize,
                CraftingUiMode::CraftingTable3x3 => 9usize,
            },
    {
        match self {
            CraftingUiMode::Inventory2x2 => 4,
            CraftingUiMode::CraftingTable3x3 => 9,
        }
    }
}

/// What a click on the open inventory hits.
#[derive(Debug, Clone, Copy, PartialEq, Eq, Structural)]
pub enum OpenInventoryHitTarget {
    InventorySlot(usize),
    ChestSlot(usize),
    CraftingInput(usize),
    CraftingOutput,
}

/// What a click on the creative inventory hits.
#[derive(Debug, Clone, Copy, PartialEq, Eq, Structural)]
pub enum CreativeHitTarget {
    CatalogSlot(usize),
    HotbarSlot(usize),
    ClearButton,
    SearchBar,
}

/// The furthest the creative catalog scrolls, in rows: its rows beyond those shown at once.
pub fn creative_max_scroll(catalog_len: usize) -> (r: usize)
    requires
        catalog_len + CREATIVE_COLUMNS <= usize::MAX,
    ensures
        r as int == if (catalog_len + 8) / 9 > 5 {
            (catalog_len + 8) / 9 - 5
        } else {
            0
        },
{
    let total_rows = (catalog_len + CREATIVE_COLUMNS - 1) / CREATIVE_COLUMNS;
    total_rows.saturating_sub(CREATIVE_VISIBLE_ROWS)
}

/// The last index below `n` at which `pat` occurs in `s`.
pub open spec fn last_occurrence_below(s: Seq<char>, pat: Seq<char>, n: nat) -> Option<int>
    decreases n,
{
    if n == 0 {
        None
    } else if occurs_at(s, pat, n - 1) {
        Some(n - 1)
    } else {
        last_occurrence_below(s, pat, (n - 1) as nat)
    }
}

/// The last index at which `pat` occurs in `s` (`str::rfind`).
pub open spec fn last_occurrence(s: Seq<char>, pat: Seq<char>) -> Option<int> {
    last_occurrence_below(s, pat, (s.len() + 1) as nat)
}

/// `s` without its last `suf.len()` characters.
pub open spec fn drop_end(s: Seq<char>, suf: Seq<char>) -> Seq<char> {
    s.take(s.len() - suf.len())
}

/// A block name without one trailing orientation, half or state word.
pub open spec fn without_state_suffix(n: Seq<char>) -> Seq<char> {
    if ends_with(n, "_north"@) {
        drop_end(n, "_north"@)
    } else if ends_with(n, "_east"@) {
        drop_end(n, "_east"@)
    } else if ends_with(n, "_south"@) {
        drop_end(n, "_south"@)
    } else if ends_with(n, "_west"@) {
        drop_end(n, "_west"@)
    } else if ends_with(n, "_open"@) {
        drop_end(n, "_open"@)
    } else if ends_with(n, "_closed"@) {
        drop_end(n, "_closed"@)
    } else if ends_with(n, "_top"@) {
        drop_end(n, "_top"@)
    } else if ends_with(n, "_bottom"@) {
        drop_end(n, "_bottom"@)
    } else if ends_with(n, "_on"@) {
        drop_end(n, "_on"@)
    } else if ends_with(n, "_off"@) {
        drop_end(n, "_off"@)
    } else {
        n
    }
}

/// The name under which the creative catalog lists a block once: doors and beds by their
/// kind, growth stages by the plant, and other variants without their state word.
pub open spec fn catalog_key(n: Seq<char>) -> Seq<char> {
    if starts_with(n, "door_"@) {
        "wooden_door"@
    } else if starts_with(n, "bed_"@) {
        "bed"@
    } else {
        match last_occurrence(n, "_stage_"@) {
            Some(i) => n.take(i),
            None => without_state_suffix(n),
        }
    }
}

fn prefix_string(s: &[char], k: usize) -> (r: String)
    requires
        k <= s@.len(),
    ensures
        r@ == s@.take(k as int),
{
    let mut out = String::new();
    let mut i: usize = 0;
    while i < k
        invariant
            k <= s@.len(),
            i <= k,
            out@ == s@.take(i as int),
        decreases k - i,
    {
        out.push(s[i]);
        i += 1;
        assert(out@ =~= s@.take(i as int));
    }
    out
}

fn strip_text_end(s: &[char], lit: &str) -> (r: String)
    requires
        ends_with(s@, lit@),
    ensures
        r@ == drop_end(s@, lit@),
{
    let l = chars_of(lit);
    prefix_string(s, s.len() - l.len())
}

fn owned(lit: &str) -> (r: String)
    ensures
        r@ == lit@,
{
    let mut s = String::new();
    s.push_str(lit);
    assert(s@ =~= lit@);
    s
}

fn last_stage_marker(name: &[char]) -> (r: Option<usize>)
    ensures
        match r {
            Some(i) => last_occurrence(name@, "_stage_"@) == Some(i as int),
            None => last_occurrence(name@, "_stage_"@) is None,
        },
{
    let pat = chars_of("_stage_");
    if occurs_at_exec(name, pat.as_slice(), name.len()) {
        return Some(name.len());
    }
    let mut n: usize = name.len();
    while n > 0
        invariant
            n <= name@.len() + 1,
            pat@ == "_stage_"@,
            last_occurrence(name@, "_stage_"@) == last_occurrence_below(name@, pat@, n as nat),
        decreases n,
    {
        if occurs_at_exec(name, pat.as_slice(), n - 1) {
            return Some(n - 1);
        }
        n -= 1;
    }
    None
}

/// The name under which the creative catalog lists a block.
pub fn creative_block_catalog_key(name: &str) -> (r: String)
    ensures
        r@ == catalog_key(name@),
{
    let n = chars_of(name);
    let s = n.as_slice();
    if starts_with_text(s, "door_") {
        return owned("wooden_door");
    }
    if starts_with_text(s, "bed_") {
        return owned("bed");
    }
    if let Some(i) = last_stage_marker(s) {
        proof {
            assert(occurs_at(name@, "_stage_"@, i as int)) by {
                reveal_with_fuel(last_occurrence_below, 2);
                lemma_last_occurrence_found(name@, "_stage_"@, (name@.len() + 1) as nat);
            }
        }
        return prefix_string(s, i);
    }
    if ends_with_text(s, "_north") {
        strip_text_end(s, "_north")
    } else if ends_with_text(s, "_east") {
        strip_text_end(s, "_east")
    } else if ends_with_text(s, "_south") {
        strip_text_end(s, "_south")
    } else if ends_with_text(s, "_west") {
        strip_text_end(s, "_west")
    } else if ends_with_text(s, "_open") {
        strip_text_end(s, "_open")
    } else if ends_with_text(s, "_closed") {
        strip_text_end(s, "_closed")
    } else if ends_with_text(s, "_top") {
        strip_text_end(s, "_top")
    } else if ends_with_text(s, "_bottom") {
        strip_text_end(s, "_bottom")
    } else if ends_with_text(s, "_on") {
        strip_text_end(s, "_on")
    } else if ends_with_text(s, "_off") {
        strip_text_end(s, "_off")
    } else {
        let mut out = String::new();
        out.push_str(name);
        assert(out@ =~= name@);
        out
    }
}

proof fn lemma_last_occurrence_found(s: Seq<char>, pat: Seq<char>, n: nat)
    ensures
        last_occurrence_below(s, pat, n) matches Some(i) ==> occurs_at(s, pat, i),
    decreases n,
{
    if n > 0 {
        lemma_last_occurrence_found(s, pat, (n - 1) as nat);
    }
}

proof fn lemma_end_of_joined(b: Seq<char>, w: Seq<char>, t: Seq<char>, k: int)
    requires
        ends_with(b + w, t),
        1 <= k <= t.len(),
        k <= w.len(),
    ensures
        t[t.len() - k] == w[w.len() - k],
{
    let n = b + w;
    assert(n.subrange(n.len() - t.len(), n.len() as int)[t.len() - k] == n[n.len() - k]);
}

/// The words that name an orientation, half or state of a block, as the last word of its
/// name: the four compass directions, open and closed, top and bottom, on and off.
pub open spec fn state_word(w: Seq<char>) -> bool {
    orientation_word(w) || w == "_open"@ || w == "_closed"@ || w == "_top"@ || w == "_bottom"@ || w
        == "_on"@ || w == "_off"@
}

/// The four compass directions a block can face, as the last word of its name.
pub open spec fn orientation_word(w: Seq<char>) -> bool {
    w == "_north"@ || w == "_east"@ || w == "_south"@ || w == "_west"@
}

/// A block in one of its orientations, halves or states is listed in the creative catalog
/// under its name without that word: for a name made of a base `b` and one state word, that
/// is neither a door's nor a bed's and names no growth stage, the catalog key is `b`.
pub proof fn lemma_state_word_dropped(b: Seq<char>, w: Seq<char>)
    requires
        state_word(w),
        !starts_with(b + w, "door_"@),
        !starts_with(b + w, "bed_"@),
        !contains_seq(b + w, "_stage_"@),
    ensures
        catalog_key(b + w) == b,
{
    reveal_strlit("_north");
    reveal_strlit("_east");
    reveal_strlit("_south");
    reveal_strlit("_west");
    reveal_strlit("_open");
    reveal_strlit("_closed");
    reveal_strlit("_top");
    reveal_strlit("_bottom");
    reveal_strlit("_on");
    reveal_strlit("_off");
    let n = b + w;
    lemma_last_occurrence_found(n, "_stage_"@, (n.len() + 1) as nat);
    if let Some(i) = last_occurrence(n, "_stage_"@) {
        assert(occurs_at(n, "_stage_"@, i));
    }
    assert(n.subrange(n.len() - w.len(), n.len() as int) =~= w);
    assert(drop_end(n, w) =~= b);
    let words = seq!["_north"@, "_east"@, "_south"@, "_west"@, "_open"@, "_closed"@, "_top"@, "_bottom"@, "_on"@, "_off"@];
    assert forall|j: int| 0 <= j < words.len() && #[trigger] words[j] != w implies !ends_with(n, words[j]) by {
        let t = words[j];
        if ends_with(n, t) {
            lemma_end_of_joined(b, w, t, 1);
            lemma_end_of_joined(b, w, t, 2);
            lemma_end_of_joined(b, w, t, 3);
        }
    }
    assert(!ends_with(n, words[0]) || w == words[0]);
    assert(!ends_with(n, words[1]) || w == words[1]);
    assert(!ends_with(n, words[2]) || w == words[2]);
    assert(!ends_with(n, words[3]) || w == words[3]);
    assert(!ends_with(n, words[4]) || w == words[4]);
    assert(!ends_with(n, words[5]) || w == words[5]);
    assert(!ends_with(n, words[6]) || w == words[6]);
    assert(!ends_with(n, words[7]) || w == words[7]);
    assert(!ends_with(n, words[8]) || w == words[8]);
}

/// A block that faces a compass direction is listed in the creative catalog under its name
/// without that direction, whichever of the four it is: for a name made of a base `b` and an
/// orientation word, that is neither a door's nor a bed's and names no growth stage, the
/// catalog key is `b`. So the four orientations of one block share one catalog entry.
pub proof fn lemma_orientations_share_catalog_key(b: Seq<char>, dir: Seq<char>, other: Seq<char>)
    requires
        orientation_word(dir),
        orientation_word(other),
        !starts_with(b + dir, "door_"@),
        !starts_with(b + dir, "bed_"@),
        !contains_seq(b + dir, "_stage_"@),
        !starts_with(b + other, "door_"@),
        !starts_with(b + other, "bed_"@),
        !contains_seq(b + other, "_stage_"@),
    ensures
        catalog_key(b + dir) == b,
        catalog_key(b + dir) == catalog_key(b + other),
{
    lemma_state_word_dropped(b, dir);
    lemma_state_word_dropped(b, other);
}

proof fn lemma_last_occurrence_is(s: Seq<char>, pat: Seq<char>, n: nat, i: int)
    requires
        0 <= i < n,
        occurs_at(s, pat, i),
        forall|j: int| i < j < n ==> !#[trigger] occurs_at(s, pat, j),
    ensures
        last_occurrence_below(s, pat, n) == Some(i),
    decreases n,
{
    if n - 1 > i {
        lemma_last_occurrence_is(s, pat, (n - 1) as nat, i);
    }
}

/// A plant at a growth stage is listed in the creative catalog under the plant's name: for a
/// name made of a base `b`, `_stage_` and a stage number in digits, that is neither a door's
/// nor a bed's, the catalog key is `b`, whatever the base holds.
pub proof fn lemma_growth_stage_dropped(b: Seq<char>, k: Seq<char>)
    requires
        forall|i: int| 0 <= i < k.len() ==> '0' <= #[trigger] k[i] <= '9',
        !starts_with(b + "_stage_"@ + k, "door_"@),
        !starts_with(b + "_stage_"@ + k, "bed_"@),
    ensures
        catalog_key(b + "_stage_"@ + k) == b,
{
    reveal_strlit("_stage_");
    let pat = "_stage_"@;
    let n = b + pat + k;
    let i = b.len() as int;
    assert(n.subrange(i, i + 7) =~= pat);
    assert forall|j: int| i < j < n.len() + 1 implies !#[trigger] occurs_at(n, pat, j) by {
        if occurs_at(n, pat, j) {
            assert(n.subrange(j, j + 7)[0] == n[j]);
            assert(n.subrange(j, j + 7)[1] == n[j + 1]);
            if j < i + 6 {
                assert(n[j] == pat[j - i]);
            } else if j == i + 6 {
                assert(n[j + 1] == k[0]);
            } else {
                assert(n[j] == k[j - i - 7]);
            }
        }
    }
    lemma_last_occurrence_is(n, pat, (n.len() + 1) as nat, i);
    assert(n.take(i) =~= b);
}

/// Doors and beds are listed in the creative catalog once each, whatever follows `door_` or
/// `bed_` in their names: as `wooden_door` and `bed`.
pub proof fn lemma_doors_and_beds_listed_once(rest: Seq<char>)
    ensures
        catalog_key("door_"@ + rest) == "wooden_door"@,
        catalog_key("bed_"@ + rest) == "bed"@,
{
    reveal_strlit("door_");
    reveal_strlit("bed_");
    assert(("door_"@ + rest).subrange(0, 5) =~= "door_"@);
    assert(("bed_"@ + rest).subrange(0, 4) =~= "bed_"@);
    assert(("bed_"@ + rest)[0] != "door_"@[0]);
}

/// The block ids the creative catalog lists among the first `n` blocks, in id order: every
/// block but air (id 0) and flowing fluids, and of blocks sharing a catalog name only the
/// first.
pub open spec fn catalog_blocks(names: Seq<Seq<char>>, n: nat) -> Seq<u16>
    decreases n,
{
    if n <= 1 {
        Seq::empty()
    } else {
        let prev = catalog_blocks(names, (n - 1) as nat);
        let name = names[n - 1];
        if name == "air"@ || starts_with(name, "flowing_"@) || exists|k: int|
            0 <= k < prev.len() && #[trigger] catalog_key(names[prev[k] as int]) == catalog_key(name) {
            prev
        } else {
            prev.push((n - 1) as u16)
        }
    }
}

fn key_seen(keys: &Vec<String>, key: &String) -> (r: bool)
    ensures
        r == exists|k: int| 0 <= k < keys@.len() && #[trigger] keys@[k]@ == key@,
{
    let mut i: usize = 0;
    while i < keys.len()
        invariant
            i <= keys@.len(),
            forall|k: int| 0 <= k < i ==> (#[trigger] keys@[k])@ != key@,
        decreases keys@.len() - i,
    {
        if keys[i] == *key {
            return true;
        }
        i += 1;
    }
    false
}

/// The blocks the creative catalog lists, given every block's name by id: all but air and
/// flowing fluids, one for each catalog name, in id order.
pub fn creative_catalog_blocks(block_names: &[String]) -> (r: Vec<u16>)
    requires
        block_names@.len() <= 65536,
    ensures
        r@ == catalog_blocks(crate::atlas::names(block_names@), block_names@.len()),
{
    let ghost all = crate::atlas::names(block_names@);
    let mut r: Vec<u16> = Vec::new();
    let mut keys: Vec<String> = Vec::new();
    if block_names.len() == 0 {
        return r;
    }
    let mut id: usize = 1;
    while id < block_names.len()
        invariant
            1 <= id <= block_names@.len(),
            block_names@.len() <= 65536,
            all == crate::atlas::names(block_names@),
            r@ == catalog_blocks(all, id as nat),
            keys@.len() == r@.len(),
            forall|k: int| 0 <= k < r@.len() ==> (r@[k] as int) < id,
            forall|k: int| 0 <= k < keys@.len() ==> (#[trigger] keys@[k])@ == catalog_key(all[r@[k] as int]),
        decreases block_names@.len() - id,
    {
        let name = chars_of(block_names[id].as_str());
        assert(name@ == all[id as int]);
        let skip = is_text(name.as_slice(), "air") || starts_with_text(name.as_slice(), "flowing_");
        let key = creative_block_catalog_key(block_names[id].as_str());
        let seen = key_seen(&keys, &key);
        proof {
            let prev = catalog_blocks(all, id as nat);
            assert(seen == exists|k: int| 0 <= k < prev.len() && #[trigger] catalog_key(all[prev[k] as int]) == catalog_key(all[id as int])) by {
                if seen {
                    let k = choose|k: int| 0 <= k < keys@.len() && #[trigger] keys@[k]@ == key@;
                    assert(catalog_key(all[prev[k] as int]) == catalog_key(all[id as int]));
                }
                if exists|k: int| 0 <= k < prev.len() && #[trigger] catalog_key(all[prev[k] as int]) == catalog_key(all[id as int]) {
                    let k = choose|k: int| 0 <= k < prev.len() && #[trigger] catalog_key(all[prev[k] as int]) == catalog_key(all[id as int]);
                    assert(keys@[k]@ == key@);
                }
            }
        }
        if !skip && !seen {
            r.push(id as u16);
            keys.push(key);
        }
        id += 1;
    }
    r
}

/// A text cut to at most `max_chars` characters.
pub open spec fn truncated(t: Seq<char>, max_chars: nat) -> Seq<char> {
    if t.len() <= max_chars {
        t
    } else {
        t.take(max_chars as int)
    }
}

/// Cuts a text to at most `max_chars` characters.
pub fn truncate_text_chars(text: &str, max_chars: usize) -> (r: String)
    ensures
        r@ == truncated(text@, max_chars as nat),
{
    let chars = chars_of(text);
    if chars.len() <= max_chars {
        let mut s = String::new();
        s.push_str(text);
        assert(s@ =~= text@);
        return s;
    }
    prefix_string(chars.as_slice(), max_chars)
}

/// The rows of the characters of the inventory's font.
pub open spec fn inventory_rows(ch: char) -> Option<[u8; 7]> {
    if ch == '.' {
        Some([0x00u8, 0x00, 0x00, 0x00, 0x00, 0x0C, 0x0C])
    } else if ch == ' ' {
        Some([0x00u8, 0x00, 0x00, 0x00, 0x00, 0x00, 0x00])
    } else if ch == '_' {
        Some([0x00u8, 0x00, 0x00, 0x00, 0x00, 0x00, 0x1F])
    } else {
        alnum_rows(ch)
    }
}

/// The rows of a character of the font; characters it lacks have none.
pub fn glyph(ch: char) -> (r: Option<[u8; 7]>)
    ensures
        r == inventory_rows(ch),
{
    match ch {
        '.' => Some([0x00, 0x00, 0x00, 0x00, 0x00, 0x0C, 0x0C]),
        ' ' => Some([0x00, 0x00, 0x00, 0x00, 0x00, 0x00, 0x00]),
        '_' => Some([0x00, 0x00, 0x00, 0x00, 0x00, 0x00, 0x1F]),
        _ => alnum_glyph(ch),
    }
}

} // verus!
