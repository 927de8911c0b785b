//! Picker logic: which chip groups are shown and the staggered entrance
//! delay of every chip.
use vstd::prelude::*;
use crate::models::ChipGroupState;
use crate::text::views;

verus! {

/// Display model for a chip group in the picker.
#[derive(Debug, Clone, PartialEq)]
pub struct ChipGroupDisplay {
    pub name: String,
    pub display_name: String,
    pub css_class: String,
    pub tokens: Vec<String>,
}

/// The groups that have at least one token, in order.
pub fn filter_nonempty_groups(groups: &[ChipGroupDisplay]) -> (r: Vec<&ChipGroupDisplay>)
    ensures
        r@.map_values(|g: &ChipGroupDisplay| *g) == groups@.filter(
            |g: ChipGroupDisplay| g.tokens@.len() > 0,
        ),
{
    let ghost pred = |g: ChipGroupDisplay| g.tokens@.len() > 0;
    let mut r: Vec<&ChipGroupDisplay> = Vec::new();
    let mut i: usize = 0;
    while i < groups.len()
        invariant
            i <= groups@.len(),
            pred == (|g: ChipGroupDisplay| g.tokens@.len() > 0),
            r@.map_values(|g: &ChipGroupDisplay| *g) == groups@.take(i as int).filter(pred),
        decreases groups@.len() - i,
    {
        proof {
            assert(groups@.take(i + 1) =~= groups@.take(i as int).push(groups@[i as int]));
            groups@.take(i as int).lemma_filter_push(groups@[i as int], pred);
        }
        let ghost before = r@.map_values(|g: &ChipGroupDisplay| *g);
        if groups[i].tokens.len() > 0 {
            r.push(&groups[i]);
            assert(r@.map_values(|g: &ChipGroupDisplay| *g) =~= before.push(groups@[i as int]));
        } else {
            assert(r@.map_values(|g: &ChipGroupDisplay| *g) =~= before);
        }
        i = i + 1;
    }
    assert(groups@.take(groups@.len() as int) =~= groups@);
    r
}

/// Total number of chips in the first `n` groups.
pub open spec fn chips_before(groups: Seq<ChipGroupDisplay>, n: int) -> nat
    decreases n,
{
    if n <= 0 {
        0
    } else {
        chips_before(groups, n - 1) + groups[n - 1].tokens@.len()
    }
}

proof fn lemma_chips_before_monotone(groups: Seq<ChipGroupDisplay>, a: int, b: int)
    requires
        0 <= a <= b <= groups.len(),
    ensures
        chips_before(groups, a) <= chips_before(groups, b),
    decreases b - a,
{
    if a < b {
        lemma_chips_before_monotone(groups, a, b - 1);
    }
}

/// Entrance delay of every chip across all groups: the counter runs on
/// across groups, so chip number `k` (from 0) waits `(k + 1) * 30` ms.
pub fn compute_global_chip_delays(groups: &[ChipGroupDisplay]) -> (delays: Vec<u32>)
    requires
        chips_before(groups@, groups@.len() as int) * 30 <= u32::MAX,
    ensures
        delays@.len() == chips_before(groups@, groups@.len() as int),
        forall|k: int| 0 <= k < delays@.len() ==> #[trigger] delays@[k] == (k + 1) * 30,
{
    let mut delays: Vec<u32> = Vec::new();
    let mut chip_index: u32 = 0;
    let mut g: usize = 0;
    while g < groups.len()
        invariant
            g <= groups@.len(),
            chips_before(groups@, groups@.len() as int) * 30 <= u32::MAX,
            chip_index == chips_before(groups@, g as int),
            delays@.len() == chip_index,
            forall|k: int| 0 <= k < delays@.len() ==> #[trigger] delays@[k] == (k + 1) * 30,
        decreases groups@.len() - g,
    {
        proof {
            lemma_chips_before_monotone(groups@, g + 1, groups@.len() as int);
        }
        let mut t: usize = 0;
        while t < groups[g].tokens.len()
            invariant
                g < groups@.len(),
                t <= groups@[g as int].tokens@.len(),
                chips_before(groups@, g + 1) * 30 <= u32::MAX,
                chips_before(groups@, g + 1) == chips_before(groups@, g as int) + groups@[g as int].tokens@.len(),
                chip_index == chips_before(groups@, g as int) + t,
                delays@.len() == chip_index,
                forall|k: int| 0 <= k < delays@.len() ==> #[trigger] delays@[k] == (k + 1) * 30,
            decreases groups@[g as int].tokens@.len() - t,
        {
            chip_index = chip_index + 1;
            delays.push(chip_index * 30);
            t = t + 1;
        }
        g = g + 1;
    }
    delays
}

/// Whether a group is dimmed: its state says it is not highlighted; a
/// group with no state is not dimmed.
pub open spec fn dimmed_by(states: Seq<ChipGroupState>, group: Seq<char>) -> bool
    decreases states.len(),
{
    if states.len() == 0 {
        false
    } else if states[0].group_name@ == group {
        !states[0].is_highlighted
    } else {
        dimmed_by(states.drop_first(), group)
    }
}

/// Whether the picker dims a group, by the first state of that name.
pub fn group_dimmed(states: &[ChipGroupState], group: &str) -> (r: bool)
    ensures
        r == dimmed_by(states@, group@),
{
    let mut i: usize = 0;
    assert(states@.skip(0) =~= states@);
    while i < states.len()
        invariant
            i <= states@.len(),
            dimmed_by(states@, group@) == dimmed_by(states@.skip(i as int), group@),
        decreases states@.len() - i,
    {
        assert(states@.skip(i as int)[0] == states@[i as int]);
        assert(states@.skip(i as int).drop_first() =~= states@.skip(i + 1));
        if crate::text::str_eq(states[i].group_name.as_str(), group) {
            return !states[i].is_highlighted;
        }
        i = i + 1;
    }
    false
}

/// The state class of a chip: dimmed first, then used, else highlighted.
pub fn chip_state_class(dimmed: bool, used: bool) -> (r: &'static str)
    ensures
        r@ == if dimmed {
            "chip-dimmed"@
        } else if used {
            "chip-used"@
        } else {
            "chip-highlighted"@
        },
{
    if dimmed {
        "chip-dimmed"
    } else if used {
        "chip-used"
    } else {
        "chip-highlighted"
    }
}

/// Whether a token of the picker is already on the canvas.
pub fn token_used(used_tokens: &[String], token: &String) -> (r: bool)
    ensures
        r == views(used_tokens@).contains(token@),
{
    crate::text::contains_string(used_tokens, token)
}

} // verus!
