//! Reasoning effort levels of the Responses API, their wire names and the
//! menu through which a user picks one.
use vstd::prelude::*;

use crate::text::push_str;

verus! {

/// Reasoning effort accepted by the Responses API (`Off` is the level whose
/// wire name is `"none"`); an absent level in a configuration lets the
/// provider choose.
#[derive(Debug, Clone, Copy, PartialEq, Eq, Structural)]
pub enum ReasoningEffort {
    Off,
    Minimal,
    Low,
    Medium,
    High,
    Xhigh,
}

/// The wire name of a level.
pub open spec fn effort_name(e: ReasoningEffort) -> Seq<char> {
    match e {
        ReasoningEffort::Off => "none"@,
        ReasoningEffort::Minimal => "minimal"@,
        ReasoningEffort::Low => "low"@,
        ReasoningEffort::Medium => "medium"@,
        ReasoningEffort::High => "high"@,
        ReasoningEffort::Xhigh => "xhigh"@,
    }
}

/// The position of a level in the list of all levels, from least to most effort.
pub open spec fn effort_rank(e: ReasoningEffort) -> nat {
    match e {
        ReasoningEffort::Off => 0,
        ReasoningEffort::Minimal => 1,
        ReasoningEffort::Low => 2,
        ReasoningEffort::Medium => 3,
        ReasoningEffort::High => 4,
        ReasoningEffort::Xhigh => 5,
    }
}

/// The level at a position of the list of all levels.
pub open spec fn effort_at(i: nat) -> ReasoningEffort {
    if i == 0 {
        ReasoningEffort::Off
    } else if i == 1 {
        ReasoningEffort::Minimal
    } else if i == 2 {
        ReasoningEffort::Low
    } else if i == 3 {
        ReasoningEffort::Medium
    } else if i == 4 {
        ReasoningEffort::High
    } else {
        ReasoningEffort::Xhigh
    }
}

/// The label of a level where a level may be absent.
pub open spec fn optional_effort_label(e: Option<ReasoningEffort>) -> Seq<char> {
    match e {
        Some(level) => effort_name(level),
        None => "automático"@,
    }
}

impl ReasoningEffort {
    /// The wire name of the level (`"none"`, `"minimal"`, ..., `"xhigh"`).
    pub fn as_str(self) -> (r: &'static str)
        ensures
            r@ == effort_name(self),
    {
        match self {
            ReasoningEffort::Off => "none",
            ReasoningEffort::Minimal => "minimal",
            ReasoningEffort::Low => "low",
            ReasoningEffort::Medium => "medium",
            ReasoningEffort::High => "high",
            ReasoningEffort::Xhigh => "xhigh",
        }
    }

    /// All levels, from least to most effort.
    pub fn all() -> (r: Vec<ReasoningEffort>)
        ensures
            r@.len() == 6,
            forall|i: int| 0 <= i < 6 ==> r@[i] == effort_at(i as nat),
    {
        let mut v = Vec::new();
        v.push(ReasoningEffort::Off);
        v.push(ReasoningEffort::Minimal);
        v.push(ReasoningEffort::Low);
        v.push(ReasoningEffort::Medium);
        v.push(ReasoningEffort::High);
        v.push(ReasoningEffort::Xhigh);
        v
    }

    /// The position of the level in [`ReasoningEffort::all`].
    pub fn rank(self) -> (r: usize)
        ensures
            r == effort_rank(self),
    {
        match self {
            ReasoningEffort::Off => 0,
            ReasoningEffort::Minimal => 1,
            ReasoningEffort::Low => 2,
            ReasoningEffort::Medium => 3,
            ReasoningEffort::High => 4,
            ReasoningEffort::Xhigh => 5,
        }
    }
}

/// The label of an optional level: its wire name, or `"automático"` when absent.
pub fn format_reasoning_effort(effort: Option<ReasoningEffort>) -> (r: String)
    ensures
        r@ == optional_effort_label(effort),
{
    let mut s = String::new();
    match effort {
        Some(level) => push_str(&mut s, level.as_str()),
        None => push_str(&mut s, "automático"),
    }
    s
}

/// The entries of the level menu: an automatic entry, then every level.
pub open spec fn effort_menu() -> Seq<Seq<char>> {
    seq!["Automático (predeterminado)"@, "none"@, "minimal"@, "low"@, "medium"@, "high"@, "xhigh"@]
}

/// The entries of the level menu, in order.
pub fn reasoning_menu_items() -> (r: Vec<String>)
    ensures
        r@.len() == effort_menu().len(),
        forall|i: int| 0 <= i < r@.len() ==> #[trigger] r@[i]@ == effort_menu()[i],
{
    let mut v: Vec<String> = Vec::new();
    let mut first = String::new();
    push_str(&mut first, "Automático (predeterminado)");
    v.push(first);
    let all = ReasoningEffort::all();
    let mut i: usize = 0;
    while i < all.len()
        invariant
            all@.len() == 6,
            forall|k: int| 0 <= k < 6 ==> all@[k] == effort_at(k as nat),
            i <= 6,
            v@.len() == i + 1,
            forall|k: int| 0 <= k < v@.len() ==> #[trigger] v@[k]@ == effort_menu()[k],
        decreases 6 - i,
    {
        let mut s = String::new();
        push_str(&mut s, all[i].as_str());
        v.push(s);
        i = i + 1;
    }
    v
}

/// The menu entry preselected for the current level: the automatic entry
/// when the level is absent, else the entry after it at the level's rank.
pub fn reasoning_menu_default(current: Option<ReasoningEffort>) -> (r: usize)
    ensures
        r == match current {
            Some(level) => effort_rank(level) + 1,
            None => 0,
        },
        r < effort_menu().len(),
{
    match current {
        Some(level) => level.rank() + 1,
        None => 0,
    }
}

/// The level that a menu entry stands for: none for the automatic entry.
pub fn reasoning_from_menu(selection: usize) -> (r: Option<ReasoningEffort>)
    requires
        selection < effort_menu().len(),
    ensures
        selection == 0 ==> r is None,
        selection > 0 ==> r == Some(effort_at((selection - 1) as nat)),
{
    if selection == 0 {
        None
    } else {
        let all = ReasoningEffort::all();
        Some(all[selection - 1])
    }
}

/// The entry that the level menu preselects gives back the current level,
/// so confirming the menu without moving keeps the configuration as it was.
pub proof fn law_menu_default_roundtrip(current: Option<ReasoningEffort>)
    ensures
        ({
            let d: nat = match current {
                Some(level) => effort_rank(level) + 1,
                None => 0,
            };
            &&& d < effort_menu().len()
            &&& (d == 0 <==> current is None)
            &&& d > 0 ==> Some(effort_at((d - 1) as nat)) == current
        }),
{
}

/// The menu shows each level under its wire name, at the entry after its rank.
pub proof fn law_menu_labels_are_wire_names(e: ReasoningEffort)
    ensures
        effort_menu()[effort_rank(e) + 1int] == effort_name(e),
        effort_at(effort_rank(e)) == e,
{
}

} // verus!
