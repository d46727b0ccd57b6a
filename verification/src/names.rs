//! Why no name is listed twice in the category and action tables: read in
//! order (the actions by their names' order), each name sorts strictly
//! before the next. And why a name of a building never names a unit, which
//! resolving an argument that takes either relies on.
use crate::env::{action_count, action_spec, category_count, category_spec, is_member, member_count, member_spec};
use crate::types::Domain;
use vstd::prelude::*;
use vstd::string::*;

verus! {

/// From position `i` on, `a` sorts before `b`: at the first character where
/// they differ, `a`'s is lower, or `a` ends first.
pub open spec fn sorts_before(a: Seq<char>, b: Seq<char>, i: int) -> bool
    decreases a.len() - i,
{
    if i >= a.len() {
        i < b.len()
    } else if i >= b.len() {
        false
    } else if a[i] != b[i] {
        (a[i] as int) < (b[i] as int)
    } else {
        sorts_before(a, b, i + 1)
    }
}

/// Nothing sorts before itself.
pub proof fn lemma_sorts_before_irreflexive(a: Seq<char>, i: int)
    requires
        0 <= i,
    ensures
        !sorts_before(a, a, i),
    decreases a.len() - i,
{
    if i < a.len() {
        lemma_sorts_before_irreflexive(a, i + 1);
    }
}

/// Sorting before is transitive.
pub proof fn lemma_sorts_before_transitive(a: Seq<char>, b: Seq<char>, c: Seq<char>, i: int)
    requires
        0 <= i,
        sorts_before(a, b, i),
        sorts_before(b, c, i),
    ensures
        sorts_before(a, c, i),
    decreases a.len() - i,
{
    if i < a.len() && i < b.len() && i < c.len() && a[i] == b[i] && b[i] == c[i] {
        lemma_sorts_before_transitive(a, b, c, i + 1);
    }
}

/// In a list where each entry sorts before the next, every entry sorts
/// before every later one.
proof fn lemma_sorted_chain(t: spec_fn(int) -> Seq<char>, n: int, x: int, y: int)
    requires
        forall|k: int| 0 <= k < n - 1 ==> sorts_before(#[trigger] t(k), t(k + 1), 0),
        0 <= x < y < n,
    ensures
        sorts_before(t(x), t(y), 0),
    decreases y,
{
    if y > x + 1 {
        lemma_sorted_chain(t, n, x, y - 1);
        lemma_sorts_before_transitive(t(x), t(y - 1), t(y), 0);
    }
}

proof fn lemma_categories_sorted(k: int)
    requires
        0 <= k < category_count() - 1,
    ensures
        sorts_before(category_spec(k), category_spec(k + 1), 0),
{
    if k == 0 {
        reveal_strlit("air-combat");
        reveal_strlit("aircraft-maintenance");
        reveal_with_fuel(sorts_before, 5);
    } else if k == 1 {
        reveal_strlit("aircraft-maintenance");
        reveal_strlit("capture");
        reveal_with_fuel(sorts_before, 2);
    } else if k == 2 {
        reveal_strlit("capture");
        reveal_strlit("combat");
        reveal_with_fuel(sorts_before, 3);
    } else if k == 3 {
        reveal_strlit("combat");
        reveal_strlit("defense");
        reveal_with_fuel(sorts_before, 2);
    } else if k == 4 {
        reveal_strlit("defense");
        reveal_strlit("economy");
        reveal_with_fuel(sorts_before, 2);
    } else if k == 5 {
        reveal_strlit("economy");
        reveal_strlit("emergency-defense");
        reveal_with_fuel(sorts_before, 3);
    } else if k == 6 {
        reveal_strlit("emergency-defense");
        reveal_strlit("ground-attack-choice");
        reveal_with_fuel(sorts_before, 2);
    } else if k == 7 {
        reveal_strlit("ground-attack-choice");
        reveal_strlit("harvester");
        reveal_with_fuel(sorts_before, 2);
    } else if k == 8 {
        reveal_strlit("harvester");
        reveal_strlit("maintenance");
        reveal_with_fuel(sorts_before, 2);
    } else if k == 9 {
        reveal_strlit("maintenance");
        reveal_strlit("micro");
        reveal_with_fuel(sorts_before, 3);
    } else if k == 10 {
        reveal_strlit("micro");
        reveal_strlit("minelayer");
        reveal_with_fuel(sorts_before, 4);
    } else if k == 11 {
        reveal_strlit("minelayer");
        reveal_strlit("naval-combat");
        reveal_with_fuel(sorts_before, 2);
    } else if k == 12 {
        reveal_strlit("naval-combat");
        reveal_strlit("produce-aircraft");
        reveal_with_fuel(sorts_before, 2);
    } else if k == 13 {
        reveal_strlit("produce-aircraft");
        reveal_strlit("produce-infantry");
        reveal_with_fuel(sorts_before, 10);
    } else if k == 14 {
        reveal_strlit("produce-infantry");
        reveal_strlit("produce-ship");
        reveal_with_fuel(sorts_before, 10);
    } else if k == 15 {
        reveal_strlit("produce-ship");
        reveal_strlit("produce-vehicle");
        reveal_with_fuel(sorts_before, 10);
    } else if k == 16 {
        reveal_strlit("produce-vehicle");
        reveal_strlit("production");
        reveal_with_fuel(sorts_before, 8);
    } else if k == 17 {
        reveal_strlit("production");
        reveal_strlit("rebuild");
        reveal_with_fuel(sorts_before, 2);
    } else if k == 18 {
        reveal_strlit("rebuild");
        reveal_strlit("recon");
        reveal_with_fuel(sorts_before, 4);
    } else if k == 19 {
        reveal_strlit("recon");
        reveal_strlit("setup");
        reveal_with_fuel(sorts_before, 2);
    } else if k == 20 {
        reveal_strlit("setup");
        reveal_strlit("squad-form");
        reveal_with_fuel(sorts_before, 3);
    } else if k == 21 {
        reveal_strlit("squad-form");
        reveal_strlit("superweapon");
        reveal_with_fuel(sorts_before, 3);
    } else if k == 22 {
        reveal_strlit("superweapon");
        reveal_strlit("superweapon-build");
        reveal_with_fuel(sorts_before, 13);
    } else if k == 23 {
        reveal_strlit("superweapon-build");
        reveal_strlit("transport");
        reveal_with_fuel(sorts_before, 2);
    } else if k == 24 {
        reveal_strlit("transport");
        reveal_strlit("vehicle-maintenance");
        reveal_with_fuel(sorts_before, 2);
    }
}

/// No category is listed twice.
pub proof fn lemma_category_names_distinct(i: int, j: int)
    requires
        0 <= i < category_count(),
        0 <= j < category_count(),
        i != j,
    ensures
        category_spec(i) != category_spec(j),
{
    let t = |k: int| category_spec(k);
    assert forall|k: int| 0 <= k < category_count() - 1 implies sorts_before(#[trigger] t(k), t(k + 1), 0) by {
        lemma_categories_sorted(k);
    }
    if i < j {
        lemma_sorted_chain(t, category_count(), i, j);
    } else {
        lemma_sorted_chain(t, category_count(), j, i);
    }
    lemma_sorts_before_irreflexive(category_spec(i), 0);
}

/// The action listed `k`-th when the actions are read in their names' order.
pub open spec fn action_by_name(k: int) -> int {
    if k == 0 {
        0
    } else if k == 1 {
        1
    } else if k == 2 {
        2
    } else if k == 3 {
        3
    } else if k == 4 {
        4
    } else if k == 5 {
        5
    } else if k == 6 {
        6
    } else if k == 7 {
        82
    } else if k == 8 {
        7
    } else if k == 9 {
        8
    } else if k == 10 {
        9
    } else if k == 11 {
        10
    } else if k == 12 {
        11
    } else if k == 13 {
        12
    } else if k == 14 {
        13
    } else if k == 15 {
        14
    } else if k == 16 {
        15
    } else if k == 17 {
        16
    } else if k == 18 {
        81
    } else if k == 19 {
        72
    } else if k == 20 {
        17
    } else if k == 21 {
        18
    } else if k == 22 {
        19
    } else if k == 23 {
        20
    } else if k == 24 {
        21
    } else if k == 25 {
        22
    } else if k == 26 {
        23
    } else if k == 27 {
        24
    } else if k == 28 {
        25
    } else if k == 29 {
        26
    } else if k == 30 {
        27
    } else if k == 31 {
        28
    } else if k == 32 {
        29
    } else if k == 33 {
        30
    } else if k == 34 {
        31
    } else if k == 35 {
        32
    } else if k == 36 {
        33
    } else if k == 37 {
        34
    } else if k == 38 {
        35
    } else if k == 39 {
        36
    } else if k == 40 {
        37
    } else if k == 41 {
        38
    } else if k == 42 {
        39
    } else if k == 43 {
        40
    } else if k == 44 {
        41
    } else if k == 45 {
        42
    } else if k == 46 {
        43
    } else if k == 47 {
        44
    } else if k == 48 {
        45
    } else if k == 49 {
        46
    } else if k == 50 {
        47
    } else if k == 51 {
        48
    } else if k == 52 {
        49
    } else if k == 53 {
        50
    } else if k == 54 {
        51
    } else if k == 55 {
        52
    } else if k == 56 {
        53
    } else if k == 57 {
        54
    } else if k == 58 {
        55
    } else if k == 59 {
        56
    } else if k == 60 {
        57
    } else if k == 61 {
        58
    } else if k == 62 {
        59
    } else if k == 63 {
        60
    } else if k == 64 {
        61
    } else if k == 65 {
        62
    } else if k == 66 {
        63
    } else if k == 67 {
        64
    } else if k == 68 {
        65
    } else if k == 69 {
        79
    } else if k == 70 {
        66
    } else if k == 71 {
        80
    } else if k == 72 {
        67
    } else if k == 73 {
        68
    } else if k == 74 {
        69
    } else if k == 75 {
        75
    } else if k == 76 {
        74
    } else if k == 77 {
        73
    } else if k == 78 {
        78
    } else if k == 79 {
        77
    } else if k == 80 {
        76
    } else if k == 81 {
        70
    } else {
        71
    }
}

/// Where action `i` comes when the actions are read in their names' order.
pub open spec fn action_rank(k: int) -> int {
    if k == 0 {
        0
    } else if k == 1 {
        1
    } else if k == 2 {
        2
    } else if k == 3 {
        3
    } else if k == 4 {
        4
    } else if k == 5 {
        5
    } else if k == 6 {
        6
    } else if k == 7 {
        8
    } else if k == 8 {
        9
    } else if k == 9 {
        10
    } else if k == 10 {
        11
    } else if k == 11 {
        12
    } else if k == 12 {
        13
    } else if k == 13 {
        14
    } else if k == 14 {
        15
    } else if k == 15 {
        16
    } else if k == 16 {
        17
    } else if k == 17 {
        20
    } else if k == 18 {
        21
    } else if k == 19 {
        22
    } else if k == 20 {
        23
    } else if k == 21 {
        24
    } else if k == 22 {
        25
    } else if k == 23 {
        26
    } else if k == 24 {
        27
    } else if k == 25 {
        28
    } else if k == 26 {
        29
    } else if k == 27 {
        30
    } else if k == 28 {
        31
    } else if k == 29 {
        32
    } else if k == 30 {
        33
    } else if k == 31 {
        34
    } else if k == 32 {
        35
    } else if k == 33 {
        36
    } else if k == 34 {
        37
    } else if k == 35 {
        38
    } else if k == 36 {
        39
    } else if k == 37 {
        40
    } else if k == 38 {
        41
    } else if k == 39 {
        42
    } else if k == 40 {
        43
    } else if k == 41 {
        44
    } else if k == 42 {
        45
    } else if k == 43 {
        46
    } else if k == 44 {
        47
    } else if k == 45 {
        48
    } else if k == 46 {
        49
    } else if k == 47 {
        50
    } else if k == 48 {
        51
    } else if k == 49 {
        52
    } else if k == 50 {
        53
    } else if k == 51 {
        54
    } else if k == 52 {
        55
    } else if k == 53 {
        56
    } else if k == 54 {
        57
    } else if k == 55 {
        58
    } else if k == 56 {
        59
    } else if k == 57 {
        60
    } else if k == 58 {
        61
    } else if k == 59 {
        62
    } else if k == 60 {
        63
    } else if k == 61 {
        64
    } else if k == 62 {
        65
    } else if k == 63 {
        66
    } else if k == 64 {
        67
    } else if k == 65 {
        68
    } else if k == 66 {
        70
    } else if k == 67 {
        72
    } else if k == 68 {
        73
    } else if k == 69 {
        74
    } else if k == 70 {
        81
    } else if k == 71 {
        82
    } else if k == 72 {
        19
    } else if k == 73 {
        77
    } else if k == 74 {
        76
    } else if k == 75 {
        75
    } else if k == 76 {
        80
    } else if k == 77 {
        79
    } else if k == 78 {
        78
    } else if k == 79 {
        69
    } else if k == 80 {
        71
    } else if k == 81 {
        18
    } else {
        7
    }
}

proof fn lemma_action_rank(i: int)
    requires
        0 <= i < action_count(),
    ensures
        0 <= action_rank(i) < action_count(),
        action_by_name(action_rank(i)) == i,
{
    if i == 0 {
    } else if i == 1 {
    } else if i == 2 {
    } else if i == 3 {
    } else if i == 4 {
    } else if i == 5 {
    } else if i == 6 {
    } else if i == 7 {
    } else if i == 8 {
    } else if i == 9 {
    } else if i == 10 {
    } else if i == 11 {
    } else if i == 12 {
    } else if i == 13 {
    } else if i == 14 {
    } else if i == 15 {
    } else if i == 16 {
    } else if i == 17 {
    } else if i == 18 {
    } else if i == 19 {
    } else if i == 20 {
    } else if i == 21 {
    } else if i == 22 {
    } else if i == 23 {
    } else if i == 24 {
    } else if i == 25 {
    } else if i == 26 {
    } else if i == 27 {
    } else if i == 28 {
    } else if i == 29 {
    } else if i == 30 {
    } else if i == 31 {
    } else if i == 32 {
    } else if i == 33 {
    } else if i == 34 {
    } else if i == 35 {
    } else if i == 36 {
    } else if i == 37 {
    } else if i == 38 {
    } else if i == 39 {
    } else if i == 40 {
    } else if i == 41 {
    } else if i == 42 {
    } else if i == 43 {
    } else if i == 44 {
    } else if i == 45 {
    } else if i == 46 {
    } else if i == 47 {
    } else if i == 48 {
    } else if i == 49 {
    } else if i == 50 {
    } else if i == 51 {
    } else if i == 52 {
    } else if i == 53 {
    } else if i == 54 {
    } else if i == 55 {
    } else if i == 56 {
    } else if i == 57 {
    } else if i == 58 {
    } else if i == 59 {
    } else if i == 60 {
    } else if i == 61 {
    } else if i == 62 {
    } else if i == 63 {
    } else if i == 64 {
    } else if i == 65 {
    } else if i == 66 {
    } else if i == 67 {
    } else if i == 68 {
    } else if i == 69 {
    } else if i == 70 {
    } else if i == 71 {
    } else if i == 72 {
    } else if i == 73 {
    } else if i == 74 {
    } else if i == 75 {
    } else if i == 76 {
    } else if i == 77 {
    } else if i == 78 {
    } else if i == 79 {
    } else if i == 80 {
    } else if i == 81 {
    } else if i == 82 {
    }
}

proof fn lemma_actions_sorted(k: int)
    requires
        0 <= k < action_count() - 1,
    ensures
        sorts_before(action_spec(action_by_name(k)), action_spec(action_by_name(k + 1)), 0),
{
    if k == 0 {
        reveal_strlit("air-attack-enemy");
        reveal_strlit("air-attack-known-base");
        reveal_with_fuel(sorts_before, 13);
    } else if k == 1 {
        reveal_strlit("air-attack-known-base");
        reveal_strlit("air-defend-base");
        reveal_with_fuel(sorts_before, 6);
    } else if k == 2 {
        reveal_strlit("air-defend-base");
        reveal_strlit("attack-known-base-ground");
        reveal_with_fuel(sorts_before, 3);
    } else if k == 3 {
        reveal_strlit("attack-known-base-ground");
        reveal_strlit("attack-move-ground");
        reveal_with_fuel(sorts_before, 9);
    } else if k == 4 {
        reveal_strlit("attack-move-ground");
        reveal_strlit("cancel-stuck-aircraft");
        reveal_with_fuel(sorts_before, 2);
    } else if k == 5 {
        reveal_strlit("cancel-stuck-aircraft");
        reveal_strlit("capture-building");
        reveal_with_fuel(sorts_before, 4);
    } else if k == 6 {
        reveal_strlit("capture-building");
        reveal_strlit("clear-healed-units");
        reveal_with_fuel(sorts_before, 3);
    } else if k == 7 {
        reveal_strlit("clear-healed-units");
        reveal_strlit("defend-base");
        reveal_with_fuel(sorts_before, 2);
    } else if k == 8 {
        reveal_strlit("defend-base");
        reveal_strlit("defend-critical-building");
        reveal_with_fuel(sorts_before, 9);
    } else if k == 9 {
        reveal_strlit("defend-critical-building");
        reveal_strlit("deliver-assault-apc");
        reveal_with_fuel(sorts_before, 4);
    } else if k == 10 {
        reveal_strlit("deliver-assault-apc");
        reveal_strlit("deploy-mcv");
        reveal_with_fuel(sorts_before, 4);
    } else if k == 11 {
        reveal_strlit("deploy-mcv");
        reveal_strlit("emergency-defend-base");
        reveal_with_fuel(sorts_before, 2);
    } else if k == 12 {
        reveal_strlit("emergency-defend-base");
        reveal_strlit("fire-iron-curtain");
        reveal_with_fuel(sorts_before, 2);
    } else if k == 13 {
        reveal_strlit("fire-iron-curtain");
        reveal_strlit("fire-nuke");
        reveal_with_fuel(sorts_before, 7);
    } else if k == 14 {
        reveal_strlit("fire-nuke");
        reveal_strlit("fire-parabombs");
        reveal_with_fuel(sorts_before, 7);
    } else if k == 15 {
        reveal_strlit("fire-parabombs");
        reveal_strlit("fire-paratroopers");
        reveal_with_fuel(sorts_before, 11);
    } else if k == 16 {
        reveal_strlit("fire-paratroopers");
        reveal_strlit("fire-spy-plane");
        reveal_with_fuel(sorts_before, 7);
    } else if k == 17 {
        reveal_strlit("fire-spy-plane");
        reveal_strlit("flee-harvesters");
        reveal_with_fuel(sorts_before, 3);
    } else if k == 18 {
        reveal_strlit("flee-harvesters");
        reveal_strlit("form-squad");
        reveal_with_fuel(sorts_before, 3);
    } else if k == 19 {
        reveal_strlit("form-squad");
        reveal_strlit("lay-mines");
        reveal_with_fuel(sorts_before, 2);
    } else if k == 20 {
        reveal_strlit("lay-mines");
        reveal_strlit("load-combat-infantry");
        reveal_with_fuel(sorts_before, 3);
    } else if k == 21 {
        reveal_strlit("load-combat-infantry");
        reveal_strlit("load-engineer-into-apc");
        reveal_with_fuel(sorts_before, 7);
    } else if k == 22 {
        reveal_strlit("load-engineer-into-apc");
        reveal_strlit("naval-attack-enemy");
        reveal_with_fuel(sorts_before, 2);
    } else if k == 23 {
        reveal_strlit("naval-attack-enemy");
        reveal_strlit("naval-defend-base");
        reveal_with_fuel(sorts_before, 8);
    } else if k == 24 {
        reveal_strlit("naval-defend-base");
        reveal_strlit("place-building");
        reveal_with_fuel(sorts_before, 2);
    } else if k == 25 {
        reveal_strlit("place-building");
        reveal_strlit("place-defense");
        reveal_with_fuel(sorts_before, 8);
    } else if k == 26 {
        reveal_strlit("place-defense");
        reveal_strlit("produce-aa-defense");
        reveal_with_fuel(sorts_before, 3);
    } else if k == 27 {
        reveal_strlit("produce-aa-defense");
        reveal_strlit("produce-advanced-aircraft");
        reveal_with_fuel(sorts_before, 11);
    } else if k == 28 {
        reveal_strlit("produce-advanced-aircraft");
        reveal_strlit("produce-advanced-power");
        reveal_with_fuel(sorts_before, 19);
    } else if k == 29 {
        reveal_strlit("produce-advanced-power");
        reveal_strlit("produce-advanced-ship");
        reveal_with_fuel(sorts_before, 19);
    } else if k == 30 {
        reveal_strlit("produce-advanced-ship");
        reveal_strlit("produce-aircraft");
        reveal_with_fuel(sorts_before, 11);
    } else if k == 31 {
        reveal_strlit("produce-aircraft");
        reveal_strlit("produce-airfield");
        reveal_with_fuel(sorts_before, 13);
    } else if k == 32 {
        reveal_strlit("produce-airfield");
        reveal_strlit("produce-apc");
        reveal_with_fuel(sorts_before, 11);
    } else if k == 33 {
        reveal_strlit("produce-apc");
        reveal_strlit("produce-attack-dog");
        reveal_with_fuel(sorts_before, 11);
    } else if k == 34 {
        reveal_strlit("produce-attack-dog");
        reveal_strlit("produce-barracks");
        reveal_with_fuel(sorts_before, 10);
    } else if k == 35 {
        reveal_strlit("produce-barracks");
        reveal_strlit("produce-basic-aircraft");
        reveal_with_fuel(sorts_before, 12);
    } else if k == 36 {
        reveal_strlit("produce-basic-aircraft");
        reveal_strlit("produce-defense");
        reveal_with_fuel(sorts_before, 10);
    } else if k == 37 {
        reveal_strlit("produce-defense");
        reveal_strlit("produce-engineer");
        reveal_with_fuel(sorts_before, 10);
    } else if k == 38 {
        reveal_strlit("produce-engineer");
        reveal_strlit("produce-flak-truck");
        reveal_with_fuel(sorts_before, 10);
    } else if k == 39 {
        reveal_strlit("produce-flak-truck");
        reveal_strlit("produce-flame-tower");
        reveal_with_fuel(sorts_before, 13);
    } else if k == 40 {
        reveal_strlit("produce-flame-tower");
        reveal_strlit("produce-gap-generator");
        reveal_with_fuel(sorts_before, 10);
    } else if k == 41 {
        reveal_strlit("produce-gap-generator");
        reveal_strlit("produce-grenadier");
        reveal_with_fuel(sorts_before, 11);
    } else if k == 42 {
        reveal_strlit("produce-grenadier");
        reveal_strlit("produce-gunboat");
        reveal_with_fuel(sorts_before, 11);
    } else if k == 43 {
        reveal_strlit("produce-gunboat");
        reveal_strlit("produce-harvester");
        reveal_with_fuel(sorts_before, 10);
    } else if k == 44 {
        reveal_strlit("produce-harvester");
        reveal_strlit("produce-heavy-vehicle");
        reveal_with_fuel(sorts_before, 11);
    } else if k == 45 {
        reveal_strlit("produce-heavy-vehicle");
        reveal_strlit("produce-infantry");
        reveal_with_fuel(sorts_before, 10);
    } else if k == 46 {
        reveal_strlit("produce-infantry");
        reveal_strlit("produce-iron-curtain");
        reveal_with_fuel(sorts_before, 11);
    } else if k == 47 {
        reveal_strlit("produce-iron-curtain");
        reveal_strlit("produce-kennel");
        reveal_with_fuel(sorts_before, 10);
    } else if k == 48 {
        reveal_strlit("produce-kennel");
        reveal_strlit("produce-mad-tank");
        reveal_with_fuel(sorts_before, 10);
    } else if k == 49 {
        reveal_strlit("produce-mad-tank");
        reveal_strlit("produce-mcv");
        reveal_with_fuel(sorts_before, 11);
    } else if k == 50 {
        reveal_strlit("produce-mcv");
        reveal_strlit("produce-minelayer");
        reveal_with_fuel(sorts_before, 11);
    } else if k == 51 {
        reveal_strlit("produce-minelayer");
        reveal_strlit("produce-missile-silo");
        reveal_with_fuel(sorts_before, 12);
    } else if k == 52 {
        reveal_strlit("produce-missile-silo");
        reveal_strlit("produce-naval-yard");
        reveal_with_fuel(sorts_before, 10);
    } else if k == 53 {
        reveal_strlit("produce-naval-yard");
        reveal_strlit("produce-ore-silo");
        reveal_with_fuel(sorts_before, 10);
    } else if k == 54 {
        reveal_strlit("produce-ore-silo");
        reveal_strlit("produce-power-plant");
        reveal_with_fuel(sorts_before, 10);
    } else if k == 55 {
        reveal_strlit("produce-power-plant");
        reveal_strlit("produce-radar");
        reveal_with_fuel(sorts_before, 10);
    } else if k == 56 {
        reveal_strlit("produce-radar");
        reveal_strlit("produce-refinery");
        reveal_with_fuel(sorts_before, 11);
    } else if k == 57 {
        reveal_strlit("produce-refinery");
        reveal_strlit("produce-rocket-soldier");
        reveal_with_fuel(sorts_before, 11);
    } else if k == 58 {
        reveal_strlit("produce-rocket-soldier");
        reveal_strlit("produce-scout-vehicle");
        reveal_with_fuel(sorts_before, 10);
    } else if k == 59 {
        reveal_strlit("produce-scout-vehicle");
        reveal_strlit("produce-service-depot");
        reveal_with_fuel(sorts_before, 11);
    } else if k == 60 {
        reveal_strlit("produce-service-depot");
        reveal_strlit("produce-ship");
        reveal_with_fuel(sorts_before, 11);
    } else if k == 61 {
        reveal_strlit("produce-ship");
        reveal_strlit("produce-siege-vehicle");
        reveal_with_fuel(sorts_before, 11);
    } else if k == 62 {
        reveal_strlit("produce-siege-vehicle");
        reveal_strlit("produce-specialist-infantry");
        reveal_with_fuel(sorts_before, 11);
    } else if k == 63 {
        reveal_strlit("produce-specialist-infantry");
        reveal_strlit("produce-spy");
        reveal_with_fuel(sorts_before, 12);
    } else if k == 64 {
        reveal_strlit("produce-spy");
        reveal_strlit("produce-tech-center");
        reveal_with_fuel(sorts_before, 10);
    } else if k == 65 {
        reveal_strlit("produce-tech-center");
        reveal_strlit("produce-tesla-coil");
        reveal_with_fuel(sorts_before, 12);
    } else if k == 66 {
        reveal_strlit("produce-tesla-coil");
        reveal_strlit("produce-vehicle");
        reveal_with_fuel(sorts_before, 10);
    } else if k == 67 {
        reveal_strlit("produce-vehicle");
        reveal_strlit("produce-war-factory");
        reveal_with_fuel(sorts_before, 10);
    } else if k == 68 {
        reveal_strlit("produce-war-factory");
        reveal_strlit("recall-overextended");
        reveal_with_fuel(sorts_before, 2);
    } else if k == 69 {
        reveal_strlit("recall-overextended");
        reveal_strlit("repair-buildings");
        reveal_with_fuel(sorts_before, 4);
    } else if k == 70 {
        reveal_strlit("repair-buildings");
        reveal_strlit("retreat-damaged-units");
        reveal_with_fuel(sorts_before, 4);
    } else if k == 71 {
        reveal_strlit("retreat-damaged-units");
        reveal_strlit("scout");
        reveal_with_fuel(sorts_before, 2);
    } else if k == 72 {
        reveal_strlit("scout");
        reveal_strlit("scout-patrol");
        reveal_with_fuel(sorts_before, 7);
    } else if k == 73 {
        reveal_strlit("scout-patrol");
        reveal_strlit("send-harvesters");
        reveal_with_fuel(sorts_before, 3);
    } else if k == 74 {
        reveal_strlit("send-harvesters");
        reveal_strlit("squad-air-strike");
        reveal_with_fuel(sorts_before, 3);
    } else if k == 75 {
        reveal_strlit("squad-air-strike");
        reveal_strlit("squad-attack-known-base");
        reveal_with_fuel(sorts_before, 9);
    } else if k == 76 {
        reveal_strlit("squad-attack-known-base");
        reveal_strlit("squad-attack-move");
        reveal_with_fuel(sorts_before, 15);
    } else if k == 77 {
        reveal_strlit("squad-attack-move");
        reveal_strlit("squad-defend");
        reveal_with_fuel(sorts_before, 8);
    } else if k == 78 {
        reveal_strlit("squad-defend");
        reveal_strlit("squad-disengage");
        reveal_with_fuel(sorts_before, 9);
    } else if k == 79 {
        reveal_strlit("squad-disengage");
        reveal_strlit("squad-focus-fire");
        reveal_with_fuel(sorts_before, 8);
    } else if k == 80 {
        reveal_strlit("squad-focus-fire");
        reveal_strlit("unblock-war-factory-egress");
        reveal_with_fuel(sorts_before, 2);
    } else if k == 81 {
        reveal_strlit("unblock-war-factory-egress");
        reveal_strlit("unload-apc-near-target");
        reveal_with_fuel(sorts_before, 4);
    }
}

/// No action is listed twice.
pub proof fn lemma_action_names_distinct(i: int, j: int)
    requires
        0 <= i < action_count(),
        0 <= j < action_count(),
        i != j,
    ensures
        action_spec(i) != action_spec(j),
{
    let t = |k: int| action_spec(action_by_name(k));
    assert forall|k: int| 0 <= k < action_count() - 1 implies sorts_before(#[trigger] t(k), t(k + 1), 0) by {
        lemma_actions_sorted(k);
    }
    lemma_action_rank(i);
    lemma_action_rank(j);
    let ri = action_rank(i);
    let rj = action_rank(j);
    if ri < rj {
        lemma_sorted_chain(t, action_count(), ri, rj);
    } else {
        lemma_sorted_chain(t, action_count(), rj, ri);
    }
    lemma_sorts_before_irreflexive(action_spec(i), 0);
}

/// No building's name is also a unit's name.
pub proof fn lemma_buildings_are_not_units(n: Seq<char>)
    requires
        is_member(Domain::BuildingType, n),
    ensures
        !is_member(Domain::UnitType, n),
{
    reveal_strlit("fact");
    reveal_strlit("powr");
    reveal_strlit("proc");
    reveal_strlit("weap");
    reveal_strlit("e1");
    reveal_strlit("mcv");
    assert(n.len() == 4);
    assert forall|j: int| 0 <= j < member_count(Domain::UnitType) implies member_spec(Domain::UnitType, j) != n by {
        assert(member_spec(Domain::UnitType, j).len() < 4);
    }
}

} // verus!
