//! Evaluation: what a lowered rule set does against one game state.
//!
//! Runs on lowered rules, so there are no names left to resolve and no `count`
//! to disambiguate — every remaining failure would be a compiler bug rather than
//! bad input, which is why nothing here reports a diagnostic.
//!
//! Three parts live here: the integer and boolean arithmetic of conditions,
//! which part of the game state answers each predicate, and the order and
//! category exclusivity that decide which satisfied rules fire.
use crate::ast::{BinOp, UnOp};
use crate::env::{predicate_params, predicate_ret, Predicate};
use crate::ir::{Ir, IrRule};
use crate::types::Type;
use vstd::prelude::*;
use std::collections::HashSet;

verus! {

/// A value that needs no floating point: what integer and boolean evaluation
/// produces.
#[derive(Debug, Clone, Copy, PartialEq, Eq, Structural)]
pub enum Value {
    Int(i64),
    Bool(bool),
    /// Whether an optional is present. The payload is unreachable from the
    /// language, so there is nothing to carry.
    Opt(bool),
}

/// `x` clamped into `i64`: every integer path saturates rather than
/// overflowing, since a doctrine is not trusted to keep arithmetic in range.
pub open spec fn saturate(x: int) -> i64 {
    if x > i64::MAX {
        i64::MAX
    } else if x < i64::MIN {
        i64::MIN
    } else {
        x as i64
    }
}

pub open spec fn magnitude(x: int) -> int {
    if x < 0 {
        -x
    } else {
        x
    }
}

/// The quotient rounded toward zero, as integer division rounds.
pub open spec fn quotient(a: int, b: int) -> int {
    if (a < 0) == (b < 0) {
        magnitude(a) / magnitude(b)
    } else {
        -(magnitude(a) / magnitude(b))
    }
}

/// Division as conditions see it: by zero, or past the range of `i64`, the
/// answer is 0 rather than a trap.
pub open spec fn divide(a: int, b: int) -> int {
    if b == 0 {
        0
    } else if i64::MIN <= quotient(a, b) <= i64::MAX {
        quotient(a, b)
    } else {
        0
    }
}

/// A binary operator on two values, when it is defined on them.
///
/// Integers compare as integers, never through a float, so 2^53 and 2^53 + 1
/// stay distinct. `and` and `or` are not here: they short-circuit, which an
/// already evaluated pair of operands cannot.
pub open spec fn binary_spec(op: BinOp, l: Value, r: Value) -> Option<Value> {
    match (l, r) {
        (Value::Bool(a), Value::Bool(b)) => match op {
            BinOp::Eq => Some(Value::Bool(a == b)),
            BinOp::NotEq => Some(Value::Bool(a != b)),
            _ => None,
        },
        (Value::Int(a), Value::Int(b)) => match op {
            BinOp::Eq => Some(Value::Bool(a == b)),
            BinOp::NotEq => Some(Value::Bool(a != b)),
            BinOp::Lt => Some(Value::Bool(a < b)),
            BinOp::LtEq => Some(Value::Bool(a <= b)),
            BinOp::Gt => Some(Value::Bool(a > b)),
            BinOp::GtEq => Some(Value::Bool(a >= b)),
            BinOp::Add => Some(Value::Int(saturate(a + b))),
            BinOp::Sub => Some(Value::Int(saturate(a - b))),
            BinOp::Mul => Some(Value::Int(saturate(a * b))),
            BinOp::Div => Some(Value::Int(divide(a as int, b as int) as i64)),
            BinOp::And | BinOp::Or => None,
        },
        _ => None,
    }
}

/// `not`, negation and `exists`, when defined on the operand.
pub open spec fn unary_spec(op: UnOp, v: Value) -> Option<Value> {
    match (op, v) {
        (UnOp::Not, Value::Bool(b)) => Some(Value::Bool(!b)),
        (UnOp::Neg, Value::Int(n)) => Some(Value::Int(saturate(-n))),
        (UnOp::Exists, Value::Opt(present)) => Some(Value::Bool(present)),
        _ => None,
    }
}

fn add_saturating(a: i64, b: i64) -> (r: i64)
    ensures
        r == saturate(a + b),
{
    if b > 0 && a > i64::MAX - b {
        i64::MAX
    } else if b < 0 && a < i64::MIN - b {
        i64::MIN
    } else {
        a + b
    }
}

fn sub_saturating(a: i64, b: i64) -> (r: i64)
    ensures
        r == saturate(a - b),
{
    if b < 0 && a > i64::MAX + b {
        i64::MAX
    } else if b > 0 && a < i64::MIN + b {
        i64::MIN
    } else {
        a - b
    }
}

fn clamp_wide(x: i128) -> (r: i64)
    ensures
        r == saturate(x as int),
{
    if x > i64::MAX as i128 {
        i64::MAX
    } else if x < i64::MIN as i128 {
        i64::MIN
    } else {
        x as i64
    }
}

fn mul_saturating(a: i64, b: i64) -> (r: i64)
    ensures
        r == saturate(a * b),
{
    let wa: i128 = a as i128;
    let wb: i128 = b as i128;
    assert(-0x8000_0000_0000_0000 <= wa <= 0x7fff_ffff_ffff_ffff);
    assert(-0x8000_0000_0000_0000 <= wb <= 0x7fff_ffff_ffff_ffff);
    assert(-0x4000_0000_0000_0000_0000_0000_0000_0000 <= wa * wb
        <= 0x4000_0000_0000_0000_0000_0000_0000_0000) by (nonlinear_arith)
        requires
            -0x8000_0000_0000_0000 <= wa <= 0x7fff_ffff_ffff_ffff,
            -0x8000_0000_0000_0000 <= wb <= 0x7fff_ffff_ffff_ffff,
    ;
    clamp_wide(wa * wb)
}

fn divide_or_zero(a: i64, b: i64) -> (r: i64)
    ensures
        r as int == divide(a as int, b as int),
{
    if b == 0 {
        return 0;
    }
    let wa: i128 = a as i128;
    let wb: i128 = b as i128;
    let ma: u128 = if wa < 0 {
        (-wa) as u128
    } else {
        wa as u128
    };
    let mb: u128 = if wb < 0 {
        (-wb) as u128
    } else {
        wb as u128
    };
    assert(ma as int == magnitude(a as int));
    assert(mb as int == magnitude(b as int));
    let m: u128 = ma / mb;
    assert(m <= ma) by (nonlinear_arith)
        requires
            m == ma / mb,
            mb >= 1,
    ;
    let q: i128 = if (a < 0) == (b < 0) {
        m as i128
    } else {
        -(m as i128)
    };
    assert(q as int == quotient(a as int, b as int));
    if q > i64::MAX as i128 || q < i64::MIN as i128 {
        0
    } else {
        q as i64
    }
}

/// A binary operator on two values, exactly as `binary_spec` says.
pub fn binary(op: BinOp, l: Value, r: Value) -> (v: Option<Value>)
    ensures
        v == binary_spec(op, l, r),
{
    match (l, r) {
        (Value::Bool(a), Value::Bool(b)) => match op {
            BinOp::Eq => Some(Value::Bool(a == b)),
            BinOp::NotEq => Some(Value::Bool(a != b)),
            _ => None,
        },
        (Value::Int(a), Value::Int(b)) => match op {
            BinOp::Eq => Some(Value::Bool(a == b)),
            BinOp::NotEq => Some(Value::Bool(a != b)),
            BinOp::Lt => Some(Value::Bool(a < b)),
            BinOp::LtEq => Some(Value::Bool(a <= b)),
            BinOp::Gt => Some(Value::Bool(a > b)),
            BinOp::GtEq => Some(Value::Bool(a >= b)),
            BinOp::Add => Some(Value::Int(add_saturating(a, b))),
            BinOp::Sub => Some(Value::Int(sub_saturating(a, b))),
            BinOp::Mul => Some(Value::Int(mul_saturating(a, b))),
            BinOp::Div => Some(Value::Int(divide_or_zero(a, b))),
            BinOp::And | BinOp::Or => None,
        },
        _ => None,
    }
}

/// `not`, negation and `exists`, exactly as `unary_spec` says. Negating the
/// smallest integer saturates instead of overflowing.
pub fn unary(op: UnOp, v: Value) -> (r: Option<Value>)
    ensures
        r == unary_spec(op, v),
{
    match (op, v) {
        (UnOp::Not, Value::Bool(b)) => Some(Value::Bool(!b)),
        (UnOp::Neg, Value::Int(n)) => Some(
            Value::Int(
                if n == i64::MIN {
                    i64::MAX
                } else {
                    -n
                },
            ),
        ),
        (UnOp::Exists, Value::Opt(present)) => Some(Value::Bool(present)),
        _ => None,
    }
}


/// Which part of the game state answers a predicate.
#[derive(Debug, Clone, Copy, PartialEq, Eq, Structural)]
pub enum Reading {
    /// A number with no arguments, e.g. `cash`, read as an integer.
    Scalar,
    /// A yes-or-no with no arguments; absent means false.
    Flag,
    /// Whether an optional is present.
    Presence,
    /// How many of the building or unit type named by the argument there are.
    TypeCount,
    /// Whether there is at least one of the type named by the argument.
    TypeExists,
    /// The size of a collection, keyed by the call when it takes arguments.
    Collection,
    /// A keyed call returning a yes-or-no.
    CallBool,
    /// A keyed call returning an integer.
    CallInt,
    /// A keyed call returning a fraction.
    CallFloat,
}

/// The reading for each predicate follows from its signature: what it returns
/// and whether it takes arguments. The four that count types are the
/// exception, since their argument names a type rather than keying a call.
pub open spec fn reading_spec(p: Predicate) -> Reading {
    if p == Predicate::BuildingCount || p == Predicate::UnitCount {
        Reading::TypeCount
    } else if p == Predicate::HasBuilding || p == Predicate::HasUnit {
        Reading::TypeExists
    } else {
        let keyed = predicate_params(p).len() > 0;
        match predicate_ret(p) {
            Type::Collection => Reading::Collection,
            Type::Float => Reading::CallFloat,
            Type::Option(_) => Reading::Presence,
            Type::Int => if keyed {
                Reading::CallInt
            } else {
                Reading::Scalar
            },
            _ => if keyed {
                Reading::CallBool
            } else {
                Reading::Flag
            },
        }
    }
}

/// Where the state answers `id`.
pub fn reading(id: Predicate) -> (r: Reading)
    ensures
        r == reading_spec(id),
{
    match id {
        Predicate::AircraftCapacity => Reading::Scalar,
        Predicate::AxisBurned => Reading::CallBool,
        Predicate::BaseUnderAttack => Reading::Flag,
        Predicate::BestAirTarget => Reading::Presence,
        Predicate::BestGroundTarget => Reading::Presence,
        Predicate::BuildingCount => Reading::TypeCount,
        Predicate::CanBuild => Reading::CallBool,
        Predicate::CanBuildAnyCombatAircraft => Reading::Flag,
        Predicate::CanBuildAnyCombatVehicle => Reading::Flag,
        Predicate::CanBuildAnySpecialist => Reading::Flag,
        Predicate::CanBuildRole => Reading::CallBool,
        Predicate::CanBuildTransport => Reading::Flag,
        Predicate::CapturableCount => Reading::Scalar,
        Predicate::Cash => Reading::Scalar,
        Predicate::CombatAircraftCount => Reading::Scalar,
        Predicate::CombatVehicleCount => Reading::Scalar,
        Predicate::CriticalBuildingUnderAttack => Reading::Flag,
        Predicate::DamagedBuildings => Reading::Collection,
        Predicate::DamagedCombatUnits => Reading::Collection,
        Predicate::EnemiesVisible => Reading::Flag,
        Predicate::EngineerNearCapturable => Reading::Flag,
        Predicate::HarvestersInDanger => Reading::Collection,
        Predicate::HasBuilding => Reading::TypeExists,
        Predicate::HasEnemyIntel => Reading::Flag,
        Predicate::HasRetreatingUnits => Reading::Flag,
        Predicate::HasRole => Reading::CallBool,
        Predicate::HasScout => Reading::Flag,
        Predicate::HasUnit => Reading::TypeExists,
        Predicate::IdleCombatAircraft => Reading::Collection,
        Predicate::IdleCombatInfantry => Reading::Collection,
        Predicate::IdleCombatLoadedApcs => Reading::Collection,
        Predicate::IdleEmptyApcs => Reading::Collection,
        Predicate::IdleEngineerLoadedApcs => Reading::Collection,
        Predicate::IdleEngineers => Reading::Collection,
        Predicate::IdleGroundUnits => Reading::Collection,
        Predicate::IdleHarvesters => Reading::Collection,
        Predicate::IdleMinelayers => Reading::Collection,
        Predicate::IdleNavalUnits => Reading::Collection,
        Predicate::IdleScouts => Reading::Collection,
        Predicate::IsRushed => Reading::Flag,
        Predicate::LostRole => Reading::CallBool,
        Predicate::MapHasWater => Reading::Flag,
        Predicate::NearBaseGroundUnits => Reading::Collection,
        Predicate::NearestEnemy => Reading::Presence,
        Predicate::OverextendedSquadMembers => Reading::Collection,
        Predicate::PowerExcess => Reading::Scalar,
        Predicate::QueueBusy => Reading::CallBool,
        Predicate::QueueProducingRole => Reading::CallBool,
        Predicate::QueueReady => Reading::CallBool,
        Predicate::ResourcesNearCap => Reading::Flag,
        Predicate::RoleCount => Reading::CallInt,
        Predicate::SpecialistInfantryCount => Reading::Scalar,
        Predicate::SquadAwayFromBase => Reading::CallBool,
        Predicate::SquadExists => Reading::CallBool,
        Predicate::SquadIdleCount => Reading::CallInt,
        Predicate::SquadNeedsReinforcement => Reading::CallBool,
        Predicate::SquadReadyRatio => Reading::CallFloat,
        Predicate::SquadThreatRatio => Reading::CallFloat,
        Predicate::SupportPowerReady => Reading::CallBool,
        Predicate::TransportCount => Reading::Scalar,
        Predicate::UnassignedIdleAir => Reading::Collection,
        Predicate::UnassignedIdleGround => Reading::Collection,
        Predicate::UnassignedIdleNaval => Reading::Collection,
        Predicate::UnitCount => Reading::TypeCount,
    }
}


/// Whether rule `a` is considered before rule `b`: higher priority first, and
/// among equal priorities the one written first.
pub open spec fn precedes(p: Seq<i64>, a: int, b: int) -> bool {
    p[a] > p[b] || (p[a] == p[b] && a < b)
}

/// Every rule comes before every rule after it.
pub open spec fn ordered_by(p: Seq<i64>, order: Seq<usize>) -> bool {
    forall|i: int, j: int|
        0 <= i < j < order.len() ==> precedes(p, #[trigger] order[i] as int, #[trigger] order[j] as int)
}

/// An order in which to consider every rule once.
pub open spec fn is_firing_order(p: Seq<i64>, order: Seq<usize>) -> bool {
    &&& order.len() == p.len()
    &&& forall|i: int| 0 <= i < order.len() ==> #[trigger] order[i] < p.len()
    &&& forall|k: usize| k < p.len() ==> #[trigger] order.contains(k)
    &&& ordered_by(p, order)
}

proof fn lemma_insert_keeps_order(p: Seq<i64>, order: Seq<usize>, pos: int, k: usize)
    requires
        0 <= pos <= order.len(),
        k < p.len(),
        ordered_by(p, order),
        forall|i: int| 0 <= i < order.len() ==> #[trigger] order[i] < k,
        forall|i: int| 0 <= i < pos ==> p[#[trigger] order[i] as int] >= p[k as int],
        forall|i: int| pos <= i < order.len() ==> p[#[trigger] order[i] as int] < p[k as int],
    ensures
        ordered_by(p, order.insert(pos, k)),
{
    let o2 = order.insert(pos, k);
    assert forall|i: int, j: int| 0 <= i < j < o2.len() implies precedes(
        p,
        #[trigger] o2[i] as int,
        #[trigger] o2[j] as int,
    ) by {
        if i < pos && j < pos {
            assert(o2[i] == order[i] && o2[j] == order[j]);
        } else if i < pos && j == pos {
            assert(o2[i] == order[i]);
        } else if i < pos {
            assert(o2[i] == order[i] && o2[j] == order[j - 1]);
        } else if i == pos {
            assert(o2[j] == order[j - 1]);
        } else {
            assert(o2[i] == order[i - 1] && o2[j] == order[j - 1]);
        }
    }
}

/// The rules in the order they are considered: highest priority first, and
/// rules of equal priority in the order they were written.
///
/// Priorities are resolved once, not per rule: a priority sees only
/// parameters, which do not change within a doctrine window.
pub fn firing_order(priorities: &Vec<i64>) -> (order: Vec<usize>)
    ensures
        is_firing_order(priorities@, order@),
{
    let n = priorities.len();
    let mut order: Vec<usize> = Vec::new();
    let mut k: usize = 0;
    while k < n
        invariant
            k <= n,
            n == priorities@.len(),
            order@.len() == k,
            forall|i: int| 0 <= i < order@.len() ==> #[trigger] order@[i] < k,
            forall|j: usize| j < k ==> #[trigger] order@.contains(j),
            ordered_by(priorities@, order@),
        decreases n - k,
    {
        let pk = priorities[k];
        let mut pos: usize = 0;
        while pos < order.len() && priorities[order[pos]] >= pk
            invariant
                pos <= order@.len(),
                order@.len() == k,
                k < n,
                n == priorities@.len(),
                pk == priorities@[k as int],
                forall|i: int| 0 <= i < order@.len() ==> #[trigger] order@[i] < k,
                forall|i: int| 0 <= i < pos ==> priorities@[#[trigger] order@[i] as int] >= pk,
            decreases order@.len() - pos,
        {
            pos += 1;
        }
        proof {
            assert forall|i: int| pos <= i < order@.len() implies priorities@[
                #[trigger] order@[i] as int] < pk by {
                if i > pos {
                    assert(precedes(priorities@, order@[pos as int] as int, order@[i] as int));
                }
            }
            lemma_insert_keeps_order(priorities@, order@, pos as int, k);
        }
        let ghost before = order@;
        order.insert(pos, k);
        proof {
            assert forall|j: usize| j < k + 1 implies #[trigger] order@.contains(j) by {
                if j == k {
                    assert(order@[pos as int] == k);
                } else {
                    assert(before.contains(j));
                    let w = choose|w: int| 0 <= w < before.len() && before[w] == j;
                    if w < pos {
                        assert(order@[w] == before[w]);
                    } else {
                        assert(order@[w + 1] == before[w]);
                    }
                }
            }
        }
        k += 1;
    }
    order
}

/// The categories claimed and the rules fired once the first `n` rules of
/// `order` have been considered in turn.
///
/// A rule whose category an exclusive rule has already claimed is skipped
/// without being evaluated; a rule that fires is recorded, and if it is
/// exclusive it claims its category for the rest of the pass.
pub open spec fn run(rules: Seq<IrRule>, order: Seq<usize>, fires: Seq<bool>, n: int) -> (Set<u32>, Seq<usize>)
    decreases n,
{
    if n <= 0 {
        (Set::empty(), Seq::empty())
    } else {
        let (claimed, fired) = run(rules, order, fires, n - 1);
        let i = order[n - 1];
        let category = rules[i as int].category.0;
        if claimed.contains(category) || !fires[i as int] {
            (claimed, fired)
        } else if rules[i as int].exclusive {
            (claimed.insert(category), fired.push(i))
        } else {
            (claimed, fired.push(i))
        }
    }
}

/// Which rules fire, in the order they fire.
pub struct Firing {
    /// Indices into the rule set.
    pub fired: Vec<usize>,
}

/// Considers the rules in `order`, given whether each one's requirements
/// hold, and applies category exclusivity.
pub fn select(ir: &Ir, order: &Vec<usize>, fires: &Vec<bool>) -> (fired: Vec<usize>)
    requires
        fires@.len() == ir.rules@.len(),
        forall|i: int| 0 <= i < order@.len() ==> #[trigger] order@[i] < ir.rules@.len(),
    ensures
        fired@ == run(ir.rules@, order@, fires@, order@.len() as int).1,
{
    broadcast use vstd::std_specs::hash::group_hash_axioms;

    let mut claimed: HashSet<u32> = HashSet::new();
    let mut fired: Vec<usize> = Vec::new();
    let mut k: usize = 0;
    while k < order.len()
        invariant
            k <= order@.len(),
            fires@.len() == ir.rules@.len(),
            forall|i: int| 0 <= i < order@.len() ==> #[trigger] order@[i] < ir.rules@.len(),
            claimed@ == run(ir.rules@, order@, fires@, k as int).0,
            fired@ == run(ir.rules@, order@, fires@, k as int).1,
        decreases order@.len() - k,
    {
        let i = order[k];
        let category = ir.rules[i].category.0;
        let ghost prev = run(ir.rules@, order@, fires@, k as int);
        let ghost next = run(ir.rules@, order@, fires@, k as int + 1);
        assert(next == (if prev.0.contains(category) || !fires@[i as int] {
            prev
        } else if ir.rules@[i as int].exclusive {
            (prev.0.insert(category), prev.1.push(i))
        } else {
            (prev.0, prev.1.push(i))
        }));
        let taken = claimed.contains(&category);
        if !taken && fires[i] {
            fired.push(i);
            if ir.rules[i].exclusive {
                claimed.insert(category);
            }
        }
        k += 1;
    }
    fired
}

/// Runs a rule set against one state, given each rule's priority under the
/// doctrine and whether its requirements hold in the state.
pub fn evaluate(ir: &Ir, priorities: &Vec<i64>, fires: &Vec<bool>) -> (firing: Firing)
    requires
        priorities@.len() == ir.rules@.len(),
        fires@.len() == ir.rules@.len(),
    ensures
        exists|order: Seq<usize>|
            is_firing_order(priorities@, order) && firing.fired@ == run(
                ir.rules@,
                order,
                fires@,
                order.len() as int,
            ).1,
{
    let order = firing_order(priorities);
    let fired = select(ir, &order, fires);
    assert(is_firing_order(priorities@, order@));
    Firing { fired }
}


pub open spec fn category_of(rules: Seq<IrRule>, i: usize) -> u32 {
    rules[i as int].category.0
}

/// The order is well formed: lengths agree and every entry names a rule.
pub open spec fn pass_ok(rules: Seq<IrRule>, order: Seq<usize>, fires: Seq<bool>) -> bool {
    &&& fires.len() == rules.len()
    &&& forall|i: int| 0 <= i < order.len() ==> #[trigger] order[i] < rules.len()
}

/// What every step of a pass keeps.
proof fn lemma_run(rules: Seq<IrRule>, order: Seq<usize>, fires: Seq<bool>, n: int)
    requires
        pass_ok(rules, order, fires),
        0 <= n <= order.len(),
    ensures
        ({
            let (claimed, fired) = run(rules, order, fires, n);
            &&& forall|a: int| 0 <= a < fired.len() ==> fires[#[trigger] fired[a] as int]
            &&& forall|a: int| 0 <= a < fired.len() ==> order.take(n).contains(#[trigger] fired[a])
            &&& forall|a: int|
                0 <= a < fired.len() && rules[#[trigger] fired[a] as int].exclusive ==> claimed.contains(
                    category_of(rules, fired[a]),
                )
            &&& forall|a: int, b: int|
                0 <= a < b < fired.len() && rules[#[trigger] fired[a] as int].exclusive ==> category_of(
                    rules,
                    #[trigger] fired[b],
                ) != category_of(rules, fired[a])
            &&& forall|c: u32|
                #[trigger] claimed.contains(c) ==> exists|a: int|
                    0 <= a < fired.len() && rules[#[trigger] fired[a] as int].exclusive && category_of(
                        rules,
                        fired[a],
                    ) == c
        }),
    decreases n,
{
    if n > 0 {
        lemma_run(rules, order, fires, n - 1);
        let (claimed, fired) = run(rules, order, fires, n - 1);
        let i = order[n - 1];
        let category = rules[i as int].category.0;
        let (claimed2, fired2) = run(rules, order, fires, n);
        assert forall|a: int| 0 <= a < fired.len() implies order.take(n).contains(#[trigger] fired[a]) by {
            assert(order.take(n - 1).contains(fired[a]));
            let w = choose|w: int| 0 <= w < n - 1 && #[trigger] order.take(n - 1)[w] == fired[a];
            assert(order.take(n)[w] == fired[a]);
        }
        if !(claimed.contains(category) || !fires[i as int]) {
            assert(order.take(n)[n - 1] == i);
            assert(fired2 == fired.push(i));
            assert forall|a: int| 0 <= a < fired2.len() implies order.take(n).contains(#[trigger] fired2[a]) by {
                if a < fired.len() {
                    assert(fired2[a] == fired[a]);
                }
            }
            assert forall|a: int, b: int|
                0 <= a < b < fired2.len() && rules[#[trigger] fired2[a] as int].exclusive implies category_of(
                    rules,
                    #[trigger] fired2[b],
                ) != category_of(rules, fired2[a]) by {
                assert(fired2[a] == fired[a]);
                if b < fired.len() {
                    assert(fired2[b] == fired[b]);
                } else {
                    assert(claimed.contains(category_of(rules, fired[a])));
                }
            }
            assert forall|c: u32| #[trigger] claimed2.contains(c) implies exists|a: int|
                0 <= a < fired2.len() && rules[#[trigger] fired2[a] as int].exclusive && category_of(
                    rules,
                    fired2[a],
                ) == c by {
                if claimed.contains(c) {
                    let a = choose|a: int|
                        0 <= a < fired.len() && rules[#[trigger] fired[a] as int].exclusive && category_of(
                            rules,
                            fired[a],
                        ) == c;
                    assert(fired2[a] == fired[a]);
                } else {
                    assert(fired2[fired.len() as int] == i);
                }
            }
        } else {
            assert forall|a: int| 0 <= a < fired2.len() implies order.take(n).contains(#[trigger] fired2[a]) by {
                assert(order.take(n).contains(fired[a]));
            }
        }
    }
}

proof fn lemma_run_grows(rules: Seq<IrRule>, order: Seq<usize>, fires: Seq<bool>, m: int, n: int)
    requires
        0 <= m <= n,
    ensures
        run(rules, order, fires, m).1.is_prefix_of(run(rules, order, fires, n).1),
    decreases n,
{
    if m < n {
        lemma_run_grows(rules, order, fires, m, n - 1);
    }
}

/// What a pass has claimed so far is exactly the categories of the
/// exclusive rules that fired.
pub proof fn lemma_claimed_exactly(rules: Seq<IrRule>, order: Seq<usize>, fires: Seq<bool>, n: int)
    requires
        pass_ok(rules, order, fires),
        0 <= n <= order.len(),
    ensures
        forall|c: u32|
            #[trigger] run(rules, order, fires, n).0.contains(c) <==> exists|a: int|
                0 <= a < run(rules, order, fires, n).1.len() && rules[#[trigger] run(
                    rules,
                    order,
                    fires,
                    n,
                ).1[a] as int].exclusive && category_of(rules, run(rules, order, fires, n).1[a]) == c,
    decreases n,
{
    if n > 0 {
        lemma_claimed_exactly(rules, order, fires, n - 1);
        let (claimed, fired) = run(rules, order, fires, n - 1);
        let (claimed2, fired2) = run(rules, order, fires, n);
        let i = order[n - 1];
        assert forall|c: u32| #[trigger] claimed2.contains(c) <==> exists|a: int|
            0 <= a < fired2.len() && rules[#[trigger] fired2[a] as int].exclusive && category_of(rules, fired2[a]) == c by {
            if claimed2.contains(c) {
                if claimed.contains(c) {
                    let a = choose|a: int|
                        0 <= a < fired.len() && rules[#[trigger] fired[a] as int].exclusive && category_of(rules, fired[a]) == c;
                    assert(fired2[a] == fired[a]);
                } else {
                    assert(fired2 == fired.push(i));
                    assert(fired2[fired.len() as int] == i);
                }
            }
            if exists|a: int| 0 <= a < fired2.len() && rules[#[trigger] fired2[a] as int].exclusive && category_of(rules, fired2[a]) == c {
                let a = choose|a: int|
                    0 <= a < fired2.len() && rules[#[trigger] fired2[a] as int].exclusive && category_of(rules, fired2[a]) == c;
                if a < fired.len() {
                    assert(fired2[a] == fired[a]);
                    assert(claimed.contains(c));
                }
            }
        }
    }
}

/// Evaluation, one rule at a time: the next rule in order fires exactly when
/// its requirements hold and no exclusive rule of its category fired before
/// it; an exclusive firing claims its category for every later rule.
pub proof fn a_rule_fires_unless_its_category_is_claimed(
    rules: Seq<IrRule>,
    order: Seq<usize>,
    fires: Seq<bool>,
    n: int,
)
    requires
        pass_ok(rules, order, fires),
        0 < n <= order.len(),
    ensures
        ({
            let prev = run(rules, order, fires, n - 1).1;
            let i = order[n - 1];
            run(rules, order, fires, n).1 == if fires[i as int] && !(exists|a: int|
                0 <= a < prev.len() && rules[#[trigger] prev[a] as int].exclusive && category_of(rules, prev[a])
                    == category_of(rules, i)) {
                prev.push(i)
            } else {
                prev
            }
        }),
{
    lemma_claimed_exactly(rules, order, fires, n - 1);
    let i = order[n - 1];
    let (claimed, prev) = run(rules, order, fires, n - 1);
    assert(claimed.contains(category_of(rules, i)) == (exists|a: int|
        0 <= a < prev.len() && rules[#[trigger] prev[a] as int].exclusive && category_of(rules, prev[a])
            == category_of(rules, i)));
}

/// The whole pass at once: a rule is in the fired list exactly when its
/// requirements hold and no exclusive rule of its category fired before it.
pub proof fn fired_exactly_when_unclaimed(rules: Seq<IrRule>, order: Seq<usize>, fires: Seq<bool>)
    requires
        pass_ok(rules, order, fires),
    ensures
        ({
            let fired = run(rules, order, fires, order.len() as int).1;
            &&& forall|a: int|
                0 <= a < fired.len() ==> fires[#[trigger] fired[a] as int] && !(exists|b: int|
                    0 <= b < a && rules[fired[b] as int].exclusive && category_of(rules, fired[b])
                        == category_of(rules, fired[a]))
            &&& forall|k: int|
                0 <= k < order.len() && fires[order[k] as int] && !(exists|b: int|
                    0 <= b < run(rules, order, fires, k).1.len() && rules[fired[b] as int].exclusive
                        && category_of(rules, fired[b]) == category_of(rules, order[k])) ==> #[trigger] fired.contains(
                    order[k],
                )
        }),
{
    let n = order.len() as int;
    let fired = run(rules, order, fires, n).1;
    lemma_run(rules, order, fires, n);
    assert forall|k: int|
        0 <= k < order.len() && fires[order[k] as int] && !(exists|b: int|
            0 <= b < run(rules, order, fires, k).1.len() && rules[fired[b] as int].exclusive
                && category_of(rules, fired[b]) == category_of(rules, order[k])) implies #[trigger] fired.contains(
        order[k],
    ) by {
        let prev = run(rules, order, fires, k).1;
        a_rule_fires_unless_its_category_is_claimed(rules, order, fires, k + 1);
        lemma_run_grows(rules, order, fires, k, n);
        lemma_run_grows(rules, order, fires, k + 1, n);
        assert forall|b: int| 0 <= b < prev.len() implies #[trigger] prev[b] == fired[b] by {}
        if exists|b: int|
            0 <= b < prev.len() && rules[#[trigger] prev[b] as int].exclusive && category_of(rules, prev[b])
                == category_of(rules, order[k]) {
            let b = choose|b: int|
                0 <= b < prev.len() && rules[#[trigger] prev[b] as int].exclusive && category_of(rules, prev[b])
                    == category_of(rules, order[k]);
            assert(fired[b] == prev[b]);
        }
        let next = run(rules, order, fires, k + 1).1;
        assert(next == prev.push(order[k]));
        assert(fired[prev.len() as int] == next[prev.len() as int]);
    }
}

/// Integers compare as integers. `<` is the order on integers, and every
/// other comparison is read off it: `>` is `<` the other way round, `>=` and
/// `<=` are the negations of `<` and `>`, `==` holds exactly when neither is
/// less, and `!=` is its negation. So `x >= x` always holds and `x > x`
/// never does.
pub proof fn lemma_comparisons_follow_the_integer_order(a: i64, b: i64)
    ensures
        binary_spec(BinOp::Lt, Value::Int(a), Value::Int(b)) == Some(Value::Bool((a as int) < (b as int))),
        binary_spec(BinOp::Gt, Value::Int(a), Value::Int(b)) == binary_spec(BinOp::Lt, Value::Int(b), Value::Int(a)),
        binary_spec(BinOp::GtEq, Value::Int(a), Value::Int(b)) == Some(
            Value::Bool(binary_spec(BinOp::Lt, Value::Int(a), Value::Int(b)) == Some(Value::Bool(false))),
        ),
        binary_spec(BinOp::LtEq, Value::Int(a), Value::Int(b)) == Some(
            Value::Bool(binary_spec(BinOp::Gt, Value::Int(a), Value::Int(b)) == Some(Value::Bool(false))),
        ),
        binary_spec(BinOp::Eq, Value::Int(a), Value::Int(b)) == Some(
            Value::Bool(
                binary_spec(BinOp::Lt, Value::Int(a), Value::Int(b)) == Some(Value::Bool(false))
                    && binary_spec(BinOp::Lt, Value::Int(b), Value::Int(a)) == Some(Value::Bool(false)),
            ),
        ),
        binary_spec(BinOp::NotEq, Value::Int(a), Value::Int(b)) == Some(
            Value::Bool(binary_spec(BinOp::Eq, Value::Int(a), Value::Int(b)) == Some(Value::Bool(false))),
        ),
        binary_spec(BinOp::GtEq, Value::Int(a), Value::Int(a)) == Some(Value::Bool(true)),
        binary_spec(BinOp::LtEq, Value::Int(a), Value::Int(a)) == Some(Value::Bool(true)),
        binary_spec(BinOp::Gt, Value::Int(a), Value::Int(a)) == Some(Value::Bool(false)),
        binary_spec(BinOp::Lt, Value::Int(a), Value::Int(a)) == Some(Value::Bool(false)),
        binary_spec(BinOp::Eq, Value::Int(a), Value::Int(a)) == Some(Value::Bool(true)),
{
}

/// Booleans compare only for (in)equality, as booleans.
pub proof fn lemma_booleans_compare_for_equality(a: bool, b: bool, op: BinOp)
    ensures
        binary_spec(BinOp::Eq, Value::Bool(a), Value::Bool(b)) == Some(Value::Bool(a == b)),
        binary_spec(BinOp::NotEq, Value::Bool(a), Value::Bool(b)) == Some(Value::Bool(a != b)),
        op != BinOp::Eq && op != BinOp::NotEq ==> binary_spec(op, Value::Bool(a), Value::Bool(b)) is None,
{
}

/// Integer arithmetic is exact wherever the exact answer fits an `i64`, and
/// sticks to the nearest end of the range where it does not; `+` and `*`
/// do not care about the order of their operands, and `-` undoes `+`.
pub proof fn lemma_arithmetic_is_exact_or_saturates(a: i64, b: i64)
    ensures
        i64::MIN <= a + b <= i64::MAX ==> binary_spec(BinOp::Add, Value::Int(a), Value::Int(b)) == Some(
            Value::Int((a + b) as i64),
        ),
        a + b > i64::MAX ==> binary_spec(BinOp::Add, Value::Int(a), Value::Int(b)) == Some(Value::Int(i64::MAX)),
        a + b < i64::MIN ==> binary_spec(BinOp::Add, Value::Int(a), Value::Int(b)) == Some(Value::Int(i64::MIN)),
        i64::MIN <= a - b <= i64::MAX ==> binary_spec(BinOp::Sub, Value::Int(a), Value::Int(b)) == Some(
            Value::Int((a - b) as i64),
        ),
        a - b > i64::MAX ==> binary_spec(BinOp::Sub, Value::Int(a), Value::Int(b)) == Some(Value::Int(i64::MAX)),
        a - b < i64::MIN ==> binary_spec(BinOp::Sub, Value::Int(a), Value::Int(b)) == Some(Value::Int(i64::MIN)),
        i64::MIN <= a * b <= i64::MAX ==> binary_spec(BinOp::Mul, Value::Int(a), Value::Int(b)) == Some(
            Value::Int((a * b) as i64),
        ),
        a * b > i64::MAX ==> binary_spec(BinOp::Mul, Value::Int(a), Value::Int(b)) == Some(Value::Int(i64::MAX)),
        a * b < i64::MIN ==> binary_spec(BinOp::Mul, Value::Int(a), Value::Int(b)) == Some(Value::Int(i64::MIN)),
        binary_spec(BinOp::Add, Value::Int(a), Value::Int(b)) == binary_spec(BinOp::Add, Value::Int(b), Value::Int(a)),
        binary_spec(BinOp::Mul, Value::Int(a), Value::Int(b)) == binary_spec(BinOp::Mul, Value::Int(b), Value::Int(a)),
        i64::MIN <= a + b <= i64::MAX ==> binary_spec(
            BinOp::Sub,
            Value::Int((a + b) as i64),
            Value::Int(b),
        ) == Some(Value::Int(a)),
{
    assert(a * b == b * a) by (nonlinear_arith);
}

/// Division rounds toward zero: where the quotient fits, it times the
/// divisor falls short of the dividend by less than the divisor, on the
/// dividend's side of zero. Dividing by zero gives 0.
pub proof fn lemma_division_rounds_toward_zero(a: i64, b: i64)
    ensures
        binary_spec(BinOp::Div, Value::Int(a), Value::Int(0)) == Some(Value::Int(0)),
        b != 0 && !(a == i64::MIN && b == -1) ==> exists|q: i64|
            binary_spec(BinOp::Div, Value::Int(a), Value::Int(b)) == Some(Value::Int(q)) && {
                let rem = a - q * b;
                &&& magnitude(rem) < magnitude(b as int)
                &&& (rem == 0 || ((rem < 0) == (a < 0)))
            },
{
    if b != 0 && !(a == i64::MIN && b == -1) {
        let ma = magnitude(a as int);
        let mb = magnitude(b as int);
        let m = ma / mb;
        assert(0 <= ma % mb < mb && ma == m * mb + ma % mb) by (nonlinear_arith)
            requires
                mb > 0,
                ma >= 0,
                m == ma / mb,
        ;
        assert(0 <= m <= ma) by (nonlinear_arith)
            requires
                mb >= 1,
                ma >= 0,
                m == ma / mb,
        ;
        let qv = quotient(a as int, b as int);
        assert(i64::MIN <= qv <= i64::MAX) by {
            if ma <= i64::MAX {
            } else {
                // a is the smallest integer, so b is neither 0 nor -1.
                assert(a == i64::MIN);
                if mb == 1 {
                    assert(b == 1);
                } else {
                    assert(m <= ma / 2) by (nonlinear_arith)
                        requires
                            mb >= 2,
                            ma >= 0,
                            m == ma / mb,
                    ;
                }
            }
        }
        let q = qv as i64;
        assert(binary_spec(BinOp::Div, Value::Int(a), Value::Int(b)) == Some(Value::Int(q)));
        let rem = a - q * b;
        if (a < 0) == (b < 0) {
            assert(q * b == m * mb || q * b == -(m * mb)) by (nonlinear_arith)
                requires
                    q == m,
                    b == mb || b == -mb,
            ;
            if a >= 0 {
                assert(q * b == m * mb) by (nonlinear_arith)
                    requires q == m, b == mb, mb > 0;
                assert(rem == ma % mb);
            } else {
                assert(q * b == -(m * mb)) by (nonlinear_arith)
                    requires q == m, b == -mb;
                assert(rem == -(ma % mb));
            }
        } else {
            if a >= 0 {
                assert(q * b == m * mb) by (nonlinear_arith)
                    requires q == -m, b == -mb;
                assert(rem == ma % mb);
            } else {
                assert(q * b == -(m * mb)) by (nonlinear_arith)
                    requires q == -m, b == mb;
                assert(rem == -(ma % mb));
            }
        }
    }
}

/// `not` undoes itself, and negation undoes itself everywhere but the
/// smallest integer, which has no opposite and saturates.
pub proof fn lemma_unary_inverts(b: bool, n: i64)
    ensures
        unary_spec(UnOp::Not, Value::Bool(b)) == Some(Value::Bool(!b)),
        n != i64::MIN ==> unary_spec(UnOp::Neg, Value::Int(n)) == Some(Value::Int((-n) as i64)),
        n != i64::MIN ==> binary_spec(BinOp::Add, Value::Int(n), Value::Int((-n) as i64)) == Some(Value::Int(0)),
        unary_spec(UnOp::Neg, Value::Int(i64::MIN)) == Some(Value::Int(i64::MAX)),
        unary_spec(UnOp::Exists, Value::Opt(b)) == Some(Value::Bool(b)),
        unary_spec(UnOp::Not, Value::Int(n)) is None,
        unary_spec(UnOp::Neg, Value::Bool(b)) is None,
{
}

/// Values of different kinds never combine, and `and`/`or` are not value
/// operators: they are decided a conjunct at a time.
pub proof fn lemma_mixed_kinds_are_undefined(op: BinOp, a: i64, b: bool, l: Value, r: Value)
    ensures
        binary_spec(op, Value::Int(a), Value::Bool(b)) is None,
        binary_spec(op, Value::Bool(b), Value::Int(a)) is None,
        l is Opt || r is Opt ==> binary_spec(op, l, r) is None,
        binary_spec(BinOp::And, l, r) is None,
        binary_spec(BinOp::Or, l, r) is None,
{
}

/// A rule fires only if its requirements hold.
pub proof fn only_satisfied_rules_fire(rules: Seq<IrRule>, order: Seq<usize>, fires: Seq<bool>)
    requires
        pass_ok(rules, order, fires),
    ensures
        forall|a: int|
            0 <= a < run(rules, order, fires, order.len() as int).1.len() ==> fires[#[trigger] run(
                rules,
                order,
                fires,
                order.len() as int,
            ).1[a] as int],
{
    lemma_run(rules, order, fires, order.len() as int);
}

/// Once an exclusive rule fires, nothing after it in its category fires.
pub proof fn an_exclusive_rule_blocks_its_category(rules: Seq<IrRule>, order: Seq<usize>, fires: Seq<bool>)
    requires
        pass_ok(rules, order, fires),
    ensures
        ({
            let fired = run(rules, order, fires, order.len() as int).1;
            forall|a: int, b: int|
                0 <= a < b < fired.len() && rules[#[trigger] fired[a] as int].exclusive ==> category_of(
                    rules,
                    #[trigger] fired[b],
                ) != category_of(rules, fired[a])
        }),
{
    lemma_run(rules, order, fires, order.len() as int);
}

/// Rules fire in the order they are considered, so a pass over a firing
/// order fires in priority order.
pub proof fn firings_come_in_priority_order(
    priorities: Seq<i64>,
    rules: Seq<IrRule>,
    order: Seq<usize>,
    fires: Seq<bool>,
)
    requires
        pass_ok(rules, order, fires),
        is_firing_order(priorities, order),
    ensures
        ordered_by(priorities, run(rules, order, fires, order.len() as int).1),
{
    lemma_priority_order(priorities, rules, order, fires, order.len() as int);
}

proof fn lemma_priority_order(
    priorities: Seq<i64>,
    rules: Seq<IrRule>,
    order: Seq<usize>,
    fires: Seq<bool>,
    n: int,
)
    requires
        pass_ok(rules, order, fires),
        is_firing_order(priorities, order),
        0 <= n <= order.len(),
    ensures
        ordered_by(priorities, run(rules, order, fires, n).1),
    decreases n,
{
    if n > 0 {
        lemma_priority_order(priorities, rules, order, fires, n - 1);
        lemma_run(rules, order, fires, n - 1);
        let fired = run(rules, order, fires, n - 1).1;
        let fired2 = run(rules, order, fires, n).1;
        let i = order[n - 1];
        if fired2 != fired {
            assert(fired2 == fired.push(i));
            assert forall|a: int, b: int| 0 <= a < b < fired2.len() implies precedes(
                priorities,
                #[trigger] fired2[a] as int,
                #[trigger] fired2[b] as int,
            ) by {
                assert(fired2[a] == fired[a]);
                if b < fired.len() {
                    assert(fired2[b] == fired[b]);
                } else {
                    assert(order.take(n - 1).contains(fired[a]));
                    let w = choose|w: int| 0 <= w < n - 1 && #[trigger] order.take(n - 1)[w] == fired[a];
                    assert(order[w] == fired[a]);
                    assert(precedes(priorities, order[w] as int, order[n - 1] as int));
                }
            }
        }
    }
}

/// Where no rule of a category is exclusive, every rule of that category
/// whose requirements hold fires.
pub proof fn rules_of_a_category_without_exclusive_rules_all_fire(
    rules: Seq<IrRule>,
    order: Seq<usize>,
    fires: Seq<bool>,
    k: int,
)
    requires
        pass_ok(rules, order, fires),
        0 <= k < order.len(),
        fires[order[k] as int],
        forall|j: int|
            0 <= j < rules.len() && (#[trigger] rules[j]).category.0 == category_of(rules, order[k])
                ==> !rules[j].exclusive,
    ensures
        run(rules, order, fires, order.len() as int).1.contains(order[k]),
{
    let c = category_of(rules, order[k]);
    lemma_run(rules, order, fires, k);
    let (claimed, fired) = run(rules, order, fires, k);
    if claimed.contains(c) {
        let a = choose|a: int|
            0 <= a < fired.len() && rules[#[trigger] fired[a] as int].exclusive && category_of(rules, fired[a])
                == c;
        assert(order.take(k).contains(fired[a]));
        let w = choose|w: int| 0 <= w < k && #[trigger] order.take(k)[w] == fired[a];
        assert(order[w] < rules.len());
        assert(rules[fired[a] as int].category.0 == c);
    }
    let next = run(rules, order, fires, k + 1).1;
    assert(next == fired.push(order[k]));
    assert(next[fired.len() as int] == order[k]);
    lemma_run_grows(rules, order, fires, k + 1, order.len() as int);
    let all = run(rules, order, fires, order.len() as int).1;
    assert(all[fired.len() as int] == next[fired.len() as int]);
}

} // verus!
