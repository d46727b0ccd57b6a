//! The predicate surface and the enum domains: what a condition may name.
//!
//! A deliberate fraction of the engine's rule environment. Every name is the
//! source spelling; the language defines its own vocabulary and a consumer
//! adapts to it.
//!
//! Every table is a pair: a specification function that says what the table
//! holds, and an executable twin that returns the same thing, so a lookup can be
//! proved against the table rather than against itself.
use crate::text::str_eq;
use crate::types::{Domain, ParamSpec, ParamType, Type, param_view, params_view};
use vstd::prelude::*;

verus! {

/// Identifies a predicate without going through its spelling.
#[derive(Debug, Clone, Copy, PartialEq, Eq, Structural)]
pub enum Predicate {
    AircraftCapacity,
    AxisBurned,
    BaseUnderAttack,
    BestAirTarget,
    BestGroundTarget,
    BuildingCount,
    CanBuild,
    CanBuildAnyCombatAircraft,
    CanBuildAnyCombatVehicle,
    CanBuildAnySpecialist,
    CanBuildRole,
    CanBuildTransport,
    CapturableCount,
    Cash,
    CombatAircraftCount,
    CombatVehicleCount,
    CriticalBuildingUnderAttack,
    DamagedBuildings,
    DamagedCombatUnits,
    EnemiesVisible,
    EngineerNearCapturable,
    HarvestersInDanger,
    HasBuilding,
    HasEnemyIntel,
    HasRetreatingUnits,
    HasRole,
    HasScout,
    HasUnit,
    IdleCombatAircraft,
    IdleCombatInfantry,
    IdleCombatLoadedApcs,
    IdleEmptyApcs,
    IdleEngineerLoadedApcs,
    IdleEngineers,
    IdleGroundUnits,
    IdleHarvesters,
    IdleMinelayers,
    IdleNavalUnits,
    IdleScouts,
    IsRushed,
    LostRole,
    MapHasWater,
    NearBaseGroundUnits,
    NearestEnemy,
    OverextendedSquadMembers,
    PowerExcess,
    QueueBusy,
    QueueProducingRole,
    QueueReady,
    ResourcesNearCap,
    RoleCount,
    SpecialistInfantryCount,
    SquadAwayFromBase,
    SquadExists,
    SquadIdleCount,
    SquadNeedsReinforcement,
    SquadReadyRatio,
    SquadThreatRatio,
    SupportPowerReady,
    TransportCount,
    UnassignedIdleAir,
    UnassignedIdleGround,
    UnassignedIdleNaval,
    UnitCount,
}

/// How many predicates there are.
pub open spec fn predicate_count() -> int {
    64
}

/// The predicates in declaration order.
pub open spec fn predicate_at_spec(i: int) -> Predicate {
    if i == 0 {
        Predicate::AircraftCapacity
    } else if i == 1 {
        Predicate::AxisBurned
    } else if i == 2 {
        Predicate::BaseUnderAttack
    } else if i == 3 {
        Predicate::BestAirTarget
    } else if i == 4 {
        Predicate::BestGroundTarget
    } else if i == 5 {
        Predicate::BuildingCount
    } else if i == 6 {
        Predicate::CanBuild
    } else if i == 7 {
        Predicate::CanBuildAnyCombatAircraft
    } else if i == 8 {
        Predicate::CanBuildAnyCombatVehicle
    } else if i == 9 {
        Predicate::CanBuildAnySpecialist
    } else if i == 10 {
        Predicate::CanBuildRole
    } else if i == 11 {
        Predicate::CanBuildTransport
    } else if i == 12 {
        Predicate::CapturableCount
    } else if i == 13 {
        Predicate::Cash
    } else if i == 14 {
        Predicate::CombatAircraftCount
    } else if i == 15 {
        Predicate::CombatVehicleCount
    } else if i == 16 {
        Predicate::CriticalBuildingUnderAttack
    } else if i == 17 {
        Predicate::DamagedBuildings
    } else if i == 18 {
        Predicate::DamagedCombatUnits
    } else if i == 19 {
        Predicate::EnemiesVisible
    } else if i == 20 {
        Predicate::EngineerNearCapturable
    } else if i == 21 {
        Predicate::HarvestersInDanger
    } else if i == 22 {
        Predicate::HasBuilding
    } else if i == 23 {
        Predicate::HasEnemyIntel
    } else if i == 24 {
        Predicate::HasRetreatingUnits
    } else if i == 25 {
        Predicate::HasRole
    } else if i == 26 {
        Predicate::HasScout
    } else if i == 27 {
        Predicate::HasUnit
    } else if i == 28 {
        Predicate::IdleCombatAircraft
    } else if i == 29 {
        Predicate::IdleCombatInfantry
    } else if i == 30 {
        Predicate::IdleCombatLoadedApcs
    } else if i == 31 {
        Predicate::IdleEmptyApcs
    } else if i == 32 {
        Predicate::IdleEngineerLoadedApcs
    } else if i == 33 {
        Predicate::IdleEngineers
    } else if i == 34 {
        Predicate::IdleGroundUnits
    } else if i == 35 {
        Predicate::IdleHarvesters
    } else if i == 36 {
        Predicate::IdleMinelayers
    } else if i == 37 {
        Predicate::IdleNavalUnits
    } else if i == 38 {
        Predicate::IdleScouts
    } else if i == 39 {
        Predicate::IsRushed
    } else if i == 40 {
        Predicate::LostRole
    } else if i == 41 {
        Predicate::MapHasWater
    } else if i == 42 {
        Predicate::NearBaseGroundUnits
    } else if i == 43 {
        Predicate::NearestEnemy
    } else if i == 44 {
        Predicate::OverextendedSquadMembers
    } else if i == 45 {
        Predicate::PowerExcess
    } else if i == 46 {
        Predicate::QueueBusy
    } else if i == 47 {
        Predicate::QueueProducingRole
    } else if i == 48 {
        Predicate::QueueReady
    } else if i == 49 {
        Predicate::ResourcesNearCap
    } else if i == 50 {
        Predicate::RoleCount
    } else if i == 51 {
        Predicate::SpecialistInfantryCount
    } else if i == 52 {
        Predicate::SquadAwayFromBase
    } else if i == 53 {
        Predicate::SquadExists
    } else if i == 54 {
        Predicate::SquadIdleCount
    } else if i == 55 {
        Predicate::SquadNeedsReinforcement
    } else if i == 56 {
        Predicate::SquadReadyRatio
    } else if i == 57 {
        Predicate::SquadThreatRatio
    } else if i == 58 {
        Predicate::SupportPowerReady
    } else if i == 59 {
        Predicate::TransportCount
    } else if i == 60 {
        Predicate::UnassignedIdleAir
    } else if i == 61 {
        Predicate::UnassignedIdleGround
    } else if i == 62 {
        Predicate::UnassignedIdleNaval
    } else {
        Predicate::UnitCount
    }
}

pub open spec fn predicate_index(p: Predicate) -> int {
    match p {
        Predicate::AircraftCapacity => 0,
        Predicate::AxisBurned => 1,
        Predicate::BaseUnderAttack => 2,
        Predicate::BestAirTarget => 3,
        Predicate::BestGroundTarget => 4,
        Predicate::BuildingCount => 5,
        Predicate::CanBuild => 6,
        Predicate::CanBuildAnyCombatAircraft => 7,
        Predicate::CanBuildAnyCombatVehicle => 8,
        Predicate::CanBuildAnySpecialist => 9,
        Predicate::CanBuildRole => 10,
        Predicate::CanBuildTransport => 11,
        Predicate::CapturableCount => 12,
        Predicate::Cash => 13,
        Predicate::CombatAircraftCount => 14,
        Predicate::CombatVehicleCount => 15,
        Predicate::CriticalBuildingUnderAttack => 16,
        Predicate::DamagedBuildings => 17,
        Predicate::DamagedCombatUnits => 18,
        Predicate::EnemiesVisible => 19,
        Predicate::EngineerNearCapturable => 20,
        Predicate::HarvestersInDanger => 21,
        Predicate::HasBuilding => 22,
        Predicate::HasEnemyIntel => 23,
        Predicate::HasRetreatingUnits => 24,
        Predicate::HasRole => 25,
        Predicate::HasScout => 26,
        Predicate::HasUnit => 27,
        Predicate::IdleCombatAircraft => 28,
        Predicate::IdleCombatInfantry => 29,
        Predicate::IdleCombatLoadedApcs => 30,
        Predicate::IdleEmptyApcs => 31,
        Predicate::IdleEngineerLoadedApcs => 32,
        Predicate::IdleEngineers => 33,
        Predicate::IdleGroundUnits => 34,
        Predicate::IdleHarvesters => 35,
        Predicate::IdleMinelayers => 36,
        Predicate::IdleNavalUnits => 37,
        Predicate::IdleScouts => 38,
        Predicate::IsRushed => 39,
        Predicate::LostRole => 40,
        Predicate::MapHasWater => 41,
        Predicate::NearBaseGroundUnits => 42,
        Predicate::NearestEnemy => 43,
        Predicate::OverextendedSquadMembers => 44,
        Predicate::PowerExcess => 45,
        Predicate::QueueBusy => 46,
        Predicate::QueueProducingRole => 47,
        Predicate::QueueReady => 48,
        Predicate::ResourcesNearCap => 49,
        Predicate::RoleCount => 50,
        Predicate::SpecialistInfantryCount => 51,
        Predicate::SquadAwayFromBase => 52,
        Predicate::SquadExists => 53,
        Predicate::SquadIdleCount => 54,
        Predicate::SquadNeedsReinforcement => 55,
        Predicate::SquadReadyRatio => 56,
        Predicate::SquadThreatRatio => 57,
        Predicate::SupportPowerReady => 58,
        Predicate::TransportCount => 59,
        Predicate::UnassignedIdleAir => 60,
        Predicate::UnassignedIdleGround => 61,
        Predicate::UnassignedIdleNaval => 62,
        Predicate::UnitCount => 63,
    }
}

pub open spec fn predicate_name(p: Predicate) -> Seq<char> {
    match p {
        Predicate::AircraftCapacity => "aircraft-capacity"@,
        Predicate::AxisBurned => "axis-burned"@,
        Predicate::BaseUnderAttack => "base-under-attack"@,
        Predicate::BestAirTarget => "best-air-target"@,
        Predicate::BestGroundTarget => "best-ground-target"@,
        Predicate::BuildingCount => "building-count"@,
        Predicate::CanBuild => "can-build"@,
        Predicate::CanBuildAnyCombatAircraft => "can-build-any-combat-aircraft"@,
        Predicate::CanBuildAnyCombatVehicle => "can-build-any-combat-vehicle"@,
        Predicate::CanBuildAnySpecialist => "can-build-any-specialist"@,
        Predicate::CanBuildRole => "can-build-role"@,
        Predicate::CanBuildTransport => "can-build-transport"@,
        Predicate::CapturableCount => "capturable-count"@,
        Predicate::Cash => "cash"@,
        Predicate::CombatAircraftCount => "combat-aircraft-count"@,
        Predicate::CombatVehicleCount => "combat-vehicle-count"@,
        Predicate::CriticalBuildingUnderAttack => "critical-building-under-attack"@,
        Predicate::DamagedBuildings => "damaged-buildings"@,
        Predicate::DamagedCombatUnits => "damaged-combat-units"@,
        Predicate::EnemiesVisible => "enemies-visible"@,
        Predicate::EngineerNearCapturable => "engineer-near-capturable"@,
        Predicate::HarvestersInDanger => "harvesters-in-danger"@,
        Predicate::HasBuilding => "has-building"@,
        Predicate::HasEnemyIntel => "has-enemy-intel"@,
        Predicate::HasRetreatingUnits => "has-retreating-units"@,
        Predicate::HasRole => "has-role"@,
        Predicate::HasScout => "has-scout"@,
        Predicate::HasUnit => "has-unit"@,
        Predicate::IdleCombatAircraft => "idle-combat-aircraft"@,
        Predicate::IdleCombatInfantry => "idle-combat-infantry"@,
        Predicate::IdleCombatLoadedApcs => "idle-combat-loaded-apcs"@,
        Predicate::IdleEmptyApcs => "idle-empty-apcs"@,
        Predicate::IdleEngineerLoadedApcs => "idle-engineer-loaded-apcs"@,
        Predicate::IdleEngineers => "idle-engineers"@,
        Predicate::IdleGroundUnits => "idle-ground-units"@,
        Predicate::IdleHarvesters => "idle-harvesters"@,
        Predicate::IdleMinelayers => "idle-minelayers"@,
        Predicate::IdleNavalUnits => "idle-naval-units"@,
        Predicate::IdleScouts => "idle-scouts"@,
        Predicate::IsRushed => "is-rushed"@,
        Predicate::LostRole => "lost-role"@,
        Predicate::MapHasWater => "map-has-water"@,
        Predicate::NearBaseGroundUnits => "near-base-ground-units"@,
        Predicate::NearestEnemy => "nearest-enemy"@,
        Predicate::OverextendedSquadMembers => "overextended-squad-members"@,
        Predicate::PowerExcess => "power-excess"@,
        Predicate::QueueBusy => "queue-busy"@,
        Predicate::QueueProducingRole => "queue-producing-role"@,
        Predicate::QueueReady => "queue-ready"@,
        Predicate::ResourcesNearCap => "resources-near-cap"@,
        Predicate::RoleCount => "role-count"@,
        Predicate::SpecialistInfantryCount => "specialist-infantry-count"@,
        Predicate::SquadAwayFromBase => "squad-away-from-base"@,
        Predicate::SquadExists => "squad-exists"@,
        Predicate::SquadIdleCount => "squad-idle-count"@,
        Predicate::SquadNeedsReinforcement => "squad-needs-reinforcement"@,
        Predicate::SquadReadyRatio => "squad-ready-ratio"@,
        Predicate::SquadThreatRatio => "squad-threat-ratio"@,
        Predicate::SupportPowerReady => "support-power-ready"@,
        Predicate::TransportCount => "transport-count"@,
        Predicate::UnassignedIdleAir => "unassigned-idle-air"@,
        Predicate::UnassignedIdleGround => "unassigned-idle-ground"@,
        Predicate::UnassignedIdleNaval => "unassigned-idle-naval"@,
        Predicate::UnitCount => "unit-count"@,
    }
}

pub open spec fn predicate_params(p: Predicate) -> Seq<ParamSpec> {
    match p {
        Predicate::AircraftCapacity => seq![],
        Predicate::AxisBurned => seq![ParamSpec::Exact(Type::Enum(Domain::Axis))],
        Predicate::BaseUnderAttack => seq![],
        Predicate::BestAirTarget => seq![],
        Predicate::BestGroundTarget => seq![],
        Predicate::BuildingCount => seq![ParamSpec::Exact(Type::Enum(Domain::BuildingType))],
        Predicate::CanBuild => seq![ParamSpec::Exact(Type::Enum(Domain::Queue)), ParamSpec::AnyOf(seq![Domain::BuildingType, Domain::UnitType])],
        Predicate::CanBuildAnyCombatAircraft => seq![],
        Predicate::CanBuildAnyCombatVehicle => seq![],
        Predicate::CanBuildAnySpecialist => seq![],
        Predicate::CanBuildRole => seq![ParamSpec::Exact(Type::Enum(Domain::Role))],
        Predicate::CanBuildTransport => seq![],
        Predicate::CapturableCount => seq![],
        Predicate::Cash => seq![],
        Predicate::CombatAircraftCount => seq![],
        Predicate::CombatVehicleCount => seq![],
        Predicate::CriticalBuildingUnderAttack => seq![],
        Predicate::DamagedBuildings => seq![],
        Predicate::DamagedCombatUnits => seq![ParamSpec::Exact(Type::Float)],
        Predicate::EnemiesVisible => seq![],
        Predicate::EngineerNearCapturable => seq![],
        Predicate::HarvestersInDanger => seq![ParamSpec::Exact(Type::Float)],
        Predicate::HasBuilding => seq![ParamSpec::Exact(Type::Enum(Domain::BuildingType))],
        Predicate::HasEnemyIntel => seq![],
        Predicate::HasRetreatingUnits => seq![],
        Predicate::HasRole => seq![ParamSpec::Exact(Type::Enum(Domain::Role))],
        Predicate::HasScout => seq![],
        Predicate::HasUnit => seq![ParamSpec::Exact(Type::Enum(Domain::UnitType))],
        Predicate::IdleCombatAircraft => seq![],
        Predicate::IdleCombatInfantry => seq![],
        Predicate::IdleCombatLoadedApcs => seq![],
        Predicate::IdleEmptyApcs => seq![],
        Predicate::IdleEngineerLoadedApcs => seq![],
        Predicate::IdleEngineers => seq![],
        Predicate::IdleGroundUnits => seq![],
        Predicate::IdleHarvesters => seq![],
        Predicate::IdleMinelayers => seq![],
        Predicate::IdleNavalUnits => seq![],
        Predicate::IdleScouts => seq![],
        Predicate::IsRushed => seq![],
        Predicate::LostRole => seq![ParamSpec::Exact(Type::Enum(Domain::Role))],
        Predicate::MapHasWater => seq![],
        Predicate::NearBaseGroundUnits => seq![],
        Predicate::NearestEnemy => seq![],
        Predicate::OverextendedSquadMembers => seq![ParamSpec::Exact(Type::Enum(Domain::SquadName)), ParamSpec::Exact(Type::Float)],
        Predicate::PowerExcess => seq![],
        Predicate::QueueBusy => seq![ParamSpec::Exact(Type::Enum(Domain::Queue))],
        Predicate::QueueProducingRole => seq![ParamSpec::Exact(Type::Enum(Domain::Role))],
        Predicate::QueueReady => seq![ParamSpec::Exact(Type::Enum(Domain::Queue))],
        Predicate::ResourcesNearCap => seq![],
        Predicate::RoleCount => seq![ParamSpec::Exact(Type::Enum(Domain::Role))],
        Predicate::SpecialistInfantryCount => seq![],
        Predicate::SquadAwayFromBase => seq![ParamSpec::Exact(Type::Enum(Domain::SquadName)), ParamSpec::Exact(Type::Float)],
        Predicate::SquadExists => seq![ParamSpec::Exact(Type::Enum(Domain::SquadName))],
        Predicate::SquadIdleCount => seq![ParamSpec::Exact(Type::Enum(Domain::SquadName))],
        Predicate::SquadNeedsReinforcement => seq![ParamSpec::Exact(Type::Enum(Domain::SquadName))],
        Predicate::SquadReadyRatio => seq![ParamSpec::Exact(Type::Enum(Domain::SquadName))],
        Predicate::SquadThreatRatio => seq![ParamSpec::Exact(Type::Enum(Domain::SquadName)), ParamSpec::Exact(Type::Float)],
        Predicate::SupportPowerReady => seq![ParamSpec::Exact(Type::Enum(Domain::SupportPower))],
        Predicate::TransportCount => seq![],
        Predicate::UnassignedIdleAir => seq![],
        Predicate::UnassignedIdleGround => seq![],
        Predicate::UnassignedIdleNaval => seq![],
        Predicate::UnitCount => seq![ParamSpec::Exact(Type::Enum(Domain::UnitType))],
    }
}

pub open spec fn predicate_ret(p: Predicate) -> Type {
    match p {
        Predicate::AircraftCapacity => Type::Int,
        Predicate::AxisBurned => Type::Bool,
        Predicate::BaseUnderAttack => Type::Bool,
        Predicate::BestAirTarget => Type::Option(Box::new(Type::Enemy)),
        Predicate::BestGroundTarget => Type::Option(Box::new(Type::Enemy)),
        Predicate::BuildingCount => Type::Int,
        Predicate::CanBuild => Type::Bool,
        Predicate::CanBuildAnyCombatAircraft => Type::Bool,
        Predicate::CanBuildAnyCombatVehicle => Type::Bool,
        Predicate::CanBuildAnySpecialist => Type::Bool,
        Predicate::CanBuildRole => Type::Bool,
        Predicate::CanBuildTransport => Type::Bool,
        Predicate::CapturableCount => Type::Int,
        Predicate::Cash => Type::Int,
        Predicate::CombatAircraftCount => Type::Int,
        Predicate::CombatVehicleCount => Type::Int,
        Predicate::CriticalBuildingUnderAttack => Type::Bool,
        Predicate::DamagedBuildings => Type::Collection,
        Predicate::DamagedCombatUnits => Type::Collection,
        Predicate::EnemiesVisible => Type::Bool,
        Predicate::EngineerNearCapturable => Type::Bool,
        Predicate::HarvestersInDanger => Type::Collection,
        Predicate::HasBuilding => Type::Bool,
        Predicate::HasEnemyIntel => Type::Bool,
        Predicate::HasRetreatingUnits => Type::Bool,
        Predicate::HasRole => Type::Bool,
        Predicate::HasScout => Type::Bool,
        Predicate::HasUnit => Type::Bool,
        Predicate::IdleCombatAircraft => Type::Collection,
        Predicate::IdleCombatInfantry => Type::Collection,
        Predicate::IdleCombatLoadedApcs => Type::Collection,
        Predicate::IdleEmptyApcs => Type::Collection,
        Predicate::IdleEngineerLoadedApcs => Type::Collection,
        Predicate::IdleEngineers => Type::Collection,
        Predicate::IdleGroundUnits => Type::Collection,
        Predicate::IdleHarvesters => Type::Collection,
        Predicate::IdleMinelayers => Type::Collection,
        Predicate::IdleNavalUnits => Type::Collection,
        Predicate::IdleScouts => Type::Collection,
        Predicate::IsRushed => Type::Bool,
        Predicate::LostRole => Type::Bool,
        Predicate::MapHasWater => Type::Bool,
        Predicate::NearBaseGroundUnits => Type::Collection,
        Predicate::NearestEnemy => Type::Option(Box::new(Type::Enemy)),
        Predicate::OverextendedSquadMembers => Type::Collection,
        Predicate::PowerExcess => Type::Int,
        Predicate::QueueBusy => Type::Bool,
        Predicate::QueueProducingRole => Type::Bool,
        Predicate::QueueReady => Type::Bool,
        Predicate::ResourcesNearCap => Type::Bool,
        Predicate::RoleCount => Type::Int,
        Predicate::SpecialistInfantryCount => Type::Int,
        Predicate::SquadAwayFromBase => Type::Bool,
        Predicate::SquadExists => Type::Bool,
        Predicate::SquadIdleCount => Type::Int,
        Predicate::SquadNeedsReinforcement => Type::Bool,
        Predicate::SquadReadyRatio => Type::Float,
        Predicate::SquadThreatRatio => Type::Float,
        Predicate::SupportPowerReady => Type::Bool,
        Predicate::TransportCount => Type::Int,
        Predicate::UnassignedIdleAir => Type::Collection,
        Predicate::UnassignedIdleGround => Type::Collection,
        Predicate::UnassignedIdleNaval => Type::Collection,
        Predicate::UnitCount => Type::Int,
    }
}

pub proof fn lemma_predicate_index(p: Predicate)
    ensures
        0 <= predicate_index(p) < predicate_count(),
        predicate_at_spec(predicate_index(p)) == p,
{
}

/// Not a signature: `count` is overloaded across three domains and resolved by
/// its argument, so it has no single row.
pub const COUNT: &'static str = "count";

/// One predicate's signature.
pub struct Signature {
    pub id: Predicate,
    pub name: &'static str,
    pub params: Vec<ParamType>,
    pub ret: Type,
}

pub open spec fn signature_matches(s: Signature, p: Predicate) -> bool {
    &&& s.id == p
    &&& s.name@ == predicate_name(p)
    &&& params_view(s.params@) == predicate_params(p)
    &&& s.ret == predicate_ret(p)
}

/// The two domains a production queue can be asked to build from. Disjoint,
/// which is what lets an `AnyOf` parameter resolve from the name alone.
pub fn buildable() -> (ds: Vec<Domain>)
    ensures
        ds@ == seq![Domain::BuildingType, Domain::UnitType],
{
    let mut ds: Vec<Domain> = Vec::new();
    ds.push(Domain::BuildingType);
    ds.push(Domain::UnitType);
    assert(ds@ =~= seq![Domain::BuildingType, Domain::UnitType]);
    ds
}

pub fn predicate_at(i: usize) -> (p: Predicate)
    requires
        i < predicate_count(),
    ensures
        p == predicate_at_spec(i as int),
{
    if i == 0 {
        Predicate::AircraftCapacity
    } else if i == 1 {
        Predicate::AxisBurned
    } else if i == 2 {
        Predicate::BaseUnderAttack
    } else if i == 3 {
        Predicate::BestAirTarget
    } else if i == 4 {
        Predicate::BestGroundTarget
    } else if i == 5 {
        Predicate::BuildingCount
    } else if i == 6 {
        Predicate::CanBuild
    } else if i == 7 {
        Predicate::CanBuildAnyCombatAircraft
    } else if i == 8 {
        Predicate::CanBuildAnyCombatVehicle
    } else if i == 9 {
        Predicate::CanBuildAnySpecialist
    } else if i == 10 {
        Predicate::CanBuildRole
    } else if i == 11 {
        Predicate::CanBuildTransport
    } else if i == 12 {
        Predicate::CapturableCount
    } else if i == 13 {
        Predicate::Cash
    } else if i == 14 {
        Predicate::CombatAircraftCount
    } else if i == 15 {
        Predicate::CombatVehicleCount
    } else if i == 16 {
        Predicate::CriticalBuildingUnderAttack
    } else if i == 17 {
        Predicate::DamagedBuildings
    } else if i == 18 {
        Predicate::DamagedCombatUnits
    } else if i == 19 {
        Predicate::EnemiesVisible
    } else if i == 20 {
        Predicate::EngineerNearCapturable
    } else if i == 21 {
        Predicate::HarvestersInDanger
    } else if i == 22 {
        Predicate::HasBuilding
    } else if i == 23 {
        Predicate::HasEnemyIntel
    } else if i == 24 {
        Predicate::HasRetreatingUnits
    } else if i == 25 {
        Predicate::HasRole
    } else if i == 26 {
        Predicate::HasScout
    } else if i == 27 {
        Predicate::HasUnit
    } else if i == 28 {
        Predicate::IdleCombatAircraft
    } else if i == 29 {
        Predicate::IdleCombatInfantry
    } else if i == 30 {
        Predicate::IdleCombatLoadedApcs
    } else if i == 31 {
        Predicate::IdleEmptyApcs
    } else if i == 32 {
        Predicate::IdleEngineerLoadedApcs
    } else if i == 33 {
        Predicate::IdleEngineers
    } else if i == 34 {
        Predicate::IdleGroundUnits
    } else if i == 35 {
        Predicate::IdleHarvesters
    } else if i == 36 {
        Predicate::IdleMinelayers
    } else if i == 37 {
        Predicate::IdleNavalUnits
    } else if i == 38 {
        Predicate::IdleScouts
    } else if i == 39 {
        Predicate::IsRushed
    } else if i == 40 {
        Predicate::LostRole
    } else if i == 41 {
        Predicate::MapHasWater
    } else if i == 42 {
        Predicate::NearBaseGroundUnits
    } else if i == 43 {
        Predicate::NearestEnemy
    } else if i == 44 {
        Predicate::OverextendedSquadMembers
    } else if i == 45 {
        Predicate::PowerExcess
    } else if i == 46 {
        Predicate::QueueBusy
    } else if i == 47 {
        Predicate::QueueProducingRole
    } else if i == 48 {
        Predicate::QueueReady
    } else if i == 49 {
        Predicate::ResourcesNearCap
    } else if i == 50 {
        Predicate::RoleCount
    } else if i == 51 {
        Predicate::SpecialistInfantryCount
    } else if i == 52 {
        Predicate::SquadAwayFromBase
    } else if i == 53 {
        Predicate::SquadExists
    } else if i == 54 {
        Predicate::SquadIdleCount
    } else if i == 55 {
        Predicate::SquadNeedsReinforcement
    } else if i == 56 {
        Predicate::SquadReadyRatio
    } else if i == 57 {
        Predicate::SquadThreatRatio
    } else if i == 58 {
        Predicate::SupportPowerReady
    } else if i == 59 {
        Predicate::TransportCount
    } else if i == 60 {
        Predicate::UnassignedIdleAir
    } else if i == 61 {
        Predicate::UnassignedIdleGround
    } else if i == 62 {
        Predicate::UnassignedIdleNaval
    } else {
        Predicate::UnitCount
    }
}

impl Predicate {
    pub fn name(self) -> (s: &'static str)
        ensures
            s@ == predicate_name(self),
    {
        match self {
            Predicate::AircraftCapacity => "aircraft-capacity",
            Predicate::AxisBurned => "axis-burned",
            Predicate::BaseUnderAttack => "base-under-attack",
            Predicate::BestAirTarget => "best-air-target",
            Predicate::BestGroundTarget => "best-ground-target",
            Predicate::BuildingCount => "building-count",
            Predicate::CanBuild => "can-build",
            Predicate::CanBuildAnyCombatAircraft => "can-build-any-combat-aircraft",
            Predicate::CanBuildAnyCombatVehicle => "can-build-any-combat-vehicle",
            Predicate::CanBuildAnySpecialist => "can-build-any-specialist",
            Predicate::CanBuildRole => "can-build-role",
            Predicate::CanBuildTransport => "can-build-transport",
            Predicate::CapturableCount => "capturable-count",
            Predicate::Cash => "cash",
            Predicate::CombatAircraftCount => "combat-aircraft-count",
            Predicate::CombatVehicleCount => "combat-vehicle-count",
            Predicate::CriticalBuildingUnderAttack => "critical-building-under-attack",
            Predicate::DamagedBuildings => "damaged-buildings",
            Predicate::DamagedCombatUnits => "damaged-combat-units",
            Predicate::EnemiesVisible => "enemies-visible",
            Predicate::EngineerNearCapturable => "engineer-near-capturable",
            Predicate::HarvestersInDanger => "harvesters-in-danger",
            Predicate::HasBuilding => "has-building",
            Predicate::HasEnemyIntel => "has-enemy-intel",
            Predicate::HasRetreatingUnits => "has-retreating-units",
            Predicate::HasRole => "has-role",
            Predicate::HasScout => "has-scout",
            Predicate::HasUnit => "has-unit",
            Predicate::IdleCombatAircraft => "idle-combat-aircraft",
            Predicate::IdleCombatInfantry => "idle-combat-infantry",
            Predicate::IdleCombatLoadedApcs => "idle-combat-loaded-apcs",
            Predicate::IdleEmptyApcs => "idle-empty-apcs",
            Predicate::IdleEngineerLoadedApcs => "idle-engineer-loaded-apcs",
            Predicate::IdleEngineers => "idle-engineers",
            Predicate::IdleGroundUnits => "idle-ground-units",
            Predicate::IdleHarvesters => "idle-harvesters",
            Predicate::IdleMinelayers => "idle-minelayers",
            Predicate::IdleNavalUnits => "idle-naval-units",
            Predicate::IdleScouts => "idle-scouts",
            Predicate::IsRushed => "is-rushed",
            Predicate::LostRole => "lost-role",
            Predicate::MapHasWater => "map-has-water",
            Predicate::NearBaseGroundUnits => "near-base-ground-units",
            Predicate::NearestEnemy => "nearest-enemy",
            Predicate::OverextendedSquadMembers => "overextended-squad-members",
            Predicate::PowerExcess => "power-excess",
            Predicate::QueueBusy => "queue-busy",
            Predicate::QueueProducingRole => "queue-producing-role",
            Predicate::QueueReady => "queue-ready",
            Predicate::ResourcesNearCap => "resources-near-cap",
            Predicate::RoleCount => "role-count",
            Predicate::SpecialistInfantryCount => "specialist-infantry-count",
            Predicate::SquadAwayFromBase => "squad-away-from-base",
            Predicate::SquadExists => "squad-exists",
            Predicate::SquadIdleCount => "squad-idle-count",
            Predicate::SquadNeedsReinforcement => "squad-needs-reinforcement",
            Predicate::SquadReadyRatio => "squad-ready-ratio",
            Predicate::SquadThreatRatio => "squad-threat-ratio",
            Predicate::SupportPowerReady => "support-power-ready",
            Predicate::TransportCount => "transport-count",
            Predicate::UnassignedIdleAir => "unassigned-idle-air",
            Predicate::UnassignedIdleGround => "unassigned-idle-ground",
            Predicate::UnassignedIdleNaval => "unassigned-idle-naval",
            Predicate::UnitCount => "unit-count",
        }
    }

    /// This predicate's row in the signature table.
    pub fn signature(self) -> (s: Signature)
        ensures
            signature_matches(s, self),
    {
        match self {
            Predicate::AircraftCapacity => {
                let mut v: Vec<ParamType> = Vec::new();
                assert(params_view(v@) =~= predicate_params(Predicate::AircraftCapacity));
                Signature { id: Predicate::AircraftCapacity, name: "aircraft-capacity", params: v, ret: Type::Int }
            },
            Predicate::AxisBurned => {
                let mut v: Vec<ParamType> = Vec::new();
                v.push(ParamType::Exact(Type::Enum(Domain::Axis)));
                assert(params_view(v@) =~= predicate_params(Predicate::AxisBurned));
                Signature { id: Predicate::AxisBurned, name: "axis-burned", params: v, ret: Type::Bool }
            },
            Predicate::BaseUnderAttack => {
                let mut v: Vec<ParamType> = Vec::new();
                assert(params_view(v@) =~= predicate_params(Predicate::BaseUnderAttack));
                Signature { id: Predicate::BaseUnderAttack, name: "base-under-attack", params: v, ret: Type::Bool }
            },
            Predicate::BestAirTarget => {
                let mut v: Vec<ParamType> = Vec::new();
                assert(params_view(v@) =~= predicate_params(Predicate::BestAirTarget));
                Signature { id: Predicate::BestAirTarget, name: "best-air-target", params: v, ret: Type::Option(Box::new(Type::Enemy)) }
            },
            Predicate::BestGroundTarget => {
                let mut v: Vec<ParamType> = Vec::new();
                assert(params_view(v@) =~= predicate_params(Predicate::BestGroundTarget));
                Signature { id: Predicate::BestGroundTarget, name: "best-ground-target", params: v, ret: Type::Option(Box::new(Type::Enemy)) }
            },
            Predicate::BuildingCount => {
                let mut v: Vec<ParamType> = Vec::new();
                v.push(ParamType::Exact(Type::Enum(Domain::BuildingType)));
                assert(params_view(v@) =~= predicate_params(Predicate::BuildingCount));
                Signature { id: Predicate::BuildingCount, name: "building-count", params: v, ret: Type::Int }
            },
            Predicate::CanBuild => {
                let mut v: Vec<ParamType> = Vec::new();
                v.push(ParamType::Exact(Type::Enum(Domain::Queue)));
                v.push(ParamType::AnyOf(buildable()));
                assert(params_view(v@) =~= predicate_params(Predicate::CanBuild));
                Signature { id: Predicate::CanBuild, name: "can-build", params: v, ret: Type::Bool }
            },
            Predicate::CanBuildAnyCombatAircraft => {
                let mut v: Vec<ParamType> = Vec::new();
                assert(params_view(v@) =~= predicate_params(Predicate::CanBuildAnyCombatAircraft));
                Signature { id: Predicate::CanBuildAnyCombatAircraft, name: "can-build-any-combat-aircraft", params: v, ret: Type::Bool }
            },
            Predicate::CanBuildAnyCombatVehicle => {
                let mut v: Vec<ParamType> = Vec::new();
                assert(params_view(v@) =~= predicate_params(Predicate::CanBuildAnyCombatVehicle));
                Signature { id: Predicate::CanBuildAnyCombatVehicle, name: "can-build-any-combat-vehicle", params: v, ret: Type::Bool }
            },
            Predicate::CanBuildAnySpecialist => {
                let mut v: Vec<ParamType> = Vec::new();
                assert(params_view(v@) =~= predicate_params(Predicate::CanBuildAnySpecialist));
                Signature { id: Predicate::CanBuildAnySpecialist, name: "can-build-any-specialist", params: v, ret: Type::Bool }
            },
            Predicate::CanBuildRole => {
                let mut v: Vec<ParamType> = Vec::new();
                v.push(ParamType::Exact(Type::Enum(Domain::Role)));
                assert(params_view(v@) =~= predicate_params(Predicate::CanBuildRole));
                Signature { id: Predicate::CanBuildRole, name: "can-build-role", params: v, ret: Type::Bool }
            },
            Predicate::CanBuildTransport => {
                let mut v: Vec<ParamType> = Vec::new();
                assert(params_view(v@) =~= predicate_params(Predicate::CanBuildTransport));
                Signature { id: Predicate::CanBuildTransport, name: "can-build-transport", params: v, ret: Type::Bool }
            },
            Predicate::CapturableCount => {
                let mut v: Vec<ParamType> = Vec::new();
                assert(params_view(v@) =~= predicate_params(Predicate::CapturableCount));
                Signature { id: Predicate::CapturableCount, name: "capturable-count", params: v, ret: Type::Int }
            },
            Predicate::Cash => {
                let mut v: Vec<ParamType> = Vec::new();
                assert(params_view(v@) =~= predicate_params(Predicate::Cash));
                Signature { id: Predicate::Cash, name: "cash", params: v, ret: Type::Int }
            },
            Predicate::CombatAircraftCount => {
                let mut v: Vec<ParamType> = Vec::new();
                assert(params_view(v@) =~= predicate_params(Predicate::CombatAircraftCount));
                Signature { id: Predicate::CombatAircraftCount, name: "combat-aircraft-count", params: v, ret: Type::Int }
            },
            Predicate::CombatVehicleCount => {
                let mut v: Vec<ParamType> = Vec::new();
                assert(params_view(v@) =~= predicate_params(Predicate::CombatVehicleCount));
                Signature { id: Predicate::CombatVehicleCount, name: "combat-vehicle-count", params: v, ret: Type::Int }
            },
            Predicate::CriticalBuildingUnderAttack => {
                let mut v: Vec<ParamType> = Vec::new();
                assert(params_view(v@) =~= predicate_params(Predicate::CriticalBuildingUnderAttack));
                Signature { id: Predicate::CriticalBuildingUnderAttack, name: "critical-building-under-attack", params: v, ret: Type::Bool }
            },
            Predicate::DamagedBuildings => {
                let mut v: Vec<ParamType> = Vec::new();
                assert(params_view(v@) =~= predicate_params(Predicate::DamagedBuildings));
                Signature { id: Predicate::DamagedBuildings, name: "damaged-buildings", params: v, ret: Type::Collection }
            },
            Predicate::DamagedCombatUnits => {
                let mut v: Vec<ParamType> = Vec::new();
                v.push(ParamType::Exact(Type::Float));
                assert(params_view(v@) =~= predicate_params(Predicate::DamagedCombatUnits));
                Signature { id: Predicate::DamagedCombatUnits, name: "damaged-combat-units", params: v, ret: Type::Collection }
            },
            Predicate::EnemiesVisible => {
                let mut v: Vec<ParamType> = Vec::new();
                assert(params_view(v@) =~= predicate_params(Predicate::EnemiesVisible));
                Signature { id: Predicate::EnemiesVisible, name: "enemies-visible", params: v, ret: Type::Bool }
            },
            Predicate::EngineerNearCapturable => {
                let mut v: Vec<ParamType> = Vec::new();
                assert(params_view(v@) =~= predicate_params(Predicate::EngineerNearCapturable));
                Signature { id: Predicate::EngineerNearCapturable, name: "engineer-near-capturable", params: v, ret: Type::Bool }
            },
            Predicate::HarvestersInDanger => {
                let mut v: Vec<ParamType> = Vec::new();
                v.push(ParamType::Exact(Type::Float));
                assert(params_view(v@) =~= predicate_params(Predicate::HarvestersInDanger));
                Signature { id: Predicate::HarvestersInDanger, name: "harvesters-in-danger", params: v, ret: Type::Collection }
            },
            Predicate::HasBuilding => {
                let mut v: Vec<ParamType> = Vec::new();
                v.push(ParamType::Exact(Type::Enum(Domain::BuildingType)));
                assert(params_view(v@) =~= predicate_params(Predicate::HasBuilding));
                Signature { id: Predicate::HasBuilding, name: "has-building", params: v, ret: Type::Bool }
            },
            Predicate::HasEnemyIntel => {
                let mut v: Vec<ParamType> = Vec::new();
                assert(params_view(v@) =~= predicate_params(Predicate::HasEnemyIntel));
                Signature { id: Predicate::HasEnemyIntel, name: "has-enemy-intel", params: v, ret: Type::Bool }
            },
            Predicate::HasRetreatingUnits => {
                let mut v: Vec<ParamType> = Vec::new();
                assert(params_view(v@) =~= predicate_params(Predicate::HasRetreatingUnits));
                Signature { id: Predicate::HasRetreatingUnits, name: "has-retreating-units", params: v, ret: Type::Bool }
            },
            Predicate::HasRole => {
                let mut v: Vec<ParamType> = Vec::new();
                v.push(ParamType::Exact(Type::Enum(Domain::Role)));
                assert(params_view(v@) =~= predicate_params(Predicate::HasRole));
                Signature { id: Predicate::HasRole, name: "has-role", params: v, ret: Type::Bool }
            },
            Predicate::HasScout => {
                let mut v: Vec<ParamType> = Vec::new();
                assert(params_view(v@) =~= predicate_params(Predicate::HasScout));
                Signature { id: Predicate::HasScout, name: "has-scout", params: v, ret: Type::Bool }
            },
            Predicate::HasUnit => {
                let mut v: Vec<ParamType> = Vec::new();
                v.push(ParamType::Exact(Type::Enum(Domain::UnitType)));
                assert(params_view(v@) =~= predicate_params(Predicate::HasUnit));
                Signature { id: Predicate::HasUnit, name: "has-unit", params: v, ret: Type::Bool }
            },
            Predicate::IdleCombatAircraft => {
                let mut v: Vec<ParamType> = Vec::new();
                assert(params_view(v@) =~= predicate_params(Predicate::IdleCombatAircraft));
                Signature { id: Predicate::IdleCombatAircraft, name: "idle-combat-aircraft", params: v, ret: Type::Collection }
            },
            Predicate::IdleCombatInfantry => {
                let mut v: Vec<ParamType> = Vec::new();
                assert(params_view(v@) =~= predicate_params(Predicate::IdleCombatInfantry));
                Signature { id: Predicate::IdleCombatInfantry, name: "idle-combat-infantry", params: v, ret: Type::Collection }
            },
            Predicate::IdleCombatLoadedApcs => {
                let mut v: Vec<ParamType> = Vec::new();
                assert(params_view(v@) =~= predicate_params(Predicate::IdleCombatLoadedApcs));
                Signature { id: Predicate::IdleCombatLoadedApcs, name: "idle-combat-loaded-apcs", params: v, ret: Type::Collection }
            },
            Predicate::IdleEmptyApcs => {
                let mut v: Vec<ParamType> = Vec::new();
                assert(params_view(v@) =~= predicate_params(Predicate::IdleEmptyApcs));
                Signature { id: Predicate::IdleEmptyApcs, name: "idle-empty-apcs", params: v, ret: Type::Collection }
            },
            Predicate::IdleEngineerLoadedApcs => {
                let mut v: Vec<ParamType> = Vec::new();
                assert(params_view(v@) =~= predicate_params(Predicate::IdleEngineerLoadedApcs));
                Signature { id: Predicate::IdleEngineerLoadedApcs, name: "idle-engineer-loaded-apcs", params: v, ret: Type::Collection }
            },
            Predicate::IdleEngineers => {
                let mut v: Vec<ParamType> = Vec::new();
                assert(params_view(v@) =~= predicate_params(Predicate::IdleEngineers));
                Signature { id: Predicate::IdleEngineers, name: "idle-engineers", params: v, ret: Type::Collection }
            },
            Predicate::IdleGroundUnits => {
                let mut v: Vec<ParamType> = Vec::new();
                assert(params_view(v@) =~= predicate_params(Predicate::IdleGroundUnits));
                Signature { id: Predicate::IdleGroundUnits, name: "idle-ground-units", params: v, ret: Type::Collection }
            },
            Predicate::IdleHarvesters => {
                let mut v: Vec<ParamType> = Vec::new();
                assert(params_view(v@) =~= predicate_params(Predicate::IdleHarvesters));
                Signature { id: Predicate::IdleHarvesters, name: "idle-harvesters", params: v, ret: Type::Collection }
            },
            Predicate::IdleMinelayers => {
                let mut v: Vec<ParamType> = Vec::new();
                assert(params_view(v@) =~= predicate_params(Predicate::IdleMinelayers));
                Signature { id: Predicate::IdleMinelayers, name: "idle-minelayers", params: v, ret: Type::Collection }
            },
            Predicate::IdleNavalUnits => {
                let mut v: Vec<ParamType> = Vec::new();
                assert(params_view(v@) =~= predicate_params(Predicate::IdleNavalUnits));
                Signature { id: Predicate::IdleNavalUnits, name: "idle-naval-units", params: v, ret: Type::Collection }
            },
            Predicate::IdleScouts => {
                let mut v: Vec<ParamType> = Vec::new();
                assert(params_view(v@) =~= predicate_params(Predicate::IdleScouts));
                Signature { id: Predicate::IdleScouts, name: "idle-scouts", params: v, ret: Type::Collection }
            },
            Predicate::IsRushed => {
                let mut v: Vec<ParamType> = Vec::new();
                assert(params_view(v@) =~= predicate_params(Predicate::IsRushed));
                Signature { id: Predicate::IsRushed, name: "is-rushed", params: v, ret: Type::Bool }
            },
            Predicate::LostRole => {
                let mut v: Vec<ParamType> = Vec::new();
                v.push(ParamType::Exact(Type::Enum(Domain::Role)));
                assert(params_view(v@) =~= predicate_params(Predicate::LostRole));
                Signature { id: Predicate::LostRole, name: "lost-role", params: v, ret: Type::Bool }
            },
            Predicate::MapHasWater => {
                let mut v: Vec<ParamType> = Vec::new();
                assert(params_view(v@) =~= predicate_params(Predicate::MapHasWater));
                Signature { id: Predicate::MapHasWater, name: "map-has-water", params: v, ret: Type::Bool }
            },
            Predicate::NearBaseGroundUnits => {
                let mut v: Vec<ParamType> = Vec::new();
                assert(params_view(v@) =~= predicate_params(Predicate::NearBaseGroundUnits));
                Signature { id: Predicate::NearBaseGroundUnits, name: "near-base-ground-units", params: v, ret: Type::Collection }
            },
            Predicate::NearestEnemy => {
                let mut v: Vec<ParamType> = Vec::new();
                assert(params_view(v@) =~= predicate_params(Predicate::NearestEnemy));
                Signature { id: Predicate::NearestEnemy, name: "nearest-enemy", params: v, ret: Type::Option(Box::new(Type::Enemy)) }
            },
            Predicate::OverextendedSquadMembers => {
                let mut v: Vec<ParamType> = Vec::new();
                v.push(ParamType::Exact(Type::Enum(Domain::SquadName)));
                v.push(ParamType::Exact(Type::Float));
                assert(params_view(v@) =~= predicate_params(Predicate::OverextendedSquadMembers));
                Signature { id: Predicate::OverextendedSquadMembers, name: "overextended-squad-members", params: v, ret: Type::Collection }
            },
            Predicate::PowerExcess => {
                let mut v: Vec<ParamType> = Vec::new();
                assert(params_view(v@) =~= predicate_params(Predicate::PowerExcess));
                Signature { id: Predicate::PowerExcess, name: "power-excess", params: v, ret: Type::Int }
            },
            Predicate::QueueBusy => {
                let mut v: Vec<ParamType> = Vec::new();
                v.push(ParamType::Exact(Type::Enum(Domain::Queue)));
                assert(params_view(v@) =~= predicate_params(Predicate::QueueBusy));
                Signature { id: Predicate::QueueBusy, name: "queue-busy", params: v, ret: Type::Bool }
            },
            Predicate::QueueProducingRole => {
                let mut v: Vec<ParamType> = Vec::new();
                v.push(ParamType::Exact(Type::Enum(Domain::Role)));
                assert(params_view(v@) =~= predicate_params(Predicate::QueueProducingRole));
                Signature { id: Predicate::QueueProducingRole, name: "queue-producing-role", params: v, ret: Type::Bool }
            },
            Predicate::QueueReady => {
                let mut v: Vec<ParamType> = Vec::new();
                v.push(ParamType::Exact(Type::Enum(Domain::Queue)));
                assert(params_view(v@) =~= predicate_params(Predicate::QueueReady));
                Signature { id: Predicate::QueueReady, name: "queue-ready", params: v, ret: Type::Bool }
            },
            Predicate::ResourcesNearCap => {
                let mut v: Vec<ParamType> = Vec::new();
                assert(params_view(v@) =~= predicate_params(Predicate::ResourcesNearCap));
                Signature { id: Predicate::ResourcesNearCap, name: "resources-near-cap", params: v, ret: Type::Bool }
            },
            Predicate::RoleCount => {
                let mut v: Vec<ParamType> = Vec::new();
                v.push(ParamType::Exact(Type::Enum(Domain::Role)));
                assert(params_view(v@) =~= predicate_params(Predicate::RoleCount));
                Signature { id: Predicate::RoleCount, name: "role-count", params: v, ret: Type::Int }
            },
            Predicate::SpecialistInfantryCount => {
                let mut v: Vec<ParamType> = Vec::new();
                assert(params_view(v@) =~= predicate_params(Predicate::SpecialistInfantryCount));
                Signature { id: Predicate::SpecialistInfantryCount, name: "specialist-infantry-count", params: v, ret: Type::Int }
            },
            Predicate::SquadAwayFromBase => {
                let mut v: Vec<ParamType> = Vec::new();
                v.push(ParamType::Exact(Type::Enum(Domain::SquadName)));
                v.push(ParamType::Exact(Type::Float));
                assert(params_view(v@) =~= predicate_params(Predicate::SquadAwayFromBase));
                Signature { id: Predicate::SquadAwayFromBase, name: "squad-away-from-base", params: v, ret: Type::Bool }
            },
            Predicate::SquadExists => {
                let mut v: Vec<ParamType> = Vec::new();
                v.push(ParamType::Exact(Type::Enum(Domain::SquadName)));
                assert(params_view(v@) =~= predicate_params(Predicate::SquadExists));
                Signature { id: Predicate::SquadExists, name: "squad-exists", params: v, ret: Type::Bool }
            },
            Predicate::SquadIdleCount => {
                let mut v: Vec<ParamType> = Vec::new();
                v.push(ParamType::Exact(Type::Enum(Domain::SquadName)));
                assert(params_view(v@) =~= predicate_params(Predicate::SquadIdleCount));
                Signature { id: Predicate::SquadIdleCount, name: "squad-idle-count", params: v, ret: Type::Int }
            },
            Predicate::SquadNeedsReinforcement => {
                let mut v: Vec<ParamType> = Vec::new();
                v.push(ParamType::Exact(Type::Enum(Domain::SquadName)));
                assert(params_view(v@) =~= predicate_params(Predicate::SquadNeedsReinforcement));
                Signature { id: Predicate::SquadNeedsReinforcement, name: "squad-needs-reinforcement", params: v, ret: Type::Bool }
            },
            Predicate::SquadReadyRatio => {
                let mut v: Vec<ParamType> = Vec::new();
                v.push(ParamType::Exact(Type::Enum(Domain::SquadName)));
                assert(params_view(v@) =~= predicate_params(Predicate::SquadReadyRatio));
                Signature { id: Predicate::SquadReadyRatio, name: "squad-ready-ratio", params: v, ret: Type::Float }
            },
            Predicate::SquadThreatRatio => {
                let mut v: Vec<ParamType> = Vec::new();
                v.push(ParamType::Exact(Type::Enum(Domain::SquadName)));
                v.push(ParamType::Exact(Type::Float));
                assert(params_view(v@) =~= predicate_params(Predicate::SquadThreatRatio));
                Signature { id: Predicate::SquadThreatRatio, name: "squad-threat-ratio", params: v, ret: Type::Float }
            },
            Predicate::SupportPowerReady => {
                let mut v: Vec<ParamType> = Vec::new();
                v.push(ParamType::Exact(Type::Enum(Domain::SupportPower)));
                assert(params_view(v@) =~= predicate_params(Predicate::SupportPowerReady));
                Signature { id: Predicate::SupportPowerReady, name: "support-power-ready", params: v, ret: Type::Bool }
            },
            Predicate::TransportCount => {
                let mut v: Vec<ParamType> = Vec::new();
                assert(params_view(v@) =~= predicate_params(Predicate::TransportCount));
                Signature { id: Predicate::TransportCount, name: "transport-count", params: v, ret: Type::Int }
            },
            Predicate::UnassignedIdleAir => {
                let mut v: Vec<ParamType> = Vec::new();
                assert(params_view(v@) =~= predicate_params(Predicate::UnassignedIdleAir));
                Signature { id: Predicate::UnassignedIdleAir, name: "unassigned-idle-air", params: v, ret: Type::Collection }
            },
            Predicate::UnassignedIdleGround => {
                let mut v: Vec<ParamType> = Vec::new();
                assert(params_view(v@) =~= predicate_params(Predicate::UnassignedIdleGround));
                Signature { id: Predicate::UnassignedIdleGround, name: "unassigned-idle-ground", params: v, ret: Type::Collection }
            },
            Predicate::UnassignedIdleNaval => {
                let mut v: Vec<ParamType> = Vec::new();
                assert(params_view(v@) =~= predicate_params(Predicate::UnassignedIdleNaval));
                Signature { id: Predicate::UnassignedIdleNaval, name: "unassigned-idle-naval", params: v, ret: Type::Collection }
            },
            Predicate::UnitCount => {
                let mut v: Vec<ParamType> = Vec::new();
                v.push(ParamType::Exact(Type::Enum(Domain::UnitType)));
                assert(params_view(v@) =~= predicate_params(Predicate::UnitCount));
                Signature { id: Predicate::UnitCount, name: "unit-count", params: v, ret: Type::Int }
            },
        }
    }
}

/// The signature of the predicate spelled `name`, if any.
pub fn predicate(name: &str) -> (r: Option<Signature>)
    ensures
        match r {
            Some(s) => signature_matches(s, s.id) && predicate_name(s.id) == name@ && predicate_named(name@)
                == Some(s.id),
            None => forall|p: Predicate| predicate_name(p) != name@,
        },
        r is None <==> predicate_named(name@) is None,
{
    let mut i: usize = 0;
    while i < 64
        invariant
            i <= predicate_count(),
            forall|j: int| 0 <= j < i ==> predicate_name(#[trigger] predicate_at_spec(j)) != name@,
            predicate_named(name@) == first_predicate(name@, i as int),
        decreases 64 - i,
    {
        let p = predicate_at(i);
        if str_eq(p.name(), name) {
            return Some(p.signature());
        }
        i += 1;
    }
    assert forall|p: Predicate| predicate_name(p) != name@ by {
        lemma_predicate_index(p);
    }
    None
}

/// The first predicate, in table order from `i`, spelled `n`.
pub open spec fn first_predicate(n: Seq<char>, i: int) -> Option<Predicate>
    decreases predicate_count() - i,
{
    if i < 0 || i >= predicate_count() {
        None
    } else if predicate_name(predicate_at_spec(i)) == n {
        Some(predicate_at_spec(i))
    } else {
        first_predicate(n, i + 1)
    }
}

/// The predicate spelled `n`.
pub open spec fn predicate_named(n: Seq<char>) -> Option<Predicate> {
    first_predicate(n, 0)
}

// ---- builtins ----

/// A pure function: reads no state, which is exactly what lets one appear in a
/// `priority`.
#[derive(Debug, Clone, Copy, PartialEq, Eq, Structural)]
pub enum Builtin {
    Lerp,
    Lerpf,
    Max,
    Min,
    Trunc,
    Select,
}

pub open spec fn builtin_at_spec(i: int) -> Builtin {
    if i == 0 {
        Builtin::Lerp
    } else if i == 1 {
        Builtin::Lerpf
    } else if i == 2 {
        Builtin::Max
    } else if i == 3 {
        Builtin::Min
    } else if i == 4 {
        Builtin::Trunc
    } else {
        Builtin::Select
    }
}

pub open spec fn builtin_index(b: Builtin) -> int {
    match b {
        Builtin::Lerp => 0,
        Builtin::Lerpf => 1,
        Builtin::Max => 2,
        Builtin::Min => 3,
        Builtin::Trunc => 4,
        Builtin::Select => 5,
    }
}

pub open spec fn builtin_name(b: Builtin) -> Seq<char> {
    match b {
        Builtin::Lerp => "lerp"@,
        Builtin::Lerpf => "lerpf"@,
        Builtin::Max => "max"@,
        Builtin::Min => "min"@,
        Builtin::Trunc => "trunc"@,
        Builtin::Select => "select"@,
    }
}

pub open spec fn builtin_params(b: Builtin) -> Seq<ParamSpec> {
    match b {
        Builtin::Lerp => seq![ParamSpec::Exact(Type::Int), ParamSpec::Exact(Type::Int), ParamSpec::Exact(Type::Float)],
        Builtin::Lerpf => seq![ParamSpec::Exact(Type::Float), ParamSpec::Exact(Type::Float), ParamSpec::Exact(Type::Float)],
        Builtin::Max => seq![ParamSpec::Exact(Type::Float), ParamSpec::Exact(Type::Float)],
        Builtin::Min => seq![ParamSpec::Exact(Type::Float), ParamSpec::Exact(Type::Float)],
        Builtin::Trunc => seq![ParamSpec::Exact(Type::Float)],
        Builtin::Select => seq![ParamSpec::Exact(Type::Bool), ParamSpec::Exact(Type::Float), ParamSpec::Exact(Type::Float)],
    }
}

pub open spec fn builtin_ret(b: Builtin) -> Type {
    match b {
        Builtin::Lerp => Type::Int,
        Builtin::Lerpf => Type::Float,
        Builtin::Max => Type::Float,
        Builtin::Min => Type::Float,
        Builtin::Trunc => Type::Int,
        Builtin::Select => Type::Float,
    }
}

pub struct BuiltinSignature {
    pub id: Builtin,
    pub name: &'static str,
    pub params: Vec<ParamType>,
    pub ret: Type,
}

pub open spec fn builtin_matches(s: BuiltinSignature, b: Builtin) -> bool {
    &&& s.id == b
    &&& s.name@ == builtin_name(b)
    &&& params_view(s.params@) == builtin_params(b)
    &&& s.ret == builtin_ret(b)
}

fn builtin_at(i: usize) -> (b: Builtin)
    requires
        i < 6,
    ensures
        b == builtin_at_spec(i as int),
{
    if i == 0 {
        Builtin::Lerp
    } else if i == 1 {
        Builtin::Lerpf
    } else if i == 2 {
        Builtin::Max
    } else if i == 3 {
        Builtin::Min
    } else if i == 4 {
        Builtin::Trunc
    } else {
        Builtin::Select
    }
}

impl Builtin {
    pub fn name(self) -> (s: &'static str)
        ensures
            s@ == builtin_name(self),
    {
        match self {
            Builtin::Lerp => "lerp",
            Builtin::Lerpf => "lerpf",
            Builtin::Max => "max",
            Builtin::Min => "min",
            Builtin::Trunc => "trunc",
            Builtin::Select => "select",
        }
    }

    pub fn signature(self) -> (s: BuiltinSignature)
        ensures
            builtin_matches(s, self),
    {
        match self {
            Builtin::Lerp => {
                let mut v: Vec<ParamType> = Vec::new();
                v.push(ParamType::Exact(Type::Int));
                v.push(ParamType::Exact(Type::Int));
                v.push(ParamType::Exact(Type::Float));
                assert(params_view(v@) =~= builtin_params(Builtin::Lerp));
                BuiltinSignature { id: Builtin::Lerp, name: "lerp", params: v, ret: Type::Int }
            },
            Builtin::Lerpf => {
                let mut v: Vec<ParamType> = Vec::new();
                v.push(ParamType::Exact(Type::Float));
                v.push(ParamType::Exact(Type::Float));
                v.push(ParamType::Exact(Type::Float));
                assert(params_view(v@) =~= builtin_params(Builtin::Lerpf));
                BuiltinSignature { id: Builtin::Lerpf, name: "lerpf", params: v, ret: Type::Float }
            },
            Builtin::Max => {
                let mut v: Vec<ParamType> = Vec::new();
                v.push(ParamType::Exact(Type::Float));
                v.push(ParamType::Exact(Type::Float));
                assert(params_view(v@) =~= builtin_params(Builtin::Max));
                BuiltinSignature { id: Builtin::Max, name: "max", params: v, ret: Type::Float }
            },
            Builtin::Min => {
                let mut v: Vec<ParamType> = Vec::new();
                v.push(ParamType::Exact(Type::Float));
                v.push(ParamType::Exact(Type::Float));
                assert(params_view(v@) =~= builtin_params(Builtin::Min));
                BuiltinSignature { id: Builtin::Min, name: "min", params: v, ret: Type::Float }
            },
            Builtin::Trunc => {
                let mut v: Vec<ParamType> = Vec::new();
                v.push(ParamType::Exact(Type::Float));
                assert(params_view(v@) =~= builtin_params(Builtin::Trunc));
                BuiltinSignature { id: Builtin::Trunc, name: "trunc", params: v, ret: Type::Int }
            },
            Builtin::Select => {
                let mut v: Vec<ParamType> = Vec::new();
                v.push(ParamType::Exact(Type::Bool));
                v.push(ParamType::Exact(Type::Float));
                v.push(ParamType::Exact(Type::Float));
                assert(params_view(v@) =~= builtin_params(Builtin::Select));
                BuiltinSignature { id: Builtin::Select, name: "select", params: v, ret: Type::Float }
            },
        }
    }
}

/// The builtin spelled `name`, if any.
pub fn builtin(name: &str) -> (r: Option<BuiltinSignature>)
    ensures
        match r {
            Some(s) => builtin_matches(s, s.id) && builtin_name(s.id) == name@ && builtin_named(name@) == Some(
                s.id,
            ),
            None => forall|b: Builtin| builtin_name(b) != name@,
        },
        r is None <==> builtin_named(name@) is None,
{
    let mut i: usize = 0;
    while i < 6
        invariant
            i <= 6,
            forall|j: int| 0 <= j < i ==> builtin_name(#[trigger] builtin_at_spec(j)) != name@,
            builtin_named(name@) == first_builtin(name@, i as int),
        decreases 6 - i,
    {
        let b = builtin_at(i);
        if str_eq(b.name(), name) {
            return Some(b.signature());
        }
        i += 1;
    }
    assert forall|b: Builtin| builtin_name(b) != name@ by {
        assert(builtin_at_spec(builtin_index(b)) == b);
    }
    None
}

/// The first builtin, in table order from `i`, spelled `n`.
pub open spec fn first_builtin(n: Seq<char>, i: int) -> Option<Builtin>
    decreases 6 - i,
{
    if i < 0 || i >= 6 {
        None
    } else if builtin_name(builtin_at_spec(i)) == n {
        Some(builtin_at_spec(i))
    } else {
        first_builtin(n, i + 1)
    }
}

/// The builtin spelled `n`.
pub open spec fn builtin_named(n: Seq<char>) -> Option<Builtin> {
    first_builtin(n, 0)
}

// ---- enum domains ----

/// How many members a domain has.
pub open spec fn member_count(d: Domain) -> int {
    match d {
        Domain::Queue => 6,
        Domain::Role => 53,
        Domain::BuildingType => 4,
        Domain::UnitType => 2,
        Domain::SquadName => 4,
        Domain::Axis => 4,
        Domain::SupportPower => 5,
        Domain::SquadDomain => 3,
        Domain::SquadRole => 2,
    }
}

/// The `i`th member of a domain, in table order.
pub open spec fn member_spec(d: Domain, i: int) -> Seq<char> {
    match d {
        Domain::Queue => {
            if i == 0 {
                "Building"@
            } else if i == 1 {
                "Defense"@
            } else if i == 2 {
                "Vehicle"@
            } else if i == 3 {
                "Infantry"@
            } else if i == 4 {
                "Ship"@
            } else {
                "Aircraft"@
            }
        },
        Domain::Role => {
            if i == 0 {
                "aa-defense"@
            } else if i == 1 {
                "advanced-aircraft"@
            } else if i == 2 {
                "advanced-power"@
            } else if i == 3 {
                "airfield"@
            } else if i == 4 {
                "apc"@
            } else if i == 5 {
                "artillery"@
            } else if i == 6 {
                "attack-dog"@
            } else if i == 7 {
                "badr"@
            } else if i == 8 {
                "barracks"@
            } else if i == 9 {
                "basic-aircraft"@
            } else if i == 10 {
                "camo-pillbox"@
            } else if i == 11 {
                "construction-yard"@
            } else if i == 12 {
                "cruiser"@
            } else if i == 13 {
                "demo-truck"@
            } else if i == 14 {
                "destroyer"@
            } else if i == 15 {
                "engineer"@
            } else if i == 16 {
                "flak-truck"@
            } else if i == 17 {
                "flame-tower"@
            } else if i == 18 {
                "flamethrower"@
            } else if i == 19 {
                "gap-generator"@
            } else if i == 20 {
                "grenadier"@
            } else if i == 21 {
                "gunboat"@
            } else if i == 22 {
                "harvester"@
            } else if i == 23 {
                "heavy-tank"@
            } else if i == 24 {
                "iron-curtain"@
            } else if i == 25 {
                "kennel"@
            } else if i == 26 {
                "light-tank"@
            } else if i == 27 {
                "mad-tank"@
            } else if i == 28 {
                "medic"@
            } else if i == 29 {
                "medium-tank"@
            } else if i == 30 {
                "minelayer"@
            } else if i == 31 {
                "missile-silo"@
            } else if i == 32 {
                "missile-sub"@
            } else if i == 33 {
                "naval-yard"@
            } else if i == 34 {
                "ore-silo"@
            } else if i == 35 {
                "pillbox"@
            } else if i == 36 {
                "power-plant"@
            } else if i == 37 {
                "radar"@
            } else if i == 38 {
                "ranger"@
            } else if i == 39 {
                "refinery"@
            } else if i == 40 {
                "rocket-soldier"@
            } else if i == 41 {
                "service-depot"@
            } else if i == 42 {
                "shock-trooper"@
            } else if i == 43 {
                "spy"@
            } else if i == 44 {
                "submarine"@
            } else if i == 45 {
                "tanya"@
            } else if i == 46 {
                "tech-center"@
            } else if i == 47 {
                "tesla-coil"@
            } else if i == 48 {
                "tesla-tank"@
            } else if i == 49 {
                "tran"@
            } else if i == 50 {
                "turret"@
            } else if i == 51 {
                "v2-launcher"@
            } else {
                "war-factory"@
            }
        },
        Domain::BuildingType => {
            if i == 0 {
                "fact"@
            } else if i == 1 {
                "powr"@
            } else if i == 2 {
                "proc"@
            } else {
                "weap"@
            }
        },
        Domain::UnitType => {
            if i == 0 {
                "e1"@
            } else {
                "mcv"@
            }
        },
        Domain::SquadName => {
            if i == 0 {
                "ground-attack"@
            } else if i == 1 {
                "ground-defense"@
            } else if i == 2 {
                "air-attack"@
            } else {
                "naval-attack"@
            }
        },
        Domain::Axis => {
            if i == 0 {
                "air"@
            } else if i == 1 {
                "infantry"@
            } else if i == 2 {
                "naval"@
            } else {
                "vehicle"@
            }
        },
        Domain::SupportPower => {
            if i == 0 {
                "GrantExternalConditionPowerInfoOrder"@
            } else if i == 1 {
                "NukePowerInfoOrder"@
            } else if i == 2 {
                "SovietParatroopers"@
            } else if i == 3 {
                "SovietSpyPlane"@
            } else {
                "UkraineParabombs"@
            }
        },
        Domain::SquadDomain => {
            if i == 0 {
                "Ground"@
            } else if i == 1 {
                "Air"@
            } else {
                "Naval"@
            }
        },
        Domain::SquadRole => {
            if i == 0 {
                "Attack"@
            } else {
                "Defend"@
            }
        },
    }
}

/// Whether `n` names a member of `d`.
pub open spec fn is_member(d: Domain, n: Seq<char>) -> bool {
    exists|i: int| 0 <= i < member_count(d) && member_spec(d, i) == n
}

/// A member of an enum domain.
#[derive(Debug, Clone, Copy, PartialEq, Eq)]
pub struct Member {
    pub name: &'static str,
}

fn member_at(d: Domain, i: usize) -> (s: &'static str)
    requires
        i < member_count(d),
    ensures
        s@ == member_spec(d, i as int),
{
    match d {
        Domain::Queue => {
            if i == 0 {
                "Building"
            } else if i == 1 {
                "Defense"
            } else if i == 2 {
                "Vehicle"
            } else if i == 3 {
                "Infantry"
            } else if i == 4 {
                "Ship"
            } else {
                "Aircraft"
            }
        },
        Domain::Role => {
            if i == 0 {
                "aa-defense"
            } else if i == 1 {
                "advanced-aircraft"
            } else if i == 2 {
                "advanced-power"
            } else if i == 3 {
                "airfield"
            } else if i == 4 {
                "apc"
            } else if i == 5 {
                "artillery"
            } else if i == 6 {
                "attack-dog"
            } else if i == 7 {
                "badr"
            } else if i == 8 {
                "barracks"
            } else if i == 9 {
                "basic-aircraft"
            } else if i == 10 {
                "camo-pillbox"
            } else if i == 11 {
                "construction-yard"
            } else if i == 12 {
                "cruiser"
            } else if i == 13 {
                "demo-truck"
            } else if i == 14 {
                "destroyer"
            } else if i == 15 {
                "engineer"
            } else if i == 16 {
                "flak-truck"
            } else if i == 17 {
                "flame-tower"
            } else if i == 18 {
                "flamethrower"
            } else if i == 19 {
                "gap-generator"
            } else if i == 20 {
                "grenadier"
            } else if i == 21 {
                "gunboat"
            } else if i == 22 {
                "harvester"
            } else if i == 23 {
                "heavy-tank"
            } else if i == 24 {
                "iron-curtain"
            } else if i == 25 {
                "kennel"
            } else if i == 26 {
                "light-tank"
            } else if i == 27 {
                "mad-tank"
            } else if i == 28 {
                "medic"
            } else if i == 29 {
                "medium-tank"
            } else if i == 30 {
                "minelayer"
            } else if i == 31 {
                "missile-silo"
            } else if i == 32 {
                "missile-sub"
            } else if i == 33 {
                "naval-yard"
            } else if i == 34 {
                "ore-silo"
            } else if i == 35 {
                "pillbox"
            } else if i == 36 {
                "power-plant"
            } else if i == 37 {
                "radar"
            } else if i == 38 {
                "ranger"
            } else if i == 39 {
                "refinery"
            } else if i == 40 {
                "rocket-soldier"
            } else if i == 41 {
                "service-depot"
            } else if i == 42 {
                "shock-trooper"
            } else if i == 43 {
                "spy"
            } else if i == 44 {
                "submarine"
            } else if i == 45 {
                "tanya"
            } else if i == 46 {
                "tech-center"
            } else if i == 47 {
                "tesla-coil"
            } else if i == 48 {
                "tesla-tank"
            } else if i == 49 {
                "tran"
            } else if i == 50 {
                "turret"
            } else if i == 51 {
                "v2-launcher"
            } else {
                "war-factory"
            }
        },
        Domain::BuildingType => {
            if i == 0 {
                "fact"
            } else if i == 1 {
                "powr"
            } else if i == 2 {
                "proc"
            } else {
                "weap"
            }
        },
        Domain::UnitType => {
            if i == 0 {
                "e1"
            } else {
                "mcv"
            }
        },
        Domain::SquadName => {
            if i == 0 {
                "ground-attack"
            } else if i == 1 {
                "ground-defense"
            } else if i == 2 {
                "air-attack"
            } else {
                "naval-attack"
            }
        },
        Domain::Axis => {
            if i == 0 {
                "air"
            } else if i == 1 {
                "infantry"
            } else if i == 2 {
                "naval"
            } else {
                "vehicle"
            }
        },
        Domain::SupportPower => {
            if i == 0 {
                "GrantExternalConditionPowerInfoOrder"
            } else if i == 1 {
                "NukePowerInfoOrder"
            } else if i == 2 {
                "SovietParatroopers"
            } else if i == 3 {
                "SovietSpyPlane"
            } else {
                "UkraineParabombs"
            }
        },
        Domain::SquadDomain => {
            if i == 0 {
                "Ground"
            } else if i == 1 {
                "Air"
            } else {
                "Naval"
            }
        },
        Domain::SquadRole => {
            if i == 0 {
                "Attack"
            } else {
                "Defend"
            }
        },
    }
}

fn member_count_of(d: Domain) -> (n: usize)
    ensures
        n == member_count(d),
{
    match d {
        Domain::Queue => 6,
        Domain::Role => 53,
        Domain::BuildingType => 4,
        Domain::UnitType => 2,
        Domain::SquadName => 4,
        Domain::Axis => 4,
        Domain::SupportPower => 5,
        Domain::SquadDomain => 3,
        Domain::SquadRole => 2,
    }
}

/// Every member of a domain, in table order.
pub fn members(domain: Domain) -> (ms: Vec<Member>)
    ensures
        ms@.len() == member_count(domain),
        forall|i: int| 0 <= i < ms@.len() ==> (#[trigger] ms@[i]).name@ == member_spec(domain, i),
{
    let n = member_count_of(domain);
    let mut ms: Vec<Member> = Vec::new();
    let mut i: usize = 0;
    while i < n
        invariant
            n == member_count(domain),
            i <= n,
            ms@.len() == i,
            forall|j: int| 0 <= j < i ==> (#[trigger] ms@[j]).name@ == member_spec(domain, j),
        decreases n - i,
    {
        ms.push(Member { name: member_at(domain, i) });
        i += 1;
    }
    ms
}

/// A member's index within its domain: the first entry spelled `name`.
pub fn member_index(domain: Domain, name: &str) -> (r: Option<u32>)
    ensures
        match r {
            Some(i) => {
                &&& i < member_count(domain)
                &&& member_spec(domain, i as int) == name@
                &&& forall|j: int| 0 <= j < i ==> member_spec(domain, j) != name@
            },
            None => !is_member(domain, name@),
        },
{
    let n = member_count_of(domain);
    let mut i: usize = 0;
    while i < n
        invariant
            n == member_count(domain),
            i <= n,
            forall|j: int| 0 <= j < i ==> member_spec(domain, j) != name@,
        decreases n - i,
    {
        if str_eq(member_at(domain, i), name) {
            return Some(i as u32);
        }
        i += 1;
    }
    None
}

/// The member of `domain` spelled `name`, if any.
pub fn member(domain: Domain, name: &str) -> (r: Option<Member>)
    ensures
        match r {
            Some(m) => m.name@ == name@ && is_member(domain, name@),
            None => !is_member(domain, name@),
        },
{
    match member_index(domain, name) {
        Some(i) => Some(Member { name: member_at(domain, i as usize) }),
        None => None,
    }
}

/// A member's name, by index.
pub fn member_name(domain: Domain, index: u32) -> (s: &'static str)
    requires
        index < member_count(domain),
    ensures
        s@ == member_spec(domain, index as int),
{
    member_at(domain, index as usize)
}

/// Every domain, in the order a search goes through them.
pub open spec fn all_domains() -> Seq<Domain> {
    seq![Domain::Queue, Domain::Role, Domain::BuildingType, Domain::UnitType, Domain::SquadName, Domain::Axis, Domain::SupportPower, Domain::SquadDomain, Domain::SquadRole]
}

/// The domains among `ds` that have a member spelled `n`, in order.
pub open spec fn domains_matching(ds: Seq<Domain>, n: Seq<char>) -> Seq<Domain>
    decreases ds.len(),
{
    if ds.len() == 0 {
        Seq::empty()
    } else if is_member(ds.last(), n) {
        domains_matching(ds.drop_last(), n).push(ds.last())
    } else {
        domains_matching(ds.drop_last(), n)
    }
}

fn domain_at(i: usize) -> (d: Domain)
    requires
        i < 9,
    ensures
        d == all_domains()[i as int],
{

    if i == 0 {
        Domain::Queue
    } else if i == 1 {
        Domain::Role
    } else if i == 2 {
        Domain::BuildingType
    } else if i == 3 {
        Domain::UnitType
    } else if i == 4 {
        Domain::SquadName
    } else if i == 5 {
        Domain::Axis
    } else if i == 6 {
        Domain::SupportPower
    } else if i == 7 {
        Domain::SquadDomain
    } else {
        Domain::SquadRole
    }
}

/// Every domain `name` belongs to. More than one is an ambiguity for the
/// caller to report rather than silently resolve.
pub fn domains_containing(name: &str) -> (ds: Vec<Domain>)
    ensures
        ds@ == domains_matching(all_domains(), name@),
{
    let mut ds: Vec<Domain> = Vec::new();
    let mut i: usize = 0;
    while i < 9
        invariant
            i <= 9,
            ds@ == domains_matching(all_domains().take(i as int), name@),
        decreases 9 - i,
    {
        let d = domain_at(i);
        assert(all_domains().take(i + 1).drop_last() =~= all_domains().take(i as int));
        if member_index(d, name).is_some() {
            ds.push(d);
        }
        i += 1;
    }
    assert(all_domains().take(9) =~= all_domains());
    ds
}

/// Resolves an identifier against what a parameter accepts.
///
/// `Ok(None)` means the parameter is not an enum position, so the argument is
/// an ordinary expression. `Err` carries the domains searched, for the
/// diagnostic.
pub fn resolve_param_member(param: &ParamType, name: &str) -> (r: Result<
    Option<(Domain, Member)>,
    Vec<Domain>,
>)
    ensures
        match param_view(*param) {
            ParamSpec::Exact(Type::Enum(d)) => if is_member(d, name@) {
                r matches Ok(Some((rd, m))) && rd == d && m.name@ == name@
            } else {
                r matches Err(e) && e@ == seq![d]
            },
            ParamSpec::Exact(_) => r matches Ok(None),
            ParamSpec::AnyOf(ds) => {
                let hits = domains_matching(ds, name@);
                if hits.len() == 1 {
                    r matches Ok(Some((rd, m))) && rd == hits[0] && m.name@ == name@
                } else {
                    r matches Err(e) && e@ == ds
                }
            },
        },
{
    match param {
        ParamType::Exact(Type::Enum(d)) => match member(*d, name) {
            Some(m) => Ok(Some((*d, m))),
            None => {
                let mut e: Vec<Domain> = Vec::new();
                e.push(*d);
                assert(e@ =~= seq![*d]);
                Err(e)
            },
        },
        ParamType::Exact(_) => Ok(None),
        ParamType::AnyOf(domains) => {
            let mut hits: Vec<(Domain, Member)> = Vec::new();
            let ghost mut found: Seq<Domain> = Seq::empty();
            let mut i: usize = 0;
            while i < domains.len()
                invariant
                    i <= domains@.len(),
                    found == domains_matching(domains@.take(i as int), name@),
                    hits@.len() == found.len(),
                    forall|j: int|
                        0 <= j < hits@.len() ==> (#[trigger] hits@[j]).0 == found[j] && hits@[j].1.name@
                            == name@,
                decreases domains@.len() - i,
            {
                assert(domains@.take(i + 1).drop_last() =~= domains@.take(i as int));
                let d = domains[i];
                if let Some(m) = member(d, name) {
                    hits.push((d, m));
                    proof {
                        found = found.push(d);
                    }
                }
                i += 1;
            }
            assert(domains@.take(domains@.len() as int) =~= domains@);
            if hits.len() == 1 {
                Ok(Some(hits[0]))
            } else {
                let mut e: Vec<Domain> = Vec::new();
                let mut k: usize = 0;
                while k < domains.len()
                    invariant
                        k <= domains@.len(),
                        e@ == domains@.take(k as int),
                    decreases domains@.len() - k,
                {
                    e.push(domains[k]);
                    k += 1;
                    assert(e@ =~= domains@.take(k as int));
                }
                Err(e)
            }
        },
    }
}

// ---- categories and actions ----

pub open spec fn category_count() -> int {
    26
}

/// The categories, closed rather than open: a typo must not silently create a new exclusivity group.
pub open spec fn category_spec(i: int) -> Seq<char> {
    if i == 0 {
        "air-combat"@
    } else if i == 1 {
        "aircraft-maintenance"@
    } else if i == 2 {
        "capture"@
    } else if i == 3 {
        "combat"@
    } else if i == 4 {
        "defense"@
    } else if i == 5 {
        "economy"@
    } else if i == 6 {
        "emergency-defense"@
    } else if i == 7 {
        "ground-attack-choice"@
    } else if i == 8 {
        "harvester"@
    } else if i == 9 {
        "maintenance"@
    } else if i == 10 {
        "micro"@
    } else if i == 11 {
        "minelayer"@
    } else if i == 12 {
        "naval-combat"@
    } else if i == 13 {
        "produce-aircraft"@
    } else if i == 14 {
        "produce-infantry"@
    } else if i == 15 {
        "produce-ship"@
    } else if i == 16 {
        "produce-vehicle"@
    } else if i == 17 {
        "production"@
    } else if i == 18 {
        "rebuild"@
    } else if i == 19 {
        "recon"@
    } else if i == 20 {
        "setup"@
    } else if i == 21 {
        "squad-form"@
    } else if i == 22 {
        "superweapon"@
    } else if i == 23 {
        "superweapon-build"@
    } else if i == 24 {
        "transport"@
    } else {
        "vehicle-maintenance"@
    }
}

fn category_at(i: usize) -> (s: &'static str)
    requires
        i < 26,
    ensures
        s@ == category_spec(i as int),
{
    if i == 0 {
        "air-combat"
    } else if i == 1 {
        "aircraft-maintenance"
    } else if i == 2 {
        "capture"
    } else if i == 3 {
        "combat"
    } else if i == 4 {
        "defense"
    } else if i == 5 {
        "economy"
    } else if i == 6 {
        "emergency-defense"
    } else if i == 7 {
        "ground-attack-choice"
    } else if i == 8 {
        "harvester"
    } else if i == 9 {
        "maintenance"
    } else if i == 10 {
        "micro"
    } else if i == 11 {
        "minelayer"
    } else if i == 12 {
        "naval-combat"
    } else if i == 13 {
        "produce-aircraft"
    } else if i == 14 {
        "produce-infantry"
    } else if i == 15 {
        "produce-ship"
    } else if i == 16 {
        "produce-vehicle"
    } else if i == 17 {
        "production"
    } else if i == 18 {
        "rebuild"
    } else if i == 19 {
        "recon"
    } else if i == 20 {
        "setup"
    } else if i == 21 {
        "squad-form"
    } else if i == 22 {
        "superweapon"
    } else if i == 23 {
        "superweapon-build"
    } else if i == 24 {
        "transport"
    } else {
        "vehicle-maintenance"
    }
}

/// Plain actions come first, then the ones built by a factory.
pub open spec fn plain_action_count() -> int {
    72
}

pub open spec fn action_count() -> int {
    83
}

/// Every action name: one index space covering both tables.
pub open spec fn action_spec(i: int) -> Seq<char> {
    if i == 0 {
        "air-attack-enemy"@
    } else if i == 1 {
        "air-attack-known-base"@
    } else if i == 2 {
        "air-defend-base"@
    } else if i == 3 {
        "attack-known-base-ground"@
    } else if i == 4 {
        "attack-move-ground"@
    } else if i == 5 {
        "cancel-stuck-aircraft"@
    } else if i == 6 {
        "capture-building"@
    } else if i == 7 {
        "defend-base"@
    } else if i == 8 {
        "defend-critical-building"@
    } else if i == 9 {
        "deliver-assault-apc"@
    } else if i == 10 {
        "deploy-mcv"@
    } else if i == 11 {
        "emergency-defend-base"@
    } else if i == 12 {
        "fire-iron-curtain"@
    } else if i == 13 {
        "fire-nuke"@
    } else if i == 14 {
        "fire-parabombs"@
    } else if i == 15 {
        "fire-paratroopers"@
    } else if i == 16 {
        "fire-spy-plane"@
    } else if i == 17 {
        "lay-mines"@
    } else if i == 18 {
        "load-combat-infantry"@
    } else if i == 19 {
        "load-engineer-into-apc"@
    } else if i == 20 {
        "naval-attack-enemy"@
    } else if i == 21 {
        "naval-defend-base"@
    } else if i == 22 {
        "place-building"@
    } else if i == 23 {
        "place-defense"@
    } else if i == 24 {
        "produce-aa-defense"@
    } else if i == 25 {
        "produce-advanced-aircraft"@
    } else if i == 26 {
        "produce-advanced-power"@
    } else if i == 27 {
        "produce-advanced-ship"@
    } else if i == 28 {
        "produce-aircraft"@
    } else if i == 29 {
        "produce-airfield"@
    } else if i == 30 {
        "produce-apc"@
    } else if i == 31 {
        "produce-attack-dog"@
    } else if i == 32 {
        "produce-barracks"@
    } else if i == 33 {
        "produce-basic-aircraft"@
    } else if i == 34 {
        "produce-defense"@
    } else if i == 35 {
        "produce-engineer"@
    } else if i == 36 {
        "produce-flak-truck"@
    } else if i == 37 {
        "produce-flame-tower"@
    } else if i == 38 {
        "produce-gap-generator"@
    } else if i == 39 {
        "produce-grenadier"@
    } else if i == 40 {
        "produce-gunboat"@
    } else if i == 41 {
        "produce-harvester"@
    } else if i == 42 {
        "produce-heavy-vehicle"@
    } else if i == 43 {
        "produce-infantry"@
    } else if i == 44 {
        "produce-iron-curtain"@
    } else if i == 45 {
        "produce-kennel"@
    } else if i == 46 {
        "produce-mad-tank"@
    } else if i == 47 {
        "produce-mcv"@
    } else if i == 48 {
        "produce-minelayer"@
    } else if i == 49 {
        "produce-missile-silo"@
    } else if i == 50 {
        "produce-naval-yard"@
    } else if i == 51 {
        "produce-ore-silo"@
    } else if i == 52 {
        "produce-power-plant"@
    } else if i == 53 {
        "produce-radar"@
    } else if i == 54 {
        "produce-refinery"@
    } else if i == 55 {
        "produce-rocket-soldier"@
    } else if i == 56 {
        "produce-scout-vehicle"@
    } else if i == 57 {
        "produce-service-depot"@
    } else if i == 58 {
        "produce-ship"@
    } else if i == 59 {
        "produce-siege-vehicle"@
    } else if i == 60 {
        "produce-specialist-infantry"@
    } else if i == 61 {
        "produce-spy"@
    } else if i == 62 {
        "produce-tech-center"@
    } else if i == 63 {
        "produce-tesla-coil"@
    } else if i == 64 {
        "produce-vehicle"@
    } else if i == 65 {
        "produce-war-factory"@
    } else if i == 66 {
        "repair-buildings"@
    } else if i == 67 {
        "scout"@
    } else if i == 68 {
        "scout-patrol"@
    } else if i == 69 {
        "send-harvesters"@
    } else if i == 70 {
        "unblock-war-factory-egress"@
    } else if i == 71 {
        "unload-apc-near-target"@
    } else if i == 72 {
        "form-squad"@
    } else if i == 73 {
        "squad-attack-move"@
    } else if i == 74 {
        "squad-attack-known-base"@
    } else if i == 75 {
        "squad-air-strike"@
    } else if i == 76 {
        "squad-focus-fire"@
    } else if i == 77 {
        "squad-disengage"@
    } else if i == 78 {
        "squad-defend"@
    } else if i == 79 {
        "recall-overextended"@
    } else if i == 80 {
        "retreat-damaged-units"@
    } else if i == 81 {
        "flee-harvesters"@
    } else {
        "clear-healed-units"@
    }
}

fn action_at(i: usize) -> (s: &'static str)
    requires
        i < 83,
    ensures
        s@ == action_spec(i as int),
{
    if i == 0 {
        "air-attack-enemy"
    } else if i == 1 {
        "air-attack-known-base"
    } else if i == 2 {
        "air-defend-base"
    } else if i == 3 {
        "attack-known-base-ground"
    } else if i == 4 {
        "attack-move-ground"
    } else if i == 5 {
        "cancel-stuck-aircraft"
    } else if i == 6 {
        "capture-building"
    } else if i == 7 {
        "defend-base"
    } else if i == 8 {
        "defend-critical-building"
    } else if i == 9 {
        "deliver-assault-apc"
    } else if i == 10 {
        "deploy-mcv"
    } else if i == 11 {
        "emergency-defend-base"
    } else if i == 12 {
        "fire-iron-curtain"
    } else if i == 13 {
        "fire-nuke"
    } else if i == 14 {
        "fire-parabombs"
    } else if i == 15 {
        "fire-paratroopers"
    } else if i == 16 {
        "fire-spy-plane"
    } else if i == 17 {
        "lay-mines"
    } else if i == 18 {
        "load-combat-infantry"
    } else if i == 19 {
        "load-engineer-into-apc"
    } else if i == 20 {
        "naval-attack-enemy"
    } else if i == 21 {
        "naval-defend-base"
    } else if i == 22 {
        "place-building"
    } else if i == 23 {
        "place-defense"
    } else if i == 24 {
        "produce-aa-defense"
    } else if i == 25 {
        "produce-advanced-aircraft"
    } else if i == 26 {
        "produce-advanced-power"
    } else if i == 27 {
        "produce-advanced-ship"
    } else if i == 28 {
        "produce-aircraft"
    } else if i == 29 {
        "produce-airfield"
    } else if i == 30 {
        "produce-apc"
    } else if i == 31 {
        "produce-attack-dog"
    } else if i == 32 {
        "produce-barracks"
    } else if i == 33 {
        "produce-basic-aircraft"
    } else if i == 34 {
        "produce-defense"
    } else if i == 35 {
        "produce-engineer"
    } else if i == 36 {
        "produce-flak-truck"
    } else if i == 37 {
        "produce-flame-tower"
    } else if i == 38 {
        "produce-gap-generator"
    } else if i == 39 {
        "produce-grenadier"
    } else if i == 40 {
        "produce-gunboat"
    } else if i == 41 {
        "produce-harvester"
    } else if i == 42 {
        "produce-heavy-vehicle"
    } else if i == 43 {
        "produce-infantry"
    } else if i == 44 {
        "produce-iron-curtain"
    } else if i == 45 {
        "produce-kennel"
    } else if i == 46 {
        "produce-mad-tank"
    } else if i == 47 {
        "produce-mcv"
    } else if i == 48 {
        "produce-minelayer"
    } else if i == 49 {
        "produce-missile-silo"
    } else if i == 50 {
        "produce-naval-yard"
    } else if i == 51 {
        "produce-ore-silo"
    } else if i == 52 {
        "produce-power-plant"
    } else if i == 53 {
        "produce-radar"
    } else if i == 54 {
        "produce-refinery"
    } else if i == 55 {
        "produce-rocket-soldier"
    } else if i == 56 {
        "produce-scout-vehicle"
    } else if i == 57 {
        "produce-service-depot"
    } else if i == 58 {
        "produce-ship"
    } else if i == 59 {
        "produce-siege-vehicle"
    } else if i == 60 {
        "produce-specialist-infantry"
    } else if i == 61 {
        "produce-spy"
    } else if i == 62 {
        "produce-tech-center"
    } else if i == 63 {
        "produce-tesla-coil"
    } else if i == 64 {
        "produce-vehicle"
    } else if i == 65 {
        "produce-war-factory"
    } else if i == 66 {
        "repair-buildings"
    } else if i == 67 {
        "scout"
    } else if i == 68 {
        "scout-patrol"
    } else if i == 69 {
        "send-harvesters"
    } else if i == 70 {
        "unblock-war-factory-egress"
    } else if i == 71 {
        "unload-apc-near-target"
    } else if i == 72 {
        "form-squad"
    } else if i == 73 {
        "squad-attack-move"
    } else if i == 74 {
        "squad-attack-known-base"
    } else if i == 75 {
        "squad-air-strike"
    } else if i == 76 {
        "squad-focus-fire"
    } else if i == 77 {
        "squad-disengage"
    } else if i == 78 {
        "squad-defend"
    } else if i == 79 {
        "recall-overextended"
    } else if i == 80 {
        "retreat-damaged-units"
    } else if i == 81 {
        "flee-harvesters"
    } else {
        "clear-healed-units"
    }
}

/// The parameters of a factory-built action, by its index.
pub open spec fn action_params_spec(i: int) -> Seq<ParamSpec> {
    if i == 72 {
        seq![ParamSpec::Exact(Type::Enum(Domain::SquadName)), ParamSpec::Exact(Type::Enum(Domain::SquadDomain)), ParamSpec::Exact(Type::Int), ParamSpec::Exact(Type::Enum(Domain::SquadRole))]
    } else if i == 73 {
        seq![ParamSpec::Exact(Type::Enum(Domain::SquadName))]
    } else if i == 74 {
        seq![ParamSpec::Exact(Type::Enum(Domain::SquadName)), ParamSpec::Exact(Type::Float)]
    } else if i == 75 {
        seq![ParamSpec::Exact(Type::Enum(Domain::SquadName))]
    } else if i == 76 {
        seq![ParamSpec::Exact(Type::Enum(Domain::SquadName))]
    } else if i == 77 {
        seq![ParamSpec::Exact(Type::Enum(Domain::SquadName))]
    } else if i == 78 {
        seq![ParamSpec::Exact(Type::Enum(Domain::SquadName))]
    } else if i == 79 {
        seq![ParamSpec::Exact(Type::Enum(Domain::SquadName)), ParamSpec::Exact(Type::Float)]
    } else if i == 80 {
        seq![ParamSpec::Exact(Type::Float)]
    } else if i == 81 {
        seq![ParamSpec::Exact(Type::Float)]
    } else {
        seq![ParamSpec::Exact(Type::Float)]
    }
}

/// Whether `n` is a known category.
pub open spec fn is_category_spec(n: Seq<char>) -> bool {
    exists|i: int| 0 <= i < category_count() && category_spec(i) == n
}

pub fn is_category(name: &str) -> (b: bool)
    ensures
        b == is_category_spec(name@),
{
    category_id(name).is_some()
}

/// A category's index.
pub fn category_id(name: &str) -> (r: Option<u32>)
    ensures
        match r {
            Some(i) => {
                &&& i < category_count()
                &&& category_spec(i as int) == name@
                &&& forall|j: int| 0 <= j < i ==> category_spec(j) != name@
            },
            None => !is_category_spec(name@),
        },
        forall|i: int| 0 <= i < category_count() && #[trigger] category_spec(i) == name@ ==> r == Some(i as u32),
{
    let mut i: usize = 0;
    while i < 26
        invariant
            i <= category_count(),
            forall|j: int| 0 <= j < i ==> category_spec(j) != name@,
        decreases category_count() - i,
    {
        if str_eq(category_at(i), name) {
            proof {
                assert forall|i2: int| 0 <= i2 < category_count() && #[trigger] category_spec(i2) == name@ implies i2 == i by {
                    if i2 != i {
                        crate::names::lemma_category_names_distinct(i2, i as int);
                    }
                }
            }
            return Some(i as u32);
        }
        i += 1;
    }
    None
}

pub fn category_name(id: u32) -> (s: &'static str)
    requires
        id < category_count(),
    ensures
        s@ == category_spec(id as int),
{
    category_at(id as usize)
}

/// Whether `n` names an action, plain or factory-built.
pub open spec fn is_action_spec(n: Seq<char>) -> bool {
    exists|i: int| 0 <= i < action_count() && action_spec(i) == n
}

/// An action's index: plain actions first, then the parameterised ones.
pub fn action_id(name: &str) -> (r: Option<u32>)
    ensures
        match r {
            Some(i) => {
                &&& i < action_count()
                &&& action_spec(i as int) == name@
                &&& forall|j: int| 0 <= j < i ==> action_spec(j) != name@
            },
            None => !is_action_spec(name@),
        },
        forall|i: int| 0 <= i < action_count() && #[trigger] action_spec(i) == name@ ==> r == Some(i as u32),
{
    let mut i: usize = 0;
    while i < 83
        invariant
            i <= action_count(),
            forall|j: int| 0 <= j < i ==> action_spec(j) != name@,
        decreases action_count() - i,
    {
        if str_eq(action_at(i), name) {
            proof {
                assert forall|i2: int| 0 <= i2 < action_count() && #[trigger] action_spec(i2) == name@ implies i2 == i by {
                    if i2 != i {
                        crate::names::lemma_action_names_distinct(i2, i as int);
                    }
                }
            }
            return Some(i as u32);
        }
        i += 1;
    }
    None
}

pub fn action_name(id: u32) -> (s: &'static str)
    requires
        id < action_count(),
    ensures
        s@ == action_spec(id as int),
{
    action_at(id as usize)
}

pub fn is_action(name: &str) -> (b: bool)
    ensures
        b == is_action_spec(name@),
{
    action_id(name).is_some()
}

/// An action built by a factory, so it carries arguments:
/// `form-squad(ground-attack, Ground, 8, Attack)`.
pub struct ActionSignature {
    pub name: &'static str,
    pub params: Vec<ParamType>,
}

fn action_params_at(i: usize) -> (v: Vec<ParamType>)
    requires
        plain_action_count() <= i < action_count(),
    ensures
        params_view(v@) == action_params_spec(i as int),
{
    if i == 72 {
        let mut v: Vec<ParamType> = Vec::new();
        v.push(ParamType::Exact(Type::Enum(Domain::SquadName)));
        v.push(ParamType::Exact(Type::Enum(Domain::SquadDomain)));
        v.push(ParamType::Exact(Type::Int));
        v.push(ParamType::Exact(Type::Enum(Domain::SquadRole)));
        assert(params_view(v@) =~= action_params_spec(72));
        v
    } else if i == 73 {
        let mut v: Vec<ParamType> = Vec::new();
        v.push(ParamType::Exact(Type::Enum(Domain::SquadName)));
        assert(params_view(v@) =~= action_params_spec(73));
        v
    } else if i == 74 {
        let mut v: Vec<ParamType> = Vec::new();
        v.push(ParamType::Exact(Type::Enum(Domain::SquadName)));
        v.push(ParamType::Exact(Type::Float));
        assert(params_view(v@) =~= action_params_spec(74));
        v
    } else if i == 75 {
        let mut v: Vec<ParamType> = Vec::new();
        v.push(ParamType::Exact(Type::Enum(Domain::SquadName)));
        assert(params_view(v@) =~= action_params_spec(75));
        v
    } else if i == 76 {
        let mut v: Vec<ParamType> = Vec::new();
        v.push(ParamType::Exact(Type::Enum(Domain::SquadName)));
        assert(params_view(v@) =~= action_params_spec(76));
        v
    } else if i == 77 {
        let mut v: Vec<ParamType> = Vec::new();
        v.push(ParamType::Exact(Type::Enum(Domain::SquadName)));
        assert(params_view(v@) =~= action_params_spec(77));
        v
    } else if i == 78 {
        let mut v: Vec<ParamType> = Vec::new();
        v.push(ParamType::Exact(Type::Enum(Domain::SquadName)));
        assert(params_view(v@) =~= action_params_spec(78));
        v
    } else if i == 79 {
        let mut v: Vec<ParamType> = Vec::new();
        v.push(ParamType::Exact(Type::Enum(Domain::SquadName)));
        v.push(ParamType::Exact(Type::Float));
        assert(params_view(v@) =~= action_params_spec(79));
        v
    } else if i == 80 {
        let mut v: Vec<ParamType> = Vec::new();
        v.push(ParamType::Exact(Type::Float));
        assert(params_view(v@) =~= action_params_spec(80));
        v
    } else if i == 81 {
        let mut v: Vec<ParamType> = Vec::new();
        v.push(ParamType::Exact(Type::Float));
        assert(params_view(v@) =~= action_params_spec(81));
        v
    } else {
        let mut v: Vec<ParamType> = Vec::new();
        v.push(ParamType::Exact(Type::Float));
        assert(params_view(v@) =~= action_params_spec(82));
        v
    }
}

/// The first factory-built action, in table order from `i`, spelled `n`.
pub open spec fn first_factory(n: Seq<char>, i: int) -> Option<int>
    decreases action_count() - i,
{
    if i < plain_action_count() || i >= action_count() {
        None
    } else if action_spec(i) == n {
        Some(i)
    } else {
        first_factory(n, i + 1)
    }
}

/// The index of the factory-built action spelled `n`.
pub open spec fn factory_named(n: Seq<char>) -> Option<int> {
    first_factory(n, plain_action_count())
}

/// The signature of the factory-built action spelled `name`, if any.
pub fn action_signature(name: &str) -> (r: Option<ActionSignature>)
    ensures
        match r {
            Some(s) => exists|i: int|
                plain_action_count() <= i < action_count() && action_spec(i) == name@ && s.name@
                    == name@ && params_view(s.params@) == action_params_spec(i),
            None => forall|i: int|
                plain_action_count() <= i < action_count() ==> action_spec(i) != name@,
        },
        match (r, factory_named(name@)) {
            (Some(s), Some(i)) => params_view(s.params@) == action_params_spec(i),
            (None, None) => true,
            _ => false,
        },
{
    let mut i: usize = 72;
    while i < 83
        invariant
            plain_action_count() <= i <= action_count(),
            forall|j: int| plain_action_count() <= j < i ==> action_spec(j) != name@,
            factory_named(name@) == first_factory(name@, i as int),
        decreases action_count() - i,
    {
        let n = action_at(i);
        if str_eq(n, name) {
            return Some(ActionSignature { name: n, params: action_params_at(i) });
        }
        i += 1;
    }
    None
}


/// How many members a domain has.
pub fn member_total(d: Domain) -> (n: u32)
    ensures
        n == member_count(d),
{
    match d {
        Domain::Queue => 6,
        Domain::Role => 53,
        Domain::BuildingType => 4,
        Domain::UnitType => 2,
        Domain::SquadName => 4,
        Domain::Axis => 4,
        Domain::SupportPower => 5,
        Domain::SquadDomain => 3,
        Domain::SquadRole => 2,
    }
}

/// How many categories there are.
pub fn category_total() -> (n: u32)
    ensures
        n == category_count(),
{
    26
}

/// How many actions there are, plain and factory-built together.
pub fn action_total() -> (n: u32)
    ensures
        n == action_count(),
{
    83
}

} // verus!
