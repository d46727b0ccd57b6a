use vimyc::env::{
    action_id, action_name, action_signature, action_total, builtin, category_id, category_name,
    category_total, domains_containing,
    is_action, is_category, member, member_index, member_name, members, predicate,
    resolve_param_member, Builtin, Predicate,
};
use vimyc::types::{Domain, Type};

/// `AnyOf` resolves by name, which only works while its domains are disjoint.
#[test]
fn buildable_domains_are_disjoint() {
    for b in members(Domain::BuildingType) {
        assert!(
            member(Domain::UnitType, b.name).is_none(),
            "`{}` is both a building and a unit",
            b.name
        );
    }
}

/// The tables are what make a typo an error rather than a silently-new
/// exclusivity group.
#[test]
fn seed_categories_and_actions_are_known() {
    for c in ["setup", "economy", "production", "combat", "recon", "maintenance", "harvester"] {
        assert!(is_category(c), "`{c}` should be a known category");
    }
    for a in ["deploy-mcv", "place-building", "produce-power-plant", "scout", "send-harvesters"] {
        assert!(is_action(a), "`{a}` should be a known action");
    }
    assert!(!is_category("ecomomy"));
    assert!(!is_action("produce-powr-plant"));
}

#[test]
fn can_build_accepts_a_building_or_a_unit() {
    let sig = predicate("can-build").expect("can-build is defined");
    let item = &sig.params[1];
    assert!(matches!(resolve_param_member(item, "powr"), Ok(Some(_))));
    assert!(matches!(resolve_param_member(item, "e1"), Ok(Some(_))));
    assert!(resolve_param_member(item, "nonsense").is_err());
}

#[test]
fn a_predicate_is_found_by_name() {
    let sig = predicate("cash").expect("cash is defined");
    assert_eq!(sig.id, Predicate::Cash);
    assert_eq!(sig.name, "cash");
    assert!(sig.params.is_empty());
    assert_eq!(sig.ret, Type::Int);
    assert!(predicate("cassh").is_none());
    assert!(predicate("count").is_none(), "count is overloaded and has no row");
}

#[test]
fn builtins_are_found_by_name() {
    let lerp = builtin("lerp").expect("lerp");
    assert_eq!(lerp.id, Builtin::Lerp);
    assert_eq!(lerp.params.len(), 3);
    assert_eq!(lerp.ret, Type::Int);
    assert_eq!(builtin("trunc").expect("trunc").ret, Type::Int);
    assert!(builtin("cash").is_none());
}

#[test]
fn categories_and_actions_round_trip_through_their_ids() {
    let c = category_id("economy").expect("economy");
    assert_eq!(category_name(c), "economy");
    assert!(category_id("ecomomy").is_none());
    let a = action_id("scout").expect("scout");
    assert_eq!(action_name(a), "scout");
    assert!(action_id("scoot").is_none());
}

#[test]
fn members_round_trip_through_their_indices() {
    let i = member_index(Domain::BuildingType, "powr").expect("powr");
    assert_eq!(member_name(Domain::BuildingType, i), "powr");
    assert!(member_index(Domain::UnitType, "powr").is_none());
    assert_eq!(domains_containing("e1"), vec![Domain::UnitType]);
    assert!(domains_containing("nonsense").is_empty());
}

#[test]
fn factory_actions_carry_a_signature() {
    let sig = action_signature("form-squad").expect("form-squad takes arguments");
    assert_eq!(sig.params.len(), 4);
    assert!(action_signature("scout").is_none());
}

#[test]
fn every_category_and_action_name_finds_its_own_index() {
    for i in 0..category_total() {
        assert_eq!(category_id(category_name(i)), Some(i));
    }
    for i in 0..action_total() {
        assert_eq!(action_id(action_name(i)), Some(i));
    }
}
