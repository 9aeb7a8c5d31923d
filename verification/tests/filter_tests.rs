use poe_api::filters::{
    BooleanFilter, CurrencyEndpointFilter, FilterError, FilterInput, IntFilter,
    ItemEndpointFilter, ModifierFilter, StringFilter, WhereInput, WhereNode,
};
use poe_api::ninja_currency::{Currency, CurrencyBindings, CurrencyEndpoint, CurrencyWhere};
use poe_api::ninja_item::{Item, ItemBindings, ItemEndpoint, ItemWhere, Modifier};

fn currency(name: &str, chaos: i32) -> Currency {
    Currency {
        currency_type_name: name.to_string(),
        chaos_value: chaos,
        details_id: String::new(),
        id: String::new(),
        icon: None,
        name: name.to_string(),
        trade_id: None,
        divine_value: 0,
        endpoint: CurrencyEndpoint::Currency,
    }
}

fn item(id: i32, name: &str, chaos: i32) -> Item {
    Item {
        id,
        name: name.to_string(),
        icon: None,
        level_required: None,
        base_type: None,
        links: None,
        item_class: 0,
        gem_level: None,
        gem_quality: None,
        implicit_modifiers: Vec::new(),
        explicit_modifiers: Vec::new(),
        flavour_text: None,
        item_type: None,
        chaos_value: chaos,
        divine_value: 0,
        count: 0,
        details_id: String::new(),
        listing_count: 0,
        variant: None,
        corrupted: false,
        endpoint: ItemEndpoint::UniqueAccessory,
    }
}

fn empty_currency_where() -> CurrencyWhere {
    WhereNode { fields: CurrencyBindings::default(), and: None, or: None, not: None }
}

fn currency_name_eq(name: &str) -> CurrencyWhere {
    WhereNode {
        fields: CurrencyBindings {
            chaos_value: None,
            name: Some(StringFilter { _eq: Some(name.to_string()), ..Default::default() }),
            divine_value: None,
        },
        and: None,
        or: None,
        not: None,
    }
}

fn currency_chaos_gt(v: i32) -> CurrencyWhere {
    WhereNode {
        fields: CurrencyBindings {
            chaos_value: Some(IntFilter { _gt: Some(v), ..Default::default() }),
            name: None,
            divine_value: None,
        },
        and: None,
        or: None,
        not: None,
    }
}

#[test]
fn gt_integer_filter_keeps_only_larger_values() {
    // a leaf filter {_gt: 10} on the integer chaos value field
    let expr = WhereNode {
        fields: ItemBindings {
            chaos_value: Some(IntFilter { _gt: Some(10), ..Default::default() }),
            ..Default::default()
        },
        and: None,
        or: None,
        not: None,
    };
    let records = vec![item(1, "a", 5), item(2, "b", 15)];
    let out = expr.filter_recursive(records);
    assert_eq!(out.len(), 1);
    assert_eq!(out[0].id, 2);
    assert_eq!(out[0].chaos_value, 15);
}

#[test]
fn not_filter_removes_matched_name() {
    let expr = WhereNode {
        fields: CurrencyBindings::default(),
        and: None,
        or: None,
        not: Some(vec![currency_name_eq("Chaos Orb")]),
    };
    let records = vec![currency("Chaos Orb", 1), currency("Exalted Orb", 100)];
    let out = expr.filter_recursive(records);
    assert_eq!(out.len(), 1);
    assert_eq!(out[0].name, "Exalted Orb");
}

#[test]
fn empty_expression_is_identity() {
    let records = vec![currency("Chaos Orb", 1), currency("Exalted Orb", 100)];
    let out = empty_currency_where().filter_recursive(records);
    assert_eq!(out.len(), 2);
    assert_eq!(out[0].name, "Chaos Orb");
    assert_eq!(out[1].name, "Exalted Orb");
}

#[test]
fn evaluation_is_idempotent() {
    let expr = currency_chaos_gt(10);
    let records =
        vec![currency("a", 5), currency("b", 15), currency("c", 20), currency("d", 7)];
    let once = expr.filter_recursive(records);
    let names_once: Vec<String> = once.iter().map(|c| c.name.clone()).collect();
    let twice = expr.filter_recursive(once);
    let names_twice: Vec<String> = twice.iter().map(|c| c.name.clone()).collect();
    assert_eq!(names_once, names_twice);
}

#[test]
fn and_composes_as_successive_narrowing() {
    let e1 = currency_chaos_gt(10);
    let e2 = currency_chaos_gt(20);
    let and_node = WhereNode {
        fields: CurrencyBindings::default(),
        and: Some(vec![currency_chaos_gt(10), currency_chaos_gt(20)]),
        or: None,
        not: None,
    };
    let records =
        vec![currency("a", 5), currency("b", 15), currency("c", 25), currency("d", 30)];
    let both = and_node.filter_recursive(records.clone());
    let nested = e1.filter_recursive(e2.filter_recursive(records));
    let names_both: Vec<String> = both.iter().map(|c| c.name.clone()).collect();
    let names_nested: Vec<String> = nested.iter().map(|c| c.name.clone()).collect();
    assert_eq!(names_both, vec!["c".to_string(), "d".to_string()]);
    assert_eq!(names_both, names_nested);
}

#[test]
fn or_result_contains_each_branch() {
    let e1 = currency_name_eq("a");
    let or_node = WhereNode {
        fields: CurrencyBindings::default(),
        and: None,
        or: Some(vec![currency_name_eq("a"), currency_chaos_gt(20)]),
        not: None,
    };
    let records =
        vec![currency("a", 5), currency("b", 15), currency("c", 25), currency("d", 30)];
    let branch = e1.filter_recursive(records.clone());
    let union = or_node.filter_recursive(records);
    let union_names: Vec<String> = union.iter().map(|c| c.name.clone()).collect();
    for kept in &branch {
        assert!(union_names.contains(&kept.name));
    }
    assert_eq!(union_names, vec!["a".to_string(), "c".to_string(), "d".to_string()]);
}

#[test]
fn not_result_is_disjoint_from_branch() {
    let e1 = currency_chaos_gt(10);
    let not_node = WhereNode {
        fields: CurrencyBindings::default(),
        and: None,
        or: None,
        not: Some(vec![currency_chaos_gt(10)]),
    };
    let records =
        vec![currency("a", 5), currency("b", 15), currency("c", 25), currency("d", 7)];
    let kept = not_node.filter_recursive(records.clone());
    let matched = e1.filter_recursive(records);
    let matched_names: Vec<String> = matched.iter().map(|c| c.name.clone()).collect();
    assert_eq!(kept.len(), 2);
    for c in &kept {
        assert!(!matched_names.contains(&c.name));
    }
}

#[test]
fn or_deduplicates_by_identity_key() {
    // both branches keep the same record; it must appear once
    let or_node = WhereNode {
        fields: CurrencyBindings::default(),
        and: None,
        or: Some(vec![currency_name_eq("a"), currency_chaos_gt(1)]),
        not: None,
    };
    let records = vec![currency("a", 5), currency("b", 15)];
    let out = or_node.filter_recursive(records);
    let names: Vec<String> = out.iter().map(|c| c.name.clone()).collect();
    assert_eq!(names, vec!["a".to_string(), "b".to_string()]);
}

#[test]
fn string_operators() {
    let s = |f: StringFilter, v: &str| f.filter_fn(v.to_string());
    assert!(s(StringFilter { _eq: Some("Chaos Orb".into()), ..Default::default() }, "Chaos Orb"));
    assert!(!s(StringFilter { _eq: Some("Chaos Orb".into()), ..Default::default() }, "chaos orb"));
    assert!(s(StringFilter { _ieq: Some("chaos orb".into()), ..Default::default() }, "Chaos Orb"));
    assert!(s(StringFilter { _ne: Some("Chaos Orb".into()), ..Default::default() }, "Exalted Orb"));
    assert!(!s(StringFilter { _ine: Some("CHAOS ORB".into()), ..Default::default() }, "chaos orb"));
    assert!(s(StringFilter { _contains: Some("aos".into()), ..Default::default() }, "Chaos Orb"));
    assert!(!s(StringFilter { _contains: Some("exa".into()), ..Default::default() }, "Chaos Orb"));
    assert!(s(StringFilter { _icontains: Some("ORB".into()), ..Default::default() }, "Chaos Orb"));
    assert!(s(StringFilter { _startswith: Some("Cha".into()), ..Default::default() }, "Chaos Orb"));
    assert!(!s(StringFilter { _startswith: Some("Orb".into()), ..Default::default() }, "Chaos Orb"));
    assert!(s(StringFilter { _istartswith: Some("cha".into()), ..Default::default() }, "Chaos Orb"));
    assert!(s(StringFilter { _endswith: Some("Orb".into()), ..Default::default() }, "Chaos Orb"));
    assert!(s(StringFilter { _iendswith: Some("ORB".into()), ..Default::default() }, "Chaos Orb"));
    assert!(s(
        StringFilter { _in: Some(vec!["a".into(), "Chaos Orb".into()]), ..Default::default() },
        "Chaos Orb"
    ));
    assert!(!s(
        StringFilter { _nin: Some(vec!["Chaos Orb".into()]), ..Default::default() },
        "Chaos Orb"
    ));
}

#[test]
fn regex_operator_distinguishes_inputs() {
    // would fail if the regex wrapper ignored its pattern or haystack
    let f = StringFilter { _regex: Some("^Ch.*b$".into()), ..Default::default() };
    assert!(f.filter_fn("Chaos Orb".to_string()));
    let f = StringFilter { _regex: Some("^Ch.*b$".into()), ..Default::default() };
    assert!(!f.filter_fn("Exalted Orb".to_string()));
    // case-insensitive compilation prepends the flag
    let f = StringFilter { _iregex: Some("^chaos".into()), ..Default::default() };
    assert!(f.filter_fn("Chaos Orb".to_string()));
    let f = StringFilter { _regex: Some("^chaos".into()), ..Default::default() };
    assert!(!f.filter_fn("Chaos Orb".to_string()));
}

#[test]
fn lowercase_distinguishes_inputs() {
    // would fail if the case-folding wrapper returned its input
    let f = StringFilter { _ieq: Some("CHAOS ORB".into()), ..Default::default() };
    assert!(f.filter_fn("chaos orb".to_string()));
    let f = StringFilter { _ieq: Some("CHAOS ORB".into()), ..Default::default() };
    assert!(!f.filter_fn("exalted orb".to_string()));
}

#[test]
fn invalid_regex_is_rejected_at_construction() {
    let expr = WhereNode {
        fields: CurrencyBindings {
            chaos_value: None,
            name: Some(StringFilter { _regex: Some("(".into()), ..Default::default() }),
            divine_value: None,
        },
        and: None,
        or: None,
        not: None,
    };
    assert!(!expr.validate());
    let r = expr.filter_checked(vec![currency("a", 1)]);
    assert!(matches!(r, Err(FilterError::InvalidRegex)));
    // a valid pattern passes validation and evaluation
    let expr = WhereNode {
        fields: CurrencyBindings {
            chaos_value: None,
            name: Some(StringFilter { _regex: Some("^a$".into()), ..Default::default() }),
            divine_value: None,
        },
        and: None,
        or: None,
        not: None,
    };
    assert!(expr.validate());
    let r = expr.filter_checked(vec![currency("a", 1), currency("b", 2)]).unwrap();
    assert_eq!(r.len(), 1);
    assert_eq!(r[0].name, "a");
}

#[test]
fn invalid_regex_deep_in_tree_is_rejected() {
    let bad = WhereNode {
        fields: CurrencyBindings {
            chaos_value: None,
            name: Some(StringFilter { _iregex: Some("[".into()), ..Default::default() }),
            divine_value: None,
        },
        and: None,
        or: None,
        not: None,
    };
    let expr = WhereNode {
        fields: CurrencyBindings::default(),
        and: None,
        or: None,
        not: Some(vec![bad]),
    };
    assert!(!expr.validate());
}

#[test]
fn int_operators() {
    let f = |f: IntFilter, v: i32| f.filter_fn(v);
    assert!(f(IntFilter { _eq: Some(5), ..Default::default() }, 5));
    assert!(!f(IntFilter { _eq: Some(5), ..Default::default() }, 6));
    assert!(f(IntFilter { _ne: Some(5), ..Default::default() }, 6));
    assert!(f(IntFilter { _gt: Some(10), ..Default::default() }, 11));
    assert!(!f(IntFilter { _gt: Some(10), ..Default::default() }, 10));
    assert!(f(IntFilter { _gte: Some(10), ..Default::default() }, 10));
    assert!(f(IntFilter { _lt: Some(10), ..Default::default() }, 9));
    assert!(!f(IntFilter { _lt: Some(10), ..Default::default() }, 10));
    assert!(f(IntFilter { _lte: Some(10), ..Default::default() }, 10));
    assert!(f(IntFilter { _in: Some(vec![1, 2, 3]), ..Default::default() }, 2));
    assert!(!f(IntFilter { _in: Some(vec![1, 2, 3]), ..Default::default() }, 4));
    assert!(f(IntFilter { _nin: Some(vec![1, 2, 3]), ..Default::default() }, 4));
    // several populated slots are conjoined
    assert!(f(IntFilter { _gt: Some(1), _lt: Some(3), ..Default::default() }, 2));
    assert!(!f(IntFilter { _gt: Some(1), _lt: Some(3), ..Default::default() }, 3));
    // no populated slot is vacuously true
    assert!(f(IntFilter::default(), 42));
}

#[test]
fn boolean_operators() {
    assert!(BooleanFilter { _eq: Some(true), _ne: None }.filter_fn(true));
    assert!(!BooleanFilter { _eq: Some(true), _ne: None }.filter_fn(false));
    assert!(BooleanFilter { _ne: Some(true), _eq: None }.filter_fn(false));
    assert!(BooleanFilter::default().filter_fn(false));
}

#[test]
fn modifier_filter_matches_any_element() {
    let mf = ModifierFilter { _contains: Some("life".into()), ..Default::default() };
    let expr: ItemWhere = WhereNode {
        fields: ItemBindings { implicit_modifiers: Some(mf), ..Default::default() },
        and: None,
        or: None,
        not: None,
    };
    let mut with_life = item(1, "ring", 5);
    with_life.implicit_modifiers = vec![
        Modifier { text: "+10 to strength".into(), optional: false },
        Modifier { text: "+20 to maximum life".into(), optional: false },
    ];
    let mut without = item(2, "amulet", 5);
    without.implicit_modifiers =
        vec![Modifier { text: "+10 to strength".into(), optional: false }];
    let mut empty = item(3, "belt", 5);
    empty.implicit_modifiers = Vec::new();
    let out = expr.filter_recursive(vec![with_life, without, empty]);
    assert_eq!(out.len(), 1);
    assert_eq!(out[0].id, 1);
}

#[test]
fn optional_field_absence_is_no_opinion() {
    // a binding on an optional field only constrains present values
    let expr: ItemWhere = WhereNode {
        fields: ItemBindings {
            gem_level: Some(IntFilter { _gte: Some(20), ..Default::default() }),
            ..Default::default()
        },
        and: None,
        or: None,
        not: None,
    };
    let mut leveled = item(1, "gem", 5);
    leveled.gem_level = Some(21);
    let mut low = item(2, "gem2", 5);
    low.gem_level = Some(1);
    let absent = item(3, "sword", 5);
    let out = expr.filter_recursive(vec![leveled, low, absent]);
    let ids: Vec<i32> = out.iter().map(|i| i.id).collect();
    assert_eq!(ids, vec![1, 3]);
}

#[test]
fn endpoint_filters() {
    let f = CurrencyEndpointFilter { _eq: Some(CurrencyEndpoint::Fragment), ..Default::default() };
    assert!(f.filter_fn(CurrencyEndpoint::Fragment));
    let f = CurrencyEndpointFilter { _eq: Some(CurrencyEndpoint::Fragment), ..Default::default() };
    assert!(!f.filter_fn(CurrencyEndpoint::Currency));
    let f = ItemEndpointFilter {
        _in: Some(vec![ItemEndpoint::SkillGem, ItemEndpoint::Beast]),
        ..Default::default()
    };
    assert!(f.filter_fn(ItemEndpoint::Beast));
    let f = ItemEndpointFilter {
        _nin: Some(vec![ItemEndpoint::SkillGem, ItemEndpoint::Beast]),
        ..Default::default()
    };
    assert!(!f.filter_fn(ItemEndpoint::Beast));
}

#[test]
fn accessors_expose_children() {
    let child = currency_name_eq("a");
    let expr = WhereNode {
        fields: CurrencyBindings::default(),
        and: Some(vec![child]),
        or: None,
        not: None,
    };
    assert!(expr.and().is_some());
    assert_eq!(expr.and().unwrap().len(), 1);
    assert!(expr.or().is_none());
    assert!(expr.not().is_none());
}

#[test]
fn filter_applies_own_bindings_only() {
    // `filter` ignores children; `filter_recursive` applies them
    let expr = WhereNode {
        fields: CurrencyBindings::default(),
        and: None,
        or: None,
        not: Some(vec![currency_name_eq("a")]),
    };
    let records = vec![currency("a", 1), currency("b", 2)];
    let own_only = expr.filter(records.clone());
    assert_eq!(own_only.len(), 2);
    let full = expr.filter_recursive(records);
    assert_eq!(full.len(), 1);
}

#[test]
fn or_collapses_duplicate_keys_to_first_occurrence() {
    // two records with one identity key (the name): the union keeps one
    let or_node = WhereNode {
        fields: CurrencyBindings::default(),
        and: None,
        or: Some(vec![currency_chaos_gt(0)]),
        not: None,
    };
    let mut first = currency("a", 5);
    first.chaos_value = 5;
    let mut second = currency("a", 9);
    second.chaos_value = 9;
    let out = or_node.filter_recursive(vec![first, second]);
    assert_eq!(out.len(), 1);
    assert_eq!(out[0].chaos_value, 5);
}
