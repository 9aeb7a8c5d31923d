use poe_api::currency::{
    divine_price, get_currencies, merge_currencies, merge_currency_pages, relative_value,
};
use poe_api::item::{get_items, mark_relic_names, merge_item_pages};
use poe_api::ninja_common::League;
use poe_api::filters::{FilterError, StringFilter, WhereNode};
use poe_api::ninja_currency::{Currency, CurrencyDetail, CurrencyEndpoint, CurrencyOrderby, CurrencyRaw};
use poe_api::ninja_item::{Item, ItemBindings, ItemEndpoint, ItemOrderby, ItemRaw};
use poe_api::orderby::Orderby;
use poe_api::QueryRoot;

fn line(kind_name: &str, chaos: i32) -> Currency {
    Currency {
        currency_type_name: kind_name.to_string(),
        chaos_value: chaos,
        details_id: format!("{}-details", kind_name),
        id: String::new(),
        icon: None,
        name: String::new(),
        trade_id: None,
        divine_value: 0,
        endpoint: CurrencyEndpoint::Currency,
    }
}

fn detail(name: &str, trade_id: Option<&str>) -> CurrencyDetail {
    CurrencyDetail {
        id: 0,
        icon: Some(format!("{}.png", name)),
        name: name.to_string(),
        trade_id: trade_id.map(|s| s.to_string()),
    }
}

fn item(id: i32, name: &str, details_id: &str) -> Item {
    Item {
        id,
        name: name.to_string(),
        icon: None,
        level_required: None,
        base_type: None,
        links: None,
        item_class: 0,
        gem_level: None,
        gem_quality: None,
        implicit_modifiers: Vec::new(),
        explicit_modifiers: Vec::new(),
        flavour_text: None,
        item_type: None,
        chaos_value: 0,
        divine_value: 0,
        count: 0,
        details_id: details_id.to_string(),
        listing_count: 0,
        variant: None,
        corrupted: false,
        endpoint: ItemEndpoint::UniqueAccessory,
    }
}

#[test]
fn pages_merge_by_concatenation_in_order() {
    let p1 = CurrencyRaw { lines: vec![line("a", 1)], currency_details: vec![detail("a", None)] };
    let p2 = CurrencyRaw {
        lines: vec![line("b", 2), line("c", 3)],
        currency_details: Vec::new(),
    };
    let merged = merge_currency_pages(vec![p1, p2]);
    let names: Vec<String> =
        merged.lines.iter().map(|l| l.currency_type_name.clone()).collect();
    assert_eq!(names, vec!["a", "b", "c"]);
    assert_eq!(merged.currency_details.len(), 1);
}

#[test]
fn item_pages_merge_by_concatenation_in_order() {
    let p1 = ItemRaw { lines: vec![item(1, "a", "a1")] };
    let p2 = ItemRaw { lines: vec![item(2, "b", "b1"), item(3, "c", "c1")] };
    let merged = merge_item_pages(vec![p1, p2]);
    let ids: Vec<i32> = merged.lines.iter().map(|l| l.id).collect();
    assert_eq!(ids, vec![1, 2, 3]);
}

#[test]
fn endpoint_tagging_marks_every_line() {
    let mut lines = vec![line("a", 1), line("b", 2)];
    poe_api::currency::tag_endpoint(&mut lines, CurrencyEndpoint::Fragment);
    assert!(lines.iter().all(|l| l.endpoint == CurrencyEndpoint::Fragment));
    assert_eq!(lines[0].currency_type_name, "a");
    let mut items = vec![item(1, "x", "d")];
    poe_api::item::tag_endpoint(&mut items, ItemEndpoint::SkillGem);
    assert_eq!(items[0].endpoint, ItemEndpoint::SkillGem);
}

#[test]
fn pivot_value_is_last_matching_line() {
    let lines = vec![line("Divine Orb", 180), line("Chaos Orb", 1), line("Divine Orb", 220)];
    assert_eq!(divine_price(&lines), 220);
    let none = vec![line("Chaos Orb", 1)];
    assert_eq!(divine_price(&none), 0);
}

#[test]
fn relative_value_divides_by_pivot() {
    assert_eq!(relative_value(150, 50), 3);
    assert_eq!(relative_value(449, 220), 2);
    assert_eq!(relative_value(10, 0), 0);
    assert_eq!(relative_value(-5, 10), 0);
    assert_eq!(relative_value(0, 220), 0);
}

#[test]
fn join_merges_detail_onto_line() {
    let lines = vec![line("Divine Orb", 200), line("Exalted Orb", 100)];
    let details = vec![detail("Exalted Orb", Some("exalted"))];
    let out = merge_currencies(lines, details);
    assert_eq!(out.len(), 1);
    let c = &out[0];
    assert_eq!(c.name, "Exalted Orb");
    assert_eq!(c.id, "exalted");
    assert_eq!(c.icon, Some("Exalted Orb.png".to_string()));
    assert_eq!(c.chaos_value, 100);
    // 100 chaos / 200 chaos per divine, in integers
    assert_eq!(c.divine_value, 0);
}

#[test]
fn join_without_trade_id_falls_back_to_details_id() {
    let lines = vec![line("Divine Orb", 50)];
    let details = vec![detail("Divine Orb", None)];
    let out = merge_currencies(lines, details);
    assert_eq!(out.len(), 1);
    assert_eq!(out[0].id, "Divine Orb-details");
    assert_eq!(out[0].divine_value, 1);
}

#[test]
fn join_drops_unmatched_details() {
    let lines = vec![line("Chaos Orb", 1)];
    let details = vec![detail("Chaos Orb", None), detail("Unknown Orb", None)];
    let out = merge_currencies(lines, details);
    assert_eq!(out.len(), 1);
    assert_eq!(out[0].name, "Chaos Orb");
}

#[test]
fn join_without_pivot_yields_zero_relative_value() {
    let lines = vec![line("Exalted Orb", 100)];
    let details = vec![detail("Exalted Orb", None)];
    let out = merge_currencies(lines, details);
    assert_eq!(out[0].divine_value, 0);
}

#[test]
fn join_takes_last_line_on_colliding_names() {
    let lines = vec![line("Chaos Orb", 1), line("Chaos Orb", 9)];
    let details = vec![detail("Chaos Orb", None)];
    let out = merge_currencies(lines, details);
    assert_eq!(out.len(), 1);
    assert_eq!(out[0].chaos_value, 9);
}

#[test]
fn relic_names_get_the_relic_marker() {
    let mut items = vec![item(1, "Headhunter", "headhunter"), item(2, "Headhunter", "headhunter-relic")];
    mark_relic_names(&mut items);
    assert_eq!(items[0].name, "Headhunter");
    assert_eq!(items[1].name, "Headhunter (Relic)");
    assert_eq!(items[1].details_id, "headhunter-relic");
}

#[test]
fn league_names_match_the_upstream_spelling() {
    assert_eq!(League::TmpStandard.to_string(), "Ancestor");
    assert_eq!(League::TmpHardcore.to_string(), "Hardcore+Ancestor");
    assert_eq!(League::TmpRuthless.to_string(), "Ruthless+Ancestor");
    assert_eq!(League::TmpHardcoreRuthless.to_string(), "HC+Ruthless+Ancestor");
    assert_eq!(League::Standard.to_string(), "Standard");
    assert_eq!(League::Hardcore.to_string(), "Hardcore");
    assert_eq!(League::Ruthless.to_string(), "Ruthless");
    assert_eq!(League::HardcoreRuthless.to_string(), "Hardcore+Ruthless");
    assert_eq!(League::PrevStandard.to_string(), "Crucible");
    assert_eq!(League::PrevHardcore.to_string(), "Hardcore+Crucible");
    assert_eq!(League::default(), League::TmpStandard);
}

#[test]
fn endpoint_names_match_the_upstream_spelling() {
    assert_eq!(CurrencyEndpoint::Currency.to_string(), "Currency");
    assert_eq!(CurrencyEndpoint::Fragment.to_string(), "Fragment");
    assert_eq!(ItemEndpoint::AtlasMap.to_string(), "Map");
    assert_eq!(ItemEndpoint::UniqueAccessory.to_string(), "UniqueAccessory");
    assert_eq!(ItemEndpoint::BlightRavagedMap.to_string(), "BlightRavagedMap");
    assert_eq!(ItemEndpoint::default(), ItemEndpoint::UniqueAccessory);
}

#[test]
fn query_root_defaults_to_name_ascending() {
    let mut a = line("x", 1);
    a.name = "Mirror".to_string();
    let mut b = line("y", 2);
    b.name = "Chaos".to_string();
    let out = QueryRoot::currency(vec![a, b], None, None).unwrap();
    let names: Vec<String> = out.iter().map(|c| c.name.clone()).collect();
    assert_eq!(names, vec!["Chaos", "Mirror"]);
}

#[test]
fn query_root_item_applies_filter_and_order() {
    let mut i1 = item(1, "b", "d1");
    i1.chaos_value = 5;
    let mut i2 = item(2, "a", "d2");
    i2.chaos_value = 15;
    let mut i3 = item(3, "c", "d3");
    i3.chaos_value = 25;
    let key = ItemOrderby { chaos_value: Some(Orderby::Desc), ..ItemOrderby::default() };
    let out = QueryRoot::item(vec![i1, i2, i3], None, Some(vec![key])).unwrap();
    let ids: Vec<i32> = out.iter().map(|i| i.id).collect();
    assert_eq!(ids, vec![3, 2, 1]);
}

#[test]
fn get_currencies_without_filter_sorts_only() {
    let mut a = line("x", 9);
    a.name = "b".to_string();
    let mut b = line("y", 3);
    b.name = "a".to_string();
    let out = get_currencies(vec![a, b], None, vec![CurrencyOrderby::name(Orderby::Asc)]).unwrap();
    let names: Vec<String> = out.iter().map(|c| c.name.clone()).collect();
    assert_eq!(names, vec!["a", "b"]);
}

#[test]
fn get_items_rejects_invalid_filter() {
    let expr = WhereNode {
        fields: ItemBindings {
            name: Some(StringFilter { _regex: Some("(".to_string()), ..Default::default() }),
            ..Default::default()
        },
        and: None,
        or: None,
        not: None,
    };
    let r = get_items(vec![item(1, "a", "d")], Some(expr), Vec::new());
    assert!(matches!(r, Err(FilterError::InvalidRegex)));
}
