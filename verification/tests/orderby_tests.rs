use poe_api::ninja_currency::{Currency, CurrencyEndpoint, CurrencyOrderby};
use poe_api::ninja_item::{Item, ItemEndpoint, ItemOrderby};
use poe_api::orderby::{Orderby, OrderbyInput};
use std::cmp::Ordering;

fn currency(name: &str, chaos: i32, divine: i32) -> Currency {
    Currency {
        currency_type_name: name.to_string(),
        chaos_value: chaos,
        details_id: String::new(),
        id: String::new(),
        icon: None,
        name: name.to_string(),
        trade_id: None,
        divine_value: divine,
        endpoint: CurrencyEndpoint::Currency,
    }
}

fn item(id: i32, name: &str, chaos: i32) -> Item {
    Item {
        id,
        name: name.to_string(),
        icon: None,
        level_required: None,
        base_type: None,
        links: None,
        item_class: 0,
        gem_level: None,
        gem_quality: None,
        implicit_modifiers: Vec::new(),
        explicit_modifiers: Vec::new(),
        flavour_text: None,
        item_type: None,
        chaos_value: chaos,
        divine_value: 0,
        count: 0,
        details_id: String::new(),
        listing_count: 0,
        variant: None,
        corrupted: false,
        endpoint: ItemEndpoint::UniqueAccessory,
    }
}

fn chaos_key(dir: Orderby) -> ItemOrderby {
    ItemOrderby { chaos_value: Some(dir), ..ItemOrderby::default() }
}

#[test]
fn descending_single_key() {
    let mut records = vec![item(1, "a", 5), item(2, "b", 15)];
    ItemOrderby::orderby(&mut records, vec![chaos_key(Orderby::Desc)]);
    let ids: Vec<i32> = records.iter().map(|i| i.id).collect();
    assert_eq!(ids, vec![2, 1]);
}

#[test]
fn ascending_single_key() {
    let mut records = vec![item(2, "b", 15), item(1, "a", 5), item(3, "c", 10)];
    ItemOrderby::orderby(&mut records, vec![chaos_key(Orderby::Asc)]);
    let ids: Vec<i32> = records.iter().map(|i| i.id).collect();
    assert_eq!(ids, vec![1, 3, 2]);
}

#[test]
fn empty_key_list_keeps_input_order() {
    let mut records = vec![item(2, "b", 15), item(1, "a", 5), item(3, "c", 10)];
    ItemOrderby::orderby(&mut records, Vec::new());
    let ids: Vec<i32> = records.iter().map(|i| i.id).collect();
    assert_eq!(ids, vec![2, 1, 3]);
}

#[test]
fn ties_preserve_prior_relative_order() {
    // all records compare equal on the key: input order is kept
    let mut records =
        vec![item(4, "d", 7), item(2, "b", 7), item(3, "c", 7), item(1, "a", 7)];
    ItemOrderby::orderby(&mut records, vec![chaos_key(Orderby::Asc)]);
    let ids: Vec<i32> = records.iter().map(|i| i.id).collect();
    assert_eq!(ids, vec![4, 2, 3, 1]);
}

#[test]
fn stable_among_partial_ties() {
    // records tied on the key keep their relative order within the tie
    let mut records =
        vec![item(1, "x", 9), item(2, "y", 3), item(3, "z", 9), item(4, "w", 3)];
    ItemOrderby::orderby(&mut records, vec![chaos_key(Orderby::Asc)]);
    let ids: Vec<i32> = records.iter().map(|i| i.id).collect();
    assert_eq!(ids, vec![2, 4, 1, 3]);
}

#[test]
fn reversed_direction_reverses_distinct_keys() {
    let asc = {
        let mut r = vec![item(1, "a", 5), item(2, "b", 30), item(3, "c", 10)];
        ItemOrderby::orderby(&mut r, vec![chaos_key(Orderby::Asc)]);
        r
    };
    let desc = {
        let mut r = vec![item(1, "a", 5), item(2, "b", 30), item(3, "c", 10)];
        ItemOrderby::orderby(&mut r, vec![chaos_key(Orderby::Desc)]);
        r
    };
    let asc_ids: Vec<i32> = asc.iter().map(|i| i.id).collect();
    let mut desc_ids: Vec<i32> = desc.iter().map(|i| i.id).collect();
    desc_ids.reverse();
    assert_eq!(asc_ids, desc_ids);
}

#[test]
fn multi_key_tie_breaking() {
    // primary: divine value ascending; secondary: name descending
    let mut records = vec![
        currency("a", 1, 2),
        currency("b", 2, 1),
        currency("c", 3, 2),
        currency("d", 4, 1),
    ];
    let primary =
        CurrencyOrderby { chaos_value: None, name: None, divine_value: Some(Orderby::Asc) };
    let secondary = CurrencyOrderby::name(Orderby::Desc);
    CurrencyOrderby::orderby(&mut records, vec![primary, secondary]);
    let names: Vec<String> = records.iter().map(|c| c.name.clone()).collect();
    assert_eq!(names, vec!["d", "b", "c", "a"]);
}

#[test]
fn name_key_sorts_lexicographically() {
    let mut records =
        vec![currency("Mirror", 1, 0), currency("Chaos", 2, 0), currency("Exalted", 3, 0)];
    CurrencyOrderby::orderby(&mut records, vec![CurrencyOrderby::name(Orderby::Asc)]);
    let names: Vec<String> = records.iter().map(|c| c.name.clone()).collect();
    assert_eq!(names, vec!["Chaos", "Exalted", "Mirror"]);
}

#[test]
fn cmp_orderby_reports_field_comparison() {
    let key = CurrencyOrderby::name(Orderby::Asc);
    let a = currency("a", 1, 0);
    let b = currency("b", 2, 0);
    assert_eq!(key.cmp_orderby(&a, &b), Ordering::Less);
    assert_eq!(key.cmp_orderby(&b, &a), Ordering::Greater);
    assert_eq!(key.cmp_orderby(&a, &a), Ordering::Equal);
    let rev = CurrencyOrderby::name(Orderby::Desc);
    assert_eq!(rev.cmp_orderby(&a, &b), Ordering::Greater);
}

#[test]
fn absent_optional_values_sort_first() {
    let mut lv20 = item(1, "a", 0);
    lv20.level_required = Some(20);
    let absent = item(2, "b", 0);
    let mut lv10 = item(3, "c", 0);
    lv10.level_required = Some(10);
    let mut records = vec![lv20, absent, lv10];
    let key = ItemOrderby { level_required: Some(Orderby::Asc), ..ItemOrderby::default() };
    ItemOrderby::orderby(&mut records, vec![key]);
    let ids: Vec<i32> = records.iter().map(|i| i.id).collect();
    assert_eq!(ids, vec![2, 3, 1]);
}

#[test]
fn reversed_multi_key_reverses_distinct_records() {
    // flip both keys of a two-key spec: the result reverses exactly
    let asc = vec![
        currency("a", 1, 2),
        currency("b", 2, 1),
        currency("c", 3, 2),
        currency("d", 4, 1),
    ];
    let mut fwd = asc.clone();
    let primary =
        CurrencyOrderby { chaos_value: None, name: None, divine_value: Some(Orderby::Asc) };
    let secondary = CurrencyOrderby::name(Orderby::Asc);
    CurrencyOrderby::orderby(&mut fwd, vec![primary, secondary]);
    let mut rev = asc;
    let primary =
        CurrencyOrderby { chaos_value: None, name: None, divine_value: Some(Orderby::Desc) };
    let secondary = CurrencyOrderby::name(Orderby::Desc);
    CurrencyOrderby::orderby(&mut rev, vec![primary, secondary]);
    let fwd_names: Vec<String> = fwd.iter().map(|c| c.name.clone()).collect();
    let mut rev_names: Vec<String> = rev.iter().map(|c| c.name.clone()).collect();
    rev_names.reverse();
    assert_eq!(fwd_names, rev_names);
}
