//! A read-only, filterable, sortable query engine over periodically
//! refreshed market-data snapshots: a recursive boolean filter tree,
//! a multi-key stable ordering engine, and the time-to-live gate that
//! decides when a snapshot must be refreshed.

pub mod cache;
pub mod currency;
pub mod filters;
pub mod item;
pub mod ninja_common;
pub mod orderby;
pub mod ninja_currency;
pub mod ninja_item;
pub mod record;
pub mod text;

use vstd::prelude::*;

use crate::filters::{spec_eval, FilterError};
use crate::ninja_currency::{
    currency_key_fn, currency_key_populated, Currency, CurrencyOrderby, CurrencyWhere,
};
use crate::ninja_item::{item_key_fn, item_key_populated, Item, ItemOrderby, ItemWhere};
use crate::orderby::{multi_cmp, spec_stable_sort, Orderby};
use crate::filters::WhereInput;

verus! {

/// The query surface: each query carries an optional filter
/// expression, an optional ordered key list, and falls back to an
/// ascending sort on the name field when no key list is supplied.
pub struct QueryRoot;

impl QueryRoot {
    /// Answers one currency query against a snapshot.
    pub fn currency(
        snapshot: Vec<Currency>,
        filter: Option<CurrencyWhere>,
        orders: Option<Vec<CurrencyOrderby>>,
    ) -> (r: Result<Vec<Currency>, FilterError>)
        requires
            orders is Some ==> forall|i: int|
                0 <= i < orders->0@.len() ==> currency_key_populated(#[trigger] orders->0@[i]),
        ensures
            r is Ok <==> (filter is Some ==> filter->0.spec_wf()),
            r is Ok ==> r->Ok_0@ == spec_stable_sort(
                if filter is Some {
                    spec_eval(filter->0, snapshot@)
                } else {
                    snapshot@
                },
                multi_cmp(
                    currency_key_fn(),
                    if orders is Some {
                        orders->0@
                    } else {
                        seq![CurrencyOrderby::spec_default_name_asc()]
                    },
                ),
            ),
            r is Err ==> r->Err_0 == FilterError::InvalidRegex,
    {
        let orderby_arr = match orders {
            Some(o) => o,
            None => {
                let mut v: Vec<CurrencyOrderby> = Vec::new();
                v.push(CurrencyOrderby::name(Orderby::Asc));
                proof {
                    assert(v@ =~= seq![CurrencyOrderby::spec_default_name_asc()]);
                }
                v
            },
        };
        crate::currency::get_currencies(snapshot, filter, orderby_arr)
    }

    /// Answers one item query against a snapshot.
    pub fn item(
        snapshot: Vec<Item>,
        filter: Option<ItemWhere>,
        orders: Option<Vec<ItemOrderby>>,
    ) -> (r: Result<Vec<Item>, FilterError>)
        requires
            orders is Some ==> forall|i: int|
                0 <= i < orders->0@.len() ==> item_key_populated(#[trigger] orders->0@[i]),
        ensures
            r is Ok <==> (filter is Some ==> filter->0.spec_wf()),
            r is Ok ==> r->Ok_0@ == spec_stable_sort(
                if filter is Some {
                    spec_eval(filter->0, snapshot@)
                } else {
                    snapshot@
                },
                multi_cmp(
                    item_key_fn(),
                    if orders is Some {
                        orders->0@
                    } else {
                        seq![ItemOrderby::spec_default_name_asc()]
                    },
                ),
            ),
            r is Err ==> r->Err_0 == FilterError::InvalidRegex,
    {
        let orderby_arr = match orders {
            Some(o) => o,
            None => {
                let mut v: Vec<ItemOrderby> = Vec::new();
                v.push(ItemOrderby::name(Orderby::Asc));
                proof {
                    assert(v@ =~= seq![ItemOrderby::spec_default_name_asc()]);
                }
                v
            },
        };
        crate::item::get_items(snapshot, filter, orderby_arr)
    }
}

} // verus!
