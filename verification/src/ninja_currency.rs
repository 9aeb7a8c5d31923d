//! The currency record shape: one quote line per currency, a detail
//! record per currency, and the endpoint tag saying which upstream
//! partition a line came from.
//!
//! The upstream API reports values as floating-point chaos equivalents;
//! the engine works on them as scaled integers, converted at the
//! application boundary. A currency's identity key is its name.

use vstd::prelude::*;

use crate::filters::{IntFilter, StringFilter, FilterInput, WhereFields, WhereNode};
use crate::orderby::{cmp_ok, flip_ord, key_fn_of, lemma_sort_sorted, sorted_under, lemma_insert_at, lemma_multi_cmp_flipped, lemma_multi_cmp_ok, lemma_sort_reversed, multi_cmp, spec_directed, spec_i32_cmp, spec_insert, spec_multi_cmp, spec_stable_sort, directed, i32_cmp, Orderby, OrderbyInput};
use crate::text::{lemma_str_cmp_eq, lemma_str_cmp_flip, lemma_str_cmp_trans, spec_str_cmp, str_cmp};
use crate::record::Record;

verus! {

/// Which upstream currency partition a line belongs to.
#[derive(Debug, Clone, Copy, PartialEq, Eq, Structural)]
pub enum CurrencyEndpoint {
    Currency,
    Fragment,
}

impl CurrencyEndpoint {
    /// The endpoint name as the upstream API spells it.
    pub open spec fn spec_str(&self) -> Seq<char> {
        match self {
            CurrencyEndpoint::Currency => "Currency"@,
            CurrencyEndpoint::Fragment => "Fragment"@,
        }
    }

    /// The endpoint name as the upstream API spells it.
    pub fn to_string(&self) -> (r: String)
        ensures
            r@ == self.spec_str(),
    {
        match self {
            CurrencyEndpoint::Currency => "Currency",
            CurrencyEndpoint::Fragment => "Fragment",
        }.to_owned()
    }
}

impl Default for CurrencyEndpoint {
    fn default() -> (r: Self)
        ensures
            r == CurrencyEndpoint::Currency,
    {
        CurrencyEndpoint::Currency
    }
}

/// One currency quote line, enriched with its detail record and the
/// derived relative (divine) value.
#[derive(Debug)]
#[verifier::ext_equal]
pub struct Currency {
    pub currency_type_name: String,
    /// Value in chaos units, scaled to an integer.
    pub chaos_value: i32,
    pub details_id: String,
    /// Merged from the detail record: the trade id, or the line's
    /// details id when the detail has none.
    pub id: String,
    pub icon: Option<String>,
    pub name: String,
    pub trade_id: Option<String>,
    /// Derived: `chaos_value` divided by the pivot record's value.
    pub divine_value: i32,
    pub endpoint: CurrencyEndpoint,
}

/// An exact copy of an optional string.
pub fn dup_opt_string(o: &Option<String>) -> (r: Option<String>)
    ensures
        r == *o,
{
    match o {
        Some(s) => Some(s.clone()),
        None => None,
    }
}

impl Clone for Currency {
    fn clone(&self) -> (r: Self)
        ensures
            r == *self,
    {
        Currency {
            currency_type_name: self.currency_type_name.clone(),
            chaos_value: self.chaos_value,
            details_id: self.details_id.clone(),
            id: self.id.clone(),
            icon: dup_opt_string(&self.icon),
            name: self.name.clone(),
            trade_id: dup_opt_string(&self.trade_id),
            divine_value: self.divine_value,
            endpoint: self.endpoint,
        }
    }
}

impl Record for Currency {
    type Key = Seq<char>;

    /// A currency's identity is its name.
    open spec fn spec_key(&self) -> Seq<char> {
        self.name@
    }

    fn key_eq(&self, other: &Self) -> (r: bool) {
        self.name == other.name
    }
}

/// The per-currency detail record joined onto quote lines by name.
#[derive(Debug)]
pub struct CurrencyDetail {
    pub id: i32,
    pub icon: Option<String>,
    pub name: String,
    pub trade_id: Option<String>,
}

impl Clone for CurrencyDetail {
    fn clone(&self) -> (r: Self)
        ensures
            r == *self,
    {
        CurrencyDetail {
            id: self.id,
            icon: dup_opt_string(&self.icon),
            name: self.name.clone(),
            trade_id: dup_opt_string(&self.trade_id),
        }
    }
}

/// One upstream currency page: quote lines and detail records.
#[derive(Debug)]
#[verifier::ext_equal]
pub struct CurrencyRaw {
    pub lines: Vec<Currency>,
    pub currency_details: Vec<CurrencyDetail>,
}

impl Default for CurrencyRaw {
    fn default() -> (r: Self)
        ensures
            r.lines@ == Seq::<Currency>::empty(),
            r.currency_details@ == Seq::<CurrencyDetail>::empty(),
    {
        CurrencyRaw { lines: Vec::new(), currency_details: Vec::new() }
    }
}

/// The filterable field bindings of one currency filter node.
#[derive(Debug)]
pub struct CurrencyBindings {
    pub chaos_value: Option<IntFilter>,
    pub name: Option<StringFilter>,
    pub divine_value: Option<IntFilter>,
}

impl WhereFields for CurrencyBindings {
    type Record = Currency;

    open spec fn spec_wf(&self) -> bool {
        self.name is Some ==> self.name->0.spec_wf()
    }

    open spec fn spec_matches(&self, r: Currency) -> bool {
        &&& (self.chaos_value is Some ==> self.chaos_value->0.spec_matches(r.chaos_value))
        &&& (self.name is Some ==> self.name->0.spec_matches_chars(r.name@))
        &&& (self.divine_value is Some ==> self.divine_value->0.spec_matches(r.divine_value))
    }

    fn check_wf(&self) -> (b: bool) {
        if let Some(f) = &self.name {
            if !f.check_wf() {
                return false;
            }
        }
        true
    }

    fn matches(&self, r: &Currency) -> (b: bool) {
        if let Some(f) = &self.chaos_value {
            if !f.filter_fn(r.chaos_value) {
                return false;
            }
        }
        if let Some(f) = &self.name {
            if !f.filter_fn(r.name.clone()) {
                return false;
            }
        }
        if let Some(f) = &self.divine_value {
            if !f.filter_fn(r.divine_value) {
                return false;
            }
        }
        true
    }
}

impl Default for CurrencyBindings {
    /// The empty bindings: no field constrained.
    fn default() -> (r: Self)
        ensures
            r == (CurrencyBindings { chaos_value: None, name: None, divine_value: None }),
    {
        CurrencyBindings { chaos_value: None, name: None, divine_value: None }
    }
}

/// The filter expression tree over currencies.
pub type CurrencyWhere = WhereNode<CurrencyBindings>;

/// One sort key over currencies: exactly one populated field names the
/// sorted field; its value gives the direction.
#[derive(Debug, Clone, Copy)]
pub struct CurrencyOrderby {
    pub chaos_value: Option<Orderby>,
    pub name: Option<Orderby>,
    pub divine_value: Option<Orderby>,
}

impl CurrencyOrderby {
    /// The default sort key: ascending by name.
    pub open spec fn spec_default_name_asc() -> Self {
        CurrencyOrderby { chaos_value: None, name: Some(Orderby::Asc), divine_value: None }
    }

    /// A sort key on the name field.
    pub fn name(dir: Orderby) -> (r: Self)
        ensures
            r == (CurrencyOrderby { chaos_value: None, name: Some(dir), divine_value: None }),
    {
        CurrencyOrderby { chaos_value: None, name: Some(dir), divine_value: None }
    }
}

impl Default for CurrencyOrderby {
    /// The empty sort key: no field named.
    fn default() -> (r: Self)
        ensures
            r == (CurrencyOrderby { chaos_value: None, name: None, divine_value: None }),
    {
        CurrencyOrderby { chaos_value: None, name: None, divine_value: None }
    }
}

/// A currency sort key names a field to sort by.
pub open spec fn currency_key_populated(o: CurrencyOrderby) -> bool {
    o.chaos_value is Some || o.name is Some || o.divine_value is Some
}

/// The comparison one currency sort key defines: the first populated
/// field, in declaration order, decides it.
pub open spec fn currency_cmp_key(o: CurrencyOrderby, a: Currency, b: Currency) -> core::cmp::Ordering {
    if o.chaos_value is Some {
        spec_directed(o.chaos_value->0, spec_i32_cmp(a.chaos_value, b.chaos_value))
    } else if o.name is Some {
        spec_directed(o.name->0, spec_str_cmp(a.name@, b.name@))
    } else {
        spec_directed(o.divine_value->0, spec_i32_cmp(a.divine_value, b.divine_value))
    }
}

/// `currency_cmp_key` as a function value.
pub open spec fn currency_key_fn() -> spec_fn(CurrencyOrderby, Currency, Currency) -> core::cmp::Ordering {
    |o: CurrencyOrderby, a: Currency, b: Currency| currency_cmp_key(o, a, b)
}

/// Decides `currency_cmp_key`.
fn currency_cmp_exec(o: &CurrencyOrderby, a: &Currency, b: &Currency) -> (r: core::cmp::Ordering)
    requires
        currency_key_populated(*o),
    ensures
        r == currency_cmp_key(*o, *a, *b),
{
    if let Some(d) = o.chaos_value {
        directed(d, i32_cmp(a.chaos_value, b.chaos_value))
    } else if let Some(d) = o.name {
        directed(d, str_cmp(a.name.as_str(), b.name.as_str()))
    } else {
        let d = o.divine_value.unwrap();
        directed(d, i32_cmp(a.divine_value, b.divine_value))
    }
}

/// The same currency sort key with its direction flipped.
pub open spec fn currency_key_reversed(o: CurrencyOrderby) -> CurrencyOrderby {
    CurrencyOrderby {
        chaos_value: match o.chaos_value {
            Option::Some(d) => Option::Some(crate::orderby::flip_dir(d)),
            Option::None => Option::None,
        },
        name: match o.name {
            Option::Some(d) => Option::Some(crate::orderby::flip_dir(d)),
            Option::None => Option::None,
        },
        divine_value: match o.divine_value {
            Option::Some(d) => Option::Some(crate::orderby::flip_dir(d)),
            Option::None => Option::None,
        },
    }
}

/// Flipping a currency sort key's direction flips the comparison it
/// defines.
pub proof fn lemma_currency_key_reversed(o: CurrencyOrderby, a: Currency, b: Currency)
    requires
        currency_key_populated(o),
    ensures
        currency_cmp_key(currency_key_reversed(o), a, b) == crate::orderby::flip_ord(
            currency_cmp_key(o, a, b),
        ),
{
}

impl OrderbyInput for CurrencyOrderby {
    type Output = Currency;

    open spec fn spec_populated(&self) -> bool {
        currency_key_populated(*self)
    }

    /// The first populated field, in declaration order, decides the
    /// comparison.
    open spec fn spec_cmp(&self, a: Currency, b: Currency) -> core::cmp::Ordering {
        currency_cmp_key(*self, a, b)
    }

    open spec fn spec_sort(orders: Seq<Self>, s: Seq<Currency>) -> Seq<Currency> {
        spec_stable_sort(s, multi_cmp(currency_key_fn(), orders))
    }

    fn cmp_orderby(&self, a: &Currency, b: &Currency) -> (r: core::cmp::Ordering) {
        currency_cmp_exec(self, a, b)
    }

    fn orderby(arr: &mut Vec<Currency>, orders: Vec<Self>) {
        currency_sort(arr, &orders);
    }
}

/// Decides the multi-key comparison of two currencies.
fn currency_multi_cmp(orders: &Vec<CurrencyOrderby>, a: &Currency, b: &Currency) -> (r:
    core::cmp::Ordering)
    requires
        forall|i: int| 0 <= i < orders@.len() ==> currency_key_populated(#[trigger] orders@[i]),
    ensures
        r == spec_multi_cmp(currency_key_fn(), orders@, *a, *b),
{
    let n = orders.len();
    proof {
        assert(orders@.skip(0) =~= orders@);
    }
    for i in 0..n
        invariant
            n == orders@.len(),
            forall|t: int| 0 <= t < orders@.len() ==> currency_key_populated(#[trigger] orders@[t]),
            spec_multi_cmp(currency_key_fn(), orders@, *a, *b) == spec_multi_cmp(
                currency_key_fn(),
                orders@.skip(i as int),
                *a,
                *b,
            ),
    {
        let c = currency_cmp_exec(&orders[i], a, b);
        proof {
            assert(orders@.skip(i as int)[0] == orders@[i as int]);
            assert(orders@.skip(i as int).drop_first() =~= orders@.skip(i + 1));
            assert(currency_key_fn()(orders@[i as int], *a, *b) == currency_cmp_key(
                orders@[i as int],
                *a,
                *b,
            ));
        }
        match c {
            core::cmp::Ordering::Equal => {},
            _ => {
                return c;
            },
        }
    }
    proof {
        assert(orders@.skip(n as int).len() == 0);
    }
    core::cmp::Ordering::Equal
}

/// Inserts one currency before the first one comparing greater.
fn currency_insert(out: &mut Vec<Currency>, x: Currency, orders: &Vec<CurrencyOrderby>)
    requires
        forall|i: int| 0 <= i < orders@.len() ==> currency_key_populated(#[trigger] orders@[i]),
    ensures
        final(out)@ == spec_insert(old(out)@, x, multi_cmp(currency_key_fn(), orders@)),
{
    let n = out.len();
    let mut j: usize = 0;
    let ghost c = multi_cmp(currency_key_fn(), orders@);
    loop
        invariant
            0 <= j <= n,
            n == out@.len(),
            out@ == old(out)@,
            c == multi_cmp(currency_key_fn(), orders@),
            forall|i: int| 0 <= i < orders@.len() ==> currency_key_populated(#[trigger] orders@[i]),
            forall|t: int| 0 <= t < j ==> c(#[trigger] out@[t], x) != core::cmp::Ordering::Greater,
        ensures
            0 <= j <= n,
            out@ == old(out)@,
            forall|t: int| 0 <= t < j ==> c(#[trigger] out@[t], x) != core::cmp::Ordering::Greater,
            j < n ==> c(out@[j as int], x) == core::cmp::Ordering::Greater,
        decreases n - j,
    {
        if j >= n {
            break ;
        }
        let o = currency_multi_cmp(orders, &out[j], &x);
        proof {
            assert(c(out@[j as int], x) == spec_multi_cmp(currency_key_fn(), orders@, out@[j as int], x));
        }
        match o {
            core::cmp::Ordering::Greater => {
                break ;
            },
            _ => {},
        }
        j += 1;
    }
    proof {
        lemma_insert_at(out@, x, c, j as int);
    }
    out.insert(j, x);
    proof {
        assert(final(out)@ =~= old(out)@.take(j as int) + seq![x] + old(out)@.skip(j as int));
    }
}

/// Sorts currencies in place by the ordered key list, stably.
fn currency_sort(arr: &mut Vec<Currency>, orders: &Vec<CurrencyOrderby>)
    requires
        forall|i: int| 0 <= i < orders@.len() ==> currency_key_populated(#[trigger] orders@[i]),
    ensures
        final(arr)@ == spec_stable_sort(old(arr)@, multi_cmp(currency_key_fn(), orders@)),
{
    let ghost orig = old(arr)@;
    let ghost c = multi_cmp(currency_key_fn(), orders@);
    let n = arr.len();
    let mut out: Vec<Currency> = Vec::new();
    let mut i: usize = 0;
    proof {
        assert(spec_stable_sort(orig.take(0), c) =~= Seq::<Currency>::empty());
    }
    while i < n
        invariant
            0 <= i <= n,
            n == orig.len(),
            c == multi_cmp(currency_key_fn(), orders@),
            forall|t: int| 0 <= t < orders@.len() ==> currency_key_populated(#[trigger] orders@[t]),
            arr@ =~= orig.skip(i as int),
            out@ == spec_stable_sort(orig.take(i as int), c),
        decreases n - i,
    {
        let x = arr.remove(0);
        proof {
            assert(x == orig[i as int]);
            assert(arr@ =~= orig.skip(i + 1));
            assert(orig.take(i + 1).drop_last() =~= orig.take(i as int));
            assert(orig.take(i + 1).last() == orig[i as int]);
        }
        currency_insert(&mut out, x, orders);
        i += 1;
    }
    proof {
        assert(orig.take(n as int) =~= orig);
    }
    *arr = out;
}

/// Every populated currency sort key defines a well-behaved
/// comparison.
pub proof fn lemma_currency_key_cmp_ok(o: CurrencyOrderby)
    requires
        currency_key_populated(o),
    ensures
        cmp_ok(key_fn_of(currency_key_fn(), o)),
{
    let c = key_fn_of(currency_key_fn(), o);
    let name_case = o.chaos_value is None && o.name is Some;
    assert forall|a: Currency, b: Currency| #[trigger] c(a, b) == flip_ord(c(b, a)) by {
        assert(c(a, b) == currency_cmp_key(o, a, b));
        assert(c(b, a) == currency_cmp_key(o, b, a));
        if name_case {
            lemma_str_cmp_flip(a.name@, b.name@);
        }
    }
    assert forall|a: Currency, b: Currency, d: Currency|
        #[trigger] c(a, b) == core::cmp::Ordering::Greater && #[trigger] c(b, d)
            == core::cmp::Ordering::Greater implies c(a, d) == core::cmp::Ordering::Greater by {
        assert(c(a, b) == currency_cmp_key(o, a, b));
        assert(c(b, d) == currency_cmp_key(o, b, d));
        assert(c(a, d) == currency_cmp_key(o, a, d));
        if name_case {
            lemma_str_cmp_flip(a.name@, b.name@);
            lemma_str_cmp_flip(b.name@, d.name@);
            lemma_str_cmp_flip(a.name@, d.name@);
            if spec_str_cmp(a.name@, b.name@) == core::cmp::Ordering::Greater && spec_str_cmp(
                b.name@,
                d.name@,
            ) == core::cmp::Ordering::Greater {
                lemma_str_cmp_trans(a.name@, b.name@, d.name@);
            }
            if spec_str_cmp(d.name@, b.name@) == core::cmp::Ordering::Greater && spec_str_cmp(
                b.name@,
                a.name@,
            ) == core::cmp::Ordering::Greater {
                lemma_str_cmp_trans(d.name@, b.name@, a.name@);
            }
        }
    }
    assert forall|a: Currency, b: Currency, x: Currency|
        #![trigger c(a, b), c(a, x)]
        c(a, b) == core::cmp::Ordering::Equal implies c(a, x) == c(b, x) by {
        assert(c(a, b) == currency_cmp_key(o, a, b));
        assert(c(a, x) == currency_cmp_key(o, a, x));
        assert(c(b, x) == currency_cmp_key(o, b, x));
        if name_case {
            lemma_str_cmp_eq(a.name@, b.name@);
        }
    }
}

/// Reversing the direction of every sort key yields the exact reverse
/// of the original order, when no two distinct records tie on the keys
/// and no record occurs twice.
pub proof fn lemma_currency_orderby_reversed(orders: Seq<CurrencyOrderby>, s: Seq<Currency>)
    requires
        forall|i: int| 0 <= i < orders.len() ==> currency_key_populated(#[trigger] orders[i]),
        forall|a: Currency, b: Currency|
            s.contains(a) && s.contains(b) && a != b ==> #[trigger] spec_multi_cmp(
                currency_key_fn(),
                orders,
                a,
                b,
            ) != core::cmp::Ordering::Equal,
        forall|i: int, j: int| 0 <= i < j < s.len() ==> #[trigger] s[i] != #[trigger] s[j],
    ensures
        spec_stable_sort(
            s,
            multi_cmp(
                currency_key_fn(),
                orders.map_values(|o: CurrencyOrderby| currency_key_reversed(o)),
            ),
        ) == spec_stable_sort(s, multi_cmp(currency_key_fn(), orders)).reverse(),
{
    let kc = currency_key_fn();
    let rev = orders.map_values(|o: CurrencyOrderby| currency_key_reversed(o));
    let c1 = multi_cmp(kc, orders);
    let c2 = multi_cmp(kc, rev);
    assert forall|i: int| 0 <= i < orders.len() implies cmp_ok(
        key_fn_of(kc, #[trigger] orders[i]),
    ) by {
        lemma_currency_key_cmp_ok(orders[i]);
    }
    lemma_multi_cmp_ok(kc, orders);
    assert forall|a: Currency, b: Currency| #[trigger] c2(a, b) == flip_ord(c1(a, b)) by {
        assert forall|i: int| 0 <= i < orders.len() implies kc(#[trigger] rev[i], a, b)
            == flip_ord(kc(orders[i], a, b)) by {
            assert(rev[i] == currency_key_reversed(orders[i]));
            lemma_currency_key_reversed(orders[i], a, b);
            assert(kc(rev[i], a, b) == currency_cmp_key(currency_key_reversed(orders[i]), a, b));
            assert(kc(orders[i], a, b) == currency_cmp_key(orders[i], a, b));
        }
        lemma_multi_cmp_flipped(kc, orders, rev, a, b);
    }
    assert forall|a: Currency, b: Currency|
        s.contains(a) && s.contains(b) && a != b implies #[trigger] c1(a, b)
        != core::cmp::Ordering::Equal by {
        assert(c1(a, b) == spec_multi_cmp(kc, orders, a, b));
    }
    lemma_sort_reversed(s, c1, c2);
}

/// The sorted snapshot is totally ordered under the multi-key
/// comparator: no record compares greater than a later one.
pub proof fn lemma_currency_sort_sorted(orders: Seq<CurrencyOrderby>, s: Seq<Currency>)
    requires
        forall|i: int| 0 <= i < orders.len() ==> currency_key_populated(#[trigger] orders[i]),
    ensures
        sorted_under(
            spec_stable_sort(s, multi_cmp(currency_key_fn(), orders)),
            multi_cmp(currency_key_fn(), orders),
        ),
{
    assert forall|i: int| 0 <= i < orders.len() implies cmp_ok(
        key_fn_of(currency_key_fn(), #[trigger] orders[i]),
    ) by {
        lemma_currency_key_cmp_ok(orders[i]);
    }
    lemma_multi_cmp_ok(currency_key_fn(), orders);
    lemma_sort_sorted(s, multi_cmp(currency_key_fn(), orders));
}

} // verus!
