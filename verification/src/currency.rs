//! The currency aggregation pipeline and query entry: merge the
//! upstream pages, join quote lines with their detail records by name,
//! derive the relative (divine) value from the pivot record, then
//! filter and order on request.

use vstd::prelude::*;

use crate::filters::{FilterError, WhereInput};
use crate::ninja_currency::{
    currency_key_fn, currency_key_populated, Currency, CurrencyDetail, CurrencyOrderby,
    CurrencyRaw, CurrencyWhere,
};
use crate::orderby::{multi_cmp, spec_stable_sort, OrderbyInput};
use crate::filters::spec_eval;

verus! {

/// The name of the pivot record whose value is the divisor when
/// deriving relative values.
pub open spec fn spec_pivot_name() -> Seq<char> {
    "Divine Orb"@
}

/// Tags every line with the upstream partition it came from; nothing
/// else changes.
pub fn tag_endpoint(lines: &mut Vec<Currency>, endpoint: crate::ninja_currency::CurrencyEndpoint)
    ensures
        final(lines)@.len() == old(lines)@.len(),
        forall|i: int|
            0 <= i < old(lines)@.len() ==> final(lines)@[i] == (Currency {
                endpoint,
                ..old(lines)@[i]
            }),
{
    let ghost orig = old(lines)@;
    let n = lines.len();
    let mut out: Vec<Currency> = Vec::new();
    let mut i: usize = 0;
    while i < n
        invariant
            0 <= i <= n,
            n == orig.len(),
            lines@ =~= orig.skip(i as int),
            out@.len() == i,
            forall|j: int| 0 <= j < i ==> out@[j] == (Currency { endpoint, ..orig[j] }),
        decreases n - i,
    {
        let mut x = lines.remove(0);
        proof {
            assert(x == orig[i as int]);
            assert(lines@ =~= orig.skip(i + 1));
        }
        x.endpoint = endpoint;
        out.push(x);
        i += 1;
    }
    *lines = out;
}

/// The quote lines of a page list, concatenated in page order.
pub open spec fn spec_concat_lines(pages: Seq<CurrencyRaw>) -> Seq<Currency>
    decreases pages.len(),
{
    if pages.len() == 0 {
        Seq::empty()
    } else {
        spec_concat_lines(pages.drop_last()) + pages.last().lines@
    }
}

/// The detail records of a page list, concatenated in page order.
pub open spec fn spec_concat_details(pages: Seq<CurrencyRaw>) -> Seq<CurrencyDetail>
    decreases pages.len(),
{
    if pages.len() == 0 {
        Seq::empty()
    } else {
        spec_concat_details(pages.drop_last()) + pages.last().currency_details@
    }
}

/// Merges the fetched pages into one by concatenation, in page order.
pub fn merge_currency_pages(pages: Vec<CurrencyRaw>) -> (r: CurrencyRaw)
    ensures
        r.lines@ == spec_concat_lines(pages@),
        r.currency_details@ == spec_concat_details(pages@),
{
    let ghost orig = pages@;
    let mut pages = pages;
    let mut acc_lines: Vec<Currency> = Vec::new();
    let mut acc_details: Vec<CurrencyDetail> = Vec::new();
    let n = pages.len();
    let mut i: usize = 0;
    proof {
        assert(spec_concat_lines(orig.take(0)) =~= Seq::<Currency>::empty());
        assert(spec_concat_details(orig.take(0)) =~= Seq::<CurrencyDetail>::empty());
    }
    while i < n
        invariant
            0 <= i <= n,
            n == orig.len(),
            pages@ =~= orig.skip(i as int),
            acc_lines@ == spec_concat_lines(orig.take(i as int)),
            acc_details@ == spec_concat_details(orig.take(i as int)),
        decreases n - i,
    {
        let mut page = pages.remove(0);
        proof {
            assert(page == orig[i as int]);
            assert(pages@ =~= orig.skip(i + 1));
            assert(orig.take(i + 1).drop_last() =~= orig.take(i as int));
            assert(orig.take(i + 1).last() == orig[i as int]);
        }
        acc_lines.append(&mut page.lines);
        acc_details.append(&mut page.currency_details);
        i += 1;
    }
    proof {
        assert(orig.take(n as int) =~= orig);
    }
    CurrencyRaw { lines: acc_lines, currency_details: acc_details }
}

/// The value of the pivot record: the chaos value of the last line
/// named like the pivot, or zero when none is.
pub open spec fn spec_divine_price(lines: Seq<Currency>) -> i32
    decreases lines.len(),
{
    if lines.len() == 0 {
        0
    } else if lines.last().currency_type_name@ == spec_pivot_name() {
        lines.last().chaos_value
    } else {
        spec_divine_price(lines.drop_last())
    }
}

/// Finds the pivot record's value among the lines.
pub fn divine_price(lines: &Vec<Currency>) -> (r: i32)
    ensures
        r == spec_divine_price(lines@),
{
    let n = lines.len();
    let mut dp: i32 = 0;
    for i in 0..n
        invariant
            n == lines@.len(),
            dp == spec_divine_price(lines@.take(i as int)),
    {
        proof {
            assert(lines@.take(i + 1).drop_last() =~= lines@.take(i as int));
            assert(lines@.take(i + 1).last() == lines@[i as int]);
        }
        if crate::text::str_eq(lines[i].currency_type_name.as_str(), "Divine Orb") {
            proof {
                reveal_strlit("Divine Orb");
            }
            dp = lines[i].chaos_value;
        }
    }
    proof {
        assert(lines@.take(n as int) =~= lines@);
    }
    dp
}

/// The last line whose currency type name is `name`, as a map keyed by
/// name and built in line order would hold it.
pub open spec fn spec_find_line(lines: Seq<Currency>, name: Seq<char>) -> Option<Currency>
    decreases lines.len(),
{
    if lines.len() == 0 {
        Option::None
    } else if lines.last().currency_type_name@ == name {
        Option::Some(lines.last())
    } else {
        spec_find_line(lines.drop_last(), name)
    }
}

/// Finds the last line whose currency type name is `name`.
fn find_line<'a>(lines: &'a Vec<Currency>, name: &str) -> (r: Option<&'a Currency>)
    ensures
        match r {
            Option::Some(l) => spec_find_line(lines@, name@) == Option::Some(*l),
            Option::None => spec_find_line(lines@, name@) is None,
        },
{
    let n = lines.len();
    let mut found: Option<usize> = None;
    for i in 0..n
        invariant
            n == lines@.len(),
            match found {
                Option::Some(j) => j < i && spec_find_line(lines@.take(i as int), name@)
                    == Option::Some(lines@[j as int]),
                Option::None => spec_find_line(lines@.take(i as int), name@) is None,
            },
    {
        proof {
            assert(lines@.take(i + 1).drop_last() =~= lines@.take(i as int));
            assert(lines@.take(i + 1).last() == lines@[i as int]);
        }
        if crate::text::str_eq(lines[i].currency_type_name.as_str(), name) {
            found = Some(i);
        }
    }
    proof {
        assert(lines@.take(n as int) =~= lines@);
    }
    match found {
        Some(j) => Some(&lines[j]),
        None => None,
    }
}

/// The derived relative value: the base value divided by the pivot
/// value. A missing pivot (divisor zero or less) and a negative base
/// value both yield zero, a defined result in place of a
/// division-by-zero.
pub open spec fn spec_relative_value(cv: i32, dp: i32) -> i32 {
    if dp <= 0 || cv < 0 {
        0
    } else {
        (cv / dp) as i32
    }
}

/// Decides `spec_relative_value`.
pub fn relative_value(cv: i32, dp: i32) -> (r: i32)
    ensures
        r == spec_relative_value(cv, dp),
{
    if dp <= 0 || cv < 0 {
        0
    } else {
        cv / dp
    }
}

/// The currency a detail record and its matched line merge into: the
/// detail gives the identity, icon and name; the line gives the quote;
/// the relative value is derived from the pivot value.
pub open spec fn spec_merged(l: Currency, d: CurrencyDetail, dp: i32) -> Currency {
    Currency {
        id: if d.trade_id is Some {
            d.trade_id->0
        } else {
            l.details_id
        },
        divine_value: spec_relative_value(l.chaos_value, dp),
        icon: d.icon,
        name: d.name,
        ..l
    }
}

/// The merge of a detail list against the lines: each detail joined to
/// the last line sharing its name; unmatched details are dropped.
pub open spec fn spec_merge_currencies(lines: Seq<Currency>, details: Seq<CurrencyDetail>) -> Seq<
    Currency,
>
    decreases details.len(),
{
    if details.len() == 0 {
        Seq::empty()
    } else {
        let front = spec_merge_currencies(lines, details.drop_last());
        match spec_find_line(lines, details.last().name@) {
            Option::Some(l) => front.push(spec_merged(l, details.last(), spec_divine_price(lines))),
            Option::None => front,
        }
    }
}

/// Joins the detail records onto the quote lines by name: unmatched
/// details are dropped, and each merged record's relative value is its
/// chaos value divided by the pivot record's.
pub fn merge_currencies(lines: Vec<Currency>, details: Vec<CurrencyDetail>) -> (r: Vec<Currency>)
    ensures
        r@ == spec_merge_currencies(lines@, details@),
{
    let ghost dorig = details@;
    let dp = divine_price(&lines);
    let mut details = details;
    let mut out: Vec<Currency> = Vec::new();
    let n = details.len();
    let mut i: usize = 0;
    proof {
        assert(spec_merge_currencies(lines@, dorig.take(0)) =~= Seq::<Currency>::empty());
    }
    while i < n
        invariant
            0 <= i <= n,
            n == dorig.len(),
            details@ =~= dorig.skip(i as int),
            dp == spec_divine_price(lines@),
            out@ == spec_merge_currencies(lines@, dorig.take(i as int)),
        decreases n - i,
    {
        let d = details.remove(0);
        proof {
            assert(d == dorig[i as int]);
            assert(details@ =~= dorig.skip(i + 1));
            assert(dorig.take(i + 1).drop_last() =~= dorig.take(i as int));
            assert(dorig.take(i + 1).last() == dorig[i as int]);
        }
        match find_line(&lines, d.name.as_str()) {
            Some(l) => {
                let line = l.clone();
                let dv = relative_value(line.chaos_value, dp);
                let details_id = line.details_id.clone();
                let merged = Currency {
                    id: match d.trade_id {
                        Some(t) => t,
                        None => details_id.clone(),
                    },
                    divine_value: dv,
                    icon: d.icon,
                    name: d.name,
                    currency_type_name: line.currency_type_name,
                    chaos_value: line.chaos_value,
                    details_id,
                    trade_id: line.trade_id,
                    endpoint: line.endpoint,
                };
                out.push(merged);
            },
            None => {},
        }
        i += 1;
    }
    proof {
        assert(dorig.take(n as int) =~= dorig);
    }
    out
}

/// Evaluates one currency query against a snapshot: apply the filter
/// expression, if any, then order by the key list. A filter with an
/// operand that does not compile is rejected; an unpopulated sort key
/// is excluded by precondition, as the comparison it would define is
/// undefined.
pub fn get_currencies(
    snapshot: Vec<Currency>,
    filter: Option<CurrencyWhere>,
    orders: Vec<CurrencyOrderby>,
) -> (r: Result<Vec<Currency>, FilterError>)
    requires
        forall|i: int| 0 <= i < orders@.len() ==> currency_key_populated(#[trigger] orders@[i]),
    ensures
        r is Ok <==> (filter is Some ==> filter->0.spec_wf()),
        r is Ok ==> r->Ok_0@ == spec_stable_sort(
            if filter is Some {
                spec_eval(filter->0, snapshot@)
            } else {
                snapshot@
            },
            multi_cmp(currency_key_fn(), orders@),
        ),
        r is Err ==> r->Err_0 == FilterError::InvalidRegex,
{
    let mut working = snapshot;
    if let Some(f) = &filter {
        match f.filter_checked(working) {
            Ok(v) => {
                working = v;
            },
            Err(e) => {
                return Err(e);
            },
        }
    }
    CurrencyOrderby::orderby(&mut working, orders);
    Ok(working)
}

} // verus!
