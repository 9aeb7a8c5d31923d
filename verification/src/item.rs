//! The item aggregation pipeline and query entry: merge the upstream
//! pages, tag relic variants in the display name, then filter and
//! order on request.

use vstd::prelude::*;
use vstd::string::StringExecFns;

use crate::filters::{spec_eval, FilterError, WhereInput};
use crate::ninja_item::{
    item_key_fn, item_key_populated, Item, ItemOrderby, ItemRaw, ItemWhere,
};
use crate::orderby::{multi_cmp, spec_stable_sort, OrderbyInput};
use crate::text::{has_suffix, spec_ends_with};

verus! {

/// Tags every line with the upstream partition it came from; nothing
/// else changes.
pub fn tag_endpoint(lines: &mut Vec<Item>, endpoint: crate::ninja_item::ItemEndpoint)
    ensures
        final(lines)@.len() == old(lines)@.len(),
        forall|i: int|
            0 <= i < old(lines)@.len() ==> final(lines)@[i] == (Item {
                endpoint,
                ..old(lines)@[i]
            }),
{
    let ghost orig = old(lines)@;
    let n = lines.len();
    let mut out: Vec<Item> = Vec::new();
    let mut i: usize = 0;
    while i < n
        invariant
            0 <= i <= n,
            n == orig.len(),
            lines@ =~= orig.skip(i as int),
            out@.len() == i,
            forall|j: int| 0 <= j < i ==> out@[j] == (Item { endpoint, ..orig[j] }),
        decreases n - i,
    {
        let mut x = lines.remove(0);
        proof {
            assert(x == orig[i as int]);
            assert(lines@ =~= orig.skip(i + 1));
        }
        x.endpoint = endpoint;
        out.push(x);
        i += 1;
    }
    *lines = out;
}

/// The quote lines of a page list, concatenated in page order.
pub open spec fn spec_concat_items(pages: Seq<ItemRaw>) -> Seq<Item>
    decreases pages.len(),
{
    if pages.len() == 0 {
        Seq::empty()
    } else {
        spec_concat_items(pages.drop_last()) + pages.last().lines@
    }
}

/// Merges the fetched pages into one by concatenation, in page order.
pub fn merge_item_pages(pages: Vec<ItemRaw>) -> (r: ItemRaw)
    ensures
        r.lines@ == spec_concat_items(pages@),
{
    let ghost orig = pages@;
    let mut pages = pages;
    let mut acc: Vec<Item> = Vec::new();
    let n = pages.len();
    let mut i: usize = 0;
    proof {
        assert(spec_concat_items(orig.take(0)) =~= Seq::<Item>::empty());
    }
    while i < n
        invariant
            0 <= i <= n,
            n == orig.len(),
            pages@ =~= orig.skip(i as int),
            acc@ == spec_concat_items(orig.take(i as int)),
        decreases n - i,
    {
        let mut page = pages.remove(0);
        proof {
            assert(page == orig[i as int]);
            assert(pages@ =~= orig.skip(i + 1));
            assert(orig.take(i + 1).drop_last() =~= orig.take(i as int));
            assert(orig.take(i + 1).last() == orig[i as int]);
        }
        acc.append(&mut page.lines);
        i += 1;
    }
    proof {
        assert(orig.take(n as int) =~= orig);
    }
    ItemRaw { lines: acc }
}

/// An item is a relic variant when its details id carries the relic
/// suffix.
pub open spec fn spec_is_relic(it: Item) -> bool {
    spec_ends_with(it.details_id@, "-relic"@)
}

/// How one item leaves the relic pass: a relic variant gets the relic
/// marker appended to its name; anything else is unchanged.
pub open spec fn spec_relic_named(before: Item, after: Item) -> bool {
    if spec_is_relic(before) {
        &&& after.name@ == before.name@ + " (Relic)"@
        &&& after == (Item { name: after.name, ..before })
    } else {
        after == before
    }
}

/// Appends the relic marker to the display name of every relic
/// variant, so two editions of one unique item read apart.
pub fn mark_relic_names(items: &mut Vec<Item>)
    ensures
        final(items)@.len() == old(items)@.len(),
        forall|i: int|
            0 <= i < old(items)@.len() ==> spec_relic_named(old(items)@[i], final(items)@[i]),
{
    let ghost orig = old(items)@;
    let n = items.len();
    let mut out: Vec<Item> = Vec::new();
    let mut i: usize = 0;
    while i < n
        invariant
            0 <= i <= n,
            n == orig.len(),
            items@ =~= orig.skip(i as int),
            out@.len() == i,
            forall|j: int| 0 <= j < i ==> spec_relic_named(orig[j], #[trigger] out@[j]),
        decreases n - i,
    {
        let mut x = items.remove(0);
        proof {
            assert(x == orig[i as int]);
            assert(items@ =~= orig.skip(i + 1));
        }
        if has_suffix(x.details_id.as_str(), "-relic") {
            let renamed = x.name.concat(" (Relic)");
            x.name = renamed;
        }
        out.push(x);
        i += 1;
    }
    *items = out;
}

/// Evaluates one item query against a snapshot: apply the filter
/// expression, if any, then order by the key list. A filter with an
/// operand that does not compile is rejected; an unpopulated sort key
/// is excluded by precondition, as the comparison it would define is
/// undefined.
pub fn get_items(snapshot: Vec<Item>, filter: Option<ItemWhere>, orders: Vec<ItemOrderby>) -> (r:
    Result<Vec<Item>, FilterError>)
    requires
        forall|i: int| 0 <= i < orders@.len() ==> item_key_populated(#[trigger] orders@[i]),
    ensures
        r is Ok <==> (filter is Some ==> filter->0.spec_wf()),
        r is Ok ==> r->Ok_0@ == spec_stable_sort(
            if filter is Some {
                spec_eval(filter->0, snapshot@)
            } else {
                snapshot@
            },
            multi_cmp(item_key_fn(), orders@),
        ),
        r is Err ==> r->Err_0 == FilterError::InvalidRegex,
{
    let mut working = snapshot;
    if let Some(f) = &filter {
        match f.filter_checked(working) {
            Ok(v) => {
                working = v;
            },
            Err(e) => {
                return Err(e);
            },
        }
    }
    ItemOrderby::orderby(&mut working, orders);
    Ok(working)
}

} // verus!
