//! The item record shape: one line per tradable item, its modifier
//! lists, and the endpoint tag saying which upstream partition it came
//! from.
//!
//! The upstream API reports values as floating-point chaos equivalents;
//! the engine works on them as scaled integers, converted at the
//! application boundary. An item's identity key is its numeric id.

use vstd::prelude::*;

use crate::filters::{BooleanFilter, IntFilter, ItemEndpointFilter, ModifierFilter, StringFilter, FilterInput, WhereFields, WhereNode};
use crate::orderby::{cmp_ok, flip_ord, key_fn_of, lemma_sort_sorted, sorted_under, lemma_insert_at, lemma_multi_cmp_flipped, lemma_multi_cmp_ok, lemma_sort_reversed, multi_cmp, spec_directed, spec_i32_cmp, spec_insert, spec_multi_cmp, spec_opt_i32_cmp, spec_opt_str_cmp, spec_stable_sort, directed, i32_cmp, opt_i32_cmp, opt_str_cmp, Orderby, OrderbyInput};
use crate::record::Record;
use crate::text::{lemma_str_cmp_eq, lemma_str_cmp_flip, lemma_str_cmp_trans, spec_str_cmp, str_cmp};
use crate::ninja_currency::dup_opt_string;

verus! {

/// Which upstream item partition a line belongs to.
#[derive(Debug, Clone, Copy, PartialEq, Eq, Structural)]
pub enum ItemEndpoint {
    Tattoo,
    Omen,
    DivinationCard,
    Artifact,
    Oil,
    Incubator,
    UniqueWeapon,
    UniqueArmour,
    UniqueAccessory,
    UniqueFlask,
    UniqueJewel,
    UniqueRelic,
    SkillGem,
    ClusterJewel,
    AtlasMap,
    BlightedMap,
    BlightRavagedMap,
    ScourgedMap,
    UniqueMap,
    DeliriumOrb,
    Invitation,
    Scarab,
    Memory,
    BaseType,
    Fossil,
    Resonator,
    HelmetEnchant,
    Beast,
    Essence,
    Vial,
}

impl ItemEndpoint {
    /// The endpoint name as the upstream API spells it.
    pub open spec fn spec_str(&self) -> Seq<char> {
        match self {
            ItemEndpoint::Tattoo => "Tattoo"@,
            ItemEndpoint::Omen => "Omen"@,
            ItemEndpoint::DivinationCard => "DivinationCard"@,
            ItemEndpoint::Artifact => "Artifact"@,
            ItemEndpoint::Oil => "Oil"@,
            ItemEndpoint::Incubator => "Incubator"@,
            ItemEndpoint::UniqueWeapon => "UniqueWeapon"@,
            ItemEndpoint::UniqueArmour => "UniqueArmour"@,
            ItemEndpoint::UniqueAccessory => "UniqueAccessory"@,
            ItemEndpoint::UniqueFlask => "UniqueFlask"@,
            ItemEndpoint::UniqueJewel => "UniqueJewel"@,
            ItemEndpoint::UniqueRelic => "UniqueRelic"@,
            ItemEndpoint::SkillGem => "SkillGem"@,
            ItemEndpoint::ClusterJewel => "ClusterJewel"@,
            ItemEndpoint::AtlasMap => "Map"@,
            ItemEndpoint::BlightedMap => "BlightedMap"@,
            ItemEndpoint::BlightRavagedMap => "BlightRavagedMap"@,
            ItemEndpoint::ScourgedMap => "ScourgedMap"@,
            ItemEndpoint::UniqueMap => "UniqueMap"@,
            ItemEndpoint::DeliriumOrb => "DeliriumOrb"@,
            ItemEndpoint::Invitation => "Invitation"@,
            ItemEndpoint::Scarab => "Scarab"@,
            ItemEndpoint::Memory => "Memory"@,
            ItemEndpoint::BaseType => "BaseType"@,
            ItemEndpoint::Fossil => "Fossil"@,
            ItemEndpoint::Resonator => "Resonator"@,
            ItemEndpoint::HelmetEnchant => "HelmetEnchant"@,
            ItemEndpoint::Beast => "Beast"@,
            ItemEndpoint::Essence => "Essence"@,
            ItemEndpoint::Vial => "Vial"@,
        }
    }

    /// The endpoint name as the upstream API spells it.
    pub fn to_string(&self) -> (r: String)
        ensures
            r@ == self.spec_str(),
    {
        match self {
            ItemEndpoint::Tattoo => "Tattoo",
            ItemEndpoint::Omen => "Omen",
            ItemEndpoint::DivinationCard => "DivinationCard",
            ItemEndpoint::Artifact => "Artifact",
            ItemEndpoint::Oil => "Oil",
            ItemEndpoint::Incubator => "Incubator",
            ItemEndpoint::UniqueWeapon => "UniqueWeapon",
            ItemEndpoint::UniqueArmour => "UniqueArmour",
            ItemEndpoint::UniqueAccessory => "UniqueAccessory",
            ItemEndpoint::UniqueFlask => "UniqueFlask",
            ItemEndpoint::UniqueJewel => "UniqueJewel",
            ItemEndpoint::UniqueRelic => "UniqueRelic",
            ItemEndpoint::SkillGem => "SkillGem",
            ItemEndpoint::ClusterJewel => "ClusterJewel",
            ItemEndpoint::AtlasMap => "Map",
            ItemEndpoint::BlightedMap => "BlightedMap",
            ItemEndpoint::BlightRavagedMap => "BlightRavagedMap",
            ItemEndpoint::ScourgedMap => "ScourgedMap",
            ItemEndpoint::UniqueMap => "UniqueMap",
            ItemEndpoint::DeliriumOrb => "DeliriumOrb",
            ItemEndpoint::Invitation => "Invitation",
            ItemEndpoint::Scarab => "Scarab",
            ItemEndpoint::Memory => "Memory",
            ItemEndpoint::BaseType => "BaseType",
            ItemEndpoint::Fossil => "Fossil",
            ItemEndpoint::Resonator => "Resonator",
            ItemEndpoint::HelmetEnchant => "HelmetEnchant",
            ItemEndpoint::Beast => "Beast",
            ItemEndpoint::Essence => "Essence",
            ItemEndpoint::Vial => "Vial",
        }.to_owned()
    }
}

impl Default for ItemEndpoint {
    fn default() -> (r: Self)
        ensures
            r == ItemEndpoint::UniqueAccessory,
    {
        ItemEndpoint::UniqueAccessory
    }
}

/// One modifier line on an item.
#[derive(Debug)]
pub struct Modifier {
    pub text: String,
    pub optional: bool,
}

impl Clone for Modifier {
    fn clone(&self) -> (r: Self)
        ensures
            r == *self,
    {
        Modifier { text: self.text.clone(), optional: self.optional }
    }
}

/// One tradable-item quote line.
#[derive(Debug)]
#[verifier::ext_equal]
pub struct Item {
    pub id: i32,
    pub name: String,
    pub icon: Option<String>,
    pub level_required: Option<i32>,
    pub base_type: Option<String>,
    pub links: Option<i32>,
    pub item_class: i32,
    pub gem_level: Option<i32>,
    pub gem_quality: Option<i32>,
    pub implicit_modifiers: Vec<Modifier>,
    pub explicit_modifiers: Vec<Modifier>,
    pub flavour_text: Option<String>,
    pub item_type: Option<String>,
    /// Value in chaos units, scaled to an integer.
    pub chaos_value: i32,
    /// Derived: `chaos_value` divided by the pivot record's value.
    pub divine_value: i32,
    pub count: i32,
    pub details_id: String,
    pub listing_count: i32,
    pub variant: Option<String>,
    pub corrupted: bool,
    pub endpoint: ItemEndpoint,
}

impl Record for Item {
    type Key = int;

    /// An item's identity is its numeric id.
    open spec fn spec_key(&self) -> int {
        self.id as int
    }

    fn key_eq(&self, other: &Self) -> (r: bool) {
        self.id == other.id
    }
}

/// One upstream item page.
#[derive(Debug)]
#[verifier::ext_equal]
pub struct ItemRaw {
    pub lines: Vec<Item>,
}

impl Default for ItemRaw {
    fn default() -> (r: Self)
        ensures
            r.lines@ == Seq::<Item>::empty(),
    {
        ItemRaw { lines: Vec::new() }
    }
}

/// Whether some modifier in the list passes the filter: a predicate on
/// a collection-valued field passes when any element satisfies it.
pub open spec fn spec_any_modifier(f: ModifierFilter, v: Seq<Modifier>) -> bool {
    exists|i: int| 0 <= i < v.len() && f.spec_matches(#[trigger] v[i])
}

/// Decides `spec_any_modifier`.
fn any_modifier_matches(f: &ModifierFilter, v: &Vec<Modifier>) -> (r: bool)
    requires
        f.spec_wf(),
    ensures
        r == spec_any_modifier(*f, v@),
{
    let n = v.len();
    for i in 0..n
        invariant
            n == v@.len(),
            f.spec_wf(),
            forall|j: int| 0 <= j < i ==> !f.spec_matches(#[trigger] v@[j]),
    {
        if f.filter_fn(v[i].clone()) {
            return true;
        }
    }
    false
}

/// The filterable field bindings of one item filter node. A binding on
/// an optional field only constrains records where the value is
/// present; a binding on a modifier list passes when any element
/// satisfies it.
#[derive(Debug)]
pub struct ItemBindings {
    pub name: Option<StringFilter>,
    pub level_required: Option<IntFilter>,
    pub base_type: Option<StringFilter>,
    pub links: Option<IntFilter>,
    pub gem_level: Option<IntFilter>,
    pub gem_quality: Option<IntFilter>,
    pub implicit_modifiers: Option<ModifierFilter>,
    pub explicit_modifiers: Option<ModifierFilter>,
    pub item_type: Option<StringFilter>,
    pub chaos_value: Option<IntFilter>,
    pub divine_value: Option<IntFilter>,
    pub variant: Option<StringFilter>,
    pub corrupted: Option<BooleanFilter>,
    pub endpoint: Option<ItemEndpointFilter>,
}

impl WhereFields for ItemBindings {
    type Record = Item;

    open spec fn spec_wf(&self) -> bool {
        &&& (self.name is Some ==> self.name->0.spec_wf())
        &&& (self.base_type is Some ==> self.base_type->0.spec_wf())
        &&& (self.implicit_modifiers is Some ==> self.implicit_modifiers->0.spec_wf())
        &&& (self.explicit_modifiers is Some ==> self.explicit_modifiers->0.spec_wf())
        &&& (self.item_type is Some ==> self.item_type->0.spec_wf())
        &&& (self.variant is Some ==> self.variant->0.spec_wf())
    }

    open spec fn spec_matches(&self, r: Item) -> bool {
        &&& (self.name is Some ==> self.name->0.spec_matches_chars(r.name@))
        &&& (self.level_required is Some && r.level_required is Some
            ==> self.level_required->0.spec_matches(r.level_required->0))
        &&& (self.base_type is Some && r.base_type is Some
            ==> self.base_type->0.spec_matches_chars(r.base_type->0@))
        &&& (self.links is Some && r.links is Some ==> self.links->0.spec_matches(r.links->0))
        &&& (self.gem_level is Some && r.gem_level is Some ==> self.gem_level->0.spec_matches(
            r.gem_level->0,
        ))
        &&& (self.gem_quality is Some && r.gem_quality is Some
            ==> self.gem_quality->0.spec_matches(r.gem_quality->0))
        &&& (self.implicit_modifiers is Some ==> spec_any_modifier(
            self.implicit_modifiers->0,
            r.implicit_modifiers@,
        ))
        &&& (self.explicit_modifiers is Some ==> spec_any_modifier(
            self.explicit_modifiers->0,
            r.explicit_modifiers@,
        ))
        &&& (self.item_type is Some && r.item_type is Some
            ==> self.item_type->0.spec_matches_chars(r.item_type->0@))
        &&& (self.chaos_value is Some ==> self.chaos_value->0.spec_matches(r.chaos_value))
        &&& (self.divine_value is Some ==> self.divine_value->0.spec_matches(r.divine_value))
        &&& (self.variant is Some && r.variant is Some ==> self.variant->0.spec_matches_chars(
            r.variant->0@,
        ))
        &&& (self.corrupted is Some ==> self.corrupted->0.spec_matches(r.corrupted))
        &&& (self.endpoint is Some ==> self.endpoint->0.spec_matches(r.endpoint))
    }

    fn check_wf(&self) -> (b: bool) {
        if let Some(f) = &self.name {
            if !f.check_wf() {
                return false;
            }
        }
        if let Some(f) = &self.base_type {
            if !f.check_wf() {
                return false;
            }
        }
        if let Some(f) = &self.implicit_modifiers {
            if !f.check_wf() {
                return false;
            }
        }
        if let Some(f) = &self.explicit_modifiers {
            if !f.check_wf() {
                return false;
            }
        }
        if let Some(f) = &self.item_type {
            if !f.check_wf() {
                return false;
            }
        }
        if let Some(f) = &self.variant {
            if !f.check_wf() {
                return false;
            }
        }
        true
    }

    fn matches(&self, r: &Item) -> (b: bool) {
        if let Some(f) = &self.name {
            if !f.filter_fn(r.name.clone()) {
                return false;
            }
        }
        if let Some(f) = &self.level_required {
            if let Some(v) = r.level_required {
                if !f.filter_fn(v) {
                    return false;
                }
            }
        }
        if let Some(f) = &self.base_type {
            if let Some(v) = &r.base_type {
                if !f.filter_fn(v.clone()) {
                    return false;
                }
            }
        }
        if let Some(f) = &self.links {
            if let Some(v) = r.links {
                if !f.filter_fn(v) {
                    return false;
                }
            }
        }
        if let Some(f) = &self.gem_level {
            if let Some(v) = r.gem_level {
                if !f.filter_fn(v) {
                    return false;
                }
            }
        }
        if let Some(f) = &self.gem_quality {
            if let Some(v) = r.gem_quality {
                if !f.filter_fn(v) {
                    return false;
                }
            }
        }
        if let Some(f) = &self.implicit_modifiers {
            if !any_modifier_matches(f, &r.implicit_modifiers) {
                return false;
            }
        }
        if let Some(f) = &self.explicit_modifiers {
            if !any_modifier_matches(f, &r.explicit_modifiers) {
                return false;
            }
        }
        if let Some(f) = &self.item_type {
            if let Some(v) = &r.item_type {
                if !f.filter_fn(v.clone()) {
                    return false;
                }
            }
        }
        if let Some(f) = &self.chaos_value {
            if !f.filter_fn(r.chaos_value) {
                return false;
            }
        }
        if let Some(f) = &self.divine_value {
            if !f.filter_fn(r.divine_value) {
                return false;
            }
        }
        if let Some(f) = &self.variant {
            if let Some(v) = &r.variant {
                if !f.filter_fn(v.clone()) {
                    return false;
                }
            }
        }
        if let Some(f) = &self.corrupted {
            if !f.filter_fn(r.corrupted) {
                return false;
            }
        }
        if let Some(f) = &self.endpoint {
            if !f.filter_fn(r.endpoint) {
                return false;
            }
        }
        true
    }
}

impl Default for ItemBindings {
    /// The empty bindings: no field constrained.
    fn default() -> (r: Self)
        ensures
            r == (ItemBindings {
                name: None,
                level_required: None,
                base_type: None,
                links: None,
                gem_level: None,
                gem_quality: None,
                implicit_modifiers: None,
                explicit_modifiers: None,
                item_type: None,
                chaos_value: None,
                divine_value: None,
                variant: None,
                corrupted: None,
                endpoint: None,
            }),
    {
        ItemBindings {
            name: None,
            level_required: None,
            base_type: None,
            links: None,
            gem_level: None,
            gem_quality: None,
            implicit_modifiers: None,
            explicit_modifiers: None,
            item_type: None,
            chaos_value: None,
            divine_value: None,
            variant: None,
            corrupted: None,
            endpoint: None,
        }
    }
}

/// The filter expression tree over items.
pub type ItemWhere = WhereNode<ItemBindings>;

/// One sort key over items: exactly one populated field names the
/// sorted field; its value gives the direction.
#[derive(Debug, Clone, Copy)]
pub struct ItemOrderby {
    pub name: Option<Orderby>,
    pub level_required: Option<Orderby>,
    pub base_type: Option<Orderby>,
    pub links: Option<Orderby>,
    pub item_type: Option<Orderby>,
    pub chaos_value: Option<Orderby>,
    pub divine_value: Option<Orderby>,
    pub variant: Option<Orderby>,
}

impl ItemOrderby {
    /// The default sort key: ascending by name.
    pub open spec fn spec_default_name_asc() -> Self {
        ItemOrderby {
            name: Some(Orderby::Asc),
            level_required: None,
            base_type: None,
            links: None,
            item_type: None,
            chaos_value: None,
            divine_value: None,
            variant: None,
        }
    }

    /// A sort key on the name field.
    pub fn name(dir: Orderby) -> (r: Self)
        ensures
            r == (ItemOrderby {
                name: Some(dir),
                level_required: None,
                base_type: None,
                links: None,
                item_type: None,
                chaos_value: None,
                divine_value: None,
                variant: None,
            }),
    {
        ItemOrderby {
            name: Some(dir),
            level_required: None,
            base_type: None,
            links: None,
            item_type: None,
            chaos_value: None,
            divine_value: None,
            variant: None,
        }
    }
}

impl Default for ItemOrderby {
    /// The empty sort key: no field named.
    fn default() -> (r: Self)
        ensures
            r == (ItemOrderby {
                name: None,
                level_required: None,
                base_type: None,
                links: None,
                item_type: None,
                chaos_value: None,
                divine_value: None,
                variant: None,
            }),
    {
        ItemOrderby {
            name: None,
            level_required: None,
            base_type: None,
            links: None,
            item_type: None,
            chaos_value: None,
            divine_value: None,
            variant: None,
        }
    }
}

/// An item sort key names a field to sort by.
pub open spec fn item_key_populated(o: ItemOrderby) -> bool {
    ||| o.name is Some
    ||| o.level_required is Some
    ||| o.base_type is Some
    ||| o.links is Some
    ||| o.item_type is Some
    ||| o.chaos_value is Some
    ||| o.divine_value is Some
    ||| o.variant is Some
}

/// The comparison one item sort key defines: the first populated
/// field, in declaration order, decides it. Absent optional values
/// sort before present ones.
pub open spec fn item_cmp_key(o: ItemOrderby, a: Item, b: Item) -> core::cmp::Ordering {
    if o.name is Some {
        spec_directed(o.name->0, spec_str_cmp(a.name@, b.name@))
    } else if o.level_required is Some {
        spec_directed(o.level_required->0, spec_opt_i32_cmp(a.level_required, b.level_required))
    } else if o.base_type is Some {
        spec_directed(o.base_type->0, spec_opt_str_cmp(a.base_type, b.base_type))
    } else if o.links is Some {
        spec_directed(o.links->0, spec_opt_i32_cmp(a.links, b.links))
    } else if o.item_type is Some {
        spec_directed(o.item_type->0, spec_opt_str_cmp(a.item_type, b.item_type))
    } else if o.chaos_value is Some {
        spec_directed(o.chaos_value->0, spec_i32_cmp(a.chaos_value, b.chaos_value))
    } else if o.divine_value is Some {
        spec_directed(o.divine_value->0, spec_i32_cmp(a.divine_value, b.divine_value))
    } else {
        spec_directed(o.variant->0, spec_opt_str_cmp(a.variant, b.variant))
    }
}

/// `item_cmp_key` as a function value.
pub open spec fn item_key_fn() -> spec_fn(ItemOrderby, Item, Item) -> core::cmp::Ordering {
    |o: ItemOrderby, a: Item, b: Item| item_cmp_key(o, a, b)
}

/// Decides `item_cmp_key`.
fn item_cmp_exec(o: &ItemOrderby, a: &Item, b: &Item) -> (r: core::cmp::Ordering)
    requires
        item_key_populated(*o),
    ensures
        r == item_cmp_key(*o, *a, *b),
{
    if let Some(d) = o.name {
        directed(d, str_cmp(a.name.as_str(), b.name.as_str()))
    } else if let Some(d) = o.level_required {
        directed(d, opt_i32_cmp(&a.level_required, &b.level_required))
    } else if let Some(d) = o.base_type {
        directed(d, opt_str_cmp(&a.base_type, &b.base_type))
    } else if let Some(d) = o.links {
        directed(d, opt_i32_cmp(&a.links, &b.links))
    } else if let Some(d) = o.item_type {
        directed(d, opt_str_cmp(&a.item_type, &b.item_type))
    } else if let Some(d) = o.chaos_value {
        directed(d, i32_cmp(a.chaos_value, b.chaos_value))
    } else if let Some(d) = o.divine_value {
        directed(d, i32_cmp(a.divine_value, b.divine_value))
    } else {
        let d = o.variant.unwrap();
        directed(d, opt_str_cmp(&a.variant, &b.variant))
    }
}

/// The same item sort key with its direction flipped.
pub open spec fn item_key_reversed(o: ItemOrderby) -> ItemOrderby {
    ItemOrderby {
        name: match o.name {
            Option::Some(d) => Option::Some(crate::orderby::flip_dir(d)),
            Option::None => Option::None,
        },
        level_required: match o.level_required {
            Option::Some(d) => Option::Some(crate::orderby::flip_dir(d)),
            Option::None => Option::None,
        },
        base_type: match o.base_type {
            Option::Some(d) => Option::Some(crate::orderby::flip_dir(d)),
            Option::None => Option::None,
        },
        links: match o.links {
            Option::Some(d) => Option::Some(crate::orderby::flip_dir(d)),
            Option::None => Option::None,
        },
        item_type: match o.item_type {
            Option::Some(d) => Option::Some(crate::orderby::flip_dir(d)),
            Option::None => Option::None,
        },
        chaos_value: match o.chaos_value {
            Option::Some(d) => Option::Some(crate::orderby::flip_dir(d)),
            Option::None => Option::None,
        },
        divine_value: match o.divine_value {
            Option::Some(d) => Option::Some(crate::orderby::flip_dir(d)),
            Option::None => Option::None,
        },
        variant: match o.variant {
            Option::Some(d) => Option::Some(crate::orderby::flip_dir(d)),
            Option::None => Option::None,
        },
    }
}

/// Flipping an item sort key's direction flips the comparison it
/// defines.
pub proof fn lemma_item_key_reversed(o: ItemOrderby, a: Item, b: Item)
    requires
        item_key_populated(o),
    ensures
        item_cmp_key(item_key_reversed(o), a, b) == crate::orderby::flip_ord(
            item_cmp_key(o, a, b),
        ),
{
}

impl OrderbyInput for ItemOrderby {
    type Output = Item;

    open spec fn spec_populated(&self) -> bool {
        item_key_populated(*self)
    }

    /// The first populated field, in declaration order, decides the
    /// comparison.
    open spec fn spec_cmp(&self, a: Item, b: Item) -> core::cmp::Ordering {
        item_cmp_key(*self, a, b)
    }

    open spec fn spec_sort(orders: Seq<Self>, s: Seq<Item>) -> Seq<Item> {
        spec_stable_sort(s, multi_cmp(item_key_fn(), orders))
    }

    fn cmp_orderby(&self, a: &Item, b: &Item) -> (r: core::cmp::Ordering) {
        item_cmp_exec(self, a, b)
    }

    fn orderby(arr: &mut Vec<Item>, orders: Vec<Self>) {
        item_sort(arr, &orders);
    }
}

/// Decides the multi-key comparison of two items.
fn item_multi_cmp(orders: &Vec<ItemOrderby>, a: &Item, b: &Item) -> (r: core::cmp::Ordering)
    requires
        forall|i: int| 0 <= i < orders@.len() ==> item_key_populated(#[trigger] orders@[i]),
    ensures
        r == spec_multi_cmp(item_key_fn(), orders@, *a, *b),
{
    let n = orders.len();
    proof {
        assert(orders@.skip(0) =~= orders@);
    }
    for i in 0..n
        invariant
            n == orders@.len(),
            forall|t: int| 0 <= t < orders@.len() ==> item_key_populated(#[trigger] orders@[t]),
            spec_multi_cmp(item_key_fn(), orders@, *a, *b) == spec_multi_cmp(
                item_key_fn(),
                orders@.skip(i as int),
                *a,
                *b,
            ),
    {
        let c = item_cmp_exec(&orders[i], a, b);
        proof {
            assert(orders@.skip(i as int)[0] == orders@[i as int]);
            assert(orders@.skip(i as int).drop_first() =~= orders@.skip(i + 1));
            assert(item_key_fn()(orders@[i as int], *a, *b) == item_cmp_key(
                orders@[i as int],
                *a,
                *b,
            ));
        }
        match c {
            core::cmp::Ordering::Equal => {},
            _ => {
                return c;
            },
        }
    }
    proof {
        assert(orders@.skip(n as int).len() == 0);
    }
    core::cmp::Ordering::Equal
}

/// Inserts one item before the first one comparing greater.
fn item_insert(out: &mut Vec<Item>, x: Item, orders: &Vec<ItemOrderby>)
    requires
        forall|i: int| 0 <= i < orders@.len() ==> item_key_populated(#[trigger] orders@[i]),
    ensures
        final(out)@ == spec_insert(old(out)@, x, multi_cmp(item_key_fn(), orders@)),
{
    let n = out.len();
    let mut j: usize = 0;
    let ghost c = multi_cmp(item_key_fn(), orders@);
    loop
        invariant
            0 <= j <= n,
            n == out@.len(),
            out@ == old(out)@,
            c == multi_cmp(item_key_fn(), orders@),
            forall|i: int| 0 <= i < orders@.len() ==> item_key_populated(#[trigger] orders@[i]),
            forall|t: int| 0 <= t < j ==> c(#[trigger] out@[t], x) != core::cmp::Ordering::Greater,
        ensures
            0 <= j <= n,
            out@ == old(out)@,
            forall|t: int| 0 <= t < j ==> c(#[trigger] out@[t], x) != core::cmp::Ordering::Greater,
            j < n ==> c(out@[j as int], x) == core::cmp::Ordering::Greater,
        decreases n - j,
    {
        if j >= n {
            break ;
        }
        let o = item_multi_cmp(orders, &out[j], &x);
        proof {
            assert(c(out@[j as int], x) == spec_multi_cmp(item_key_fn(), orders@, out@[j as int], x));
        }
        match o {
            core::cmp::Ordering::Greater => {
                break ;
            },
            _ => {},
        }
        j += 1;
    }
    proof {
        lemma_insert_at(out@, x, c, j as int);
    }
    out.insert(j, x);
    proof {
        assert(final(out)@ =~= old(out)@.take(j as int) + seq![x] + old(out)@.skip(j as int));
    }
}

/// Sorts items in place by the ordered key list, stably.
fn item_sort(arr: &mut Vec<Item>, orders: &Vec<ItemOrderby>)
    requires
        forall|i: int| 0 <= i < orders@.len() ==> item_key_populated(#[trigger] orders@[i]),
    ensures
        final(arr)@ == spec_stable_sort(old(arr)@, multi_cmp(item_key_fn(), orders@)),
{
    let ghost orig = old(arr)@;
    let ghost c = multi_cmp(item_key_fn(), orders@);
    let n = arr.len();
    let mut out: Vec<Item> = Vec::new();
    let mut i: usize = 0;
    proof {
        assert(spec_stable_sort(orig.take(0), c) =~= Seq::<Item>::empty());
    }
    while i < n
        invariant
            0 <= i <= n,
            n == orig.len(),
            c == multi_cmp(item_key_fn(), orders@),
            forall|t: int| 0 <= t < orders@.len() ==> item_key_populated(#[trigger] orders@[t]),
            arr@ =~= orig.skip(i as int),
            out@ == spec_stable_sort(orig.take(i as int), c),
        decreases n - i,
    {
        let x = arr.remove(0);
        proof {
            assert(x == orig[i as int]);
            assert(arr@ =~= orig.skip(i + 1));
            assert(orig.take(i + 1).drop_last() =~= orig.take(i as int));
            assert(orig.take(i + 1).last() == orig[i as int]);
        }
        item_insert(&mut out, x, orders);
        i += 1;
    }
    proof {
        assert(orig.take(n as int) =~= orig);
    }
    *arr = out;
}

/// The string comparison facts the optional-string key cases need: the
/// comparison flips with its arguments, strictly-greater is
/// transitive, and equal means equal.
proof fn lemma_opt_str_facts(a: Option<String>, b: Option<String>, d: Option<String>)
    ensures
        spec_opt_str_cmp(a, b) == flip_ord(spec_opt_str_cmp(b, a)),
        spec_opt_str_cmp(a, b) == core::cmp::Ordering::Greater && spec_opt_str_cmp(b, d)
            == core::cmp::Ordering::Greater ==> spec_opt_str_cmp(a, d)
            == core::cmp::Ordering::Greater,
        spec_opt_str_cmp(a, b) == core::cmp::Ordering::Equal ==> forall|x: Option<String>|
            #[trigger] spec_opt_str_cmp(a, x) == spec_opt_str_cmp(b, x),
{
    if a is Some && b is Some {
        lemma_str_cmp_flip(a->0@, b->0@);
        lemma_str_cmp_eq(a->0@, b->0@);
    }
    if a is Some && b is Some && d is Some {
        if spec_str_cmp(a->0@, b->0@) == core::cmp::Ordering::Greater && spec_str_cmp(
            b->0@,
            d->0@,
        ) == core::cmp::Ordering::Greater {
            lemma_str_cmp_trans(a->0@, b->0@, d->0@);
        }
    }
    if spec_opt_str_cmp(a, b) == core::cmp::Ordering::Equal {
        assert forall|x: Option<String>| #[trigger] spec_opt_str_cmp(a, x) == spec_opt_str_cmp(
            b,
            x,
        ) by {
            if a is Some && b is Some {
                assert(a->0@ == b->0@);
            }
        }
    }
}

/// Every populated item sort key defines a well-behaved comparison.
#[verifier::rlimit(60)]
pub proof fn lemma_item_key_cmp_ok(o: ItemOrderby)
    requires
        item_key_populated(o),
    ensures
        cmp_ok(key_fn_of(item_key_fn(), o)),
{
    let c = key_fn_of(item_key_fn(), o);
    let name_case = o.name is Some;
    assert forall|a: Item, b: Item| #[trigger] c(a, b) == flip_ord(c(b, a)) by {
        assert(c(a, b) == item_cmp_key(o, a, b));
        assert(c(b, a) == item_cmp_key(o, b, a));
        if name_case {
            lemma_str_cmp_flip(a.name@, b.name@);
        } else {
            lemma_opt_str_facts(a.base_type, b.base_type, b.base_type);
            lemma_opt_str_facts(a.item_type, b.item_type, b.item_type);
            lemma_opt_str_facts(a.variant, b.variant, b.variant);
        }
    }
    assert forall|a: Item, b: Item, d: Item|
        #[trigger] c(a, b) == core::cmp::Ordering::Greater && #[trigger] c(b, d)
            == core::cmp::Ordering::Greater implies c(a, d) == core::cmp::Ordering::Greater by {
        assert(c(a, b) == item_cmp_key(o, a, b));
        assert(c(b, d) == item_cmp_key(o, b, d));
        assert(c(a, d) == item_cmp_key(o, a, d));
        if name_case {
            lemma_str_cmp_flip(a.name@, b.name@);
            lemma_str_cmp_flip(b.name@, d.name@);
            lemma_str_cmp_flip(a.name@, d.name@);
            if spec_str_cmp(a.name@, b.name@) == core::cmp::Ordering::Greater && spec_str_cmp(
                b.name@,
                d.name@,
            ) == core::cmp::Ordering::Greater {
                lemma_str_cmp_trans(a.name@, b.name@, d.name@);
            }
            if spec_str_cmp(d.name@, b.name@) == core::cmp::Ordering::Greater && spec_str_cmp(
                b.name@,
                a.name@,
            ) == core::cmp::Ordering::Greater {
                lemma_str_cmp_trans(d.name@, b.name@, a.name@);
            }
        } else {
            lemma_opt_str_facts(a.base_type, b.base_type, d.base_type);
            lemma_opt_str_facts(b.base_type, a.base_type, d.base_type);
            lemma_opt_str_facts(d.base_type, b.base_type, a.base_type);
            lemma_opt_str_facts(b.base_type, d.base_type, a.base_type);
            lemma_opt_str_facts(a.item_type, b.item_type, d.item_type);
            lemma_opt_str_facts(b.item_type, a.item_type, d.item_type);
            lemma_opt_str_facts(d.item_type, b.item_type, a.item_type);
            lemma_opt_str_facts(b.item_type, d.item_type, a.item_type);
            lemma_opt_str_facts(a.variant, b.variant, d.variant);
            lemma_opt_str_facts(b.variant, a.variant, d.variant);
            lemma_opt_str_facts(d.variant, b.variant, a.variant);
            lemma_opt_str_facts(b.variant, d.variant, a.variant);
        }
    }
    assert forall|a: Item, b: Item, x: Item|
        #![trigger c(a, b), c(a, x)]
        c(a, b) == core::cmp::Ordering::Equal implies c(a, x) == c(b, x) by {
        assert(c(a, b) == item_cmp_key(o, a, b));
        assert(c(a, x) == item_cmp_key(o, a, x));
        assert(c(b, x) == item_cmp_key(o, b, x));
        if name_case {
            lemma_str_cmp_eq(a.name@, b.name@);
        } else {
            lemma_opt_str_facts(a.base_type, b.base_type, x.base_type);
            lemma_opt_str_facts(a.item_type, b.item_type, x.item_type);
            lemma_opt_str_facts(a.variant, b.variant, x.variant);
        }
    }
}

/// Reversing the direction of every sort key yields the exact reverse
/// of the original order, when no two distinct records tie on the keys
/// and no record occurs twice.
pub proof fn lemma_item_orderby_reversed(orders: Seq<ItemOrderby>, s: Seq<Item>)
    requires
        forall|i: int| 0 <= i < orders.len() ==> item_key_populated(#[trigger] orders[i]),
        forall|a: Item, b: Item|
            s.contains(a) && s.contains(b) && a != b ==> #[trigger] spec_multi_cmp(
                item_key_fn(),
                orders,
                a,
                b,
            ) != core::cmp::Ordering::Equal,
        forall|i: int, j: int| 0 <= i < j < s.len() ==> #[trigger] s[i] != #[trigger] s[j],
    ensures
        spec_stable_sort(
            s,
            multi_cmp(item_key_fn(), orders.map_values(|o: ItemOrderby| item_key_reversed(o))),
        ) == spec_stable_sort(s, multi_cmp(item_key_fn(), orders)).reverse(),
{
    let kc = item_key_fn();
    let rev = orders.map_values(|o: ItemOrderby| item_key_reversed(o));
    let c1 = multi_cmp(kc, orders);
    let c2 = multi_cmp(kc, rev);
    assert forall|i: int| 0 <= i < orders.len() implies cmp_ok(
        key_fn_of(kc, #[trigger] orders[i]),
    ) by {
        lemma_item_key_cmp_ok(orders[i]);
    }
    lemma_multi_cmp_ok(kc, orders);
    assert forall|a: Item, b: Item| #[trigger] c2(a, b) == flip_ord(c1(a, b)) by {
        assert forall|i: int| 0 <= i < orders.len() implies kc(#[trigger] rev[i], a, b)
            == flip_ord(kc(orders[i], a, b)) by {
            assert(rev[i] == item_key_reversed(orders[i]));
            lemma_item_key_reversed(orders[i], a, b);
            assert(kc(rev[i], a, b) == item_cmp_key(item_key_reversed(orders[i]), a, b));
            assert(kc(orders[i], a, b) == item_cmp_key(orders[i], a, b));
        }
        lemma_multi_cmp_flipped(kc, orders, rev, a, b);
    }
    assert forall|a: Item, b: Item| s.contains(a) && s.contains(b) && a != b implies #[trigger] c1(
        a,
        b,
    ) != core::cmp::Ordering::Equal by {
        assert(c1(a, b) == spec_multi_cmp(kc, orders, a, b));
    }
    lemma_sort_reversed(s, c1, c2);
}

/// The sorted snapshot is totally ordered under the multi-key
/// comparator: no record compares greater than a later one.
pub proof fn lemma_item_sort_sorted(orders: Seq<ItemOrderby>, s: Seq<Item>)
    requires
        forall|i: int| 0 <= i < orders.len() ==> item_key_populated(#[trigger] orders[i]),
    ensures
        sorted_under(
            spec_stable_sort(s, multi_cmp(item_key_fn(), orders)),
            multi_cmp(item_key_fn(), orders),
        ),
{
    assert forall|i: int| 0 <= i < orders.len() implies cmp_ok(
        key_fn_of(item_key_fn(), #[trigger] orders[i]),
    ) by {
        lemma_item_key_cmp_ok(orders[i]);
    }
    lemma_multi_cmp_ok(item_key_fn(), orders);
    lemma_sort_sorted(s, multi_cmp(item_key_fn(), orders));
}

} // verus!
