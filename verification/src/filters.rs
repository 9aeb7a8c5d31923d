//! The filter engine: leaf filter operators per scalar type family, and
//! the recursive boolean filter expression tree with AND/OR/NOT set
//! semantics (successive narrowing, union with deduplication by
//! identity key, and complement).

use vstd::prelude::*;

use crate::ninja_currency::{dup_opt_string, CurrencyEndpoint};
use crate::ninja_item::{ItemEndpoint, Modifier};
use crate::record::{distinct_keys, spec_has_key, Record};
use crate::text::{
    ci_regex_compiles, ci_regex_is_match, ci_regex_matches, ci_regex_valid, contains_sub,
    has_prefix, has_suffix, lower_of, lowercase, regex_compiles, regex_is_match, regex_matches,
    regex_valid, spec_contains, spec_ends_with, spec_starts_with,
};

verus! {

/// A leaf filter: a value-typed predicate over one scalar type family.
/// Only populated operator slots constrain the value; with none
/// populated the predicate is vacuously true; with several populated
/// all must pass.
pub trait FilterInput {
    type Item;

    /// All operator operands are well formed (regular expressions
    /// compile).
    spec fn spec_wf(&self) -> bool;

    /// The value passes every populated operator slot.
    spec fn spec_matches(&self, value: Self::Item) -> bool;

    /// Decides `spec_wf`.
    fn check_wf(&self) -> (b: bool)
        ensures
            b == self.spec_wf(),
    ;

    /// Decides `spec_matches`.
    fn filter_fn(&self, value: Self::Item) -> (b: bool)
        requires
            self.spec_wf(),
        ensures
            b == self.spec_matches(value),
    ;
}

/// Whether some string in `v` has exactly the characters `s`.
pub open spec fn spec_str_in(v: Seq<String>, s: Seq<char>) -> bool {
    exists|i: int| 0 <= i < v.len() && (#[trigger] v[i])@ == s
}

/// Decides `spec_str_in`.
fn str_in(v: &Vec<String>, s: &String) -> (r: bool)
    ensures
        r == spec_str_in(v@, s@),
{
    let n = v.len();
    for i in 0..n
        invariant
            n == v@.len(),
            forall|j: int| 0 <= j < i ==> (#[trigger] v@[j])@ != s@,
    {
        if s.eq(&v[i]) {
            return true;
        }
    }
    false
}

/// Decides membership of `s` in `v`.
fn i32_in(v: &Vec<i32>, s: i32) -> (r: bool)
    ensures
        r == v@.contains(s),
{
    let n = v.len();
    for i in 0..n
        invariant
            n == v@.len(),
            forall|j: int| 0 <= j < i ==> v@[j] != s,
    {
        if v[i] == s {
            return true;
        }
    }
    proof {
        if v@.contains(s) {
            let j = choose|j: int| 0 <= j < v@.len() && v@[j] == s;
            assert(v@[j] == s);
        }
    }
    false
}

/// The leaf filter over strings.
#[derive(Debug)]
pub struct StringFilter {
    pub _eq: Option<String>,
    pub _ieq: Option<String>,
    pub _ne: Option<String>,
    pub _ine: Option<String>,
    pub _contains: Option<String>,
    pub _icontains: Option<String>,
    pub _startswith: Option<String>,
    pub _istartswith: Option<String>,
    pub _endswith: Option<String>,
    pub _iendswith: Option<String>,
    pub _regex: Option<String>,
    pub _iregex: Option<String>,
    pub _in: Option<Vec<String>>,
    pub _nin: Option<Vec<String>>,
}

impl StringFilter {
    /// The string `s` passes every populated operator slot. The
    /// case-insensitive variants lower-case operand and candidate with
    /// the fixed, locale-independent mapping of `lower_of`.
    pub open spec fn spec_matches_chars(&self, s: Seq<char>) -> bool {
        &&& (self._eq is Some ==> s == self._eq->0@)
        &&& (self._ieq is Some ==> lower_of(s) == lower_of(self._ieq->0@))
        &&& (self._ne is Some ==> s != self._ne->0@)
        &&& (self._ine is Some ==> lower_of(s) != lower_of(self._ine->0@))
        &&& (self._contains is Some ==> spec_contains(s, self._contains->0@))
        &&& (self._icontains is Some ==> spec_contains(lower_of(s), lower_of(self._icontains->0@)))
        &&& (self._startswith is Some ==> spec_starts_with(s, self._startswith->0@))
        &&& (self._istartswith is Some ==> spec_starts_with(
            lower_of(s),
            lower_of(self._istartswith->0@),
        ))
        &&& (self._endswith is Some ==> spec_ends_with(s, self._endswith->0@))
        &&& (self._iendswith is Some ==> spec_ends_with(
            lower_of(s),
            lower_of(self._iendswith->0@),
        ))
        &&& (self._regex is Some ==> regex_matches(self._regex->0@, s))
        &&& (self._iregex is Some ==> ci_regex_matches(self._iregex->0@, s))
        &&& (self._in is Some ==> spec_str_in(self._in->0@, s))
        &&& (self._nin is Some ==> !spec_str_in(self._nin->0@, s))
    }
}

impl FilterInput for StringFilter {
    type Item = String;

    /// The populated regular-expression operands compile.
    open spec fn spec_wf(&self) -> bool {
        &&& (self._regex is Some ==> regex_valid(self._regex->0@))
        &&& (self._iregex is Some ==> ci_regex_valid(self._iregex->0@))
    }

    open spec fn spec_matches(&self, value: String) -> bool {
        self.spec_matches_chars(value@)
    }

    fn check_wf(&self) -> (b: bool) {
        if let Some(v) = &self._regex {
            if !regex_compiles(v.as_str()) {
                return false;
            }
        }
        if let Some(v) = &self._iregex {
            if !ci_regex_compiles(v.as_str()) {
                return false;
            }
        }
        true
    }

    fn filter_fn(&self, value: String) -> (b: bool) {
        let sl = lowercase(value.as_str());
        if let Some(v) = &self._eq {
            if !value.eq(v) {
                return false;
            }
        }
        if let Some(v) = &self._ieq {
            if !sl.eq(&lowercase(v.as_str())) {
                return false;
            }
        }
        if let Some(v) = &self._ne {
            if value.eq(v) {
                return false;
            }
        }
        if let Some(v) = &self._ine {
            if sl.eq(&lowercase(v.as_str())) {
                return false;
            }
        }
        if let Some(v) = &self._contains {
            if !contains_sub(value.as_str(), v.as_str()) {
                return false;
            }
        }
        if let Some(v) = &self._icontains {
            if !contains_sub(sl.as_str(), lowercase(v.as_str()).as_str()) {
                return false;
            }
        }
        if let Some(v) = &self._startswith {
            if !has_prefix(value.as_str(), v.as_str()) {
                return false;
            }
        }
        if let Some(v) = &self._istartswith {
            if !has_prefix(sl.as_str(), lowercase(v.as_str()).as_str()) {
                return false;
            }
        }
        if let Some(v) = &self._endswith {
            if !has_suffix(value.as_str(), v.as_str()) {
                return false;
            }
        }
        if let Some(v) = &self._iendswith {
            if !has_suffix(sl.as_str(), lowercase(v.as_str()).as_str()) {
                return false;
            }
        }
        if let Some(v) = &self._regex {
            if !regex_is_match(v.as_str(), value.as_str()) {
                return false;
            }
        }
        if let Some(v) = &self._iregex {
            if !ci_regex_is_match(v.as_str(), value.as_str()) {
                return false;
            }
        }
        if let Some(v) = &self._in {
            if !str_in(v, &value) {
                return false;
            }
        }
        if let Some(v) = &self._nin {
            if str_in(v, &value) {
                return false;
            }
        }
        true
    }
}

impl Default for StringFilter {
    /// The empty filter: no operator slot populated.
    fn default() -> (r: Self)
        ensures
            r == (StringFilter {
                _eq: None,
                _ieq: None,
                _ne: None,
                _ine: None,
                _contains: None,
                _icontains: None,
                _startswith: None,
                _istartswith: None,
                _endswith: None,
                _iendswith: None,
                _regex: None,
                _iregex: None,
                _in: None,
                _nin: None,
            }),
    {
        StringFilter {
            _eq: None,
            _ieq: None,
            _ne: None,
            _ine: None,
            _contains: None,
            _icontains: None,
            _startswith: None,
            _istartswith: None,
            _endswith: None,
            _iendswith: None,
            _regex: None,
            _iregex: None,
            _in: None,
            _nin: None,
        }
    }
}

/// The leaf filter over booleans.
#[derive(Debug)]
pub struct BooleanFilter {
    pub _eq: Option<bool>,
    pub _ne: Option<bool>,
}

impl FilterInput for BooleanFilter {
    type Item = bool;

    open spec fn spec_wf(&self) -> bool {
        true
    }

    open spec fn spec_matches(&self, value: bool) -> bool {
        &&& (self._eq is Some ==> value == self._eq->0)
        &&& (self._ne is Some ==> value != self._ne->0)
    }

    fn check_wf(&self) -> (b: bool) {
        true
    }

    fn filter_fn(&self, value: bool) -> (b: bool) {
        if let Some(v) = &self._eq {
            if value != *v {
                return false;
            }
        }
        if let Some(v) = &self._ne {
            if value == *v {
                return false;
            }
        }
        true
    }
}

/// The leaf filter over integers.
#[derive(Debug)]
pub struct IntFilter {
    pub _eq: Option<i32>,
    pub _ne: Option<i32>,
    pub _gt: Option<i32>,
    pub _gte: Option<i32>,
    pub _lt: Option<i32>,
    pub _lte: Option<i32>,
    pub _in: Option<Vec<i32>>,
    pub _nin: Option<Vec<i32>>,
}

impl FilterInput for IntFilter {
    type Item = i32;

    open spec fn spec_wf(&self) -> bool {
        true
    }

    open spec fn spec_matches(&self, value: i32) -> bool {
        &&& (self._eq is Some ==> value == self._eq->0)
        &&& (self._ne is Some ==> value != self._ne->0)
        &&& (self._gt is Some ==> value > self._gt->0)
        &&& (self._gte is Some ==> value >= self._gte->0)
        &&& (self._lt is Some ==> value < self._lt->0)
        &&& (self._lte is Some ==> value <= self._lte->0)
        &&& (self._in is Some ==> self._in->0@.contains(value))
        &&& (self._nin is Some ==> !self._nin->0@.contains(value))
    }

    fn check_wf(&self) -> (b: bool) {
        true
    }

    fn filter_fn(&self, value: i32) -> (b: bool) {
        if let Some(v) = &self._eq {
            if value != *v {
                return false;
            }
        }
        if let Some(v) = &self._ne {
            if value == *v {
                return false;
            }
        }
        if let Some(v) = &self._gt {
            if value <= *v {
                return false;
            }
        }
        if let Some(v) = &self._gte {
            if value < *v {
                return false;
            }
        }
        if let Some(v) = &self._lt {
            if value >= *v {
                return false;
            }
        }
        if let Some(v) = &self._lte {
            if value > *v {
                return false;
            }
        }
        if let Some(v) = &self._in {
            if !i32_in(v, value) {
                return false;
            }
        }
        if let Some(v) = &self._nin {
            if i32_in(v, value) {
                return false;
            }
        }
        true
    }
}

impl Default for IntFilter {
    /// The empty filter: no operator slot populated.
    fn default() -> (r: Self)
        ensures
            r == (IntFilter {
                _eq: None,
                _ne: None,
                _gt: None,
                _gte: None,
                _lt: None,
                _lte: None,
                _in: None,
                _nin: None,
            }),
    {
        IntFilter {
            _eq: None,
            _ne: None,
            _gt: None,
            _gte: None,
            _lt: None,
            _lte: None,
            _in: None,
            _nin: None,
        }
    }
}

/// The leaf filter over item modifiers: the string operators, applied
/// to the modifier's text.
#[derive(Debug)]
pub struct ModifierFilter {
    pub _eq: Option<String>,
    pub _ieq: Option<String>,
    pub _ne: Option<String>,
    pub _ine: Option<String>,
    pub _contains: Option<String>,
    pub _icontains: Option<String>,
    pub _startswith: Option<String>,
    pub _istartswith: Option<String>,
    pub _endswith: Option<String>,
    pub _iendswith: Option<String>,
    pub _regex: Option<String>,
    pub _iregex: Option<String>,
    pub _in: Option<Vec<String>>,
    pub _nin: Option<Vec<String>>,
}

impl ModifierFilter {
    /// The same operators seen as a string filter.
    pub open spec fn as_string_filter(&self) -> StringFilter {
        StringFilter {
            _eq: self._eq,
            _ieq: self._ieq,
            _ne: self._ne,
            _ine: self._ine,
            _contains: self._contains,
            _icontains: self._icontains,
            _startswith: self._startswith,
            _istartswith: self._istartswith,
            _endswith: self._endswith,
            _iendswith: self._iendswith,
            _regex: self._regex,
            _iregex: self._iregex,
            _in: self._in,
            _nin: self._nin,
        }
    }
}

impl FilterInput for ModifierFilter {
    type Item = Modifier;

    open spec fn spec_wf(&self) -> bool {
        self.as_string_filter().spec_wf()
    }

    open spec fn spec_matches(&self, value: Modifier) -> bool {
        self.as_string_filter().spec_matches_chars(value.text@)
    }

    fn check_wf(&self) -> (b: bool) {
        if let Some(v) = &self._regex {
            if !regex_compiles(v.as_str()) {
                return false;
            }
        }
        if let Some(v) = &self._iregex {
            if !ci_regex_compiles(v.as_str()) {
                return false;
            }
        }
        true
    }

    fn filter_fn(&self, value: Modifier) -> (b: bool) {
        let string_filter = StringFilter {
            _eq: dup_opt_string(&self._eq),
            _ieq: dup_opt_string(&self._ieq),
            _ne: dup_opt_string(&self._ne),
            _ine: dup_opt_string(&self._ine),
            _contains: dup_opt_string(&self._contains),
            _icontains: dup_opt_string(&self._icontains),
            _startswith: dup_opt_string(&self._startswith),
            _istartswith: dup_opt_string(&self._istartswith),
            _endswith: dup_opt_string(&self._endswith),
            _iendswith: dup_opt_string(&self._iendswith),
            _regex: dup_opt_string(&self._regex),
            _iregex: dup_opt_string(&self._iregex),
            _in: dup_opt_string_vec(&self._in),
            _nin: dup_opt_string_vec(&self._nin),
        };
        string_filter.filter_fn(value.text)
    }
}

/// An exact copy of an optional string list.
fn dup_opt_string_vec(o: &Option<Vec<String>>) -> (r: Option<Vec<String>>)
    ensures
        r is Some <==> *o is Some,
        r is Some ==> r->0@ == (*o)->0@,
{
    match o {
        Some(v) => {
            let n = v.len();
            let mut out: Vec<String> = Vec::new();
            for i in 0..n
                invariant
                    n == v@.len(),
                    out@ =~= v@.take(i as int),
            {
                out.push(v[i].clone());
                proof {
                    assert(out@ =~= v@.take(i + 1));
                }
            }
            proof {
                assert(out@ =~= v@);
            }
            Some(out)
        },
        None => None,
    }
}

impl Default for BooleanFilter {
    /// The empty filter: no operator slot populated.
    fn default() -> (r: Self)
        ensures
            r == (BooleanFilter { _eq: None, _ne: None }),
    {
        BooleanFilter { _eq: None, _ne: None }
    }
}

impl Default for ModifierFilter {
    /// The empty filter: no operator slot populated.
    fn default() -> (r: Self)
        ensures
            r == (ModifierFilter {
                _eq: None,
                _ieq: None,
                _ne: None,
                _ine: None,
                _contains: None,
                _icontains: None,
                _startswith: None,
                _istartswith: None,
                _endswith: None,
                _iendswith: None,
                _regex: None,
                _iregex: None,
                _in: None,
                _nin: None,
            }),
    {
        ModifierFilter {
            _eq: None,
            _ieq: None,
            _ne: None,
            _ine: None,
            _contains: None,
            _icontains: None,
            _startswith: None,
            _istartswith: None,
            _endswith: None,
            _iendswith: None,
            _regex: None,
            _iregex: None,
            _in: None,
            _nin: None,
        }
    }
}

/// The leaf filter over item endpoint tags.
#[derive(Debug)]
pub struct ItemEndpointFilter {
    pub _eq: Option<ItemEndpoint>,
    pub _ne: Option<ItemEndpoint>,
    pub _in: Option<Vec<ItemEndpoint>>,
    pub _nin: Option<Vec<ItemEndpoint>>,
}

/// Decides membership of `s` in `v`.
fn item_endpoint_in(v: &Vec<ItemEndpoint>, s: ItemEndpoint) -> (r: bool)
    ensures
        r == v@.contains(s),
{
    let n = v.len();
    for i in 0..n
        invariant
            n == v@.len(),
            forall|j: int| 0 <= j < i ==> v@[j] != s,
    {
        if v[i] == s {
            return true;
        }
    }
    proof {
        if v@.contains(s) {
            let j = choose|j: int| 0 <= j < v@.len() && v@[j] == s;
            assert(v@[j] == s);
        }
    }
    false
}

impl FilterInput for ItemEndpointFilter {
    type Item = ItemEndpoint;

    open spec fn spec_wf(&self) -> bool {
        true
    }

    open spec fn spec_matches(&self, value: ItemEndpoint) -> bool {
        &&& (self._eq is Some ==> value == self._eq->0)
        &&& (self._ne is Some ==> value != self._ne->0)
        &&& (self._in is Some ==> self._in->0@.contains(value))
        &&& (self._nin is Some ==> !self._nin->0@.contains(value))
    }

    fn check_wf(&self) -> (b: bool) {
        true
    }

    fn filter_fn(&self, value: ItemEndpoint) -> (b: bool) {
        if let Some(v) = &self._eq {
            if value != *v {
                return false;
            }
        }
        if let Some(v) = &self._ne {
            if value == *v {
                return false;
            }
        }
        if let Some(v) = &self._in {
            if !item_endpoint_in(v, value) {
                return false;
            }
        }
        if let Some(v) = &self._nin {
            if item_endpoint_in(v, value) {
                return false;
            }
        }
        true
    }
}

impl Default for ItemEndpointFilter {
    /// The empty filter: no operator slot populated.
    fn default() -> (r: Self)
        ensures
            r == (ItemEndpointFilter { _eq: None, _ne: None, _in: None, _nin: None }),
    {
        ItemEndpointFilter { _eq: None, _ne: None, _in: None, _nin: None }
    }
}

/// The leaf filter over currency endpoint tags.
#[derive(Debug)]
pub struct CurrencyEndpointFilter {
    pub _eq: Option<CurrencyEndpoint>,
    pub _ne: Option<CurrencyEndpoint>,
    pub _in: Option<Vec<CurrencyEndpoint>>,
    pub _nin: Option<Vec<CurrencyEndpoint>>,
}

/// Decides membership of `s` in `v`.
fn currency_endpoint_in(v: &Vec<CurrencyEndpoint>, s: CurrencyEndpoint) -> (r: bool)
    ensures
        r == v@.contains(s),
{
    let n = v.len();
    for i in 0..n
        invariant
            n == v@.len(),
            forall|j: int| 0 <= j < i ==> v@[j] != s,
    {
        if v[i] == s {
            return true;
        }
    }
    proof {
        if v@.contains(s) {
            let j = choose|j: int| 0 <= j < v@.len() && v@[j] == s;
            assert(v@[j] == s);
        }
    }
    false
}

impl FilterInput for CurrencyEndpointFilter {
    type Item = CurrencyEndpoint;

    open spec fn spec_wf(&self) -> bool {
        true
    }

    open spec fn spec_matches(&self, value: CurrencyEndpoint) -> bool {
        &&& (self._eq is Some ==> value == self._eq->0)
        &&& (self._ne is Some ==> value != self._ne->0)
        &&& (self._in is Some ==> self._in->0@.contains(value))
        &&& (self._nin is Some ==> !self._nin->0@.contains(value))
    }

    fn check_wf(&self) -> (b: bool) {
        true
    }

    fn filter_fn(&self, value: CurrencyEndpoint) -> (b: bool) {
        if let Some(v) = &self._eq {
            if value != *v {
                return false;
            }
        }
        if let Some(v) = &self._ne {
            if value == *v {
                return false;
            }
        }
        if let Some(v) = &self._in {
            if !currency_endpoint_in(v, value) {
                return false;
            }
        }
        if let Some(v) = &self._nin {
            if currency_endpoint_in(v, value) {
                return false;
            }
        }
        true
    }
}

impl Default for CurrencyEndpointFilter {
    /// The empty filter: no operator slot populated.
    fn default() -> (r: Self)
        ensures
            r == (CurrencyEndpointFilter { _eq: None, _ne: None, _in: None, _nin: None }),
    {
        CurrencyEndpointFilter { _eq: None, _ne: None, _in: None, _nin: None }
    }
}

} // verus!

verus! {

/// The error raised when a filter expression is rejected at
/// construction time: a regular-expression operand does not compile.
#[derive(Debug, Clone, Copy, PartialEq, Eq, Structural)]
pub enum FilterError {
    InvalidRegex,
}

/// The per-record-shape field bindings of one filter tree node: each
/// filterable field may carry one leaf filter, and a record passes when
/// it passes every populated binding.
pub trait WhereFields: Sized {
    type Record: Record;

    /// Every populated binding's operands are well formed.
    spec fn spec_wf(&self) -> bool;

    /// The record passes every populated binding.
    spec fn spec_matches(&self, r: Self::Record) -> bool;

    /// Decides `spec_wf`.
    fn check_wf(&self) -> (b: bool)
        ensures
            b == self.spec_wf(),
    ;

    /// Decides `spec_matches`.
    fn matches(&self, r: &Self::Record) -> (b: bool)
        requires
            self.spec_wf(),
        ensures
            b == self.spec_matches(*r),
    ;
}

/// One node of the recursive filter expression tree: field bindings
/// that are implicitly conjoined, and the optional `and`, `or` and
/// `not` child-expression lists.
#[derive(Debug)]
pub struct WhereNode<B> {
    pub fields: B,
    pub and: Option<Vec<WhereNode<B>>>,
    pub or: Option<Vec<WhereNode<B>>>,
    pub not: Option<Vec<WhereNode<B>>>,
}

/// Removes every record whose identity key already occurs earlier in
/// the sequence.
pub open spec fn spec_dedup<R: Record>(s: Seq<R>) -> Seq<R>
    decreases s.len(),
{
    if s.len() == 0 {
        Seq::empty()
    } else {
        let front = spec_dedup(s.drop_last());
        if spec_has_key(s.drop_last(), s.last()) {
            front
        } else {
            front.push(s.last())
        }
    }
}

/// The whole tree's operands are well formed.
pub open spec fn spec_node_wf<B: WhereFields>(node: WhereNode<B>) -> bool
    decreases node,
{
    &&& node.fields.spec_wf()
    &&& (node.and is Some ==> forall|i: int|
        0 <= i < node.and->0@.len() ==> spec_node_wf(#[trigger] node.and->0@[i]))
    &&& (node.or is Some ==> forall|i: int|
        0 <= i < node.or->0@.len() ==> spec_node_wf(#[trigger] node.or->0@[i]))
    &&& (node.not is Some ==> forall|i: int|
        0 <= i < node.not->0@.len() ==> spec_node_wf(#[trigger] node.not->0@[i]))
}

/// Evaluates a child list sequentially: each child narrows the working
/// set left by the previous one.
pub open spec fn spec_eval_seq<B: WhereFields>(
    nodes: Seq<WhereNode<B>>,
    s: Seq<B::Record>,
) -> Seq<B::Record>
    decreases nodes, 0int,
{
    if nodes.len() == 0 {
        s
    } else {
        spec_eval(nodes.last(), spec_eval_seq(nodes.drop_last(), s))
    }
}

/// Whether some child's evaluation against `s` keeps a record with the
/// key of `r`.
pub open spec fn spec_match_any<B: WhereFields>(
    nodes: Seq<WhereNode<B>>,
    s: Seq<B::Record>,
    r: B::Record,
) -> bool
    decreases nodes, 0int,
{
    exists|i: int| 0 <= i < nodes.len() && spec_has_key(spec_eval(#[trigger] nodes[i], s), r)
}

/// The predicate "passes every populated binding of `b`".
pub open spec fn fields_keep<B: WhereFields>(b: B) -> spec_fn(B::Record) -> bool {
    |r: B::Record| b.spec_matches(r)
}

/// The predicate "some child's evaluation against `s` keeps the key".
pub open spec fn match_keep<B: WhereFields>(
    nodes: Seq<WhereNode<B>>,
    s: Seq<B::Record>,
) -> spec_fn(B::Record) -> bool
    decreases nodes, 1int,
{
    |r: B::Record| spec_match_any(nodes, s, r)
}

/// The predicate "no child's evaluation against `s` keeps the key".
pub open spec fn match_drop<B: WhereFields>(
    nodes: Seq<WhereNode<B>>,
    s: Seq<B::Record>,
) -> spec_fn(B::Record) -> bool
    decreases nodes, 1int,
{
    |r: B::Record| !spec_match_any(nodes, s, r)
}

/// Evaluates one filter tree node against a working set: retain the
/// records passing the node's own bindings, narrow through the `and`
/// children in order, keep (deduplicated by identity key) the records
/// some `or` child keeps, then remove the records some `not` child
/// keeps.
pub open spec fn spec_eval<B: WhereFields>(node: WhereNode<B>, s: Seq<B::Record>) -> Seq<
    B::Record,
>
    decreases node, 0int,
{
    let w1 = s.filter(fields_keep(node.fields));
    let w2 = if node.and is Some {
        spec_eval_seq(node.and->0@, w1)
    } else {
        w1
    };
    let w3 = if node.or is Some {
        spec_dedup(w2.filter(match_keep(node.or->0@, w2)))
    } else {
        w2
    };
    if node.not is Some {
        w3.filter(match_drop(node.not->0@, w3))
    } else {
        w3
    }
}

/// Every index is below `len`.
pub open spec fn idx_bounded(idxs: Seq<usize>, len: int) -> bool {
    forall|k: int| 0 <= k < idxs.len() ==> (#[trigger] idxs[k]) < len
}

/// The indices are strictly increasing.
pub open spec fn idx_increasing(idxs: Seq<usize>) -> bool {
    forall|i: int, j: int| 0 <= i < j < idxs.len() ==> #[trigger] idxs[i] < #[trigger] idxs[j]
}

/// The records of `s` at the given positions, in position-list order.
pub open spec fn select<R>(s: Seq<R>, idxs: Seq<usize>) -> Seq<R> {
    idxs.map_values(|i: usize| s[i as int])
}

/// Appending one more record keeps or extends a filtered sequence.
proof fn lemma_filter_push<A>(t: Seq<A>, x: A, p: spec_fn(A) -> bool)
    ensures
        (t.push(x)).filter(p) == if p(x) {
            t.filter(p).push(x)
        } else {
            t.filter(p)
        },
{
    reveal_with_fuel(Seq::filter, 2);
    assert((t.push(x)).drop_last() =~= t);
}

/// A key occurs in a non-empty sequence when it occurs before the last
/// record or is the last record's key.
proof fn lemma_has_key_drop_last<R: Record>(t: Seq<R>, x: R)
    requires
        t.len() > 0,
    ensures
        spec_has_key(t, x) == (spec_has_key(t.drop_last(), x) || t.last().spec_key()
            == x.spec_key()),
{
    if spec_has_key(t, x) {
        let i = choose|i: int| 0 <= i < t.len() && (#[trigger] t[i]).spec_key() == x.spec_key();
        if i < t.len() - 1 {
            assert(t.drop_last()[i] == t[i]);
        }
    }
    if spec_has_key(t.drop_last(), x) {
        let i = choose|i: int|
            0 <= i < t.drop_last().len() && (#[trigger] t.drop_last()[i]).spec_key()
                == x.spec_key();
        assert(t[i] == t.drop_last()[i]);
    }
    assert(t.last() == t[t.len() - 1]);
}

/// Deduplication keeps exactly the keys of its input.
proof fn lemma_dedup_has_key<R: Record>(t: Seq<R>, x: R)
    ensures
        spec_has_key(spec_dedup(t), x) == spec_has_key(t, x),
    decreases t.len(),
{
    if t.len() > 0 {
        lemma_dedup_has_key(t.drop_last(), x);
        lemma_has_key_drop_last(t, x);
        let fr = spec_dedup(t.drop_last());
        if spec_has_key(t.drop_last(), t.last()) {
            if t.last().spec_key() == x.spec_key() {
                let i = choose|i: int|
                    0 <= i < t.drop_last().len() && (#[trigger] t.drop_last()[i]).spec_key()
                        == t.last().spec_key();
                assert((t.drop_last()[i]).spec_key() == x.spec_key());
            }
        } else {
            let d = spec_dedup(t);
            assert(d.drop_last() =~= fr);
            lemma_has_key_drop_last(d, x);
        }
    }
}

/// A key occurs in a concatenation when it occurs in either part.
proof fn lemma_has_key_add<R: Record>(a: Seq<R>, b: Seq<R>, x: R)
    ensures
        spec_has_key(a + b, x) == (spec_has_key(a, x) || spec_has_key(b, x)),
{
    if spec_has_key(a, x) {
        let i = choose|i: int| 0 <= i < a.len() && (#[trigger] a[i]).spec_key() == x.spec_key();
        assert((a + b)[i] == a[i]);
    }
    if spec_has_key(b, x) {
        let i = choose|i: int| 0 <= i < b.len() && (#[trigger] b[i]).spec_key() == x.spec_key();
        assert((a + b)[a.len() + i] == b[i]);
    }
    if spec_has_key(a + b, x) {
        let i = choose|i: int|
            0 <= i < (a + b).len() && (#[trigger] (a + b)[i]).spec_key() == x.spec_key();
        if i < a.len() {
            assert(a[i] == (a + b)[i]);
        } else {
            assert(b[i - a.len()] == (a + b)[i]);
        }
    }
}

/// Decides whether some record at the given positions has the key of
/// `x`.
fn key_in_selected<R: Record>(arr: &Vec<R>, idxs: &Vec<usize>, x: &R) -> (r: bool)
    requires
        idx_bounded(idxs@, arr@.len() as int),
    ensures
        r == spec_has_key(select(arr@, idxs@), *x),
{
    let n = idxs.len();
    for k in 0..n
        invariant
            n == idxs@.len(),
            idx_bounded(idxs@, arr@.len() as int),
            forall|j: int|
                0 <= j < k ==> (#[trigger] select(arr@, idxs@)[j]).spec_key() != x.spec_key(),
    {
        if arr[idxs[k]].key_eq(x) {
            proof {
                assert(select(arr@, idxs@)[k as int] == arr@[idxs@[k as int] as int]);
            }
            return true;
        }
        proof {
            assert(select(arr@, idxs@)[k as int] == arr@[idxs@[k as int] as int]);
        }
    }
    false
}

/// Selecting along concatenated position lists is selecting along each.
proof fn lemma_select_add<R>(s: Seq<R>, a: Seq<usize>, b: Seq<usize>)
    ensures
        select(s, a + b) == select(s, a) + select(s, b),
{
    assert(select(s, a + b) =~= select(s, a) + select(s, b));
}

/// Selecting along one more position appends that record.
proof fn lemma_select_push<R>(s: Seq<R>, idxs: Seq<usize>, i: usize)
    ensures
        select(s, idxs.push(i)) == select(s, idxs).push(s[i as int]),
{
    assert(select(s, idxs.push(i)) =~= select(s, idxs).push(s[i as int]));
}

/// One step of `spec_match_any` over a growing prefix of children.
proof fn lemma_match_any_take_step<B: WhereFields>(
    nodes: Seq<WhereNode<B>>,
    c: int,
    s: Seq<B::Record>,
    x: B::Record,
)
    requires
        0 <= c < nodes.len(),
    ensures
        spec_match_any(nodes.take(c + 1), s, x) == (spec_match_any(nodes.take(c), s, x)
            || spec_has_key(spec_eval(nodes[c], s), x)),
{
    if spec_match_any(nodes.take(c + 1), s, x) {
        let i = choose|i: int|
            0 <= i < nodes.take(c + 1).len() && spec_has_key(
                spec_eval(#[trigger] nodes.take(c + 1)[i], s),
                x,
            );
        if i < c {
            assert(nodes.take(c)[i] == nodes.take(c + 1)[i]);
            assert(spec_has_key(spec_eval(nodes.take(c)[i], s), x));
        } else {
            assert(nodes.take(c + 1)[i] == nodes[c]);
        }
    }
    if spec_match_any(nodes.take(c), s, x) {
        let i = choose|i: int|
            0 <= i < nodes.take(c).len() && spec_has_key(
                spec_eval(#[trigger] nodes.take(c)[i], s),
                x,
            );
        assert(nodes.take(c + 1)[i] == nodes.take(c)[i]);
        assert(spec_has_key(spec_eval(nodes.take(c + 1)[i], s), x));
    }
    if spec_has_key(spec_eval(nodes[c], s), x) {
        assert(nodes.take(c + 1)[c] == nodes[c]);
        assert(spec_has_key(spec_eval(nodes.take(c + 1)[c], s), x));
    }
}

/// Computes, for every `or` or `not` child, which records of the
/// working set the child keeps, as one concatenated position list.
fn matched_indices<B: WhereFields>(
    children: &Vec<WhereNode<B>>,
    arr: &Vec<B::Record>,
    w: &Vec<usize>,
) -> (matched: Vec<usize>)
    requires
        forall|i: int| 0 <= i < children@.len() ==> spec_node_wf(#[trigger] children@[i]),
        idx_bounded(w@, arr@.len() as int),
        idx_increasing(w@),
        forall|i: int|
            0 <= i < children@.len() ==> decreases_to!(children => #[trigger] children@[i]),
    ensures
        idx_bounded(matched@, arr@.len() as int),
        forall|x: B::Record|
            spec_has_key(select(arr@, matched@), x) == spec_match_any(
                children@,
                select(arr@, w@),
                x,
            ),
    decreases *children,
{
    let ghost w_set = select(arr@, w@);
    let mut matched: Vec<usize> = Vec::new();
    let m = children.len();
    proof {
        assert forall|x: B::Record| !spec_match_any(children@.take(0), w_set, x) by {
            assert(children@.take(0).len() == 0);
        }
        assert(select(arr@, matched@) =~= Seq::<B::Record>::empty());
    }
    for c in 0..m
        invariant
            m == children@.len(),
            forall|i: int| 0 <= i < children@.len() ==> spec_node_wf(#[trigger] children@[i]),
            forall|i: int|
                0 <= i < children@.len() ==> decreases_to!(children => #[trigger] children@[i]),
            idx_bounded(w@, arr@.len() as int),
            idx_increasing(w@),
            w_set == select(arr@, w@),
            idx_bounded(matched@, arr@.len() as int),
            forall|x: B::Record|
                spec_has_key(select(arr@, matched@), x) == spec_match_any(
                    children@.take(c as int),
                    w_set,
                    x,
                ),
    {
        let ghost pre = matched@;
        let mut ci = eval_indices(&children[c], arr, w);
        proof {
            lemma_select_add(arr@, pre, ci@);
        }
        let ghost ci_view = ci@;
        matched.append(&mut ci);
        proof {
            assert(matched@ == pre + ci_view);
            assert forall|x: B::Record|
                spec_has_key(select(arr@, matched@), x) == spec_match_any(
                    children@.take(c + 1),
                    w_set,
                    x,
                ) by {
                lemma_has_key_add(select(arr@, pre), select(arr@, ci_view), x);
                lemma_match_any_take_step(children@, c as int, w_set, x);
            }
        }
    }
    proof {
        assert(children@.take(m as int) =~= children@);
    }
    matched
}

/// Computes which of the records at positions `cur` the node keeps, as
/// positions into `arr`, in `cur` order.
fn eval_indices<B: WhereFields>(
    node: &WhereNode<B>,
    arr: &Vec<B::Record>,
    cur: &Vec<usize>,
) -> (out: Vec<usize>)
    requires
        spec_node_wf(*node),
        idx_bounded(cur@, arr@.len() as int),
        idx_increasing(cur@),
    ensures
        idx_bounded(out@, arr@.len() as int),
        idx_increasing(out@),
        select(arr@, out@) == spec_eval(*node, select(arr@, cur@)),
    decreases *node,
{
    let ghost w0 = select(arr@, cur@);
    let ghost own_pred = fields_keep(node.fields);

    // own bindings: retain the records passing every populated binding
    let mut w: Vec<usize> = Vec::new();
    let n = cur.len();
    proof {
        assert(select(arr@, cur@.take(0)) =~= Seq::<B::Record>::empty());
        assert(select(arr@, w@) =~= Seq::<B::Record>::empty());
        assert(Seq::<B::Record>::empty().filter(own_pred) =~= Seq::<B::Record>::empty());
    }
    for k in 0..n
        invariant
            n == cur@.len(),
            spec_node_wf(*node),
            idx_bounded(cur@, arr@.len() as int),
            idx_increasing(cur@),
            idx_bounded(w@, arr@.len() as int),
            idx_increasing(w@),
            w@.len() > 0 ==> k > 0 && w@.last() <= cur@[k - 1],
            own_pred == fields_keep::<B>(node.fields),
            select(arr@, w@) == select(arr@, cur@.take(k as int)).filter(own_pred),
    {
        let idx = cur[k];
        let ghost w_pre = w@;
        if node.fields.matches(&arr[idx]) {
            w.push(idx);
        }
        proof {
            assert(cur@.take(k + 1).drop_last() =~= cur@.take(k as int));
            assert(cur@.take(k + 1) =~= cur@.take(k as int).push(cur@[k as int]));
            lemma_select_push(arr@, cur@.take(k as int), cur@[k as int]);
            lemma_filter_push(select(arr@, cur@.take(k as int)), arr@[cur@[k as int] as int], own_pred);
            if own_pred(arr@[cur@[k as int] as int]) {
                lemma_select_push(arr@, w_pre, cur@[k as int]);
            }
        }
    }
    proof {
        assert(cur@.take(n as int) =~= cur@);
        assert(select(arr@, w@) == w0.filter(own_pred));
    }
    let ghost w1 = select(arr@, w@);

    // and children: narrow the working set through each child in order
    if let Some(and_children) = &node.and {
        proof {
            assert(decreases_to!(*node => node.and));
            assert(decreases_to!(node.and => node.and->0));
            assert(decreases_to!(node.and->0 => node.and->0@));
            assert forall|i: int|
                0 <= i < and_children@.len() ==> decreases_to!(
                    and_children => #[trigger] and_children@[i]
                ) by {}
            assert(spec_eval_seq(and_children@.take(0), w1) == w1);
        }
        let m = and_children.len();
        for c in 0..m
            invariant
                m == and_children@.len(),
                spec_node_wf(*node),
                node.and is Some && *and_children == node.and->0,
                forall|i: int|
                    0 <= i < and_children@.len() ==> decreases_to!(
                        and_children => #[trigger] and_children@[i]
                    ),
                idx_bounded(w@, arr@.len() as int),
                idx_increasing(w@),
                select(arr@, w@) == spec_eval_seq(and_children@.take(c as int), w1),
        {
            proof {
                assert(spec_node_wf(and_children@[c as int]));
            }
            w = eval_indices(&and_children[c], arr, &w);
            proof {
                assert(and_children@.take(c + 1).drop_last() =~= and_children@.take(c as int));
                assert(and_children@.take(c + 1).last() == and_children@[c as int]);
            }
        }
        proof {
            assert(and_children@.take(m as int) =~= and_children@);
        }
    }
    let ghost w2 = select(arr@, w@);

    // or children: keep the records some child keeps, deduplicated
    if let Some(or_children) = &node.or {
        proof {
            assert(decreases_to!(*node => node.or));
            assert(decreases_to!(node.or => node.or->0));
            assert(decreases_to!(node.or->0 => node.or->0@));
            assert forall|i: int|
                0 <= i < or_children@.len() ==> decreases_to!(
                    or_children => #[trigger] or_children@[i]
                ) by {}
        }
        let ghost or_pred = match_keep(node.or->0@, w2);
        let matched = matched_indices(or_children, arr, &w);
        let mut out: Vec<usize> = Vec::new();
        let wn = w.len();
        proof {
            assert(select(arr@, w@.take(0)) =~= Seq::<B::Record>::empty());
            assert(select(arr@, out@) =~= Seq::<B::Record>::empty());
            assert(Seq::<B::Record>::empty().filter(or_pred) =~= Seq::<B::Record>::empty());
        }
        for k in 0..wn
            invariant
                wn == w@.len(),
                idx_bounded(w@, arr@.len() as int),
                idx_increasing(w@),
                idx_bounded(matched@, arr@.len() as int),
                w2 == select(arr@, w@),
                node.or is Some && *or_children == node.or->0,
                or_pred == match_keep::<B>(node.or->0@, w2),
                forall|x: B::Record|
                    spec_has_key(select(arr@, matched@), x) == spec_match_any(node.or->0@, w2, x),
                idx_bounded(out@, arr@.len() as int),
                idx_increasing(out@),
                out@.len() > 0 ==> k > 0 && out@.last() <= w@[k - 1],
                select(arr@, out@) == spec_dedup(select(arr@, w@.take(k as int)).filter(or_pred)),
        {
            let idx = w[k];
            let ghost out_pre = out@;
            let ghost fpre = select(arr@, w@.take(k as int)).filter(or_pred);
            let hit = key_in_selected(arr, &matched, &arr[idx]);
            let dup = key_in_selected(arr, &out, &arr[idx]);
            if hit && !dup {
                out.push(idx);
            }
            proof {
                assert(or_pred(arr@[w@[k as int] as int]) == spec_match_any(
                    node.or->0@,
                    w2,
                    arr@[w@[k as int] as int],
                ));
                assert(w@.take(k + 1).drop_last() =~= w@.take(k as int));
                assert(w@.take(k + 1) =~= w@.take(k as int).push(w@[k as int]));
                lemma_select_push(arr@, w@.take(k as int), w@[k as int]);
                lemma_filter_push(select(arr@, w@.take(k as int)), arr@[w@[k as int] as int], or_pred);
                lemma_dedup_has_key(fpre, arr@[w@[k as int] as int]);
                if or_pred(arr@[w@[k as int] as int]) {
                    assert(fpre.push(arr@[w@[k as int] as int]).drop_last() =~= fpre);
                    if !dup {
                        lemma_select_push(arr@, out_pre, w@[k as int]);
                    }
                }
            }
        }
        proof {
            assert(w@.take(wn as int) =~= w@);
        }
        w = out;
    }
    let ghost w3 = select(arr@, w@);

    // not children: remove every record some child keeps
    if let Some(not_children) = &node.not {
        proof {
            assert(decreases_to!(*node => node.not));
            assert(decreases_to!(node.not => node.not->0));
            assert(decreases_to!(node.not->0 => node.not->0@));
            assert forall|i: int|
                0 <= i < not_children@.len() ==> decreases_to!(
                    not_children => #[trigger] not_children@[i]
                ) by {}
        }
        let ghost not_pred = match_drop(node.not->0@, w3);
        let matched = matched_indices(not_children, arr, &w);
        let mut out: Vec<usize> = Vec::new();
        let wn = w.len();
        proof {
            assert(select(arr@, w@.take(0)) =~= Seq::<B::Record>::empty());
            assert(select(arr@, out@) =~= Seq::<B::Record>::empty());
            assert(Seq::<B::Record>::empty().filter(not_pred) =~= Seq::<B::Record>::empty());
        }
        for k in 0..wn
            invariant
                wn == w@.len(),
                idx_bounded(w@, arr@.len() as int),
                idx_increasing(w@),
                idx_bounded(matched@, arr@.len() as int),
                w3 == select(arr@, w@),
                node.not is Some && *not_children == node.not->0,
                not_pred == match_drop::<B>(node.not->0@, w3),
                forall|x: B::Record|
                    spec_has_key(select(arr@, matched@), x) == spec_match_any(node.not->0@, w3, x),
                idx_bounded(out@, arr@.len() as int),
                idx_increasing(out@),
                out@.len() > 0 ==> k > 0 && out@.last() <= w@[k - 1],
                select(arr@, out@) == select(arr@, w@.take(k as int)).filter(not_pred),
        {
            let idx = w[k];
            let ghost out_pre = out@;
            let hit = key_in_selected(arr, &matched, &arr[idx]);
            if !hit {
                out.push(idx);
            }
            proof {
                assert(not_pred(arr@[w@[k as int] as int]) == !spec_match_any(
                    node.not->0@,
                    w3,
                    arr@[w@[k as int] as int],
                ));
                assert(w@.take(k + 1).drop_last() =~= w@.take(k as int));
                assert(w@.take(k + 1) =~= w@.take(k as int).push(w@[k as int]));
                lemma_select_push(arr@, w@.take(k as int), w@[k as int]);
                lemma_filter_push(select(arr@, w@.take(k as int)), arr@[w@[k as int] as int], not_pred);
                if not_pred(arr@[w@[k as int] as int]) {
                    lemma_select_push(arr@, out_pre, w@[k as int]);
                }
            }
        }
        proof {
            assert(w@.take(wn as int) =~= w@);
        }
        w = out;
    }
    proof {
        let s1 = w0.filter(fields_keep(node.fields));
        assert(w1 == s1);
        let s2 = if node.and is Some {
            spec_eval_seq(node.and->0@, s1)
        } else {
            s1
        };
        assert(w2 == s2);
        let s3 = if node.or is Some {
            spec_dedup(s2.filter(match_keep(node.or->0@, s2)))
        } else {
            s2
        };
        assert(w3 == s3);
        let s4 = if node.not is Some {
            s3.filter(match_drop(node.not->0@, s3))
        } else {
            s3
        };
        assert(select(arr@, w@) == s4);
        assert(spec_eval(*node, w0) == s4);
    }
    w
}

/// Decides whether the whole tree's operands are well formed.
fn validate_node<B: WhereFields>(node: &WhereNode<B>) -> (b: bool)
    ensures
        b == spec_node_wf(*node),
    decreases *node,
{
    if !node.fields.check_wf() {
        return false;
    }
    if let Some(children) = &node.and {
        proof {
            assert(decreases_to!(*node => node.and));
            assert(decreases_to!(node.and => node.and->0));
            assert(decreases_to!(node.and->0 => node.and->0@));
        }
        let m = children.len();
        for c in 0..m
            invariant
                m == children@.len(),
                node.and is Some && *children == node.and->0,
                node.fields.spec_wf(),
                forall|i: int| 0 <= i < c ==> spec_node_wf(#[trigger] children@[i]),
                forall|i: int|
                    0 <= i < children@.len() ==> decreases_to!(children => #[trigger] children@[i]),
        {
            if !validate_node(&children[c]) {
                return false;
            }
        }
    }
    if let Some(children) = &node.or {
        proof {
            assert(decreases_to!(*node => node.or));
            assert(decreases_to!(node.or => node.or->0));
            assert(decreases_to!(node.or->0 => node.or->0@));
        }
        let m = children.len();
        for c in 0..m
            invariant
                m == children@.len(),
                node.or is Some && *children == node.or->0,
                node.fields.spec_wf(),
                node.and is Some ==> forall|i: int|
                    0 <= i < node.and->0@.len() ==> spec_node_wf(#[trigger] node.and->0@[i]),
                forall|i: int| 0 <= i < c ==> spec_node_wf(#[trigger] children@[i]),
                forall|i: int|
                    0 <= i < children@.len() ==> decreases_to!(children => #[trigger] children@[i]),
        {
            if !validate_node(&children[c]) {
                return false;
            }
        }
    }
    if let Some(children) = &node.not {
        proof {
            assert(decreases_to!(*node => node.not));
            assert(decreases_to!(node.not => node.not->0));
            assert(decreases_to!(node.not->0 => node.not->0@));
        }
        let m = children.len();
        for c in 0..m
            invariant
                m == children@.len(),
                node.not is Some && *children == node.not->0,
                node.fields.spec_wf(),
                node.and is Some ==> forall|i: int|
                    0 <= i < node.and->0@.len() ==> spec_node_wf(#[trigger] node.and->0@[i]),
                node.or is Some ==> forall|i: int|
                    0 <= i < node.or->0@.len() ==> spec_node_wf(#[trigger] node.or->0@[i]),
                forall|i: int| 0 <= i < c ==> spec_node_wf(#[trigger] children@[i]),
                forall|i: int|
                    0 <= i < children@.len() ==> decreases_to!(children => #[trigger] children@[i]),
        {
            if !validate_node(&children[c]) {
                return false;
            }
        }
    }
    true
}

/// A filter expression tree over one record shape: the `where`
/// semantics of a query.
pub trait WhereInput: Sized {
    type Output: Record;

    /// The whole tree's operands are well formed.
    spec fn spec_wf(&self) -> bool;

    /// The evaluation of the tree against a working set.
    spec fn spec_eval_expr(&self, s: Seq<Self::Output>) -> Seq<Self::Output>;

    /// The record passes the node's own field bindings.
    spec fn spec_own_matches(&self, r: Self::Output) -> bool;

    /// The node's `and` children.
    spec fn spec_and(&self) -> Option<Vec<Self>>;

    /// The node's `or` children.
    spec fn spec_or(&self) -> Option<Vec<Self>>;

    /// The node's `not` children.
    spec fn spec_not(&self) -> Option<Vec<Self>>;

    fn and(&self) -> (r: Option<&Vec<Self>>)
        ensures
            r is Some <==> self.spec_and() is Some,
            r is Some ==> *r->0 == self.spec_and()->0,
    ;

    fn or(&self) -> (r: Option<&Vec<Self>>)
        ensures
            r is Some <==> self.spec_or() is Some,
            r is Some ==> *r->0 == self.spec_or()->0,
    ;

    fn not(&self) -> (r: Option<&Vec<Self>>)
        ensures
            r is Some <==> self.spec_not() is Some,
            r is Some ==> *r->0 == self.spec_not()->0,
    ;

    /// Decides `spec_wf`; a tree that fails is rejected at
    /// construction time.
    fn validate(&self) -> (b: bool)
        ensures
            b == self.spec_wf(),
    ;

    /// Retains the records passing the node's own field bindings.
    fn filter(&self, arr: Vec<Self::Output>) -> (r: Vec<Self::Output>)
        requires
            self.spec_wf(),
        ensures
            r@ == arr@.filter(|x: Self::Output| self.spec_own_matches(x)),
    ;

    /// Evaluates the whole tree against the collection.
    fn filter_recursive(&self, arr: Vec<Self::Output>) -> (r: Vec<Self::Output>)
        requires
            self.spec_wf(),
        ensures
            r@ == self.spec_eval_expr(arr@),
    ;

    /// Validates the tree, then evaluates it; a tree with an operand
    /// that does not compile is rejected.
    fn filter_checked(&self, arr: Vec<Self::Output>) -> (r: Result<
        Vec<Self::Output>,
        FilterError,
    >)
        ensures
            self.spec_wf() <==> r is Ok,
            r is Ok ==> r->Ok_0@ == self.spec_eval_expr(arr@),
            r is Err ==> r->Err_0 == FilterError::InvalidRegex,
    ;
}

impl<B: WhereFields> WhereInput for WhereNode<B> {
    type Output = B::Record;

    open spec fn spec_wf(&self) -> bool {
        spec_node_wf(*self)
    }

    open spec fn spec_eval_expr(&self, s: Seq<B::Record>) -> Seq<B::Record> {
        spec_eval(*self, s)
    }

    open spec fn spec_own_matches(&self, r: B::Record) -> bool {
        self.fields.spec_matches(r)
    }

    open spec fn spec_and(&self) -> Option<Vec<Self>> {
        self.and
    }

    open spec fn spec_or(&self) -> Option<Vec<Self>> {
        self.or
    }

    open spec fn spec_not(&self) -> Option<Vec<Self>> {
        self.not
    }

    fn and(&self) -> (r: Option<&Vec<Self>>) {
        self.and.as_ref()
    }

    fn or(&self) -> (r: Option<&Vec<Self>>) {
        self.or.as_ref()
    }

    fn not(&self) -> (r: Option<&Vec<Self>>) {
        self.not.as_ref()
    }

    fn validate(&self) -> (b: bool) {
        validate_node(self)
    }

    fn filter(&self, arr: Vec<B::Record>) -> (r: Vec<B::Record>) {
        let ghost orig = arr@;
        let ghost pred = |x: B::Record| self.spec_own_matches(x);
        let mut rest = arr;
        let mut result: Vec<B::Record> = Vec::new();
        let n = rest.len();
        proof {
            assert(orig.take(0).filter(pred) =~= Seq::<B::Record>::empty());
        }
        for i in 0..n
            invariant
                n == orig.len(),
                spec_node_wf(*self),
                pred == (|x: B::Record| self.spec_own_matches(x)),
                rest@ =~= orig.skip(i as int),
                result@ == orig.take(i as int).filter(pred),
        {
            let x = rest.remove(0);
            proof {
                assert(x == orig[i as int]);
                assert(rest@ =~= orig.skip(i + 1));
                assert(orig.take(i + 1).drop_last() =~= orig.take(i as int));
                assert(orig.take(i + 1) =~= orig.take(i as int).push(orig[i as int]));
                lemma_filter_push(orig.take(i as int), orig[i as int], pred);
            }
            if self.fields.matches(&x) {
                proof {
                    assert(pred(orig[i as int]) == self.spec_own_matches(orig[i as int]));
                }
                result.push(x);
            } else {
                proof {
                    assert(pred(orig[i as int]) == self.spec_own_matches(orig[i as int]));
                }
            }
        }
        proof {
            assert(orig.take(n as int) =~= orig);
        }
        result
    }

    fn filter_recursive(&self, arr: Vec<B::Record>) -> (r: Vec<B::Record>) {
        let ghost orig = arr@;
        let n = arr.len();
        let mut cur: Vec<usize> = Vec::new();
        for i in 0..n
            invariant
                n == orig.len(),
                arr@ == orig,
                cur@.len() == i,
                forall|j: int| 0 <= j < i ==> (#[trigger] cur@[j]) == j,
        {
            cur.push(i);
        }
        proof {
            assert(idx_bounded(cur@, arr@.len() as int));
            assert(idx_increasing(cur@));
            assert(select(arr@, cur@) =~= arr@);
        }
        let keep = eval_indices(self, &arr, &cur);
        // move the kept records out, in order
        let mut rest = arr;
        let mut result: Vec<B::Record> = Vec::new();
        let mut i: usize = 0;
        let mut k: usize = 0;
        while i < n
            invariant
                n == orig.len(),
                i <= n,
                k <= keep@.len(),
                rest@ =~= orig.skip(i as int),
                result@ == select(orig, keep@.take(k as int)),
                forall|t: int| 0 <= t < k ==> (#[trigger] keep@[t]) < i,
                forall|t: int| k <= t < keep@.len() ==> (#[trigger] keep@[t]) >= i,
                idx_bounded(keep@, orig.len() as int),
                idx_increasing(keep@),
                select(orig, keep@) == spec_eval(*self, orig),
            decreases n - i,
        {
            let x = rest.remove(0);
            proof {
                assert(x == orig[i as int]);
                assert(rest@ =~= orig.skip(i + 1));
            }
            if k < keep.len() && keep[k] == i {
                proof {
                    assert(keep@.take(k + 1).drop_last() =~= keep@.take(k as int));
                    assert(keep@.take(k + 1) =~= keep@.take(k as int).push(keep@[k as int]));
                    lemma_select_push(orig, keep@.take(k as int), keep@[k as int]);
                }
                result.push(x);
                k += 1;
            }
            i += 1;
        }
        proof {
            if k < keep@.len() {
                assert(keep@[k as int] >= n);
                assert(keep@[k as int] < orig.len());
            }
            assert(k == keep@.len());
            assert(keep@.take(k as int) =~= keep@);
        }
        result
    }

    fn filter_checked(&self, arr: Vec<B::Record>) -> (r: Result<Vec<B::Record>, FilterError>) {
        if self.validate() {
            Ok(self.filter_recursive(arr))
        } else {
            Err(FilterError::InvalidRegex)
        }
    }
}

/// The pure per-record reading of a filter expression: the record
/// passes the node's own bindings, every `and` child, some `or` child
/// (when an `or` list is present), and no `not` child.
pub open spec fn spec_pred<B: WhereFields>(node: WhereNode<B>, r: B::Record) -> bool
    decreases node, 0int,
{
    &&& node.fields.spec_matches(r)
    &&& (node.and is Some ==> forall|i: int|
        0 <= i < node.and->0@.len() ==> spec_pred(#[trigger] node.and->0@[i], r))
    &&& (node.or is Some ==> exists|i: int|
        0 <= i < node.or->0@.len() && spec_pred(#[trigger] node.or->0@[i], r))
    &&& (node.not is Some ==> forall|i: int|
        0 <= i < node.not->0@.len() ==> !spec_pred(#[trigger] node.not->0@[i], r))
}

/// The pure predicate of one node, as a function value.
pub open spec fn pred_of<B: WhereFields>(node: WhereNode<B>) -> spec_fn(B::Record) -> bool
    decreases node, 1int,
{
    |r: B::Record| spec_pred(node, r)
}

/// The conjunction of the pure predicates of a child list.
pub open spec fn all_pred_of<B: WhereFields>(nodes: Seq<WhereNode<B>>) -> spec_fn(
    B::Record,
) -> bool
    decreases nodes, 1int,
{
    |r: B::Record| forall|i: int| 0 <= i < nodes.len() ==> spec_pred(#[trigger] nodes[i], r)
}

/// The disjunction of the pure predicates of a child list.
pub open spec fn any_pred_of<B: WhereFields>(nodes: Seq<WhereNode<B>>) -> spec_fn(
    B::Record,
) -> bool
    decreases nodes, 1int,
{
    |r: B::Record| exists|i: int| 0 <= i < nodes.len() && spec_pred(#[trigger] nodes[i], r)
}

/// The conjunction of two predicates, as a function value.
pub open spec fn pred_and<A>(p: spec_fn(A) -> bool, q: spec_fn(A) -> bool) -> spec_fn(A) -> bool {
    |x: A| p(x) && q(x)
}

/// The negation of a predicate, as a function value.
pub open spec fn pred_not<A>(p: spec_fn(A) -> bool) -> spec_fn(A) -> bool {
    |x: A| !p(x)
}

/// A filtered sequence filtered again is one filter by the conjunction.
proof fn lemma_filter_compose<A>(s: Seq<A>, p: spec_fn(A) -> bool, q: spec_fn(A) -> bool)
    ensures
        s.filter(p).filter(q) == s.filter(pred_and(p, q)),
    decreases s.len(),
{
    if s.len() == 0 {
        assert(s.filter(p) =~= Seq::<A>::empty());
        assert(s.filter(p).filter(q) =~= Seq::<A>::empty());
        assert(s.filter(pred_and(p, q)) =~= Seq::<A>::empty());
    } else {
        lemma_filter_compose(s.drop_last(), p, q);
        lemma_filter_push(s.drop_last(), s.last(), p);
        lemma_filter_push(s.drop_last(), s.last(), pred_and(p, q));
        if p(s.last()) {
            lemma_filter_push(s.drop_last().filter(p), s.last(), q);
        }
        assert(s.drop_last().push(s.last()) =~= s);
    }
}

/// Filters by predicates that agree on the sequence's records are equal.
proof fn lemma_filter_ptwise<A>(s: Seq<A>, p: spec_fn(A) -> bool, q: spec_fn(A) -> bool)
    requires
        forall|i: int| 0 <= i < s.len() ==> p(#[trigger] s[i]) == q(s[i]),
    ensures
        s.filter(p) == s.filter(q),
    decreases s.len(),
{
    if s.len() == 0 {
        assert(s.filter(p) =~= Seq::<A>::empty());
        assert(s.filter(q) =~= Seq::<A>::empty());
    } else {
        assert(forall|i: int|
            0 <= i < s.drop_last().len() ==> p(#[trigger] s.drop_last()[i]) == q(s.drop_last()[i]));
        lemma_filter_ptwise(s.drop_last(), p, q);
        lemma_filter_push(s.drop_last(), s.last(), p);
        lemma_filter_push(s.drop_last(), s.last(), q);
        assert(s.last() == s[s.len() - 1]);
        assert(s.drop_last().push(s.last()) =~= s);
    }
}

/// A filter by an always-true predicate keeps the sequence.
proof fn lemma_filter_all_true<A>(s: Seq<A>, p: spec_fn(A) -> bool)
    requires
        forall|i: int| 0 <= i < s.len() ==> p(#[trigger] s[i]),
    ensures
        s.filter(p) == s,
    decreases s.len(),
{
    if s.len() == 0 {
        assert(s.filter(p) =~= Seq::<A>::empty());
    } else {
        assert(s.last() == s[s.len() - 1]);
        assert(forall|i: int| 0 <= i < s.drop_last().len() ==> p(#[trigger] s.drop_last()[i]));
        lemma_filter_all_true(s.drop_last(), p);
        lemma_filter_push(s.drop_last(), s.last(), p);
        assert(s.drop_last().push(s.last()) =~= s);
    }
}

/// Filtering keeps keys pairwise distinct.
proof fn lemma_filter_distinct<R: Record>(s: Seq<R>, p: spec_fn(R) -> bool)
    requires
        distinct_keys(s),
    ensures
        distinct_keys(s.filter(p)),
        forall|x: R| #[trigger] spec_has_key(s.filter(p), x) ==> spec_has_key(s, x),
        forall|i: int|
            0 <= i < s.filter(p).len() ==> p(#[trigger] s.filter(p)[i]) && s.contains(
                s.filter(p)[i],
            ),
    decreases s.len(),
{
    broadcast use vstd::seq_lib::group_filter_ensures;

    if s.len() > 0 {
        assert(forall|i: int, j: int|
            0 <= i < j < s.drop_last().len() ==> (#[trigger] s.drop_last()[i]).spec_key() != (
            #[trigger] s.drop_last()[j]).spec_key());
        lemma_filter_distinct(s.drop_last(), p);
        lemma_filter_push(s.drop_last(), s.last(), p);
        assert(s.drop_last().push(s.last()) =~= s);
        let f = s.filter(p);
        let fd = s.drop_last().filter(p);
        if p(s.last()) {
            assert(f == fd.push(s.last()));
            assert forall|i: int, j: int| 0 <= i < j < f.len() implies (
            #[trigger] f[i]).spec_key() != (#[trigger] f[j]).spec_key() by {
                if j < f.len() - 1 {
                    assert(fd[i] == f[i] && fd[j] == f[j]);
                } else {
                    assert(f[j] == s.last());
                    assert(fd[i] == f[i]);
                    assert(spec_has_key(fd, f[i]));
                    let t = choose|t: int|
                        0 <= t < s.drop_last().len() && (#[trigger] s.drop_last()[t]).spec_key()
                            == f[i].spec_key();
                    assert(s[t] == s.drop_last()[t]);
                    assert(s.last() == s[s.len() - 1]);
                }
            }
            assert forall|x: R| #[trigger] spec_has_key(f, x) implies spec_has_key(s, x) by {
                lemma_has_key_drop_last(f, x);
                if spec_has_key(fd, x) {
                    let t = choose|t: int|
                        0 <= t < s.drop_last().len() && (#[trigger] s.drop_last()[t]).spec_key()
                            == x.spec_key();
                    assert(s[t] == s.drop_last()[t]);
                } else {
                    assert(s.last() == s[s.len() - 1]);
                }
            }
            assert forall|i: int| 0 <= i < f.len() implies p(#[trigger] f[i]) && s.contains(
                f[i],
            ) by {
                if i < f.len() - 1 {
                    assert(f[i] == fd[i]);
                    assert(s.drop_last().contains(fd[i]));
                    let t = choose|t: int|
                        0 <= t < s.drop_last().len() && s.drop_last()[t] == fd[i];
                    assert(s[t] == fd[i]);
                } else {
                    assert(f[i] == s.last());
                    assert(s[s.len() - 1] == s.last());
                }
            }
        } else {
            assert(f == fd);
            assert forall|x: R| #[trigger] spec_has_key(f, x) implies spec_has_key(s, x) by {
                let t = choose|t: int|
                    0 <= t < s.drop_last().len() && (#[trigger] s.drop_last()[t]).spec_key()
                        == x.spec_key();
                assert(s[t] == s.drop_last()[t]);
            }
            assert forall|i: int| 0 <= i < f.len() implies p(#[trigger] f[i]) && s.contains(
                f[i],
            ) by {
                assert(s.drop_last().contains(fd[i]));
                let t = choose|t: int| 0 <= t < s.drop_last().len() && s.drop_last()[t] == fd[i];
                assert(s[t] == fd[i]);
            }
        }
    } else {
        assert(s.filter(p) =~= Seq::<R>::empty());
    }
}

/// On a sequence with distinct keys, deduplication changes nothing.
proof fn lemma_dedup_distinct<R: Record>(s: Seq<R>)
    requires
        distinct_keys(s),
    ensures
        spec_dedup(s) == s,
    decreases s.len(),
{
    if s.len() > 0 {
        assert(forall|i: int, j: int|
            0 <= i < j < s.drop_last().len() ==> (#[trigger] s.drop_last()[i]).spec_key() != (
            #[trigger] s.drop_last()[j]).spec_key());
        lemma_dedup_distinct(s.drop_last());
        if spec_has_key(s.drop_last(), s.last()) {
            let t = choose|t: int|
                0 <= t < s.drop_last().len() && (#[trigger] s.drop_last()[t]).spec_key()
                    == s.last().spec_key();
            assert(s[t] == s.drop_last()[t]);
            assert(s.last() == s[s.len() - 1]);
            assert(false);
        }
        assert(s.drop_last().push(s.last()) =~= s);
    } else {
        assert(spec_dedup(s) =~= Seq::<R>::empty());
        assert(s =~= Seq::<R>::empty());
    }
}

/// A key occurs in a filtered sequence exactly when a record of the
/// original passes the filter and carries the key.
proof fn lemma_has_key_filter<R: Record>(s: Seq<R>, p: spec_fn(R) -> bool, x: R)
    ensures
        spec_has_key(s.filter(p), x) == exists|i: int|
            0 <= i < s.len() && p(#[trigger] s[i]) && s[i].spec_key() == x.spec_key(),
    decreases s.len(),
{
    if s.len() == 0 {
        assert(s.filter(p) =~= Seq::<R>::empty());
    } else {
        lemma_has_key_filter(s.drop_last(), p, x);
        lemma_filter_push(s.drop_last(), s.last(), p);
        assert(s.drop_last().push(s.last()) =~= s);
        let f = s.filter(p);
        let fd = s.drop_last().filter(p);
        if exists|i: int|
            0 <= i < s.len() && p(#[trigger] s[i]) && s[i].spec_key() == x.spec_key() {
            let i = choose|i: int|
                0 <= i < s.len() && p(#[trigger] s[i]) && s[i].spec_key() == x.spec_key();
            if i < s.len() - 1 {
                assert(s.drop_last()[i] == s[i]);
                let t = choose|t: int|
                    0 <= t < fd.len() && (#[trigger] fd[t]).spec_key() == x.spec_key();
                assert(f[t] == fd[t]);
            } else {
                assert(s.last() == s[i]);
                assert(f.last().spec_key() == x.spec_key());
            }
        }
        if spec_has_key(f, x) {
            let t = choose|t: int| 0 <= t < f.len() && (#[trigger] f[t]).spec_key() == x.spec_key();
            if p(s.last()) && t == f.len() - 1 {
                assert(f[t] == s.last());
                assert(s[s.len() - 1] == s.last());
            } else {
                assert(f[t] == fd[t]);
                let i = choose|i: int|
                    0 <= i < s.drop_last().len() && p(#[trigger] s.drop_last()[i])
                        && s.drop_last()[i].spec_key() == x.spec_key();
                assert(s[i] == s.drop_last()[i]);
            }
        }
    }
}

/// Evaluating a filter expression equals filtering by its pure
/// per-record predicate, when the records' identity keys are distinct.
pub proof fn lemma_eval_is_pred_filter<B: WhereFields>(node: WhereNode<B>, s: Seq<B::Record>)
    requires
        distinct_keys(s),
    ensures
        spec_eval(node, s) == s.filter(pred_of(node)),
    decreases node, 2int,
{
    let w1 = s.filter(fields_keep(node.fields));
    lemma_filter_distinct(s, fields_keep(node.fields));
    let w2 = if node.and is Some {
        lemma_eval_seq_is_pred_filter(node.and->0@, w1);
        lemma_filter_compose(s, fields_keep(node.fields), all_pred_of(node.and->0@));
        spec_eval_seq(node.and->0@, w1)
    } else {
        w1
    };
    assert(w2 == s.filter(
        if node.and is Some {
            pred_and(fields_keep(node.fields), all_pred_of(node.and->0@))
        } else {
            fields_keep(node.fields)
        },
    ));
    let q_and = if node.and is Some {
        pred_and(fields_keep(node.fields), all_pred_of(node.and->0@))
    } else {
        fields_keep(node.fields)
    };
    lemma_filter_distinct(s, q_and);
    assert(distinct_keys(w2));
    let w3 = if node.or is Some {
        let children = node.or->0@;
        assert forall|k: int| 0 <= k < w2.len() implies match_keep(children, w2)(#[trigger] w2[k])
            == any_pred_of(children)(w2[k]) by {
            lemma_match_any_is_any_pred(children, w2, k);
        }
        lemma_filter_ptwise(w2, match_keep(children, w2), any_pred_of(children));
        lemma_filter_distinct(w2, any_pred_of(children));
        lemma_dedup_distinct(w2.filter(any_pred_of(children)));
        lemma_filter_compose(s, q_and, any_pred_of(children));
        spec_dedup(w2.filter(match_keep(children, w2)))
    } else {
        w2
    };
    let q_or = if node.or is Some {
        pred_and(q_and, any_pred_of(node.or->0@))
    } else {
        q_and
    };
    assert(w3 == s.filter(q_or));
    lemma_filter_distinct(s, q_or);
    assert(distinct_keys(w3));
    let w4 = if node.not is Some {
        let children = node.not->0@;
        assert forall|k: int| 0 <= k < w3.len() implies match_drop(children, w3)(#[trigger] w3[k])
            == pred_not(any_pred_of(children))(w3[k]) by {
            lemma_match_any_is_any_pred(children, w3, k);
        }
        lemma_filter_ptwise(w3, match_drop(children, w3), pred_not(any_pred_of(children)));
        lemma_filter_compose(s, q_or, pred_not(any_pred_of(children)));
        w3.filter(match_drop(children, w3))
    } else {
        w3
    };
    let q_not = if node.not is Some {
        pred_and(q_or, pred_not(any_pred_of(node.not->0@)))
    } else {
        q_or
    };
    assert(w4 == s.filter(q_not));
    assert(spec_eval(node, s) == w4);
    assert forall|i: int| 0 <= i < s.len() implies q_not(#[trigger] s[i]) == pred_of(node)(s[i]) by {
        assert(q_not(s[i]) == spec_pred(node, s[i]));
    }
    lemma_filter_ptwise(s, q_not, pred_of(node));
}

/// Sequential narrowing through a child list equals one filter by the
/// conjunction of the children's predicates, on distinct keys.
proof fn lemma_eval_seq_is_pred_filter<B: WhereFields>(
    nodes: Seq<WhereNode<B>>,
    s: Seq<B::Record>,
)
    requires
        distinct_keys(s),
    ensures
        spec_eval_seq(nodes, s) == s.filter(all_pred_of(nodes)),
    decreases nodes, 2int,
{
    if nodes.len() == 0 {
        assert forall|i: int| 0 <= i < s.len() implies all_pred_of(nodes)(#[trigger] s[i]) by {}
        lemma_filter_all_true(s, all_pred_of(nodes));
    } else {
        let front = nodes.drop_last();
        lemma_eval_seq_is_pred_filter(front, s);
        lemma_filter_distinct(s, all_pred_of(front));
        lemma_eval_is_pred_filter(nodes.last(), s.filter(all_pred_of(front)));
        lemma_filter_compose(s, all_pred_of(front), pred_of(nodes.last()));
        assert forall|i: int|
            0 <= i < s.len() implies pred_and(all_pred_of(front), pred_of(nodes.last()))(
            #[trigger] s[i],
        ) == all_pred_of(nodes)(s[i]) by {
            let x = s[i];
            if pred_and(all_pred_of(front), pred_of(nodes.last()))(x) {
                assert forall|j: int| 0 <= j < nodes.len() implies spec_pred(
                    #[trigger] nodes[j],
                    x,
                ) by {
                    if j < nodes.len() - 1 {
                        assert(front[j] == nodes[j]);
                        assert(spec_pred(front[j], x));
                    } else {
                        assert(nodes.last() == nodes[j]);
                    }
                }
            }
            if all_pred_of(nodes)(x) {
                assert forall|j: int| 0 <= j < front.len() implies spec_pred(
                    #[trigger] front[j],
                    x,
                ) by {
                    assert(nodes[j] == front[j]);
                }
                assert(nodes.last() == nodes[nodes.len() - 1]);
            }
        }
        lemma_filter_ptwise(s, pred_and(all_pred_of(front), pred_of(nodes.last())), all_pred_of(nodes));
    }
}

/// On a working set with distinct keys, "some child keeps this record's
/// key" is exactly "some child's predicate holds of the record".
proof fn lemma_match_any_is_any_pred<B: WhereFields>(
    nodes: Seq<WhereNode<B>>,
    s: Seq<B::Record>,
    k: int,
)
    requires
        distinct_keys(s),
        0 <= k < s.len(),
    ensures
        spec_match_any(nodes, s, s[k]) == any_pred_of(nodes)(s[k]),
    decreases nodes, 2int,
{
    let x = s[k];
    if spec_match_any(nodes, s, x) {
        let i = choose|i: int|
            0 <= i < nodes.len() && spec_has_key(spec_eval(#[trigger] nodes[i], s), x);
        lemma_eval_is_pred_filter(nodes[i], s);
        lemma_has_key_filter(s, pred_of(nodes[i]), x);
        let j = choose|j: int|
            0 <= j < s.len() && pred_of(nodes[i])(#[trigger] s[j]) && s[j].spec_key()
                == x.spec_key();
        assert(j == k);
        assert(spec_pred(nodes[i], x));
    }
    if any_pred_of(nodes)(x) {
        let i = choose|i: int| 0 <= i < nodes.len() && spec_pred(#[trigger] nodes[i], x);
        lemma_eval_is_pred_filter(nodes[i], s);
        lemma_has_key_filter(s, pred_of(nodes[i]), x);
        assert(pred_of(nodes[i])(s[k]));
    }
}

/// An expression with no populated bindings and no children matches
/// everything: the empty filter expression is the identity.
pub proof fn lemma_empty_filter_identity<B: WhereFields>(node: WhereNode<B>, s: Seq<B::Record>)
    requires
        forall|r: B::Record| #[trigger] node.fields.spec_matches(r),
        node.and is None,
        node.or is None,
        node.not is None,
    ensures
        spec_eval(node, s) == s,
{
    assert forall|i: int| 0 <= i < s.len() implies fields_keep(node.fields)(#[trigger] s[i]) by {}
    lemma_filter_all_true(s, fields_keep(node.fields));
}

/// Filtering is a pure predicate over fixed data: evaluating an
/// expression on its own result returns that result unchanged.
pub proof fn lemma_eval_idempotent<B: WhereFields>(node: WhereNode<B>, s: Seq<B::Record>)
    requires
        distinct_keys(s),
    ensures
        spec_eval(node, spec_eval(node, s)) == spec_eval(node, s),
{
    lemma_eval_is_pred_filter(node, s);
    lemma_filter_distinct(s, pred_of(node));
    lemma_eval_is_pred_filter(node, s.filter(pred_of(node)));
    lemma_filter_compose(s, pred_of(node), pred_of(node));
    assert forall|i: int|
        0 <= i < s.len() implies pred_and(pred_of(node), pred_of(node))(#[trigger] s[i]) == pred_of(
        node,
    )(s[i]) by {}
    lemma_filter_ptwise(s, pred_and(pred_of(node), pred_of(node)), pred_of(node));
}

/// AND distributes as intersection: evaluating a node whose only
/// content is the `and` list `[e1, e2]` equals evaluating `e1` on the
/// result of `e2`.
pub proof fn lemma_and_is_intersection<B: WhereFields>(
    node: WhereNode<B>,
    e1: WhereNode<B>,
    e2: WhereNode<B>,
    s: Seq<B::Record>,
)
    requires
        distinct_keys(s),
        forall|r: B::Record| #[trigger] node.fields.spec_matches(r),
        node.and is Some,
        node.and->0@ == seq![e1, e2],
        node.or is None,
        node.not is None,
    ensures
        spec_eval(node, s) == spec_eval(e1, spec_eval(e2, s)),
{
    lemma_eval_is_pred_filter(node, s);
    lemma_eval_is_pred_filter(e2, s);
    lemma_filter_distinct(s, pred_of(e2));
    lemma_eval_is_pred_filter(e1, s.filter(pred_of(e2)));
    lemma_filter_compose(s, pred_of(e2), pred_of(e1));
    assert forall|i: int|
        0 <= i < s.len() implies pred_and(pred_of(e2), pred_of(e1))(#[trigger] s[i]) == pred_of(
        node,
    )(s[i]) by {
        let x = s[i];
        assert(node.and->0@[0] == e1 && node.and->0@[1] == e2);
        if pred_and(pred_of(e2), pred_of(e1))(x) {
            assert forall|j: int| 0 <= j < node.and->0@.len() implies spec_pred(
                #[trigger] node.and->0@[j],
                x,
            ) by {
                if j == 0 {
                    assert(spec_pred(e1, x));
                } else {
                    assert(spec_pred(e2, x));
                }
            }
        }
        if pred_of(node)(x) {
            assert(spec_pred(node.and->0@[0], x));
            assert(spec_pred(node.and->0@[1], x));
        }
    }
    lemma_filter_ptwise(s, pred_and(pred_of(e2), pred_of(e1)), pred_of(node));
}

/// OR is a superset of each branch: every record `e1` keeps is kept, by
/// identity key, by the node whose `or` list is `[e1, e2]`.
pub proof fn lemma_or_superset<B: WhereFields>(
    node: WhereNode<B>,
    e1: WhereNode<B>,
    e2: WhereNode<B>,
    s: Seq<B::Record>,
)
    requires
        distinct_keys(s),
        forall|r: B::Record| #[trigger] node.fields.spec_matches(r),
        node.and is None,
        node.or is Some,
        node.or->0@ == seq![e1, e2],
        node.not is None,
    ensures
        forall|i: int|
            0 <= i < spec_eval(e1, s).len() ==> spec_has_key(
                spec_eval(node, s),
                #[trigger] spec_eval(e1, s)[i],
            ),
{
    lemma_eval_is_pred_filter(node, s);
    lemma_eval_is_pred_filter(e1, s);
    lemma_filter_distinct(s, pred_of(e1));
    assert forall|i: int| 0 <= i < spec_eval(e1, s).len() implies spec_has_key(
        spec_eval(node, s),
        #[trigger] spec_eval(e1, s)[i],
    ) by {
        let x = spec_eval(e1, s)[i];
        assert(pred_of(e1)(x) && s.contains(x));
        assert(spec_pred(e1, x));
        assert(node.or->0@[0] == e1);
        assert(spec_pred(node, x)) by {
            assert(spec_pred(node.or->0@[0], x));
        }
        let j = choose|j: int| 0 <= j < s.len() && s[j] == x;
        lemma_has_key_filter(s, pred_of(node), x);
        assert(pred_of(node)(s[j]));
    }
}

/// NOT removes exactly the matched complement: a record kept by a node
/// whose `not` list is `[e1]` is never, by identity key, in the result
/// of `e1` on the same collection.
pub proof fn lemma_not_excludes<B: WhereFields>(
    node: WhereNode<B>,
    e1: WhereNode<B>,
    s: Seq<B::Record>,
)
    requires
        distinct_keys(s),
        forall|r: B::Record| #[trigger] node.fields.spec_matches(r),
        node.and is None,
        node.or is None,
        node.not is Some,
        node.not->0@ == seq![e1],
    ensures
        forall|i: int|
            0 <= i < spec_eval(node, s).len() ==> !spec_has_key(
                spec_eval(e1, s),
                #[trigger] spec_eval(node, s)[i],
            ),
{
    lemma_eval_is_pred_filter(node, s);
    lemma_eval_is_pred_filter(e1, s);
    lemma_filter_distinct(s, pred_of(node));
    assert forall|i: int| 0 <= i < spec_eval(node, s).len() implies !spec_has_key(
        spec_eval(e1, s),
        #[trigger] spec_eval(node, s)[i],
    ) by {
        let x = spec_eval(node, s)[i];
        assert(pred_of(node)(x) && s.contains(x));
        assert(spec_pred(node, x));
        assert(node.not->0@[0] == e1);
        assert(!spec_pred(e1, x));
        let j = choose|j: int| 0 <= j < s.len() && s[j] == x;
        lemma_has_key_filter(s, pred_of(e1), x);
        if spec_has_key(spec_eval(e1, s), x) {
            let t = choose|t: int|
                0 <= t < s.len() && pred_of(e1)(#[trigger] s[t]) && s[t].spec_key()
                    == x.spec_key();
            assert(t == j);
        }
    }
}

} // verus!
