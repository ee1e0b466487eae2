//! Block states: the schema of each block's properties, inferred from the
//! states the server lists, and the lookup of a state id from a block name
//! and property overrides.
use vstd::prelude::*;
use std::collections::HashMap;
use crate::registry::assoc_map::{lemma_entries_update, AssocMap, DeepCopy, MapKey, StrMap};
use crate::messages::{SyncBlockState, SyncProperty};
use crate::strings::{lemma_less_asymmetric, lemma_less_irreflexive, lemma_less_total, lemma_less_transitive, is_true_text, parse_i32, seq_less, spec_parse_i32, str_less, strictly_sorted, true_text};

verus! {

/// The kind of values a block property takes.
#[derive(Debug, Clone)]
pub enum PropertyType {
    /// One of the listed names.
    Enum(Vec<String>),
    /// An integer between the two bounds, both included.
    Integer(i32, i32),
    /// `true` or `false`.
    Boolean,
}

/// The value of a block property.
#[derive(Debug, Clone, PartialEq, Eq, Hash, PartialOrd, Ord)]
pub enum PropertyValue {
    Enum(String),
    Integer(i32),
    Boolean(bool),
}

/// A property type with its names as character sequences.
pub enum PropertyTypeView {
    Enum(Seq<Seq<char>>),
    Integer(i32, i32),
    Boolean,
}

/// A property value with its name as a character sequence.
pub enum PropertyValueView {
    Enum(Seq<char>),
    Integer(i32),
    Boolean(bool),
}

impl DeepView for PropertyType {
    type V = PropertyTypeView;

    open spec fn deep_view(&self) -> PropertyTypeView {
        match self {
            PropertyType::Enum(v) => PropertyTypeView::Enum(v.deep_view()),
            PropertyType::Integer(lo, hi) => PropertyTypeView::Integer(*lo, *hi),
            PropertyType::Boolean => PropertyTypeView::Boolean,
        }
    }
}

impl DeepView for PropertyValue {
    type V = PropertyValueView;

    open spec fn deep_view(&self) -> PropertyValueView {
        match self {
            PropertyValue::Enum(s) => PropertyValueView::Enum(s@),
            PropertyValue::Integer(i) => PropertyValueView::Integer(*i),
            PropertyValue::Boolean(b) => PropertyValueView::Boolean(*b),
        }
    }
}

impl DeepCopy for PropertyValue {
    fn deep_copy(&self) -> (r: Self) {
        match self {
            PropertyValue::Enum(s) => PropertyValue::Enum(s.clone()),
            PropertyValue::Integer(i) => PropertyValue::Integer(*i),
            PropertyValue::Boolean(b) => PropertyValue::Boolean(*b),
        }
    }
}

/// A copy of a list of names.
fn copy_names(names: &Vec<String>) -> (r: Vec<String>)
    ensures
        r.deep_view() == names.deep_view(),
{
    let mut out: Vec<String> = Vec::new();
    let mut i: usize = 0;
    while i < names.len()
        invariant
            i <= names.len(),
            out@.len() == i,
            forall|j: int| 0 <= j < i ==> (#[trigger] out@[j])@ == names@[j]@,
        decreases names.len() - i,
    {
        out.push(names[i].clone());
        i = i + 1;
    }
    assert(out.deep_view() =~= names.deep_view());
    out
}

impl DeepCopy for PropertyType {
    fn deep_copy(&self) -> (r: Self) {
        match self {
            PropertyType::Enum(v) => PropertyType::Enum(copy_names(v)),
            PropertyType::Integer(lo, hi) => PropertyType::Integer(*lo, *hi),
            PropertyType::Boolean => PropertyType::Boolean,
        }
    }
}

/// Whether two property values are equal.
pub fn same_value(a: &PropertyValue, b: &PropertyValue) -> (r: bool)
    ensures
        r == (a.deep_view() == b.deep_view()),
{
    match (a, b) {
        (PropertyValue::Enum(x), PropertyValue::Enum(y)) => *x == *y,
        (PropertyValue::Integer(x), PropertyValue::Integer(y)) => *x == *y,
        (PropertyValue::Boolean(x), PropertyValue::Boolean(y)) => *x == *y,
        _ => false,
    }
}

/// The properties of a block state, by name.
pub type PropertyMap = StrMap<PropertyValue>;

/// Whether every entry of `a` is in `b` with the same value.
fn covered_by(a: &PropertyMap, b: &PropertyMap) -> (r: bool)
    requires
        a.wf(),
        b.wf(),
    ensures
        r == forall|k: Seq<char>|
            #[trigger] a@.contains_key(k) ==> b@.contains_key(k) && b@[k] == a@[k],
{
    let n = a.len();
    let mut i: usize = 0;
    while i < n
        invariant
            a.wf(),
            b.wf(),
            n == a.entries().len(),
            i <= n,
            forall|j: int|
                0 <= j < i ==> b@.contains_key((#[trigger] a.entries()[j]).0@) && b@[a.entries()[j].0@]
                    == a@[a.entries()[j].0@],
        decreases n - i,
    {
        proof {
            a.lemma_entry_in_view(i as int);
        }
        let ghost k = a.entries()[i as int].0@;
        match b.get(a.key_at(i)) {
            Some(v) => {
                if !same_value(v, a.value_at(i)) {
                    assert(a@.contains_key(k) && !(b@.contains_key(k) && b@[k] == a@[k]));
                    return false;
                }
            },
            None => {
                assert(a@.contains_key(k) && !b@.contains_key(k));
                return false;
            },
        }
        i = i + 1;
    }
    assert forall|k: Seq<char>| #[trigger] a@.contains_key(k) implies b@.contains_key(k) && b@[k]
        == a@[k] by {
        a.lemma_view_dom(k);
        let j = choose|j: int| 0 <= j < a.entries().len() && (#[trigger] a.entries()[j]).0@ == k;
        assert(b@.contains_key(a.entries()[j].0@));
    }
    true
}

impl MapKey for PropertyMap {
    open spec fn key_wf(&self) -> bool {
        self.wf()
    }

    fn same_key(&self, other: &Self) -> (r: bool) {
        let r = covered_by(self, other) && covered_by(other, self);
        if r {
            assert(self@ =~= other@);
        }
        r
    }
}


/// For each block name, each property name and the values it takes, in the
/// order in which the states list them.
pub type Gathered = Map<Seq<char>, Map<Seq<char>, Seq<Seq<char>>>>;

/// `g` with `value` appended to what property `key` of `block` takes.
pub open spec fn add_value(g: Gathered, block: Seq<char>, key: Seq<char>, value: Seq<char>) -> Gathered {
    let inner = g[block];
    let vals = if inner.contains_key(key) { inner[key] } else { Seq::empty() };
    g.insert(block, inner.insert(key, vals.push(value)))
}

/// `g` with the block and the values of its listed properties added.
pub open spec fn add_properties(g: Gathered, block: Seq<char>, props: Seq<SyncProperty>) -> Gathered
    decreases props.len(),
{
    if props.len() == 0 {
        if g.contains_key(block) { g } else { g.insert(block, Map::empty()) }
    } else {
        add_value(
            add_properties(g, block, props.drop_last()),
            block,
            props.last().name@,
            props.last().value@,
        )
    }
}

/// The property values of every block, gathered over the states.
pub open spec fn gather(states: Seq<SyncBlockState>) -> Gathered
    decreases states.len(),
{
    if states.len() == 0 {
        Map::empty()
    } else {
        add_properties(gather(states.drop_last()), states.last().name@, states.last().properties@)
    }
}

/// `lo` and `hi` are the least and the greatest number among the values.
pub open spec fn integer_bounds(vals: Set<Seq<char>>, lo: i32, hi: i32) -> bool {
    &&& exists|v: Seq<char>| #[trigger] vals.contains(v) && spec_parse_i32(v) == Some(lo)
    &&& exists|v: Seq<char>| #[trigger] vals.contains(v) && spec_parse_i32(v) == Some(hi)
    &&& forall|v: Seq<char>| #[trigger] vals.contains(v) ==> {
        &&& spec_parse_i32(v) is Some
        &&& lo <= spec_parse_i32(v).unwrap() <= hi
    }
}

/// The type inferred for a property from the distinct values it takes:
/// boolean when there are exactly two of them and one is `true`; else an
/// integer range when all of them are numbers (0 to 0 when there are
/// none); else the names, sorted.
pub open spec fn is_inferred_type(t: PropertyTypeView, vals: Set<Seq<char>>) -> bool {
    if vals.len() == 2 && vals.contains(true_text()) {
        t == PropertyTypeView::Boolean
    } else if forall|v: Seq<char>| #[trigger] vals.contains(v) ==> spec_parse_i32(v) is Some {
        &&& t is Integer
        &&& if vals == Set::<Seq<char>>::empty() {
            t->Integer_0 == 0 && t->Integer_1 == 0
        } else {
            integer_bounds(vals, t->Integer_0, t->Integer_1)
        }
    } else {
        &&& t is Enum
        &&& strictly_sorted(t->Enum_0)
        &&& t->Enum_0.to_set() == vals
    }
}

/// The value a listed property takes under its inferred type.
pub open spec fn convert_value(t: PropertyTypeView, v: Seq<char>) -> PropertyValueView {
    match t {
        PropertyTypeView::Boolean => PropertyValueView::Boolean(v == true_text()),
        PropertyTypeView::Integer(_, _) => PropertyValueView::Integer(
            match spec_parse_i32(v) {
                Some(x) => x,
                None => 0,
            },
        ),
        PropertyTypeView::Enum(_) => PropertyValueView::Enum(v),
    }
}

/// The properties of a listed state under its block's schema; a property
/// listed twice keeps its last value.
pub open spec fn state_properties(
    schema: Map<Seq<char>, PropertyTypeView>,
    props: Seq<SyncProperty>,
) -> Map<Seq<char>, PropertyValueView>
    decreases props.len(),
{
    if props.len() == 0 {
        Map::empty()
    } else {
        state_properties(schema, props.drop_last()).insert(
            props.last().name@,
            convert_value(schema[props.last().name@], props.last().value@),
        )
    }
}

/// The properties of the last default state of the block, or none.
pub open spec fn last_default(
    states: Seq<SyncBlockState>,
    block: Seq<char>,
    schema: Map<Seq<char>, PropertyTypeView>,
) -> Map<Seq<char>, PropertyValueView>
    decreases states.len(),
{
    if states.len() == 0 {
        Map::empty()
    } else if states.last().name@ == block && states.last().is_default {
        state_properties(schema, states.last().properties@)
    } else {
        last_default(states.drop_last(), block, schema)
    }
}

/// The id of each property combination of the block; a combination listed
/// twice keeps its last id.
pub open spec fn lookup_of(
    states: Seq<SyncBlockState>,
    block: Seq<char>,
    schema: Map<Seq<char>, PropertyTypeView>,
) -> Map<Map<Seq<char>, PropertyValueView>, i32>
    decreases states.len(),
{
    if states.len() == 0 {
        Map::empty()
    } else if states.last().name@ == block {
        lookup_of(states.drop_last(), block, schema).insert(
            state_properties(schema, states.last().properties@),
            states.last().id,
        )
    } else {
        lookup_of(states.drop_last(), block, schema)
    }
}

/// Inserts `s` into a strictly sorted list of names, unless it is there.
fn insert_sorted(u: &mut Vec<String>, s: &String)
    requires
        strictly_sorted(old(u).deep_view()),
    ensures
        strictly_sorted(final(u).deep_view()),
        final(u).deep_view().to_set() == old(u).deep_view().to_set().insert(s@),
{
    let ghost old_dv = u.deep_view();
    let n = u.len();
    let mut i: usize = 0;
    while i < n
        invariant
            n == u.len(),
            u.deep_view() == old_dv,
            old_dv == old(u).deep_view(),
            strictly_sorted(old_dv),
            i <= n,
            forall|j: int| 0 <= j < i ==> seq_less(#[trigger] old_dv[j], s@),
        decreases n - i,
    {
        assert(old_dv[i as int] == u@[i as int]@);
        if u[i] == *s {
            assert(old_dv.to_set().contains(old_dv[i as int]));
            assert(old_dv.to_set().insert(s@) =~= old_dv.to_set());
            return;
        }
        if str_less(s.as_str(), u[i].as_str()) {
            let c = s.clone();
            u.insert(i, c);
            let ghost new_dv = old_dv.insert(i as int, s@);
            assert(u.deep_view() =~= new_dv);
            assert forall|a: int, b: int| 0 <= a < b < new_dv.len() implies seq_less(
                #[trigger] new_dv[a],
                #[trigger] new_dv[b],
            ) by {
                if b == i {
                } else if a == i {
                    if b > i + 1 {
                        lemma_less_transitive(s@, old_dv[i as int], old_dv[b - 1]);
                    }
                } else if a < i && b > i {
                    assert(seq_less(old_dv[a], old_dv[b - 1]));
                } else if a > i {
                    assert(seq_less(old_dv[a - 1], old_dv[b - 1]));
                }
            }
            assert forall|x: Seq<char>| #[trigger] new_dv.to_set().contains(x) <==> old_dv.to_set().insert(
                s@,
            ).contains(x) by {
                if new_dv.to_set().contains(x) {
                    let k = choose|k: int| 0 <= k < new_dv.len() && new_dv[k] == x;
                    if k < i {
                        assert(old_dv[k] == x);
                    } else if k > i {
                        assert(old_dv[k - 1] == x);
                    }
                }
                if old_dv.to_set().contains(x) && x != s@ {
                    let k = choose|k: int| 0 <= k < old_dv.len() && old_dv[k] == x;
                    if k < i {
                        assert(new_dv[k] == x);
                    } else {
                        assert(new_dv[k + 1] == x);
                    }
                }
                if x == s@ {
                    assert(new_dv[i as int] == x);
                }
            }
            assert(new_dv.to_set() =~= old_dv.to_set().insert(s@));
            assert(u.deep_view().to_set() == old_dv.to_set().insert(s@));
            return;
        }
        proof {
            lemma_less_total(old_dv[i as int], s@);
        }
        i = i + 1;
    }
    let c = s.clone();
    u.push(c);
    assert(u.deep_view() =~= old_dv.push(s@));
    assert(old_dv.push(s@) =~= old_dv + seq![s@]);
    proof {
        Seq::<Seq<char>>::lemma_to_set_insert_commutes(old_dv, s@);
    }
}

/// The distinct names of the list, strictly sorted.
fn sorted_distinct(values: &Vec<String>) -> (u: Vec<String>)
    ensures
        strictly_sorted(u.deep_view()),
        u.deep_view().to_set() == values.deep_view().to_set(),
{
    let mut u: Vec<String> = Vec::new();
    let mut i: usize = 0;
    assert(u.deep_view().to_set() =~= values.deep_view().take(0).to_set());
    while i < values.len()
        invariant
            i <= values.len(),
            strictly_sorted(u.deep_view()),
            u.deep_view().to_set() == values.deep_view().take(i as int).to_set(),
        decreases values.len() - i,
    {
        insert_sorted(&mut u, &values[i]);
        let ghost t = values.deep_view().take(i as int);
        assert(values.deep_view().take(i + 1) =~= t + seq![values[i as int]@]);
        proof {
            Seq::<Seq<char>>::lemma_to_set_insert_commutes(t, values[i as int]@);
        }
        i = i + 1;
    }
    assert(values.deep_view().take(values.len() as int) =~= values.deep_view());
    u
}

/// A strictly sorted list has as many distinct names as entries.
proof fn lemma_sorted_card(s: Seq<Seq<char>>)
    requires
        strictly_sorted(s),
    ensures
        s.to_set().len() == s.len(),
{
    assert forall|i: int, j: int| 0 <= i < s.len() && 0 <= j < s.len() && i != j implies s[i] != s[j] by {
        if i < j {
            assert(seq_less(s[i], s[j]));
            lemma_less_irreflexive(s[i]);
        } else {
            assert(seq_less(s[j], s[i]));
            lemma_less_irreflexive(s[j]);
        }
    }
    s.unique_seq_to_set();
}

/// The type of a property, inferred from the values it takes.
pub fn infer_type(values: &Vec<String>) -> (t: PropertyType)
    ensures
        is_inferred_type(t.deep_view(), values.deep_view().to_set()),
{
    if values.len() == 0 {
        assert(values.deep_view().to_set() =~= Set::<Seq<char>>::empty());
        return PropertyType::Integer(0, 0);
    }
    let u = sorted_distinct(values);
    let ghost vals = values.deep_view().to_set();
    let ghost udv = u.deep_view();
    proof {
        lemma_sorted_card(udv);
    }
    assert(vals.len() == u.len());
    if u.len() == 2 {
        assert(u[0]@ == udv[0]);
        assert(u[1]@ == udv[1]);
        if is_true_text(u[0].as_str()) || is_true_text(u[1].as_str()) {
            assert(udv.to_set().contains(udv[0]));
            assert(udv.to_set().contains(udv[1]));
            return PropertyType::Boolean;
        }
        assert(!vals.contains(true_text()));
    }
    assert(!(vals.len() == 2 && vals.contains(true_text())));
    assert(values.deep_view().to_set().contains(values.deep_view()[0]));
    let mut lo: i32 = 0;
    let mut hi: i32 = 0;
    let mut i: usize = 0;
    while i < u.len()
        invariant
            i <= u.len(),
            u.len() > 0,
            !(vals.len() == 2 && vals.contains(true_text())),
            udv == u.deep_view(),
            udv.to_set() == vals,
            vals == values.deep_view().to_set(),
            strictly_sorted(udv),
            forall|j: int| 0 <= j < i ==> (#[trigger] spec_parse_i32(udv[j])) is Some,
            i > 0 ==> exists|j: int| 0 <= j < i && spec_parse_i32(#[trigger] udv[j]) == Some(lo),
            i > 0 ==> exists|j: int| 0 <= j < i && spec_parse_i32(#[trigger] udv[j]) == Some(hi),
            forall|j: int| 0 <= j < i ==> lo <= (#[trigger] spec_parse_i32(udv[j])).unwrap() <= hi,
        decreases u.len() - i,
    {
        assert(u[i as int]@ == udv[i as int]);
        match parse_i32(u[i].as_str()) {
            Some(x) => {
                if i == 0 || x < lo {
                    lo = x;
                }
                if i == 0 || x > hi {
                    hi = x;
                }
            },
            None => {
                assert(vals.contains(udv[i as int]));
                assert(!(spec_parse_i32(udv[i as int]) is Some));
                assert(!(vals.len() == 2 && vals.contains(true_text())));
                assert(!(forall|v: Seq<char>| #[trigger] vals.contains(v) ==> spec_parse_i32(v) is Some));
                return PropertyType::Enum(u);
            },
        }
        i = i + 1;
    }
    assert forall|v: Seq<char>| #[trigger] vals.contains(v) implies spec_parse_i32(v) is Some && lo
        <= spec_parse_i32(v).unwrap() <= hi by {
        let j = choose|j: int| 0 <= j < udv.len() && udv[j] == v;
        assert(spec_parse_i32(udv[j]) is Some);
    }
    let ghost jl = choose|j: int| 0 <= j < u.len() && spec_parse_i32(#[trigger] udv[j]) == Some(lo);
    let ghost jh = choose|j: int| 0 <= j < u.len() && spec_parse_i32(#[trigger] udv[j]) == Some(hi);
    assert(vals.contains(udv[jl]));
    assert(vals.contains(udv[jh]));
    assert(!(vals.len() == 2 && vals.contains(true_text())));
    assert(integer_bounds(vals, lo, hi));
    PropertyType::Integer(lo, hi)
}


/// Every inner map of the gathered values is well formed.
pub open spec fn inner_maps_wf(g: StrMap<StrMap<Vec<String>>>) -> bool {
    forall|i: int| 0 <= i < g.entries().len() ==> (#[trigger] g.entries()[i]).1.wf()
}

/// Appends `value` to the values of `key`.
fn add_value_to(inner: &mut StrMap<Vec<String>>, key: &String, value: &String)
    requires
        old(inner).wf(),
    ensures
        final(inner).wf(),
        final(inner)@ == old(inner)@.insert(
            key@,
            (if old(inner)@.contains_key(key@) {
                old(inner)@[key@]
            } else {
                Seq::empty()
            }).push(value@),
        ),
{
    match inner.index_of(key) {
        Some(ix) => {
            proof {
                inner.lemma_entry_in_view(ix as int);
            }
            let ghost e = inner.entries();
            let ghost before = e[ix as int].1.deep_view();
            let vals = inner.value_at_mut(ix);
            vals.push(value.clone());
            assert(vals.deep_view() =~= before.push(value@));
            proof {
                lemma_entries_update(e, ix as int, (e[ix as int].0, *vals));
            }
            assert(inner.entries() == e.update(ix as int, (e[ix as int].0, *vals)));
        },
        None => {
            let mut vals: Vec<String> = Vec::new();
            vals.push(value.clone());
            assert(vals.deep_view() =~= Seq::<Seq<char>>::empty().push(value@));
            inner.insert(key.clone(), vals);
        },
    }
}

/// The values that each property of each block takes, over all states.
fn gather_values(states: &Vec<SyncBlockState>) -> (g: StrMap<StrMap<Vec<String>>>)
    ensures
        g.wf(),
        inner_maps_wf(g),
        g@ == gather(states@),
{
    let mut g: StrMap<StrMap<Vec<String>>> = StrMap::new();
    let mut i: usize = 0;
    while i < states.len()
        invariant
            i <= states.len(),
            g.wf(),
            inner_maps_wf(g),
            g@ == gather(states@.take(i as int)),
        decreases states.len() - i,
    {
        let st = &states[i];
        let ghost big = gather(states@.take(i as int));
        let ghost b = st.name@;
        let idx: usize = match g.index_of(&st.name) {
            Some(ix) => ix,
            None => {
                g.insert(st.name.clone(), StrMap::new());
                assert(g.entries()[g.entries().len() - 1].1.wf());
                assert(inner_maps_wf(g));
                g.len() - 1
            },
        };
        assert(g@ == add_properties(big, b, st.properties@.take(0)));
        let mut j: usize = 0;
        while j < st.properties.len()
            invariant
                j <= st.properties.len(),
                g.wf(),
                inner_maps_wf(g),
                idx < g.entries().len(),
                g.entries()[idx as int].0@ == b,
                b == st.name@,
                g@ == add_properties(big, b, st.properties@.take(j as int)),
            decreases st.properties.len() - j,
        {
            let p = &st.properties[j];
            let ghost e = g.entries();
            proof {
                g.lemma_entry_in_view(idx as int);
            }
            add_value_to(g.value_at_mut(idx), &p.name, &p.value);
            let ghost ne = g.entries();
            proof {
                lemma_entries_update(e, idx as int, ne[idx as int]);
            }
            assert forall|a: int| 0 <= a < ne.len() implies (#[trigger] ne[a]).1.wf() by {
                if a != idx {
                    assert(ne[a] == e[a]);
                }
            }
            assert(st.properties@.take(j + 1).drop_last() =~= st.properties@.take(j as int));
            j = j + 1;
        }
        assert(st.properties@.take(st.properties.len() as int) =~= st.properties@);
        assert(states@.take(i + 1).drop_last() =~= states@.take(i as int));
        i = i + 1;
    }
    assert(states@.take(states.len() as int) =~= states@);
    g
}


/// Every property of every gathered block takes at least one value.
pub open spec fn values_nonempty(g: Gathered) -> bool {
    forall|b: Seq<char>, k: Seq<char>|
        #[trigger] g.contains_key(b) && #[trigger] g[b].contains_key(k) ==> g[b][k].len() > 0
}

proof fn lemma_add_properties_nonempty(g: Gathered, block: Seq<char>, props: Seq<SyncProperty>)
    requires
        values_nonempty(g),
    ensures
        values_nonempty(add_properties(g, block, props)),
        add_properties(g, block, props).dom() == g.dom().insert(block),
    decreases props.len(),
{
    if props.len() > 0 {
        lemma_add_properties_nonempty(g, block, props.drop_last());
        let h = add_properties(g, block, props.drop_last());
        let r = add_properties(g, block, props);
        assert(r == add_value(h, block, props.last().name@, props.last().value@));
        assert(h.contains_key(block));
        assert forall|b: Seq<char>, k: Seq<char>|
            #[trigger] r.contains_key(b) && #[trigger] r[b].contains_key(k) implies r[b][k].len() > 0 by {
            if b == block && k == props.last().name@ {
                let inner = h[block];
                let vals = if inner.contains_key(k) { inner[k] } else { Seq::empty() };
                assert(r[b][k] == vals.push(props.last().value@));
            } else if b == block {
                assert(h[b].contains_key(k));
            } else {
                assert(h.contains_key(b) && h[b].contains_key(k));
            }
        }
        assert(r.dom() =~= g.dom().insert(block));
    } else {
        let r = add_properties(g, block, props);
        assert forall|b: Seq<char>, k: Seq<char>|
            #[trigger] r.contains_key(b) && #[trigger] r[b].contains_key(k) implies r[b][k].len() > 0 by {
            if !g.contains_key(block) && b == block {
                assert(r[b] == Map::<Seq<char>, Seq<Seq<char>>>::empty());
            } else {
                assert(g.contains_key(b) && g[b].contains_key(k));
            }
        }
        assert(r.dom() =~= g.dom().insert(block));
    }
}

/// Every property in the gathered values takes a value, and the blocks are
/// those of the states.
pub proof fn lemma_gather_nonempty(states: Seq<SyncBlockState>)
    ensures
        values_nonempty(gather(states)),
    decreases states.len(),
{
    if states.len() > 0 {
        lemma_gather_nonempty(states.drop_last());
        lemma_add_properties_nonempty(
            gather(states.drop_last()),
            states.last().name@,
            states.last().properties@,
        );
    }
}

/// The property types of one block.
#[derive(Debug, Clone)]
pub struct BlockTypeSchema {
    pub name: String,
    pub property_types: StrMap<PropertyType>,
}

/// A schema with its names as character sequences.
pub struct SchemaView {
    pub name: Seq<char>,
    pub types: Map<Seq<char>, PropertyTypeView>,
}

impl DeepView for BlockTypeSchema {
    type V = SchemaView;

    open spec fn deep_view(&self) -> SchemaView {
        SchemaView { name: self.name@, types: self.property_types@ }
    }
}

/// The schema of block `b` is the one inferred from the values its
/// properties take.
pub open spec fn schema_fits(s: SchemaView, b: Seq<char>, gb: Map<Seq<char>, Seq<Seq<char>>>) -> bool {
    &&& s.name == b
    &&& s.types.dom() == gb.dom()
    &&& forall|k: Seq<char>| #[trigger] gb.contains_key(k) ==> is_inferred_type(s.types[k], gb[k].to_set())
}

/// Infers the schema of one block.
fn block_schema(name: &String, inner: &StrMap<Vec<String>>) -> (s: BlockTypeSchema)
    requires
        inner.wf(),
        forall|k: Seq<char>| #[trigger] inner@.contains_key(k) ==> inner@[k].len() > 0,
    ensures
        s.property_types.wf(),
        schema_fits(s.deep_view(), name@, inner@),
{
    let mut types: StrMap<PropertyType> = StrMap::new();
    let n = inner.len();
    let mut j: usize = 0;
    while j < n
        invariant
            inner.wf(),
            forall|k: Seq<char>| #[trigger] inner@.contains_key(k) ==> inner@[k].len() > 0,
            n == inner.entries().len(),
            j <= n,
            types.wf(),
            forall|k: Seq<char>|
                #[trigger] types@.contains_key(k) <==> exists|m: int|
                    0 <= m < j && (#[trigger] inner.entries()[m]).0@ == k,
            forall|k: Seq<char>|
                #[trigger] types@.contains_key(k) ==> inner@.contains_key(k) && is_inferred_type(
                    types@[k],
                    inner@[k].to_set(),
                ),
        decreases n - j,
    {
        proof {
            inner.lemma_entry_in_view(j as int);
        }
        let ghost kj = inner.entries()[j as int].0@;
        let t = infer_type(inner.value_at(j));
        let ghost old_types = types@;
        types.insert(inner.key_at(j).clone(), t);
        assert forall|k: Seq<char>| #[trigger] types@.contains_key(k) <==> exists|m: int|
            0 <= m < j + 1 && (#[trigger] inner.entries()[m]).0@ == k by {
            if k == kj {
                assert(inner.entries()[j as int].0@ == k);
            } else if types@.contains_key(k) {
                assert(old_types.contains_key(k));
            } else if exists|m: int| 0 <= m < j + 1 && (#[trigger] inner.entries()[m]).0@ == k {
                let m = choose|m: int| 0 <= m < j + 1 && (#[trigger] inner.entries()[m]).0@ == k;
                assert(m != j);
                assert(old_types.contains_key(k));
            }
        }
        j = j + 1;
    }
    assert forall|k: Seq<char>| #[trigger] inner@.contains_key(k) implies types@.contains_key(k) by {
        inner.lemma_view_dom(k);
        let m = choose|m: int| 0 <= m < inner.entries().len() && (#[trigger] inner.entries()[m]).0@ == k;
    }
    assert(types@.dom() =~= inner@.dom());
    BlockTypeSchema { name: name.clone(), property_types: types }
}

/// Every schema of the map has well-formed property types.
pub open spec fn schemas_wf(s: StrMap<BlockTypeSchema>) -> bool {
    forall|i: int| 0 <= i < s.entries().len() ==> (#[trigger] s.entries()[i]).1.property_types.wf()
}

/// Infers the schema of every block.
fn build_schemas(g: &StrMap<StrMap<Vec<String>>>) -> (s: StrMap<BlockTypeSchema>)
    requires
        g.wf(),
        inner_maps_wf(*g),
        values_nonempty(g@),
    ensures
        s.wf(),
        schemas_wf(s),
        s@.dom() == g@.dom(),
        forall|b: Seq<char>| #[trigger] g@.contains_key(b) ==> schema_fits(s@[b], b, g@[b]),
{
    let mut s: StrMap<BlockTypeSchema> = StrMap::new();
    let n = g.len();
    let mut i: usize = 0;
    while i < n
        invariant
            g.wf(),
            inner_maps_wf(*g),
            values_nonempty(g@),
            n == g.entries().len(),
            i <= n,
            s.wf(),
            schemas_wf(s),
            forall|b: Seq<char>|
                #[trigger] s@.contains_key(b) <==> exists|m: int|
                    0 <= m < i && (#[trigger] g.entries()[m]).0@ == b,
            forall|b: Seq<char>|
                #[trigger] s@.contains_key(b) ==> g@.contains_key(b) && schema_fits(s@[b], b, g@[b]),
        decreases n - i,
    {
        proof {
            g.lemma_entry_in_view(i as int);
        }
        let ghost bi = g.entries()[i as int].0@;
        assert(g.entries()[i as int].1.wf());
        assert forall|k: Seq<char>| #[trigger] g@[bi].contains_key(k) implies g@[bi][k].len() > 0 by {
            assert(g@.contains_key(bi) && g@[bi].contains_key(k));
        }
        let schema = block_schema(g.key_at(i), g.value_at(i));
        let ghost old_s = s@;
        let ghost old_e = s.entries();
        s.insert(g.key_at(i).clone(), schema);
        assert forall|a: int| 0 <= a < s.entries().len() implies (#[trigger] s.entries()[a]).1.property_types.wf() by {
            if a < old_e.len() && s.entries()[a] == old_e[a] {
                assert(old_e[a].1.property_types.wf());
            }
        }
        assert forall|b: Seq<char>| #[trigger] s@.contains_key(b) <==> exists|m: int|
            0 <= m < i + 1 && (#[trigger] g.entries()[m]).0@ == b by {
            if b == bi {
                assert(g.entries()[i as int].0@ == b);
            } else if s@.contains_key(b) {
                assert(old_s.contains_key(b));
            } else if exists|m: int| 0 <= m < i + 1 && (#[trigger] g.entries()[m]).0@ == b {
                let m = choose|m: int| 0 <= m < i + 1 && (#[trigger] g.entries()[m]).0@ == b;
                assert(m != i);
                assert(old_s.contains_key(b));
            }
        }
        i = i + 1;
    }
    assert forall|b: Seq<char>| #[trigger] g@.contains_key(b) implies s@.contains_key(b) by {
        g.lemma_view_dom(b);
        let m = choose|m: int| 0 <= m < g.entries().len() && (#[trigger] g.entries()[m]).0@ == b;
    }
    assert(s@.dom() =~= g@.dom());
    s
}


proof fn lemma_add_properties_dom(g: Gathered, block: Seq<char>, props: Seq<SyncProperty>)
    ensures
        add_properties(g, block, props).dom() == g.dom().insert(block),
        add_properties(g, block, props).contains_key(block),
        forall|b: Seq<char>, k: Seq<char>|
            #[trigger] g.contains_key(b) && #[trigger] g[b].contains_key(k) ==> add_properties(
                g,
                block,
                props,
            )[b].contains_key(k),
        forall|j: int|
            0 <= j < props.len() ==> add_properties(g, block, props)[block].contains_key(
                (#[trigger] props[j]).name@,
            ),
    decreases props.len(),
{
    let r = add_properties(g, block, props);
    if props.len() > 0 {
        lemma_add_properties_dom(g, block, props.drop_last());
        let h = add_properties(g, block, props.drop_last());
        assert(r == add_value(h, block, props.last().name@, props.last().value@));
        assert(r.dom() =~= g.dom().insert(block));
        assert forall|j: int| 0 <= j < props.len() implies r[block].contains_key(
            (#[trigger] props[j]).name@,
        ) by {
            if j < props.len() - 1 {
                assert(props.drop_last()[j] == props[j]);
            }
        }
    } else {
        assert(r.dom() =~= g.dom().insert(block));
    }
}

/// Everything that `g1` holds, `g2` holds too.
pub open spec fn covers(g1: Gathered, g2: Gathered) -> bool {
    &&& forall|b: Seq<char>| #[trigger] g1.contains_key(b) ==> g2.contains_key(b)
    &&& forall|b: Seq<char>, k: Seq<char>|
        g1.contains_key(b) && #[trigger] g1[b].contains_key(k) ==> g2[b].contains_key(k)
}

proof fn lemma_gather_prefix(states: Seq<SyncBlockState>, n: int)
    requires
        0 <= n <= states.len(),
    ensures
        covers(gather(states.take(n)), gather(states)),
    decreases states.len(),
{
    if n == states.len() {
        assert(states.take(n) =~= states);
    } else {
        lemma_gather_prefix(states.drop_last(), n);
        assert(states.drop_last().take(n) =~= states.take(n));
        let g0 = gather(states.drop_last());
        lemma_add_properties_dom(g0, states.last().name@, states.last().properties@);
        let g1 = gather(states.take(n));
        let g3 = gather(states);
        assert forall|b: Seq<char>| #[trigger] g1.contains_key(b) implies g3.contains_key(b) by {
            assert(g0.contains_key(b));
        }
        assert forall|b: Seq<char>, k: Seq<char>| g1.contains_key(b) && #[trigger] g1[b].contains_key(k)
            implies g3[b].contains_key(k) by {
            assert(g0.contains_key(b));
            assert(g0[b].contains_key(k));
        }
    }
}

/// Every listed state's block, and each of its property names, is in the
/// gathered values.
proof fn lemma_gather_covers(states: Seq<SyncBlockState>, i: int)
    requires
        0 <= i < states.len(),
    ensures
        gather(states).contains_key(states[i].name@),
        forall|j: int|
            0 <= j < states[i].properties@.len() ==> gather(states)[states[i].name@].contains_key(
                (#[trigger] states[i].properties@[j]).name@,
            ),
{
    let t = states.take(i + 1);
    assert(t.drop_last() =~= states.take(i));
    assert(t.last() == states[i]);
    lemma_add_properties_dom(gather(states.take(i)), states[i].name@, states[i].properties@);
    lemma_gather_prefix(states, i + 1);
    assert forall|j: int| 0 <= j < states[i].properties@.len() implies gather(states)[states[i].name@].contains_key(
        (#[trigger] states[i].properties@[j]).name@,
    ) by {
        assert(gather(t)[states[i].name@].contains_key(states[i].properties@[j].name@));
    }
}

/// A block that no state names has no defaults and no states.
proof fn lemma_unseen_block(
    states: Seq<SyncBlockState>,
    b: Seq<char>,
    t: Map<Seq<char>, PropertyTypeView>,
)
    requires
        !gather(states).contains_key(b),
    ensures
        last_default(states, b, t) == Map::<Seq<char>, PropertyValueView>::empty(),
        lookup_of(states, b, t) == Map::<Map<Seq<char>, PropertyValueView>, i32>::empty(),
    decreases states.len(),
{
    if states.len() > 0 {
        lemma_add_properties_dom(gather(states.drop_last()), states.last().name@, states.last().properties@);
        lemma_unseen_block(states.drop_last(), b, t);
    }
}

/// The value a listed property takes under its type.
fn convert(t: &PropertyType, v: &String) -> (r: PropertyValue)
    ensures
        r.deep_view() == convert_value(t.deep_view(), v@),
{
    match t {
        PropertyType::Boolean => PropertyValue::Boolean(is_true_text(v.as_str())),
        PropertyType::Integer(_, _) => match parse_i32(v.as_str()) {
            Some(x) => PropertyValue::Integer(x),
            None => PropertyValue::Integer(0),
        },
        PropertyType::Enum(_) => PropertyValue::Enum(v.clone()),
    }
}

/// The properties of a listed state under its block's types.
fn state_props(types: &StrMap<PropertyType>, props: &Vec<SyncProperty>) -> (m: PropertyMap)
    requires
        types.wf(),
        forall|j: int| 0 <= j < props@.len() ==> types@.contains_key((#[trigger] props@[j]).name@),
    ensures
        m.wf(),
        m@ == state_properties(types@, props@),
{
    let mut m: PropertyMap = StrMap::new();
    let mut j: usize = 0;
    while j < props.len()
        invariant
            types.wf(),
            forall|a: int| 0 <= a < props@.len() ==> types@.contains_key((#[trigger] props@[a]).name@),
            j <= props.len(),
            m.wf(),
            m@ == state_properties(types@, props@.take(j as int)),
        decreases props.len() - j,
    {
        let p = &props[j];
        assert(types@.contains_key(props@[j as int].name@));
        let t = types.get(&p.name).unwrap();
        let v = convert(t, &p.value);
        m.insert(p.name.clone(), v);
        assert(props@.take(j + 1).drop_last() =~= props@.take(j as int));
        j = j + 1;
    }
    assert(props@.take(props.len() as int) =~= props@);
    m
}

/// A block state as registered.
#[derive(Debug, Clone)]
struct BlockState {
    pub id: i32,
    pub name: String,
    pub properties: PropertyMap,
}

/// A registered block state with its names as character sequences.
pub struct StateView {
    pub id: i32,
    pub name: Seq<char>,
    pub properties: Map<Seq<char>, PropertyValueView>,
}

impl DeepView for BlockState {
    type V = StateView;

    closed spec fn deep_view(&self) -> StateView {
        StateView { id: self.id, name: self.name@, properties: self.properties@ }
    }
}

/// All data of one block type: its schema, its default properties and the
/// state id of each combination of properties.
#[derive(Debug, Clone)]
pub struct BlockFamily {
    pub schema: BlockTypeSchema,
    pub default_properties: PropertyMap,
    pub state_lookup: AssocMap<PropertyMap, i32>,
}

/// A block family with its names as character sequences.
pub struct FamilyView {
    pub schema: SchemaView,
    pub defaults: Map<Seq<char>, PropertyValueView>,
    pub lookup: Map<Map<Seq<char>, PropertyValueView>, i32>,
}

impl DeepView for BlockFamily {
    type V = FamilyView;

    open spec fn deep_view(&self) -> FamilyView {
        FamilyView {
            schema: self.schema.deep_view(),
            defaults: self.default_properties@,
            lookup: self.state_lookup@,
        }
    }
}

impl BlockFamily {
    /// The maps of the family are well formed.
    pub open spec fn wf(&self) -> bool {
        &&& self.schema.property_types.wf()
        &&& self.default_properties.wf()
        &&& self.state_lookup.wf()
    }
}

/// Every family of the map is well formed.
pub open spec fn families_wf(m: StrMap<BlockFamily>) -> bool {
    forall|i: int| 0 <= i < m.entries().len() ==> (#[trigger] m.entries()[i]).1.wf()
}

/// Registers one state of the family.
fn record_state(f: &mut BlockFamily, props: &PropertyMap, id: i32, is_default: bool)
    requires
        old(f).wf(),
        props.wf(),
    ensures
        final(f).wf(),
        final(f).deep_view() == (FamilyView {
            schema: old(f).deep_view().schema,
            defaults: if is_default {
                props@
            } else {
                old(f).deep_view().defaults
            },
            lookup: old(f).deep_view().lookup.insert(props@, id),
        }),
{
    f.state_lookup.insert(props.copy(), id);
    if is_default {
        f.default_properties = props.copy();
    }
}

/// The schemas of the families.
pub open spec fn schemas_of(fams: Map<Seq<char>, FamilyView>) -> Map<Seq<char>, SchemaView> {
    Map::new(|b: Seq<char>| fams.contains_key(b), |b: Seq<char>| fams[b].schema)
}

/// The registered state of each id; an id listed twice keeps its last state.
pub open spec fn ids_of(states: Seq<SyncBlockState>, schemas: Map<Seq<char>, SchemaView>) -> Map<i32, StateView>
    decreases states.len(),
{
    if states.len() == 0 {
        Map::empty()
    } else {
        let st = states.last();
        ids_of(states.drop_last(), schemas).insert(
            st.id,
            StateView {
                id: st.id,
                name: st.name@,
                properties: state_properties(schemas[st.name@].types, st.properties@),
            },
        )
    }
}

/// The family of block `b` is the one built from the listed states.
pub open spec fn family_built(
    f: FamilyView,
    b: Seq<char>,
    states: Seq<SyncBlockState>,
    gb: Map<Seq<char>, Seq<Seq<char>>>,
) -> bool {
    &&& schema_fits(f.schema, b, gb)
    &&& f.defaults == last_default(states, b, f.schema.types)
    &&& f.lookup == lookup_of(states, b, f.schema.types)
}

/// A registry is the one built from the listed states: a family for each
/// block that a state names, and the last listed state of each id.
pub open spec fn registry_built(
    fams: Map<Seq<char>, FamilyView>,
    ids: Map<i32, StateView>,
    states: Seq<SyncBlockState>,
) -> bool {
    let g = gather(states);
    &&& fams.dom() == g.dom()
    &&& forall|b: Seq<char>| #[trigger] fams.contains_key(b) ==> family_built(fams[b], b, states, g[b])
    &&& ids == ids_of(states, schemas_of(fams))
}

/// The block states of the server: each state by id, and each block's family.
#[derive(Debug)]
pub struct BlockStateRegistry {
    id_to_state: HashMap<i32, BlockState>,
    name_to_family: StrMap<BlockFamily>,
}

/// The registered states of a map, by id.
pub open spec fn states_view(m: Map<i32, BlockState>) -> Map<i32, StateView> {
    Map::new(|id: i32| m.contains_key(id), |id: i32| m[id].deep_view())
}

/// A copy of a schema.
fn copy_schema(s: &BlockTypeSchema) -> (r: BlockTypeSchema)
    requires
        s.property_types.wf(),
    ensures
        r.property_types.wf(),
        r.deep_view() == s.deep_view(),
{
    BlockTypeSchema { name: s.name.clone(), property_types: s.property_types.copy() }
}

impl BlockStateRegistry {
    /// The family of each block, by name.
    pub closed spec fn families(&self) -> Map<Seq<char>, FamilyView> {
        self.name_to_family@
    }

    /// The registered state of each id.
    pub closed spec fn states(&self) -> Map<i32, StateView> {
        states_view(self.id_to_state@)
    }

    /// The maps of the registry are well formed.
    pub closed spec fn wf(&self) -> bool {
        &&& self.name_to_family.wf()
        &&& families_wf(self.name_to_family)
    }

    /// An empty registry.
    pub fn new() -> (r: Self)
        ensures
            r.wf(),
            r.families() == Map::<Seq<char>, FamilyView>::empty(),
            r.states() == Map::<i32, StateView>::empty(),
    {
        let r = BlockStateRegistry { id_to_state: HashMap::new(), name_to_family: StrMap::new() };
        assert(r.states() =~= Map::<i32, StateView>::empty());
        r
    }
}

/// Builds the registry from the block states that the server lists: the
/// property types of each block are inferred from the values its states
/// take, and every state is registered under its id and in its block's
/// family.
pub fn build_registry(sync: &crate::messages::SyncBlockStates) -> (r: BlockStateRegistry)
    ensures
        r.wf(),
        registry_built(r.families(), r.states(), sync.states@),
{
    broadcast use vstd::std_specs::hash::group_hash_axioms;

    let states = &sync.states;
    let ghost st_all = states@;
    let g = gather_values(states);
    proof {
        lemma_gather_nonempty(states@);
    }
    let schemas = build_schemas(&g);
    let ghost sv = schemas@;
    let mut id_to_state: HashMap<i32, BlockState> = HashMap::new();
    let mut fams: StrMap<BlockFamily> = StrMap::new();
    assert(states_view(id_to_state@) =~= ids_of(states@.take(0), sv));
    assert(gather(states@.take(0)) =~= Map::<Seq<char>, Map<Seq<char>, Seq<Seq<char>>>>::empty());
    let mut i: usize = 0;
    while i < states.len()
        invariant
            st_all == states@,
            i <= states.len(),
            schemas.wf(),
            schemas_wf(schemas),
            sv == schemas@,
            sv.dom() == gather(st_all).dom(),
            forall|b: Seq<char>|
                #[trigger] gather(st_all).contains_key(b) ==> schema_fits(sv[b], b, gather(st_all)[b]),
            fams.wf(),
            families_wf(fams),
            fams@.dom() == gather(st_all.take(i as int)).dom(),
            forall|b: Seq<char>|
                #[trigger] fams@.contains_key(b) ==> {
                    &&& fams@[b].schema == sv[b]
                    &&& fams@[b].defaults == last_default(st_all.take(i as int), b, sv[b].types)
                    &&& fams@[b].lookup == lookup_of(st_all.take(i as int), b, sv[b].types)
                },
            states_view(id_to_state@) == ids_of(st_all.take(i as int), sv),
        decreases states.len() - i,
    {
        let st = &states[i];
        let ghost b = st.name@;
        let ghost prev = st_all.take(i as int);
        let ghost next = st_all.take(i + 1);
        assert(next.drop_last() =~= prev);
        assert(next.last() == st_all[i as int]);
        proof {
            lemma_gather_covers(st_all, i as int);
            lemma_add_properties_dom(gather(prev), b, st.properties@);
            lemma_gather_prefix(st_all, i as int);
        }
        let six = schemas.index_of(&st.name).unwrap();
        proof {
            schemas.lemma_entry_in_view(six as int);
        }
        let schema = schemas.value_at(six);
        assert(schema.property_types.wf());
        assert forall|j: int| 0 <= j < st.properties@.len() implies schema.property_types@.contains_key(
            (#[trigger] st.properties@[j]).name@,
        ) by {
            assert(gather(st_all)[b].contains_key(st.properties@[j].name@));
        }
        let props = state_props(&schema.property_types, &st.properties);
        let ghost pv = props@;
        assert(pv == state_properties(sv[b].types, st.properties@));
        let ghost old_fams = fams@;
        match fams.index_of(&st.name) {
            Some(ix) => {
                let ghost e = fams.entries();
                proof {
                    fams.lemma_entry_in_view(ix as int);
                }
                assert(e[ix as int].1.wf());
                record_state(fams.value_at_mut(ix), &props, st.id, st.is_default);
                let ghost ne = fams.entries();
                proof {
                    lemma_entries_update(e, ix as int, ne[ix as int]);
                }
                assert forall|a: int| 0 <= a < ne.len() implies (#[trigger] ne[a]).1.wf() by {
                    if a != ix {
                        assert(ne[a] == e[a]);
                    }
                }
            },
            None => {
                proof {
                    lemma_unseen_block(prev, b, sv[b].types);
                }
                let mut fam = BlockFamily {
                    schema: copy_schema(schema),
                    default_properties: StrMap::new(),
                    state_lookup: AssocMap::new(),
                };
                record_state(&mut fam, &props, st.id, st.is_default);
                let ghost old_e = fams.entries();
                fams.insert(st.name.clone(), fam);
                assert forall|a: int| 0 <= a < fams.entries().len() implies (#[trigger] fams.entries()[a]).1.wf() by {
                    if a < old_e.len() && fams.entries()[a] == old_e[a] {
                        assert(old_e[a].1.wf());
                    }
                }
            },
        }
        assert(fams@.dom() =~= gather(next).dom());
        assert forall|c: Seq<char>| #[trigger] fams@.contains_key(c) implies {
            &&& fams@[c].schema == sv[c]
            &&& fams@[c].defaults == last_default(next, c, sv[c].types)
            &&& fams@[c].lookup == lookup_of(next, c, sv[c].types)
        } by {
            if c != b {
                assert(old_fams.contains_key(c));
            }
        }
        let bs = BlockState { id: st.id, name: st.name.clone(), properties: props };
        let ghost old_ids = id_to_state@;
        id_to_state.insert(st.id, bs);
        assert(states_view(id_to_state@) =~= ids_of(next, sv));
        i = i + 1;
    }
    assert(st_all.take(states.len() as int) =~= st_all);
    let r = BlockStateRegistry { id_to_state, name_to_family: fams };
    assert(schemas_of(r.families()) =~= sv);
    assert forall|c: Seq<char>| #[trigger] r.families().contains_key(c) implies family_built(
        r.families()[c],
        c,
        st_all,
        gather(st_all)[c],
    ) by {
        assert(gather(st_all).contains_key(c));
    }
    r
}


/// The value an override asks for, when its text is valid for the type: any
/// text for a boolean (only `true` is true), a number within the bounds for
/// an integer, one of the names for an enum.
pub open spec fn parse_override(t: PropertyTypeView, v: Seq<char>) -> Option<PropertyValueView> {
    match t {
        PropertyTypeView::Boolean => Some(PropertyValueView::Boolean(v == true_text())),
        PropertyTypeView::Integer(lo, hi) => match spec_parse_i32(v) {
            Some(x) => if lo <= x <= hi {
                Some(PropertyValueView::Integer(x))
            } else {
                None
            },
            None => None,
        },
        PropertyTypeView::Enum(names) => if names.contains(v) {
            Some(PropertyValueView::Enum(v))
        } else {
            None
        },
    }
}

/// The properties after the overrides, in order: an override of a property
/// the block has, with a valid value, sets that property; any other is
/// skipped.
pub open spec fn apply_overrides(
    types: Map<Seq<char>, PropertyTypeView>,
    props: Map<Seq<char>, PropertyValueView>,
    overrides: Seq<(String, String)>,
) -> Map<Seq<char>, PropertyValueView>
    decreases overrides.len(),
{
    if overrides.len() == 0 {
        props
    } else {
        let p = apply_overrides(types, props, overrides.drop_last());
        let k = overrides.last().0@;
        let v = overrides.last().1@;
        if types.contains_key(k) && parse_override(types[k], v) is Some {
            p.insert(k, parse_override(types[k], v).unwrap())
        } else {
            p
        }
    }
}

/// With no overrides the properties are the defaults.
pub proof fn lemma_no_overrides(types: Map<Seq<char>, PropertyTypeView>, props: Map<Seq<char>, PropertyValueView>)
    ensures
        apply_overrides(types, props, Seq::empty()) == props,
{
}

/// An override of a property the block lacks, or with a value its type does
/// not take, changes nothing: the properties are those the earlier
/// overrides gave.
pub proof fn lemma_skipped_override(
    types: Map<Seq<char>, PropertyTypeView>,
    props: Map<Seq<char>, PropertyValueView>,
    overrides: Seq<(String, String)>,
    o: (String, String),
)
    requires
        !types.contains_key(o.0@) || parse_override(types[o.0@], o.1@) is None,
    ensures
        apply_overrides(types, props, overrides.push(o)) == apply_overrides(types, props, overrides),
{
    assert(overrides.push(o).drop_last() =~= overrides);
}

/// A valid override sets its property to the value it names and leaves every
/// other property as the earlier overrides gave it.
pub proof fn lemma_valid_override(
    types: Map<Seq<char>, PropertyTypeView>,
    props: Map<Seq<char>, PropertyValueView>,
    overrides: Seq<(String, String)>,
    o: (String, String),
)
    requires
        types.contains_key(o.0@),
        parse_override(types[o.0@], o.1@) is Some,
    ensures
        apply_overrides(types, props, overrides.push(o)).contains_key(o.0@),
        apply_overrides(types, props, overrides.push(o))[o.0@] == parse_override(types[o.0@], o.1@).unwrap(),
        forall|k: Seq<char>| k != o.0@ ==> (#[trigger] apply_overrides(types, props, overrides.push(o)).contains_key(k)
            <==> apply_overrides(types, props, overrides).contains_key(k)),
        forall|k: Seq<char>| k != o.0@ && #[trigger] apply_overrides(types, props, overrides).contains_key(k)
            ==> apply_overrides(types, props, overrides.push(o))[k] == apply_overrides(types, props, overrides)[k],
{
    assert(overrides.push(o).drop_last() =~= overrides);
}

/// The state of block `name` whose properties are the block's defaults with
/// the overrides applied, if there is one.
pub open spec fn state_id_of(
    fams: Map<Seq<char>, FamilyView>,
    name: Seq<char>,
    overrides: Seq<(String, String)>,
) -> Option<i32> {
    if fams.contains_key(name) {
        let f = fams[name];
        let p = apply_overrides(f.schema.types, f.defaults, overrides);
        if f.lookup.contains_key(p) {
            Some(f.lookup[p])
        } else {
            None
        }
    } else {
        None
    }
}

/// Whether the names include `v`.
fn names_contain(names: &Vec<String>, v: &String) -> (r: bool)
    ensures
        r == names.deep_view().contains(v@),
{
    let mut i: usize = 0;
    while i < names.len()
        invariant
            i <= names.len(),
            forall|j: int| 0 <= j < i ==> names.deep_view()[j] != v@,
        decreases names.len() - i,
    {
        if names[i] == *v {
            assert(names.deep_view()[i as int] == v@);
            return true;
        }
        i = i + 1;
    }
    false
}

/// The value an override asks for under the type, when it is valid.
fn parse_override_value(t: &PropertyType, v: &String) -> (r: Option<PropertyValue>)
    ensures
        match r {
            Some(x) => parse_override(t.deep_view(), v@) == Some(x.deep_view()),
            None => parse_override(t.deep_view(), v@) is None,
        },
{
    match t {
        PropertyType::Boolean => Some(PropertyValue::Boolean(is_true_text(v.as_str()))),
        PropertyType::Integer(lo, hi) => match parse_i32(v.as_str()) {
            Some(x) => if *lo <= x && x <= *hi {
                Some(PropertyValue::Integer(x))
            } else {
                None
            },
            None => None,
        },
        PropertyType::Enum(names) => if names_contain(names, v) {
            Some(PropertyValue::Enum(v.clone()))
        } else {
            None
        },
    }
}

impl BlockStateRegistry {
    /// The id of the state of block `name` whose properties are the block's
    /// defaults with the overrides applied in order; an override of a
    /// property the block lacks, or with a value its type refuses, is
    /// skipped. `None` when the block is unknown or no state has those
    /// properties.
    pub fn get_state_id(&self, name: &str, overrides: Vec<(String, String)>) -> (r: Option<i32>)
        requires
            self.wf(),
        ensures
            r == state_id_of(self.families(), name@, overrides@),
    {
        let key = name.to_owned();
        let ix = match self.name_to_family.index_of(&key) {
            Some(ix) => ix,
            None => {
                return None;
            },
        };
        proof {
            self.name_to_family.lemma_entry_in_view(ix as int);
        }
        let family = self.name_to_family.value_at(ix);
        assert(family.wf());
        let ghost types = family.schema.property_types@;
        let mut props = family.default_properties.copy();
        let mut i: usize = 0;
        while i < overrides.len()
            invariant
                family.wf(),
                types == family.schema.property_types@,
                i <= overrides.len(),
                props.wf(),
                props@ == apply_overrides(types, family.default_properties@, overrides@.take(i as int)),
            decreases overrides.len() - i,
        {
            assert(overrides@.take(i + 1).drop_last() =~= overrides@.take(i as int));
            assert(overrides@.take(i + 1).last() == overrides@[i as int]);
            let (k, v) = (&overrides[i].0, &overrides[i].1);
            match family.schema.property_types.get(k) {
                Some(t) => match parse_override_value(t, v) {
                    Some(x) => {
                        props.insert(k.clone(), x);
                    },
                    None => {},
                },
                None => {},
            }
            i = i + 1;
        }
        assert(overrides@.take(overrides.len() as int) =~= overrides@);
        match family.state_lookup.get(&props) {
            Some(id) => Some(*id),
            None => None,
        }
    }

    /// The id of the state of block `name` with the given property overrides,
    /// or -1 when there is none; see `get_state_id`.
    pub fn get_block_state(&self, name: &str, props: Vec<(String, String)>) -> (r: i32)
        requires
            self.wf(),
        ensures
            r == match state_id_of(self.families(), name@, props@) {
                Some(id) => id,
                None => -1i32,
            },
    {
        match self.get_state_id(name, props) {
            Some(id) => id,
            None => -1,
        }
    }
}


/// Every value in `g1` is in `g2` too.
pub open spec fn covers_values(g1: Gathered, g2: Gathered) -> bool {
    forall|b: Seq<char>, k: Seq<char>, v: Seq<char>|
        g1.contains_key(b) && g1[b].contains_key(k) && #[trigger] g1[b][k].contains(v) ==> g2.contains_key(
            b,
        ) && g2[b].contains_key(k) && g2[b][k].contains(v)
}

proof fn lemma_add_properties_values(g: Gathered, block: Seq<char>, props: Seq<SyncProperty>)
    ensures
        covers_values(g, add_properties(g, block, props)),
        forall|j: int|
            0 <= j < props.len() ==> add_properties(g, block, props)[block][(#[trigger] props[j]).name@].contains(
                props[j].value@,
            ),
    decreases props.len(),
{
    let r = add_properties(g, block, props);
    lemma_add_properties_dom(g, block, props);
    if props.len() > 0 {
        lemma_add_properties_values(g, block, props.drop_last());
        lemma_add_properties_dom(g, block, props.drop_last());
        let h = add_properties(g, block, props.drop_last());
        let k0 = props.last().name@;
        let v0 = props.last().value@;
        assert(r == add_value(h, block, k0, v0));
        let inner = h[block];
        let vals = if inner.contains_key(k0) { inner[k0] } else { Seq::empty() };
        assert(r[block][k0] == vals.push(v0));
        assert forall|b: Seq<char>, k: Seq<char>, v: Seq<char>|
            g.contains_key(b) && g[b].contains_key(k) && #[trigger] g[b][k].contains(v) implies r.contains_key(
                b,
            ) && r[b].contains_key(k) && r[b][k].contains(v) by {
            assert(h[b][k].contains(v));
            if b == block && k == k0 {
                let a = choose|a: int| 0 <= a < h[b][k].len() && h[b][k][a] == v;
                assert(r[b][k][a] == v);
            }
        }
        assert forall|j: int| 0 <= j < props.len() implies r[block][(#[trigger] props[j]).name@].contains(
            props[j].value@,
        ) by {
            if j == props.len() - 1 {
                assert(r[block][k0][vals.len() as int] == v0);
            } else {
                assert(props.drop_last()[j] == props[j]);
                let kj = props[j].name@;
                assert(h[block][kj].contains(props[j].value@));
                if kj == k0 {
                    let a = choose|a: int| 0 <= a < h[block][kj].len() && h[block][kj][a] == props[j].value@;
                    assert(r[block][kj][a] == props[j].value@);
                }
            }
        }
    } else {
        assert forall|b: Seq<char>, k: Seq<char>, v: Seq<char>|
            g.contains_key(b) && g[b].contains_key(k) && #[trigger] g[b][k].contains(v) implies r.contains_key(
                b,
            ) && r[b].contains_key(k) && r[b][k].contains(v) by {
            assert(r[b] == g[b]);
        }
    }
}

proof fn lemma_gather_values_prefix(states: Seq<SyncBlockState>, n: int)
    requires
        0 <= n <= states.len(),
    ensures
        covers_values(gather(states.take(n)), gather(states)),
    decreases states.len(),
{
    if n == states.len() {
        assert(states.take(n) =~= states);
    } else {
        lemma_gather_values_prefix(states.drop_last(), n);
        assert(states.drop_last().take(n) =~= states.take(n));
        let g0 = gather(states.drop_last());
        lemma_add_properties_values(g0, states.last().name@, states.last().properties@);
        let g1 = gather(states.take(n));
        let g1d = gather(states.drop_last().take(n));
        assert(g1d == g1);
        let g3 = gather(states);
        assert forall|b: Seq<char>, k: Seq<char>, v: Seq<char>|
            g1.contains_key(b) && g1[b].contains_key(k) && #[trigger] g1[b][k].contains(v) implies g3.contains_key(
                b,
            ) && g3[b].contains_key(k) && g3[b][k].contains(v) by {
            assert(g1d[b][k].contains(v));
            assert(g0.contains_key(b) && g0[b].contains_key(k) && g0[b][k].contains(v));
        }
    }
}

/// Every listed value of a state is among the values gathered for its
/// block and property.
proof fn lemma_gather_value(states: Seq<SyncBlockState>, i: int, j: int)
    requires
        0 <= i < states.len(),
        0 <= j < states[i].properties@.len(),
    ensures
        gather(states).contains_key(states[i].name@),
        gather(states)[states[i].name@].contains_key(states[i].properties@[j].name@),
        gather(states)[states[i].name@][states[i].properties@[j].name@].contains(
            states[i].properties@[j].value@,
        ),
{
    let t = states.take(i + 1);
    assert(t.drop_last() =~= states.take(i));
    assert(t.last() == states[i]);
    lemma_add_properties_values(gather(states.take(i)), states[i].name@, states[i].properties@);
    lemma_add_properties_dom(gather(states.take(i)), states[i].name@, states[i].properties@);
    lemma_gather_values_prefix(states, i + 1);
    lemma_gather_covers(states, i);
    let p = states[i].properties@[j];
    assert(gather(t)[states[i].name@][p.name@].contains(p.value@));
}

/// A value that a property takes is a valid override under its inferred
/// type, and asks for the value it converts to.
proof fn lemma_override_of_listed_value(t: PropertyTypeView, vals: Set<Seq<char>>, v: Seq<char>)
    requires
        is_inferred_type(t, vals),
        vals.contains(v),
    ensures
        parse_override(t, v) == Some(convert_value(t, v)),
{
    if t is Enum {
        assert(t->Enum_0.to_set().contains(v));
    }
}

/// The names of a state's properties.
proof fn lemma_state_properties_dom(schema: Map<Seq<char>, PropertyTypeView>, props: Seq<SyncProperty>, k: Seq<char>)
    ensures
        state_properties(schema, props).contains_key(k) <==> exists|j: int|
            0 <= j < props.len() && (#[trigger] props[j]).name@ == k,
    decreases props.len(),
{
    if props.len() > 0 {
        lemma_state_properties_dom(schema, props.drop_last(), k);
        if exists|j: int| 0 <= j < props.len() && (#[trigger] props[j]).name@ == k {
            let j = choose|j: int| 0 <= j < props.len() && (#[trigger] props[j]).name@ == k;
            if j < props.len() - 1 {
                assert(props.drop_last()[j] == props[j]);
            }
        }
        if exists|j: int| 0 <= j < props.drop_last().len() && (#[trigger] props.drop_last()[j]).name@ == k {
            let j = choose|j: int| 0 <= j < props.drop_last().len() && (#[trigger] props.drop_last()[j]).name@ == k;
            assert(props[j] == props.drop_last()[j]);
        }
    }
}

/// Applying a state's own properties as overrides lays them over the
/// defaults.
proof fn lemma_overrides_of_state(
    types: Map<Seq<char>, PropertyTypeView>,
    defaults: Map<Seq<char>, PropertyValueView>,
    props: Seq<SyncProperty>,
    overrides: Seq<(String, String)>,
    vals: Map<Seq<char>, Set<Seq<char>>>,
)
    requires
        overrides.len() == props.len(),
        forall|j: int|
            0 <= j < overrides.len() ==> (#[trigger] overrides[j]).0@ == props[j].name@ && overrides[j].1@
                == props[j].value@,
        forall|j: int|
            0 <= j < props.len() ==> types.contains_key((#[trigger] props[j]).name@) && vals.contains_key(
                props[j].name@,
            ) && vals[props[j].name@].contains(props[j].value@) && is_inferred_type(
                types[props[j].name@],
                vals[props[j].name@],
            ),
    ensures
        apply_overrides(types, defaults, overrides) == defaults.union_prefer_right(
            state_properties(types, props),
        ),
    decreases props.len(),
{
    if props.len() == 0 {
        assert(defaults.union_prefer_right(state_properties(types, props)) =~= defaults);
    } else {
        assert forall|j: int| 0 <= j < overrides.drop_last().len() implies (#[trigger] overrides.drop_last()[j]).0@
            == props.drop_last()[j].name@ && overrides.drop_last()[j].1@ == props.drop_last()[j].value@ by {
            assert(overrides.drop_last()[j] == overrides[j]);
            assert(props.drop_last()[j] == props[j]);
        }
        assert forall|j: int| 0 <= j < props.drop_last().len() implies types.contains_key(
            (#[trigger] props.drop_last()[j]).name@,
        ) && vals.contains_key(props.drop_last()[j].name@) && vals[props.drop_last()[j].name@].contains(
            props.drop_last()[j].value@,
        ) && is_inferred_type(types[props.drop_last()[j].name@], vals[props.drop_last()[j].name@]) by {
            assert(props.drop_last()[j] == props[j]);
        }
        lemma_overrides_of_state(types, defaults, props.drop_last(), overrides.drop_last(), vals);
        let last = props.last();
        assert(last == props[props.len() - 1]);
        assert(overrides.last() == overrides[overrides.len() - 1]);
        lemma_override_of_listed_value(types[last.name@], vals[last.name@], last.value@);
        assert(apply_overrides(types, defaults, overrides) =~= defaults.union_prefer_right(
            state_properties(types, props),
        ));
    }
}

/// The lookup of a block holds a listed state's properties with its id when
/// no later state of the block has the same properties.
proof fn lemma_lookup_holds_state(
    states: Seq<SyncBlockState>,
    b: Seq<char>,
    t: Map<Seq<char>, PropertyTypeView>,
    i: int,
)
    requires
        0 <= i < states.len(),
        states[i].name@ == b,
        forall|j: int|
            i < j < states.len() && (#[trigger] states[j]).name@ == b ==> state_properties(
                t,
                states[j].properties@,
            ) != state_properties(t, states[i].properties@),
    ensures
        lookup_of(states, b, t).contains_key(state_properties(t, states[i].properties@)),
        lookup_of(states, b, t)[state_properties(t, states[i].properties@)] == states[i].id,
    decreases states.len(),
{
    if i < states.len() - 1 {
        assert forall|j: int| i < j < states.drop_last().len() && (#[trigger] states.drop_last()[j]).name@ == b implies state_properties(
            t,
            states.drop_last()[j].properties@,
        ) != state_properties(t, states.drop_last()[i].properties@) by {
            assert(states.drop_last()[j] == states[j]);
        }
        assert(states.drop_last()[i] == states[i]);
        lemma_lookup_holds_state(states.drop_last(), b, t, i);
        assert(states.last() == states[states.len() - 1]);
    } else {
        assert(states.last() == states[i]);
    }
}

/// Asking for a listed state's block, with that state's own properties as
/// the overrides, finds that state's id: when every default property of the
/// block is among the state's properties, and no later state of the block
/// has the same properties.
pub proof fn lemma_listed_state_found(
    fams: Map<Seq<char>, FamilyView>,
    ids: Map<i32, StateView>,
    states: Seq<SyncBlockState>,
    i: int,
    overrides: Seq<(String, String)>,
)
    requires
        registry_built(fams, ids, states),
        0 <= i < states.len(),
        overrides.len() == states[i].properties@.len(),
        forall|j: int|
            0 <= j < overrides.len() ==> (#[trigger] overrides[j]).0@ == states[i].properties@[j].name@
                && overrides[j].1@ == states[i].properties@[j].value@,
        forall|k: Seq<char>|
            #[trigger] fams[states[i].name@].defaults.contains_key(k) ==> exists|j: int|
                0 <= j < states[i].properties@.len() && (#[trigger] states[i].properties@[j]).name@ == k,
        forall|j: int|
            i < j < states.len() && (#[trigger] states[j]).name@ == states[i].name@ ==> state_properties(
                fams[states[i].name@].schema.types,
                states[j].properties@,
            ) != state_properties(fams[states[i].name@].schema.types, states[i].properties@),
    ensures
        state_id_of(fams, states[i].name@, overrides) == Some(states[i].id),
{
    let b = states[i].name@;
    let props = states[i].properties@;
    let g = gather(states);
    lemma_gather_covers(states, i);
    assert(fams.contains_key(b));
    let f = fams[b];
    let t = f.schema.types;
    let vals = Map::new(|k: Seq<char>| g[b].contains_key(k), |k: Seq<char>| g[b][k].to_set());
    assert forall|j: int| 0 <= j < props.len() implies t.contains_key((#[trigger] props[j]).name@)
        && vals.contains_key(props[j].name@) && vals[props[j].name@].contains(props[j].value@)
        && is_inferred_type(t[props[j].name@], vals[props[j].name@]) by {
        lemma_gather_value(states, i, j);
        assert(g[b].contains_key(props[j].name@));
    }
    lemma_overrides_of_state(t, f.defaults, props, overrides, vals);
    let sp = state_properties(t, props);
    assert forall|k: Seq<char>| #[trigger] f.defaults.contains_key(k) implies sp.contains_key(k) by {
        lemma_state_properties_dom(t, props, k);
    }
    assert(f.defaults.union_prefer_right(sp) =~= sp);
    lemma_lookup_holds_state(states, b, t, i);
}


proof fn lemma_last_default_is(
    states: Seq<SyncBlockState>,
    b: Seq<char>,
    t: Map<Seq<char>, PropertyTypeView>,
    i: int,
)
    requires
        0 <= i < states.len(),
        states[i].name@ == b,
        states[i].is_default,
        forall|j: int| i < j < states.len() && (#[trigger] states[j]).name@ == b ==> !states[j].is_default,
    ensures
        last_default(states, b, t) == state_properties(t, states[i].properties@),
    decreases states.len(),
{
    if i < states.len() - 1 {
        assert forall|j: int| i < j < states.drop_last().len() && (#[trigger] states.drop_last()[j]).name@ == b implies !states.drop_last()[j].is_default by {
            assert(states.drop_last()[j] == states[j]);
        }
        assert(states.drop_last()[i] == states[i]);
        lemma_last_default_is(states.drop_last(), b, t, i);
        assert(states.last() == states[states.len() - 1]);
    } else {
        assert(states.last() == states[i]);
    }
}

/// Asking for a block with no overrides finds its default state: the last
/// listed default state of the block, when no later state of the block has
/// the same properties.
pub proof fn lemma_default_state_found(
    fams: Map<Seq<char>, FamilyView>,
    ids: Map<i32, StateView>,
    states: Seq<SyncBlockState>,
    i: int,
)
    requires
        registry_built(fams, ids, states),
        0 <= i < states.len(),
        states[i].is_default,
        forall|j: int|
            i < j < states.len() && (#[trigger] states[j]).name@ == states[i].name@ ==> !states[j].is_default
                && state_properties(fams[states[i].name@].schema.types, states[j].properties@)
                != state_properties(fams[states[i].name@].schema.types, states[i].properties@),
    ensures
        state_id_of(fams, states[i].name@, Seq::<(String, String)>::empty()) == Some(states[i].id),
{
    let b = states[i].name@;
    lemma_gather_covers(states, i);
    assert(fams.contains_key(b));
    let t = fams[b].schema.types;
    lemma_last_default_is(states, b, t, i);
    lemma_lookup_holds_state(states, b, t, i);
}

} // verus!
