//! Items: scalars, lists and dictionaries.
//!
//! A dictionary keeps its entries in a list in which no key stands twice.
//! That is its invariant; what it is worth is the mathematical map from its
//! keys to what its items are worth.

use vstd::prelude::*;
use vstd::std_specs::cmp::PartialEqSpecImpl;

use super::identifier::Identifier;
use super::model::{distinct_keys, has_key, position_of, segments, store, to_map, ItemView};
use super::model::{lemma_segments_nonempty, lemma_store_in_dict, lemma_store_missing};
use super::model::{lemma_store_name, lemma_store_through_scalar};
use super::model::{lemma_to_map_at, lemma_to_map_len, lemma_to_map_push, lemma_to_map_update};
use super::state::{stored, State};
use super::Error;

verus! {

/// A scalar.
#[derive(Debug)]
pub enum Value {
    Null,
    IntValue(i64),
    StringValue(String),
}

/// The unit of data that flows through a program: a scalar, a list of
/// items, or a dictionary from strings to items.
#[derive(Debug)]
pub enum Item {
    Value(Value),
    Vec(Vec<Item>),
    Dict(ItemMap),
}

/// A dictionary from strings to items. No key stands in it twice; entries
/// keep the order in which their keys first came in.
#[derive(Debug)]
pub struct ItemMap {
    entries: Vec<(String, Item)>,
}

impl View for Value {
    type V = ItemView;

    open spec fn view(&self) -> ItemView {
        match self {
            Value::Null => ItemView::Null,
            Value::IntValue(i) => ItemView::Int(*i),
            Value::StringValue(s) => ItemView::Text(s@),
        }
    }
}

impl View for Item {
    type V = ItemView;

    open spec fn view(&self) -> ItemView
        decreases self, 0nat,
    {
        match self {
            Item::Value(v) => v@,
            Item::Vec(items) => ItemView::List(
                Seq::new(
                    items@.len(),
                    |i: int|
                        if 0 <= i < items@.len() {
                            items@[i]@
                        } else {
                            ItemView::Null
                        },
                ),
            ),
            Item::Dict(m) => ItemView::Dict(m@),
        }
    }
}

impl View for ItemMap {
    type V = Map<Seq<char>, ItemView>;

    closed spec fn view(&self) -> Map<Seq<char>, ItemView>
        decreases self, 1nat,
    {
        to_map(self.pairs())
    }
}

/// What an item that may be missing is worth.
pub open spec fn view_of(item: Option<Item>) -> Option<ItemView> {
    match item {
        Some(i) => Some(i@),
        None => None,
    }
}

/// What a borrowed item that may be missing is worth.
pub open spec fn view_of_ref(item: Option<&Item>) -> Option<ItemView> {
    match item {
        Some(i) => Some(i@),
        None => None,
    }
}

impl Value {
    /// The name of the scalar's kind, as error reports show it.
    pub fn kind_name(&self) -> (r: &str)
        ensures
            r@ == self@.kind_name(),
    {
        match self {
            Value::Null => "None",
            Value::IntValue(_) => "Int",
            Value::StringValue(_) => "String",
        }
    }

    /// A copy that is worth the same.
    fn copy(&self) -> (r: Value)
        ensures
            r@ == self@,
    {
        match self {
            Value::Null => Value::Null,
            Value::IntValue(i) => Value::IntValue(*i),
            Value::StringValue(s) => Value::StringValue(s.clone()),
        }
    }

    /// Whether two scalars are worth the same.
    pub fn same(&self, other: &Value) -> (r: bool)
        ensures
            r == (self@ == other@),
    {
        match (self, other) {
            (Value::Null, Value::Null) => true,
            (Value::IntValue(a), Value::IntValue(b)) => *a == *b,
            (Value::StringValue(a), Value::StringValue(b)) => *a == *b,
            _ => false,
        }
    }
}

impl Clone for Value {
    fn clone(&self) -> (r: Self)
        ensures
            r@ == self@,
    {
        self.copy()
    }
}

impl PartialEq for Value {
    fn eq(&self, other: &Self) -> (r: bool) {
        self.same(other)
    }
}

impl PartialEqSpecImpl for Value {
    open spec fn obeys_eq_spec() -> bool {
        true
    }

    open spec fn eq_spec(&self, other: &Self) -> bool {
        self@ == other@
    }
}

impl Item {
    /// What a list item is worth, element by element.
    pub open spec fn views(items: Seq<Item>) -> Seq<ItemView> {
        Seq::new(items.len(), |i: int| items[i]@)
    }

    /// A list item is worth the list of what its elements are worth.
    pub proof fn lemma_view_of_vec(items: Vec<Item>)
        ensures
            Item::Vec(items)@ == ItemView::List(Item::views(items@)),
    {
        reveal_with_fuel(<Item as View>::view, 2);
        let v = Item::Vec(items).view();
        assert(v matches ItemView::List(l) && l =~= Item::views(items@));
    }

    /// The name of the item's kind, as error reports show it.
    pub fn kind_name(&self) -> (r: &str)
        ensures
            r@ == self@.kind_name(),
    {
        match self {
            Item::Value(v) => v.kind_name(),
            Item::Vec(_) => {
                proof {
                    reveal_with_fuel(<Item as View>::view, 2);
                }
                "Array"
            },
            Item::Dict(_) => "Map",
        }
    }

    /// A copy that is worth the same.
    fn copy(&self) -> (r: Item)
        ensures
            r@ == self@,
        decreases self, 1nat,
    {
        match self {
            Item::Value(v) => Item::Value(v.copy()),
            Item::Vec(items) => {
                let copies = Item::copy_all(items);
                proof {
                    Item::lemma_view_of_vec(copies);
                    Item::lemma_view_of_vec(*items);
                    assert(Item::views(copies@) =~= Item::views(items@));
                }
                Item::Vec(copies)
            },
            Item::Dict(m) => Item::Dict(m.copy()),
        }
    }

    /// Copies of the items, in their order.
    fn copy_all(items: &Vec<Item>) -> (r: Vec<Item>)
        ensures
            r@.len() == items@.len(),
            forall|i: int| 0 <= i < items@.len() ==> (#[trigger] r@[i])@ == items@[i]@,
        decreases items, 0nat,
    {
        let mut copies: Vec<Item> = Vec::new();
        let mut i: usize = 0;
        while i < items.len()
            invariant
                i <= items@.len(),
                copies@.len() == i,
                forall|j: int| 0 <= j < i ==> (#[trigger] copies@[j])@ == items@[j]@,
            decreases items@.len() - i,
        {
            copies.push(items[i].copy());
            i += 1;
        }
        copies
    }

    /// Whether two items are worth the same: scalars by value, lists
    /// position by position, dictionaries key by key.
    pub fn same(&self, other: &Item) -> (r: bool)
        ensures
            r == (self@ == other@),
        decreases self, 1nat,
    {
        match (self, other) {
            (Item::Value(a), Item::Value(b)) => a.same(b),
            (Item::Vec(a), Item::Vec(b)) => {
                let r = Item::same_all(a, b);
                proof {
                    Item::lemma_view_of_vec(*a);
                    Item::lemma_view_of_vec(*b);
                    if r {
                        assert(Item::views(a@) =~= Item::views(b@));
                    } else if a@.len() == b@.len() {
                        let i = choose|i: int| 0 <= i < a@.len() && a@[i]@ != b@[i]@;
                        assert(Item::views(a@)[i] != Item::views(b@)[i]);
                    } else {
                        assert(Item::views(a@).len() != Item::views(b@).len());
                    }
                }
                r
            },
            (Item::Dict(a), Item::Dict(b)) => a.same(b),
            (Item::Value(a), _) => false,
            (Item::Vec(_), _) => false,
            (Item::Dict(_), _) => false,
        }
    }

    /// Whether two lists are as long as each other and hold, position by
    /// position, items that are worth the same.
    fn same_all(a: &Vec<Item>, b: &Vec<Item>) -> (r: bool)
        ensures
            r == (a@.len() == b@.len() && forall|i: int|
                0 <= i < a@.len() ==> (#[trigger] a@[i])@ == b@[i]@),
        decreases a, 0nat,
    {
        if a.len() != b.len() {
            return false;
        }
        let mut i: usize = 0;
        while i < a.len()
            invariant
                i <= a@.len(),
                a@.len() == b@.len(),
                forall|j: int| 0 <= j < i ==> (#[trigger] a@[j])@ == b@[j]@,
            decreases a@.len() - i,
        {
            if !a[i].same(&b[i]) {
                return false;
            }
            i += 1;
        }
        true
    }
}

impl Clone for Item {
    fn clone(&self) -> (r: Self)
        ensures
            r@ == self@,
    {
        self.copy()
    }
}

impl PartialEq for Item {
    fn eq(&self, other: &Self) -> (r: bool) {
        self.same(other)
    }
}

impl PartialEqSpecImpl for Item {
    open spec fn obeys_eq_spec() -> bool {
        true
    }

    open spec fn eq_spec(&self, other: &Self) -> bool {
        self@ == other@
    }
}

impl ItemMap {
    /// The entries as pairs of a key and what its item is worth, in order.
    pub closed spec fn pairs(&self) -> Seq<(Seq<char>, ItemView)>
        decreases self, 0nat,
    {
        Seq::new(
            self.entries@.len(),
            |i: int|
                if 0 <= i < self.entries@.len() {
                    (self.entries@[i].0@, self.entries@[i].1@)
                } else {
                    (Seq::empty(), ItemView::Null)
                },
        )
    }

    #[verifier::type_invariant]
    spec fn keys_are_distinct(&self) -> bool {
        forall|i: int, j: int|
            0 <= i < j < self.entries@.len() ==> (#[trigger] self.entries@[i]).0@ != (
            #[trigger] self.entries@[j]).0@
    }

    /// The pairs follow the entries one for one, so their keys are distinct.
    proof fn lemma_pairs(&self)
        requires
            self.keys_are_distinct(),
        ensures
            distinct_keys(self.pairs()),
            self.pairs().len() == self.entries@.len(),
            forall|i: int|
                0 <= i < self.entries@.len() ==> (#[trigger] self.pairs()[i]) == (
                    self.entries@[i].0@,
                    self.entries@[i].1@,
                ),
    {
        let pairs = self.pairs();
        assert forall|i: int, j: int| 0 <= i < j < pairs.len() implies (#[trigger] pairs[i]).0 != (
        #[trigger] pairs[j]).0 by {
            assert(self.entries@[i].0@ != self.entries@[j].0@);
        }
    }

    /// An empty dictionary: it has no entries, and is worth the empty map.
    pub fn new() -> (r: Self)
        ensures
            r.pairs() == Seq::<(Seq<char>, ItemView)>::empty(),
            r@ == Map::<Seq<char>, ItemView>::empty(),
    {
        let r = ItemMap { entries: Vec::new() };
        proof {
            assert(r.pairs() =~= Seq::<(Seq<char>, ItemView)>::empty());
            assert(r@ =~= Map::<Seq<char>, ItemView>::empty());
        }
        r
    }

    /// The number of keys.
    pub fn len(&self) -> (n: usize)
        ensures
            self@.dom().finite(),
            n == self@.dom().len(),
            n == self.pairs().len(),
            distinct_keys(self.pairs()),
            self@ == to_map(self.pairs()),
    {
        proof {
            use_type_invariant(self);
            self.lemma_pairs();
            lemma_to_map_len(self.pairs());
        }
        self.entries.len()
    }

    /// The key of the entry at position `i`.
    pub fn key_at(&self, i: usize) -> (r: &String)
        requires
            i < self.pairs().len(),
        ensures
            r@ == self.pairs()[i as int].0,
    {
        &self.entries[i].0
    }

    /// The item of the entry at position `i`.
    pub fn item_at(&self, i: usize) -> (r: &Item)
        requires
            i < self.pairs().len(),
        ensures
            r@ == self.pairs()[i as int].1,
            decreases_to!(self => r),
    {
        &self.entries[i].1
    }

    /// Where the key stands among the entries.
    fn position(&self, key: &String) -> (r: Option<usize>)
        ensures
            match r {
                Some(i) => i < self.entries@.len() && self.entries@[i as int].0@ == key@,
                None => forall|i: int|
                    0 <= i < self.entries@.len() ==> (#[trigger] self.entries@[i]).0@ != key@,
            },
    {
        let mut i: usize = 0;
        while i < self.entries.len()
            invariant
                i <= self.entries@.len(),
                forall|j: int| 0 <= j < i ==> (#[trigger] self.entries@[j]).0@ != key@,
            decreases self.entries@.len() - i,
        {
            if self.entries[i].0 == *key {
                return Some(i);
            }
            i += 1;
        }
        None
    }

    /// The item held under `key`, if there is one.
    pub fn get(&self, key: &str) -> (r: Option<&Item>)
        ensures
            match r {
                Some(item) => self@.contains_key(key@) && self@[key@] == item@,
                None => !self@.contains_key(key@),
            },
    {
        let owned = key.to_owned();
        self.find(&owned)
    }

    /// The item held under `key`, if there is one.
    pub(crate) fn find(&self, key: &String) -> (r: Option<&Item>)
        ensures
            match r {
                Some(item) => self@.contains_key(key@) && self@[key@] == item@,
                None => !self@.contains_key(key@),
            },
    {
        proof {
            use_type_invariant(self);
            self.lemma_pairs();
        }
        match self.position(key) {
            Some(i) => {
                proof {
                    lemma_to_map_at(self.pairs(), i as int);
                }
                Some(&self.entries[i].1)
            },
            None => {
                proof {
                    if has_key(self.pairs(), key@) {
                        let i = position_of(self.pairs(), key@);
                        assert(self.entries@[i].0@ != key@);
                    }
                }
                None
            },
        }
    }

    /// Binds `value` under `key` and gives back the item that was bound
    /// there before, if there was one.
    pub fn insert(&mut self, key: String, value: Item) -> (r: Option<Item>)
        ensures
            final(self)@ == old(self)@.insert(key@, value@),
            match r {
                Some(displaced) => old(self)@.contains_key(key@) && old(self)@[key@]
                    == displaced@,
                None => !old(self)@.contains_key(key@),
            },
            final(self).pairs() == (if has_key(old(self).pairs(), key@) {
                old(self).pairs().update(position_of(old(self).pairs(), key@), (key@, value@))
            } else {
                old(self).pairs().push((key@, value@))
            }),
    {
        proof {
            use_type_invariant(&*self);
            self.lemma_pairs();
        }
        let ghost before = *self;
        match self.position(&key) {
            Some(i) => {
                let mut entries: Vec<(String, Item)> = Vec::new();
                std::mem::swap(&mut self.entries, &mut entries);
                let mut value = value;
                std::mem::swap(&mut entries[i].1, &mut value);
                self.entries = entries;
                proof {
                    lemma_to_map_at(before.pairs(), i as int);
                    lemma_to_map_update(before.pairs(), i as int, self.entries@[i as int].1@);
                    assert(self.pairs() =~= before.pairs().update(
                        i as int,
                        (before.pairs()[i as int].0, self.entries@[i as int].1@),
                    ));
                    assert(has_key(before.pairs(), key@));
                }
                Some(value)
            },
            None => {
                proof {
                    if has_key(before.pairs(), key@) {
                        let i = position_of(before.pairs(), key@);
                        assert(before.entries@[i].0@ != key@);
                    }
                    lemma_to_map_push(before.pairs(), key@, value@);
                }
                let mut entries: Vec<(String, Item)> = Vec::new();
                std::mem::swap(&mut self.entries, &mut entries);
                entries.push((key, value));
                self.entries = entries;
                proof {
                    assert(self.pairs() =~= before.pairs().push((key@, value@)));
                }
                None
            },
        }
    }

    /// A copy that is worth the same.
    pub(crate) fn copy(&self) -> (r: ItemMap)
        ensures
            r@ == self@,
        decreases self, 0nat,
    {
        proof {
            use_type_invariant(self);
        }
        let mut entries: Vec<(String, Item)> = Vec::new();
        let mut i: usize = 0;
        while i < self.entries.len()
            invariant
                i <= self.entries@.len(),
                entries@.len() == i,
                forall|j: int|
                    0 <= j < i ==> (#[trigger] entries@[j]).0@ == self.entries@[j].0@
                        && entries@[j].1@ == self.entries@[j].1@,
            decreases self.entries@.len() - i,
        {
            entries.push((self.entries[i].0.clone(), self.entries[i].1.copy()));
            i += 1;
        }
        proof {
            assert forall|a: int, b: int| 0 <= a < b < entries@.len() implies (
            #[trigger] entries@[a]).0@ != (#[trigger] entries@[b]).0@ by {
                assert(self.entries@[a].0@ != self.entries@[b].0@);
            }
        }
        let r = ItemMap { entries };
        proof {
            assert(r.pairs() =~= self.pairs());
        }
        r
    }

    /// Whether two dictionaries hold the same keys, each with an item that
    /// is worth the same.
    pub fn same(&self, other: &ItemMap) -> (r: bool)
        ensures
            r == (self@ == other@),
        decreases self, 0nat,
    {
        proof {
            use_type_invariant(self);
            use_type_invariant(other);
            self.lemma_pairs();
            other.lemma_pairs();
            lemma_to_map_len(self.pairs());
            lemma_to_map_len(other.pairs());
        }
        if self.entries.len() != other.entries.len() {
            return false;
        }
        let mut i: usize = 0;
        while i < self.entries.len()
            invariant
                i <= self.entries@.len(),
                self.keys_are_distinct(),
                forall|j: int|
                    0 <= j < i ==> other@.contains_key((#[trigger] self.entries@[j]).0@)
                        && other@[self.entries@[j].0@] == self.entries@[j].1@,
            decreases self.entries@.len() - i,
        {
            proof {
                self.lemma_pairs();
                lemma_to_map_at(self.pairs(), i as int);
            }
            match other.find(&self.entries[i].0) {
                None => {
                    return false;
                },
                Some(item) => {
                    if !self.entries[i].1.same(item) {
                        return false;
                    }
                },
            }
            i += 1;
        }
        proof {
            assert forall|k: Seq<char>| self@.contains_key(k) implies other@.contains_key(k)
                && other@[k] == self@[k] by {
                let j = position_of(self.pairs(), k);
                lemma_to_map_at(self.pairs(), j);
                assert(self.entries@[j].0@ == k);
            }
            assert(self@.dom().subset_of(other@.dom()));
            vstd::set_lib::lemma_subset_equality(self@.dom(), other@.dom());
            assert(self@ =~= other@);
        }
        true
    }

    /// Binds `value` at the end of `rest` below the entry that `first`
    /// names, which is created as a dictionary where it is missing.
    pub(crate) fn set_below(&mut self, first: String, rest: Identifier, value: Item) -> (r: Result<
        Option<Item>,
        Error,
    >)
        ensures
            store(
                Some(ItemView::Dict(old(self)@)),
                Seq::empty(),
                seq![first@] + segments(rest@),
                value@,
            ) == stored(r, ItemView::Dict(final(self)@)),
            r is Err ==> final(self)@ == old(self)@,
        decreases rest@.len(), 2nat,
    {
        let ghost before = *self;
        let ghost path = seq![first@] + segments(rest@);
        let ghost rest_path = segments(rest@);
        proof {
            use_type_invariant(&*self);
            self.lemma_pairs();
            lemma_segments_nonempty(rest@);
            assert(path.skip(1) =~= rest_path);
            assert(path[0] == first@);
            lemma_store_in_dict(before@, Seq::empty(), path, value@);
        }
        match self.position(&first) {
            None => {
                proof {
                    if has_key(before.pairs(), first@) {
                        let i = position_of(before.pairs(), first@);
                        assert(before.entries@[i].0@ != first@);
                    }
                    assert(!before@.contains_key(first@));
                    lemma_store_missing(first@, rest_path, value@);
                    lemma_store_name(
                        Some(ItemView::Dict(Map::empty())),
                        first@,
                        Seq::empty(),
                        rest_path,
                        value@,
                    );
                }
                let mut fresh = ItemMap::new();
                match State::set_map(&mut fresh, rest, value) {
                    Ok(displaced) => {
                        self.insert(first, Item::Dict(fresh));
                        Ok(displaced)
                    },
                    Err(e) => Err(e),
                }
            },
            Some(i) => {
                let ghost child = before.entries@[i as int].1@;
                proof {
                    lemma_to_map_at(before.pairs(), i as int);
                    assert(before@.contains_key(first@) && before@[first@] == child);
                    if child.is_scalar() {
                        lemma_store_through_scalar(child, first@, rest_path, value@);
                    } else {
                        lemma_store_name(Some(child), first@, Seq::empty(), rest_path, value@);
                    }
                }
                let mut entries: Vec<(String, Item)> = Vec::new();
                std::mem::swap(&mut self.entries, &mut entries);
                let r = match &mut entries[i].1 {
                    Item::Dict(m) => State::set_map(m, rest, value),
                    Item::Vec(items) => {
                        proof {
                            Item::lemma_view_of_vec(*items);
                        }
                        let r = State::set_vec(items, rest, value);
                        proof {
                            Item::lemma_view_of_vec(*items);
                        }
                        r
                    },
                    Item::Value(scalar) => Err(
                        Error::NonMapAccess { field: first, t: scalar.kind_name().to_owned() },
                    ),
                };
                proof {
                    assert(entries@.len() == before.entries@.len());
                    assert(forall|j: int|
                        0 <= j < entries@.len() ==> (#[trigger] entries@[j]).0
                            == before.entries@[j].0);
                    assert(forall|j: int|
                        0 <= j < entries@.len() && j != i ==> (#[trigger] entries@[j])
                            == before.entries@[j]);
                }
                self.entries = entries;
                proof {
                    lemma_to_map_update(before.pairs(), i as int, self.entries@[i as int].1@);
                    assert(self.pairs() =~= before.pairs().update(
                        i as int,
                        (before.pairs()[i as int].0, self.entries@[i as int].1@),
                    ));
                    if r is Err {
                        assert(self.pairs() =~= before.pairs());
                    }
                }
                r
            },
        }
    }
}

impl Clone for ItemMap {
    fn clone(&self) -> (r: Self)
        ensures
            r@ == self@,
    {
        self.copy()
    }
}

impl PartialEq for ItemMap {
    fn eq(&self, other: &Self) -> (r: bool) {
        self.same(other)
    }
}

impl PartialEqSpecImpl for ItemMap {
    open spec fn obeys_eq_spec() -> bool {
        true
    }

    open spec fn eq_spec(&self, other: &Self) -> bool {
        self@ == other@
    }
}

} // verus!
