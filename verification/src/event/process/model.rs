//! The mathematical model of items, identifiers and state updates.
//!
//! Contracts throughout the crate are stated over the types and functions of
//! this module. An item is modelled as a tree; an identifier as the list of
//! its dot-separated segments; reading and writing the state as a walk down
//! the tree along that list.

use vstd::prelude::*;

verus! {

/// What an item is worth: a scalar, a list of items, or a dictionary from
/// keys to items. Two items are equal exactly when their views are.
pub enum ItemView {
    Null,
    Int(i64),
    Text(Seq<char>),
    List(Seq<ItemView>),
    Dict(Map<Seq<char>, ItemView>),
}

/// What an error is worth. The wording of an index that does not parse is
/// left out: it is for people to read.
pub enum ErrorView {
    NonMapAccess { field: Seq<char>, t: Seq<char> },
    IndexOutOfBound { index: nat, len: nat },
    InvalidIndex,
    Unimplemented,
}

impl ItemView {
    pub open spec fn is_scalar(self) -> bool {
        self is Null || self is Int || self is Text
    }

    /// The name of the item's kind, as error reports show it.
    pub open spec fn kind_name(self) -> Seq<char> {
        match self {
            ItemView::Null => "None"@,
            ItemView::Int(_) => "Int"@,
            ItemView::Text(_) => "String"@,
            ItemView::List(_) => "Array"@,
            ItemView::Dict(_) => "Map"@,
        }
    }
}

/// The position of the first `.` in `s`, or the length of `s` if it has none.
pub open spec fn dot_at(s: Seq<char>) -> nat
    decreases s.len(),
{
    if s.len() == 0 || s[0] == '.' {
        0
    } else {
        1 + dot_at(s.skip(1))
    }
}

/// The first segment of an identifier: everything before its first `.`.
pub open spec fn head(s: Seq<char>) -> Seq<char> {
    s.take(dot_at(s) as int)
}

/// What follows the first `.` of an identifier, if anything does.
pub open spec fn tail(s: Seq<char>) -> Option<Seq<char>> {
    if dot_at(s) + 1 < s.len() {
        Some(s.skip(dot_at(s) + 1 as int))
    } else {
        None
    }
}

/// The segments of an identifier, in order. There is always at least one.
pub open spec fn segments(s: Seq<char>) -> Seq<Seq<char>>
    decreases s.len(),
{
    match tail(s) {
        None => seq![head(s)],
        Some(rest) => seq![head(s)] + segments(rest),
    }
}

pub open spec fn is_digit(c: char) -> bool {
    '0' <= c && c <= '9'
}

/// The number that a string of decimal digits denotes.
pub open spec fn digits_value(s: Seq<char>) -> nat
    decreases s.len(),
{
    if s.len() == 0 {
        0
    } else {
        digits_value(s.drop_last()) * 10 + ((s.last() as u32) - ('0' as u32)) as nat
    }
}

/// Whether a string holds decimal digits only.
pub open spec fn all_digits(s: Seq<char>) -> bool {
    forall|i: int| 0 <= i < s.len() ==> is_digit(#[trigger] s[i])
}

/// The digits of a segment that is to be an index: the segment itself, or
/// what follows its leading `+`.
pub open spec fn index_digits(seg: Seq<char>) -> Seq<char> {
    if seg.len() > 0 && seg[0] == '+' {
        seg.skip(1)
    } else {
        seg
    }
}

/// The index that a segment denotes in a list: an optional `+`, then one or
/// more decimal digits, the whole no larger than `usize::MAX`.
pub open spec fn index_of(seg: Seq<char>) -> Option<nat> {
    let digits = index_digits(seg);
    if digits.len() > 0 && all_digits(digits) && digits_value(digits) <= usize::MAX {
        Some(digits_value(digits))
    } else {
        None
    }
}

/// The item that `node` holds under the segment `seg`: by key in a
/// dictionary, by index in a list, never in a scalar.
pub open spec fn child(node: ItemView, seg: Seq<char>) -> Option<ItemView> {
    match node {
        ItemView::Dict(m) => if m.contains_key(seg) {
            Some(m[seg])
        } else {
            None
        },
        ItemView::List(l) => match index_of(seg) {
            Some(i) => if i < l.len() {
                Some(l[i as int])
            } else {
                None
            },
            None => None,
        },
        _ => None,
    }
}

/// The item found by walking down from `node` along `path`.
pub open spec fn lookup(node: ItemView, path: Seq<Seq<char>>) -> Option<ItemView>
    decreases path.len(),
{
    if path.len() == 0 {
        Some(node)
    } else {
        match child(node, path[0]) {
            Some(c) => lookup(c, path.skip(1)),
            None => None,
        }
    }
}

/// Binds `value` at the end of `path` below `node`, and gives the new node
/// together with the item that was displaced, if there was one.
///
/// `node` is what stands at this place now (`None` where nothing does), and
/// `name` the segment under which it is held. Dictionaries that are missing
/// on the way are created; a list is never extended; a scalar on the way is
/// an error that names the segment under which the scalar was found.
pub open spec fn store(
    node: Option<ItemView>,
    name: Seq<char>,
    path: Seq<Seq<char>>,
    value: ItemView,
) -> Result<(ItemView, Option<ItemView>), ErrorView>
    decreases path.len(),
{
    if path.len() == 0 {
        Ok((value, node))
    } else {
        let seg = path[0];
        let rest = path.skip(1);
        match node {
            None => match store(None, seg, rest, value) {
                Ok((c, displaced)) => Ok((ItemView::Dict(Map::empty().insert(seg, c)), displaced)),
                Err(e) => Err(e),
            },
            Some(ItemView::Dict(m)) => {
                let at = if m.contains_key(seg) {
                    Some(m[seg])
                } else {
                    None
                };
                match store(at, seg, rest, value) {
                    Ok((c, displaced)) => Ok((ItemView::Dict(m.insert(seg, c)), displaced)),
                    Err(e) => Err(e),
                }
            },
            Some(ItemView::List(l)) => match index_of(seg) {
                None => Err(ErrorView::InvalidIndex),
                Some(i) => if i < l.len() {
                    match store(Some(l[i as int]), seg, rest, value) {
                        Ok((c, displaced)) => Ok((ItemView::List(l.update(i as int, c)), displaced)),
                        Err(e) => Err(e),
                    }
                } else {
                    Err(ErrorView::IndexOutOfBound { index: i, len: l.len() })
                },
            },
            Some(scalar) => Err(ErrorView::NonMapAccess { field: name, t: scalar.kind_name() }),
        }
    }
}

/// The item that a state holds under an identifier.
pub open spec fn state_get(state: Map<Seq<char>, ItemView>, id: Seq<char>) -> Option<ItemView> {
    lookup(ItemView::Dict(state), segments(id))
}

/// The state after binding `value` under an identifier, and the item that
/// was displaced.
pub open spec fn state_set(state: Map<Seq<char>, ItemView>, id: Seq<char>, value: ItemView) -> Result<
    (Map<Seq<char>, ItemView>, Option<ItemView>),
    ErrorView,
> {
    match store(Some(ItemView::Dict(state)), Seq::empty(), segments(id), value) {
        Ok((ItemView::Dict(m), displaced)) => Ok((m, displaced)),
        Ok((_, displaced)) => Ok((state, displaced)),
        Err(e) => Err(e),
    }
}

/// An identifier always has a first segment.
pub proof fn lemma_segments_nonempty(s: Seq<char>)
    ensures
        segments(s).len() > 0,
        segments(s)[0] == head(s),
        segments(s).skip(1) == match tail(s) {
            None => Seq::<Seq<char>>::empty(),
            Some(rest) => segments(rest),
        },
{
    match tail(s) {
        None => {
            assert(segments(s).skip(1) =~= Seq::<Seq<char>>::empty());
        },
        Some(rest) => {
            assert(segments(s).skip(1) =~= segments(rest));
        },
    }
}

/// Walking a path is walking its first `k` segments and then the rest.
pub proof fn lemma_lookup_split(node: ItemView, path: Seq<Seq<char>>, k: int)
    requires
        0 <= k <= path.len(),
    ensures
        lookup(node, path) == match lookup(node, path.take(k)) {
            Some(n) => lookup(n, path.skip(k)),
            None => None,
        },
    decreases k,
{
    if k == 0 {
        assert(path.take(0).len() == 0);
        assert(path.skip(0) =~= path);
    } else {
        let first = path.take(k);
        assert(first[0] == path[0]);
        assert(first.skip(1) =~= path.skip(1).take(k - 1));
        assert(path.skip(1).skip(k - 1) =~= path.skip(k));
        match child(node, path[0]) {
            Some(c) => {
                lemma_lookup_split(c, path.skip(1), k - 1);
            },
            None => {},
        }
    }
}

/// Round trip: an item that was stored under a path is found under it.
pub proof fn law_store_then_lookup(
    node: Option<ItemView>,
    name: Seq<char>,
    path: Seq<Seq<char>>,
    value: ItemView,
)
    requires
        store(node, name, path, value) is Ok,
    ensures
        lookup(store(node, name, path, value)->Ok_0.0, path) == Some(value),
    decreases path.len(),
{
    if path.len() > 0 {
        let seg = path[0];
        let rest = path.skip(1);
        match node {
            None => {
                law_store_then_lookup(None, seg, rest, value);
            },
            Some(ItemView::Dict(m)) => {
                let at = if m.contains_key(seg) {
                    Some(m[seg])
                } else {
                    None
                };
                law_store_then_lookup(at, seg, rest, value);
            },
            Some(ItemView::List(l)) => {
                let i = index_of(seg)->Some_0;
                law_store_then_lookup(Some(l[i as int]), seg, rest, value);
            },
            Some(_) => {},
        }
    }
}

/// Replacement: storing under a path that already holds an item succeeds,
/// hands that item back, and binds the new one in its place.
pub proof fn law_store_replaces(
    node: ItemView,
    name: Seq<char>,
    path: Seq<Seq<char>>,
    value: ItemView,
)
    requires
        lookup(node, path) is Some,
    ensures
        store(Some(node), name, path, value) is Ok,
        store(Some(node), name, path, value)->Ok_0.1 == lookup(node, path),
        lookup(store(Some(node), name, path, value)->Ok_0.0, path) == Some(value),
    decreases path.len(),
{
    if path.len() > 0 {
        let seg = path[0];
        let c = child(node, seg)->Some_0;
        law_store_replaces(c, seg, path.skip(1), value);
    }
    law_store_then_lookup(Some(node), name, path, value);
}

/// A lookup that finds nothing part of the way finds nothing at the end.
pub proof fn law_lookup_absent_prefix(node: ItemView, path: Seq<Seq<char>>, k: int)
    requires
        0 <= k <= path.len(),
        lookup(node, path.take(k)) is None,
    ensures
        lookup(node, path) is None,
{
    lemma_lookup_split(node, path, k);
}

/// A lookup that has to pass through a scalar finds nothing; it is no error.
pub proof fn law_lookup_through_scalar(node: ItemView, path: Seq<Seq<char>>, k: int)
    requires
        0 <= k < path.len(),
        lookup(node, path.take(k)) is Some,
        lookup(node, path.take(k))->Some_0.is_scalar(),
    ensures
        lookup(node, path) is None,
{
    lemma_lookup_split(node, path, k);
}

/// Storing below a dictionary gives a dictionary again.
pub proof fn lemma_store_keeps_dict(
    m: Map<Seq<char>, ItemView>,
    name: Seq<char>,
    path: Seq<Seq<char>>,
    value: ItemView,
)
    requires
        path.len() > 0,
        store(Some(ItemView::Dict(m)), name, path, value) is Ok,
    ensures
        store(Some(ItemView::Dict(m)), name, path, value)->Ok_0.0 is Dict,
{
}

/// Whether some pair of the list has the key `k`.
pub open spec fn has_key<V>(pairs: Seq<(Seq<char>, V)>, k: Seq<char>) -> bool {
    exists|i: int| 0 <= i < pairs.len() && (#[trigger] pairs[i]).0 == k
}

/// A position at which the list has the key `k`.
pub open spec fn position_of<V>(pairs: Seq<(Seq<char>, V)>, k: Seq<char>) -> int {
    choose|i: int| 0 <= i < pairs.len() && (#[trigger] pairs[i]).0 == k
}

/// No key stands twice in the list.
pub open spec fn distinct_keys<V>(pairs: Seq<(Seq<char>, V)>) -> bool {
    forall|i: int, j: int|
        0 <= i < j < pairs.len() ==> (#[trigger] pairs[i]).0 != (#[trigger] pairs[j]).0
}

/// The dictionary that a list of pairs with distinct keys stands for.
pub open spec fn to_map<V>(pairs: Seq<(Seq<char>, V)>) -> Map<Seq<char>, V> {
    Map::new(|k: Seq<char>| has_key(pairs, k), |k: Seq<char>| pairs[position_of(pairs, k)].1)
}

pub proof fn lemma_to_map_at<V>(pairs: Seq<(Seq<char>, V)>, i: int)
    requires
        distinct_keys(pairs),
        0 <= i < pairs.len(),
    ensures
        to_map(pairs).contains_key(pairs[i].0),
        to_map(pairs)[pairs[i].0] == pairs[i].1,
        position_of(pairs, pairs[i].0) == i,
{
    let k = pairs[i].0;
    assert(has_key(pairs, k));
    let j = position_of(pairs, k);
    assert(0 <= j < pairs.len() && pairs[j].0 == k);
    if j < i {
        assert(pairs[j].0 != pairs[i].0);
    } else if i < j {
        assert(pairs[i].0 != pairs[j].0);
    }
}

pub proof fn lemma_to_map_push<V>(pairs: Seq<(Seq<char>, V)>, k: Seq<char>, v: V)
    requires
        distinct_keys(pairs),
        !has_key(pairs, k),
    ensures
        distinct_keys(pairs.push((k, v))),
        to_map(pairs.push((k, v))) == to_map(pairs).insert(k, v),
{
    let grown = pairs.push((k, v));
    assert forall|i: int, j: int| 0 <= i < j < grown.len() implies (#[trigger] grown[i]).0 != (
    #[trigger] grown[j]).0 by {
        if j == pairs.len() {
            assert(pairs[i].0 != k);
        } else {
            assert(pairs[i].0 != pairs[j].0);
        }
    }
    assert forall|key: Seq<char>| has_key(grown, key) <==> (key == k || has_key(pairs, key)) by {
        if has_key(grown, key) {
            let i = position_of(grown, key);
            if i < pairs.len() {
                assert(pairs[i].0 == key);
            }
        }
        if key == k {
            assert(grown[pairs.len() as int].0 == k);
        }
        if has_key(pairs, key) {
            let i = position_of(pairs, key);
            assert(grown[i].0 == key);
        }
    }
    assert forall|key: Seq<char>| has_key(grown, key) implies to_map(grown)[key] == to_map(
        pairs,
    ).insert(k, v)[key] by {
        let i = position_of(grown, key);
        lemma_to_map_at(grown, i);
        if i < pairs.len() {
            lemma_to_map_at(pairs, i);
        }
    }
    assert(to_map(grown) =~= to_map(pairs).insert(k, v));
}

pub proof fn lemma_to_map_update<V>(pairs: Seq<(Seq<char>, V)>, i: int, v: V)
    requires
        distinct_keys(pairs),
        0 <= i < pairs.len(),
    ensures
        distinct_keys(pairs.update(i, (pairs[i].0, v))),
        to_map(pairs.update(i, (pairs[i].0, v))) == to_map(pairs).insert(pairs[i].0, v),
{
    let k = pairs[i].0;
    let changed = pairs.update(i, (k, v));
    assert forall|a: int, b: int| 0 <= a < b < changed.len() implies (#[trigger] changed[a]).0 != (
    #[trigger] changed[b]).0 by {
        assert(pairs[a].0 != pairs[b].0);
    }
    assert forall|key: Seq<char>| has_key(changed, key) <==> has_key(pairs, key) by {
        if has_key(changed, key) {
            let j = position_of(changed, key);
            assert(pairs[j].0 == key);
        }
        if has_key(pairs, key) {
            let j = position_of(pairs, key);
            assert(changed[j].0 == key);
        }
    }
    assert(has_key(pairs, k)) by {
        assert(pairs[i].0 == k);
    }
    assert forall|key: Seq<char>| has_key(changed, key) implies to_map(changed)[key] == to_map(
        pairs,
    ).insert(k, v)[key] by {
        let j = position_of(changed, key);
        lemma_to_map_at(changed, j);
        lemma_to_map_at(pairs, j);
    }
    assert(to_map(changed) =~= to_map(pairs).insert(k, v));
}

/// A list with distinct keys stands for a dictionary with as many keys.
pub proof fn lemma_to_map_len<V>(pairs: Seq<(Seq<char>, V)>)
    requires
        distinct_keys(pairs),
    ensures
        to_map(pairs).dom().finite(),
        to_map(pairs).dom().len() == pairs.len(),
    decreases pairs.len(),
{
    if pairs.len() == 0 {
        assert(to_map(pairs).dom() =~= Set::<Seq<char>>::empty());
    } else {
        let front = pairs.drop_last();
        let last = pairs.last();
        assert forall|i: int, j: int| 0 <= i < j < front.len() implies (#[trigger] front[i]).0 != (
        #[trigger] front[j]).0 by {
            assert(pairs[i].0 != pairs[j].0);
        }
        assert(!has_key(front, last.0)) by {
            if has_key(front, last.0) {
                let i = position_of(front, last.0);
                assert(pairs[i].0 != pairs[pairs.len() - 1].0);
            }
        }
        lemma_to_map_len(front);
        lemma_to_map_push(front, last.0, last.1);
        assert(front.push((last.0, last.1)) =~= pairs);
        assert(to_map(pairs).dom() =~= to_map(front).dom().insert(last.0));
    }
}

/// Below a dictionary or a list, and where nothing stands yet, the name
/// under which the node is held plays no part.
pub proof fn lemma_store_name(
    node: Option<ItemView>,
    a: Seq<char>,
    b: Seq<char>,
    path: Seq<Seq<char>>,
    value: ItemView,
)
    requires
        path.len() > 0,
        node matches Some(n) ==> !n.is_scalar(),
    ensures
        store(node, a, path, value) == store(node, b, path, value),
{
}

/// Storing where nothing stands is storing below an empty dictionary.
pub proof fn lemma_store_missing(name: Seq<char>, path: Seq<Seq<char>>, value: ItemView)
    requires
        path.len() > 0,
    ensures
        store(None, name, path, value) == store(
            Some(ItemView::Dict(Map::empty())),
            name,
            path,
            value,
        ),
{
}

/// One step of a write below a dictionary.
pub proof fn lemma_store_in_dict(
    m: Map<Seq<char>, ItemView>,
    name: Seq<char>,
    path: Seq<Seq<char>>,
    value: ItemView,
)
    requires
        path.len() > 0,
    ensures
        store(Some(ItemView::Dict(m)), name, path, value) == match store(
            if m.contains_key(path[0]) {
                Some(m[path[0]])
            } else {
                None
            },
            path[0],
            path.skip(1),
            value,
        ) {
            Ok((c, displaced)) => Ok((ItemView::Dict(m.insert(path[0], c)), displaced)),
            Err(e) => Err(e),
        },
{
}

/// One step of a write below a list.
pub proof fn lemma_store_in_list(
    l: Seq<ItemView>,
    name: Seq<char>,
    path: Seq<Seq<char>>,
    value: ItemView,
)
    requires
        path.len() > 0,
    ensures
        store(Some(ItemView::List(l)), name, path, value) == match index_of(path[0]) {
            None => Err(ErrorView::InvalidIndex),
            Some(i) => if i < l.len() {
                match store(Some(l[i as int]), path[0], path.skip(1), value) {
                    Ok((c, displaced)) => Ok((ItemView::List(l.update(i as int, c)), displaced)),
                    Err(e) => Err(e),
                }
            } else {
                Err(ErrorView::IndexOutOfBound { index: i, len: l.len() })
            },
        },
{
}

/// A write that has arrived binds the value and hands back what stood there.
pub proof fn lemma_store_here(node: Option<ItemView>, name: Seq<char>, value: ItemView)
    ensures
        store(node, name, Seq::empty(), value) == Ok::<(ItemView, Option<ItemView>), ErrorView>(
            (value, node),
        ),
{
}

/// A write cannot pass through a scalar.
pub proof fn lemma_store_through_scalar(
    node: ItemView,
    name: Seq<char>,
    path: Seq<Seq<char>>,
    value: ItemView,
)
    requires
        path.len() > 0,
        node.is_scalar(),
    ensures
        store(Some(node), name, path, value) == Err::<(ItemView, Option<ItemView>), ErrorView>(
            ErrorView::NonMapAccess { field: name, t: node.kind_name() },
        ),
{
}

/// Round trip on the state: an item that was bound under an identifier is
/// the item that is read under it.
pub proof fn law_set_then_get(state: Map<Seq<char>, ItemView>, id: Seq<char>, value: ItemView)
    requires
        state_set(state, id, value) is Ok,
    ensures
        state_get(state_set(state, id, value)->Ok_0.0, id) == Some(value),
{
    lemma_segments_nonempty(id);
    lemma_store_keeps_dict(state, Seq::empty(), segments(id), value);
    law_store_then_lookup(Some(ItemView::Dict(state)), Seq::empty(), segments(id), value);
}

/// Replacement on the state: binding under an identifier that is bound
/// already succeeds, hands back the item that was bound, and binds the new
/// one; so a second binding hands back the first.
pub proof fn law_set_replaces(state: Map<Seq<char>, ItemView>, id: Seq<char>, value: ItemView)
    requires
        state_get(state, id) is Some,
    ensures
        state_set(state, id, value) is Ok,
        state_set(state, id, value)->Ok_0.1 == state_get(state, id),
        state_get(state_set(state, id, value)->Ok_0.0, id) == Some(value),
{
    lemma_segments_nonempty(id);
    law_store_replaces(ItemView::Dict(state), Seq::empty(), segments(id), value);
    lemma_store_keeps_dict(state, Seq::empty(), segments(id), value);
}

/// Reading tolerates what is missing: under an identifier whose first
/// segment is not bound, or is bound to a scalar while more segments follow,
/// nothing is read, and that is no error.
pub proof fn law_get_tolerates_missing(state: Map<Seq<char>, ItemView>, id: Seq<char>)
    requires
        !state.contains_key(head(id)) || (tail(id) is Some && state[head(id)].is_scalar()),
    ensures
        state_get(state, id) is None,
{
    lemma_segments_nonempty(id);
    let path = segments(id);
    if state.contains_key(head(id)) {
        let rest = tail(id)->Some_0;
        lemma_segments_nonempty(rest);
        let scalar = state[head(id)];
        assert(child(ItemView::Dict(state), path[0]) == Some(scalar));
        assert(child(scalar, path.skip(1)[0]) is None);
        assert(lookup(scalar, path.skip(1)) is None);
    } else {
        assert(child(ItemView::Dict(state), path[0]) is None);
    }
}

} // verus!
