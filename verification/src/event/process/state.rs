//! The state of one message, read and written by identifier.

use vstd::prelude::*;

use super::identifier::Identifier;
use super::item::{view_of, view_of_ref, Item, ItemMap};
use super::model::{index_of, lookup, segments, state_get, state_set, store, tail};
use super::model::{ErrorView, ItemView};
use super::model::{lemma_segments_nonempty, lemma_store_here, lemma_store_in_dict};
use super::model::{lemma_store_in_list, lemma_store_name, lemma_store_through_scalar};
use super::Error;

verus! {

/// What the outcome of a write is worth, given the node as it stands after
/// the write.
pub open spec fn stored(r: Result<Option<Item>, Error>, after: ItemView) -> Result<
    (ItemView, Option<ItemView>),
    ErrorView,
> {
    match r {
        Ok(displaced) => Ok((after, view_of(displaced))),
        Err(e) => Err(e@),
    }
}

/// What the outcome of a write to the state is worth, given the state as it
/// stands after the write.
pub open spec fn state_stored(
    r: Result<Option<Item>, Error>,
    after: Map<Seq<char>, ItemView>,
) -> Result<(Map<Seq<char>, ItemView>, Option<ItemView>), ErrorView> {
    match r {
        Ok(displaced) => Ok((after, view_of(displaced))),
        Err(e) => Err(e@),
    }
}

/// `std::num::ParseIntError`, the error of `str::parse` on an integer.
/// Nothing of its inside is known here; its text is handed on as the reason
/// of an invalid index.
#[verifier::external_type_specification]
#[verifier::external_body]
pub struct ExParseIntError(std::num::ParseIntError);

/// `str::parse::<usize>` of the standard library. The contract says what its
/// documentation says: the text is accepted when it is an optional `+`
/// followed by decimal digits only, at least one, whose value fits in a
/// `usize`; that value is then returned.
#[verifier::external_body]
fn parse_index(text: &str) -> (r: Result<usize, std::num::ParseIntError>)
    ensures
        match r {
            Ok(i) => index_of(text@) == Some(i as nat),
            Err(_) => index_of(text@) is None,
        },
{
    text.parse::<usize>()
}

/// The state of one message: a dictionary of items, read and written by
/// identifier.
#[derive(Debug)]
pub struct State(ItemMap);

impl View for State {
    type V = Map<Seq<char>, ItemView>;

    closed spec fn view(&self) -> Map<Seq<char>, ItemView> {
        self.0@
    }
}

impl Clone for State {
    fn clone(&self) -> (r: Self)
        ensures
            r@ == self@,
    {
        State(self.0.copy())
    }
}

impl State {
    /// The empty state.
    pub fn new() -> (r: Self)
        ensures
            r@ == Map::<Seq<char>, ItemView>::empty(),
    {
        State(ItemMap::new())
    }

    /// The number of keys at the top level.
    pub fn len(&self) -> (n: usize)
        ensures
            self@.dom().finite(),
            n == self@.dom().len(),
    {
        self.0.len()
    }

    /// The item bound under `key`, or `None` where the path leads nowhere:
    /// through a missing key, past the end of a list, or through a scalar.
    pub fn get(&self, key: &Identifier) -> (r: Option<&Item>)
        ensures
            view_of_ref(r) == state_get(self@, key@),
    {
        State::get_from_map(&self.0, key)
    }

    /// The item found by walking down from a dictionary along `key`.
    fn get_from_map<'a>(map: &'a ItemMap, key: &Identifier) -> (r: Option<&'a Item>)
        ensures
            view_of_ref(r) == lookup(ItemView::Dict(map@), segments(key@)),
        decreases key@.len() + 1, 0nat,
    {
        proof {
            lemma_segments_nonempty(key@);
        }
        let (first, rest) = key.split();
        proof {
            if rest is Some {
                assert(tail(key@) == Some(rest->Some_0@));
                assert(rest->Some_0@.len() < key@.len());
            }
        }
        match first {
            None => None,
            Some(first) => {
                let value = map.find(&first);
                State::get_from_child(rest, value)
            },
        }
    }

    /// The item found by walking down from a list along `key`.
    fn get_from_vec<'a>(vec: &'a Vec<Item>, key: &Identifier) -> (r: Option<&'a Item>)
        ensures
            view_of_ref(r) == lookup(ItemView::List(Item::views(vec@)), segments(key@)),
        decreases key@.len() + 1, 0nat,
    {
        proof {
            lemma_segments_nonempty(key@);
        }
        let (first, rest) = key.split();
        proof {
            if rest is Some {
                assert(tail(key@) == Some(rest->Some_0@));
                assert(rest->Some_0@.len() < key@.len());
            }
        }
        match first {
            None => None,
            Some(first) => {
                let value = match parse_index(first.as_str()) {
                    Ok(i) => if i < vec.len() {
                        Some(&vec[i])
                    } else {
                        None
                    },
                    Err(_) => None,
                };
                State::get_from_child(rest, value)
            },
        }
    }

    /// The item found by walking down from `value` along `path`; `value`
    /// itself where no path is left.
    fn get_from_child<'a>(path: Option<Identifier>, value: Option<&'a Item>) -> (r: Option<
        &'a Item,
    >)
        ensures
            view_of_ref(r) == match value {
                Some(v) => lookup(
                    v@,
                    match path {
                        Some(p) => segments(p@),
                        None => Seq::empty(),
                    },
                ),
                None => None,
            },
        decreases
                (match path {
                    Some(p) => p@.len() + 1,
                    None => 0,
                }),
                1nat,
    {
        match path {
            None => value,
            Some(recursive_key) => {
                proof {
                    lemma_segments_nonempty(recursive_key@);
                }
                match value {
                    None => None,
                    Some(v) => match v {
                        Item::Dict(m) => State::get_from_map(m, &recursive_key),
                        Item::Vec(items) => {
                            proof {
                                Item::lemma_view_of_vec(*items);
                            }
                            State::get_from_vec(items, &recursive_key)
                        },
                        Item::Value(_) => None,
                    },
                }
            },
        }
    }

    /// Binds `value` under `key` and gives back the item that was bound
    /// there before, if there was one. Dictionaries that are missing on the
    /// way are created. On an error the state is left as it was.
    pub fn set(&mut self, key: Identifier, value: Item) -> (r: Result<Option<Item>, Error>)
        ensures
            state_set(old(self)@, key@, value@) == state_stored(r, final(self)@),
            r is Err ==> final(self)@ == old(self)@,
    {
        State::set_map(&mut self.0, key, value)
    }

    /// Binds `value` at the end of `key` below a dictionary.
    pub(crate) fn set_map(map: &mut ItemMap, key: Identifier, value: Item) -> (r: Result<
        Option<Item>,
        Error,
    >)
        ensures
            store(Some(ItemView::Dict(old(map)@)), Seq::empty(), segments(key@), value@)
                == stored(r, ItemView::Dict(final(map)@)),
            r is Err ==> final(map)@ == old(map)@,
        decreases key@.len(), 1nat,
    {
        let ghost path = segments(key@);
        let ghost before = map@;
        proof {
            lemma_segments_nonempty(key@);
            lemma_store_in_dict(before, Seq::empty(), path, value@);
        }
        let (first, rest) = key.split();
        proof {
            if rest is Some {
                assert(tail(key@) == Some(rest->Some_0@));
                assert(rest->Some_0@.len() < key@.len());
            }
        }
        match first {
            None => Ok(None),
            Some(first) => match rest {
                None => {
                    proof {
                        let at = if before.contains_key(first@) {
                            Some(before[first@])
                        } else {
                            None
                        };
                        lemma_store_here(at, first@, value@);
                    }
                    Ok(map.insert(first, value))
                },
                Some(recursive_key) => {
                    proof {
                        assert(path =~= seq![first@] + segments(recursive_key@));
                    }
                    map.set_below(first, recursive_key, value)
                },
            },
        }
    }

    /// Binds `value` at the end of `key` below a list. The first segment
    /// has to be an index that the list has.
    pub(crate) fn set_vec(vec: &mut Vec<Item>, key: Identifier, value: Item) -> (r: Result<
        Option<Item>,
        Error,
    >)
        ensures
            store(
                Some(ItemView::List(Item::views(old(vec)@))),
                Seq::empty(),
                segments(key@),
                value@,
            ) == stored(r, ItemView::List(Item::views(final(vec)@))),
            r is Err ==> Item::views(final(vec)@) == Item::views(old(vec)@),
        decreases key@.len(), 1nat,
    {
        let ghost before = vec@;
        let ghost path = segments(key@);
        proof {
            lemma_segments_nonempty(key@);
            lemma_store_in_list(Item::views(before), Seq::empty(), path, value@);
        }
        let (first, rest) = key.split();
        proof {
            if rest is Some {
                assert(tail(key@) == Some(rest->Some_0@));
                assert(rest->Some_0@.len() < key@.len());
            }
        }
        let first = match first {
            None => {
                return Ok(None);
            },
            Some(first) => first,
        };
        let index = match parse_index(first.as_str()) {
            Ok(index) => index,
            Err(e) => {
                return Err(Error::InvalidIndex { reason: e.to_string() });
            },
        };
        if index >= vec.len() {
            return Err(Error::IndexOutOfBound { index, len: vec.len() });
        }
        let ghost child = before[index as int]@;
        match rest {
            None => {
                proof {
                    lemma_store_here(Some(child), first@, value@);
                }
                let mut value = value;
                std::mem::swap(&mut vec[index], &mut value);
                proof {
                    assert(Item::views(vec@) =~= Item::views(before).update(
                        index as int,
                        vec@[index as int]@,
                    ));
                }
                Ok(Some(value))
            },
            Some(recursive_key) => {
                let ghost rest_path = segments(recursive_key@);
                proof {
                    lemma_segments_nonempty(recursive_key@);
                    assert(path.skip(1) == rest_path);
                    if child.is_scalar() {
                        lemma_store_through_scalar(child, first@, rest_path, value@);
                    } else {
                        lemma_store_name(Some(child), first@, Seq::empty(), rest_path, value@);
                    }
                }
                let r = match &mut vec[index] {
                    Item::Dict(m) => State::set_map(m, recursive_key, value),
                    Item::Vec(items) => {
                        proof {
                            Item::lemma_view_of_vec(*items);
                        }
                        let r = State::set_vec(items, recursive_key, value);
                        proof {
                            Item::lemma_view_of_vec(*items);
                        }
                        r
                    },
                    Item::Value(scalar) => Err(
                        Error::NonMapAccess { field: first, t: scalar.kind_name().to_owned() },
                    ),
                };
                proof {
                    assert(Item::views(vec@) =~= Item::views(before).update(
                        index as int,
                        vec@[index as int]@,
                    ));
                    if r is Err {
                        assert(Item::views(vec@) =~= Item::views(before));
                    }
                }
                r
            },
        }
    }
}

} // verus!
