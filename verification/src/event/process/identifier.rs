//! Identifiers: dotted names for places in the state.

use vstd::prelude::*;
use vstd::std_specs::convert::FromSpecImpl;

use super::model::{dot_at, head, segments, tail};

verus! {

/// A dotted name such as `a.b.0.c` for a place in the state.
#[derive(Debug)]
pub struct Identifier(String);

impl View for Identifier {
    type V = Seq<char>;

    closed spec fn view(&self) -> Seq<char> {
        self.0@
    }
}

impl Clone for Identifier {
    fn clone(&self) -> (r: Self)
        ensures
            r@ == self@,
    {
        Identifier(self.0.clone())
    }
}

impl Identifier {
    /// The identifier that a string spells.
    pub fn new(s: String) -> (r: Identifier)
        ensures
            r@ == s@,
    {
        Identifier(s)
    }

    /// The segments of the identifier, in order.
    pub open spec fn path(&self) -> Seq<Seq<char>> {
        segments(self@)
    }

    /// The identifier as it is written.
    pub fn to_string(&self) -> (r: String)
        ensures
            r@ == self@,
    {
        self.0.clone()
    }

    /// Splits off the first segment. What follows the first `.` is an
    /// identifier of its own; where nothing follows, there is none.
    pub fn split(&self) -> (r: (Option<String>, Option<Identifier>))
        ensures
            r.0 matches Some(first) && first@ == head(self@),
            match tail(self@) {
                Some(rest) => r.1 matches Some(id) && id@ == rest,
                None => r.1 is None,
            },
    {
        let s = self.0.as_str();
        let n = s.unicode_len();
        let mut i: usize = 0;
        let mut found = false;
        proof {
            assert(s@.skip(0) =~= s@);
        }
        while i < n && !found
            invariant
                n == s@.len(),
                i <= n,
                dot_at(s@) == i + dot_at(s@.skip(i as int)),
                found ==> i < n && s@[i as int] == '.',
            decreases n - i, if found { 0nat } else { 1nat },
        {
            if s.get_char(i) == '.' {
                found = true;
            } else {
                proof {
                    assert(s@.skip(i as int).skip(1) =~= s@.skip(i + 1));
                }
                i += 1;
            }
        }
        proof {
            assert(dot_at(s@) == i);
            assert(s@.subrange(0, i as int) =~= s@.take(i as int));
        }
        let first = s.substring_char(0, i).to_owned();
        let rest = if n - i > 1 {
            proof {
                assert(s@.subrange(i + 1, n as int) =~= s@.skip(i + 1));
            }
            Some(Identifier(s.substring_char(i + 1, n).to_owned()))
        } else {
            None
        };
        (Some(first), rest)
    }
}

impl From<String> for Identifier {
    fn from(s: String) -> (r: Self)
        ensures
            r@ == s@,
    {
        Identifier(s)
    }
}

impl FromSpecImpl<String> for Identifier {
    open spec fn obeys_from_spec() -> bool {
        false
    }

    open spec fn from_spec(s: String) -> Self {
        arbitrary()
    }
}

impl From<&str> for Identifier {
    fn from(s: &str) -> (r: Self)
        ensures
            r@ == s@,
    {
        Identifier(s.to_owned())
    }
}

impl FromSpecImpl<&str> for Identifier {
    open spec fn obeys_from_spec() -> bool {
        false
    }

    open spec fn from_spec(s: &str) -> Self {
        arbitrary()
    }
}

} // verus!
