//! The program that is run on each message: operations and expressions.
//!
//! A program is a list of operations. Each takes the payload and the state
//! and gives the next payload and state; the first that fails ends the run.
//! What an expression or an operation does is defined here once, as a
//! function on the model, and the code is proved to do exactly that.

use vstd::prelude::*;

use super::codec::{from_document, json_from_slice, json_to_vec, to_document};
use super::codec::{json_parsed, json_text, yaml_parsed, yaml_text};
use super::codec::{yaml_from_slice, yaml_to_vec};
use super::model::{state_get, state_set, ErrorView, ItemView};
use super::{Error, Identifier, Item, ItemMap, State, Value};
use crate::event::sender::Payload;

verus! {

/// A text format for items.
#[derive(Debug, Clone, Copy)]
pub enum PayloadFormat {
    Yaml,
    Json,
}

/// The text of an item in a format.
pub open spec fn encoded(format: PayloadFormat, item: ItemView) -> Seq<u8> {
    match format {
        PayloadFormat::Yaml => yaml_text(item),
        PayloadFormat::Json => json_text(item),
    }
}

/// The item that bytes spell in a format, where they spell one.
pub open spec fn decoded(format: PayloadFormat, bytes: Seq<u8>) -> Option<ItemView> {
    match format {
        PayloadFormat::Yaml => yaml_parsed(bytes),
        PayloadFormat::Json => json_parsed(bytes),
    }
}

impl PayloadFormat {
    /// The item as text in this format. Every item has a text in either
    /// format, so this always succeeds.
    pub fn to_vec(&self, i: &Item) -> (r: Result<Vec<u8>, Error>)
        ensures
            r matches Ok(bytes) && bytes@ == encoded(*self, i@),
    {
        let doc = to_document(i);
        let bytes = match self {
            PayloadFormat::Yaml => yaml_to_vec(&doc),
            PayloadFormat::Json => json_to_vec(&doc),
        };
        match bytes {
            Some(bytes) => Ok(bytes),
            None => Err(Error::Unimplemented),
        }
    }

    /// The item that the payload spells in this format. Where it spells
    /// none, the error is `Unimplemented`.
    pub fn parse_payload(&self, payload: &Payload) -> (r: Result<Item, Error>)
        ensures
            match r {
                Ok(item) => decoded(*self, payload@) == Some(item@),
                Err(e) => decoded(*self, payload@) is None && e@ == ErrorView::Unimplemented,
            },
    {
        let doc = match self {
            PayloadFormat::Yaml => yaml_from_slice(payload.content.as_slice()),
            PayloadFormat::Json => json_from_slice(payload.content.as_slice()),
        };
        match doc {
            None => Err(Error::Unimplemented),
            Some(doc) => match from_document(doc) {
                Some(item) => Ok(item),
                None => Err(Error::Unimplemented),
            },
        }
    }
}

/// Binds the value of an expression under an identifier in the state.
#[derive(Debug)]
pub struct SetEnv {
    pub target: Identifier,
    pub value: Box<Expression>,
}

/// Replaces the payload by the text of the value of an expression.
#[derive(Debug)]
pub struct ToPayload {
    pub format: PayloadFormat,
    pub value: Box<Expression>,
}

/// An expression: it has an item for its value, and may change the state on
/// the way. It never changes the payload.
#[derive(Debug)]
pub enum Expression {
    /// The value of the inner expression, which is also bound in the state.
    SetEnv { set_env: SetEnv },
    /// The item bound in the state, or the null scalar where none is.
    GetEnv { get_env: Identifier },
    /// Reserved.
    FromJson { from_json: String },
    /// The item that the payload spells in the format.
    FromPayload { from_payload: PayloadFormat },
    /// A dictionary of the values of the expressions, taken in order.
    AsMap { as_map: ExpressionMap },
    /// The item itself.
    Item(Item),
}

/// Expressions by name. No name stands twice; the expressions keep the order
/// in which their names first came in, and are evaluated in that order.
#[derive(Debug)]
pub struct ExpressionMap {
    entries: Vec<(String, Expression)>,
}

/// No name stands twice in the list.
pub open spec fn distinct_names(entries: Seq<(String, Expression)>) -> bool {
    forall|i: int, j: int|
        0 <= i < j < entries.len() ==> (#[trigger] entries[i]).0@ != (#[trigger] entries[j]).0@
}

/// Whether no entry of the list has the name.
pub open spec fn unnamed(entries: Seq<(String, Expression)>, name: Seq<char>) -> bool {
    forall|i: int| 0 <= i < entries.len() ==> (#[trigger] entries[i]).0@ != name
}

/// Whether `after` is `before` with the expression at position `i`, which
/// stands under `name`, replaced by `expression`, and `displaced` is the
/// expression that stood there.
pub open spec fn replaced(
    before: Seq<(String, Expression)>,
    after: Seq<(String, Expression)>,
    i: int,
    name: Seq<char>,
    expression: Expression,
    displaced: Expression,
) -> bool {
    &&& 0 <= i < before.len()
    &&& before[i].0@ == name
    &&& displaced == before[i].1
    &&& after == before.update(i, (before[i].0, expression))
}

impl ExpressionMap {
    #[verifier::type_invariant]
    spec fn names_are_distinct(&self) -> bool {
        distinct_names(self.entries@)
    }

    /// The names with their expressions, in order.
    pub closed spec fn entries(&self) -> Seq<(String, Expression)> {
        self.entries@
    }

    /// No expressions.
    pub fn new() -> (r: Self)
        ensures
            r.entries() == Seq::<(String, Expression)>::empty(),
    {
        ExpressionMap { entries: Vec::new() }
    }

    /// The number of names. No two of them are the same.
    pub fn len(&self) -> (n: usize)
        ensures
            n == self.entries().len(),
            distinct_names(self.entries()),
    {
        proof {
            use_type_invariant(self);
        }
        self.entries.len()
    }

    /// Puts `expression` under `name`. Where the name is new, the entry goes
    /// to the end; where it is there already, the expression takes the place
    /// of the one that was there, which is handed back.
    pub fn insert(&mut self, name: String, expression: Expression) -> (r: Option<Expression>)
        ensures
            distinct_names(final(self).entries()),
            match r {
                Some(displaced) => exists|i: int|
                    replaced(
                        old(self).entries(),
                        final(self).entries(),
                        i,
                        name@,
                        expression,
                        displaced,
                    ),
                None => unnamed(old(self).entries(), name@) && final(self).entries() == old(
                    self,
                ).entries().push((name, expression)),
            },
    {
        proof {
            use_type_invariant(&*self);
        }
        let ghost before = self.entries@;
        let mut entries: Vec<(String, Expression)> = Vec::new();
        std::mem::swap(&mut self.entries, &mut entries);
        let mut i: usize = 0;
        while i < entries.len()
            invariant
                i <= entries@.len(),
                entries@ == before,
                before == old(self).entries(),
                distinct_names(before),
                self.entries@.len() == 0,
                forall|j: int| 0 <= j < i ==> (#[trigger] before[j]).0@ != name@,
            decreases entries@.len() - i,
        {
            if entries[i].0 == name {
                let mut slot = expression;
                std::mem::swap(&mut entries[i].1, &mut slot);
                proof {
                    assert(entries@ =~= before.update(i as int, (before[i as int].0, expression)));
                    assert forall|a: int, b: int| 0 <= a < b < entries@.len() implies (
                    #[trigger] entries@[a]).0@ != (#[trigger] entries@[b]).0@ by {
                        assert(before[a].0@ != before[b].0@);
                    }
                    assert(replaced(before, entries@, i as int, name@, expression, slot));
                }
                self.entries = entries;
                return Some(slot);
            }
            i += 1;
        }
        entries.push((name, expression));
        proof {
            assert forall|a: int, b: int| 0 <= a < b < entries@.len() implies (
            #[trigger] entries@[a]).0@ != (#[trigger] entries@[b]).0@ by {
                if b < before.len() {
                    assert(before[a].0@ != before[b].0@);
                } else {
                    assert(before[a].0@ != name@);
                }
            }
        }
        self.entries = entries;
        None
    }
}

/// One step of a program.
#[derive(Debug)]
pub enum Op {
    SetEnv { set_env: SetEnv },
    ToPayload { to_payload: ToPayload },
}

impl Expression {
    /// The value of the expression and the state after it, or the error that
    /// ends it.
    pub open spec fn value(self, payload: Seq<u8>, state: Map<Seq<char>, ItemView>) -> Result<
        (ItemView, Map<Seq<char>, ItemView>),
        ErrorView,
    >
        decreases self, 0nat,
    {
        match self {
            Expression::SetEnv { set_env } => match set_env.value.value(payload, state) {
                Ok((item, inner)) => match state_set(inner, set_env.target@, item) {
                    Ok((bound, _)) => Ok((item, bound)),
                    Err(e) => Err(e),
                },
                Err(e) => Err(e),
            },
            Expression::GetEnv { get_env } => Ok(
                (
                    match state_get(state, get_env@) {
                        Some(item) => item,
                        None => ItemView::Null,
                    },
                    state,
                ),
            ),
            Expression::FromJson { .. } => Err(ErrorView::Unimplemented),
            Expression::FromPayload { from_payload } => match decoded(from_payload, payload) {
                Some(item) => Ok((item, state)),
                None => Err(ErrorView::Unimplemented),
            },
            Expression::AsMap { as_map } => match Expression::values(
                as_map.entries(),
                payload,
                state,
            ) {
                Ok((m, after)) => Ok((ItemView::Dict(m), after)),
                Err(e) => Err(e),
            },
            Expression::Item(item) => Ok((item@, state)),
        }
    }

    /// The values of named expressions, taken from the first to the last,
    /// each in the state that the one before it left.
    pub open spec fn values(
        entries: Seq<(String, Expression)>,
        payload: Seq<u8>,
        state: Map<Seq<char>, ItemView>,
    ) -> Result<(Map<Seq<char>, ItemView>, Map<Seq<char>, ItemView>), ErrorView>
        decreases entries, 1nat,
    {
        if entries.len() == 0 {
            Ok((Map::empty(), state))
        } else {
            match Expression::values(entries.drop_last(), payload, state) {
                Ok((m, before)) => match entries.last().1.value(payload, before) {
                    Ok((item, after)) => Ok((m.insert(entries.last().0@, item), after)),
                    Err(e) => Err(e),
                },
                Err(e) => Err(e),
            }
        }
    }
}

/// What the outcome of an evaluation is worth.
pub open spec fn evaluated(r: Result<(Item, Payload, State), Error>) -> Result<
    (ItemView, Map<Seq<char>, ItemView>),
    ErrorView,
> {
    match r {
        Ok((item, _, state)) => Ok((item@, state@)),
        Err(e) => Err(e@),
    }
}

/// What the outcome of an operation or a program is worth.
pub open spec fn executed(r: Result<(Payload, State), Error>) -> Result<
    (Seq<u8>, Map<Seq<char>, ItemView>),
    ErrorView,
> {
    match r {
        Ok((payload, state)) => Ok((payload@, state@)),
        Err(e) => Err(e@),
    }
}

/// An error among the first expressions is the error of the whole list.
pub proof fn lemma_values_error(
    entries: Seq<(String, Expression)>,
    k: int,
    payload: Seq<u8>,
    state: Map<Seq<char>, ItemView>,
)
    requires
        0 <= k <= entries.len(),
        Expression::values(entries.take(k), payload, state) is Err,
    ensures
        Expression::values(entries, payload, state) == Expression::values(
            entries.take(k),
            payload,
            state,
        ),
    decreases entries.len() - k,
{
    if k == entries.len() {
        assert(entries.take(k) =~= entries);
    } else {
        assert(entries.take(k + 1).drop_last() =~= entries.take(k));
        lemma_values_error(entries, k + 1, payload, state);
    }
}

impl Expression {
    /// Evaluates the expression. The payload comes back as it went in.
    pub fn evaluate(&self, payload: Payload, state: State) -> (r: Result<
        (Item, Payload, State),
        Error,
    >)
        ensures
            self.value(payload@, state@) == evaluated(r),
            r matches Ok((_, p, _)) ==> p@ == payload@,
        decreases self, 1nat,
    {
        match self {
            Expression::SetEnv { set_env } => {
                match set_env.value.evaluate(payload, state) {
                    Ok((value, payload, new_state)) => {
                        let mut new_state = new_state;
                        match new_state.set(set_env.target.clone(), value.clone()) {
                            Ok(_) => Ok((value, payload, new_state)),
                            Err(e) => Err(e),
                        }
                    },
                    Err(e) => Err(e),
                }
            },
            Expression::GetEnv { get_env } => {
                let item = match state.get(get_env) {
                    Some(found) => found.clone(),
                    None => Item::Value(Value::Null),
                };
                Ok((item, payload, state))
            },
            Expression::FromPayload { from_payload } => {
                match from_payload.parse_payload(&payload) {
                    Ok(item) => Ok((item, payload, state)),
                    Err(e) => Err(e),
                }
            },
            Expression::Item(i) => Ok((i.clone(), payload, state)),
            Expression::FromJson { .. } => Err(Error::Unimplemented),
            Expression::AsMap { as_map } => {
                match Expression::evaluate_all(as_map, payload, state) {
                    Ok((m, payload, state)) => Ok((Item::Dict(m), payload, state)),
                    Err(e) => Err(e),
                }
            },
        }
    }

    /// Evaluates named expressions from the first to the last.
    fn evaluate_all(named: &ExpressionMap, payload: Payload, state: State) -> (r: Result<
        (ItemMap, Payload, State),
        Error,
    >)
        ensures
            match r {
                Ok((m, p, s)) => Expression::values(named.entries(), payload@, state@) == Ok::<
                    (Map<Seq<char>, ItemView>, Map<Seq<char>, ItemView>),
                    ErrorView,
                >((m@, s@)) && p@ == payload@,
                Err(e) => Expression::values(named.entries(), payload@, state@) == Err::<
                    (Map<Seq<char>, ItemView>, Map<Seq<char>, ItemView>),
                    ErrorView,
                >(e@),
            },
        decreases named, 0nat,
    {
        let ghost payload0 = payload@;
        let ghost state0 = state@;
        let ghost entries = named.entries@;
        let mut acc = ItemMap::new();
        let mut threaded = (payload, state);
        let mut i: usize = 0;
        proof {
            assert(entries.take(0) =~= Seq::<(String, Expression)>::empty());
        }
        while i < named.entries.len()
            invariant
                i <= entries.len(),
                entries == named.entries@,
                payload0 == payload@,
                state0 == state@,
                threaded.0@ == payload0,
                Expression::values(entries.take(i as int), payload0, state0) == Ok::<
                    (Map<Seq<char>, ItemView>, Map<Seq<char>, ItemView>),
                    ErrorView,
                >((acc@, threaded.1@)),
            decreases entries.len() - i,
        {
            let ghost state_before = threaded.1@;
            proof {
                assert(entries.take(i + 1).drop_last() =~= entries.take(i as int));
                assert(entries.take(i + 1).last() == entries[i as int]);
            }
            let (p, s) = threaded;
            match named.entries[i].1.evaluate(p, s) {
                Ok((item, p, s)) => {
                    acc.insert(named.entries[i].0.clone(), item);
                    threaded = (p, s);
                },
                Err(e) => {
                    proof {
                        assert(entries[i as int].1.value(payload0, state_before) is Err);
                        assert(Expression::values(entries.take(i + 1), payload0, state0) is Err);
                        lemma_values_error(entries, i + 1, payload0, state0);
                    }
                    return Err(e);
                },
            }
            i += 1;
        }
        proof {
            assert(entries.take(entries.len() as int) =~= entries);
        }
        Ok((acc, threaded.0, threaded.1))
    }
}

impl Op {
    /// The payload and the state after the operation, or the error that
    /// ends it.
    pub open spec fn effect(self, payload: Seq<u8>, state: Map<Seq<char>, ItemView>) -> Result<
        (Seq<u8>, Map<Seq<char>, ItemView>),
        ErrorView,
    > {
        match self {
            Op::SetEnv { set_env } => match set_env.value.value(payload, state) {
                Ok((item, inner)) => match state_set(inner, set_env.target@, item) {
                    Ok((bound, _)) => Ok((payload, bound)),
                    Err(e) => Err(e),
                },
                Err(e) => Err(e),
            },
            Op::ToPayload { to_payload } => match to_payload.value.value(payload, state) {
                Ok((item, after)) => Ok((encoded(to_payload.format, item), after)),
                Err(e) => Err(e),
            },
        }
    }

    /// Runs the operation.
    pub fn execute(&self, payload: Payload, state: State) -> (r: Result<(Payload, State), Error>)
        ensures
            self.effect(payload@, state@) == executed(r),
    {
        match self {
            Op::SetEnv { set_env } => {
                match set_env.value.evaluate(payload, state) {
                    Ok((value, payload, new_state)) => {
                        let mut new_state = new_state;
                        match new_state.set(set_env.target.clone(), value) {
                            Ok(_) => Ok((payload, new_state)),
                            Err(e) => Err(e),
                        }
                    },
                    Err(e) => Err(e),
                }
            },
            Op::ToPayload { to_payload } => {
                match to_payload.value.evaluate(payload, state) {
                    Ok((item, _, state)) => {
                        match to_payload.format.to_vec(&item) {
                            Ok(item_bytes) => Ok((Payload::new(item_bytes), state)),
                            Err(e) => Err(e),
                        }
                    },
                    Err(e) => Err(e),
                }
            },
        }
    }
}

/// The payload and the state after a program: its operations in order, each
/// on what the one before it left. The first error ends the run.
pub open spec fn program_effect(
    ops: Seq<Op>,
    payload: Seq<u8>,
    state: Map<Seq<char>, ItemView>,
) -> Result<(Seq<u8>, Map<Seq<char>, ItemView>), ErrorView>
    decreases ops.len(),
{
    if ops.len() == 0 {
        Ok((payload, state))
    } else {
        match program_effect(ops.drop_last(), payload, state) {
            Ok((p, s)) => ops.last().effect(p, s),
            Err(e) => Err(e),
        }
    }
}

/// An error among the first operations is the error of the whole program.
pub proof fn lemma_program_error(
    ops: Seq<Op>,
    k: int,
    payload: Seq<u8>,
    state: Map<Seq<char>, ItemView>,
)
    requires
        0 <= k <= ops.len(),
        program_effect(ops.take(k), payload, state) is Err,
    ensures
        program_effect(ops, payload, state) == program_effect(ops.take(k), payload, state),
    decreases ops.len() - k,
{
    if k == ops.len() {
        assert(ops.take(k) =~= ops);
    } else {
        assert(ops.take(k + 1).drop_last() =~= ops.take(k));
        lemma_program_error(ops, k + 1, payload, state);
    }
}

/// Runs a program on the bytes of a message, from the empty state.
pub fn run_program(ops: &Vec<Op>, payload: Payload) -> (r: Result<(Payload, State), Error>)
    ensures
        program_effect(ops@, payload@, Map::empty()) == executed(r),
{
    run_from(ops, payload, State::new())
}

/// Runs a program from a given payload and state.
pub fn run_from(ops: &Vec<Op>, payload: Payload, state: State) -> (r: Result<
    (Payload, State),
    Error,
>)
    ensures
        program_effect(ops@, payload@, state@) == executed(r),
{
    let ghost payload0 = payload@;
    let ghost state0 = state@;
    let mut threaded = (payload, state);
    let mut i: usize = 0;
    proof {
        assert(ops@.take(0) =~= Seq::<Op>::empty());
    }
    while i < ops.len()
        invariant
            i <= ops@.len(),
            payload0 == payload@,
            state0 == state@,
            program_effect(ops@.take(i as int), payload0, state0) == Ok::<
                (Seq<u8>, Map<Seq<char>, ItemView>),
                ErrorView,
            >((threaded.0@, threaded.1@)),
        decreases ops@.len() - i,
    {
        let ghost payload_before = threaded.0@;
        let ghost state_before = threaded.1@;
        proof {
            assert(ops@.take(i + 1).drop_last() =~= ops@.take(i as int));
            assert(ops@.take(i + 1).last() == ops@[i as int]);
        }
        let (p, s) = threaded;
        match ops[i].execute(p, s) {
            Ok((p, s)) => {
                threaded = (p, s);
            },
            Err(e) => {
                proof {
                    assert(ops@[i as int].effect(payload_before, state_before) is Err);
                    assert(program_effect(ops@.take(i + 1), payload0, state0) is Err);
                    lemma_program_error(ops@, i + 1, payload0, state0);
                }
                return Err(e);
            },
        }
        i += 1;
    }
    proof {
        assert(ops@.take(ops@.len() as int) =~= ops@);
    }
    Ok((threaded.0, threaded.1))
}

/// Identity: a program without operations leaves the payload as it is, and
/// the state empty.
pub proof fn law_empty_program(payload: Seq<u8>)
    ensures
        program_effect(Seq::empty(), payload, Map::empty()) == Ok::<
            (Seq<u8>, Map<Seq<char>, ItemView>),
            ErrorView,
        >((payload, Map::empty())),
{
}

/// Binding in the state never touches the payload.
pub proof fn law_set_env_keeps_payload(
    op: Op,
    payload: Seq<u8>,
    state: Map<Seq<char>, ItemView>,
)
    requires
        op is SetEnv,
        op.effect(payload, state) is Ok,
    ensures
        op.effect(payload, state)->Ok_0.0 == payload,
{
}

/// `to_payload` succeeds wherever its value can be evaluated; the payload
/// is then the text of the value in the format, and the state is what
/// evaluating the value left.
pub proof fn law_to_payload_replaces(
    op: Op,
    payload: Seq<u8>,
    state: Map<Seq<char>, ItemView>,
)
    requires
        op is ToPayload,
        op->to_payload.value.value(payload, state) is Ok,
    ensures
        op.effect(payload, state) is Ok,
        op.effect(payload, state)->Ok_0.0 == encoded(
            op->to_payload.format,
            op->to_payload.value.value(payload, state)->Ok_0.0,
        ),
        op.effect(payload, state)->Ok_0.1 == op->to_payload.value.value(payload, state)->Ok_0.1,
{
}

/// After `to_payload` of a literal item, the payload is the text of that
/// item, and the state is as it was.
pub proof fn law_to_payload_of_item(
    format: PayloadFormat,
    item: Item,
    payload: Seq<u8>,
    state: Map<Seq<char>, ItemView>,
)
    ensures
        (Op::ToPayload {
            to_payload: ToPayload { format, value: Box::new(Expression::Item(item)) },
        }).effect(payload, state) == Ok::<(Seq<u8>, Map<Seq<char>, ItemView>), ErrorView>(
            (encoded(format, item@), state),
        ),
{
}

/// Reading from the state never fails: where nothing is bound, the value is
/// the null scalar, and the state stays as it is.
pub proof fn law_get_env_never_fails(
    id: Identifier,
    payload: Seq<u8>,
    state: Map<Seq<char>, ItemView>,
)
    ensures
        (Expression::GetEnv { get_env: id }).value(payload, state) is Ok,
        (Expression::GetEnv { get_env: id }).value(payload, state)->Ok_0.1 == state,
        state_get(state, id@) is None ==> (Expression::GetEnv { get_env: id }).value(
            payload,
            state,
        )->Ok_0.0 == ItemView::Null,
{
}

/// The dictionary of `as_map` has exactly the names of its expressions for
/// keys.
pub proof fn law_as_map_has_the_names(
    entries: Seq<(String, Expression)>,
    payload: Seq<u8>,
    state: Map<Seq<char>, ItemView>,
)
    requires
        Expression::values(entries, payload, state) is Ok,
    ensures
        forall|k: Seq<char>|
            Expression::values(entries, payload, state)->Ok_0.0.contains_key(k) <==> exists|
                i: int,
            |
                0 <= i < entries.len() && (#[trigger] entries[i]).0@ == k,
    decreases entries.len(),
{
    if entries.len() > 0 {
        let front = entries.drop_last();
        law_as_map_has_the_names(front, payload, state);
        let m = Expression::values(entries, payload, state)->Ok_0.0;
        let before = Expression::values(front, payload, state)->Ok_0.0;
        assert forall|k: Seq<char>| m.contains_key(k) <==> exists|i: int|
            0 <= i < entries.len() && (#[trigger] entries[i]).0@ == k by {
            if m.contains_key(k) {
                if k == entries.last().0@ {
                    assert(entries[entries.len() - 1].0@ == k);
                } else {
                    assert(before.contains_key(k));
                    let i = choose|i: int| 0 <= i < front.len() && (#[trigger] front[i]).0@ == k;
                    assert(entries[i].0@ == k);
                }
            }
            if exists|i: int| 0 <= i < entries.len() && (#[trigger] entries[i]).0@ == k {
                let i = choose|i: int| 0 <= i < entries.len() && (#[trigger] entries[i]).0@ == k;
                if i < front.len() {
                    assert(front[i].0@ == k);
                }
            }
        }
    }
}

} // verus!
