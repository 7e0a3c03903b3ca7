//! Typed-argument marshalling between the JSON wire format and the Wasm
//! value domain.
//!
//! An invocation body is an array of nullable JSON numbers.  The boundary
//! layer hands each element over as an [`Option<WireNumber>`]: `None` for a
//! JSON `null`, and otherwise the two numeric readings that the JSON value
//! admits (as a 64-bit signed integer, and as the bits of a 64-bit float).
//! Floating-point payloads travel as bit patterns; all narrowing and widening
//! happens at the engine boundary, so this module is pure integer logic.

use vstd::prelude::*;

use crate::models::TypeTag;

verus! {

/// The numeric readings of one JSON wire value.
///
/// `int_value` is `Some` exactly when the JSON number is an integer
/// representable in an `i64`; `float_text` is `Some` for every JSON number
/// and holds the decimal text of its closest 64-bit float.  A non-numeric
/// JSON value has both fields `None`.  Floats travel as text because their
/// decimal form round-trips exactly and keeps the library free of
/// floating-point arithmetic; the engine boundary parses the text.
#[derive(PartialEq, Eq, Debug)]
pub struct WireNumber {
    pub int_value: Option<i64>,
    pub float_text: Option<String>,
}

/// A typed Wasm value crossing the invocation boundary.
///
/// The `F32` and `F64` payloads are the decimal text of the float carried on
/// the wire; the engine wrapper parses it, narrowing to 32 bits for `F32`.
#[derive(PartialEq, Eq, Debug)]
pub enum WasmVal {
    I32(i32),
    I64(i64),
    F32(String),
    F64(String),
}

/// A JSON value of an invocation reply: an integer, the decimal text of a
/// float, or `null` for a return position of unknown type.
#[derive(PartialEq, Eq, Debug)]
pub enum WireOut {
    Int(i64),
    Float(String),
    Null,
}

/// An error raised while parsing or type-checking a request.
#[derive(Debug, PartialEq, Eq)]
pub enum RequestError {
    /// An invocation argument does not match its declared tag.
    InvalidType(TypeTag),
    /// An internal channel send or reply-receive failed.
    ChannelError(String),
    /// The uploaded bytecode failed validation.
    InvalidWasm(String),
    /// The request body did not parse or did not match the schema.
    InvalidJson(String),
    /// The referenced identifier is not in the store.
    InvalidId(String),
    /// The invocation argument count differs from the declared count.
    LengthArgsError { expect: usize, found: usize },
    /// The engine refused to compile the bytecode.
    CompileError(String),
    /// The exported function could not be instantiated or resolved.
    InstantiateError(String),
    /// The invocation trapped or failed while running.
    ExecutionError(String),
}

/// A declared wire shape for one argument: its type name and its label.
#[derive(Debug, PartialEq, Eq)]
pub struct FnTypeArgRequest {
    pub arg_type: String,
    pub name: String,
}

/// The present (non-`None`) elements of a sequence, in order.
pub open spec fn present<T>(s: Seq<Option<T>>) -> Seq<T>
    decreases s.len(),
{
    if s.len() == 0 {
        Seq::empty()
    } else {
        match s[0] {
            Some(x) => seq![x] + present(s.drop_first()),
            None => present(s.drop_first()),
        }
    }
}

proof fn lemma_present_push<T>(s: Seq<Option<T>>, x: Option<T>)
    ensures
        present(s.push(x)) == present(s) + (match x {
            Some(v) => seq![v],
            None => Seq::<T>::empty(),
        }),
    decreases s.len(),
{
    if s.len() == 0 {
        assert(s.push(x)[0] == x);
        assert(s.push(x).drop_first() =~= Seq::<Option<T>>::empty());
        assert(present(s.push(x).drop_first()) == present(Seq::<Option<T>>::empty()));
        assert(present(Seq::<Option<T>>::empty()) =~= Seq::<T>::empty());
        assert(present(s) =~= Seq::<T>::empty());
        match x {
            Some(v) => {
                assert(present(s.push(x)) == seq![v] + present(s.push(x).drop_first()));
                assert(seq![v] + Seq::<T>::empty() =~= seq![v]);
                assert(present(s) + seq![v] =~= seq![v]);
            },
            None => {
                assert(present(s.push(x)) == present(s.push(x).drop_first()));
                assert(present(s) + Seq::<T>::empty() =~= Seq::<T>::empty());
            },
        }
    } else {
        assert(s.push(x).drop_first() =~= s.drop_first().push(x));
        lemma_present_push(s.drop_first(), x);
        match s[0] {
            Some(v) => {
                assert(present(s.push(x)) == seq![v] + present(s.drop_first().push(x)));
                match x {
                    Some(w) => {
                        assert(seq![v] + (present(s.drop_first()) + seq![w]) =~= (seq![v]
                            + present(s.drop_first())) + seq![w]);
                    },
                    None => {
                        assert(seq![v] + (present(s.drop_first()) + Seq::<T>::empty()) =~= (seq![v]
                            + present(s.drop_first())) + Seq::<T>::empty());
                    },
                }
            },
            None => {
            },
        }
    }
}

/// Keeps the present elements of a vector of optional `Copy` values.
pub fn filter_present<T: Copy>(v: &Vec<Option<T>>) -> (r: Vec<T>)
    ensures
        r@ == present(v@),
{
    let mut r: Vec<T> = Vec::new();
    let mut i: usize = 0;
    while i < v.len()
        invariant
            i <= v.len(),
            r@ == present(v@.take(i as int)),
        decreases v.len() - i,
    {
        proof {
            assert(v@.take(i as int).push(v@[i as int]) =~= v@.take(i + 1));
            lemma_present_push(v@.take(i as int), v@[i as int]);
        }
        match v[i] {
            Some(x) => {
                r.push(x);
            },
            None => {
            },
        }
        i = i + 1;
    }
    proof {
        assert(v@.take(v@.len() as int) =~= v@);
    }
    r
}

/// Keeps the present wire numbers of an argument array, in order.
pub fn filter_present_numbers(v: &Vec<Option<WireNumber>>) -> (r: Vec<WireNumber>)
    ensures
        r@ == present(v@),
{
    let mut r: Vec<WireNumber> = Vec::new();
    let mut i: usize = 0;
    while i < v.len()
        invariant
            i <= v.len(),
            r@ == present(v@.take(i as int)),
        decreases v.len() - i,
    {
        proof {
            assert(v@.take(i as int).push(v@[i as int]) =~= v@.take(i + 1));
            lemma_present_push(v@.take(i as int), v@[i as int]);
        }
        match &v[i] {
            Some(w) => {
                let copy = WireNumber {
                    int_value: w.int_value,
                    float_text: match &w.float_text {
                        Some(t) => Some(t.clone()),
                        None => None,
                    },
                };
                proof {
                    assert(copy == v@[i as int]->0);
                }
                r.push(copy);
            },
            None => {
            },
        }
        i = i + 1;
    }
    proof {
        assert(v@.take(v@.len() as int) =~= v@);
    }
    r
}

/// Whether a wire value matches a declared tag.
pub open spec fn wire_ok(tag: TypeTag, w: WireNumber) -> bool {
    match tag {
        TypeTag::I32 => w.int_value matches Some(i) && -0x8000_0000 <= i <= 0x7fff_ffff,
        TypeTag::I64 => w.int_value is Some,
        TypeTag::F32 => w.float_text is Some,
        TypeTag::F64 => w.float_text is Some,
    }
}

/// The typed value a matching wire value converts to.
pub open spec fn wire_val(tag: TypeTag, w: WireNumber) -> WasmVal
    recommends
        wire_ok(tag, w),
{
    match tag {
        TypeTag::I32 => WasmVal::I32(w.int_value->0 as i32),
        TypeTag::I64 => WasmVal::I64(w.int_value->0),
        TypeTag::F32 => WasmVal::F32(w.float_text->0),
        TypeTag::F64 => WasmVal::F64(w.float_text->0),
    }
}

/// Converts one wire value to the typed value its tag demands.
///
/// A value that does not match the tag yields `InvalidType` naming the
/// expected tag.
pub fn map_wire_value(tag: TypeTag, w: &WireNumber) -> (r: Result<WasmVal, RequestError>)
    ensures
        wire_ok(tag, *w) ==> r == Ok::<WasmVal, RequestError>(wire_val(tag, *w)),
        !wire_ok(tag, *w) ==> r == Err::<WasmVal, RequestError>(RequestError::InvalidType(tag)),
{
    match tag {
        TypeTag::I32 => {
            match w.int_value {
                Some(i) => {
                    if -0x8000_0000i64 <= i && i <= 0x7fff_ffffi64 {
                        Ok(WasmVal::I32(i as i32))
                    } else {
                        Err(RequestError::InvalidType(TypeTag::I32))
                    }
                },
                None => Err(RequestError::InvalidType(TypeTag::I32)),
            }
        },
        TypeTag::I64 => {
            match w.int_value {
                Some(i) => Ok(WasmVal::I64(i)),
                None => Err(RequestError::InvalidType(TypeTag::I64)),
            }
        },
        TypeTag::F32 => {
            match &w.float_text {
                Some(t) => Ok(WasmVal::F32(t.clone())),
                None => Err(RequestError::InvalidType(TypeTag::F32)),
            }
        },
        TypeTag::F64 => {
            match &w.float_text {
                Some(t) => Ok(WasmVal::F64(t.clone())),
                None => Err(RequestError::InvalidType(TypeTag::F64)),
            }
        },
    }
}

/// Index of the first argument whose wire value does not match its tag.
pub open spec fn first_bad(tags: Seq<TypeTag>, vals: Seq<WireNumber>) -> int
    decreases tags.len(),
{
    if tags.len() == 0 {
        0
    } else if !wire_ok(tags[0], vals[0]) {
        0
    } else {
        1 + first_bad(tags.drop_first(), vals.drop_first())
    }
}

proof fn lemma_first_bad_at(tags: Seq<TypeTag>, vals: Seq<WireNumber>, i: int)
    requires
        tags.len() == vals.len(),
        0 <= i < tags.len(),
        forall|j: int| 0 <= j < i ==> wire_ok(tags[j], vals[j]),
        !wire_ok(tags[i], vals[i]),
    ensures
        first_bad(tags, vals) == i,
    decreases i,
{
    if i == 0 {
    } else {
        assert(wire_ok(tags[0], vals[0]));
        assert(forall|j: int| 0 <= j < i - 1 ==> wire_ok(tags.drop_first()[j], vals.drop_first()[j]));
        lemma_first_bad_at(tags.drop_first(), vals.drop_first(), i - 1);
    }
}

/// The converted argument list, elementwise.
pub open spec fn converted(tags: Seq<TypeTag>, vals: Seq<WireNumber>) -> Seq<WasmVal> {
    Seq::new(tags.len(), |i: int| wire_val(tags[i], vals[i]))
}

/// Whether every wire value matches its tag.
pub open spec fn all_wire_ok(tags: Seq<TypeTag>, vals: Seq<WireNumber>) -> bool {
    forall|i: int| 0 <= i < tags.len() ==> wire_ok(tags[i], vals[i])
}

/// Filters the declared tags and the wire values, requires the two counts to
/// agree, and converts each value to the typed value its tag demands.
///
/// The reply is exactly one of:
/// - `Ok(values)` when the filtered counts agree and every value matches;
/// - `LengthArgsError` naming both counts when they differ;
/// - `InvalidType` naming the tag of the first mismatching position.
pub fn deserialize_request(
    meta_args: &Vec<Option<TypeTag>>,
    body_args: &Vec<Option<WireNumber>>,
) -> (r: Result<Vec<WasmVal>, RequestError>)
    ensures
        ({
            let tags = present(meta_args@);
            let vals = present(body_args@);
            &&& tags.len() != vals.len() ==> r == Err::<Vec<WasmVal>, RequestError>(
                RequestError::LengthArgsError { expect: tags.len() as usize, found: vals.len() as usize },
            )
            &&& tags.len() == vals.len() && all_wire_ok(tags, vals) ==> (r matches Ok(out)
                && out@ == converted(tags, vals))
            &&& tags.len() == vals.len() && !all_wire_ok(tags, vals) ==> r == Err::<
                Vec<WasmVal>,
                RequestError,
            >(RequestError::InvalidType(tags[first_bad(tags, vals)]))
        }),
{
    let tags = filter_present(meta_args);
    let vals = filter_present_numbers(body_args);
    if tags.len() != vals.len() {
        return Err(RequestError::LengthArgsError { expect: tags.len(), found: vals.len() });
    }
    let mut out: Vec<WasmVal> = Vec::new();
    let mut i: usize = 0;
    while i < tags.len()
        invariant
            tags.len() == vals.len(),
            tags@ == present(meta_args@),
            vals@ == present(body_args@),
            i <= tags.len(),
            forall|j: int| 0 <= j < i ==> wire_ok(tags@[j], vals@[j]),
            out@ == converted(tags@, vals@).take(i as int),
        decreases tags.len() - i,
    {
        match map_wire_value(tags[i], &vals[i]) {
            Ok(v) => {
                out.push(v);
                proof {
                    assert(out@ =~= converted(tags@, vals@).take(i + 1));
                }
            },
            Err(e) => {
                proof {
                    lemma_first_bad_at(tags@, vals@, i as int);
                }
                return Err(e);
            },
        }
        i = i + 1;
    }
    proof {
        assert(out@ =~= converted(tags@, vals@));
    }
    Ok(out)
}

/// The JSON encoding of one typed value.
pub open spec fn out_of(v: WasmVal) -> WireOut {
    match v {
        WasmVal::I32(x) => WireOut::Int(x as i64),
        WasmVal::I64(x) => WireOut::Int(x),
        WasmVal::F32(t) => WireOut::Float(t),
        WasmVal::F64(t) => WireOut::Float(t),
    }
}

/// Encodes one typed value for the reply.
pub fn serialize_wasm_value(v: &WasmVal) -> (r: WireOut)
    ensures
        r == out_of(*v),
{
    match v {
        WasmVal::I32(x) => WireOut::Int(*x as i64),
        WasmVal::I64(x) => WireOut::Int(*x),
        WasmVal::F32(t) => WireOut::Float(t.clone()),
        WasmVal::F64(t) => WireOut::Float(t.clone()),
    }
}

/// The reply encoding of a returned value list: each basic value in its JSON
/// form, `null` for a position the engine returned outside the basic types.
pub open spec fn serialized_return(results: Seq<Option<WasmVal>>) -> Seq<WireOut> {
    Seq::new(results.len(), |i: int| match results[i] {
        Some(v) => out_of(v),
        None => WireOut::Null,
    })
}

/// Encodes every returned value of an invocation, in order, without
/// truncation; a non-basic returned value encodes as `null`.
pub fn serialize_wasm_return(results: &Vec<Option<WasmVal>>) -> (r: Vec<WireOut>)
    ensures
        r@ == serialized_return(results@),
{
    let mut r: Vec<WireOut> = Vec::new();
    let mut i: usize = 0;
    while i < results.len()
        invariant
            i <= results.len(),
            r@ == serialized_return(results@).take(i as int),
        decreases results.len() - i,
    {
        match &results[i] {
            Some(v) => {
                r.push(serialize_wasm_value(v));
            },
            None => {
                r.push(WireOut::Null);
            },
        }
        i = i + 1;
        proof {
            assert(r@ =~= serialized_return(results@).take(i as int));
        }
    }
    proof {
        assert(r@ =~= serialized_return(results@));
    }
    r
}

} // verus!
