//! The messages of a Thrift call: decoding a request, and encoding replies,
//! declared exceptions and application exceptions, over any protocol; and
//! finding where a JSON message ends in bytes that arrive one at a time.

use vstd::prelude::*;
use crate::codec::{
    deserialize_rust_struct, spec_read_struct_fields, spec_read_value, spec_skip, spec_write_value, skip_value, read_rust_value,
    thrift_type_to_ttype, type_ttype, write_thrift_value, RustStructValue, SpecValueError,
    ValueError, ValueStep,
};
use crate::parser::ast::{SpecField, SpecMethod, SpecStruct, SpecType, SpecValue, ThriftField, ThriftService, ThriftStruct, ThriftType, ThriftValue, field_list_view};
use crate::parser::names::{NameMap, assoc_get, str_eq};
use crate::parser::lexer::chars_of;
use crate::protocol::binary::{MESSAGE_TYPE_CALL, MESSAGE_TYPE_EXCEPTION, MESSAGE_TYPE_ONEWAY, MESSAGE_TYPE_REPLY};
use crate::protocol::traits::{pres, ReadStep, WriteStep, TInputProtocol, TOutputProtocol};
use crate::protocol::types::{FieldBegin, MessageBegin, ProtocolError, TType};

verus! {

/// A write that goes on with `f` only when `step` succeeded.
pub open spec fn then<S>(step: WriteStep<S>, f: spec_fn(S) -> WriteStep<S>) -> WriteStep<S> {
    match step {
        (Err(e), s1) => (Err(e), s1),
        (Ok(_), s1) => f(s1),
    }
}

/// A field of the message body: its header, its value, its end.
pub open spec fn spec_write_field<P: TOutputProtocol>(
    s: P::V,
    t: TType,
    id: i16,
    body: spec_fn(P::V) -> WriteStep<P::V>,
) -> WriteStep<P::V> {
    then(P::spec_write_field_begin(s, t, id), |s1: P::V| then(body(s1), |s2: P::V| P::spec_write_field_end(s2)))
}

/// The field stop and the end of the message.
pub open spec fn spec_finish_message<P: TOutputProtocol>(s: P::V) -> WriteStep<P::V> {
    then(P::spec_write_field_stop(s), |s1: P::V| P::spec_write_message_end(s1))
}

/// An application exception: an exception message whose body holds the
/// text as field 1 (a string) and the kind as field 2 (an i32).
pub open spec fn spec_exception_reply<P: TOutputProtocol>(
    s: P::V,
    method_name: Seq<char>,
    seq_id: i32,
    ex_type: i32,
    message: Seq<char>,
) -> WriteStep<P::V> {
    then(P::spec_write_message_begin(s, (method_name, MESSAGE_TYPE_EXCEPTION, seq_id)), |s1: P::V|
        then(spec_write_field::<P>(s1, TType::String, 1, |x: P::V| P::spec_write_string(x, message)), |s2: P::V|
            then(spec_write_field::<P>(s2, TType::I32, 2, |x: P::V| P::spec_write_i32(x, ex_type)), |s3: P::V|
                spec_finish_message::<P>(s3))))
}

/// Writes an application exception for a call of `method_name`.
pub fn write_exception_reply<P: TOutputProtocol>(
    writer: &mut P,
    method_name: &str,
    seq_id: i32,
    ex_type: i32,
    message: &str,
) -> (r: Result<(), ProtocolError>)
    requires
        P::depth(old(writer)@) > 0,
    ensures
        (r, final(writer)@) == spec_exception_reply::<P>(old(writer)@, method_name@, seq_id, ex_type, message@),
{
    let m = MessageBegin { name: method_name.to_string(), message_type: MESSAGE_TYPE_EXCEPTION, seq_id };
    if let Err(e) = writer.write_message_begin(&m) {
        return Err(e);
    }
    if let Err(e) = writer.write_field_begin(&FieldBegin { name: None, field_type: TType::String, id: 1 }) {
        return Err(e);
    }
    if let Err(e) = writer.write_string(message) {
        return Err(e);
    }
    if let Err(e) = writer.write_field_end() {
        return Err(e);
    }
    if let Err(e) = writer.write_field_begin(&FieldBegin { name: None, field_type: TType::I32, id: 2 }) {
        return Err(e);
    }
    if let Err(e) = writer.write_i32(ex_type) {
        return Err(e);
    }
    if let Err(e) = writer.write_field_end() {
        return Err(e);
    }
    if let Err(e) = writer.write_field_stop() {
        return Err(e);
    }
    writer.write_message_end()
}

/// The return type of a method that returns nothing.
pub open spec fn is_void(t: SpecType) -> bool {
    t == SpecType::Struct("void"@)
}

/// A reply: a reply message whose body holds the returned value as field 0,
/// or nothing for a method that returns nothing.
pub open spec fn spec_reply<P: TOutputProtocol>(
    s: P::V,
    method_name: Seq<char>,
    seq_id: i32,
    return_type: SpecType,
    value: SpecValue,
    structs: Seq<(Seq<char>, SpecStruct)>,
) -> WriteStep<P::V> {
    then(P::spec_write_message_begin(s, (method_name, MESSAGE_TYPE_REPLY, seq_id)), |s1: P::V|
        then(
            if is_void(return_type) {
                (Ok(()), s1)
            } else {
                spec_write_field::<P>(s1, type_ttype(return_type), 0, |x: P::V| spec_write_value::<P>(x, value, structs))
            },
            |s2: P::V| spec_finish_message::<P>(s2),
        ))
}

/// Whether a type is the one that stands for no value.
pub fn type_is_void(t: &ThriftType) -> (r: bool)
    ensures
        r == is_void(t@),
{
    match t {
        ThriftType::Struct(n) => {
            let r = str_eq(n.as_str(), "void");
            proof {
                if r {
                    assert(t@ == SpecType::Struct("void"@));
                }
            }
            r
        },
        _ => false,
    }
}

/// Writes the reply to a call of `method_name`, with the value it returned.
pub fn write_reply_frame<P: TOutputProtocol>(
    writer: &mut P,
    method_name: &str,
    seq_id: i32,
    return_type: &ThriftType,
    value: &ThriftValue,
    struct_map: &NameMap<ThriftStruct>,
) -> (r: Result<(), ProtocolError>)
    requires
        P::depth(old(writer)@) > 0,
    ensures
        (r, final(writer)@) == spec_reply::<P>(old(writer)@, method_name@, seq_id, return_type@, value@, struct_map@),
{
    let m = MessageBegin { name: method_name.to_string(), message_type: MESSAGE_TYPE_REPLY, seq_id };
    if let Err(e) = writer.write_message_begin(&m) {
        return Err(e);
    }
    if !type_is_void(return_type) {
        let f = FieldBegin { name: None, field_type: thrift_type_to_ttype(return_type), id: 0 };
        if let Err(e) = writer.write_field_begin(&f) {
            return Err(e);
        }
        if let Err(e) = write_thrift_value(writer, value, struct_map) {
            return Err(e);
        }
        if let Err(e) = writer.write_field_end() {
            return Err(e);
        }
    }
    if let Err(e) = writer.write_field_stop() {
        return Err(e);
    }
    writer.write_message_end()
}

/// A declared exception: a reply message whose body holds the exception
/// value under the exception's field id.
pub open spec fn spec_declared_exception<P: TOutputProtocol>(
    s: P::V,
    method_name: Seq<char>,
    seq_id: i32,
    exception_field: SpecField,
    value: SpecValue,
    structs: Seq<(Seq<char>, SpecStruct)>,
) -> WriteStep<P::V> {
    then(P::spec_write_message_begin(s, (method_name, MESSAGE_TYPE_REPLY, seq_id)), |s1: P::V|
        then(
            spec_write_field::<P>(s1, type_ttype(exception_field.field_type), exception_field.id,
                |x: P::V| spec_write_value::<P>(x, value, structs)),
            |s2: P::V| spec_finish_message::<P>(s2),
        ))
}

/// Writes the reply that carries a declared exception of a call.
pub fn write_declared_exception_frame<P: TOutputProtocol>(
    writer: &mut P,
    method_name: &str,
    seq_id: i32,
    exception_field: &ThriftField,
    value: &ThriftValue,
    struct_map: &NameMap<ThriftStruct>,
) -> (r: Result<(), ProtocolError>)
    requires
        P::depth(old(writer)@) > 0,
    ensures
        (r, final(writer)@) == spec_declared_exception::<P>(
            old(writer)@, method_name@, seq_id, exception_field@, value@, struct_map@,
        ),
{
    let m = MessageBegin { name: method_name.to_string(), message_type: MESSAGE_TYPE_REPLY, seq_id };
    if let Err(e) = writer.write_message_begin(&m) {
        return Err(e);
    }
    let f = FieldBegin {
        name: None,
        field_type: thrift_type_to_ttype(&exception_field.field_type),
        id: exception_field.id,
    };
    if let Err(e) = writer.write_field_begin(&f) {
        return Err(e);
    }
    if let Err(e) = write_thrift_value(writer, value, struct_map) {
        return Err(e);
    }
    if let Err(e) = writer.write_field_end() {
        return Err(e);
    }
    if let Err(e) = writer.write_field_stop() {
        return Err(e);
    }
    writer.write_message_end()
}


// ─── Reading ──────────────────────────────────────────────────────────────────

/// An application exception's body, read field by field up to the stop:
/// field 1 as a string is its text, field 2 as an i32 its kind, and any
/// other field is skipped. What is not found keeps `msg` and `code`.
pub open spec fn spec_app_exception<P: TInputProtocol>(s: P::V, msg: Seq<char>, code: i32) -> ReadStep<(Seq<char>, i32), P::V>
    decreases P::remaining(s),
{
    match P::spec_read_field_begin(s) {
        (Err(e), s1) => (Err(e), s1),
        (Ok((t, id)), s1) => if t == TType::Stop {
            (Ok((msg, code)), s1)
        } else {
            let step: ReadStep<(Seq<char>, i32), P::V> = if t == TType::String && id == 1 {
                match P::spec_read_string(s1) {
                    (Ok(m), s2) => (Ok((m, code)), s2),
                    (Err(e), s2) => (Err(e), s2),
                }
            } else if t == TType::I32 && id == 2 {
                match P::spec_read_i32(s1) {
                    (Ok(c), s2) => (Ok((msg, c)), s2),
                    (Err(e), s2) => (Err(e), s2),
                }
            } else {
                match spec_skip::<P>(s1, t) {
                    (Ok(_), s2) => (Ok((msg, code)), s2),
                    (Err(e), s2) => (Err(e), s2),
                }
            };
            match step {
                (Err(e), s2) => (Err(e), s2),
                (Ok((m2, c2)), s2) => if P::remaining(s2) < P::remaining(s) {
                    spec_app_exception::<P>(s2, m2, c2)
                } else {
                    (Ok((m2, c2)), s2)
                },
            }
        },
    }
}

/// Reads the body of an application exception: its text and its kind
/// (empty and `0` when absent).
pub fn read_application_exception<P: TInputProtocol>(reader: &mut P) -> (r: Result<(String, i32), ProtocolError>)
    requires
        P::depth(old(reader)@) > 0,
    ensures
        (match r {
            Ok((m, c)) => Ok::<(Seq<char>, i32), ProtocolError>((m@, c)),
            Err(e) => Err(e),
        }, final(reader)@) == spec_app_exception::<P>(old(reader)@, Seq::empty(), 0),
{
    let ghost s0 = reader@;
    let mut msg = String::new();
    let mut code: i32 = 0;
    loop
        invariant
            spec_app_exception::<P>(s0, Seq::empty(), 0) == spec_app_exception::<P>(reader@, msg@, code),
            s0 == old(reader)@,
            P::depth(reader@) > 0,
        decreases P::remaining(reader@),
    {
        let ghost s = reader@;
        let rf = reader.read_field_begin();
        let f = match rf {
            Ok(f) => f,
            Err(e) => {
                assert(spec_app_exception::<P>(s, msg@, code) == (Err::<(Seq<char>, i32), ProtocolError>(e), reader@));
                return Err(e);
            },
        };
        if f.field_type == TType::Stop {
            assert(spec_app_exception::<P>(s, msg@, code) == (Ok::<(Seq<char>, i32), ProtocolError>((msg@, code)), reader@));
            return Ok((msg, code));
        }
        if f.field_type == TType::String && f.id == 1 {
            match reader.read_string() {
                Ok(m) => {
                    msg = m;
                },
                Err(e) => return Err(e),
            }
        } else if f.field_type == TType::I32 && f.id == 2 {
            match reader.read_i32() {
                Ok(c) => {
                    code = c;
                },
                Err(e) => return Err(e),
            }
        } else {
            if let Err(e) = skip_value(reader, f.field_type) {
                return Err(e);
            }
        }
    }
}

/// The first method named `name`, from the `i`-th on.
pub open spec fn first_method_from(ms: Seq<SpecMethod>, name: Seq<char>, i: int) -> Option<int>
    decreases ms.len() - i,
{
    if i < 0 || i >= ms.len() {
        None
    } else if ms[i].name == name {
        Some(i)
    } else {
        first_method_from(ms, name, i + 1)
    }
}

/// A request: its message header, then, when the service has a method of
/// that name (the first one), the call's arguments read as that method's
/// argument struct; then the message end.
pub open spec fn spec_decode_request<P: TInputProtocol>(
    s: P::V,
    ms: Seq<SpecMethod>,
    structs: Seq<(Seq<char>, SpecStruct)>,
) -> ValueStep<((Seq<char>, u8, i32), Option<(int, Seq<(Seq<char>, SpecValue)>)>), P::V> {
    match P::spec_read_message_begin(s) {
        (Err(e), s1) => (Err(SpecValueError::Protocol(e)), s1),
        (Ok(m), s1) => {
            let body: ValueStep<Option<(int, Seq<(Seq<char>, SpecValue)>)>, P::V> = match first_method_from(ms, m.0, 0) {
                None => (Ok(None), s1),
                Some(i) => match spec_read_struct_fields::<P>(s1, ms[i].arguments, structs, Seq::empty()) {
                    (Ok(vals), s2) => (Ok(Some((i, vals))), s2),
                    (Err(x), s2) => (Err(x), s2),
                },
            };
            match body {
                (Err(x), s2) => (Err(x), s2),
                (Ok(b), s2) => match P::spec_read_message_end(s2) {
                    (Err(e), s3) => (Err(SpecValueError::Protocol(e)), s3),
                    (Ok(_), s3) => (Ok((m, b)), s3),
                },
            }
        },
    }
}

/// The outcome of a decoded request, by views.
pub open spec fn request_view(r: Result<(MessageBegin, Option<(usize, RustStructValue)>), ValueError>)
    -> Result<((Seq<char>, u8, i32), Option<(int, Seq<(Seq<char>, SpecValue)>)>), SpecValueError>
{
    match r {
        Ok((m, None)) => Ok((m@, None)),
        Ok((m, Some((i, v)))) => Ok((m@, Some((i as int, v.values@)))),
        Err(e) => Err(e@),
    }
}

/// Decodes a request to `service`: the message header, and the index of the
/// method called with its arguments when the service has that method. The
/// arguments come as a struct value with an empty name whose field names are
/// the method's argument names, in declaration order.
pub fn decode_request<P: TInputProtocol>(
    reader: &mut P,
    service: &ThriftService,
    struct_map: &NameMap<ThriftStruct>,
) -> (r: Result<(MessageBegin, Option<(usize, RustStructValue)>), ValueError>)
    requires
        P::depth(old(reader)@) > 0,
    ensures
        (request_view(r), final(reader)@) == spec_decode_request::<P>(old(reader)@, service@.methods, struct_map@),
        r matches Ok((_, Some((k, v)))) ==> {
            &&& k < service@.methods.len()
            &&& v.struct_name@ == Seq::<char>::empty()
            &&& v.field_names@.len() == service@.methods[k as int].arguments.len()
            &&& forall|j: int| 0 <= j < v.field_names@.len()
                ==> #[trigger] v.field_names@[j]@ == service@.methods[k as int].arguments[j].name
        },
{
    let m = match reader.read_message_begin() {
        Ok(m) => m,
        Err(e) => return Err(ValueError::Protocol(e)),
    };
    let ghost ms = service@.methods;
    let mut i: usize = 0;
    let mut found: Option<usize> = None;
    while i < service.methods.len()
        invariant_except_break
            found is None,
        invariant
            i <= service.methods@.len(),
            ms == service@.methods,
            ms.len() == service.methods@.len(),
            first_method_from(ms, m@.0, 0) == first_method_from(ms, m@.0, i as int),
        ensures
            first_method_from(ms, m@.0, 0) == match found {
                Some(k) => Some(k as int),
                None => None::<int>,
            },
            found matches Some(k) ==> k < service.methods@.len(),
        decreases service.methods@.len() - i,
    {
        assert(ms[i as int] == service.methods@[i as int]@);
        if str_eq(service.methods[i].name.as_str(), m.name.as_str()) {
            found = Some(i);
            break;
        }
        i = i + 1;
    }
    let body = match found {
        None => None,
        Some(k) => {
            assert(ms[k as int].arguments == field_list_view(service.methods@[k as int].arguments@));
            match deserialize_rust_struct(reader, &service.methods[k].arguments, struct_map) {
                Ok(v) => Some((k, v)),
                Err(e) => return Err(e),
            }
        },
    };
    match reader.read_message_end() {
        Ok(()) => Ok((m, body)),
        Err(e) => Err(ValueError::Protocol(e)),
    }
}


// ─── What a server does with a request ────────────────────────────────────────

/// The kind of application exception that answers a call of a method the
/// service does not have, or has no handler for.
pub const UNKNOWN_METHOD: i32 = 1;

/// The kind of application exception that answers a call whose handler failed.
pub const INTERNAL_ERROR: i32 = 6;

/// What a server does with a decoded request.
pub enum RequestPlan {
    /// Answer with an application exception: its kind and its text.
    Refuse(i32, String),
    /// Call the handler registered for the method.
    Call,
}

pub enum SpecPlan {
    Refuse(i32, Seq<char>),
    Call,
}

impl View for RequestPlan {
    type V = SpecPlan;

    open spec fn view(&self) -> SpecPlan {
        match self {
            RequestPlan::Refuse(k, m) => SpecPlan::Refuse(*k, m@),
            RequestPlan::Call => SpecPlan::Call,
        }
    }
}

/// A call of a method that the service lacks is refused as unknown; one of a
/// method without a registered handler is refused as having no handler;
/// any other is handed to its handler.
pub open spec fn spec_plan_request(name: Seq<char>, method_known: bool, has_handler: bool) -> SpecPlan {
    if !method_known {
        SpecPlan::Refuse(UNKNOWN_METHOD, "Unknown method: "@ + name)
    } else if !has_handler {
        SpecPlan::Refuse(UNKNOWN_METHOD, "No handler registered for: "@ + name)
    } else {
        SpecPlan::Call
    }
}

/// What to do with a request for the method `name`, given whether the service
/// has that method and whether a handler is registered for it.
pub fn plan_request(name: &str, method_known: bool, has_handler: bool) -> (r: RequestPlan)
    ensures
        r@ == spec_plan_request(name@, method_known, has_handler),
{
    if !method_known {
        let mut msg = String::from_str("Unknown method: ");
        msg.append(name);
        RequestPlan::Refuse(UNKNOWN_METHOD, msg)
    } else if !has_handler {
        let mut msg = String::from_str("No handler registered for: ");
        msg.append(name);
        RequestPlan::Refuse(UNKNOWN_METHOD, msg)
    } else {
        RequestPlan::Call
    }
}

/// Whether a request is answered: every one but a oneway call, and a oneway
/// call too when the service has its method but no handler for it.
pub fn answers_request(message_type: u8, method_known: bool, has_handler: bool) -> (r: bool)
    ensures
        r == (message_type != MESSAGE_TYPE_ONEWAY || (method_known && !has_handler)),
{
    message_type != MESSAGE_TYPE_ONEWAY || (method_known && !has_handler)
}

// ─── The client side ──────────────────────────────────────────────────────────

/// The argument fields of a call from the `k`-th argument on: each argument
/// that `values` holds, under its id and declared type; the others are left out.
pub open spec fn spec_call_args<P: TOutputProtocol>(
    s: P::V,
    args: Seq<SpecField>,
    values: Seq<(Seq<char>, SpecValue)>,
    k: int,
    structs: Seq<(Seq<char>, SpecStruct)>,
) -> WriteStep<P::V>
    decreases args.len() - k,
{
    if k < 0 || k >= args.len() {
        (Ok(()), s)
    } else {
        match assoc_get(values, args[k].name) {
            None => spec_call_args::<P>(s, args, values, k + 1, structs),
            Some(v) => match P::spec_write_field_begin(s, type_ttype(args[k].field_type), args[k].id) {
                (Err(e), s1) => (Err(e), s1),
                (Ok(_), s1) => match spec_write_value::<P>(s1, v, structs) {
                    (Err(e), s2) => (Err(e), s2),
                    (Ok(_), s2) => spec_call_args::<P>(s2, args, values, k + 1, structs),
                },
            },
        }
    }
}

/// A call: a call message, then the arguments given, then the field stop.
pub open spec fn spec_call_frame<P: TOutputProtocol>(
    s: P::V,
    method_name: Seq<char>,
    seq_id: i32,
    args: Seq<SpecField>,
    values: Seq<(Seq<char>, SpecValue)>,
    structs: Seq<(Seq<char>, SpecStruct)>,
) -> WriteStep<P::V> {
    then(P::spec_write_message_begin(s, (method_name, MESSAGE_TYPE_CALL, seq_id)), |s1: P::V|
        then(spec_call_args::<P>(s1, args, values, 0, structs), |s2: P::V| P::spec_write_field_stop(s2)))
}

/// Writes a call of `method_name`, whose arguments are `args`, with the
/// argument values that `values` holds by name.
#[verifier::loop_isolation(false)]
pub fn write_call_frame<P: TOutputProtocol>(
    writer: &mut P,
    method_name: &str,
    seq_id: i32,
    args: &Vec<ThriftField>,
    values: &NameMap<ThriftValue>,
    struct_map: &NameMap<ThriftStruct>,
) -> (r: Result<(), ProtocolError>)
    requires
        P::depth(old(writer)@) > 0,
    ensures
        (r, final(writer)@) == spec_call_frame::<P>(
            old(writer)@, method_name@, seq_id, field_list_view(args@), values@, struct_map@,
        ),
{
    let m = MessageBegin { name: method_name.to_string(), message_type: MESSAGE_TYPE_CALL, seq_id };
    if let Err(e) = writer.write_message_begin(&m) {
        return Err(e);
    }
    let ghost s1 = writer@;
    let ghost av = field_list_view(args@);
    let mut k: usize = 0;
    while k < args.len()
        invariant
            k <= args@.len(),
            av == field_list_view(args@),
            av.len() == args@.len(),
            P::depth(writer@) > 0,
            spec_call_args::<P>(s1, av, values@, 0, struct_map@) == spec_call_args::<P>(writer@, av, values@, k as int, struct_map@),
        decreases args@.len() - k,
    {
        assert(av[k as int] == args@[k as int]@);
        match values.get(args[k].name.as_str()) {
            None => {},
            Some(v) => {
                let f = FieldBegin { name: None, field_type: thrift_type_to_ttype(&args[k].field_type), id: args[k].id };
                if let Err(e) = writer.write_field_begin(&f) {
                    return Err(e);
                }
                if let Err(e) = write_thrift_value(writer, v, struct_map) {
                    return Err(e);
                }
            },
        }
        k = k + 1;
    }
    writer.write_field_stop()
}

/// What a reply says.
#[derive(Debug)]
pub enum ReplyOutcome {
    /// The method returned nothing.
    Void,
    /// The method returned this value.
    Value(ThriftValue),
    /// The server answered with an application exception: its text and kind.
    ApplicationException(String, i32),
    /// The reply holds a declared exception in this field, read with the type
    /// of the exception declared under that id (with the return type when the
    /// method declares none there).
    ServiceException(i16, ThriftValue),
}

pub enum SpecReply {
    Void,
    Value(SpecValue),
    ApplicationException(Seq<char>, i32),
    ServiceException(i16, SpecValue),
}

impl View for ReplyOutcome {
    type V = SpecReply;

    open spec fn view(&self) -> SpecReply {
        match self {
            ReplyOutcome::Void => SpecReply::Void,
            ReplyOutcome::Value(v) => SpecReply::Value(v@),
            ReplyOutcome::ApplicationException(m, c) => SpecReply::ApplicationException(m@, *c),
            ReplyOutcome::ServiceException(id, v) => SpecReply::ServiceException(*id, v@),
        }
    }
}

/// The type of reply field `id`: the type of the first declared exception
/// with that id, or `fallback` when none has it.
pub open spec fn declared_field_type(exceptions: Seq<SpecField>, id: i16, fallback: SpecType) -> SpecType
    decreases exceptions.len(),
{
    if exceptions.len() == 0 {
        fallback
    } else if exceptions[0].id == id {
        exceptions[0].field_type
    } else {
        declared_field_type(exceptions.drop_first(), id, fallback)
    }
}

/// Reading a reply to a method with return type `return_type` and declared
/// exceptions `exceptions`: the message header; an exception message is an
/// application exception; otherwise the first field: the stop when nothing
/// was returned, field 0 the returned value, any other field a declared
/// exception, read with the type of the declared exception of that id (with
/// the return type when the method declares none).
pub open spec fn spec_decode_reply<P: TInputProtocol>(
    s: P::V,
    return_type: SpecType,
    exceptions: Seq<SpecField>,
    structs: Seq<(Seq<char>, SpecStruct)>,
) -> ValueStep<SpecReply, P::V> {
    match P::spec_read_message_begin(s) {
        (Err(e), s1) => (Err(SpecValueError::Protocol(e)), s1),
        (Ok(m), s1) => if m.1 == MESSAGE_TYPE_EXCEPTION {
            match spec_app_exception::<P>(s1, Seq::empty(), 0) {
                (Err(e), s2) => (Err(SpecValueError::Protocol(e)), s2),
                (Ok((msg, code)), s2) => (Ok(SpecReply::ApplicationException(msg, code)), s2),
            }
        } else {
            match P::spec_read_field_begin(s1) {
                (Err(e), s2) => (Err(SpecValueError::Protocol(e)), s2),
                (Ok((t, id)), s2) => if t == TType::Stop {
                    (Ok(SpecReply::Void), s2)
                } else {
                    match spec_read_value::<P>(s2, if id == 0 { return_type } else { declared_field_type(exceptions, id, return_type) }, structs) {
                        (Err(x), s3) => (Err(x), s3),
                        (Ok(v), s3) => (Ok(if id == 0 { SpecReply::Value(v) } else { SpecReply::ServiceException(id, v) }), s3),
                    }
                },
            }
        },
    }
}

/// The type of reply field `id`, as `declared_field_type` gives it.
fn reply_field_type<'a>(exceptions: &'a Vec<ThriftField>, id: i16, fallback: &'a ThriftType) -> (r: &'a ThriftType)
    ensures
        r@ == declared_field_type(field_list_view(exceptions@), id, fallback@),
{
    let ghost fs = field_list_view(exceptions@);
    let mut i: usize = 0;
    assert(fs.skip(0) =~= fs);
    while i < exceptions.len()
        invariant
            i <= exceptions@.len(),
            fs == field_list_view(exceptions@),
            fs.len() == exceptions@.len(),
            declared_field_type(fs, id, fallback@) == declared_field_type(fs.skip(i as int), id, fallback@),
        decreases exceptions@.len() - i,
    {
        assert(fs[i as int] == exceptions@[i as int]@);
        assert(fs.skip(i as int).drop_first() =~= fs.skip(i + 1));
        if exceptions[i].id == id {
            return &exceptions[i].field_type;
        }
        i = i + 1;
    }
    assert(fs.skip(i as int) =~= Seq::<SpecField>::empty());
    fallback
}

/// Reads the reply to a call of a method with return type `return_type` and
/// declared exceptions `exceptions`.
pub fn decode_reply<P: TInputProtocol>(
    reader: &mut P,
    return_type: &ThriftType,
    exceptions: &Vec<ThriftField>,
    struct_map: &NameMap<ThriftStruct>,
) -> (r: Result<ReplyOutcome, ValueError>)
    requires
        P::depth(old(reader)@) > 0,
    ensures
        (match r {
            Ok(o) => Ok::<SpecReply, SpecValueError>(o@),
            Err(e) => Err(e@),
        }, final(reader)@) == spec_decode_reply::<P>(old(reader)@, return_type@, field_list_view(exceptions@), struct_map@),
{
    let m = match reader.read_message_begin() {
        Ok(m) => m,
        Err(e) => return Err(ValueError::Protocol(e)),
    };
    if m.message_type == MESSAGE_TYPE_EXCEPTION {
        return match read_application_exception(reader) {
            Ok((msg, code)) => Ok(ReplyOutcome::ApplicationException(msg, code)),
            Err(e) => Err(ValueError::Protocol(e)),
        };
    }
    let f = match reader.read_field_begin() {
        Ok(f) => f,
        Err(e) => return Err(ValueError::Protocol(e)),
    };
    if f.field_type == TType::Stop {
        return Ok(ReplyOutcome::Void);
    }
    let t = if f.id == 0 { return_type } else { reply_field_type(exceptions, f.id, return_type) };
    match read_rust_value(reader, t, struct_map) {
        Ok(v) => if f.id == 0 { Ok(ReplyOutcome::Value(v)) } else { Ok(ReplyOutcome::ServiceException(f.id, v)) },
        Err(e) => Err(e),
    }
}


/// Where the part of `s` after its last `.` starts: 0 when `s` has no `.`.
pub open spec fn segment_start(s: Seq<char>) -> int
    decreases s.len(),
{
    if s.len() == 0 {
        0
    } else if s.last() == '.' {
        s.len() as int
    } else {
        segment_start(s.drop_last())
    }
}

/// The part of a dotted name after its last `.`: the whole name when it has
/// no `.`.
pub open spec fn last_segment(s: Seq<char>) -> Seq<char> {
    s.skip(segment_start(s))
}

/// Whether an exception class named `class_name` stands for the declared
/// exception `f`: `f` is of a struct type whose name, or the last dotted part
/// of whose name, is `class_name`.
pub open spec fn names_exception(class_name: Seq<char>, f: SpecField) -> bool {
    match f.field_type {
        SpecType::Struct(n) => n == class_name || last_segment(n) == class_name,
        _ => false,
    }
}

/// Whether the part of `name` after its last `.` is `text`.
fn last_segment_is(name: &str, text: &str) -> (r: bool)
    ensures
        r == (last_segment(name@) == text@),
{
    let cs = chars_of(name);
    let ts = chars_of(text);
    let mut j: usize = cs.len();
    assert(cs@.take(cs@.len() as int) =~= cs@);
    while j > 0 && cs[j - 1] != '.'
        invariant
            j <= cs@.len(),
            segment_start(cs@) == segment_start(cs@.take(j as int)),
        decreases j,
    {
        assert(cs@.take(j as int).drop_last() =~= cs@.take(j - 1));
        j = j - 1;
    }
    assert(segment_start(cs@) == j as int);
    let n = cs.len();
    if n - j != ts.len() {
        return false;
    }
    let mut k: usize = 0;
    while k < ts.len()
        invariant
            k <= ts@.len(),
            j + ts@.len() == cs@.len(),
            n == cs@.len(),
            cs@ == name@,
            ts@ == text@,
            segment_start(cs@) == j as int,
            forall|m: int| 0 <= m < k ==> cs@[j + m] == ts@[m],
        decreases ts@.len() - k,
    {
        if cs[j + k] != ts[k] {
            assert(cs@.skip(j as int)[k as int] != ts@[k as int]);
            return false;
        }
        k = k + 1;
    }
    assert(cs@.skip(j as int) =~= ts@);
    true
}

/// The position of the first declared exception that a raised exception class
/// named `class_name` stands for (see `names_exception`), if any.
pub fn declared_exception_index(class_name: &str, exceptions: &Vec<ThriftField>) -> (r: Option<usize>)
    ensures
        match r {
            Some(i) => i < exceptions@.len() && names_exception(class_name@, exceptions@[i as int]@)
                && forall|j: int| 0 <= j < i ==> !names_exception(class_name@, #[trigger] exceptions@[j]@),
            None => forall|j: int| 0 <= j < exceptions@.len() ==> !names_exception(class_name@, #[trigger] exceptions@[j]@),
        },
{
    let mut i: usize = 0;
    while i < exceptions.len()
        invariant
            i <= exceptions@.len(),
            forall|j: int| 0 <= j < i ==> !names_exception(class_name@, #[trigger] exceptions@[j]@),
        decreases exceptions@.len() - i,
    {
        if let ThriftType::Struct(n) = &exceptions[i].field_type {
            if str_eq(n.as_str(), class_name) || last_segment_is(n.as_str(), class_name) {
                return Some(i);
            }
        }
        i = i + 1;
    }
    None
}

} // verus!
