//! The reading and writing operations that every protocol offers.
//!
//! Each operation is specified by a spec function of the protocol's view:
//! its outcome and the view after it. Each protocol says what those are; the
//! code written over any protocol is proved against these functions alone.
//! Every protocol also counts the structs that are open (the outermost level
//! counting as one), and a reader measures the input it has left, which no
//! read within a message adds to.

use vstd::prelude::*;
use super::types::{FieldBegin, ListBegin, MapBegin, MessageBegin, ProtocolError, SetBegin, TType};

verus! {

/// The outcome of an operation, by views.
pub open spec fn pres<T: View>(r: Result<T, ProtocolError>) -> Result<T::V, ProtocolError> {
    match r {
        Ok(x) => Ok(x@),
        Err(e) => Err(e),
    }
}

/// What a read gives: the outcome and the reader after it.
pub type ReadStep<T, S> = (Result<T, ProtocolError>, S);

/// Reading Thrift values.
pub trait TInputProtocol: View + Sized {
    /// A measure of the input left.
    spec fn remaining(s: Self::V) -> nat;

    /// How many structs are open, counting the outermost level as one.
    spec fn depth(s: Self::V) -> nat;

    spec fn spec_read_message_begin(s: Self::V) -> ReadStep<(Seq<char>, u8, i32), Self::V>;
    spec fn spec_read_message_end(s: Self::V) -> ReadStep<(), Self::V>;
    spec fn spec_read_struct_begin(s: Self::V) -> ReadStep<(), Self::V>;
    spec fn spec_read_struct_end(s: Self::V) -> ReadStep<(), Self::V>;
    spec fn spec_read_field_begin(s: Self::V) -> ReadStep<(TType, i16), Self::V>;
    spec fn spec_read_field_end(s: Self::V) -> ReadStep<(), Self::V>;
    spec fn spec_read_bool(s: Self::V) -> ReadStep<bool, Self::V>;
    spec fn spec_read_byte(s: Self::V) -> ReadStep<i8, Self::V>;
    spec fn spec_read_i16(s: Self::V) -> ReadStep<i16, Self::V>;
    spec fn spec_read_i32(s: Self::V) -> ReadStep<i32, Self::V>;
    spec fn spec_read_i64(s: Self::V) -> ReadStep<i64, Self::V>;
    spec fn spec_read_double_bits(s: Self::V) -> ReadStep<u64, Self::V>;
    spec fn spec_read_string(s: Self::V) -> ReadStep<Seq<char>, Self::V>;
    spec fn spec_read_binary(s: Self::V) -> ReadStep<Seq<u8>, Self::V>;
    spec fn spec_read_map_begin(s: Self::V) -> ReadStep<MapBegin, Self::V>;
    spec fn spec_read_map_end(s: Self::V) -> ReadStep<(), Self::V>;
    spec fn spec_read_list_begin(s: Self::V) -> ReadStep<ListBegin, Self::V>;
    spec fn spec_read_list_end(s: Self::V) -> ReadStep<(), Self::V>;
    spec fn spec_read_set_begin(s: Self::V) -> ReadStep<SetBegin, Self::V>;
    spec fn spec_read_set_end(s: Self::V) -> ReadStep<(), Self::V>;

    fn read_message_begin(&mut self) -> (r: Result<MessageBegin, ProtocolError>)
        ensures
            (pres(r), final(self)@) == Self::spec_read_message_begin(old(self)@),
            Self::depth(final(self)@) == Self::depth(old(self)@);

    fn read_message_end(&mut self) -> (r: Result<(), ProtocolError>)
        ensures
            (pres(r), final(self)@) == Self::spec_read_message_end(old(self)@),
            Self::depth(final(self)@) == Self::depth(old(self)@);

    fn read_struct_begin(&mut self) -> (r: Result<(), ProtocolError>)
        ensures
            (pres(r), final(self)@) == Self::spec_read_struct_begin(old(self)@),
            Self::remaining(final(self)@) <= Self::remaining(old(self)@),
            r is Ok ==> Self::depth(final(self)@) == Self::depth(old(self)@) + 1;

    fn read_struct_end(&mut self) -> (r: Result<(), ProtocolError>)
        ensures
            (pres(r), final(self)@) == Self::spec_read_struct_end(old(self)@),
            Self::remaining(final(self)@) <= Self::remaining(old(self)@),
            r is Ok && Self::depth(old(self)@) > 0 ==> Self::depth(final(self)@) == Self::depth(old(self)@) - 1;

    fn read_field_begin(&mut self) -> (r: Result<FieldBegin, ProtocolError>)
        requires
            Self::depth(old(self)@) > 0,
        ensures
            (pres(r), final(self)@) == Self::spec_read_field_begin(old(self)@),
            Self::remaining(final(self)@) <= Self::remaining(old(self)@),
            r matches Ok(f) && f.field_type != TType::Stop ==> Self::remaining(final(self)@) < Self::remaining(old(self)@),
            Self::depth(final(self)@) == Self::depth(old(self)@);

    fn read_field_end(&mut self) -> (r: Result<(), ProtocolError>)
        ensures
            (pres(r), final(self)@) == Self::spec_read_field_end(old(self)@),
            Self::remaining(final(self)@) <= Self::remaining(old(self)@),
            Self::depth(final(self)@) == Self::depth(old(self)@);

    fn read_bool(&mut self) -> (r: Result<bool, ProtocolError>)
        ensures
            (pres(r), final(self)@) == Self::spec_read_bool(old(self)@),
            Self::remaining(final(self)@) <= Self::remaining(old(self)@),
            Self::depth(final(self)@) == Self::depth(old(self)@);

    fn read_byte(&mut self) -> (r: Result<i8, ProtocolError>)
        ensures
            (pres(r), final(self)@) == Self::spec_read_byte(old(self)@),
            Self::remaining(final(self)@) <= Self::remaining(old(self)@),
            Self::depth(final(self)@) == Self::depth(old(self)@);

    fn read_i16(&mut self) -> (r: Result<i16, ProtocolError>)
        ensures
            (pres(r), final(self)@) == Self::spec_read_i16(old(self)@),
            Self::remaining(final(self)@) <= Self::remaining(old(self)@),
            Self::depth(final(self)@) == Self::depth(old(self)@);

    fn read_i32(&mut self) -> (r: Result<i32, ProtocolError>)
        ensures
            (pres(r), final(self)@) == Self::spec_read_i32(old(self)@),
            Self::remaining(final(self)@) <= Self::remaining(old(self)@),
            Self::depth(final(self)@) == Self::depth(old(self)@);

    fn read_i64(&mut self) -> (r: Result<i64, ProtocolError>)
        ensures
            (pres(r), final(self)@) == Self::spec_read_i64(old(self)@),
            Self::remaining(final(self)@) <= Self::remaining(old(self)@),
            Self::depth(final(self)@) == Self::depth(old(self)@);

    /// A double, as the bit pattern of its IEEE-754 binary64 value.
    fn read_double_bits(&mut self) -> (r: Result<u64, ProtocolError>)
        ensures
            (pres(r), final(self)@) == Self::spec_read_double_bits(old(self)@),
            Self::remaining(final(self)@) <= Self::remaining(old(self)@),
            Self::depth(final(self)@) == Self::depth(old(self)@);

    fn read_string(&mut self) -> (r: Result<String, ProtocolError>)
        ensures
            (pres(r), final(self)@) == Self::spec_read_string(old(self)@),
            Self::remaining(final(self)@) <= Self::remaining(old(self)@),
            Self::depth(final(self)@) == Self::depth(old(self)@);

    fn read_binary(&mut self) -> (r: Result<Vec<u8>, ProtocolError>)
        ensures
            (pres(r), final(self)@) == Self::spec_read_binary(old(self)@),
            Self::remaining(final(self)@) <= Self::remaining(old(self)@),
            Self::depth(final(self)@) == Self::depth(old(self)@);

    fn read_map_begin(&mut self) -> (r: Result<MapBegin, ProtocolError>)
        ensures
            (pres(r), final(self)@) == Self::spec_read_map_begin(old(self)@),
            Self::remaining(final(self)@) <= Self::remaining(old(self)@),
            r is Ok ==> Self::remaining(final(self)@) < Self::remaining(old(self)@),
            Self::depth(final(self)@) == Self::depth(old(self)@);

    fn read_map_end(&mut self) -> (r: Result<(), ProtocolError>)
        ensures
            (pres(r), final(self)@) == Self::spec_read_map_end(old(self)@),
            Self::remaining(final(self)@) <= Self::remaining(old(self)@),
            Self::depth(final(self)@) == Self::depth(old(self)@);

    fn read_list_begin(&mut self) -> (r: Result<ListBegin, ProtocolError>)
        ensures
            (pres(r), final(self)@) == Self::spec_read_list_begin(old(self)@),
            Self::remaining(final(self)@) <= Self::remaining(old(self)@),
            r is Ok ==> Self::remaining(final(self)@) < Self::remaining(old(self)@),
            Self::depth(final(self)@) == Self::depth(old(self)@);

    fn read_list_end(&mut self) -> (r: Result<(), ProtocolError>)
        ensures
            (pres(r), final(self)@) == Self::spec_read_list_end(old(self)@),
            Self::remaining(final(self)@) <= Self::remaining(old(self)@),
            Self::depth(final(self)@) == Self::depth(old(self)@);

    fn read_set_begin(&mut self) -> (r: Result<SetBegin, ProtocolError>)
        ensures
            (pres(r), final(self)@) == Self::spec_read_set_begin(old(self)@),
            Self::remaining(final(self)@) <= Self::remaining(old(self)@),
            r is Ok ==> Self::remaining(final(self)@) < Self::remaining(old(self)@),
            Self::depth(final(self)@) == Self::depth(old(self)@);

    fn read_set_end(&mut self) -> (r: Result<(), ProtocolError>)
        ensures
            (pres(r), final(self)@) == Self::spec_read_set_end(old(self)@),
            Self::remaining(final(self)@) <= Self::remaining(old(self)@),
            Self::depth(final(self)@) == Self::depth(old(self)@);
}

/// What a write gives: the outcome and the writer after it.
pub type WriteStep<S> = (Result<(), ProtocolError>, S);

/// Writing Thrift values.
pub trait TOutputProtocol: View + Sized {
    /// How many structs are open, counting the outermost level as one.
    spec fn depth(s: Self::V) -> nat;

    spec fn spec_write_message_begin(s: Self::V, m: (Seq<char>, u8, i32)) -> WriteStep<Self::V>;
    spec fn spec_write_message_end(s: Self::V) -> WriteStep<Self::V>;
    spec fn spec_write_struct_begin(s: Self::V, name: Seq<char>) -> WriteStep<Self::V>;
    spec fn spec_write_struct_end(s: Self::V) -> WriteStep<Self::V>;
    spec fn spec_write_field_begin(s: Self::V, t: TType, id: i16) -> WriteStep<Self::V>;
    spec fn spec_write_field_end(s: Self::V) -> WriteStep<Self::V>;
    spec fn spec_write_field_stop(s: Self::V) -> WriteStep<Self::V>;
    spec fn spec_write_bool(s: Self::V, v: bool) -> WriteStep<Self::V>;
    spec fn spec_write_byte(s: Self::V, v: i8) -> WriteStep<Self::V>;
    spec fn spec_write_i16(s: Self::V, v: i16) -> WriteStep<Self::V>;
    spec fn spec_write_i32(s: Self::V, v: i32) -> WriteStep<Self::V>;
    spec fn spec_write_i64(s: Self::V, v: i64) -> WriteStep<Self::V>;
    spec fn spec_write_double_bits(s: Self::V, v: u64) -> WriteStep<Self::V>;
    spec fn spec_write_string(s: Self::V, v: Seq<char>) -> WriteStep<Self::V>;
    spec fn spec_write_binary(s: Self::V, v: Seq<u8>) -> WriteStep<Self::V>;
    spec fn spec_write_map_begin(s: Self::V, m: MapBegin) -> WriteStep<Self::V>;
    spec fn spec_write_map_end(s: Self::V) -> WriteStep<Self::V>;
    spec fn spec_write_list_begin(s: Self::V, l: ListBegin) -> WriteStep<Self::V>;
    spec fn spec_write_list_end(s: Self::V) -> WriteStep<Self::V>;
    spec fn spec_write_set_begin(s: Self::V, l: SetBegin) -> WriteStep<Self::V>;
    spec fn spec_write_set_end(s: Self::V) -> WriteStep<Self::V>;

    fn write_message_begin(&mut self, identifier: &MessageBegin) -> (r: Result<(), ProtocolError>)
        ensures
            (r, final(self)@) == Self::spec_write_message_begin(old(self)@, identifier@),
            Self::depth(final(self)@) == Self::depth(old(self)@);

    fn write_message_end(&mut self) -> (r: Result<(), ProtocolError>)
        ensures
            (r, final(self)@) == Self::spec_write_message_end(old(self)@),
            Self::depth(final(self)@) == Self::depth(old(self)@);

    fn write_struct_begin(&mut self, name: &str) -> (r: Result<(), ProtocolError>)
        ensures
            (r, final(self)@) == Self::spec_write_struct_begin(old(self)@, name@),
            r is Ok ==> Self::depth(final(self)@) == Self::depth(old(self)@) + 1;

    fn write_struct_end(&mut self) -> (r: Result<(), ProtocolError>)
        ensures
            (r, final(self)@) == Self::spec_write_struct_end(old(self)@),
            r is Ok && Self::depth(old(self)@) > 0 ==> Self::depth(final(self)@) == Self::depth(old(self)@) - 1;

    fn write_field_begin(&mut self, field: &FieldBegin) -> (r: Result<(), ProtocolError>)
        requires
            Self::depth(old(self)@) > 0,
        ensures
            (r, final(self)@) == Self::spec_write_field_begin(old(self)@, field.field_type, field.id),
            Self::depth(final(self)@) == Self::depth(old(self)@);

    fn write_field_end(&mut self) -> (r: Result<(), ProtocolError>)
        ensures
            (r, final(self)@) == Self::spec_write_field_end(old(self)@),
            Self::depth(final(self)@) == Self::depth(old(self)@);

    fn write_field_stop(&mut self) -> (r: Result<(), ProtocolError>)
        ensures
            (r, final(self)@) == Self::spec_write_field_stop(old(self)@),
            Self::depth(final(self)@) == Self::depth(old(self)@);

    fn write_bool(&mut self, value: bool) -> (r: Result<(), ProtocolError>)
        requires
            Self::depth(old(self)@) > 0,
        ensures
            (r, final(self)@) == Self::spec_write_bool(old(self)@, value),
            Self::depth(final(self)@) == Self::depth(old(self)@);

    fn write_byte(&mut self, value: i8) -> (r: Result<(), ProtocolError>)
        ensures
            (r, final(self)@) == Self::spec_write_byte(old(self)@, value),
            Self::depth(final(self)@) == Self::depth(old(self)@);

    fn write_i16(&mut self, value: i16) -> (r: Result<(), ProtocolError>)
        ensures
            (r, final(self)@) == Self::spec_write_i16(old(self)@, value),
            Self::depth(final(self)@) == Self::depth(old(self)@);

    fn write_i32(&mut self, value: i32) -> (r: Result<(), ProtocolError>)
        ensures
            (r, final(self)@) == Self::spec_write_i32(old(self)@, value),
            Self::depth(final(self)@) == Self::depth(old(self)@);

    fn write_i64(&mut self, value: i64) -> (r: Result<(), ProtocolError>)
        ensures
            (r, final(self)@) == Self::spec_write_i64(old(self)@, value),
            Self::depth(final(self)@) == Self::depth(old(self)@);

    /// A double, given as the bit pattern of its IEEE-754 binary64 value.
    fn write_double_bits(&mut self, bits: u64) -> (r: Result<(), ProtocolError>)
        ensures
            (r, final(self)@) == Self::spec_write_double_bits(old(self)@, bits),
            Self::depth(final(self)@) == Self::depth(old(self)@);

    fn write_string(&mut self, value: &str) -> (r: Result<(), ProtocolError>)
        ensures
            (r, final(self)@) == Self::spec_write_string(old(self)@, value@),
            Self::depth(final(self)@) == Self::depth(old(self)@);

    fn write_binary(&mut self, value: &[u8]) -> (r: Result<(), ProtocolError>)
        ensures
            (r, final(self)@) == Self::spec_write_binary(old(self)@, value@),
            Self::depth(final(self)@) == Self::depth(old(self)@);

    fn write_map_begin(&mut self, identifier: &MapBegin) -> (r: Result<(), ProtocolError>)
        ensures
            (r, final(self)@) == Self::spec_write_map_begin(old(self)@, *identifier),
            Self::depth(final(self)@) == Self::depth(old(self)@);

    fn write_map_end(&mut self) -> (r: Result<(), ProtocolError>)
        ensures
            (r, final(self)@) == Self::spec_write_map_end(old(self)@),
            Self::depth(final(self)@) == Self::depth(old(self)@);

    fn write_list_begin(&mut self, identifier: &ListBegin) -> (r: Result<(), ProtocolError>)
        ensures
            (r, final(self)@) == Self::spec_write_list_begin(old(self)@, *identifier),
            Self::depth(final(self)@) == Self::depth(old(self)@);

    fn write_list_end(&mut self) -> (r: Result<(), ProtocolError>)
        ensures
            (r, final(self)@) == Self::spec_write_list_end(old(self)@),
            Self::depth(final(self)@) == Self::depth(old(self)@);

    fn write_set_begin(&mut self, identifier: &SetBegin) -> (r: Result<(), ProtocolError>)
        ensures
            (r, final(self)@) == Self::spec_write_set_begin(old(self)@, *identifier),
            Self::depth(final(self)@) == Self::depth(old(self)@);

    fn write_set_end(&mut self) -> (r: Result<(), ProtocolError>)
        ensures
            (r, final(self)@) == Self::spec_write_set_end(old(self)@),
            Self::depth(final(self)@) == Self::depth(old(self)@);
}

} // verus!
