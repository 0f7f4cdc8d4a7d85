//! A timestamp-with-offset wire type: a millisecond unix timestamp and a
//! zone offset in seconds. Decoding reads either the binary form —
//! big-endian microseconds since 2000-01-01 UTC — or a datetime text
//! form. The calendar arithmetic and the text grammar come from an
//! outside date library; the byte handling and the branch logic are
//! verified here.

use vstd::prelude::*;
use crate::error::{DecodeErr, Error};
use crate::eval::tdiv;
use crate::value::{view_value, Value, ValueS};

verus! {

/// The unix milliseconds of 2000-01-01 00:00:00 UTC, in nanoseconds.
pub open spec fn epoch_2000_nanos() -> int {
    946_684_800_000_000_000
}

/// A timestamp: unix milliseconds and a zone offset in seconds.
#[derive(Debug, Clone, Copy, PartialEq, Eq, Structural)]
pub struct Timestamptz(pub i64, pub i32);

/// A wire value as the decoder reads it: binary bytes or text.
#[derive(Debug)]
pub enum PgValue {
    Binary(Vec<u8>),
    Text(String),
}

/// The first eight bytes read as a big-endian unsigned number.
pub open spec fn be_u64_of(b: Seq<u8>) -> int
    recommends
        b.len() >= 8,
{
    b[0] * 0x100_0000_0000_0000 + b[1] * 0x1_0000_0000_0000 + b[2] * 0x100_0000_0000 + b[3]
        * 0x1_0000_0000 + b[4] * 0x100_0000 + b[5] * 0x1_0000 + b[6] * 0x100 + b[7]
}

/// The first eight bytes read as a big-endian two's-complement number.
pub open spec fn be_i64_of(b: Seq<u8>) -> int
    recommends
        b.len() >= 8,
{
    let u = be_u64_of(b);
    if u >= 0x8000_0000_0000_0000 {
        u - 0x1_0000_0000_0000_0000
    } else {
        u
    }
}

/// The millisecond timestamp of a count of microseconds relative to
/// 2000-01-01 UTC: nanosecond arithmetic truncated toward zero, exactly
/// as the date library computes it.
pub open spec fn millis_of_pg_micros(us: int) -> int {
    tdiv(epoch_2000_nanos() + us * 1000, 1_000_000)
}

/// The bound within which the date arithmetic below stays inside the
/// date library's supported year range: years -9999 to 9999 put the
/// representable span at about -3.78e17 to +2.53e17 microseconds from
/// 2000-01-01, and these bounds stay just inside it.
pub open spec fn pg_micros_in_range(us: int) -> bool {
    -370_000_000_000_000_000 <= us <= 250_000_000_000_000_000
}

/// Relies on fastdate's `DateTime::from(Date)` (2000-01-01 parses to the
/// UTC epoch 946684800s), `Add<Duration>` (exact nanosecond arithmetic)
/// and `unix_timestamp_millis` (nanoseconds divided by one million,
/// truncated toward zero). The bound keeps the shifted date below the
/// library's year 9999 ceiling, where the addition would panic.
#[verifier::external_body]
fn epoch2000_plus_micros(us: u64) -> (r: i64)
    requires
        us <= 250_000_000_000_000_000,
    ensures
        r as int == millis_of_pg_micros(us as int),
{
    let epoch = fastdate::DateTime::from(fastdate::Date { day: 1, mon: 1, year: 2000 });
    (epoch + std::time::Duration::from_micros(us)).unix_timestamp_millis()
}

/// Relies on fastdate's `DateTime::from(Date)`, `Sub<Duration>` and
/// `unix_timestamp_millis`, as [`epoch2000_plus_micros`] does. The bound
/// keeps the shifted date above the library's year -9999 floor, where
/// the subtraction would panic.
#[verifier::external_body]
fn epoch2000_minus_micros(n: u64) -> (r: i64)
    requires
        n <= 370_000_000_000_000_000,
    ensures
        r as int == millis_of_pg_micros(-(n as int)),
{
    let epoch = fastdate::DateTime::from(fastdate::Date { day: 1, mon: 1, year: 2000 });
    (epoch - std::time::Duration::from_micros(n)).unix_timestamp_millis()
}

/// Relies on fastdate's `DateTime::from_str` — which assumes the
/// machine's local offset when the text names none — and on
/// `unix_timestamp_millis` and `offset`. The result depends on the
/// machine's zone for zoneless text, so nothing is promised of the
/// values; the decoder below states what holds whatever came back.
/// The parser slices its input by byte index and panics when such an
/// index falls inside a multi-byte character, so only ASCII text may be
/// handed to it; on ASCII input a failed parse returns an error.
#[verifier::external_body]
fn parse_datetime_text(s: &str) -> (r: Option<(i64, i32)>)
    requires
        vstd::string::is_ascii(s),
{
    match <fastdate::DateTime as std::str::FromStr>::from_str(s) {
        Ok(d) => Some((d.unix_timestamp_millis(), d.offset())),
        Err(_) => None,
    }
}

impl Timestamptz {
    /// Decodes a wire value. The binary form holds big-endian
    /// microseconds since 2000-01-01 UTC and decodes — exactly — to the
    /// truncated millisecond timestamp with a zero offset; fewer than
    /// eight bytes are a decode error. The text form parses through the
    /// date library: non-ASCII text (which the library's parser cannot
    /// take) and a failed parse are decode errors, and a successful
    /// parse yields whatever timestamp and offset the library read.
    pub fn decode(value: &PgValue) -> (r: Result<Timestamptz, Error>)
        requires
            value matches PgValue::Binary(data) ==> (data@.len() >= 8 ==> pg_micros_in_range(
                be_i64_of(data@),
            )),
        ensures
            value matches PgValue::Binary(data) ==> {
                &&& data@.len() < 8 ==> r == Err::<Timestamptz, Error>(
                    Error::Decode(DecodeErr::ShortPayload),
                )
                &&& data@.len() >= 8 ==> r == Ok::<Timestamptz, Error>(
                    Timestamptz((millis_of_pg_micros(be_i64_of(data@)) as i64), 0),
                ) && in_i64_range(millis_of_pg_micros(be_i64_of(data@)))
            },
            value matches PgValue::Text(_) ==> (r is Ok || r == Err::<Timestamptz, Error>(
                Error::Decode(DecodeErr::BadText),
            )),
    {
        match value {
            PgValue::Binary(data) => {
                if data.len() < 8 {
                    return Err(Error::Decode(DecodeErr::ShortPayload));
                }
                let us = read_be_i64(data);
                let millis: i64 = if us < 0 {
                    epoch2000_minus_micros((-(us as i128)) as u64)
                } else {
                    epoch2000_plus_micros(us as u64)
                };
                Ok(Timestamptz(millis, 0))
            },
            PgValue::Text(s) => {
                if !s.as_str().is_ascii() {
                    return Err(Error::Decode(DecodeErr::BadText));
                }
                match parse_datetime_text(s.as_str()) {
                    Some((millis, offset)) => Ok(Timestamptz(millis, offset)),
                    None => Err(Error::Decode(DecodeErr::BadText)),
                }
            },
        }
    }

    /// Encodes the wire form the host driver writes for this type: the
    /// millisecond timestamp as an eight-byte big-endian two's-complement
    /// integer. The offset does not travel, matching the decoder's
    /// binary form, which carries no zone.
    pub fn encode(&self) -> (r: Vec<u8>)
        ensures
            r@.len() == 8,
            be_i64_of(r@) == self.0 as int,
    {
        let u: u64 = if self.0 >= 0 {
            self.0 as u64
        } else {
            ((self.0 as i128) + 0x1_0000_0000_0000_0000) as u64
        };
        let b7: u8 = (u % 0x100) as u8;
        let u1: u64 = u / 0x100;
        let b6: u8 = (u1 % 0x100) as u8;
        let u2: u64 = u1 / 0x100;
        let b5: u8 = (u2 % 0x100) as u8;
        let u3: u64 = u2 / 0x100;
        let b4: u8 = (u3 % 0x100) as u8;
        let u4: u64 = u3 / 0x100;
        let b3: u8 = (u4 % 0x100) as u8;
        let u5: u64 = u4 / 0x100;
        let b2: u8 = (u5 % 0x100) as u8;
        let u6: u64 = u5 / 0x100;
        let b1: u8 = (u6 % 0x100) as u8;
        let u7: u64 = u6 / 0x100;
        let b0: u8 = (u7 % 0x100) as u8;
        proof {
            assert(u7 < 0x100);
            assert(u as int == ((((((((b0 as int) * 0x100 + b1) * 0x100 + b2) * 0x100 + b3) * 0x100
                + b4) * 0x100 + b5) * 0x100 + b6) * 0x100 + b7));
        }
        let mut out: Vec<u8> = Vec::new();
        out.push(b0);
        out.push(b1);
        out.push(b2);
        out.push(b3);
        out.push(b4);
        out.push(b5);
        out.push(b6);
        out.push(b7);
        proof {
            assert(be_u64_of(out@) == u as int);
            if self.0 >= 0 {
                assert(u < 0x8000_0000_0000_0000);
            } else {
                assert(u as int == self.0 as int + 0x1_0000_0000_0000_0000);
                assert(u >= 0x8000_0000_0000_0000);
            }
        }
        out
    }

    /// The value-model form: a named extension wrapping the timestamp
    /// and the offset.
    pub fn to_value(&self) -> (r: Value)
        ensures
            view_value(r) == ValueS::Ext(
                "Timestamptz"@,
                Box::new(
                    ValueS::Array(seq![ValueS::I64(self.0), ValueS::I32(self.1)]),
                ),
            ),
    {
        let mut items: Vec<Value> = Vec::new();
        items.push(Value::I64(self.0));
        items.push(Value::I32(self.1));
        let ghost iv = crate::value::view_values(items@);
        proof {
            crate::value::lemma_view_values(items@);
            assert(iv =~= seq![ValueS::I64(self.0), ValueS::I32(self.1)]);
        }
        let tag = String::from_str("Timestamptz");
        let r = Value::Ext(tag, Box::new(Value::Array(items)));
        proof {
            assert(r->Ext_0@ == "Timestamptz"@);
            assert(*r->Ext_1 matches Value::Array(a) && a@ == items@);
            assert(view_value(*r->Ext_1) == ValueS::Array(iv));
            assert(view_value(r) == ValueS::Ext("Timestamptz"@, Box::new(ValueS::Array(iv))));
            assert(ValueS::Array(iv) == ValueS::Array(
                seq![ValueS::I64(self.0), ValueS::I32(self.1)],
            ));
        }
        r
    }
}

/// True when `n` fits a signed 64-bit value.
pub open spec fn in_i64_range(n: int) -> bool {
    i64::MIN as int <= n <= i64::MAX as int
}

/// The first eight bytes of `data`, big-endian, as a signed number.
fn read_be_i64(data: &Vec<u8>) -> (r: i64)
    requires
        data@.len() >= 8,
    ensures
        r as int == be_i64_of(data@),
{
    let u: u64 = (data[0] as u64) * 0x100_0000_0000_0000 + (data[1] as u64) * 0x1_0000_0000_0000 + (
    data[2] as u64) * 0x100_0000_0000 + (data[3] as u64) * 0x1_0000_0000 + (data[4] as u64)
        * 0x100_0000 + (data[5] as u64) * 0x1_0000 + (data[6] as u64) * 0x100 + (data[7] as u64);
    if u >= 0x8000_0000_0000_0000 {
        let m: u64 = u - 0x8000_0000_0000_0000;
        let r: i64 = i64::MIN + (m as i64);
        proof {
            assert(r as int == be_u64_of(data@) - 0x1_0000_0000_0000_0000);
        }
        r
    } else {
        u as i64
    }
}

} // verus!
