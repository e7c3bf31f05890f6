//! ASN.1 `GeneralizedTime`, in the strict RFC 5280 profile: always UTC,
//! always whole seconds, always exactly the fifteen bytes `YYYYMMDDHHMMSSZ`.

use vstd::prelude::*;

use crate::datetime::decode_decimal;
use crate::datetime::encode_decimal;
use crate::datetime::spec_dec_hi;
use crate::datetime::spec_dec_lo;
use crate::datetime::spec_decimal_value;
use crate::datetime::spec_is_digit;
use crate::datetime::DateTime;
use crate::datetime::UnixDuration;
use crate::decode::DecodeValue;
use crate::encode::EncodeValue;
use crate::encode::FixedTag;
use crate::error::Error;
use crate::header::Header;
use crate::length::Length;
use crate::reader::Decoder;
use crate::tag::Tag;
use crate::writer::Encoder;

verus! {

/// The byte count of every encoded `GeneralizedTime` value: four year
/// digits, five two-digit fields, and the literal `Z`.
pub const GT_VALUE_LENGTH: u32 = 15;

/// An ASN.1 `GeneralizedTime`: a calendar timestamp whose DER content is
/// always exactly fifteen ASCII bytes, `YYYYMMDDHHMMSSZ`.
///
/// The wrapped [`DateTime`] is expected to satisfy [`DateTime::wf`]; the
/// constructors of this crate only produce such values, and every contract
/// that needs validity states it.
#[derive(Copy, Clone, Debug, PartialEq, Eq, Structural)]
pub struct GeneralizedTime(pub DateTime);

/// The content octets of a timestamp: two ASCII digits for each of century,
/// year-in-century, month, day, hour, minute and second, then `Z`.
pub open spec fn spec_gt_value_bytes(dt: DateTime) -> Seq<u8> {
    seq![
        spec_dec_hi(dt.year as int / 100),
        spec_dec_lo(dt.year as int / 100),
        spec_dec_hi(dt.year as int % 100),
        spec_dec_lo(dt.year as int % 100),
        spec_dec_hi(dt.month as int),
        spec_dec_lo(dt.month as int),
        spec_dec_hi(dt.day as int),
        spec_dec_lo(dt.day as int),
        spec_dec_hi(dt.hour as int),
        spec_dec_lo(dt.hour as int),
        spec_dec_hi(dt.minute as int),
        spec_dec_lo(dt.minute as int),
        spec_dec_hi(dt.second as int),
        spec_dec_lo(dt.second as int),
        0x5au8,
    ]
}

/// The unique parse of `GeneralizedTime` content octets: anything but
/// fifteen bytes, a non-digit in the first fourteen positions, a final byte
/// other than `Z`, or a calendar-invalid date is the tag-attributed value
/// error.
pub open spec fn spec_gt_value_parse(c: Seq<u8>) -> Result<GeneralizedTime, Error> {
    if c.len() != 15 {
        Err(Error::Value { tag: Tag::GeneralizedTime })
    } else if c[14] != 0x5a {
        Err(Error::Value { tag: Tag::GeneralizedTime })
    } else if !(forall|i: int| 0 <= i < 14 ==> spec_is_digit(#[trigger] c[i])) {
        Err(Error::Value { tag: Tag::GeneralizedTime })
    } else {
        let dt = DateTime {
            year: (spec_decimal_value(c[0], c[1]) * 100 + spec_decimal_value(c[2], c[3])) as u16,
            month: spec_decimal_value(c[4], c[5]) as u8,
            day: spec_decimal_value(c[6], c[7]) as u8,
            hour: spec_decimal_value(c[8], c[9]) as u8,
            minute: spec_decimal_value(c[10], c[11]) as u8,
            second: spec_decimal_value(c[12], c[13]) as u8,
        };
        if dt.wf() {
            Ok(GeneralizedTime(dt))
        } else {
            Err(Error::Value { tag: Tag::GeneralizedTime })
        }
    }
}

impl GeneralizedTime {
    /// Wrap a calendar timestamp.
    pub fn from_date_time(datetime: DateTime) -> (r: GeneralizedTime)
        ensures
            r == GeneralizedTime(datetime),
    {
        GeneralizedTime(datetime)
    }

    /// The wrapped calendar timestamp.
    pub fn to_date_time(&self) -> (r: DateTime)
        ensures
            r == self.0,
    {
        self.0
    }

    /// The timestamp a span since the Unix epoch denotes; spans with
    /// fractional seconds or past year 9999 are the tag-attributed value
    /// error.
    pub fn from_unix_duration(d: UnixDuration) -> (r: Result<GeneralizedTime, Error>)
        ensures
            match r {
                Ok(t) => t.0.wf() && t.0.spec_unix_secs() == d.secs && d.nanos == 0,
                Err(e) => e == (Error::Value { tag: Tag::GeneralizedTime }) && (d.nanos != 0
                    || d.secs / 86400 >= crate::datetime::spec_days_before_year(10000)),
            },
            d.nanos == 0 && d.secs / 86400 < crate::datetime::spec_days_before_year(10000)
                ==> r is Ok,
    {
        match DateTime::from_unix_duration(d) {
            Ok(dt) => Ok(GeneralizedTime(dt)),
            Err(_) => Err(Tag::GeneralizedTime.value_error()),
        }
    }

    /// The span from the Unix epoch to this timestamp, always a whole number
    /// of seconds.
    pub fn to_unix_duration(&self) -> (r: UnixDuration)
        requires
            self.0.wf(),
        ensures
            r.secs == self.0.spec_unix_secs(),
            r.nanos == 0,
    {
        self.0.unix_duration()
    }
}

impl FixedTag for GeneralizedTime {
    open spec fn spec_tag() -> Tag {
        Tag::GeneralizedTime
    }

    fn tag() -> (t: Tag) {
        Tag::GeneralizedTime
    }
}

impl EncodeValue for GeneralizedTime {
    open spec fn value_bytes(&self) -> Seq<u8> {
        spec_gt_value_bytes(self.0)
    }

    open spec fn value_wf(&self) -> bool {
        self.0.wf()
    }

    fn value_len(&self) -> (r: Result<Length, Error>) {
        Ok(Length(GT_VALUE_LENGTH))
    }

    fn encode_value(&self, encoder: &mut Encoder) -> (r: Result<(), Error>) {
        let ghost w0 = encoder.written();
        if self.0.year > 9999 {
            return Err(Tag::GeneralizedTime.value_error());
        }
        let year_hi: u8 = (self.0.year / 100) as u8;
        let year_lo: u8 = (self.0.year % 100) as u8;
        match encode_decimal(encoder, Tag::GeneralizedTime, year_hi) {
            Ok(()) => {},
            Err(e) => { return Err(e) },
        }
        match encode_decimal(encoder, Tag::GeneralizedTime, year_lo) {
            Ok(()) => {},
            Err(e) => { return Err(e) },
        }
        match encode_decimal(encoder, Tag::GeneralizedTime, self.0.month) {
            Ok(()) => {},
            Err(e) => { return Err(e) },
        }
        match encode_decimal(encoder, Tag::GeneralizedTime, self.0.day) {
            Ok(()) => {},
            Err(e) => { return Err(e) },
        }
        match encode_decimal(encoder, Tag::GeneralizedTime, self.0.hour) {
            Ok(()) => {},
            Err(e) => { return Err(e) },
        }
        match encode_decimal(encoder, Tag::GeneralizedTime, self.0.minute) {
            Ok(()) => {},
            Err(e) => { return Err(e) },
        }
        match encode_decimal(encoder, Tag::GeneralizedTime, self.0.second) {
            Ok(()) => {},
            Err(e) => { return Err(e) },
        }
        let r = encoder.byte(0x5a);
        proof {
            if r is Ok {
                assert(encoder.written() =~= w0 + spec_gt_value_bytes(self.0));
            }
        }
        r
    }
}

impl DecodeValue for GeneralizedTime {
    open spec fn spec_decode_value(content: Seq<u8>) -> Result<GeneralizedTime, Error> {
        spec_gt_value_parse(content)
    }

    fn decode_value(decoder: &mut Decoder, header: Header) -> (r: Result<GeneralizedTime, Error>) {
        let ghost content = decoder.rest().take(header.length.0 as int);
        let bytes = match decoder.read_bytes(header.length.0 as usize) {
            Ok(b) => b,
            Err(e) => { return Err(e) },
        };
        if bytes.len() != 15 {
            return Err(Tag::GeneralizedTime.value_error());
        }
        if bytes[14] != 0x5a {
            return Err(Tag::GeneralizedTime.value_error());
        }
        let year_hi = match decode_decimal(Tag::GeneralizedTime, bytes[0], bytes[1]) {
            Ok(v) => v,
            Err(e) => { return Err(e) },
        };
        let year_lo = match decode_decimal(Tag::GeneralizedTime, bytes[2], bytes[3]) {
            Ok(v) => v,
            Err(e) => { return Err(e) },
        };
        let month = match decode_decimal(Tag::GeneralizedTime, bytes[4], bytes[5]) {
            Ok(v) => v,
            Err(e) => { return Err(e) },
        };
        let day = match decode_decimal(Tag::GeneralizedTime, bytes[6], bytes[7]) {
            Ok(v) => v,
            Err(e) => { return Err(e) },
        };
        let hour = match decode_decimal(Tag::GeneralizedTime, bytes[8], bytes[9]) {
            Ok(v) => v,
            Err(e) => { return Err(e) },
        };
        let minute = match decode_decimal(Tag::GeneralizedTime, bytes[10], bytes[11]) {
            Ok(v) => v,
            Err(e) => { return Err(e) },
        };
        let second = match decode_decimal(Tag::GeneralizedTime, bytes[12], bytes[13]) {
            Ok(v) => v,
            Err(e) => { return Err(e) },
        };
        proof {
            assert forall|i: int| 0 <= i < 14 implies spec_is_digit(#[trigger] content[i]) by {
                assert(content[i] == bytes@[i]);
            }
        }
        let year: u16 = (year_hi as u16) * 100 + (year_lo as u16);
        match DateTime::new(year, month, day, hour, minute, second) {
            Ok(dt) => Ok(GeneralizedTime(dt)),
            Err(_) => Err(Tag::GeneralizedTime.value_error()),
        }
    }
}

impl FixedTag for DateTime {
    open spec fn spec_tag() -> Tag {
        Tag::GeneralizedTime
    }

    fn tag() -> (t: Tag) {
        Tag::GeneralizedTime
    }
}

impl EncodeValue for DateTime {
    open spec fn value_bytes(&self) -> Seq<u8> {
        spec_gt_value_bytes(*self)
    }

    open spec fn value_wf(&self) -> bool {
        self.wf()
    }

    fn value_len(&self) -> (r: Result<Length, Error>) {
        GeneralizedTime(*self).value_len()
    }

    fn encode_value(&self, encoder: &mut Encoder) -> (r: Result<(), Error>) {
        GeneralizedTime(*self).encode_value(encoder)
    }
}

impl DecodeValue for DateTime {
    open spec fn spec_decode_value(content: Seq<u8>) -> Result<DateTime, Error> {
        match spec_gt_value_parse(content) {
            Ok(t) => Ok(t.0),
            Err(e) => Err(e),
        }
    }

    fn decode_value(decoder: &mut Decoder, header: Header) -> (r: Result<DateTime, Error>) {
        match GeneralizedTime::decode_value(decoder, header) {
            Ok(t) => Ok(t.to_date_time()),
            Err(e) => Err(e),
        }
    }
}

} // verus!

use crate::decode::Decode;
use crate::encode::Encode;
use crate::length::spec_length_decode;
use crate::length::spec_length_octets;

verus! {

/// Round trip: a well-formed timestamp's complete DER encoding decodes back
/// to the same timestamp, consuming all of it; the content is always exactly
/// fifteen bytes behind a two-byte header.
pub proof fn lemma_generalized_time_round_trip(t: GeneralizedTime)
    requires
        t.0.wf(),
    ensures
        t.value_bytes().len() == 15,
        t.der_bytes().len() == 17,
        GeneralizedTime::spec_decode(t.der_bytes()) == Ok::<(GeneralizedTime, int), Error>(
            (t, 17),
        ),
{
    let dt = t.0;
    let val = spec_gt_value_bytes(dt);
    let der = t.der_bytes();
    assert(spec_length_octets(15) =~= seq![0x0fu8]);
    assert(der =~= seq![0x18u8] + spec_length_octets(15) + val);
    assert(der[0] == 0x18);
    assert(Tag::spec_from_octet(0x18) == Ok::<Tag, Error>(Tag::GeneralizedTime));
    assert(der.skip(1) =~= seq![0x0fu8] + val);
    assert(der.skip(1)[0] == 0x0f);
    assert(spec_length_decode(der.skip(1)) == Ok::<(Length, int), Error>((Length(15), 1)));
    assert(Header::spec_decode(der) == Ok::<(Header, int), Error>(
        (Header { tag: Tag::GeneralizedTime, length: Length(15) }, 2),
    ));
    let content = der.subrange(2, 17);
    assert(content =~= val);
    let yh = dt.year as int / 100;
    let yl = dt.year as int % 100;
    assert(0 <= yh <= 99 && 0 <= yl <= 99);
    assert(spec_is_digit(val[0]) && spec_is_digit(val[1]));
    assert(spec_is_digit(val[2]) && spec_is_digit(val[3]));
    assert(spec_is_digit(val[4]) && spec_is_digit(val[5]));
    assert(spec_is_digit(val[6]) && spec_is_digit(val[7]));
    assert(spec_is_digit(val[8]) && spec_is_digit(val[9]));
    assert(spec_is_digit(val[10]) && spec_is_digit(val[11]));
    assert(spec_is_digit(val[12]) && spec_is_digit(val[13]));
    assert(forall|i: int| 0 <= i < 14 ==> spec_is_digit(#[trigger] val[i]));
    assert(val[14] == 0x5a);
    assert(spec_decimal_value(spec_dec_hi(yh), spec_dec_lo(yh)) == yh);
    assert(spec_decimal_value(spec_dec_hi(yl), spec_dec_lo(yl)) == yl);
    assert(yh * 100 + yl == dt.year);
    assert(spec_decimal_value(val[4], val[5]) == dt.month);
    assert(spec_decimal_value(val[6], val[7]) == dt.day);
    assert(spec_decimal_value(val[8], val[9]) == dt.hour);
    assert(spec_decimal_value(val[10], val[11]) == dt.minute);
    assert(spec_decimal_value(val[12], val[13]) == dt.second);
    assert(spec_gt_value_parse(val) == Ok::<GeneralizedTime, Error>(t));
}

} // verus!

use core::cmp::Ordering;
use crate::ord::lemma_div_mod_order;
use crate::ord::lemma_lex_cons;
use crate::ord::lemma_lex_single;
use crate::ord::lex_cmp;
use crate::ord::DerOrd;

verus! {

/// The two ASCII digits of a number below 100.
pub open spec fn spec_dec_pair(v: int) -> Seq<u8> {
    seq![spec_dec_hi(v), spec_dec_lo(v)]
}

/// Two-digit fields compare lexicographically as their values compare
/// numerically, and equal fields hand the comparison on to the tail.
proof fn lemma_lex_dec_pair(v: int, w: int, a: Seq<u8>, b: Seq<u8>)
    requires
        0 <= v <= 99,
        0 <= w <= 99,
    ensures
        lex_cmp(spec_dec_pair(v) + a, spec_dec_pair(w) + b) == (if v < w {
            Ordering::Less
        } else if v > w {
            Ordering::Greater
        } else {
            lex_cmp(a, b)
        }),
{
    assert(spec_dec_pair(v) + a =~= seq![spec_dec_hi(v)] + (seq![spec_dec_lo(v)] + a));
    assert(spec_dec_pair(w) + b =~= seq![spec_dec_hi(w)] + (seq![spec_dec_lo(w)] + b));
    lemma_lex_cons(spec_dec_hi(v), spec_dec_hi(w), seq![spec_dec_lo(v)] + a, seq![spec_dec_lo(w)] + b);
    lemma_lex_cons(spec_dec_lo(v), spec_dec_lo(w), a, b);
    lemma_div_mod_order(v, w, 10);
}

impl DerOrd for GeneralizedTime {
    /// The natural order of the wrapped timestamps is the DER order: the
    /// fixed header is shared, and the digit fields compare byte for byte as
    /// the calendar fields compare numerically.
    fn der_cmp(&self, other: &Self) -> (r: Result<Ordering, Error>) {
        if !(self.0.is_valid() && other.0.is_valid()) {
            return Err(Error::DateTime);
        }
        let a = self.0;
        let b = other.0;
        proof {
            lemma_generalized_time_value_order(a, b);
        }
        let o = if a.year != b.year {
            if a.year < b.year {
                Ordering::Less
            } else {
                Ordering::Greater
            }
        } else if a.month != b.month {
            if a.month < b.month {
                Ordering::Less
            } else {
                Ordering::Greater
            }
        } else if a.day != b.day {
            if a.day < b.day {
                Ordering::Less
            } else {
                Ordering::Greater
            }
        } else if a.hour != b.hour {
            if a.hour < b.hour {
                Ordering::Less
            } else {
                Ordering::Greater
            }
        } else if a.minute != b.minute {
            if a.minute < b.minute {
                Ordering::Less
            } else {
                Ordering::Greater
            }
        } else if a.second != b.second {
            if a.second < b.second {
                Ordering::Less
            } else {
                Ordering::Greater
            }
        } else {
            Ordering::Equal
        };
        Ok(o)
    }
}

/// Two valid timestamps' encodings compare byte for byte exactly as the
/// timestamps compare field by field, year down to second.
pub proof fn lemma_generalized_time_value_order(a: DateTime, b: DateTime)
    requires
        a.wf(),
        b.wf(),
    ensures
        lex_cmp(GeneralizedTime(a).der_bytes(), GeneralizedTime(b).der_bytes()) == (if a.year
            != b.year {
            if a.year < b.year {
                Ordering::Less
            } else {
                Ordering::Greater
            }
        } else if a.month != b.month {
            if a.month < b.month {
                Ordering::Less
            } else {
                Ordering::Greater
            }
        } else if a.day != b.day {
            if a.day < b.day {
                Ordering::Less
            } else {
                Ordering::Greater
            }
        } else if a.hour != b.hour {
            if a.hour < b.hour {
                Ordering::Less
            } else {
                Ordering::Greater
            }
        } else if a.minute != b.minute {
            if a.minute < b.minute {
                Ordering::Less
            } else {
                Ordering::Greater
            }
        } else if a.second != b.second {
            if a.second < b.second {
                Ordering::Less
            } else {
                Ordering::Greater
            }
        } else {
            Ordering::Equal
        }),
{
    let va = spec_gt_value_bytes(a);
    let vb = spec_gt_value_bytes(b);
    let ta = tail_after_year(a);
    let tb = tail_after_year(b);
    assert(GeneralizedTime(a).der_bytes() =~= seq![0x18u8] + (seq![0x0fu8] + va));
    assert(GeneralizedTime(b).der_bytes() =~= seq![0x18u8] + (seq![0x0fu8] + vb));
    lemma_lex_cons(0x18, 0x18, seq![0x0fu8] + va, seq![0x0fu8] + vb);
    lemma_lex_cons(0x0f, 0x0f, va, vb);
    assert(va =~= spec_dec_pair(a.year as int / 100) + (spec_dec_pair(a.year as int % 100) + ta));
    assert(vb =~= spec_dec_pair(b.year as int / 100) + (spec_dec_pair(b.year as int % 100) + tb));
    lemma_lex_dec_pair(
        a.year as int / 100,
        b.year as int / 100,
        spec_dec_pair(a.year as int % 100) + ta,
        spec_dec_pair(b.year as int % 100) + tb,
    );
    lemma_lex_dec_pair(a.year as int % 100, b.year as int % 100, ta, tb);
    lemma_div_mod_order(a.year as int, b.year as int, 100);
    lemma_tail_order(a, b);
}

/// The content octets after the four year digits.
spec fn tail_after_year(dt: DateTime) -> Seq<u8> {
    spec_dec_pair(dt.month as int) + (spec_dec_pair(dt.day as int) + (spec_dec_pair(
        dt.hour as int,
    ) + (spec_dec_pair(dt.minute as int) + (spec_dec_pair(dt.second as int) + seq![0x5au8]))))
}

/// Ordering of the month-through-second tail.
proof fn lemma_tail_order(a: DateTime, b: DateTime)
    requires
        a.wf(),
        b.wf(),
    ensures
        lex_cmp(tail_after_year(a), tail_after_year(b)) == (if a.month != b.month {
            if a.month < b.month {
                Ordering::Less
            } else {
                Ordering::Greater
            }
        } else if a.day != b.day {
            if a.day < b.day {
                Ordering::Less
            } else {
                Ordering::Greater
            }
        } else if a.hour != b.hour {
            if a.hour < b.hour {
                Ordering::Less
            } else {
                Ordering::Greater
            }
        } else if a.minute != b.minute {
            if a.minute < b.minute {
                Ordering::Less
            } else {
                Ordering::Greater
            }
        } else if a.second != b.second {
            if a.second < b.second {
                Ordering::Less
            } else {
                Ordering::Greater
            }
        } else {
            Ordering::Equal
        }),
{
    lemma_lex_dec_pair(
        a.month as int,
        b.month as int,
        spec_dec_pair(a.day as int) + (spec_dec_pair(a.hour as int) + (spec_dec_pair(
            a.minute as int,
        ) + (spec_dec_pair(a.second as int) + seq![0x5au8]))),
        spec_dec_pair(b.day as int) + (spec_dec_pair(b.hour as int) + (spec_dec_pair(
            b.minute as int,
        ) + (spec_dec_pair(b.second as int) + seq![0x5au8]))),
    );
    lemma_lex_dec_pair(
        a.day as int,
        b.day as int,
        spec_dec_pair(a.hour as int) + (spec_dec_pair(a.minute as int) + (spec_dec_pair(
            a.second as int,
        ) + seq![0x5au8])),
        spec_dec_pair(b.hour as int) + (spec_dec_pair(b.minute as int) + (spec_dec_pair(
            b.second as int,
        ) + seq![0x5au8])),
    );
    lemma_lex_dec_pair(
        a.hour as int,
        b.hour as int,
        spec_dec_pair(a.minute as int) + (spec_dec_pair(a.second as int) + seq![0x5au8]),
        spec_dec_pair(b.minute as int) + (spec_dec_pair(b.second as int) + seq![0x5au8]),
    );
    lemma_lex_dec_pair(
        a.minute as int,
        b.minute as int,
        spec_dec_pair(a.second as int) + seq![0x5au8],
        spec_dec_pair(b.second as int) + seq![0x5au8],
    );
    lemma_lex_dec_pair(a.second as int, b.second as int, seq![0x5au8], seq![0x5au8]);
    lemma_lex_single(0x5a, 0x5a);
}

} // verus!

verus! {

impl From<DateTime> for GeneralizedTime {
    fn from(datetime: DateTime) -> (r: GeneralizedTime) {
        GeneralizedTime(datetime)
    }
}

impl vstd::std_specs::convert::FromSpecImpl<DateTime> for GeneralizedTime {
    open spec fn obeys_from_spec() -> bool {
        true
    }

    open spec fn from_spec(datetime: DateTime) -> GeneralizedTime {
        GeneralizedTime(datetime)
    }
}

impl From<GeneralizedTime> for DateTime {
    fn from(time: GeneralizedTime) -> (r: DateTime) {
        time.0
    }
}

impl vstd::std_specs::convert::FromSpecImpl<GeneralizedTime> for DateTime {
    open spec fn obeys_from_spec() -> bool {
        true
    }

    open spec fn from_spec(time: GeneralizedTime) -> DateTime {
        time.0
    }
}

} // verus!
