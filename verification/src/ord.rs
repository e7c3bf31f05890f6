//! Canonical DER ordering: comparisons that agree, by contract, with
//! comparing the values' DER encodings byte for byte.

use core::cmp::Ordering;
use vstd::prelude::*;

use crate::encode::Encode;
use crate::error::Error;
use crate::header::Header;
use crate::length::spec_length_octets;
use crate::length::Length;
use crate::tag::Tag;

verus! {

/// Byte-wise lexicographic comparison: the order in which DER encodings are
/// compared, and hence the order canonical SET-OF encoding sorts by.
pub open spec fn lex_cmp(a: Seq<u8>, b: Seq<u8>) -> Ordering
    decreases a.len(),
{
    if a.len() == 0 && b.len() == 0 {
        Ordering::Equal
    } else if a.len() == 0 {
        Ordering::Less
    } else if b.len() == 0 {
        Ordering::Greater
    } else if a[0] < b[0] {
        Ordering::Less
    } else if a[0] > b[0] {
        Ordering::Greater
    } else {
        lex_cmp(a.skip(1), b.skip(1))
    }
}

/// Peeling one byte off each side of a lexicographic comparison.
pub proof fn lemma_lex_cons(x: u8, y: u8, a: Seq<u8>, b: Seq<u8>)
    ensures
        lex_cmp(seq![x] + a, seq![y] + b) == (if x < y {
            Ordering::Less
        } else if x > y {
            Ordering::Greater
        } else {
            lex_cmp(a, b)
        }),
{
    let s = seq![x] + a;
    let t = seq![y] + b;
    assert(s[0] == x && t[0] == y);
    if x == y {
        assert(s.skip(1) =~= a);
        assert(t.skip(1) =~= b);
    }
}

/// Lexicographic comparison of two empty or singleton tails.
pub proof fn lemma_lex_single(x: u8, y: u8)
    ensures
        lex_cmp(seq![x], seq![y]) == (if x < y {
            Ordering::Less
        } else if x > y {
            Ordering::Greater
        } else {
            Ordering::Equal
        }),
{
    assert(seq![x] =~= seq![x] + Seq::<u8>::empty());
    assert(seq![y] =~= seq![y] + Seq::<u8>::empty());
    lemma_lex_cons(x, y, Seq::<u8>::empty(), Seq::<u8>::empty());
}

/// The numeric comparison of two values as an `Ordering`.
pub open spec fn spec_num_cmp(a: int, b: int) -> Ordering {
    if a < b {
        Ordering::Less
    } else if a > b {
        Ordering::Greater
    } else {
        Ordering::Equal
    }
}

/// Canonical length encodings compare lexicographically exactly as the
/// lengths compare numerically: DER's minimal-octets rule makes the byte
/// order and the value order coincide.
pub proof fn lemma_length_octets_order(a: u32, b: u32)
    ensures
        lex_cmp(spec_length_octets(a), spec_length_octets(b)) == spec_num_cmp(a as int, b as int),
{
    let sa = spec_length_octets(a);
    let sb = spec_length_octets(b);
    lemma_length_octets_shape(a);
    lemma_length_octets_shape(b);
    if sa[0] != sb[0] {
        // Different first octets decide the byte order; the shape lemma
        // shows the first octet is monotone in the value's magnitude class
        // and, within the short form, is the value itself.
        assert(lex_cmp(sa, sb) == (if sa[0] < sb[0] {
            Ordering::Less
        } else {
            Ordering::Greater
        }));
    } else {
        if a < 0x80 {
            assert(a == b);
            assert(sa =~= sb);
            lemma_lex_eq(sa);
        } else if a < 0x100 {
            assert(sa =~= seq![0x81u8] + seq![a as u8]);
            assert(sb =~= seq![0x81u8] + seq![b as u8]);
            lemma_lex_cons(0x81, 0x81, seq![a as u8], seq![b as u8]);
            lemma_lex_single(a as u8, b as u8);
        } else if a < 0x10000 {
            assert(sa =~= seq![0x82u8] + (seq![(a / 0x100) as u8] + seq![(a % 0x100) as u8]));
            assert(sb =~= seq![0x82u8] + (seq![(b / 0x100) as u8] + seq![(b % 0x100) as u8]));
            lemma_lex_cons(
                0x82,
                0x82,
                seq![(a / 0x100) as u8] + seq![(a % 0x100) as u8],
                seq![(b / 0x100) as u8] + seq![(b % 0x100) as u8],
            );
            lemma_lex_cons(
                (a / 0x100) as u8,
                (b / 0x100) as u8,
                seq![(a % 0x100) as u8],
                seq![(b % 0x100) as u8],
            );
            lemma_lex_single((a % 0x100) as u8, (b % 0x100) as u8);
            lemma_div_mod_order(a as int, b as int, 0x100);
        } else if a < 0x1000000 {
            assert(sa =~= seq![0x83u8] + (seq![(a / 0x10000) as u8] + (seq![((a / 0x100)
                % 0x100) as u8] + seq![(a % 0x100) as u8])));
            assert(sb =~= seq![0x83u8] + (seq![(b / 0x10000) as u8] + (seq![((b / 0x100)
                % 0x100) as u8] + seq![(b % 0x100) as u8])));
            lemma_lex_cons(
                0x83,
                0x83,
                seq![(a / 0x10000) as u8] + (seq![((a / 0x100) % 0x100) as u8] + seq![(a
                    % 0x100) as u8]),
                seq![(b / 0x10000) as u8] + (seq![((b / 0x100) % 0x100) as u8] + seq![(b
                    % 0x100) as u8]),
            );
            lemma_lex_cons(
                (a / 0x10000) as u8,
                (b / 0x10000) as u8,
                seq![((a / 0x100) % 0x100) as u8] + seq![(a % 0x100) as u8],
                seq![((b / 0x100) % 0x100) as u8] + seq![(b % 0x100) as u8],
            );
            lemma_lex_cons(
                ((a / 0x100) % 0x100) as u8,
                ((b / 0x100) % 0x100) as u8,
                seq![(a % 0x100) as u8],
                seq![(b % 0x100) as u8],
            );
            lemma_lex_single((a % 0x100) as u8, (b % 0x100) as u8);
            lemma_div_mod_order(a as int / 0x100, b as int / 0x100, 0x100);
            lemma_div_mod_order(a as int, b as int, 0x100);
            assert(a as int / 0x10000 == (a as int / 0x100) / 0x100);
            assert(b as int / 0x10000 == (b as int / 0x100) / 0x100);
        } else {
            assert(sa =~= seq![0x84u8] + (seq![(a / 0x1000000) as u8] + (seq![((a / 0x10000)
                % 0x100) as u8] + (seq![((a / 0x100) % 0x100) as u8] + seq![(a % 0x100) as u8]))));
            assert(sb =~= seq![0x84u8] + (seq![(b / 0x1000000) as u8] + (seq![((b / 0x10000)
                % 0x100) as u8] + (seq![((b / 0x100) % 0x100) as u8] + seq![(b % 0x100) as u8]))));
            lemma_lex_cons(
                0x84,
                0x84,
                seq![(a / 0x1000000) as u8] + (seq![((a / 0x10000) % 0x100) as u8] + (seq![((a
                    / 0x100) % 0x100) as u8] + seq![(a % 0x100) as u8])),
                seq![(b / 0x1000000) as u8] + (seq![((b / 0x10000) % 0x100) as u8] + (seq![((b
                    / 0x100) % 0x100) as u8] + seq![(b % 0x100) as u8])),
            );
            lemma_lex_cons(
                (a / 0x1000000) as u8,
                (b / 0x1000000) as u8,
                seq![((a / 0x10000) % 0x100) as u8] + (seq![((a / 0x100) % 0x100) as u8] + seq![(a
                    % 0x100) as u8]),
                seq![((b / 0x10000) % 0x100) as u8] + (seq![((b / 0x100) % 0x100) as u8] + seq![(b
                    % 0x100) as u8]),
            );
            lemma_lex_cons(
                ((a / 0x10000) % 0x100) as u8,
                ((b / 0x10000) % 0x100) as u8,
                seq![((a / 0x100) % 0x100) as u8] + seq![(a % 0x100) as u8],
                seq![((b / 0x100) % 0x100) as u8] + seq![(b % 0x100) as u8],
            );
            lemma_lex_cons(
                ((a / 0x100) % 0x100) as u8,
                ((b / 0x100) % 0x100) as u8,
                seq![(a % 0x100) as u8],
                seq![(b % 0x100) as u8],
            );
            lemma_lex_single((a % 0x100) as u8, (b % 0x100) as u8);
            lemma_div_mod_order(a as int / 0x10000, b as int / 0x10000, 0x100);
            lemma_div_mod_order(a as int / 0x100, b as int / 0x100, 0x100);
            lemma_div_mod_order(a as int, b as int, 0x100);
            assert(a as int / 0x1000000 == (a as int / 0x100) / 0x100 / 0x100);
            assert(b as int / 0x1000000 == (b as int / 0x100) / 0x100 / 0x100);
            assert(a as int / 0x10000 == (a as int / 0x100) / 0x100);
            assert(b as int / 0x10000 == (b as int / 0x100) / 0x100);
        }
    }
}

/// Two equal byte strings compare `Equal`.
pub proof fn lemma_lex_eq(a: Seq<u8>)
    ensures
        lex_cmp(a, a) == Ordering::Equal,
    decreases a.len(),
{
    if a.len() > 0 {
        lemma_lex_eq(a.skip(1));
    }
}

/// Comparing by high digit then low digit is comparing the values: for
/// non-negative `a`, `b`, the pair `(a / d, a % d)` orders lexicographically
/// as `a` orders numerically.
pub proof fn lemma_div_mod_order(a: int, b: int, d: int)
    requires
        0 <= a,
        0 <= b,
        0 < d,
    ensures
        a < b <==> (a / d < b / d || (a / d == b / d && a % d < b % d)),
{
    vstd::arithmetic::div_mod::lemma_fundamental_div_mod(a, d);
    vstd::arithmetic::div_mod::lemma_fundamental_div_mod(b, d);
    vstd::arithmetic::div_mod::lemma_mod_bound(a, d);
    vstd::arithmetic::div_mod::lemma_mod_bound(b, d);
    if a / d < b / d {
        assert(a < b) by (nonlinear_arith)
            requires
                a == d * (a / d) + a % d,
                b == d * (b / d) + b % d,
                0 <= a % d < d,
                0 <= b % d < d,
                a / d < b / d,
        ;
    } else if a / d > b / d {
        assert(b < a) by (nonlinear_arith)
            requires
                a == d * (a / d) + a % d,
                b == d * (b / d) + b % d,
                0 <= a % d < d,
                0 <= b % d < d,
                b / d < a / d,
        ;
    }
}

/// The first octet of a canonical length encoding, by magnitude class.
proof fn lemma_length_octets_shape(v: u32)
    ensures
        spec_length_octets(v).len() >= 1,
        v < 0x80 ==> spec_length_octets(v)[0] == v as u8,
        0x80 <= v < 0x100 ==> spec_length_octets(v)[0] == 0x81,
        0x100 <= v < 0x10000 ==> spec_length_octets(v)[0] == 0x82,
        0x10000 <= v < 0x1000000 ==> spec_length_octets(v)[0] == 0x83,
        0x1000000 <= v ==> spec_length_octets(v)[0] == 0x84,
{
}

/// Canonical-ordering contract: `der_cmp` returns, without re-encoding,
/// exactly the order in which the two values' DER encodings compare byte
/// for byte.
pub trait DerOrd: Encode {
    /// Compare as the DER encodings compare.
    fn der_cmp(&self, other: &Self) -> (r: Result<Ordering, Error>)
        ensures
            r matches Ok(o) ==> o == lex_cmp(self.der_bytes(), other.der_bytes()),
            self.enc_wf() && other.enc_wf() ==> r is Ok,
    ;
}

impl DerOrd for Tag {
    fn der_cmp(&self, other: &Self) -> (r: Result<Ordering, Error>) {
        let a = self.octet();
        let b = other.octet();
        proof {
            lemma_lex_single(a, b);
        }
        if a < b {
            Ok(Ordering::Less)
        } else if a == b {
            Ok(Ordering::Equal)
        } else {
            Ok(Ordering::Greater)
        }
    }
}

impl DerOrd for Length {
    fn der_cmp(&self, other: &Self) -> (r: Result<Ordering, Error>) {
        proof {
            lemma_length_octets_order(self.0, other.0);
        }
        if self.0 < other.0 {
            Ok(Ordering::Less)
        } else if self.0 == other.0 {
            Ok(Ordering::Equal)
        } else {
            Ok(Ordering::Greater)
        }
    }
}

impl DerOrd for Header {
    /// Tags first; between equal tags, the length decides — exactly how two
    /// TLV prefixes compare byte for byte.
    fn der_cmp(&self, other: &Self) -> (r: Result<Ordering, Error>) {
        proof {
            lemma_lex_cons(
                self.tag.spec_octet(),
                other.tag.spec_octet(),
                spec_length_octets(self.length.0),
                spec_length_octets(other.length.0),
            );
        }
        let a = self.tag.octet();
        let b = other.tag.octet();
        if a < b {
            Ok(Ordering::Less)
        } else if a > b {
            Ok(Ordering::Greater)
        } else {
            self.length.der_cmp(&other.length)
        }
    }
}

/// Header ordering is lexicographic in (tag, length): a smaller tag octet
/// decides the order whatever the lengths are, and between equal tags the
/// numeric length comparison decides.
pub proof fn lemma_header_der_ordering(a: Header, b: Header)
    ensures
        a.tag.spec_octet() < b.tag.spec_octet() ==> lex_cmp(a.der_bytes(), b.der_bytes())
            == Ordering::Less,
        a.tag.spec_octet() == b.tag.spec_octet() ==> lex_cmp(a.der_bytes(), b.der_bytes())
            == spec_num_cmp(a.length.0 as int, b.length.0 as int),
{
    lemma_lex_cons(
        a.tag.spec_octet(),
        b.tag.spec_octet(),
        spec_length_octets(a.length.0),
        spec_length_octets(b.length.0),
    );
    lemma_length_octets_order(a.length.0, b.length.0);
}

} // verus!
