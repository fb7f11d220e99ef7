//! Data formats, injection places, header lists and percent-encoding.
use vstd::prelude::*;

use crate::text::{chars_of, lowercase, str_eq, to_lowercase};

verus! {

/// How parameters are written into a request body.
#[derive(Clone, Copy, Debug, PartialEq, Eq, Structural)]
pub enum DataType {
    /// JSON values are written without quotes, since not every JSON value needs them.
    Json,
    Urlencoded,
    /// From a request's `Content-Type: application/json` header: taken as JSON
    /// only when the parameters go into the body.
    ProbablyJson,
}

/// Where parameters are inserted.
#[derive(Clone, Copy, Debug, PartialEq, Eq, Structural)]
pub enum InjectionPlace {
    Path,
    Body,
    Headers,
    HeaderValue,
}

impl Default for InjectionPlace {
    fn default() -> (r: Self)
        ensures
            r == InjectionPlace::Path,
    {
        InjectionPlace::Path
    }
}

/// The views of a header list.
pub open spec fn header_views(hs: Seq<(String, String)>) -> Seq<(Seq<char>, Seq<char>)> {
    hs.map_values(|h: (String, String)| (h.0@, h.1@))
}

/// Some header of the list has exactly this name.
pub open spec fn has_header(hs: Seq<(Seq<char>, Seq<char>)>, key: Seq<char>) -> bool {
    exists|i: int| 0 <= i < hs.len() && (#[trigger] hs[i]).0 == key
}

/// The value of the first header from index `i` on whose name satisfies `name_matches`.
pub open spec fn first_value_from(
    hs: Seq<(Seq<char>, Seq<char>)>,
    name_matches: spec_fn(Seq<char>) -> bool,
    i: int,
) -> Option<Seq<char>>
    decreases hs.len() - i,
{
    if i < 0 || i >= hs.len() {
        None
    } else if name_matches(hs[i].0) {
        Some(hs[i].1)
    } else {
        first_value_from(hs, name_matches, i + 1)
    }
}

/// The value of the first header named exactly `key`.
pub open spec fn header_value(hs: Seq<(Seq<char>, Seq<char>)>, key: Seq<char>) -> Option<Seq<char>> {
    first_value_from(hs, |k: Seq<char>| k == key, 0)
}

/// The value of the first header whose lowercased name is `key` lowercased.
pub open spec fn header_value_ci(hs: Seq<(Seq<char>, Seq<char>)>, key: Seq<char>) -> Option<
    Seq<char>,
> {
    first_value_from(hs, |k: Seq<char>| lowercase(k) == lowercase(key), 0)
}

/// The view of an optional string.
pub open spec fn opt_view(o: Option<String>) -> Option<Seq<char>> {
    match o {
        Some(s) => Some(s@),
        None => None,
    }
}

/// Lookups in a list of `(name, value)` headers that keeps their order.
pub trait Headers {
    fn contains_key(&self, key: &str) -> bool;

    fn get_value(&self, key: &str) -> Option<String>;

    fn get_value_case_insensitive(&self, key: &str) -> Option<String>;
}

impl Headers for Vec<(String, String)> {
    /// Whether a header has exactly this name.
    fn contains_key(&self, key: &str) -> (r: bool)
        ensures
            r == has_header(header_views(self@), key@),
    {
        let mut i: usize = 0;
        while i < self.len()
            invariant
                i <= self.len(),
                forall|m: int| 0 <= m < i ==> (#[trigger] header_views(self@)[m]).0 != key@,
            decreases self.len() - i,
        {
            if str_eq(self[i].0.as_str(), key) {
                assert(header_views(self@)[i as int].0 == key@);
                return true;
            }
            i = i + 1;
        }
        false
    }

    /// The value of the first header with exactly this name.
    fn get_value(&self, key: &str) -> (r: Option<String>)
        ensures
            opt_view(r) == header_value(header_views(self@), key@),
            r is None <==> !has_header(header_views(self@), key@),
            r matches Some(v) ==> exists|i: int|
                0 <= i < self@.len() && (#[trigger] header_views(self@)[i]).0 == key@
                    && header_views(self@)[i].1 == v@ && forall|j: int|
                    0 <= j < i ==> (#[trigger] header_views(self@)[j]).0 != key@,
    {
        let ghost hs = header_views(self@);
        let ghost f = |k: Seq<char>| k == key@;
        let mut i: usize = 0;
        while i < self.len()
            invariant
                i <= self.len(),
                hs == header_views(self@),
                f == (|k: Seq<char>| k == key@),
                first_value_from(hs, f, 0) == first_value_from(hs, f, i as int),
                forall|m: int| 0 <= m < i ==> (#[trigger] hs[m]).0 != key@,
            decreases self.len() - i,
        {
            if str_eq(self[i].0.as_str(), key) {
                let v = self[i].1.clone();
                assert(hs[i as int].0 == key@ && hs[i as int].1 == v@);
                return Some(v);
            }
            i = i + 1;
        }
        None
    }

    /// The value of the first header whose name equals `key` when both are lowercased.
    fn get_value_case_insensitive(&self, key: &str) -> (r: Option<String>)
        ensures
            opt_view(r) == header_value_ci(header_views(self@), key@),
    {
        let ghost hs = header_views(self@);
        let ghost f = |k: Seq<char>| lowercase(k) == lowercase(key@);
        let lower_key = to_lowercase(key);
        let mut i: usize = 0;
        while i < self.len()
            invariant
                i <= self.len(),
                hs == header_views(self@),
                lower_key@ == lowercase(key@),
                f == (|k: Seq<char>| lowercase(k) == lowercase(key@)),
                first_value_from(hs, f, 0) == first_value_from(hs, f, i as int),
            decreases self.len() - i,
        {
            let k = to_lowercase(self[i].0.as_str());
            if str_eq(k.as_str(), lower_key.as_str()) {
                return Some(self[i].1.clone());
            }
            i = i + 1;
        }
        None
    }
}

/// The ASCII characters `--encode` percent-encodes: controls, space and ``"<>`&#;/=%``.
pub open spec fn in_fragment(b: u8) -> bool {
    b < 0x20 || b == 0x7f || b == 0x20 || b == 0x22 || b == 0x3c || b == 0x3e || b == 0x60 || b
        == 0x26 || b == 0x23 || b == 0x3b || b == 0x2f || b == 0x3d || b == 0x25
}

/// A byte is written as `%XX`: it is not ASCII or it is in the set.
pub open spec fn should_percent_encode(b: u8) -> bool {
    b >= 0x80 || in_fragment(b)
}

/// An uppercase hexadecimal digit.
pub open spec fn hex_digit(d: nat) -> char {
    if d < 10 {
        ((48 + d) as u32) as char
    } else {
        ((55 + d) as u32) as char
    }
}

/// `%` and the two uppercase hexadecimal digits of a byte.
pub open spec fn percent_byte(b: u8) -> Seq<char> {
    seq!['%', hex_digit((b / 16) as nat), hex_digit((b % 16) as nat)]
}

/// The percent-encoding of a byte sequence.
pub open spec fn percent_encode_bytes(bs: Seq<u8>) -> Seq<char>
    decreases bs.len(),
{
    if bs.len() == 0 {
        Seq::empty()
    } else {
        (if should_percent_encode(bs[0]) {
            percent_byte(bs[0])
        } else {
            seq![bs[0] as char]
        }) + percent_encode_bytes(bs.drop_first())
    }
}

/// `utf8_percent_encode(s, FRAGMENT)`: the percent-encoding of the UTF-8 bytes of `s`.
pub open spec fn percent_encode(s: Seq<char>) -> Seq<char> {
    percent_encode_bytes(vstd::utf8::encode_utf8(s))
}

/// `percent_encoding::percent_encode_byte`: `%` and the two uppercase hex digits of the byte.
#[verifier::external_body]
fn percent_encode_byte(b: u8) -> (r: &'static str)
    ensures
        r@ == percent_byte(b),
{
    percent_encoding::percent_encode_byte(b)
}

fn in_fragment_exec(b: u8) -> (r: bool)
    ensures
        r == in_fragment(b),
{
    b < 0x20 || b == 0x7f || b == 0x20 || b == 0x22 || b == 0x3c || b == 0x3e || b == 0x60 || b
        == 0x26 || b == 0x23 || b == 0x3b || b == 0x2f || b == 0x3d || b == 0x25
}

/// Percent-encodes the UTF-8 bytes of `s` that are not ASCII or are in the `--encode` set.
pub fn percent_encode_str(s: &str) -> (r: Vec<char>)
    ensures
        r@ == percent_encode(s@),
{
    let bytes = s.as_bytes();
    let ghost bs = bytes@;
    let mut out: Vec<char> = Vec::new();
    let mut i: usize = 0;
    assert(bs.skip(0) =~= bs);
    assert(out@ + percent_encode_bytes(bs) =~= percent_encode_bytes(bs));
    while i < bytes.len()
        invariant
            i <= bytes.len(),
            bs == bytes@,
            bs == vstd::utf8::encode_utf8(s@),
            out@ + percent_encode_bytes(bs.skip(i as int)) == percent_encode_bytes(bs),
        decreases bytes.len() - i,
    {
        let b = bytes[i];
        let ghost before = out@;
        assert(bs.skip(i as int).drop_first() =~= bs.skip(i + 1));
        assert(bs.skip(i as int)[0] == b);
        if b >= 0x80 || in_fragment_exec(b) {
            let enc = chars_of(percent_encode_byte(b));
            out.extend_from_slice(&enc);
        } else {
            out.push(b as char);
        }
        assert(out@ + percent_encode_bytes(bs.skip(i + 1)) == percent_encode_bytes(bs));
        i = i + 1;
    }
    assert(bs.skip(i as int) =~= Seq::<u8>::empty());
    assert(out@ + percent_encode_bytes(bs.skip(i as int)) == out@);
    out
}

} // verus!
