//! Decoding and length checks for the inputs of the protocol spec: the shared
//! key from the URL's user name and the values of the URL's query.
//!
//! The URL itself is parsed by the caller; these functions take its user name
//! and its query as text.

use vstd::prelude::*;
use vstd::string::{StringExecFns, StringSliceAdditionalSpecFns};
use vstd::utf8::*;

use super::request::{copy_range, string_from_utf8};
use super::util::{append_decimal, decimal};

verus! {

broadcast use {encode_utf8_valid_utf8, decode_utf8_encode_utf8};

/// The longest spec input, in bytes.
pub const MAX_INPUT_LEN: usize = 1024;

/// The byte `%`.
pub const PERCENT: u8 = 0x25;

/// The byte `&`.
pub const AMPERSAND: u8 = 0x26;

/// The byte `=`.
pub const EQUALS: u8 = 0x3d;

/// Why a spec input was refused.
#[derive(Debug)]
pub enum InputError {
    /// The user name does not percent-decode to UTF-8.
    InvalidUsername,
    /// A required input is empty; it holds the input's name.
    Missing(String),
    /// A required input exceeds [`MAX_INPUT_LEN`] bytes; it holds the input's name.
    TooLong(String),
    /// An optional input exceeds [`MAX_INPUT_LEN`] bytes; it holds the input's name.
    OptionalTooLong(String),
    /// A query key does not percent-decode to UTF-8.
    InvalidQueryKey,
    /// The value of the requested query key does not percent-decode to UTF-8;
    /// it holds the key.
    InvalidQueryValue(String),
}

/// Why reading a query value failed.
#[derive(Debug, Clone, Copy, PartialEq, Eq, Structural)]
pub enum QueryFailure {
    /// A key before the requested one does not percent-decode to UTF-8.
    InvalidKey,
    /// The requested key's value does not percent-decode to UTF-8.
    InvalidValue,
}

/// The text of an input refusal, as the spec-input checks word it.
pub open spec fn input_error_text(e: InputError) -> Seq<char> {
    match e {
        InputError::InvalidUsername => "protocol::spec::decode_username: invalid percent-encoded username"@,
        InputError::Missing(name) => "protocol::spec::validate_required: missing "@ + name@,
        InputError::TooLong(name) => "protocol::spec::validate_required: "@ + name@
            + " exceeds "@ + decimal(MAX_INPUT_LEN as nat) + " bytes"@,
        InputError::OptionalTooLong(name) => "protocol::spec::validate_optional: "@ + name@
            + " exceeds "@ + decimal(MAX_INPUT_LEN as nat) + " bytes"@,
        InputError::InvalidQueryKey => "protocol::spec::query_value: invalid percent-encoded query key"@,
        InputError::InvalidQueryValue(key) => "protocol::spec::query_value: invalid percent-encoded "@
            + key@,
    }
}

impl InputError {
    /// The error's text, as the spec-input checks word it.
    pub fn message(&self) -> (m: String)
        ensures
            m@ == input_error_text(*self),
    {
        match self {
            InputError::InvalidUsername => "protocol::spec::decode_username: invalid percent-encoded username".to_owned(),
            InputError::Missing(name) => {
                let mut m = "protocol::spec::validate_required: missing ".to_owned();
                m.append(name.as_str());
                m
            },
            InputError::TooLong(name) => {
                let mut m = "protocol::spec::validate_required: ".to_owned();
                m.append(name.as_str());
                m.append(" exceeds ");
                append_decimal(&mut m, MAX_INPUT_LEN);
                m.append(" bytes");
                m
            },
            InputError::OptionalTooLong(name) => {
                let mut m = "protocol::spec::validate_optional: ".to_owned();
                m.append(name.as_str());
                m.append(" exceeds ");
                append_decimal(&mut m, MAX_INPUT_LEN);
                m.append(" bytes");
                m
            },
            InputError::InvalidQueryKey => "protocol::spec::query_value: invalid percent-encoded query key".to_owned(),
            InputError::InvalidQueryValue(key) => {
                let mut m = "protocol::spec::query_value: invalid percent-encoded ".to_owned();
                m.append(key.as_str());
                m
            },
        }
    }
}

/// Whether `b` is an ASCII hexadecimal digit.
pub open spec fn is_hex_digit(b: u8) -> bool {
    (0x30 <= b <= 0x39) || (0x41 <= b <= 0x46) || (0x61 <= b <= 0x66)
}

/// The value of the hexadecimal digit `b`.
pub open spec fn hex_value(b: u8) -> int {
    if b <= 0x39 {
        b - 0x30
    } else if b <= 0x46 {
        b - 0x41 + 10
    } else {
        b - 0x61 + 10
    }
}

/// Percent-decoding: each `%` followed by two hexadecimal digits becomes the
/// byte they encode; every other byte, a lone `%` included, stays as it is.
pub open spec fn spec_percent_decode(s: Seq<u8>) -> Seq<u8>
    decreases s.len(),
{
    if s.len() == 0 {
        Seq::empty()
    } else if s[0] == PERCENT && s.len() >= 3 && is_hex_digit(s[1]) && is_hex_digit(s[2]) {
        seq![(hex_value(s[1]) * 16 + hex_value(s[2])) as u8] + spec_percent_decode(s.skip(3))
    } else {
        seq![s[0]] + spec_percent_decode(s.skip(1))
    }
}

/// Percent-decodes `input` with `percent_encoding::percent_decode` and checks
/// that the result is UTF-8 with `PercentDecode::decode_utf8`.
#[verifier::external_body]
fn percent_decode_utf8(input: &[u8]) -> (res: Option<Vec<u8>>)
    ensures
        res is Some <==> valid_utf8(spec_percent_decode(input@)),
        res matches Some(v) ==> v@ == spec_percent_decode(input@),
{
    match percent_encoding::percent_decode(input).decode_utf8() {
        Ok(decoded) => Some(decoded.as_bytes().to_vec()),
        Err(_) => None,
    }
}

/// Decodes the percent-encoded user name of the configuration URL into the
/// shared key's bytes.
pub fn decode_username(username: &str) -> (res: Result<Vec<u8>, InputError>)
    ensures
        match res {
            Ok(key) => valid_utf8(spec_percent_decode(username.spec_bytes())) && key@
                == spec_percent_decode(username.spec_bytes()),
            Err(e) => !valid_utf8(spec_percent_decode(username.spec_bytes()))
                && e is InvalidUsername,
        },
{
    match percent_decode_utf8(username.as_bytes()) {
        Some(key) => Ok(key),
        None => Err(InputError::InvalidUsername),
    }
}

/// Checks a required input: present and at most [`MAX_INPUT_LEN`] bytes.
pub fn validate_required(name: &str, value: &[u8]) -> (res: Result<(), InputError>)
    ensures
        match res {
            Ok(()) => 1 <= value@.len() <= MAX_INPUT_LEN,
            Err(InputError::Missing(n)) => value@.len() == 0 && n@ == name@,
            Err(InputError::TooLong(n)) => value@.len() > MAX_INPUT_LEN && n@ == name@,
            Err(_) => false,
        },
{
    if value.len() == 0 {
        return Err(InputError::Missing(name.to_owned()));
    }
    if value.len() > MAX_INPUT_LEN {
        return Err(InputError::TooLong(name.to_owned()));
    }
    Ok(())
}

/// Checks an optional input: at most [`MAX_INPUT_LEN`] bytes.
pub fn validate_optional(name: &str, value: &[u8]) -> (res: Result<(), InputError>)
    ensures
        match res {
            Ok(()) => value@.len() <= MAX_INPUT_LEN,
            Err(InputError::OptionalTooLong(n)) => value@.len() > MAX_INPUT_LEN && n@ == name@,
            Err(_) => false,
        },
{
    if value.len() > MAX_INPUT_LEN {
        return Err(InputError::OptionalTooLong(name.to_owned()));
    }
    Ok(())
}

/// The value that the query `q` (its bytes, without the `?`) gives the key
/// whose bytes are `key`. The query is a list of `&`-separated pairs; a pair
/// without `=` has an empty value. Pairs are read in order: the first pair
/// whose decoded key is `key` gives the decoded value, and a pair whose key
/// does not decode stops the search with an error.
pub open spec fn spec_query_value(q: Seq<u8>, key: Seq<u8>) -> Result<Option<Seq<u8>>, QueryFailure>
    decreases q.len(),
{
    let amp = q.index_of_first(AMPERSAND);
    let pair = match amp {
        Some(i) => q.take(i),
        None => q,
    };
    let raw_key = match pair.index_of_first(EQUALS) {
        Some(i) => pair.take(i),
        None => pair,
    };
    let raw_value = match pair.index_of_first(EQUALS) {
        Some(i) => pair.skip(i + 1),
        None => Seq::empty(),
    };
    let dk = spec_percent_decode(raw_key);
    if !valid_utf8(dk) {
        Err(QueryFailure::InvalidKey)
    } else if dk != key {
        match amp {
            Some(i) => {
                proof {
                    q.index_of_first_ensures(AMPERSAND);
                }
                spec_query_value(q.skip(i + 1), key)
            },
            None => Ok(None),
        }
    } else {
        let dv = spec_percent_decode(raw_value);
        if !valid_utf8(dv) {
            Err(QueryFailure::InvalidValue)
        } else {
            Ok(Some(dv))
        }
    }
}

/// The first index at or after `from` and before `to` where `s` holds `b`,
/// or `to` if there is none.
fn find_byte(s: &[u8], from: usize, to: usize, b: u8) -> (res: usize)
    requires
        from <= to <= s@.len(),
    ensures
        from <= res <= to,
        res < to ==> s@[res as int] == b,
        forall|k: int| from <= k < res ==> s@[k] != b,
{
    let mut i = from;
    while i < to && s[i] != b
        invariant
            from <= i <= to,
            to <= s@.len(),
            forall|k: int| from <= k < i ==> s@[k] != b,
        decreases to - i,
    {
        i = i + 1;
    }
    i
}

/// The first occurrence found by a scan is the one that `index_of_first` names.
proof fn lemma_scan_is_index_of_first(s: Seq<u8>, b: u8, i: int)
    requires
        0 <= i <= s.len(),
        i < s.len() ==> s[i] == b,
        forall|k: int| 0 <= k < i ==> s[k] != b,
    ensures
        i < s.len() ==> s.index_of_first(b) == Some(i),
        i == s.len() ==> s.index_of_first(b) is None,
{
    s.index_of_first_ensures(b);
    if i < s.len() {
        let j = s.index_of_first(b)->Some_0;
        if j < i {
            assert(s[j] != b);
        }
        if j > i {
            assert(s[i] != b);
        }
    } else {
        if s.index_of_first(b) is Some {
            let j = s.index_of_first(b)->Some_0;
            assert(s[j] != b);
        }
    }
}

/// Whether two byte slices are equal.
pub(crate) fn bytes_equal(a: &[u8], b: &[u8]) -> (res: bool)
    ensures
        res == (a@ == b@),
{
    if a.len() != b.len() {
        return false;
    }
    let mut i: usize = 0;
    while i < a.len()
        invariant
            i <= a@.len(),
            a@.len() == b@.len(),
            forall|k: int| 0 <= k < i ==> a@[k] == b@[k],
        decreases a@.len() - i,
    {
        if a[i] != b[i] {
            return false;
        }
        i = i + 1;
    }
    assert(a@ =~= b@);
    true
}

/// Finds `key` in the URL query and returns its percent-decoded value.
pub fn query_value(query: Option<&str>, key: &str) -> (res: Result<Option<String>, InputError>)
    ensures
        match query {
            None => res matches Ok(None),
            Some(q) => match spec_query_value(q.spec_bytes(), key.spec_bytes()) {
                Ok(None) => res matches Ok(None),
                Ok(Some(v)) => res matches Ok(Some(s)) && s@ == decode_utf8(v),
                Err(QueryFailure::InvalidKey) => res matches Err(InputError::InvalidQueryKey),
                Err(QueryFailure::InvalidValue) => res matches Err(InputError::InvalidQueryValue(k))
                    && k@ == key@,
            },
        },
{
    let q = match query {
        None => {
            return Ok(None);
        },
        Some(q) => q,
    };
    let bytes = q.as_bytes();
    let key_bytes = key.as_bytes();
    let n = bytes.len();
    let ghost whole = bytes@;
    let mut start: usize = 0;
    assert(whole.skip(0) =~= whole);
    loop
        invariant
            start <= n,
            n == bytes@.len(),
            query == Some(q),
            whole == bytes@,
            bytes@ == q.spec_bytes(),
            key_bytes@ == key.spec_bytes(),
            spec_query_value(whole, key_bytes@) == spec_query_value(
                whole.skip(start as int),
                key_bytes@,
            ),
        decreases n - start,
    {
        let ghost rest = whole.skip(start as int);
        let end = find_byte(bytes, start, n, AMPERSAND);
        proof {
            assert forall|k: int| 0 <= k < end - start implies rest[k] != AMPERSAND by {
                assert(rest[k] == bytes@[start + k]);
            }
            lemma_scan_is_index_of_first(rest, AMPERSAND, end - start);
        }
        let ghost pair = if end < n {
            rest.take(end - start)
        } else {
            rest
        };
        assert(pair =~= whole.subrange(start as int, end as int));
        let eq = find_byte(bytes, start, end, EQUALS);
        proof {
            assert forall|k: int| 0 <= k < eq - start implies pair[k] != EQUALS by {
                assert(pair[k] == bytes@[start + k]);
            }
            lemma_scan_is_index_of_first(pair, EQUALS, eq - start);
        }
        let raw_key = copy_range(bytes, start, eq);
        assert(raw_key@ =~= if eq < end {
            pair.take(eq - start)
        } else {
            pair
        });
        let decoded_key = match percent_decode_utf8(raw_key.as_slice()) {
            None => {
                return Err(InputError::InvalidQueryKey);
            },
            Some(k) => k,
        };
        if bytes_equal(decoded_key.as_slice(), key_bytes) {
            let raw_value = if eq < end {
                copy_range(bytes, eq + 1, end)
            } else {
                Vec::new()
            };
            assert(raw_value@ =~= if eq < end {
                pair.skip(eq - start + 1)
            } else {
                Seq::<u8>::empty()
            });
            let decoded_value = match percent_decode_utf8(raw_value.as_slice()) {
                None => {
                    return Err(InputError::InvalidQueryValue(key.to_owned()));
                },
                Some(v) => v,
            };
            match string_from_utf8(decoded_value) {
                Some(s) => {
                    return Ok(Some(s));
                },
                None => {
                    // Unreachable: the decoded value was checked to be UTF-8.
                    assert(false);
                    return Err(InputError::InvalidQueryValue(key.to_owned()));
                },
            }
        }
        if end == n {
            return Ok(None);
        }
        proof {
            assert(rest.skip(end - start + 1) =~= whole.skip(end + 1));
        }
        start = end + 1;
    }
}


/// The bytes of one query pair: a raw key, then `=` and a raw value if it
/// has one.
pub open spec fn query_pair(raw_key: Seq<u8>, has_value: bool, raw_value: Seq<u8>) -> Seq<u8> {
    if has_value {
        raw_key + seq![EQUALS] + raw_value
    } else {
        raw_key
    }
}

/// Where the first `&` of `query_pair(..) + rest` and the first `=` of the
/// pair are.
proof fn lemma_pair_split(raw_key: Seq<u8>, has_value: bool, raw_value: Seq<u8>, rest: Seq<u8>)
    requires
        !raw_key.contains(AMPERSAND),
        !raw_key.contains(EQUALS),
        !raw_value.contains(AMPERSAND),
        rest.len() == 0 || rest[0] == AMPERSAND,
    ensures
        ({
            let pair = query_pair(raw_key, has_value, raw_value);
            let q = pair + rest;
            &&& rest.len() == 0 ==> q.index_of_first(AMPERSAND) is None && q == pair
            &&& rest.len() > 0 ==> q.index_of_first(AMPERSAND) == Some(pair.len() as int)
                && q.take(pair.len() as int) == pair && q.skip(pair.len() as int + 1) == rest.skip(1)
            &&& has_value ==> pair.index_of_first(EQUALS) == Some(raw_key.len() as int)
                && pair.take(raw_key.len() as int) == raw_key && pair.skip(raw_key.len() as int + 1)
                == raw_value
            &&& !has_value ==> pair.index_of_first(EQUALS) is None && pair == raw_key
        }),
{
    let pair = query_pair(raw_key, has_value, raw_value);
    let q = pair + rest;
    assert forall|k: int| 0 <= k < pair.len() implies pair[k] != AMPERSAND by {
        if k < raw_key.len() {
            assert(pair[k] == raw_key[k]);
            if raw_key[k] == AMPERSAND {
                assert(raw_key.contains(AMPERSAND));
            }
        } else if k > raw_key.len() {
            assert(pair[k] == raw_value[k - raw_key.len() - 1]);
            if raw_value[k - raw_key.len() - 1] == AMPERSAND {
                assert(raw_value.contains(AMPERSAND));
            }
        }
    }
    if rest.len() == 0 {
        assert(q =~= pair);
        lemma_scan_is_index_of_first(q, AMPERSAND, q.len() as int);
    } else {
        assert forall|k: int| 0 <= k < pair.len() implies q[k] != AMPERSAND by {
            assert(q[k] == pair[k]);
        }
        lemma_scan_is_index_of_first(q, AMPERSAND, pair.len() as int);
        assert(q.take(pair.len() as int) =~= pair);
        assert(q.skip(pair.len() as int + 1) =~= rest.skip(1));
    }
    assert forall|k: int| 0 <= k < raw_key.len() implies pair[k] != EQUALS by {
        assert(pair[k] == raw_key[k]);
        if raw_key[k] == EQUALS {
            assert(raw_key.contains(EQUALS));
        }
    }
    if has_value {
        lemma_scan_is_index_of_first(pair, EQUALS, raw_key.len() as int);
        assert(pair.take(raw_key.len() as int) =~= raw_key);
        assert(pair.skip(raw_key.len() as int + 1) =~= raw_value);
    } else {
        lemma_scan_is_index_of_first(pair, EQUALS, pair.len() as int);
    }
}

/// The first pair of the query whose key decodes to `key` gives its decoded
/// value (empty when it has none), whatever follows it and however long the
/// query is.
pub proof fn law_matching_pair_gives_its_value(
    raw_key: Seq<u8>,
    has_value: bool,
    raw_value: Seq<u8>,
    rest: Seq<u8>,
    key: Seq<u8>,
)
    requires
        !raw_key.contains(AMPERSAND),
        !raw_key.contains(EQUALS),
        !raw_value.contains(AMPERSAND),
        rest.len() == 0 || rest[0] == AMPERSAND,
        valid_utf8(spec_percent_decode(raw_key)),
        spec_percent_decode(raw_key) == key,
        has_value ==> valid_utf8(spec_percent_decode(raw_value)),
    ensures
        spec_query_value(query_pair(raw_key, has_value, raw_value) + rest, key) == Ok::<
            Option<Seq<u8>>,
            QueryFailure,
        >(
            Some(
                if has_value {
                    spec_percent_decode(raw_value)
                } else {
                    Seq::empty()
                },
            ),
        ),
{
    lemma_pair_split(raw_key, has_value, raw_value, rest);
    if !has_value {
        assert(spec_percent_decode(Seq::<u8>::empty()) =~= Seq::<u8>::empty());
        assert(valid_utf8(Seq::<u8>::empty())) by {
            encode_utf8_valid_utf8(Seq::<char>::empty());
            assert(encode_utf8(Seq::<char>::empty()) =~= Seq::<u8>::empty());
        }
    }
}

/// A pair whose key decodes to another key is skipped: the query answers as
/// the rest of it after that pair's `&` does.
pub proof fn law_other_pair_is_skipped(
    raw_key: Seq<u8>,
    has_value: bool,
    raw_value: Seq<u8>,
    tail: Seq<u8>,
    key: Seq<u8>,
)
    requires
        !raw_key.contains(AMPERSAND),
        !raw_key.contains(EQUALS),
        !raw_value.contains(AMPERSAND),
        valid_utf8(spec_percent_decode(raw_key)),
        spec_percent_decode(raw_key) != key,
    ensures
        spec_query_value(query_pair(raw_key, has_value, raw_value) + seq![AMPERSAND] + tail, key)
            == spec_query_value(tail, key),
        spec_query_value(query_pair(raw_key, has_value, raw_value), key) == Ok::<
            Option<Seq<u8>>,
            QueryFailure,
        >(None),
{
    let rest = seq![AMPERSAND] + tail;
    lemma_pair_split(raw_key, has_value, raw_value, rest);
    assert(query_pair(raw_key, has_value, raw_value) + seq![AMPERSAND] + tail == query_pair(
        raw_key,
        has_value,
        raw_value,
    ) + rest);
    assert(rest.skip(1) =~= tail);
    lemma_pair_split(raw_key, has_value, raw_value, Seq::empty());
    assert(query_pair(raw_key, has_value, raw_value) + Seq::<u8>::empty() =~= query_pair(
        raw_key,
        has_value,
        raw_value,
    ));
}

/// A pair whose key does not decode to UTF-8 stops the search before any
/// later pair is looked at.
pub proof fn law_undecodable_key_stops_the_search(
    raw_key: Seq<u8>,
    has_value: bool,
    raw_value: Seq<u8>,
    rest: Seq<u8>,
    key: Seq<u8>,
)
    requires
        !raw_key.contains(AMPERSAND),
        !raw_key.contains(EQUALS),
        !raw_value.contains(AMPERSAND),
        rest.len() == 0 || rest[0] == AMPERSAND,
        !valid_utf8(spec_percent_decode(raw_key)),
    ensures
        spec_query_value(query_pair(raw_key, has_value, raw_value) + rest, key) == Err::<
            Option<Seq<u8>>,
            QueryFailure,
        >(QueryFailure::InvalidKey),
{
    lemma_pair_split(raw_key, has_value, raw_value, rest);
}


/// Percent-decoding leaves bytes without `%` as they are, and turns `%`
/// followed by two hexadecimal digits into the byte they spell.
pub proof fn law_percent_decoding(plain: Seq<u8>, hi: u8, lo: u8, rest: Seq<u8>)
    ensures
        !plain.contains(PERCENT) ==> spec_percent_decode(plain) == plain,
        is_hex_digit(hi) && is_hex_digit(lo) ==> spec_percent_decode(
            seq![PERCENT, hi, lo] + rest,
        ) == seq![(hex_value(hi) * 16 + hex_value(lo)) as u8] + spec_percent_decode(rest),
    decreases plain.len(),
{
    if !plain.contains(PERCENT) && plain.len() > 0 {
        assert(plain[0] != PERCENT);
        assert(!plain.skip(1).contains(PERCENT)) by {
            if plain.skip(1).contains(PERCENT) {
                let k = choose|k: int| 0 <= k < plain.skip(1).len() && plain.skip(1)[k] == PERCENT;
                assert(plain[k + 1] == PERCENT);
            }
        }
        law_percent_decoding(plain.skip(1), hi, lo, rest);
        assert(plain =~= seq![plain[0]] + plain.skip(1));
    }
    let s = seq![PERCENT, hi, lo] + rest;
    assert(s.skip(3) =~= rest);
}

} // verus!
