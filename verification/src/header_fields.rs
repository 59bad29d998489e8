//! Header fields of requests and responses.
//!
//! The fields are kept in the `HeaderMap` of the `headers` crate, and typed fields are written
//! and read by that crate.

use headers::{AcceptRanges, Connection, ContentLength, Header, HeaderMap, HeaderMapExt};
use headers::{HeaderName, HeaderValue};
use vstd::prelude::*;

verus! {

/// The multimap of `headers`, opaque here: see [`fields`].
#[verifier::external_type_specification]
#[verifier::external_body]
#[verifier::reject_recursive_types(T)]
pub struct ExHeaderMap<T>(headers::HeaderMap<T>);

/// A field value of `headers`, opaque here.
#[verifier::external_type_specification]
#[verifier::external_body]
pub struct ExHeaderValue(headers::HeaderValue);

/// What a `HeaderMap` holds: for each field name that occurs, in lower case, its values in the
/// order in which they were added.
pub uninterp spec fn fields(map: HeaderMap) -> Map<Seq<char>, Seq<Seq<u8>>>;

/// The values of the field `name`.
pub open spec fn field_values(map: HeaderMap, name: Seq<char>) -> Seq<Seq<u8>> {
    if fields(map).contains_key(name) {
        fields(map)[name]
    } else {
        Seq::empty()
    }
}

/// No field at all.
pub open spec fn no_fields() -> Map<Seq<char>, Seq<Seq<u8>>> {
    Map::empty()
}

/// The number of names up to which a `HeaderMap` takes one more name, however its names collide.
pub const FIELD_LIMIT: usize = 6553;

/// Whether one more name fits in a map with these names.
pub open spec fn has_room(names: Set<Seq<char>>) -> bool {
    names.finite() && names.len() <= FIELD_LIMIT
}

/// Whether there are `n` names.
pub open spec fn counts(names: Set<Seq<char>>, n: nat) -> bool {
    names.finite() && names.len() == n
}

/// Whether `c` may stand in a field name in lower case.
pub open spec fn is_name_char(c: char) -> bool {
    ||| 'a' <= c <= 'z'
    ||| '0' <= c <= '9'
    ||| '!' <= c <= '\''
    ||| c == '*'
    ||| c == '+'
    ||| c == '-'
    ||| c == '.'
    ||| '^' <= c <= '`'
    ||| c == '|'
    ||| c == '~'
}

/// Whether `name` is a field name in lower case.
pub open spec fn is_field_name(name: Seq<char>) -> bool {
    &&& 1 <= name.len() <= 65535
    &&& forall|k: int| 0 <= k < name.len() ==> is_name_char(#[trigger] name[k])
}

/// Whether `value` may be the value of a field.
pub open spec fn is_field_value(value: Seq<u8>) -> bool {
    forall|k: int|
        0 <= k < value.len() ==> (#[trigger] value[k] == 9 || value[k] >= 32 && value[k] != 127)
}

/// Whether `value` holds printable ASCII and tabs alone.
pub open spec fn is_visible(value: Seq<u8>) -> bool {
    forall|k: int| 0 <= k < value.len() ==> (#[trigger] value[k] == 9 || 32 <= value[k] < 127)
}

/// The characters of ASCII text.
pub open spec fn ascii_text(bytes: Seq<u8>) -> Seq<char> {
    bytes.map_values(|b: u8| b as char)
}

/// The bytes of ASCII text.
pub open spec fn ascii_bytes(text: Seq<char>) -> Seq<u8> {
    text.map_values(|c: char| c as u8)
}

/// The decimal digits of `n`.
pub open spec fn decimal(n: nat) -> Seq<char>
    decreases n,
{
    if n < 10 {
        seq![(48 + n) as char]
    } else {
        decimal(n / 10).push((48 + n % 10) as char)
    }
}

/// The number that `digits` write.
pub open spec fn decimal_value(digits: Seq<u8>) -> int
    decreases digits.len(),
{
    if digits.len() == 0 {
        0
    } else {
        decimal_value(digits.drop_last()) * 10 + (digits.last() - 48)
    }
}

/// The 64-bit number that `text` writes: digits, with a plus sign before them or not.
pub open spec fn number_text(text: Seq<u8>) -> Option<u64> {
    let digits = if text.len() > 0 && text[0] == 43 {
        text.skip(1)
    } else {
        text
    };
    if digits.len() > 0 && (forall|k: int|
        0 <= k < digits.len() ==> 48 <= #[trigger] digits[k] <= 57) && decimal_value(digits)
        <= u64::MAX {
        Some(decimal_value(digits) as u64)
    } else {
        None
    }
}

/// The length that `Content-Length` values give: all must write the same number.
pub open spec fn content_length_of(values: Seq<Seq<u8>>) -> Option<u64> {
    if values.len() > 0 && forall|k: int|
        0 <= k < values.len() ==> number_text(#[trigger] values[k]) == number_text(values[0]) {
        number_text(values[0])
    } else {
        None
    }
}

/// Where the tag inside the quotes of an entity tag begins, if `value` is quoted as one.
pub open spec fn tag_start(value: Seq<u8>) -> Option<int> {
    if value.len() < 2 || value.last() != 34 {
        None
    } else if value[0] == 34 {
        Some(1)
    } else if value.len() >= 4 && value[0] == 87 && value[1] == 47 && value[2] == 34 {
        Some(3)
    } else {
        None
    }
}

/// The entity tag that `ETag` values give: a single value that is quoted, with no other quote
/// inside.
pub open spec fn etag_of(values: Seq<Seq<u8>>) -> Option<Seq<u8>> {
    if values.len() == 1 {
        match tag_start(values[0]) {
            Some(start) => if forall|k: int|
                start <= k < values[0].len() - 1 ==> #[trigger] values[0][k] != 34 {
                Some(values[0])
            } else {
                None
            },
            None => None,
        }
    } else {
        None
    }
}

/// Whether no blank or tab comes up while an entity tag is decoded: the tag is looked through
/// from its start to its first quote.
pub open spec fn has_plain_etag(values: Seq<Seq<u8>>) -> bool {
    values.len() == 1 ==> match tag_start(values[0]) {
        Some(start) => forall|k: int|
            start <= k < values[0].len() - 1 && (#[trigger] values[0][k] == 32 || values[0][k]
                == 9) ==> values[0].subrange(start, k).contains(34),
        None => true,
    }
}

/// The value of a `Range` field that asks for the positions from `start` to `end`.
pub open spec fn range_text(start: u64, end: u64) -> Seq<char> {
    "bytes="@ + decimal(start as nat) + "-"@ + decimal(end as nat)
}

/// The bytes of the values in `values`.
pub open spec fn bytes_of(values: Seq<Vec<u8>>) -> Seq<Seq<u8>> {
    values.map_values(|v: Vec<u8>| v@)
}

/// The values that stand beside `name` in `list`, in order.
pub open spec fn listed_values(list: Seq<(String, Vec<u8>)>, name: Seq<char>) -> Seq<Seq<u8>> {
    list.filter(|p: (String, Vec<u8>)| p.0@ == name).map_values(|p: (String, Vec<u8>)| p.1@)
}

/// An empty map, by `HeaderMap::new`.
#[verifier::external_body]
pub(crate) fn empty_fields() -> (r: HeaderMap)
    ensures
        fields(r) == no_fields(),
{
    HeaderMap::new()
}

/// A map with the same fields, by `HeaderMap::clone`.
#[verifier::external_body]
pub(crate) fn clone_fields(map: &HeaderMap) -> (r: HeaderMap)
    ensures
        fields(r) == fields(*map),
{
    map.clone()
}

/// The number of names in a map, by `HeaderMap::keys_len`.
#[verifier::external_body]
pub(crate) fn count_names(map: &HeaderMap) -> (n: usize)
    ensures
        counts(fields(*map).dom(), n as nat),
{
    map.keys_len()
}

/// Sets a field to a single value, by `HeaderMap::insert`, which drops the values that it had.
#[verifier::external_body]
pub(crate) fn insert_field(map: &mut HeaderMap, name: &str, value: &[u8])
    requires
        is_field_name(name@),
        is_field_value(value@),
        has_room(fields(*old(map)).dom()),
    ensures
        fields(*final(map)) == fields(*old(map)).insert(name@, seq![value@]),
{
    let name = HeaderName::from_bytes(name.as_bytes()).unwrap();
    map.insert(name, HeaderValue::from_bytes(value).unwrap());
}

/// Sets `Connection: keep-alive`, by `HeaderMapExt::typed_insert` of `Connection::keep_alive()`.
#[verifier::external_body]
pub(crate) fn insert_keep_alive(map: &mut HeaderMap)
    requires
        has_room(fields(*old(map)).dom()),
    ensures
        fields(*final(map)) == fields(*old(map)).insert(
            "connection"@,
            seq![ascii_bytes("keep-alive"@)],
        ),
{
    map.typed_insert(Connection::keep_alive());
}

/// All fields of a map, by `HeaderMap::iter`, which hands out each value with its name.
///
/// The values of one name come in their order. How names follow each other is not said.
#[verifier::external_body]
pub(crate) fn list_fields(map: &HeaderMap) -> (list: Vec<(String, Vec<u8>)>)
    ensures
        forall|k: int|
            0 <= k < list@.len() ==> is_field_name((#[trigger] list@[k]).0@) && is_field_value(
                list@[k].1@,
            ),
        forall|name: Seq<char>| #[trigger]
            listed_values(list@, name) == field_values(*map, name),
{
    map.iter().map(|(name, value)| (name.as_str().to_string(), value.as_bytes().to_vec())).collect()
}

/// The first value of a field, by `HeaderMap::get`.
#[verifier::external_body]
pub(crate) fn first_value(map: &HeaderMap, name: &str) -> (r: Option<Vec<u8>>)
    requires
        is_field_name(name@),
    ensures
        match r {
            Some(value) => field_values(*map, name@).len() > 0 && value@ == field_values(
                *map,
                name@,
            )[0],
            None => field_values(*map, name@).len() == 0,
        },
{
    map.get(name).map(|value| value.as_bytes().to_vec())
}

/// All values of a field in order, by `HeaderMap::get_all`.
#[verifier::external_body]
pub(crate) fn all_values(map: &HeaderMap, name: &str) -> (r: Vec<Vec<u8>>)
    requires
        is_field_name(name@),
    ensures
        bytes_of(r@) == field_values(*map, name@),
{
    map.get_all(name).iter().map(|value| value.as_bytes().to_vec()).collect()
}

/// The text of a field value, by `HeaderValue::to_str`, which takes printable ASCII and tabs.
#[verifier::external_body]
pub(crate) fn value_text(value: &[u8]) -> (r: Option<String>)
    ensures
        match r {
            Some(text) => is_visible(value@) && text@ == ascii_text(value@),
            None => !is_visible(value@),
        },
{
    HeaderValue::from_bytes(value).ok()?.to_str().ok().map(|text| text.to_string())
}

/// Finds and decodes `Content-Length`, by `HeaderMapExt::typed_get`.
#[verifier::external_body]
pub(crate) fn content_length(map: &HeaderMap) -> (r: Option<u64>)
    ensures
        r == content_length_of(field_values(*map, "content-length"@)),
{
    map.typed_get::<ContentLength>().map(|length| length.0)
}

/// Finds and decodes `ETag`, by `HeaderMapExt::typed_get`, and gives its bytes.
///
/// Decoding asserts, in builds with assertions, that no blank or tab comes up in the tag.
#[verifier::external_body]
pub(crate) fn etag(map: &HeaderMap) -> (r: Option<Vec<u8>>)
    requires
        has_plain_etag(field_values(*map, "etag"@)),
    ensures
        match r {
            Some(tag) => etag_of(field_values(*map, "etag"@)) == Some(tag@),
            None => etag_of(field_values(*map, "etag"@)) is None,
        },
{
    let tag = map.typed_get::<headers::ETag>()?;
    let mut values: Vec<HeaderValue> = Vec::new();
    tag.encode(&mut values);
    values.first().map(|value| value.as_bytes().to_vec())
}

/// Finds and decodes `Accept-Ranges`, by `HeaderMapExt::typed_get`, and compares it with
/// `AcceptRanges::bytes()`.
///
/// There is nothing to compare if the field is absent. Several values are joined by commas, so
/// that only a single value can be equal to `bytes`.
#[verifier::external_body]
pub(crate) fn accepts_byte_ranges(map: &HeaderMap) -> (r: Option<bool>)
    ensures
        r == (if field_values(*map, "accept-ranges"@).len() == 0 {
            None
        } else {
            Some(field_values(*map, "accept-ranges"@) == seq![ascii_bytes("bytes"@)])
        }),
{
    map.typed_get::<AcceptRanges>().map(|ranges| ranges == AcceptRanges::bytes())
}

/// The value of a `Range` field, by `Range::bytes` of inclusive bounds.
#[verifier::external_body]
pub(crate) fn range_value(start: u64, end: u64) -> (r: String)
    ensures
        r@ == range_text(start, end),
{
    let range = headers::Range::bytes(start..=end).unwrap();
    let mut values: Vec<HeaderValue> = Vec::new();
    range.encode(&mut values);
    values[0].to_str().unwrap().to_string()
}

proof fn lemma_decimal_is_visible(n: nat)
    ensures
        forall|k: int| 0 <= k < decimal(n).len() ==> '0' <= (#[trigger] decimal(n)[k]) <= '9',
    decreases n,
{
    if n >= 10 {
        lemma_decimal_is_visible(n / 10);
        let front = decimal(n / 10);
        let last = (48 + n % 10) as char;
        assert(decimal(n) == front.push(last));
        assert('0' <= last <= '9');
        assert forall|k: int| 0 <= k < decimal(n).len() implies '0' <= (#[trigger] decimal(n)[k])
            <= '9' by {
            if k < front.len() {
                assert(decimal(n)[k] == front[k]);
            }
        }
    } else {
        let digit = (48 + n) as char;
        assert(decimal(n) == seq![digit]);
        assert('0' <= digit <= '9');
    }
}

/// Whether `text` writes the number `n` in digits.
pub open spec fn writes(text: Seq<u8>, n: int) -> bool {
    &&& text.len() > 0
    &&& forall|k: int| 0 <= k < text.len() ==> 48 <= #[trigger] text[k] <= 57
    &&& decimal_value(text) == n
}

/// The decimal digits of a number write that number.
pub proof fn law_decimal_digits_write_the_number(n: nat)
    ensures
        writes(ascii_bytes(decimal(n)), n as int),
    decreases n,
{
    let bytes = ascii_bytes(decimal(n));
    lemma_decimal_is_visible(n);
    assert forall|k: int| 0 <= k < bytes.len() implies 48 <= #[trigger] bytes[k] <= 57 by {
        assert('0' <= decimal(n)[k] <= '9');
    }
    if n >= 10 {
        law_decimal_digits_write_the_number(n / 10);
        assert(bytes.drop_last() =~= ascii_bytes(decimal(n / 10)));
        assert(bytes.last() == 48 + n % 10);
    } else {
        assert(bytes.last() == 48 + n);
        assert(bytes.drop_last() =~= Seq::empty());
        assert(decimal_value(bytes.drop_last()) == 0);
    }
}

/// If all `Content-Length` values write the same number, and it fits in 64 bits, they give that
/// number.
pub proof fn law_content_length_is_what_is_written(values: Seq<Seq<u8>>, n: u64)
    requires
        values.len() > 0,
        forall|k: int| 0 <= k < values.len() ==> writes(#[trigger] values[k], n as int),
    ensures
        content_length_of(values) == Some(n),
{
    assert forall|k: int| 0 <= k < values.len() implies number_text(#[trigger] values[k]) == Some(
        n,
    ) by {
        assert(writes(values[k], n as int));
    }
}

/// A tag without a quote inside is taken as it is written, in quotes or as a weak one; several tags
/// are none.
pub proof fn law_quoted_tag_is_the_tag(tag: Seq<u8>, values: Seq<Seq<u8>>)
    requires
        !tag.contains(34),
    ensures
        ({
            let strong = seq![34u8] + tag + seq![34u8];
            let weak = seq![87u8, 47u8, 34u8] + tag + seq![34u8];
            &&& etag_of(seq![strong]) == Some(strong)
            &&& etag_of(seq![weak]) == Some(weak)
        }),
        etag_of(values) matches Some(found) ==> values == seq![found] && found.len() >= 2
            && found.last() == 34,
{
    let strong = seq![34u8] + tag + seq![34u8];
    let weak = seq![87u8, 47u8, 34u8] + tag + seq![34u8];
    assert forall|k: int| 1 <= k < strong.len() - 1 implies #[trigger] strong[k] != 34 by {
        assert(strong[k] == tag[k - 1]);
        assert(tag.contains(tag[k - 1]));
    }
    assert forall|k: int| 3 <= k < weak.len() - 1 implies #[trigger] weak[k] != 34 by {
        assert(weak[k] == tag[k - 3]);
        assert(tag.contains(tag[k - 3]));
    }
    assert(seq![strong][0] == strong);
    assert(seq![weak][0] == weak);
    if let Some(found) = etag_of(values) {
        assert(values =~= seq![found]);
    }
}

/// The value of a `Range` field writes the first and the last position, with a minus sign in
/// between.
pub proof fn law_range_text_writes_both_ends(start: u64, end: u64)
    ensures
        exists|first: Seq<char>, last: Seq<char>|
            {
                &&& #[trigger] writes(ascii_bytes(first), start as int)
                &&& #[trigger] writes(ascii_bytes(last), end as int)
                &&& range_text(start, end) == "bytes="@ + first + "-"@ + last
            },
{
    law_decimal_digits_write_the_number(start as nat);
    law_decimal_digits_write_the_number(end as nat);
    assert(writes(ascii_bytes(decimal(start as nat)), start as int));
    assert(writes(ascii_bytes(decimal(end as nat)), end as int));
}

pub(crate) proof fn lemma_range_text_is_visible(start: u64, end: u64)
    ensures
        forall|k: int|
            0 <= k < range_text(start, end).len() ==> ' ' <= (#[trigger] range_text(start, end)[k])
                <= '~',
{
    reveal_strlit("bytes=");
    reveal_strlit("-");
    lemma_decimal_is_visible(start as nat);
    lemma_decimal_is_visible(end as nat);
}

/// Printable ASCII text is encoded character by character.
pub(crate) proof fn lemma_visible_text_bytes(text: Seq<char>)
    requires
        forall|k: int| 0 <= k < text.len() ==> ' ' <= (#[trigger] text[k]) <= '~',
    ensures
        vstd::utf8::encode_utf8(text) == ascii_bytes(text),
        is_field_value(ascii_bytes(text)),
{
    vstd::utf8::is_ascii_chars_encode_utf8(text);
    assert(vstd::utf8::encode_utf8(text) =~= ascii_bytes(text));
    assert forall|k: int| 0 <= k < ascii_bytes(text).len() implies 32 <= #[trigger] ascii_bytes(
        text,
    )[k] < 127 by {
        assert(' ' <= text[k] <= '~');
    }
}

/// An entity tag, as the bytes of its field value.
#[derive(Debug)]
pub struct ETag {
    pub value: Vec<u8>,
}

/// The bytes of a tag, if there is one.
pub open spec fn tag_bytes(tag: Option<ETag>) -> Option<Seq<u8>> {
    match tag {
        Some(tag) => Some(tag.value@),
        None => None,
    }
}

/// Whether two byte strings are equal.
fn same_bytes(left: &Vec<u8>, right: &Vec<u8>) -> (b: bool)
    ensures
        b == (left@ == right@),
{
    if left.len() != right.len() {
        return false;
    }
    for k in 0..left.len()
        invariant
            left@.len() == right@.len(),
            forall|j: int| 0 <= j < k ==> left@[j] == right@[j],
    {
        if left[k] != right[k] {
            return false;
        }
    }
    assert(left@ =~= right@);
    true
}

/// Whether two tags are identical, or both are absent.
pub fn same_tag(left: &Option<ETag>, right: &Option<ETag>) -> (b: bool)
    ensures
        b == (tag_bytes(*left) == tag_bytes(*right)),
{
    match (left, right) {
        (Some(left), Some(right)) => same_bytes(&left.value, &right.value),
        (None, None) => true,
        _ => false,
    }
}

/// A copy of a tag.
pub fn copy_tag(tag: &Option<ETag>) -> (r: Option<ETag>)
    ensures
        tag_bytes(r) == tag_bytes(*tag),
{
    match tag {
        Some(tag) => {
            let value = tag.value.clone();
            assert(value@ =~= tag.value@);
            Some(ETag { value })
        },
        None => None,
    }
}

/// The entity tag among the fields of a response.
///
/// A tag with a blank or a tab is one as well, though the `headers` crate asserts that there is
/// none: such a tag is looked through here.
pub fn response_etag(map: &HeaderMap) -> (r: Option<ETag>)
    ensures
        tag_bytes(r) == etag_of(field_values(*map, "etag"@)),
{
    if response_etag_is_plain(map) {
        match etag(map) {
            Some(value) => Some(ETag { value }),
            None => None,
        }
    } else {
        blank_etag(map)
    }
}

/// The entity tag among the fields of a response, where a blank or a tab comes up in it.
fn blank_etag(map: &HeaderMap) -> (r: Option<ETag>)
    requires
        !has_plain_etag(field_values(*map, "etag"@)),
    ensures
        tag_bytes(r) == etag_of(field_values(*map, "etag"@)),
{
    proof {
        reveal_strlit("etag");
        assert(is_field_name("etag"@));
    }
    let values = all_values(map, "etag");
    let ghost all = field_values(*map, "etag"@);
    assert(bytes_of(values@).len() == values@.len());
    let value = &values[0];
    assert(value@ == bytes_of(values@)[0]);
    let start: usize = if value[0] == 34 {
        1
    } else {
        3
    };
    assert(tag_start(all[0]) == Some(start as int));
    for k in start..value.len() - 1
        invariant
            value@ == all[0],
            all.len() == 1,
            value@.len() >= 2,
            all == field_values(*map, "etag"@),
            tag_start(all[0]) == Some(start as int),
            forall|j: int| start <= j < k ==> #[trigger] value@[j] != 34,
    {
        if value[k] == 34 {
            assert(all[0][k as int] == 34);
            return None;
        }
    }
    let copy = value.clone();
    assert(copy@ =~= value@);
    Some(ETag { value: copy })
}

/// Whether the entity tag among the fields of a response can be decoded without meeting a blank
/// or a tab.
fn response_etag_is_plain(map: &HeaderMap) -> (b: bool)
    ensures
        b == has_plain_etag(field_values(*map, "etag"@)),
{
    proof {
        reveal_strlit("etag");
        assert(is_field_name("etag"@));
    }
    let values = all_values(map, "etag");
    let ghost all = field_values(*map, "etag"@);
    assert(bytes_of(values@).len() == values@.len());
    if values.len() != 1 {
        return true;
    }
    let value = &values[0];
    assert(value@ == bytes_of(values@)[0]);
    let len: usize = value.len();
    if len < 2 || value[len - 1] != 34 {
        return true;
    }
    let start: usize = if value[0] == 34 {
        1
    } else if len >= 4 && value[0] == 87 && value[1] == 47 && value[2] == 34 {
        3
    } else {
        return true;
    };
    assert(tag_start(all[0]) == Some(start as int));
    let mut k: usize = start;
    while k < len - 1
        invariant
            start <= k,
            len >= 2,
            len == value@.len(),
            value@ == all[0],
            all.len() == 1,
            tag_start(all[0]) == Some(start as int),
            forall|j: int| start <= j < k ==> #[trigger] value@[j] != 32 && value@[j] != 9,
            forall|j: int| start <= j < k ==> #[trigger] value@[j] != 34,
            all == field_values(*map, "etag"@),
        decreases len - k,
    {
        if value[k] == 34 {
            assert forall|j: int|
                start <= j < all[0].len() - 1 && (#[trigger] all[0][j] == 32 || all[0][j]
                    == 9) implies all[0].subrange(start as int, j).contains(34) by {
                assert(j > k);
                assert(all[0].subrange(start as int, j)[k - start] == 34);
            }
            return true;
        }
        if value[k] == 32 || value[k] == 9 {
            assert(!all[0].subrange(start as int, k as int).contains(34));
            return false;
        }
        k = k + 1;
    }
    true
}

/// The version of HTTP that a request is sent by.
#[derive(Debug, Clone, Copy, PartialEq, Eq, Structural)]
pub enum HttpVersion {
    Http09,
    Http10,
    Http11,
    H2,
    H3,
}

/// A request: what it asks for and where, by which version of HTTP, its fields, and after how many
/// nanoseconds it is given up, if it is.
#[derive(Debug)]
pub struct HttpRequest {
    pub method: String,
    pub url: String,
    pub version: HttpVersion,
    pub headers: HeaderMap,
    pub timeout: Option<u128>,
}

impl HttpRequest {
    /// Whether two requests are the same but for their fields.
    pub open spec fn agrees_with(self, other: HttpRequest) -> bool {
        &&& self.method@ == other.method@
        &&& self.url@ == other.url@
        &&& self.version == other.version
        &&& self.timeout == other.timeout
    }
}

} // verus!
