//! HTTP header fields.
use crate::text::opt_text;
use vstd::prelude::*;

verus! {

/// A collection of header fields.
#[verifier::external_type_specification]
#[verifier::external_body]
#[verifier::reject_recursive_types(T)]
pub struct ExHeaderMap<T>(axum::http::HeaderMap<T>);

/// The value of a header field.
#[verifier::external_type_specification]
#[verifier::external_body]
pub struct ExHeaderValue(axum::http::HeaderValue);

/// What a `HeaderMap` holds: for each name, in lower case, the values given for
/// it, in order.
pub uninterp spec fn header_fields(
    headers: axum::http::HeaderMap<axum::http::HeaderValue>,
) -> Map<Seq<char>, Seq<Seq<u8>>>;

/// The bytes of a `HeaderValue`.
pub uninterp spec fn value_bytes(value: axum::http::HeaderValue) -> Seq<u8>;

/// A name in lower case: letters and hyphens.
pub open spec fn lower_name(name: Seq<char>) -> bool {
    forall|i: int| 0 <= i < name.len() ==> 'a' as int <= #[trigger] name[i] as int <= 'z' as int
        || name[i] == '-'
}

/// A byte that may stand in a header value read as text: visible ASCII, space
/// and tab.
pub open spec fn visible(b: u8) -> bool {
    32 <= b < 127 || b == 9
}

/// Every byte may stand in a text.
pub open spec fn all_visible(bytes: Seq<u8>) -> bool {
    forall|i: int| 0 <= i < bytes.len() ==> visible(#[trigger] bytes[i])
}

/// ASCII bytes as characters.
pub open spec fn ascii_text(bytes: Seq<u8>) -> Seq<char> {
    Seq::new(bytes.len(), |i: int| bytes[i] as char)
}

/// The text of the first field of that name; `None` where there is no such
/// field, or where its value is not text.
pub open spec fn field_text(
    headers: axum::http::HeaderMap<axum::http::HeaderValue>,
    name: Seq<char>,
) -> Option<Seq<char>> {
    let fields = header_fields(headers);
    if fields.contains_key(name) && all_visible(fields[name][0]) {
        Some(ascii_text(fields[name][0]))
    } else {
        None
    }
}

/// `HeaderMap::get`, by a name in lower case: the first value of that name.
#[verifier::external_body]
fn first_value<'a>(headers: &'a axum::http::HeaderMap, name: &str) -> (r: Option<
    &'a axum::http::HeaderValue,
>)
    requires
        lower_name(name@),
    ensures
        match r {
            Some(value) => {
                &&& header_fields(*headers).contains_key(name@)
                &&& value_bytes(*value) == header_fields(*headers)[name@][0]
            },
            None => !header_fields(*headers).contains_key(name@),
        },
{
    headers.get(name)
}

/// `HeaderValue::to_str`: the value as text, where it holds visible ASCII
/// characters, spaces and tabs alone.
#[verifier::external_body]
fn value_text<'a>(value: &'a axum::http::HeaderValue) -> (r: Option<&'a str>)
    ensures
        match r {
            Some(text) => all_visible(value_bytes(*value)) && text@ == ascii_text(
                value_bytes(*value),
            ),
            None => !all_visible(value_bytes(*value)),
        },
{
    value.to_str().ok()
}

/// The text of the first field of that name, where there is one.
pub(crate) fn header_text(headers: &axum::http::HeaderMap, name: &str) -> (r: Option<String>)
    requires
        lower_name(name@),
    ensures
        opt_text(r) == field_text(*headers, name@),
{
    match first_value(headers, name) {
        Some(value) => match value_text(value) {
            Some(text) => Some(text.to_owned()),
            None => None,
        },
        None => None,
    }
}

/// A field is read as text if and only if it is there and its first value holds
/// tabs and the characters from space to tilde alone; the text is those characters.
pub proof fn fields_are_read_as_ascii(
    headers: axum::http::HeaderMap<axum::http::HeaderValue>,
    name: Seq<char>,
)
    ensures
        field_text(headers, name) is Some <==> header_fields(headers).contains_key(name) && (forall|
            i: int,
        |
            0 <= i < header_fields(headers)[name][0].len() ==> {
                let b = #[trigger] header_fields(headers)[name][0][i];
                b == 9 || (32 <= b && b <= 126)
            }),
        field_text(headers, name) matches Some(text) ==> text.len() == header_fields(
            headers,
        )[name][0].len() && forall|i: int|
            0 <= i < text.len() ==> #[trigger] text[i] as int
                == header_fields(headers)[name][0][i] as int,
{
    let bytes = header_fields(headers)[name][0];
    if all_visible(bytes) {
        assert forall|i: int| 0 <= i < bytes.len() implies {
            let b = #[trigger] bytes[i];
            b == 9 || (32 <= b && b <= 126)
        } by {
            assert(visible(bytes[i]));
        }
    }
}

} // verus!
