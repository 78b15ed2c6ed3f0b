//! What this crate takes from the HTTP library: its header map, seen as a
//! finite map from field names to the values held under each name, and the
//! host of a URI. Nothing in this file is proved; each item says what is
//! taken on trust of the library.

use crate::text::ascii_lower;
use hyper::header::{HeaderMap, HeaderName, HeaderValue};
use hyper::http::uri::InvalidUri;
use vstd::prelude::*;

verus! {

/// The header map of the HTTP library, which this crate does not look into.
#[verifier::external_type_specification]
#[verifier::external_body]
#[verifier::reject_recursive_types(T)]
pub struct ExHeaderMap<T>(HeaderMap<T>);

/// The field value of the HTTP library.
#[verifier::external_type_specification]
#[verifier::external_body]
pub struct ExHeaderValue(HeaderValue);

/// The failure with which the HTTP library refuses a text as a URI.
#[verifier::external_type_specification]
#[verifier::external_body]
pub struct ExInvalidUri(InvalidUri);

/// Why a field could not be put into a header map.
#[derive(Debug, Clone, Copy, PartialEq, Eq, Structural)]
pub(crate) enum HeaderFault {
    /// The name is no field name.
    Name,
    /// The value holds a byte that no field value may hold.
    Value,
    /// The map has reached the size that the HTTP library allows.
    Full,
}

/// What a header map holds: under each field name, in lower case, the bytes
/// of the values added under it, oldest first.
pub uninterp spec fn header_fields(m: HeaderMap<HeaderValue>) -> Map<Seq<char>, Seq<Seq<u8>>>;

/// The number of names under which a header map holds values.
pub uninterp spec fn header_count(m: HeaderMap<HeaderValue>) -> nat;

/// The number of names from which on a header map may refuse a new field
/// for its size. A map that holds fewer names takes one more.
pub open spec fn names_limit() -> nat {
    6554
}

/// The host of a URI reference: `None` where the text is no URI reference,
/// `Some(None)` where it is one without a host.
pub uninterp spec fn uri_host_of(s: Seq<char>) -> Option<Option<Seq<char>>>;

/// The first value held under `name`, if any. Names are looked up without
/// regard to the case of ASCII letters.
pub open spec fn first_value(fields: Map<Seq<char>, Seq<Seq<u8>>>, name: Seq<char>) -> Option<
    Seq<u8>,
> {
    if fields.dom().contains(ascii_lower(name)) {
        Some(fields[ascii_lower(name)][0])
    } else {
        None
    }
}

/// `fields` with `value` as the only value under `name`.
pub open spec fn with_value(
    fields: Map<Seq<char>, Seq<Seq<u8>>>,
    name: Seq<char>,
    value: Seq<u8>,
) -> Map<Seq<char>, Seq<Seq<u8>>> {
    fields.insert(ascii_lower(name), seq![value])
}

/// `fields` with nothing under `name`.
pub open spec fn without(fields: Map<Seq<char>, Seq<Seq<u8>>>, name: Seq<char>) -> Map<
    Seq<char>,
    Seq<Seq<u8>>,
> {
    fields.remove(ascii_lower(name))
}

/// A character that a field name may hold.
pub open spec fn is_name_char(c: char) -> bool {
    ||| 'a' <= c <= 'z'
    ||| 'A' <= c <= 'Z'
    ||| '0' <= c <= '9'
    ||| c == '!'
    ||| c == '"'
    ||| c == '#'
    ||| c == '$'
    ||| c == '%'
    ||| c == '&'
    ||| c == '\''
    ||| c == '*'
    ||| c == '+'
    ||| c == '-'
    ||| c == '.'
    ||| c == '^'
    ||| c == '_'
    ||| c == '`'
    ||| c == '|'
    ||| c == '~'
}

/// A field name: between 1 and 65535 characters, each one a name character.
pub open spec fn is_field_name(name: Seq<char>) -> bool {
    &&& 1 <= name.len() <= 65535
    &&& forall|i: int| 0 <= i < name.len() ==> is_name_char(#[trigger] name[i])
}

/// A byte that a field value may hold: a tab, or anything from the space on
/// but the delete character.
pub open spec fn is_value_byte(b: u8) -> bool {
    b >= 32 && b != 127 || b == 9
}

/// A field value: every byte is a value byte.
pub open spec fn is_field_value(value: Seq<u8>) -> bool {
    forall|i: int| 0 <= i < value.len() ==> is_value_byte(#[trigger] value[i])
}

/// `HeaderMap::get` with a string key, the value copied out as bytes. The
/// map compares names without regard to ASCII case and hands out the first
/// value held under the name; a string that is no field name finds nothing.
#[verifier::external_body]
pub(crate) fn header_get(m: &HeaderMap<HeaderValue>, name: &str) -> (r: Option<Vec<u8>>)
    ensures
        r is Some <==> first_value(header_fields(*m), name@) is Some,
        r matches Some(v) ==> Some(v@) == first_value(header_fields(*m), name@),
{
    m.get(name).map(|v| v.as_bytes().to_vec())
}

/// `HeaderMap::remove` with a string key: every value held under the name
/// leaves the map, and nothing else changes. The map holds no more names
/// than before.
#[verifier::external_body]
pub(crate) fn header_remove(m: &mut HeaderMap<HeaderValue>, name: &str)
    ensures
        header_fields(*final(m)) == without(header_fields(*old(m)), name@),
        header_count(*final(m)) <= header_count(*old(m)),
{
    m.remove(name);
}

/// `HeaderMap::try_insert`, with the name made by `HeaderName::from_bytes`
/// and the value by `HeaderValue::from_bytes`. On success the value is the
/// only one held under the name, and the map holds at most one name more
/// than before. The name is refused exactly where it is no field name, the
/// value exactly where it is no field value. The map refuses for its size
/// only where its table, which never has more than 32768 places, would
/// have to grow beyond them. A table grows when it is three quarters full,
/// or, after many collisions, when it is a fifth full; so a map that
/// refuses holds at least a fifth of 32768 names, which is 6554 or more.
/// Below that number of names the map takes the field. A refusal changes
/// nothing.
#[verifier::external_body]
pub(crate) fn header_insert(
    m: &mut HeaderMap<HeaderValue>,
    name: &str,
    value: &[u8],
) -> (r: Result<(), HeaderFault>)
    ensures
        r is Ok ==> header_fields(*final(m)) == with_value(header_fields(*old(m)), name@, value@),
        r is Err ==> header_fields(*final(m)) == header_fields(*old(m)),
        r is Ok ==> header_count(*final(m)) <= header_count(*old(m)) + 1,
        r is Err ==> header_count(*final(m)) == header_count(*old(m)),
        r matches Err(HeaderFault::Full) ==> header_count(*old(m)) >= names_limit(),
        !is_field_name(name@) <==> r matches Err(HeaderFault::Name),
        (is_field_name(name@) && !is_field_value(value@)) <==> r matches Err(HeaderFault::Value),
{
    let name = match HeaderName::from_bytes(name.as_bytes()) {
        Ok(name) => name,
        Err(_) => return Err(HeaderFault::Name),
    };
    let value = match HeaderValue::from_bytes(value) {
        Ok(value) => value,
        Err(_) => return Err(HeaderFault::Value),
    };
    match m.try_insert(name, value) {
        Ok(_) => Ok(()),
        Err(_) => Err(HeaderFault::Full),
    }
}

/// `Uri::from_str` followed by `Uri::host`: the host of the URI reference
/// that `s` spells, copied out.
#[verifier::external_body]
pub(crate) fn uri_host(s: &str) -> (r: Result<Option<String>, InvalidUri>)
    ensures
        match r {
            Ok(Some(host)) => uri_host_of(s@) == Some(Some(host@)),
            Ok(None) => uri_host_of(s@) == Some(None::<Seq<char>>),
            Err(_) => uri_host_of(s@) is None,
        },
{
    let uri = s.parse::<hyper::Uri>()?;
    Ok(uri.host().map(|host| host.to_string()))
}

} // verus!
