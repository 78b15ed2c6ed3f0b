//! Rewriting a client request into the request sent upstream: the target
//! URI and the header fields.

use crate::headers::{
    first_value, header_count, header_fields, header_get, header_insert, header_remove,
    is_field_name, is_field_value, is_name_char, is_value_byte, names_limit, uri_host,
    uri_host_of, with_value, without,
};
use crate::text::{
    append, chars_of, copy_range, eq_ignore_case, equals, equals_ignore_case,
    ascii_lower, lemma_position, lemma_position_is, lemma_split_joined, lemma_split_none,
    lemma_split_pieces, lemma_split_within, opt_ref_text, opt_text, position,
    same_text, split, split_chars, string_of, trim, trim_chars, views,
};
use hyper::header::{HeaderMap, HeaderValue};
use hyper::http::uri::InvalidUri;
use vstd::prelude::*;
use vstd::string::{StringExecFns, StringSliceAdditionalSpecFns};
use vstd::utf8::{encode_utf8, is_ascii_chars, is_ascii_chars_encode_utf8};

verus! {

/// The part of a forward URL before its first `?`.
pub open spec fn base_of(forward_url: Seq<char>) -> Seq<char> {
    split(forward_url, '?')[0]
}

/// The part of a forward URL between its first and its second `?`; empty
/// where it has no `?`.
pub open spec fn forward_query_of(forward_url: Seq<char>) -> Seq<char> {
    let parts = split(forward_url, '?');
    if parts.len() > 1 {
        parts[1]
    } else {
        Seq::empty()
    }
}

/// `s` without one trailing `c`, if it ends in one.
pub open spec fn strip_one(s: Seq<char>, c: char) -> Seq<char> {
    if s.len() > 0 && s.last() == c {
        s.drop_last()
    } else {
        s
    }
}

/// The key of a query item `key=value`: what stands before its first `=`.
pub open spec fn query_key(item: Seq<char>) -> Seq<char> {
    split(item, '=')[0]
}

/// The value of a query item: what stands between its first and its second
/// `=`; empty where it has no `=`.
pub open spec fn query_value(item: Seq<char>) -> Seq<char> {
    let parts = split(item, '=');
    if parts.len() > 1 {
        parts[1]
    } else {
        Seq::empty()
    }
}

/// The items of a query string: its pieces between `&`. An empty query has
/// no item.
pub open spec fn query_items(query: Seq<char>) -> Seq<Seq<char>> {
    if query.len() == 0 {
        Seq::empty()
    } else {
        split(query, '&')
    }
}

/// The keys of the items of a query string, in order.
pub open spec fn query_keys(query: Seq<char>) -> Seq<Seq<char>> {
    let items = query_items(query);
    Seq::new(items.len(), |i: int| query_key(items[i]))
}

/// What merging appends for the request's query items: `&key=value` for
/// each item, in order, whose key is not among `keys`.
pub open spec fn merge_items(items: Seq<Seq<char>>, keys: Seq<Seq<char>>) -> Seq<char>
    decreases items.len(),
{
    if items.len() == 0 {
        Seq::empty()
    } else {
        let before = merge_items(items.drop_last(), keys);
        let item = items.last();
        if keys.contains(query_key(item)) {
            before
        } else {
            before + seq!['&'] + query_key(item) + seq!['='] + query_value(item)
        }
    }
}

/// The query of the upstream URI: the request's query where the forward URL
/// has none; else the forward URL's query, followed by the request's items
/// whose keys it does not have, without one trailing `&`. A request without
/// a query has no item to add.
pub open spec fn merged_query(forward_query: Seq<char>, request_query: Seq<char>) -> Seq<char> {
    if forward_query.len() == 0 {
        request_query
    } else {
        strip_one(
            forward_query + merge_items(query_items(request_query), query_keys(forward_query)),
            '&',
        )
    }
}

/// The upstream URI for a request with the given path and query.
pub open spec fn forward_uri_spec(
    forward_url: Seq<char>,
    path: Seq<char>,
    query: Seq<char>,
) -> Seq<char> {
    let head = strip_one(base_of(forward_url), '/') + path;
    let forward_query = forward_query_of(forward_url);
    if forward_query.len() == 0 && query.len() == 0 {
        head
    } else {
        head + seq!['?'] + merged_query(forward_query, query)
    }
}

/// The text of an optional query: empty where there is none.
pub open spec fn query_text(query: Option<&str>) -> Seq<char> {
    match query {
        Some(q) => q@,
        None => Seq::empty(),
    }
}

/// Whether `needle` is one of `list`.
fn contains_text(list: &Vec<Vec<char>>, needle: &[char]) -> (r: bool)
    ensures
        r == views(list@).contains(needle@),
{
    let mut i: usize = 0;
    while i < list.len()
        invariant
            i <= list.len(),
            forall|k: int| 0 <= k < i ==> views(list@)[k] != needle@,
        decreases list.len() - i,
    {
        if equals(list[i].as_slice(), needle) {
            assert(views(list@)[i as int] == needle@);
            return true;
        }
        i += 1;
    }
    false
}

/// The items of `query`, in order.
fn items_of(query: &[char]) -> (items: Vec<Vec<char>>)
    ensures
        views(items@) == query_items(query@),
{
    if query.len() == 0 {
        let items: Vec<Vec<char>> = Vec::new();
        assert(views(items@) =~= Seq::<Seq<char>>::empty());
        items
    } else {
        split_chars(query, '&')
    }
}

/// The keys of the items of `query`, in order.
fn keys_of(query: &[char]) -> (keys: Vec<Vec<char>>)
    ensures
        views(keys@) == query_keys(query@),
{
    let items = items_of(query);
    let mut keys: Vec<Vec<char>> = Vec::new();
    let mut i: usize = 0;
    while i < items.len()
        invariant
            i <= items.len(),
            views(items@) == query_items(query@),
            keys.len() == i,
            forall|k: int| 0 <= k < i ==> keys@[k]@ == query_key(views(items@)[k]),
        decreases items.len() - i,
    {
        let mut parts = split_chars(items[i].as_slice(), '=');
        proof {
            lemma_split_pieces(items@[i as int]@, '=');
            assert(views(parts@)[0] == parts@[0]@);
            assert(views(items@)[i as int] == items@[i as int]@);
        }
        let key = parts.swap_remove(0);
        keys.push(key);
        i += 1;
    }
    assert(views(keys@) =~= query_keys(query@));
    keys
}

/// A capacity for the upstream URI: the sum of the lengths and one more for
/// the `?`, or nothing where the sum does not fit a `usize`.
fn capacity_hint(base: usize, path: usize, forward_query: usize, query: usize) -> (n: usize)
    ensures
        n == if base + path + 1 + forward_query + query <= usize::MAX {
            base + path + 1 + forward_query + query
        } else {
            0
        },
{
    let a = match base.checked_add(path) {
        Some(a) => a,
        None => {
            return 0;
        },
    };
    let b = match a.checked_add(1) {
        Some(b) => b,
        None => {
            return 0;
        },
    };
    let c = match b.checked_add(forward_query) {
        Some(c) => c,
        None => {
            return 0;
        },
    };
    match c.checked_add(query) {
        Some(n) => n,
        None => 0,
    }
}

/// The URI to send upstream: the forward URL's base without one trailing
/// slash, the request's path, and the two queries merged. The request's
/// query adds a pair for each of its items whose key the forward URL's
/// query does not have; a request without a query adds none.
pub fn forward_uri(forward_url: &str, path: &str, query: Option<&str>) -> (url: String)
    ensures
        url@ == forward_uri_spec(forward_url@, path@, query_text(query)),
{
    let target = chars_of(forward_url);
    let parts = split_chars(target.as_slice(), '?');
    proof {
        lemma_split_pieces(target@, '?');
        assert(views(parts@)[0] == parts@[0]@);
        if parts.len() > 1 {
            assert(views(parts@)[1] == parts@[1]@);
        }
    }
    let none: Vec<char> = Vec::new();
    let base: &Vec<char> = &parts[0];
    let forward_query: &Vec<char> = if parts.len() > 1 {
        &parts[1]
    } else {
        &none
    };
    let base_end: usize = if base.len() > 0 && base[base.len() - 1] == '/' {
        base.len() - 1
    } else {
        base.len()
    };
    let request_path = chars_of(path);
    let request_query: Vec<char> = match query {
        Some(q) => chars_of(q),
        None => Vec::new(),
    };
    assert(base@.subrange(0, base_end as int) == strip_one(base@, '/'));
    assert(forward_query@ == forward_query_of(forward_url@));
    assert(request_query@ == query_text(query));

    let mut url: Vec<char> = Vec::with_capacity(
        capacity_hint(base_end, request_path.len(), forward_query.len(), request_query.len()),
    );
    let trimmed = copy_range(base.as_slice(), 0, base_end);
    append(&mut url, trimmed.as_slice());
    append(&mut url, request_path.as_slice());
    let ghost head = url@;
    if forward_query.len() > 0 || request_query.len() > 0 {
        url.push('?');
        append(&mut url, forward_query.as_slice());
        if forward_query.len() == 0 {
            append(&mut url, request_query.as_slice());
        } else {
            let items = items_of(request_query.as_slice());
            let keys = keys_of(forward_query.as_slice());
            let ghost start = url@;
            let mut i: usize = 0;
            assert(views(items@).take(0) =~= Seq::<Seq<char>>::empty());
            while i < items.len()
                invariant
                    i <= items.len(),
                    url@ == start + merge_items(views(items@).take(i as int), views(keys@)),
                    none@ == Seq::<char>::empty(),
                decreases items.len() - i,
            {
                let ghost before = merge_items(views(items@).take(i as int), views(keys@));
                let kv = split_chars(items[i].as_slice(), '=');
                proof {
                    lemma_split_pieces(items@[i as int]@, '=');
                    assert(views(kv@)[0] == kv@[0]@);
                    if kv.len() > 1 {
                        assert(views(kv@)[1] == kv@[1]@);
                    }
                    let done = views(items@).take(i + 1);
                    assert(done.drop_last() == views(items@).take(i as int));
                    assert(done.last() == items@[i as int]@);
                }
                let key: &Vec<char> = &kv[0];
                let value: &Vec<char> = if kv.len() > 1 {
                    &kv[1]
                } else {
                    &none
                };
                if !contains_text(&keys, key.as_slice()) {
                    url.push('&');
                    append(&mut url, key.as_slice());
                    url.push('=');
                    append(&mut url, value.as_slice());
                    assert(url@ == start + (before + seq!['&'] + key@ + seq!['='] + value@));
                }
                i += 1;
            }
            assert(views(items@).take(items.len() as int) == views(items@));
            let ghost merged = forward_query@ + merge_items(
                query_items(request_query@),
                query_keys(forward_query@),
            );
            assert(url@ == head + seq!['?'] + merged);
            if url[url.len() - 1] == '&' {
                url.pop();
            }
            assert(url@ == head + seq!['?'] + strip_one(merged, '&'));
        }
    }
    string_of(url.as_slice())
}

/// A forward URL whose base ends in a slash loses exactly that one slash:
/// the upstream URI starts with the base without its last character,
/// whatever stands before it, followed by the request's path.
pub proof fn lemma_forward_trims_one_slash(
    forward_url: Seq<char>,
    path: Seq<char>,
    query: Seq<char>,
)
    requires
        base_of(forward_url).len() > 0,
        base_of(forward_url).last() == '/',
    ensures
        (base_of(forward_url).drop_last() + path).is_prefix_of(
            forward_uri_spec(forward_url, path, query),
        ),
        forward_query_of(forward_url).len() == 0 && query.len() == 0 ==> forward_uri_spec(
            forward_url,
            path,
            query,
        ) == base_of(forward_url).drop_last() + path,
{
    let head = base_of(forward_url).drop_last() + path;
    let rest = seq!['?'] + merged_query(forward_query_of(forward_url), query);
    assert(head + seq!['?'] + merged_query(forward_query_of(forward_url), query) == head + rest);
    assert((head + rest).subrange(0, head.len() as int) == head);
}

/// Why a request could not be proxied.
#[derive(Debug)]
pub enum ProxyError {
    /// The forward URL with the request's path and query is no URI, and
    /// this is the failure with which the HTTP library refused it; or it is
    /// a URI without a host, and there is no such failure.
    InvalidUri(Option<InvalidUri>),
    /// A header field that the rewrite reads or writes is malformed.
    ForwardHeaderError,
    /// The protocol upgrade could not be bridged; the text says why.
    UpgradeError(String),
}

/// The fields of a header map.
pub type Fields = Map<Seq<char>, Seq<Seq<u8>>>;

/// Every byte is visible ASCII or a tab: the value can be read as text.
pub open spec fn is_visible(value: Seq<u8>) -> bool {
    forall|i: int| 0 <= i < value.len() ==> 32 <= #[trigger] value[i] < 127 || value[i] == 9
}

/// The text that the bytes of a visible value spell.
pub open spec fn text_of(value: Seq<u8>) -> Seq<char> {
    Seq::new(value.len(), |i: int| value[i] as char)
}

/// A field is malformed where it is present and its first value cannot be
/// read as text.
pub open spec fn malformed(fields: Fields, name: Seq<char>) -> bool {
    first_value(fields, name) matches Some(v) && !is_visible(v)
}

/// The members of a comma-separated list, each without the blanks around it.
pub open spec fn tokens(value: Seq<char>) -> Seq<Seq<char>> {
    let pieces = split(value, ',');
    Seq::new(pieces.len(), |i: int| trim(pieces[i]))
}

/// Whether a comma-separated list has `token` as a member, compared without
/// regard to the case of ASCII letters.
pub open spec fn has_token(value: Seq<char>, token: Seq<char>) -> bool {
    exists|i: int| 0 <= i < tokens(value).len() && eq_ignore_case(#[trigger] tokens(value)[i], token)
}

/// The protocol that the fields ask to switch to: the value of `Upgrade`,
/// where `Connection` lists `upgrade` and `Upgrade` is present.
pub open spec fn upgrade_type_of(fields: Fields) -> Option<Seq<char>> {
    match first_value(fields, "connection"@) {
        Some(c) => if has_token(text_of(c), "upgrade"@) {
            match first_value(fields, "upgrade"@) {
                Some(u) => Some(text_of(u)),
                None => None,
            }
        } else {
            None
        },
        None => None,
    }
}

/// Whether reading the upgrade request meets a malformed field: `Connection`,
/// or `Upgrade` where `Connection` lists `upgrade`.
pub open spec fn upgrade_malformed(fields: Fields) -> bool {
    match first_value(fields, "connection"@) {
        Some(c) => !is_visible(c) || (has_token(text_of(c), "upgrade"@) && malformed(
            fields,
            "upgrade"@,
        )),
        None => false,
    }
}

/// Whether `TE` lists `trailers`.
pub open spec fn te_trailers_of(fields: Fields) -> bool {
    first_value(fields, "te"@) matches Some(v) && has_token(text_of(v), "trailers"@)
}

/// The names that `Connection` lists; none where the field is absent.
pub open spec fn listed(fields: Fields) -> Seq<Seq<char>> {
    match first_value(fields, "connection"@) {
        Some(v) => tokens(text_of(v)),
        None => Seq::empty(),
    }
}

/// `fields` without the fields of the given names; an empty name names none.
pub open spec fn without_names(fields: Fields, names: Seq<Seq<char>>) -> Fields
    decreases names.len(),
{
    if names.len() == 0 {
        fields
    } else {
        let rest = without_names(fields, names.drop_last());
        if names.last().len() == 0 {
            rest
        } else {
            without(rest, names.last())
        }
    }
}

/// `fields` without the hop-by-hop fields.
pub open spec fn without_hop(fields: Fields) -> Fields {
    let f1 = without(fields, "connection"@);
    let f2 = without(f1, "te"@);
    let f3 = without(f2, "trailer"@);
    let f4 = without(f3, "keep-alive"@);
    let f5 = without(f4, "proxy-connection"@);
    let f6 = without(f5, "proxy-authenticate"@);
    let f7 = without(f6, "proxy-authorization"@);
    let f8 = without(f7, "transfer-encoding"@);
    without(f8, "upgrade"@)
}

/// `fields` without the fields that its `Connection` lists and without the
/// hop-by-hop fields.
pub open spec fn stripped(fields: Fields) -> Fields {
    without_hop(without_names(fields, listed(fields)))
}

/// The new value of `X-Forwarded-For`: the client's address, after the
/// present first value and `, ` where there is one.
pub open spec fn forwarded_for(fields: Fields, client_ip: Seq<u8>) -> Seq<u8> {
    match first_value(fields, "x-forwarded-for"@) {
        Some(v) => v + seq![44u8, 32u8] + client_ip,
        None => client_ip,
    }
}

/// The fields of the upstream request.
pub open spec fn rewritten(
    fields: Fields,
    host: Seq<char>,
    client_ip: Seq<char>,
    upgrade: Option<Seq<char>>,
    te_trailers: bool,
) -> Fields {
    let f1 = stripped(with_value(fields, "host"@, encode_utf8(host)));
    let f2 = if te_trailers {
        with_value(f1, "te"@, encode_utf8("trailers"@))
    } else {
        f1
    };
    let f3 = match upgrade {
        Some(u) => with_value(
            with_value(f2, "upgrade"@, encode_utf8(u)),
            "connection"@,
            encode_utf8("UPGRADE"@),
        ),
        None => f2,
    };
    with_value(f3, "x-forwarded-for"@, forwarded_for(f3, encode_utf8(client_ip)))
}

/// Reads a value as text, if every byte of it is visible.
pub(crate) fn visible_text(value: &[u8]) -> (r: Option<Vec<char>>)
    ensures
        r is Some <==> is_visible(value@),
        r matches Some(t) ==> t@ == text_of(value@),
{
    let mut text: Vec<char> = Vec::new();
    let mut i: usize = 0;
    while i < value.len()
        invariant
            i <= value.len(),
            text.len() == i,
            forall|k: int| 0 <= k < i ==> 32 <= #[trigger] value@[k] < 127 || value@[k] == 9,
            forall|k: int| 0 <= k < i ==> text@[k] == value@[k] as char,
        decreases value.len() - i,
    {
        let b = value[i];
        if !(32 <= b && b < 127 || b == 9) {
            return None;
        }
        text.push(b as char);
        i += 1;
    }
    assert(text@ =~= text_of(value@));
    Some(text)
}

/// The text of the first value of a field: `Ok(None)` where the field is
/// absent, an error where the value cannot be read as text.
fn field_text(headers: &HeaderMap<HeaderValue>, name: &str) -> (r: Result<
    Option<Vec<char>>,
    ProxyError,
>)
    ensures
        match first_value(header_fields(*headers), name@) {
            Some(v) => if is_visible(v) {
                r matches Ok(Some(t)) && t@ == text_of(v)
            } else {
                r matches Err(ProxyError::ForwardHeaderError)
            },
            None => r matches Ok(None),
        },
{
    match header_get(headers, name) {
        Some(value) => match visible_text(value.as_slice()) {
            Some(text) => Ok(Some(text)),
            None => Err(ProxyError::ForwardHeaderError),
        },
        None => Ok(None),
    }
}

/// The members of a comma-separated list.
fn tokens_of(value: &[char]) -> (r: Vec<Vec<char>>)
    ensures
        views(r@) == tokens(value@),
{
    let pieces = split_chars(value, ',');
    let mut r: Vec<Vec<char>> = Vec::new();
    let mut i: usize = 0;
    while i < pieces.len()
        invariant
            i <= pieces.len(),
            views(pieces@) == split(value@, ','),
            r.len() == i,
            forall|k: int| 0 <= k < i ==> r@[k]@ == trim(views(pieces@)[k]),
        decreases pieces.len() - i,
    {
        assert(views(pieces@)[i as int] == pieces@[i as int]@);
        r.push(trim_chars(pieces[i].as_slice()));
        i += 1;
    }
    assert(views(r@) =~= tokens(value@));
    r
}

/// Whether a comma-separated list has `token` as a member.
fn list_has_token(value: &[char], token: &str) -> (r: bool)
    ensures
        r == has_token(value@, token@),
{
    let list = tokens_of(value);
    let wanted = chars_of(token);
    let mut i: usize = 0;
    while i < list.len()
        invariant
            i <= list.len(),
            views(list@) == tokens(value@),
            wanted@ == token@,
            forall|k: int| 0 <= k < i ==> !eq_ignore_case(#[trigger] tokens(value@)[k], token@),
        decreases list.len() - i,
    {
        assert(views(list@)[i as int] == list@[i as int]@);
        if equals_ignore_case(list[i].as_slice(), wanted.as_slice()) {
            return true;
        }
        i += 1;
    }
    false
}

/// The protocol that the request asks to switch to, if it asks: `Connection`
/// lists `upgrade` and `Upgrade` is present. A `Connection` or `Upgrade`
/// value that is not text is an error.
pub fn get_upgrade_type(headers: &HeaderMap<HeaderValue>) -> (r: Result<Option<String>, ProxyError>)
    ensures
        upgrade_malformed(header_fields(*headers)) <==> r is Err,
        r matches Err(e) ==> e == ProxyError::ForwardHeaderError,
        r matches Ok(Some(s)) ==> upgrade_type_of(header_fields(*headers)) == Some(s@),
        r matches Ok(None) ==> upgrade_type_of(header_fields(*headers)) is None,
{
    let connection = match field_text(headers, "connection") {
        Ok(Some(c)) => c,
        Ok(None) => {
            return Ok(None);
        },
        Err(e) => {
            return Err(e);
        },
    };
    if !list_has_token(connection.as_slice(), "upgrade") {
        return Ok(None);
    }
    match field_text(headers, "upgrade") {
        Ok(Some(u)) => Ok(Some(string_of(u.as_slice()))),
        Ok(None) => Ok(None),
        Err(e) => Err(e),
    }
}

/// Whether `TE` lists `trailers`. A `TE` value that is not text is an error.
pub fn has_te_trailers(headers: &HeaderMap<HeaderValue>) -> (r: Result<bool, ProxyError>)
    ensures
        malformed(header_fields(*headers), "te"@) <==> r is Err,
        r matches Err(e) ==> e == ProxyError::ForwardHeaderError,
        r matches Ok(b) ==> b == te_trailers_of(header_fields(*headers)),
{
    match field_text(headers, "te") {
        Ok(Some(v)) => Ok(list_has_token(v.as_slice(), "trailers")),
        Ok(None) => Ok(false),
        Err(e) => Err(e),
    }
}

/// Removes the hop-by-hop fields.
pub fn remove_hop_headers(headers: &mut HeaderMap<HeaderValue>)
    ensures
        header_fields(*final(headers)) == without_hop(header_fields(*old(headers))),
        header_count(*final(headers)) <= header_count(*old(headers)),
{
    header_remove(headers, "connection");
    header_remove(headers, "te");
    header_remove(headers, "trailer");
    header_remove(headers, "keep-alive");
    header_remove(headers, "proxy-connection");
    header_remove(headers, "proxy-authenticate");
    header_remove(headers, "proxy-authorization");
    header_remove(headers, "transfer-encoding");
    header_remove(headers, "upgrade");
}

/// Removes every field that `Connection` lists. Where the value of
/// `Connection` is not text, nothing is removed and the error says so.
pub fn remove_connection_headers(headers: &mut HeaderMap<HeaderValue>) -> (r: Result<(), ProxyError>)
    ensures
        malformed(header_fields(*old(headers)), "connection"@) <==> r is Err,
        r matches Err(e) ==> e == ProxyError::ForwardHeaderError && header_fields(*final(headers))
            == header_fields(*old(headers)),
        r is Ok ==> header_fields(*final(headers)) == without_names(
            header_fields(*old(headers)),
            listed(header_fields(*old(headers))),
        ),
        header_count(*final(headers)) <= header_count(*old(headers)),
{
    let value = match field_text(headers, "connection") {
        Ok(Some(v)) => v,
        Ok(None) => {
            return Ok(());
        },
        Err(e) => {
            return Err(e);
        },
    };
    let names = tokens_of(value.as_slice());
    let ghost before = header_fields(*headers);
    let ghost held = header_count(*headers);
    let mut i: usize = 0;
    assert(views(names@).take(0) =~= Seq::<Seq<char>>::empty());
    while i < names.len()
        invariant
            i <= names.len(),
            header_fields(*headers) == without_names(before, views(names@).take(i as int)),
            header_count(*headers) <= held,
        decreases names.len() - i,
    {
        proof {
            let done = views(names@).take(i + 1);
            assert(done.drop_last() == views(names@).take(i as int));
            assert(done.last() == names@[i as int]@);
        }
        if names[i].len() > 0 {
            let name = string_of(names[i].as_slice());
            header_remove(headers, name.as_str());
        }
        i += 1;
    }
    assert(views(names@).take(names.len() as int) == views(names@));
    Ok(())
}

/// The fields of a response handed back to the client: without the fields
/// that `Connection` lists and without the hop-by-hop fields.
pub fn create_proxied_response(headers: HeaderMap<HeaderValue>) -> (r: Result<
    HeaderMap<HeaderValue>,
    ProxyError,
>)
    ensures
        malformed(header_fields(headers), "connection"@) <==> r is Err,
        r matches Err(e) ==> e == ProxyError::ForwardHeaderError,
        r matches Ok(h) ==> header_fields(h) == stripped(header_fields(headers)),
{
    let mut headers = headers;
    match remove_connection_headers(&mut headers) {
        Ok(()) => {},
        Err(e) => {
            return Err(e);
        },
    }
    remove_hop_headers(&mut headers);
    Ok(headers)
}

/// The requests whose fields can be rewritten for the upstream host: the
/// host, the client's address and the protocol to switch to can each stand
/// in a field; `Connection` can be read as text; the first value of
/// `X-Forwarded-For`, where there is one, can stand in a field again; and
/// the map, which holds `held` names, has room for the five names that the
/// rewrite may add.
pub open spec fn can_rewrite(
    fields: Fields,
    held: nat,
    host: Seq<char>,
    client_ip: Seq<char>,
    upgrade: Option<Seq<char>>,
) -> bool {
    &&& is_field_value(encode_utf8(host))
    &&& is_field_value(encode_utf8(client_ip))
    &&& (upgrade matches Some(u) ==> is_field_value(encode_utf8(u)))
    &&& !malformed(with_value(fields, "host"@, encode_utf8(host)), "connection"@)
    &&& (first_value(fields, "x-forwarded-for"@) matches Some(v) ==> is_field_value(v))
    &&& held + 5 <= names_limit()
}

/// A text of printable ASCII characters can stand in a field.
proof fn lemma_plain_text_is_field_value(s: Seq<char>)
    requires
        forall|i: int| 0 <= i < s.len() ==> ' ' <= #[trigger] s[i] <= '~',
    ensures
        is_field_value(encode_utf8(s)),
{
    assert(is_ascii_chars(s));
    is_ascii_chars_encode_utf8(s);
    assert forall|i: int| 0 <= i < encode_utf8(s).len() implies is_value_byte(
        #[trigger] encode_utf8(s)[i],
    ) by {
        assert(s[i] as u8 == encode_utf8(s)[i]);
    }
}

/// The names that the rewrite writes are field names, none of them is the
/// name of `X-Forwarded-For` but itself, and the two values that it writes
/// by itself can stand in a field.
proof fn lemma_rewrite_names()
    ensures
        is_field_name("host"@),
        is_field_name("te"@),
        is_field_name("upgrade"@),
        is_field_name("connection"@),
        is_field_name("x-forwarded-for"@),
        ascii_lower("host"@) != ascii_lower("x-forwarded-for"@),
        ascii_lower("te"@) != ascii_lower("x-forwarded-for"@),
        ascii_lower("upgrade"@) != ascii_lower("x-forwarded-for"@),
        ascii_lower("connection"@) != ascii_lower("x-forwarded-for"@),
        is_field_value(encode_utf8("trailers"@)),
        is_field_value(encode_utf8("UPGRADE"@)),
{
    reveal_strlit("host");
    reveal_strlit("te");
    reveal_strlit("upgrade");
    reveal_strlit("connection");
    reveal_strlit("x-forwarded-for");
    reveal_strlit("trailers");
    reveal_strlit("UPGRADE");
    assert(ascii_lower("host"@).len() != ascii_lower("x-forwarded-for"@).len());
    assert(ascii_lower("te"@).len() != ascii_lower("x-forwarded-for"@).len());
    assert(ascii_lower("upgrade"@).len() != ascii_lower("x-forwarded-for"@).len());
    assert(ascii_lower("connection"@).len() != ascii_lower("x-forwarded-for"@).len());
    lemma_plain_text_is_field_value("trailers"@);
    lemma_plain_text_is_field_value("UPGRADE"@);
}

/// Removing fields by name changes no field that stays.
proof fn lemma_without_names_keeps(fields: Fields, names: Seq<Seq<char>>, key: Seq<char>)
    ensures
        without_names(fields, names).dom().contains(key) ==> fields.dom().contains(key)
            && without_names(fields, names)[key] == fields[key],
    decreases names.len(),
{
    if names.len() > 0 {
        lemma_without_names_keeps(fields, names.drop_last(), key);
    }
}

/// Puts `value` under `name` as the only value.
fn set_field(headers: &mut HeaderMap<HeaderValue>, name: &str, value: &[u8]) -> (r: Result<
    (),
    ProxyError,
>)
    ensures
        r is Ok ==> header_fields(*final(headers)) == with_value(
            header_fields(*old(headers)),
            name@,
            value@,
        ),
        r matches Err(e) ==> e == ProxyError::ForwardHeaderError,
        !is_field_value(value@) ==> r is Err,
        is_field_name(name@) && is_field_value(value@) && header_count(*old(headers))
            < names_limit() ==> r is Ok,
        r is Ok ==> header_count(*final(headers)) <= header_count(*old(headers)) + 1,
{
    match header_insert(headers, name, value) {
        Ok(()) => Ok(()),
        Err(_) => Err(ProxyError::ForwardHeaderError),
    }
}

/// Rewrites the fields of a client request for the upstream `host`: `Host`
/// is overwritten, the fields that `Connection` lists and the hop-by-hop
/// fields leave, `TE: trailers` and the upgrade request are put back where
/// they were asked for, and the client's address joins `X-Forwarded-For`.
///
/// The rewrite succeeds on every request that `can_rewrite` admits. A
/// malformed `Connection`, a value that no field may hold, and a map that
/// refuses a field for its size are each a `ForwardHeaderError`.
pub fn rewrite_headers(
    headers: HeaderMap<HeaderValue>,
    host: &str,
    client_ip: &str,
    upgrade_type: Option<&String>,
    te_trailers: bool,
) -> (r: Result<HeaderMap<HeaderValue>, ProxyError>)
    ensures
        r matches Ok(h) ==> header_fields(h) == rewritten(
            header_fields(headers),
            host@,
            client_ip@,
            opt_ref_text(upgrade_type),
            te_trailers,
        ),
        r matches Err(e) ==> e == ProxyError::ForwardHeaderError,
        can_rewrite(
            header_fields(headers),
            header_count(headers),
            host@,
            client_ip@,
            opt_ref_text(upgrade_type),
        ) ==> r is Ok,
        !is_field_value(encode_utf8(host@)) ==> r is Err,
        !is_field_value(encode_utf8(client_ip@)) ==> r is Err,
        (upgrade_type matches Some(u) && !is_field_value(encode_utf8(u@))) ==> r is Err,
        malformed(with_value(header_fields(headers), "host"@, encode_utf8(host@)), "connection"@)
            ==> r is Err,
{
    let ghost given = header_fields(headers);
    let ghost held = header_count(headers);
    let ghost key = ascii_lower("x-forwarded-for"@);
    proof {
        lemma_rewrite_names();
    }
    let mut headers = headers;
    match set_field(&mut headers, "host", host.as_bytes()) {
        Ok(()) => {},
        Err(e) => {
            return Err(e);
        },
    }
    let ghost hosted = header_fields(headers);
    match remove_connection_headers(&mut headers) {
        Ok(()) => {},
        Err(e) => {
            return Err(e);
        },
    }
    proof {
        lemma_without_names_keeps(hosted, listed(hosted), key);
    }
    remove_hop_headers(&mut headers);
    assert(header_count(headers) <= held + 1);
    assert(header_fields(headers).dom().contains(key) ==> given.dom().contains(key)
        && header_fields(headers)[key] == given[key]);
    if te_trailers {
        match set_field(&mut headers, "te", "trailers".as_bytes()) {
            Ok(()) => {},
            Err(e) => {
                return Err(e);
            },
        }
    }
    match upgrade_type {
        Some(value) => {
            match set_field(&mut headers, "upgrade", value.as_str().as_bytes()) {
                Ok(()) => {},
                Err(e) => {
                    return Err(e);
                },
            }
            match set_field(&mut headers, "connection", "UPGRADE".as_bytes()) {
                Ok(()) => {},
                Err(e) => {
                    return Err(e);
                },
            }
        },
        None => {},
    }
    assert(header_count(headers) <= held + 4);
    assert(header_fields(headers).dom().contains(key) ==> given.dom().contains(key)
        && header_fields(headers)[key] == given[key]);
    let ip = client_ip.as_bytes();
    let mut chain: Vec<u8> = match header_get(&headers, "x-forwarded-for") {
        Some(mut present) => {
            present.push(44u8);
            present.push(32u8);
            present
        },
        None => Vec::new(),
    };
    let ghost start = chain@;
    let mut i: usize = 0;
    while i < ip.len()
        invariant
            i <= ip.len(),
            chain@ == start + ip@.subrange(0, i as int),
        decreases ip.len() - i,
    {
        chain.push(ip[i]);
        i += 1;
    }
    proof {
        assert(ip@.subrange(0, ip.len() as int) == ip@);
        assert(chain@ == forwarded_for(header_fields(headers), ip@));
        if !is_field_value(ip@) {
            let k = choose|k: int| 0 <= k < ip@.len() && !is_value_byte(#[trigger] ip@[k]);
            assert(chain@[start.len() + k] == ip@[k]);
        }
        if can_rewrite(given, held, host@, client_ip@, opt_ref_text(upgrade_type)) {
            assert forall|k: int| 0 <= k < chain@.len() implies is_value_byte(
                #[trigger] chain@[k],
            ) by {
                if k < start.len() {
                    let present = first_value(header_fields(headers), "x-forwarded-for"@);
                    if present is Some {
                        let v = present->0;
                        assert(v == given[key][0]);
                        if k < v.len() {
                            assert(chain@[k] == v[k]);
                        }
                    }
                } else {
                    assert(chain@[k] == ip@[k - start.len()]);
                }
            }
        }
    }
    match set_field(&mut headers, "x-forwarded-for", chain.as_slice()) {
        Ok(()) => Ok(headers),
        Err(e) => Err(e),
    }
}

/// The upstream request for a client request: its URI and its fields.
///
/// A malformed `TE` is a `ForwardHeaderError`. Else the error is
/// `InvalidUri` exactly where the forward URL with the request's path and
/// query is no URI, in which case it holds the failure of the HTTP library,
/// or is a URI without a host. Any other error is a `ForwardHeaderError`:
/// a field is malformed, or the header map refuses one. With a readable
/// `TE` and a URI that has a host, the request is rewritten wherever
/// `can_rewrite` admits it for that host.
pub fn create_proxied_request(
    client_ip: &str,
    forward_url: &str,
    path: &str,
    query: Option<&str>,
    headers: HeaderMap<HeaderValue>,
    upgrade_type: Option<&String>,
) -> (r: Result<(String, HeaderMap<HeaderValue>), ProxyError>)
    ensures
        match r {
            Ok((url, h)) => {
                &&& url@ == forward_uri_spec(forward_url@, path@, query_text(query))
                &&& uri_host_of(url@) matches Some(Some(host)) && header_fields(h) == rewritten(
                    header_fields(headers),
                    host,
                    client_ip@,
                    opt_ref_text(upgrade_type),
                    te_trailers_of(header_fields(headers)),
                )
            },
            Err(e) => e is InvalidUri || e == ProxyError::ForwardHeaderError,
        },
        malformed(header_fields(headers), "te"@) ==> r matches Err(ProxyError::ForwardHeaderError),
        (!malformed(header_fields(headers), "te"@) && !(uri_host_of(
            forward_uri_spec(forward_url@, path@, query_text(query)),
        ) matches Some(Some(_)))) <==> r matches Err(ProxyError::InvalidUri(_)),
        r matches Err(ProxyError::InvalidUri(cause)) ==> (cause is Some <==> uri_host_of(
            forward_uri_spec(forward_url@, path@, query_text(query)),
        ) is None),
        match uri_host_of(forward_uri_spec(forward_url@, path@, query_text(query))) {
            Some(Some(host)) => (!malformed(header_fields(headers), "te"@) && can_rewrite(
                header_fields(headers),
                header_count(headers),
                host,
                client_ip@,
                opt_ref_text(upgrade_type),
            )) ==> r is Ok,
            _ => true,
        },
{
    let te_trailers = match has_te_trailers(&headers) {
        Ok(b) => b,
        Err(e) => {
            return Err(e);
        },
    };
    let url = forward_uri(forward_url, path, query);
    let host = match uri_host(url.as_str()) {
        Ok(Some(host)) => host,
        Ok(None) => {
            return Err(ProxyError::InvalidUri(None));
        },
        Err(cause) => {
            return Err(ProxyError::InvalidUri(Some(cause)));
        },
    };
    match rewrite_headers(headers, host.as_str(), client_ip, upgrade_type, te_trailers) {
        Ok(h) => Ok((url, h)),
        Err(e) => Err(e),
    }
}

/// The status of an answer that switches protocols.
pub const SWITCHING_PROTOCOLS: u16 = 101;

/// How `{:?}` writes an optional string.
pub uninterp spec fn option_debug(value: Option<Seq<char>>) -> Seq<char>;

/// `format!` with `{:?}` on an optional string: its debug text.
#[verifier::external_body]
fn debug_text(value: &Option<String>) -> (r: String)
    ensures
        r@ == option_debug(opt_text(*value)),
{
    format!("{:?}", value)
}

/// What becomes of the upstream's answer.
pub enum Settled {
    /// The upstream switched to the protocol asked for: hand its answer on
    /// with these fields, untouched, and copy bytes both ways between the
    /// two upgraded connections until one of them closes.
    Bridge(HeaderMap<HeaderValue>),
    /// Hand the answer on with these fields.
    Plain(HeaderMap<HeaderValue>),
}

/// What the error says when the client's connection cannot be upgraded.
pub open spec fn no_upgrade_text() -> Seq<char> {
    "request does not have an upgrade extension"@
}

/// What the error says when the upstream switched to another protocol than
/// the one asked for.
pub open spec fn mismatch_text(response: Option<Seq<char>>, request: Option<Seq<char>>) -> Seq<
    char,
> {
    "backend tried to switch to protocol "@ + option_debug(response) + " when "@ + option_debug(
        request,
    ) + " was requested"@
}

/// Settles the upstream's answer with the given status and fields, for a
/// request that asked to switch to `request_upgrade_type`.
///
/// An answer that does not switch protocols is handed on without the
/// fields that its `Connection` lists and without the hop-by-hop fields. An
/// answer that switches is bridged if it names the protocol asked for and
/// the client's connection can be upgraded; it is an `UpgradeError` if not.
pub fn settle_response(
    status: u16,
    headers: HeaderMap<HeaderValue>,
    request_upgrade_type: &Option<String>,
    client_can_upgrade: bool,
) -> (r: Result<Settled, ProxyError>)
    ensures
        status != SWITCHING_PROTOCOLS ==> (malformed(header_fields(headers), "connection"@) <==> r
            is Err),
        status != SWITCHING_PROTOCOLS ==> (r matches Err(e) ==> e
            == ProxyError::ForwardHeaderError),
        status != SWITCHING_PROTOCOLS ==> (r matches Ok(s) ==> s matches Settled::Plain(h)
            && header_fields(h) == stripped(header_fields(headers))),
        status == SWITCHING_PROTOCOLS && upgrade_malformed(header_fields(headers)) ==> r matches Err(
            ProxyError::ForwardHeaderError,
        ),
        status == SWITCHING_PROTOCOLS && !upgrade_malformed(header_fields(headers)) ==> {
            let response = upgrade_type_of(header_fields(headers));
            let request = opt_text(*request_upgrade_type);
            if response != request {
                r matches Err(ProxyError::UpgradeError(text)) && text@ == mismatch_text(
                    response,
                    request,
                )
            } else if client_can_upgrade {
                r matches Ok(Settled::Bridge(h)) && h == headers
            } else {
                r matches Err(ProxyError::UpgradeError(text)) && text@ == no_upgrade_text()
            }
        },
{
    if status != SWITCHING_PROTOCOLS {
        return match create_proxied_response(headers) {
            Ok(h) => Ok(Settled::Plain(h)),
            Err(e) => Err(e),
        };
    }
    let response_upgrade_type = match get_upgrade_type(&headers) {
        Ok(t) => t,
        Err(e) => {
            return Err(e);
        },
    };
    let same = match (&response_upgrade_type, request_upgrade_type) {
        (Some(a), Some(b)) => same_text(a.as_str(), b.as_str()),
        (None, None) => true,
        _ => false,
    };
    if same {
        if client_can_upgrade {
            Ok(Settled::Bridge(headers))
        } else {
            Err(
                ProxyError::UpgradeError(
                    String::from_str("request does not have an upgrade extension"),
                ),
            )
        }
    } else {
        let mut text = String::from_str("backend tried to switch to protocol ");
        text.append(debug_text(&response_upgrade_type).as_str());
        text.append(" when ");
        text.append(debug_text(request_upgrade_type).as_str());
        text.append(" was requested");
        Err(ProxyError::UpgradeError(text))
    }
}

/// Whether a text ends in `&`.
pub open spec fn ends_in_amp(s: Seq<char>) -> bool {
    s.len() > 0 && s.last() == '&'
}

/// Whether a query has an item with the given key.
pub open spec fn has_key(query: Seq<char>, key: Seq<char>) -> bool {
    query_keys(query).contains(key)
}

/// Whether every item of `request_query` has a key that `query` has too.
pub open spec fn covers(query: Seq<char>, request_query: Seq<char>) -> bool {
    forall|i: int|
        0 <= i < query_items(request_query).len() ==> has_key(
            query,
            query_key(#[trigger] query_items(request_query)[i]),
        )
}

/// The merged query before a trailing `&` is stripped from it.
pub open spec fn merged_unstripped(forward_query: Seq<char>, request_query: Seq<char>) -> Seq<
    char,
> {
    if forward_query.len() == 0 {
        request_query
    } else {
        forward_query + merge_items(query_items(request_query), query_keys(forward_query))
    }
}

/// The queries on which merging a second time changes nothing. Where the
/// first merge has no trailing `&` to strip, these are all queries. Where it
/// strips one, the forward query must not be empty, and what is left must
/// either be empty together with the request query, or not end in `&` and
/// have a key for every item of the request query: stripping may have
/// taken away the empty item whose key the request query shares.
pub open spec fn merge_is_stable(forward_query: Seq<char>, request_query: Seq<char>) -> bool {
    let unstripped = merged_unstripped(forward_query, request_query);
    if !ends_in_amp(unstripped) {
        true
    } else if forward_query.len() == 0 {
        false
    } else {
        let merged = unstripped.drop_last();
        if merged.len() == 0 {
            request_query.len() == 0
        } else {
            !ends_in_amp(merged) && covers(merged, request_query)
        }
    }
}

/// The key and the value of a query item hold no character that the item
/// does not hold.
proof fn lemma_key_value_within(item: Seq<char>, c: char)
    requires
        forall|k: int| 0 <= k < item.len() ==> item[k] != c,
    ensures
        forall|k: int| 0 <= k < query_key(item).len() ==> query_key(item)[k] != c,
        forall|k: int| 0 <= k < query_value(item).len() ==> query_value(item)[k] != c,
{
    let i = position(item, '=');
    lemma_position(item, '=');
    if i < item.len() {
        let rest = item.skip(i + 1);
        let j = position(rest, '=');
        lemma_position(rest, '=');
        assert(query_key(item) == item.take(i));
        assert(split(item, '=')[1] == split(rest, '=')[0]);
        assert forall|k: int| 0 <= k < query_value(item).len() implies query_value(item)[k]
            != c by {
            assert(query_value(item)[k] == rest[k]);
            assert(rest[k] == item[k + i + 1]);
        }
    } else {
        assert(split(item, '=') == seq![item]);
    }
}

/// The key of the item `key=value` is `key`, where `key` holds no `=`.
proof fn lemma_key_of_pair(key: Seq<char>, value: Seq<char>)
    requires
        forall|k: int| 0 <= k < key.len() ==> key[k] != '=',
    ensures
        query_key(key + seq!['='] + value) == key,
{
    let pair = key + seq!['='] + value;
    assert forall|k: int| 0 <= k < key.len() implies pair[k] != '=' by {
        assert(pair[k] == key[k]);
    }
    assert(pair[key.len() as int] == '=');
    lemma_position_is(pair, '=', key.len() as int);
    assert(pair.take(key.len() as int) =~= key);
}

/// A query whose items begin with the items of another has every key that
/// the other has.
proof fn lemma_keys_kept(shorter: Seq<char>, longer: Seq<char>, key: Seq<char>)
    requires
        longer.len() > 0,
        split(shorter, '&').is_prefix_of(split(longer, '&')),
        has_key(shorter, key),
    ensures
        has_key(longer, key),
{
    let i = choose|i: int| 0 <= i < query_keys(shorter).len() && query_keys(shorter)[i] == key;
    assert(split(longer, '&')[i] == split(shorter, '&')[i]);
    assert(query_keys(longer)[i] == key);
}

/// What merging makes of a forward query has every key of the forward
/// query, and a key for every item that was merged in.
proof fn lemma_merged_has_keys(forward_query: Seq<char>, items: Seq<Seq<char>>)
    requires
        forward_query.len() > 0,
        forall|i: int, k: int|
            0 <= i < items.len() && 0 <= k < items[i].len() ==> #[trigger] items[i][k] != '&',
    ensures
        split(forward_query, '&').is_prefix_of(
            split(forward_query + merge_items(items, query_keys(forward_query)), '&'),
        ),
        forall|i: int|
            0 <= i < items.len() ==> has_key(
                forward_query + merge_items(items, query_keys(forward_query)),
                query_key(#[trigger] items[i]),
            ),
    decreases items.len(),
{
    let keys = query_keys(forward_query);
    let merged = forward_query + merge_items(items, keys);
    if items.len() == 0 {
        assert(merged =~= forward_query);
    } else {
        let front = items.drop_last();
        let item = items.last();
        let before = forward_query + merge_items(front, keys);
        assert forall|i: int, k: int|
            0 <= i < front.len() && 0 <= k < front[i].len() implies #[trigger] front[i][k]
            != '&' by {
            assert(front[i] == items[i]);
        }
        lemma_merged_has_keys(forward_query, front);
        if keys.contains(query_key(item)) {
            assert(merged == before);
            assert forall|i: int| 0 <= i < items.len() implies has_key(
                merged,
                query_key(#[trigger] items[i]),
            ) by {
                if i < front.len() {
                    assert(front[i] == items[i]);
                } else {
                    lemma_keys_kept(forward_query, merged, query_key(item));
                }
            }
        } else {
            let pair = query_key(item) + seq!['='] + query_value(item);
            assert(merged =~= before + seq!['&'] + pair);
            lemma_key_value_within(item, '&');
            assert forall|k: int| 0 <= k < pair.len() implies pair[k] != '&' by {
                if k < query_key(item).len() {
                    assert(pair[k] == query_key(item)[k]);
                } else if k > query_key(item).len() {
                    assert(pair[k] == query_value(item)[k - query_key(item).len() - 1]);
                }
            }
            lemma_split_none(pair, '&');
            lemma_split_joined(before, pair, '&');
            let pieces = split(before, '&');
            assert(split(merged, '&') == pieces + seq![pair]);
            assert(pieces.is_prefix_of(split(merged, '&'))) by {
                assert((pieces + seq![pair]).subrange(0, pieces.len() as int) =~= pieces);
            }
            assert(split(forward_query, '&').is_prefix_of(split(merged, '&'))) by {
                let first = split(forward_query, '&');
                assert(split(merged, '&').subrange(0, first.len() as int) =~= pieces.subrange(
                    0,
                    first.len() as int,
                ));
            }
            lemma_split_pieces(item, '=');
            lemma_key_of_pair(query_key(item), query_value(item));
            assert forall|i: int| 0 <= i < items.len() implies has_key(
                merged,
                query_key(#[trigger] items[i]),
            ) by {
                if i < front.len() {
                    assert(front[i] == items[i]);
                    lemma_keys_kept(before, merged, query_key(items[i]));
                } else {
                    assert(split(merged, '&')[pieces.len() as int] == pair);
                    assert(query_keys(merged)[pieces.len() as int] == query_key(item));
                }
            }
        }
    }
}

/// Merging appends nothing where the forward query has a key for every
/// item.
proof fn lemma_merge_appends_nothing(items: Seq<Seq<char>>, keys: Seq<Seq<char>>)
    requires
        forall|i: int| 0 <= i < items.len() ==> keys.contains(query_key(#[trigger] items[i])),
    ensures
        merge_items(items, keys) == Seq::<char>::empty(),
    decreases items.len(),
{
    if items.len() > 0 {
        let front = items.drop_last();
        assert forall|i: int| 0 <= i < front.len() implies keys.contains(
            query_key(#[trigger] front[i]),
        ) by {
            assert(front[i] == items[i]);
        }
        lemma_merge_appends_nothing(front, keys);
        assert(keys.contains(query_key(items[items.len() - 1])));
    }
}

/// Merging the same request query a second time changes nothing: the
/// merged query, merged again with the request query, is itself. This
/// holds of the queries on which merging is stable, which leaves out those
/// where the first merge strips a trailing `&` and so changes what the
/// second merge sees.
pub proof fn lemma_merge_idempotent(forward_query: Seq<char>, request_query: Seq<char>)
    requires
        merge_is_stable(forward_query, request_query),
    ensures
        merged_query(merged_query(forward_query, request_query), request_query) == merged_query(
            forward_query,
            request_query,
        ),
{
    let items = query_items(request_query);
    let unstripped = merged_unstripped(forward_query, request_query);
    let merged = merged_query(forward_query, request_query);
    lemma_split_pieces(request_query, '&');
    if !ends_in_amp(unstripped) {
        if forward_query.len() == 0 {
            assert(merged == request_query);
            if request_query.len() > 0 {
                assert forall|i: int| 0 <= i < items.len() implies query_keys(
                    request_query,
                ).contains(query_key(#[trigger] items[i])) by {
                    assert(query_keys(request_query)[i] == query_key(items[i]));
                }
                lemma_merge_appends_nothing(items, query_keys(request_query));
                assert(request_query + Seq::<char>::empty() =~= request_query);
            }
        } else {
            assert(merged == unstripped);
            lemma_merged_has_keys(forward_query, items);
            lemma_merge_appends_nothing(items, query_keys(merged));
            assert(merged + Seq::<char>::empty() =~= merged);
        }
    } else {
        assert(merged == unstripped.drop_last());
        if merged.len() > 0 {
            lemma_merge_appends_nothing(items, query_keys(merged));
            assert(merged + Seq::<char>::empty() =~= merged);
        }
    }
}

/// A text holds no `c`.
pub open spec fn lacks(s: Seq<char>, c: char) -> bool {
    forall|k: int| 0 <= k < s.len() ==> s[k] != c
}

/// What merging appends holds no character that is neither `&` nor `=` nor
/// held by one of the items.
proof fn lemma_merge_items_lack(items: Seq<Seq<char>>, keys: Seq<Seq<char>>, c: char)
    requires
        c != '&',
        c != '=',
        forall|i: int| 0 <= i < items.len() ==> lacks(#[trigger] items[i], c),
    ensures
        lacks(merge_items(items, keys), c),
    decreases items.len(),
{
    if items.len() > 0 {
        let front = items.drop_last();
        let item = items.last();
        assert forall|i: int| 0 <= i < front.len() implies lacks(#[trigger] front[i], c) by {
            assert(front[i] == items[i]);
        }
        lemma_merge_items_lack(front, keys, c);
        assert(lacks(items[items.len() - 1], c));
        lemma_key_value_within(item, c);
    }
}

/// The merged query holds no `?` where neither query holds one.
proof fn lemma_merged_lacks_mark(forward_query: Seq<char>, request_query: Seq<char>)
    requires
        lacks(forward_query, '?'),
        lacks(request_query, '?'),
    ensures
        lacks(merged_query(forward_query, request_query), '?'),
{
    let items = query_items(request_query);
    lemma_split_within(request_query, '&', '?');
    lemma_merge_items_lack(items, query_keys(forward_query), '?');
}

/// Forwarding the request for the root a second time, to the URI that the
/// first forwarding gave, gives that URI again: for a path that the
/// trimming of the slash takes back to the trimmed base, as the root `/`
/// is, for a request query without `?` on which merging is stable, and
/// where a `?` in the first URI has a query behind it.
///
/// A path of more than a slash stands twice in the second URI, and a
/// query that is empty behind its `?` is dropped with it.
pub proof fn lemma_forward_uri_idempotent(
    forward_url: Seq<char>,
    path: Seq<char>,
    query: Seq<char>,
)
    requires
        lacks(path, '?'),
        lacks(query, '?'),
        strip_one(strip_one(base_of(forward_url), '/') + path, '/') == strip_one(
            base_of(forward_url),
            '/',
        ),
        merge_is_stable(forward_query_of(forward_url), query),
        merged_query(forward_query_of(forward_url), query).len() > 0 || (forward_query_of(
            forward_url,
        ).len() == 0 && query.len() == 0),
    ensures
        forward_uri_spec(forward_uri_spec(forward_url, path, query), path, query)
            == forward_uri_spec(forward_url, path, query),
{
    let base = strip_one(base_of(forward_url), '/');
    let forward_query = forward_query_of(forward_url);
    let head = base + path;
    let merged = merged_query(forward_query, query);
    let first = forward_uri_spec(forward_url, path, query);
    lemma_split_pieces(forward_url, '?');
    assert(lacks(base_of(forward_url), '?'));
    assert(lacks(forward_query, '?')) by {
        if split(forward_url, '?').len() > 1 {
            assert(forward_query == split(forward_url, '?')[1]);
        }
    }
    assert(lacks(head, '?')) by {
        assert forall|k: int| 0 <= k < head.len() implies head[k] != '?' by {
            if k < base.len() {
                assert(head[k] == base_of(forward_url)[k]);
            } else {
                assert(head[k] == path[k - base.len()]);
            }
        }
    }
    lemma_split_none(head, '?');
    if forward_query.len() == 0 && query.len() == 0 {
        assert(first == head);
        assert(base_of(first) == head);
        assert(forward_query_of(first).len() == 0);
    } else {
        lemma_merged_lacks_mark(forward_query, query);
        lemma_split_none(merged, '?');
        lemma_split_joined(head, merged, '?');
        assert(first == head + seq!['?'] + merged);
        assert(split(first, '?') == seq![head] + seq![merged]);
        assert(base_of(first) == head);
        assert(forward_query_of(first) == merged);
        lemma_merge_idempotent(forward_query, query);
    }
}

/// Forwarding the request for the root `/` a second time, to the URI that
/// the first forwarding gave, gives that URI again: for a request query
/// without `?` on which merging is stable, and where a `?` in the first URI
/// has a query behind it. A request without a query is among these unless
/// the forward query ends in `&&` or is `&` alone.
pub proof fn lemma_forward_root_idempotent(forward_url: Seq<char>, query: Seq<char>)
    requires
        lacks(query, '?'),
        merge_is_stable(forward_query_of(forward_url), query),
        merged_query(forward_query_of(forward_url), query).len() > 0 || (forward_query_of(
            forward_url,
        ).len() == 0 && query.len() == 0),
    ensures
        forward_uri_spec(forward_uri_spec(forward_url, seq!['/'], query), seq!['/'], query)
            == forward_uri_spec(forward_url, seq!['/'], query),
{
    let base = strip_one(base_of(forward_url), '/');
    assert((base + seq!['/']).drop_last() =~= base);
    lemma_forward_uri_idempotent(forward_url, seq!['/'], query);
}

/// A request without a query adds nothing to the query of the forward URL:
/// the upstream URI ends in the forward URL's query, without one trailing
/// `&`, and has no `?` where the forward URL has no query.
pub proof fn lemma_no_request_query_adds_nothing(forward_url: Seq<char>, path: Seq<char>)
    ensures
        forward_uri_spec(forward_url, path, Seq::empty()) == if forward_query_of(forward_url).len()
            == 0 {
            strip_one(base_of(forward_url), '/') + path
        } else {
            strip_one(base_of(forward_url), '/') + path + seq!['?'] + strip_one(
                forward_query_of(forward_url),
                '&',
            )
        },
{
    let forward_query = forward_query_of(forward_url);
    assert(forward_query + Seq::<char>::empty() =~= forward_query);
}

} // verus!
