//! The header fields that pass through the proxy.

use axum::http::header::InvalidHeaderName;
use axum::http::{HeaderMap, HeaderName, HeaderValue};

use vstd::prelude::*;

use crate::text::{eq_ignore_ascii_case, same_ignoring_case};

verus! {

/// A header map of the `http` crate.
#[verifier::external_type_specification]
#[verifier::external_body]
#[verifier::reject_recursive_types(T)]
pub struct ExHeaderMap<T>(HeaderMap<T>);

/// The name of a header field.
#[verifier::external_type_specification]
#[verifier::external_body]
pub struct ExHeaderName(HeaderName);

/// The value of a header field.
#[verifier::external_type_specification]
#[verifier::external_body]
pub struct ExHeaderValue(HeaderValue);

/// What `HeaderName::from_bytes` returns for bytes that are no name.
#[verifier::external_type_specification]
#[verifier::external_body]
pub struct ExInvalidHeaderName(InvalidHeaderName);

/// What a header map holds: for each name its values, in order.
pub uninterp spec fn header_values(headers: HeaderMap<HeaderValue>) -> Map<
    Seq<char>,
    Seq<Seq<u8>>,
>;

/// The characters that a header name holds.
pub uninterp spec fn name_text(name: HeaderName) -> Seq<char>;

/// The bytes that a header value holds.
pub uninterp spec fn value_bytes(value: HeaderValue) -> Seq<u8>;

/// The most names with which a header map is sure to take one more.
pub const MAX_NAMES: usize = 6553;

/// The values that `fields` lists under `name`, in order.
pub open spec fn listed(fields: Seq<(HeaderName, HeaderValue)>, name: Seq<char>) -> Seq<Seq<u8>>
    decreases fields.len(),
{
    if fields.len() == 0 {
        Seq::empty()
    } else if name_text(fields.last().0) == name {
        listed(fields.drop_last(), name).push(value_bytes(fields.last().1))
    } else {
        listed(fields.drop_last(), name)
    }
}

/// Whether `fields` lists what `values` holds: under each of its names the values of that name, of
/// which there is at least one, and no other names.
pub open spec fn lists_all(
    fields: Seq<(HeaderName, HeaderValue)>,
    values: Map<Seq<char>, Seq<Seq<u8>>>,
) -> bool {
    forall|name: Seq<char>|
        if values.contains_key(name) {
            values[name].len() > 0 && #[trigger] listed(fields, name) == values[name]
        } else {
            listed(fields, name).len() == 0
        }
}

/// The contents of a header map without fields.
pub open spec fn no_fields() -> Map<Seq<char>, Seq<Seq<u8>>> {
    Map::empty()
}

/// `HeaderMap::new`: an empty map.
#[verifier::external_body]
fn empty_headers() -> (r: HeaderMap<HeaderValue>)
    ensures
        header_values(r) == no_fields(),
{
    HeaderMap::new()
}

/// `HeaderMap::iter`: every name with every one of its values, those of one name in their order. In
/// which order the names come is not said. A name that is in the map has at least one value.
#[verifier::external_body]
fn header_fields(headers: &HeaderMap<HeaderValue>) -> (r: Vec<(HeaderName, HeaderValue)>)
    ensures
        lists_all(r@, header_values(*headers)),
{
    headers.iter().map(|(name, value)| (name.clone(), value.clone())).collect()
}

/// `HeaderMap::insert`: the value takes the place of all that the name had. The call panics where
/// its table of at most 32768 slots would have to grow further: when three quarters of them are
/// taken or, after many collisions, a fifth. With at most `MAX_NAMES` names neither is so.
#[verifier::external_body]
fn insert_header(headers: &mut HeaderMap<HeaderValue>, name: &HeaderName, value: &HeaderValue)
    requires
        header_values(*old(headers)).dom().finite(),
        header_values(*old(headers)).dom().len() <= MAX_NAMES,
    ensures
        header_values(*final(headers)) == header_values(*old(headers)).insert(
            name_text(*name),
            seq![value_bytes(*value)],
        ),
{
    headers.insert(name.clone(), value.clone());
}

/// `HeaderMap::keys_len`: how many names there are.
#[verifier::external_body]
fn count_names(headers: &HeaderMap<HeaderValue>) -> (r: usize)
    ensures
        r == header_values(*headers).dom().len(),
{
    headers.keys_len()
}

/// `HeaderName::as_str`: the characters of the name.
#[verifier::external_body]
fn name_str(name: &HeaderName) -> (r: &str)
    ensures
        r@ == name_text(*name),
{
    name.as_str()
}

/// Whether a name holds neither of the two characters that a name can hold and `HeaderName::from_bytes`
/// does not take: the double quote, which `HeaderName::from_lowercase` takes, and NUL, which stands
/// in a long name for each character that was not valid in it.
pub open spec fn is_token(name: Seq<char>) -> bool {
    !name.contains('"') && !name.contains('\0')
}

/// `HeaderName::from_bytes` on the bytes of a name, which are in lower case already: the same name
/// again. Of the characters that a name can hold, the call takes all but the double quote and NUL.
#[verifier::external_body]
fn reread_name(name: &HeaderName) -> (r: Result<HeaderName, InvalidHeaderName>)
    ensures
        r is Ok <==> is_token(name_text(*name)),
        r matches Ok(again) ==> name_text(again) == name_text(*name),
{
    HeaderName::from_bytes(name.as_ref())
}

/// The fields of a request that stay with the proxy: the client's credentials, and what describes
/// the connection to the client or the length of its body, which may be rewritten.
pub open spec fn withheld(name: Seq<char>) -> bool {
    ||| same_ignoring_case(name, "authorization"@)
    ||| same_ignoring_case(name, "x-api-key"@)
    ||| same_ignoring_case(name, "host"@)
    ||| same_ignoring_case(name, "transfer-encoding"@)
    ||| same_ignoring_case(name, "content-length"@)
}

/// The fields that are forwarded upstream: all but the withheld ones, each with its last value.
pub open spec fn forwarded(fields: Map<Seq<char>, Seq<Seq<u8>>>) -> Map<Seq<char>, Seq<Seq<u8>>> {
    Map::new(
        |name: Seq<char>| fields.contains_key(name) && !withheld(name),
        |name: Seq<char>| seq![fields[name].last()],
    )
}

/// Whether a field of a response is passed on to the client.
pub open spec fn passed_on(name: Seq<char>) -> bool {
    !same_ignoring_case(name, "transfer-encoding"@) && is_token(name)
}

/// The fields of a response that are passed on, each with its last value.
pub open spec fn relayed(fields: Map<Seq<char>, Seq<Seq<u8>>>) -> Map<Seq<char>, Seq<Seq<u8>>> {
    Map::new(
        |name: Seq<char>| fields.contains_key(name) && passed_on(name),
        |name: Seq<char>| seq![fields[name].last()],
    )
}

/// Whether a field of a request stays with the proxy.
fn is_withheld(name: &str) -> (r: bool)
    ensures
        r == withheld(name@),
{
    eq_ignore_ascii_case(name, "authorization") || eq_ignore_ascii_case(name, "x-api-key")
        || eq_ignore_ascii_case(name, "host") || eq_ignore_ascii_case(name, "transfer-encoding")
        || eq_ignore_ascii_case(name, "content-length")
}

/// The names of a list of fields, in order.
spec fn field_names(fields: Seq<(HeaderName, HeaderValue)>) -> Seq<Seq<char>> {
    Seq::new(fields.len(), |i: int| name_text(fields[i].0))
}

/// Only a name in the list has values listed.
proof fn lemma_listed_name(fields: Seq<(HeaderName, HeaderValue)>, name: Seq<char>)
    requires
        listed(fields, name).len() > 0,
    ensures
        field_names(fields).contains(name),
    decreases fields.len(),
{
    let names = field_names(fields);
    if name_text(fields.last().0) == name {
        assert(names[names.len() - 1] == name);
    } else {
        lemma_listed_name(fields.drop_last(), name);
        let rest = field_names(fields.drop_last());
        let i = choose|i: int| 0 <= i < rest.len() && rest[i] == name;
        assert(names[i] == name);
    }
}

/// A map whose contents are listed has finitely many names.
proof fn lemma_finite(fields: Seq<(HeaderName, HeaderValue)>, values: Map<Seq<char>, Seq<Seq<u8>>>)
    requires
        lists_all(fields, values),
    ensures
        values.dom().finite(),
{
    let names = field_names(fields).to_set();
    assert forall|name: Seq<char>| values.dom().contains(name) implies names.contains(name) by {
        assert(listed(fields, name) == values[name]);
        lemma_listed_name(fields, name);
    }
    assert(values.dom().subset_of(names));
    vstd::set_lib::lemma_len_subset(values.dom(), names);
}

/// The fields that are among the first `n` of `fields` and that `kept` keeps, each with its last
/// value.
spec fn kept_so_far(
    fields: Seq<(HeaderName, HeaderValue)>,
    n: int,
    kept: spec_fn(Seq<char>) -> bool,
) -> Map<Seq<char>, Seq<Seq<u8>>> {
    Map::new(
        |name: Seq<char>| listed(fields.take(n), name).len() > 0 && kept(name),
        |name: Seq<char>| seq![listed(fields.take(n), name).last()],
    )
}

/// One more field is inserted, where it is kept.
proof fn lemma_kept_step(
    fields: Seq<(HeaderName, HeaderValue)>,
    n: int,
    kept: spec_fn(Seq<char>) -> bool,
)
    requires
        0 <= n < fields.len(),
    ensures
        kept_so_far(fields, n + 1, kept) == if kept(name_text(fields[n].0)) {
            kept_so_far(fields, n, kept).insert(
                name_text(fields[n].0),
                seq![value_bytes(fields[n].1)],
            )
        } else {
            kept_so_far(fields, n, kept)
        },
{
    assert(fields.take(n + 1).drop_last() == fields.take(n));
    assert(fields.take(n + 1).last() == fields[n]);
    let here = name_text(fields[n].0);
    assert forall|name: Seq<char>| name != here implies listed(fields.take(n + 1), name)
        == #[trigger] listed(fields.take(n), name) by {
    }
    assert(listed(fields.take(n + 1), here).last() == value_bytes(fields[n].1));
    let after = kept_so_far(fields, n + 1, kept);
    if kept(here) {
        assert(after =~= kept_so_far(fields, n, kept).insert(here, seq![value_bytes(fields[n].1)]));
    } else {
        assert(after =~= kept_so_far(fields, n, kept));
    }
}

/// What is kept so far has no names but those of the map.
proof fn lemma_kept_size(
    fields: Seq<(HeaderName, HeaderValue)>,
    n: int,
    kept: spec_fn(Seq<char>) -> bool,
    values: Map<Seq<char>, Seq<Seq<u8>>>,
)
    requires
        0 <= n <= fields.len(),
        lists_all(fields, values),
    ensures
        kept_so_far(fields, n, kept).dom().finite(),
        kept_so_far(fields, n, kept).dom().len() <= values.dom().len(),
{
    lemma_finite(fields, values);
    let some = kept_so_far(fields, n, kept).dom();
    assert forall|name: Seq<char>| some.contains(name) implies values.dom().contains(name) by {
        lemma_listed_grows(fields, n, name);
        if !values.contains_key(name) {
            assert(listed(fields, name).len() == 0);
        }
    }
    assert(some.subset_of(values.dom()));
    vstd::set_lib::lemma_len_subset(some, values.dom());
}

/// What is listed under a name does not become less.
proof fn lemma_listed_grows(fields: Seq<(HeaderName, HeaderValue)>, n: int, name: Seq<char>)
    requires
        0 <= n <= fields.len(),
    ensures
        listed(fields.take(n), name).len() <= listed(fields, name).len(),
    decreases fields.len(),
{
    if n < fields.len() {
        assert(fields.drop_last().take(n) == fields.take(n));
        lemma_listed_grows(fields.drop_last(), n, name);
    } else {
        assert(fields.take(n) == fields);
    }
}

/// The fields of a request that are forwarded upstream.
pub fn strip_auth_headers(headers: &HeaderMap<HeaderValue>) -> (r: HeaderMap<HeaderValue>)
    requires
        header_values(*headers).dom().len() <= MAX_NAMES,
    ensures
        header_values(r) == forwarded(header_values(*headers)),
{
    let fields = header_fields(headers);
    let mut out = empty_headers();
    let ghost values = header_values(*headers);
    let ghost kept = |name: Seq<char>| !withheld(name);
    let mut i: usize = 0;
    assert(kept_so_far(fields@, 0, kept) =~= no_fields());
    while i < fields.len()
        invariant
            i <= fields@.len(),
            values == header_values(*headers),
            values.dom().len() <= MAX_NAMES,
            lists_all(fields@, values),
            kept == (|name: Seq<char>| !withheld(name)),
            header_values(out) == kept_so_far(fields@, i as int, kept),
        decreases fields@.len() - i,
    {
        let (name, value) = &fields[i];
        proof {
            lemma_kept_step(fields@, i as int, kept);
            lemma_kept_size(fields@, i as int, kept, values);
        }
        if !is_withheld(name_str(name)) {
            insert_header(&mut out, name, value);
        }
        i = i + 1;
    }
    assert(fields@.take(i as int) == fields@);
    assert(header_values(out) =~= forwarded(values));
    out
}

/// The fields of a response that are passed on to the client.
pub fn relay_headers(headers: &HeaderMap<HeaderValue>) -> (r: HeaderMap<HeaderValue>)
    requires
        header_values(*headers).dom().len() <= MAX_NAMES,
    ensures
        header_values(r) == relayed(header_values(*headers)),
{
    let fields = header_fields(headers);
    let mut out = empty_headers();
    let ghost values = header_values(*headers);
    let ghost kept = |name: Seq<char>| passed_on(name);
    let mut i: usize = 0;
    assert(kept_so_far(fields@, 0, kept) =~= no_fields());
    while i < fields.len()
        invariant
            i <= fields@.len(),
            values == header_values(*headers),
            values.dom().len() <= MAX_NAMES,
            lists_all(fields@, values),
            kept == (|name: Seq<char>| passed_on(name)),
            header_values(out) == kept_so_far(fields@, i as int, kept),
        decreases fields@.len() - i,
    {
        let (name, value) = &fields[i];
        proof {
            lemma_kept_step(fields@, i as int, kept);
            lemma_kept_size(fields@, i as int, kept, values);
        }
        if !eq_ignore_ascii_case(name_str(name), "transfer-encoding") {
            if let Ok(again) = reread_name(name) {
                insert_header(&mut out, &again, value);
            }
        }
        i = i + 1;
    }
    assert(fields@.take(i as int) == fields@);
    assert(header_values(out) =~= relayed(values));
    out
}

/// The fields of a request that are forwarded upstream, or nothing where there are more names than
/// a header map is sure to hold.
pub fn checked_strip_auth_headers(headers: &HeaderMap<HeaderValue>) -> (r: Option<
    HeaderMap<HeaderValue>,
>)
    ensures
        r is Some <==> header_values(*headers).dom().len() <= MAX_NAMES,
        r matches Some(out) ==> header_values(out) == forwarded(header_values(*headers)),
{
    if count_names(headers) > MAX_NAMES {
        None
    } else {
        Some(strip_auth_headers(headers))
    }
}

/// The fields of a response that are passed on to the client, or nothing where there are more names
/// than a header map is sure to hold.
pub fn checked_relay_headers(headers: &HeaderMap<HeaderValue>) -> (r: Option<
    HeaderMap<HeaderValue>,
>)
    ensures
        r is Some <==> header_values(*headers).dom().len() <= MAX_NAMES,
        r matches Some(out) ==> header_values(out) == relayed(header_values(*headers)),
{
    if count_names(headers) > MAX_NAMES {
        None
    } else {
        Some(relay_headers(headers))
    }
}

/// The client's credentials never leave: whatever the request holds, no field that authenticates it
/// is forwarded, nor its host, encoding or length.
pub proof fn law_credentials_stay(fields: Map<Seq<char>, Seq<Seq<u8>>>, name: Seq<char>)
    requires
        same_ignoring_case(name, "authorization"@) || same_ignoring_case(name, "x-api-key"@)
            || same_ignoring_case(name, "host"@) || same_ignoring_case(name, "transfer-encoding"@)
            || same_ignoring_case(name, "content-length"@),
    ensures
        !forwarded(fields).contains_key(name),
{
}

/// Every other field is forwarded with its last value, and no field is made up.
pub proof fn law_other_fields_are_forwarded(fields: Map<Seq<char>, Seq<Seq<u8>>>, name: Seq<char>)
    requires
        !withheld(name),
    ensures
        forwarded(fields).contains_key(name) <==> fields.contains_key(name),
        fields.contains_key(name) ==> forwarded(fields)[name] == seq![fields[name].last()],
{
}

/// Whether two requests have the same fields but for the withheld ones.
pub open spec fn same_but_withheld(
    a: Map<Seq<char>, Seq<Seq<u8>>>,
    b: Map<Seq<char>, Seq<Seq<u8>>>,
) -> bool {
    forall|name: Seq<char>|
        !withheld(name) ==> (#[trigger] a.contains_key(name) <==> b.contains_key(name)) && (
        a.contains_key(name) ==> a[name] == b[name])
}

/// Requests that differ in withheld fields alone are forwarded alike.
pub proof fn law_withheld_fields_do_not_matter(
    a: Map<Seq<char>, Seq<Seq<u8>>>,
    b: Map<Seq<char>, Seq<Seq<u8>>>,
)
    requires
        same_but_withheld(a, b),
    ensures
        forwarded(a) == forwarded(b),
{
    assert forall|name: Seq<char>| forwarded(a).contains_key(name) <==> forwarded(b).contains_key(
        name,
    ) by {
        assert(a.contains_key(name) || !a.contains_key(name));
    }
    assert forall|name: Seq<char>| forwarded(a).contains_key(name) implies forwarded(a)[name]
        == forwarded(b)[name] by {
        assert(a.contains_key(name));
    }
    assert(forwarded(a) =~= forwarded(b));
}

/// Forwarding what was forwarded changes nothing more.
pub proof fn law_forwarding_is_idempotent(fields: Map<Seq<char>, Seq<Seq<u8>>>)
    ensures
        forwarded(forwarded(fields)) == forwarded(fields),
        relayed(relayed(fields)) == relayed(fields),
{
    assert(forwarded(forwarded(fields)) =~= forwarded(fields));
    assert(relayed(relayed(fields)) =~= relayed(fields));
}

/// A field whose name is, case aside, none of `authorization`, `x-api-key`, `host`,
/// `transfer-encoding` and `content-length` is forwarded exactly where the request has it, with its
/// last value; one whose name is one of these is not forwarded.
pub proof fn law_five_fields_are_withheld(fields: Map<Seq<char>, Seq<Seq<u8>>>, name: Seq<char>)
    ensures
        ({
            let withheld_name = same_ignoring_case(name, "authorization"@) || same_ignoring_case(
                name,
                "x-api-key"@,
            ) || same_ignoring_case(name, "host"@) || same_ignoring_case(
                name,
                "transfer-encoding"@,
            ) || same_ignoring_case(name, "content-length"@);
            &&& forwarded(fields).contains_key(name) <==> fields.contains_key(name)
                && !withheld_name
            &&& forwarded(fields).contains_key(name) ==> forwarded(fields)[name]
                == seq![fields[name][fields[name].len() - 1]]
        }),
{
}

/// A field of a response is passed on exactly where the response has it and its name is, case aside,
/// not `transfer-encoding` and holds neither a double quote nor NUL; it is passed on with its last
/// value.
pub proof fn law_one_field_is_not_relayed(fields: Map<Seq<char>, Seq<Seq<u8>>>, name: Seq<char>)
    ensures
        relayed(fields).contains_key(name) <==> fields.contains_key(name) && !same_ignoring_case(
            name,
            "transfer-encoding"@,
        ) && !name.contains('"') && !name.contains('\0'),
        relayed(fields).contains_key(name) ==> relayed(fields)[name]
            == seq![fields[name][fields[name].len() - 1]],
{
}

/// The number of names that a header map is sure to take is the greatest of which five times as many
/// are fewer than the 32768 slots of its table.
pub proof fn law_names_fit_the_table()
    ensures
        MAX_NAMES * 5 < 32768 <= (MAX_NAMES + 1) * 5,
{
}

} // verus!
