//! Which addresses of the web are fetched.
use vstd::prelude::*;
use crate::laws::texts::first_piece_is_split_off;
use crate::sources::SourceKind;
use crate::text::{decimal, digits_value, is_digit, split};
use crate::web::{converted_result, dotted_address, fetch_result, header_value, host_error, is_public_v4, is_public_v6, length_error, literal_address, lower_text, octet, page_result, parts_error, redirects, responses_result, selected, unbracketed, url_error, web_result, FetchModel, FetchStep, IpAddress, ResponseModel, WebSnapshotLimits};

verus! {

/// The number of an address that is written as four octets.
pub open spec fn address_of(a: int, b: int, c: int, d: int) -> u32 {
    (a * 0x100_0000 + b * 0x1_0000 + c * 0x100 + d) as u32
}

/// Which addresses of four octets are not public: 0/8, 10/8, 100.64/10, 127/8, 169.254/16,
/// 172.16/12, 192.168/16, 198.18/15, 224/4 and 255.255.255.255.
pub proof fn private_blocks_are_not_public(a: int, b: int, c: int, d: int)
    requires
        0 <= a <= 255 && 0 <= b <= 255 && 0 <= c <= 255 && 0 <= d <= 255,
    ensures
        !is_public_v4(address_of(a, b, c, d)) <==> (a == 0 || a == 10 || (a == 100 && 64 <= b <= 127)
            || a == 127 || (a == 169 && b == 254) || (a == 172 && 16 <= b <= 31) || (a == 192 && b
            == 168) || (a == 198 && (b == 18 || b == 19)) || 224 <= a <= 239 || (a == 255 && b == 255
            && c == 255 && d == 255)),
{
    let n = a * 0x100_0000 + b * 0x1_0000 + c * 0x100 + d;
    assert(0 <= n <= 0xffff_ffff);
    assert(address_of(a, b, c, d) == n);
}

/// An address of eight groups is not public where it is the unspecified or the loopback address, a
/// multicast, a unique local or a link-local one, or where it stands for an address of four octets
/// that is not public.
pub proof fn local_networks_are_not_public(a: u128)
    ensures
        a == 0 ==> !is_public_v6(a),
        a == 1 ==> !is_public_v6(a),
        a / 0x100_0000_0000_0000_0000_0000_0000_0000 == 0xff ==> !is_public_v6(a),
        a / 0x200_0000_0000_0000_0000_0000_0000_0000 == 0x7e ==> !is_public_v6(a),
        a / 0x40_0000_0000_0000_0000_0000_0000_0000 == 0x3fa ==> !is_public_v6(a),
        a / 0x1_0000_0000 == 0xffff && !is_public_v4((a - 0xffff_0000_0000) as u32)
            ==> !is_public_v6(a),
        a / 0x1_0000_0000 == 0 && !is_public_v4(a as u32) ==> !is_public_v6(a),
        a / 0x200_0000_0000_0000_0000_0000_0000_0000 == 0x10 ==> is_public_v6(a),
{
}

proof fn lemma_octet(n: int)
    requires
        0 <= n <= 255,
    ensures
        octet(decimal(n as nat)) == Some(n),
        !decimal(n as nat).contains('.'),
{
    reveal_with_fuel(decimal, 4);
    reveal_with_fuel(digits_value, 5);
    let s = decimal(n as nat);
    if n < 10 {
        assert(s.drop_last() =~= Seq::<char>::empty());
    } else if n < 100 {
        assert(s.drop_last() =~= decimal((n / 10) as nat));
        assert(s.drop_last().drop_last() =~= Seq::<char>::empty());
    } else {
        assert(s.drop_last() =~= decimal((n / 10) as nat));
        assert(s.drop_last().drop_last() =~= decimal((n / 100) as nat));
        assert(s.drop_last().drop_last().drop_last() =~= Seq::<char>::empty());
    }
    assert forall|i: int| 0 <= i < s.len() implies is_digit(#[trigger] s[i]) by {}
    if s.contains('.') {
        let i = choose|i: int| 0 <= i < s.len() && s[i] == '.';
        assert(is_digit(s[i]));
    }
}

/// A host that is written as four octets is that address: it is fetched from where the address is
/// public, and refused where it is not.
pub proof fn written_address_is_judged(a: int, b: int, c: int, d: int)
    requires
        0 <= a <= 255 && 0 <= b <= 255 && 0 <= c <= 255 && 0 <= d <= 255,
    ensures
        ({
            let dot = seq!['.'];
            let host = decimal(a as nat) + dot + decimal(b as nat) + dot + decimal(c as nat) + dot
                + decimal(d as nat);
            &&& dotted_address(host) == Some(address_of(a, b, c, d))
            &&& literal_address(host) == Some(IpAddress::V4(address_of(a, b, c, d)))
            &&& host_error(host) is None <==> is_public_v4(address_of(a, b, c, d))
        }),
{
    let dot = seq!['.'];
    let w = decimal(a as nat);
    let x = decimal(b as nat);
    let y = decimal(c as nat);
    let z = decimal(d as nat);
    lemma_octet(a);
    lemma_octet(b);
    lemma_octet(c);
    lemma_octet(d);
    let r2 = y + dot + z;
    let r1 = x + dot + r2;
    first_piece_is_split_off(w, '.', r1);
    first_piece_is_split_off(x, '.', r2);
    first_piece_is_split_off(y, '.', z);
    first_piece_is_split_off(z, '.', Seq::empty());
    let host = w + dot + x + dot + y + dot + z;
    assert(host =~= w + dot + r1);
    let parts = split(host, '.');
    assert(parts =~= seq![w, x, y, z]);
    assert(is_digit(w[0]));
    assert(host[0] == w[0]);
    assert(unbracketed(host) == host);
}

/// A page is fetched over HTTPS alone, from an address without a user or a password and with a host
/// that may be fetched from.
pub proof fn only_plain_https_is_fetched(
    text: Seq<char>,
    scheme: Seq<char>,
    user: Seq<char>,
    password: Option<Seq<char>>,
    host: Option<Seq<char>>,
)
    ensures
        parts_error((text, scheme, user, password, host)) is None <==> scheme == "https"@
            && user.len() == 0 && password is None && host is Some && host_error(host->Some_0)
            is None,
{
}

/// The answers that send a fetch elsewhere are 301, 302, 303, 307 and 308. Of the others only those
/// from 200 to 299 are accepted.
pub proof fn only_success_is_accepted(
    state: FetchModel,
    status: u16,
    location: Option<Seq<char>>,
    length: Option<Seq<char>>,
    limits: WebSnapshotLimits,
)
    ensures
        redirects(status) <==> (status == 301 || status == 302 || status == 303 || status == 307
            || status == 308),
        fetch_result(state, status, location, length, limits) matches Ok((next, FetchStep::Accept))
            ==> 200 <= status < 300 && next == state,
        fetch_result(state, status, location, length, limits) matches Ok((next, FetchStep::Follow))
            ==> (status == 301 || status == 302 || status == 303 || status == 307 || status == 308)
            && location is Some && state.chain.len() < limits.max_redirects && next.initial
            == state.initial && next.chain == state.chain.push(state.current) && next.current
            != state.current && !state.chain.contains(next.current),
{
    if let Ok((next, FetchStep::Follow)) = fetch_result(state, status, location, length, limits) {
        let seen = state.chain.push(state.current);
        assert(seen[state.chain.len() as int] == state.current);
        if state.chain.contains(next.current) {
            let i = choose|i: int| 0 <= i < state.chain.len() && state.chain[i] == next.current;
            assert(seen[i] == next.current);
        }
    }
}

/// A page that says it is longer than allowed is refused before it is read, and one that is longer
/// is refused once it was read.
pub proof fn long_pages_are_refused(n: u64, max_bytes: usize, state: FetchModel, body: Seq<u8>)
    requires
        n <= usize::MAX,
    ensures
        length_error(Some(decimal(n as nat)), max_bytes) is None <==> n <= max_bytes,
        body.len() > max_bytes ==> page_result(
            state,
            Seq::empty(),
            body,
            max_bytes,
            false,
            Ok(0u64),
        ) is Err,
{
    crate::laws::texts::written_number_is_read_back(n, Seq::empty());
}

/// A page that is kept secret is kept without a word of where it came from; any other is kept with
/// the address that was asked for, the one it came from and every one between them.
pub proof fn kept_page_names_its_origin(
    fetch: FetchModel,
    kept: Seq<(Seq<char>, Seq<char>)>,
    body: Seq<u8>,
    markdown: Seq<char>,
    secret: bool,
    seconds: u64,
)
    ensures
        converted_result(
            fetch,
            kept,
            body,
            Ok(markdown),
            secret,
            Ok(seconds),
        ) matches Ok(snapshot) && {
            &&& snapshot.kind == SourceKind::Web
            &&& snapshot.secret == secret
            &&& snapshot.raw_bytes == body
            &&& snapshot.content == markdown
            &&& secret ==> snapshot.web is None
            &&& !secret ==> (snapshot.web matches Some(web) && web.initial_url == fetch.initial
                && web.final_url == fetch.current && web.redirect_chain == fetch.chain.push(
                fetch.current,
            ) && web.selected_headers == kept && web.retrieved_unix_seconds == seconds)
        },
{
}

/// The value of a header is one that some header of that name has.
pub proof fn header_value_is_of_its_name(list: Seq<(Seq<char>, Seq<char>)>, name: Seq<char>)
    ensures
        header_value(list, name) matches Some(value) ==> list.contains((name, value)),
        header_value(list, name) is None ==> forall|i: int|
            0 <= i < list.len() ==> (#[trigger] list[i]).0 != name,
    decreases list.len(),
{
    if list.len() > 0 {
        let head = list.drop_last();
        header_value_is_of_its_name(head, name);
        if list.last().0 == name {
            assert(list[list.len() - 1] == (name, list.last().1));
        } else {
            if let Some(value) = header_value(head, name) {
                let i = choose|i: int| 0 <= i < head.len() && head[i] == (name, value);
                assert(list[i] == (name, value));
            } else {
                assert forall|i: int| 0 <= i < list.len() implies (#[trigger] list[i]).0 != name by {
                    if i < head.len() {
                        assert(head[i] == list[i]);
                    }
                }
            }
        }
    }
}

/// What is kept of the headers of a page is its type, its tag and its date, and nothing else.
pub proof fn three_headers_are_kept(list: Seq<(Seq<char>, Seq<char>)>, k: int)
    requires
        0 <= k < selected(list).len(),
    ensures
        selected(list)[k].0 == "content-type"@ || selected(list)[k].0 == "etag"@
            || selected(list)[k].0 == "last-modified"@,
        header_value(list, selected(list)[k].0) == Some(selected(list)[k].1),
        selected(list).len() <= 3,
        header_value(list, "content-type"@) is Some && header_value(list, "etag"@) is Some
            && header_value(list, "last-modified"@) is Some ==> selected(list).len() == 3,
{
}

/// Nothing is fetched from an address that may not be fetched from, and a page is kept only where an
/// answer ended the chain.
pub proof fn unsafe_address_is_not_fetched(
    url: Seq<char>,
    responses: Seq<ResponseModel>,
    limits: WebSnapshotLimits,
    secret: bool,
    clock: Result<u64, Seq<char>>,
)
    ensures
        url_error(url) is Some ==> web_result(url, responses, limits, secret, clock) is Err,
        responses.len() == 0 ==> web_result(url, responses, limits, secret, clock) is Err,
{
}

proof fn lemma_responses(
    fetch: FetchModel,
    responses: Seq<ResponseModel>,
    i: int,
    limits: WebSnapshotLimits,
    secret: bool,
    clock: Result<u64, Seq<char>>,
)
    requires
        0 <= i <= responses.len(),
        responses_result(fetch, responses, i, limits, secret, clock) is Ok,
    ensures
        exists|k: int|
            i <= k < responses.len() && 200 <= (#[trigger] responses[k]).status < 300
                && responses_result(fetch, responses, i, limits, secret, clock)->Ok_0.raw_bytes
                == responses[k].body && responses[k].body.len() <= limits.max_bytes,
        responses_result(fetch, responses, i, limits, secret, clock)->Ok_0.secret == secret,
    decreases responses.len() - i,
{
    if i < responses.len() {
        let response = responses[i];
        let step = fetch_result(
            fetch,
            response.status,
            header_value(response.headers, "location"@),
            header_value(response.headers, "content-length"@),
            limits,
        );
        match step {
            Err(error) => {},
            Ok((next, FetchStep::Follow)) => {
                lemma_responses(next, responses, i + 1, limits, secret, clock);
            },
            Ok((state, FetchStep::Accept)) => {
                assert(200 <= responses[i].status < 300);
            },
        }
    }
}

/// A page that is kept is the body of an answer that says it succeeded and is not too long.
pub proof fn kept_page_is_an_answer(
    url: Seq<char>,
    responses: Seq<ResponseModel>,
    limits: WebSnapshotLimits,
    secret: bool,
    clock: Result<u64, Seq<char>>,
)
    ensures
        web_result(url, responses, limits, secret, clock) matches Ok(snapshot) ==> snapshot.secret
            == secret && exists|k: int|
            0 <= k < responses.len() && 200 <= (#[trigger] responses[k]).status < 300
                && snapshot.raw_bytes == responses[k].body && responses[k].body.len()
                <= limits.max_bytes,
{
    if web_result(url, responses, limits, secret, clock) is Ok {
        let start = FetchModel {
            initial: crate::web::normal_url(url),
            current: crate::web::normal_url(url),
            chain: Seq::empty(),
        };
        lemma_responses(start, responses, 0, limits, secret, clock);
    }
}

/// The names of headers are compared without regard to the case of ASCII letters.
pub proof fn header_names_have_no_case(name: Seq<char>, i: int)
    requires
        0 <= i < name.len(),
    ensures
        lower_text(name).len() == name.len(),
        'A' <= name[i] && name[i] <= 'Z' ==> lower_text(name)[i] as u32 == name[i] as u32 + 32,
        !('A' <= name[i] && name[i] <= 'Z') ==> lower_text(name)[i] == name[i],
{
    if 'A' <= name[i] && name[i] <= 'Z' {
        let c: u32 = name[i] as u32;
        assert(65 <= c && c <= 90);
    }
}

/// A page within its length that is text is kept as its Markdown.
pub proof fn short_page_is_kept(
    state: FetchModel,
    kept: Seq<(Seq<char>, Seq<char>)>,
    body: Seq<u8>,
    max_bytes: usize,
    secret: bool,
    seconds: u64,
)
    requires
        body.len() <= max_bytes,
        vstd::utf8::valid_utf8(body),
    ensures
        crate::web::html_markdown(crate::text::text_of(body)) matches Ok(markdown) ==> (page_result(
            state,
            kept,
            body,
            max_bytes,
            secret,
            Ok(seconds),
        ) matches Ok(snapshot) && snapshot.content == markdown && snapshot.raw_bytes == body),
{
}

/// A fetch goes on to where it is sent, where that may be fetched from, was not visited, and the chain
/// is not too long.
pub proof fn safe_redirect_is_followed(
    state: FetchModel,
    status: u16,
    reference: Seq<char>,
    length: Option<Seq<char>>,
    limits: WebSnapshotLimits,
)
    requires
        status == 301 || status == 302 || status == 303 || status == 307 || status == 308,
        state.chain.len() < limits.max_redirects,
    ensures
        crate::web::url_joined(state.current, reference) matches Ok(next) ==> (url_error(next)
            is None && !state.chain.push(state.current).contains(crate::web::normal_url(next))
            ==> (fetch_result(state, status, Some(reference), length, limits) matches Ok((
            after,
            FetchStep::Follow,
        )) && after.current == crate::web::normal_url(next))),
{
}

} // verus!
