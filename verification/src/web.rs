//! Web sources: which URLs may be fetched and how responses become snapshots.
use vstd::prelude::*;
use vstd::string::StringExecFns;
use vstd::utf8::valid_utf8;
use crate::hash::{digest_text, sha256_bytes, sha256_text};
use crate::paths::{copy_bytes, eq_ignore_case, lower_ascii, ascii_lower, same_ignoring_case};
use crate::sources::{fail, headers, snapshot_of, Header, Snapshot, SnapshotModel, SourceError, SourceErrorKind, SourceFailure, SourceKind, WebModel, WebSnapshotMetadata};
use crate::text::{contains_text, decimal, decimal_text, decode, decoding_inverts_encoding, from_chars, opt_text, parse_size, parsed_u64, split, split_text, str_eq, text_of, texts, to_chars, utf8_error};

verus! {

/// An Internet address.
#[derive(Clone, Copy, Debug, PartialEq, Eq, Structural)]
pub enum IpAddress {
    /// A version 4 address as a number.
    V4(u32),
    /// A version 6 address as a number.
    V6(u128),
}

/// Version 4 addresses that are not private, loopback, link-local, broadcast, unspecified,
/// multicast, of this network, shared or for benchmarks.
pub open spec fn is_public_v4(a: u32) -> bool {
    &&& !(0x0a00_0000 <= a <= 0x0aff_ffff)
    &&& !(0xac10_0000 <= a <= 0xac1f_ffff)
    &&& !(0xc0a8_0000 <= a <= 0xc0a8_ffff)
    &&& !(0x7f00_0000 <= a <= 0x7fff_ffff)
    &&& !(0xa9fe_0000 <= a <= 0xa9fe_ffff)
    &&& a != 0xffff_ffff
    &&& !(0xe000_0000 <= a <= 0xefff_ffff)
    &&& !(a <= 0x00ff_ffff)
    &&& !(0x6440_0000 <= a <= 0x647f_ffff)
    &&& !(0xc612_0000 <= a <= 0xc613_ffff)
}

/// The version 4 address inside a compatible or mapped version 6 address.
pub open spec fn embedded_v4(a: u128) -> Option<u32> {
    if a <= 0xffff_ffff {
        Some(a as u32)
    } else if 0xffff_0000_0000 <= a <= 0xffff_ffff_ffff {
        Some((a - 0xffff_0000_0000) as u32)
    } else {
        None
    }
}

/// Version 6 addresses that are not loopback, unspecified, multicast, unique local or link-local,
/// and that embed no version 4 address that is not public.
pub open spec fn is_public_v6(a: u128) -> bool {
    &&& a != 1
    &&& a != 0
    &&& !(a >= 0xff00_0000_0000_0000_0000_0000_0000_0000)
    &&& !(0xfc00_0000_0000_0000_0000_0000_0000_0000 <= a
        <= 0xfdff_ffff_ffff_ffff_ffff_ffff_ffff_ffff)
    &&& !(0xfe80_0000_0000_0000_0000_0000_0000_0000 <= a
        <= 0xfebf_ffff_ffff_ffff_ffff_ffff_ffff_ffff)
    &&& embedded_v4(a) is Some ==> is_public_v4(embedded_v4(a)->Some_0)
}

/// Addresses that are publicly routable.
pub open spec fn is_public(address: IpAddress) -> bool {
    match address {
        IpAddress::V4(a) => is_public_v4(a),
        IpAddress::V6(a) => is_public_v6(a),
    }
}

fn public_v4(a: u32) -> (r: bool)
    ensures
        r == is_public_v4(a),
{
    !(0x0a00_0000 <= a && a <= 0x0aff_ffff) && !(0xac10_0000 <= a && a <= 0xac1f_ffff) && !(
    0xc0a8_0000 <= a && a <= 0xc0a8_ffff) && !(0x7f00_0000 <= a && a <= 0x7fff_ffff) && !(
    0xa9fe_0000 <= a && a <= 0xa9fe_ffff) && a != 0xffff_ffff && !(0xe000_0000 <= a && a
        <= 0xefff_ffff) && !(a <= 0x00ff_ffff) && !(0x6440_0000 <= a && a <= 0x647f_ffff) && !(
    0xc612_0000 <= a && a <= 0xc613_ffff)
}

/// Returns whether an address is publicly routable.
pub fn is_public_ip(address: IpAddress) -> (r: bool)
    ensures
        r == is_public(address),
{
    match address {
        IpAddress::V4(a) => public_v4(a),
        IpAddress::V6(a) => {
            let outside = a != 1 && a != 0 && !(a >= 0xff00_0000_0000_0000_0000_0000_0000_0000)
                && !(0xfc00_0000_0000_0000_0000_0000_0000_0000 <= a && a
                <= 0xfdff_ffff_ffff_ffff_ffff_ffff_ffff_ffff) && !(
            0xfe80_0000_0000_0000_0000_0000_0000_0000 <= a && a
                <= 0xfebf_ffff_ffff_ffff_ffff_ffff_ffff_ffff);
            let embedded = if a <= 0xffff_ffff {
                public_v4(a as u32)
            } else if 0xffff_0000_0000 <= a && a <= 0xffff_ffff_ffff {
                public_v4((a - 0xffff_0000_0000) as u32)
            } else {
                true
            };
            outside && embedded
        },
    }
}

/// Accepts the addresses of a host only where there are some and all are publicly routable.
pub fn validate_dns_addresses(addresses: &[IpAddress]) -> (r: Result<(), String>)
    ensures
        match r {
            Ok(()) => addresses@.len() > 0 && forall|i: int|
                0 <= i < addresses@.len() ==> is_public(#[trigger] addresses@[i]),
            Err(message) => message@ == "DNS result contains no exclusively public addresses"@ && (
            addresses@.len() == 0 || exists|i: int|
                0 <= i < addresses@.len() && !is_public(#[trigger] addresses@[i])),
        },
{
    if addresses.len() == 0 {
        return Err("DNS result contains no exclusively public addresses".to_owned());
    }
    let mut i: usize = 0;
    while i < addresses.len()
        invariant
            i <= addresses@.len(),
            forall|k: int| 0 <= k < i ==> is_public(#[trigger] addresses@[k]),
        decreases addresses@.len() - i,
    {
        if !is_public_ip(addresses[i]) {
            assert(!is_public(addresses@[i as int]));
            return Err("DNS result contains no exclusively public addresses".to_owned());
        }
        i += 1;
    }
    Ok(())
}

/// The value of one part of a dotted address: a number up to 255 without leading zeros.
pub open spec fn octet(part: Seq<char>) -> Option<int> {
    if 1 <= part.len() <= 3 && (part.len() == 1 || part[0] != '0') && (forall|i: int|
        0 <= i < part.len() ==> crate::text::is_digit(#[trigger] part[i])) && crate::text::digits_value(
        part,
    ) <= 255 {
        Some(crate::text::digits_value(part) as int)
    } else {
        None
    }
}

/// The version 4 address that a dotted text denotes.
pub open spec fn dotted_address(text: Seq<char>) -> Option<u32> {
    let parts = split(text, '.');
    if parts.len() != 4 {
        None
    } else {
        match (octet(parts[0]), octet(parts[1]), octet(parts[2]), octet(parts[3])) {
            (Some(a), Some(b), Some(c), Some(d)) => Some(
                (a * 0x100_0000 + b * 0x1_0000 + c * 0x100 + d) as u32,
            ),
            _ => None,
        }
    }
}

fn parse_octet(part: &str) -> (r: Option<u32>)
    ensures
        match r {
            Some(value) => octet(part@) == Some(value as int) && value <= 255,
            None => octet(part@) is None,
        },
{
    let chars = to_chars(part);
    let n: usize = chars.len();
    if n < 1 || n > 3 || (n > 1 && chars[0] == '0') {
        return None;
    }
    let mut value: u32 = 0;
    let mut i: usize = 0;
    while i < n
        invariant
            i <= n <= 3,
            n == chars@.len(),
            chars@ == part@,
            value == crate::text::digits_value(part@.take(i as int)),
            value < (if i == 0 {
                1int
            } else if i == 1 {
                10
            } else if i == 2 {
                100
            } else {
                1000
            }),
            forall|k: int| 0 <= k < i ==> crate::text::is_digit(#[trigger] part@[k]),
        decreases n - i,
    {
        let c = chars[i];
        if !('0' <= c && c <= '9') {
            assert(!crate::text::is_digit(part@[i as int]));
            return None;
        }
        assert(part@.take(i + 1).drop_last() =~= part@.take(i as int));
        value = value * 10 + (c as u32 - 48);
        i += 1;
    }
    assert(part@.take(n as int) =~= part@);
    if value <= 255 {
        Some(value)
    } else {
        None
    }
}

fn parse_dotted(text: &str) -> (r: Option<u32>)
    ensures
        r == dotted_address(text@),
{
    let parts = split_text(text, '.');
    let ghost s = split(text@, '.');
    assert(s == texts(parts@));
    if parts.len() != 4 {
        return None;
    }
    assert(s[0] == parts@[0]@ && s[1] == parts@[1]@ && s[2] == parts@[2]@ && s[3] == parts@[3]@);
    match (
        parse_octet(parts[0].as_str()),
        parse_octet(parts[1].as_str()),
        parse_octet(parts[2].as_str()),
        parse_octet(parts[3].as_str()),
    ) {
        (Some(a), Some(b), Some(c), Some(d)) => Some(
            a * 0x100_0000 + b * 0x1_0000 + c * 0x100 + d,
        ),
        _ => None,
    }
}

/// The value of a hexadecimal digit.
pub open spec fn hex_value(c: char) -> Option<int> {
    if '0' <= c && c <= '9' {
        Some(c as u32 - 48)
    } else if 'a' <= c && c <= 'f' {
        Some(c as u32 - 87)
    } else if 'A' <= c && c <= 'F' {
        Some(c as u32 - 55)
    } else {
        None
    }
}

/// The value of a group of one to four hexadecimal digits.
pub open spec fn group_value(part: Seq<char>) -> Option<int>
    decreases part.len(),
{
    if part.len() == 0 || part.len() > 4 {
        None
    } else if part.len() == 1 {
        hex_value(part[0])
    } else {
        match (group_value(part.drop_last()), hex_value(part.last())) {
            (Some(head), Some(digit)) => Some(head * 16 + digit),
            _ => None,
        }
    }
}

/// The values of groups, where all are valid.
pub open spec fn group_list(parts: Seq<Seq<char>>) -> Option<Seq<u32>>
    decreases parts.len(),
{
    if parts.len() == 0 {
        Some(Seq::empty())
    } else {
        match (group_list(parts.drop_last()), group_value(parts.last())) {
            (Some(head), Some(group)) => Some(head.push(group as u32)),
            _ => None,
        }
    }
}

/// The groups of one side of a compressed address; an empty side has none.
pub open spec fn side_groups(text: Seq<char>) -> Seq<Seq<char>> {
    if text.len() == 0 {
        Seq::empty()
    } else {
        split(text, ':')
    }
}

/// The number that group values stand for, most significant first.
pub open spec fn groups_number(groups: Seq<u32>) -> int
    decreases groups.len(),
{
    if groups.len() == 0 {
        0
    } else {
        groups_number(groups.drop_last()) * 0x1_0000 + groups.last()
    }
}

/// The first index at or after `i` of two colons in a row, or the length of the text.
pub open spec fn double_colon(text: Seq<char>, i: int) -> int
    decreases text.len() - i,
{
    if i < 0 || i + 1 >= text.len() {
        text.len() as int
    } else if text[i] == ':' && text[i + 1] == ':' {
        i
    } else {
        double_colon(text, i + 1)
    }
}

/// The eight groups that a version 6 address text denotes: written out, or at most seven around
/// `::`, which stands for the missing zeros.
pub open spec fn colon_groups(text: Seq<char>) -> Option<Seq<u32>> {
    let at = double_colon(text, 0);
    if at == text.len() {
        match group_list(split(text, ':')) {
            Some(groups) => if groups.len() == 8 {
                Some(groups)
            } else {
                None
            },
            None => None,
        }
    } else {
        match (group_list(side_groups(text.take(at))), group_list(side_groups(text.skip(at + 2)))) {
            (Some(head), Some(tail)) => if head.len() + tail.len() <= 7 {
                Some(head + Seq::new((8 - head.len() - tail.len()) as nat, |i: int| 0u32) + tail)
            } else {
                None
            },
            _ => None,
        }
    }
}

/// The address that a host text denotes, where it is one.
pub open spec fn literal_address(text: Seq<char>) -> Option<IpAddress> {
    match dotted_address(text) {
        Some(a) => Some(IpAddress::V4(a)),
        None => match colon_groups(text) {
            Some(groups) => Some(IpAddress::V6(groups_number(groups) as u128)),
            None => None,
        },
    }
}

fn parse_group(part: &str) -> (r: Option<u32>)
    ensures
        match r {
            Some(value) => group_value(part@) == Some(value as int) && value <= 0xffff,
            None => group_value(part@) is None,
        },
{
    let chars = to_chars(part);
    let n: usize = chars.len();
    if n < 1 || n > 4 {
        return None;
    }
    let mut value: u32 = 0;
    let mut i: usize = 0;
    while i < n
        invariant
            i <= n <= 4,
            n >= 1,
            n == chars@.len(),
            chars@ == part@,
            i > 0 ==> group_value(part@.take(i as int)) == Some(value as int),
            i == 0 ==> value == 0,
            value < (if i == 0 {
                1int
            } else if i == 1 {
                0x10
            } else if i == 2 {
                0x100
            } else if i == 3 {
                0x1000
            } else {
                0x1_0000
            }),
        decreases n - i,
    {
        let c = chars[i];
        let ghost t = part@.take(i + 1);
        assert(t.drop_last() =~= part@.take(i as int));
        assert(t.last() == c);
        let digit: u32 = if '0' <= c && c <= '9' {
            c as u32 - 48
        } else if 'a' <= c && c <= 'f' {
            c as u32 - 87
        } else if 'A' <= c && c <= 'F' {
            c as u32 - 55
        } else {
            proof {
                lemma_bad_group(part@, i as int);
            }
            return None;
        };
        value = value * 16 + digit;
        i += 1;
    }
    assert(part@.take(n as int) =~= part@);
    Some(value)
}

proof fn lemma_bad_group(part: Seq<char>, i: int)
    requires
        0 <= i < part.len(),
        hex_value(part[i]) is None,
    ensures
        group_value(part) is None,
    decreases part.len(),
{
    if part.len() <= 4 && part.len() > 1 && i < part.len() - 1 {
        lemma_bad_group(part.drop_last(), i);
    }
}

proof fn lemma_bad_groups(parts: Seq<Seq<char>>, i: int)
    requires
        0 <= i < parts.len(),
        group_value(parts[i]) is None,
    ensures
        group_list(parts) is None,
    decreases parts.len(),
{
    if i < parts.len() - 1 {
        lemma_bad_groups(parts.drop_last(), i);
    }
}

fn parse_groups(text: &str) -> (r: Option<Vec<u32>>)
    ensures
        match r {
            Some(groups) => group_list(split(text@, ':')) == Some(groups@) && forall|i: int|
                0 <= i < groups@.len() ==> #[trigger] groups@[i] <= 0xffff,
            None => group_list(split(text@, ':')) is None,
        },
{
    let parts = split_text(text, ':');
    let ghost s = split(text@, ':');
    assert(s == texts(parts@));
    let mut out: Vec<u32> = Vec::new();
    let mut i: usize = 0;
    while i < parts.len()
        invariant
            i <= parts@.len(),
            s == texts(parts@),
            s == split(text@, ':'),
            group_list(s.take(i as int)) == Some(out@),
            forall|k: int| 0 <= k < out@.len() ==> #[trigger] out@[k] <= 0xffff,
        decreases parts@.len() - i,
    {
        let ghost t = s.take(i + 1);
        assert(t.drop_last() =~= s.take(i as int));
        assert(t.last() == parts@[i as int]@);
        match parse_group(parts[i].as_str()) {
            Some(value) => {
                out.push(value);
            },
            None => {
                proof {
                    lemma_bad_groups(s, i as int);
                }
                return None;
            },
        }
        i += 1;
    }
    assert(s.take(parts@.len() as int) =~= s);
    Some(out)
}

fn parse_side(text: &str) -> (r: Option<Vec<u32>>)
    ensures
        match r {
            Some(groups) => group_list(side_groups(text@)) == Some(groups@) && forall|i: int|
                0 <= i < groups@.len() ==> #[trigger] groups@[i] <= 0xffff,
            None => group_list(side_groups(text@)) is None,
        },
{
    if text.is_empty() {
        let out: Vec<u32> = Vec::new();
        assert(out@ =~= Seq::<u32>::empty());
        Some(out)
    } else {
        parse_groups(text)
    }
}

fn combine(groups: &[u32]) -> (r: u128)
    requires
        groups@.len() == 8,
        forall|i: int| 0 <= i < groups@.len() ==> #[trigger] groups@[i] <= 0xffff,
    ensures
        r == groups_number(groups@),
{
    let mut value: u128 = 0;
    let mut i: usize = 0;
    while i < 8
        invariant
            i <= 8,
            groups@.len() == 8,
            forall|k: int| 0 <= k < groups@.len() ==> #[trigger] groups@[k] <= 0xffff,
            value == groups_number(groups@.take(i as int)),
            value <= (if i == 0 {
                0
            } else if i == 1 {
                0xffff
            } else if i == 2 {
                0xffff_ffff
            } else if i == 3 {
                0xffff_ffff_ffff
            } else if i == 4 {
                0xffff_ffff_ffff_ffff
            } else if i == 5 {
                0xffff_ffff_ffff_ffff_ffff
            } else if i == 6 {
                0xffff_ffff_ffff_ffff_ffff_ffff
            } else if i == 7 {
                0xffff_ffff_ffff_ffff_ffff_ffff_ffff
            } else {
                0xffff_ffff_ffff_ffff_ffff_ffff_ffff_ffffint
            }),
        decreases 8 - i,
    {
        assert(groups@.take(i + 1).drop_last() =~= groups@.take(i as int));
        assert(groups@[i as int] <= 0xffff);
        value = value * 0x1_0000 + groups[i] as u128;
        i += 1;
    }
    assert(groups@.take(8) =~= groups@);
    value
}

fn find_double_colon(chars: &[char]) -> (r: usize)
    ensures
        r == double_colon(chars@, 0),
        r == chars@.len() || r + 2 <= chars@.len(),
{
    let n: usize = chars.len();
    let mut i: usize = 0;
    while i < n && n - i >= 2
        invariant
            n == chars@.len(),
            i <= n,
            double_colon(chars@, 0) == double_colon(chars@, i as int),
        decreases n - i,
    {
        if chars[i] == ':' && chars[i + 1] == ':' {
            return i;
        }
        i += 1;
    }
    n
}

fn parse_colons(text: &str) -> (r: Option<u128>)
    ensures
        match r {
            Some(value) => colon_groups(text@) is Some && value == groups_number(
                colon_groups(text@)->Some_0,
            ),
            None => colon_groups(text@) is None,
        },
{
    let chars = to_chars(text);
    let n: usize = chars.len();
    let at: usize = find_double_colon(chars.as_slice());
    if at == n {
        return match parse_groups(text) {
            Some(groups) => if groups.len() == 8 {
                Some(combine(groups.as_slice()))
            } else {
                None
            },
            None => None,
        };
    }
    let left = from_chars(chars.as_slice(), 0, at);
    let right = from_chars(chars.as_slice(), at + 2, n);
    assert(left@ =~= text@.take(at as int));
    assert(right@ =~= text@.skip(at + 2));
    match (parse_side(left.as_str()), parse_side(right.as_str())) {
        (Some(head), Some(tail)) => {
            if head.len() > 7 || tail.len() > 7 - head.len() {
                return None;
            }
            let ghost h = head@;
            let ghost t = tail@;
            let ghost zeros: Seq<u32> = Seq::new((8 - h.len() - t.len()) as nat, |i: int| 0u32);
            let mut groups = head;
            let mut rest = tail;
            let missing: usize = 8 - rest.len();
            while groups.len() < missing
                invariant
                    h.len() <= groups@.len() <= missing <= 8,
                    missing == 8 - t.len(),
                    zeros == Seq::new((8 - h.len() - t.len()) as nat, |i: int| 0u32),
                    groups@ == h + zeros.take(groups@.len() - h.len()),
                    forall|i: int| 0 <= i < groups@.len() ==> #[trigger] groups@[i] <= 0xffff,
                decreases missing - groups@.len(),
            {
                groups.push(0);
                assert(groups@ =~= h + zeros.take(groups@.len() - h.len()));
            }
            assert(zeros.take(groups@.len() - h.len()) =~= zeros);
            groups.append(&mut rest);
            assert(groups@ =~= h + zeros + t);
            Some(combine(groups.as_slice()))
        },
        _ => None,
    }
}

fn parse_address(text: &str) -> (r: Option<IpAddress>)
    ensures
        r == literal_address(text@),
{
    match parse_dotted(text) {
        Some(a) => Some(IpAddress::V4(a)),
        None => match parse_colons(text) {
            Some(a) => Some(IpAddress::V6(a)),
            None => None,
        },
    }
}

/// The parts of a URL: its normal text, its scheme, its user name and password, and its host.
pub type UrlModel = (
    Seq<char>,
    Seq<char>,
    Seq<char>,
    Option<Seq<char>>,
    Option<Seq<char>>,
);

/// The parts of a URL that `reqwest::Url::parse` reads, or the message of the failure.
pub uninterp spec fn url_parts(text: Seq<char>) -> Result<
    (Seq<char>, Seq<char>, Seq<char>, Option<Seq<char>>, Option<Seq<char>>),
    Seq<char>,
>;

/// A parsed URL.
#[derive(Debug)]
pub struct UrlParts {
    /// Normal text.
    pub text: String,
    /// Scheme.
    pub scheme: String,
    /// User name; empty where there is none.
    pub username: String,
    /// Password.
    pub password: Option<String>,
    /// Host.
    pub host: Option<String>,
}

impl View for UrlParts {
    type V = UrlModel;

    open spec fn view(&self) -> UrlModel {
        (
            self.text@,
            self.scheme@,
            self.username@,
            opt_text(self.password),
            opt_text(self.host),
        )
    }
}

/// Calls `reqwest::Url::parse` and reads `as_str`, `scheme`, `username`, `password` and
/// `host_str`.
#[verifier::external_body]
fn parse_url(text: &str) -> (r: Result<UrlParts, String>)
    ensures
        url_parts(text@) == (match r {
            Ok(url) => Ok::<UrlModel, Seq<char>>(url@),
            Err(message) => Err(message@),
        }),
{
    let url = reqwest::Url::parse(text).map_err(|error| error.to_string())?;
    Ok(UrlParts {
        text: url.as_str().to_owned(),
        scheme: url.scheme().to_owned(),
        username: url.username().to_owned(),
        password: url.password().map(str::to_owned),
        host: url.host_str().map(str::to_owned),
    })
}

/// The normal text of the URL that `reqwest::Url::join` makes of a base and a reference, or the
/// message of the failure.
pub uninterp spec fn url_joined(base: Seq<char>, reference: Seq<char>) -> Result<
    Seq<char>,
    Seq<char>,
>;

/// Calls `reqwest::Url::join` on a parsed base.
#[verifier::external_body]
fn join_url(base: &str, reference: &str) -> (r: Result<String, String>)
    ensures
        url_joined(base@, reference@) == (match r {
            Ok(url) => Ok::<Seq<char>, Seq<char>>(url@),
            Err(message) => Err(message@),
        }),
{
    match reqwest::Url::parse(base).and_then(|url| url.join(reference)) {
        Ok(url) => Ok(url.as_str().to_owned()),
        Err(error) => Err(error.to_string()),
    }
}

/// A host without the brackets around a version 6 address.
pub open spec fn unbracketed(host: Seq<char>) -> Seq<char> {
    if host.len() >= 2 && host[0] == '[' && host.last() == ']' {
        host.subrange(1, host.len() - 1)
    } else {
        host
    }
}

/// Whether a host name is `localhost` or ends in `.localhost`, in any case.
pub open spec fn is_local_name(host: Seq<char>) -> bool {
    same_ignoring_case(host, "localhost"@) || (host.len() >= 10 && same_ignoring_case(
        host.skip(host.len() - 10),
        ".localhost"@,
    ))
}

/// The failure of a host that may not be fetched from.
pub open spec fn host_error(host: Seq<char>) -> Option<SourceFailure> {
    match literal_address(unbracketed(host)) {
        Some(address) => if is_public(address) {
            None
        } else {
            Some(
                (
                    SourceErrorKind::UnsafeUrl,
                    "web source IP address is not publicly routable"@,
                ),
            )
        },
        None => if host.len() > 0 && (host[0] == '[' || host.last() == ']') {
            Some((SourceErrorKind::UnsafeUrl, "web source IP address is invalid"@))
        } else if is_local_name(host) {
            Some((SourceErrorKind::UnsafeUrl, "web source host is not publicly routable"@))
        } else {
            None
        },
    }
}

fn validate_host(host: &str) -> (r: Result<(), SourceError>)
    ensures
        crate::sources::failure(r) == host_error(host@),
{
    let chars = to_chars(host);
    let n: usize = chars.len();
    let literal = if n >= 2 && chars[0] == '[' && chars[n - 1] == ']' {
        from_chars(chars.as_slice(), 1, n - 1)
    } else {
        host.to_owned()
    };
    match parse_address(literal.as_str()) {
        Some(address) => {
            if is_public_ip(address) {
                Ok(())
            } else {
                fail(
                    SourceErrorKind::UnsafeUrl,
                    "web source IP address is not publicly routable",
                )
            }
        },
        None => {
            if n > 0 && (chars[0] == '[' || chars[n - 1] == ']') {
                return fail(SourceErrorKind::UnsafeUrl, "web source IP address is invalid");
            }
            let tail_is_local = if n >= 10 {
                let tail = from_chars(chars.as_slice(), n - 10, n);
                assert(tail@ =~= host@.skip(n - 10));
                eq_ignore_case(tail.as_str(), ".localhost")
            } else {
                false
            };
            if eq_ignore_case(host, "localhost") || tail_is_local {
                fail(SourceErrorKind::UnsafeUrl, "web source host is not publicly routable")
            } else {
                Ok(())
            }
        },
    }
}

/// The failure of a parsed URL that may not be fetched, where there is one.
pub open spec fn parts_error(url: UrlModel) -> Option<SourceFailure> {
    if url.1 != "https"@ || url.2.len() > 0 || url.3 is Some {
        Some((SourceErrorKind::UnsafeUrl, "web sources require HTTPS without userinfo"@))
    } else {
        match url.4 {
            None => Some((SourceErrorKind::UnsafeUrl, "web source URL has no host"@)),
            Some(name) => host_error(name),
        }
    }
}

/// The failure of a URL that may not be fetched, where there is one.
pub open spec fn url_error(text: Seq<char>) -> Option<SourceFailure> {
    match url_parts(text) {
        Err(message) => Some(
            (SourceErrorKind::UnsafeUrl, "invalid web source URL: "@ + message),
        ),
        Ok(url) => parts_error(url),
    }
}

/// The normal text of a URL.
pub open spec fn normal_url(text: Seq<char>) -> Seq<char> {
    url_parts(text)->Ok_0.0
}

/// Returns the normal text of a parsed URL that may be fetched: HTTPS, without user information,
/// with a public host.
pub fn accept_url(url: UrlParts) -> (r: Result<String, SourceError>)
    ensures
        match r {
            Ok(text) => parts_error(url@) is None && text@ == url@.0,
            Err(error) => parts_error(url@) == Some(error@),
        },
{
    if !str_eq(url.scheme.as_str(), "https") || !url.username.as_str().is_empty()
        || url.password.is_some() {
        return fail(
            SourceErrorKind::UnsafeUrl,
            "web sources require HTTPS without userinfo",
        );
    }
    match &url.host {
        None => fail(SourceErrorKind::UnsafeUrl, "web source URL has no host"),
        Some(host) => match validate_host(host.as_str()) {
            Err(error) => Err(error),
            Ok(()) => Ok(url.text),
        },
    }
}

/// Returns the normal text of a URL that may be fetched.
pub fn validate_web_url(value: &str) -> (r: Result<String, SourceError>)
    ensures
        match r {
            Ok(url) => url_error(value@) is None && url@ == normal_url(value@),
            Err(error) => url_error(value@) == Some(error@),
        },
{
    match parse_url(value) {
        Err(message) => {
            let mut text = "invalid web source URL: ".to_owned();
            text.append(message.as_str());
            Err(SourceError::new(SourceErrorKind::UnsafeUrl, text))
        },
        Ok(url) => accept_url(url),
    }
}

/// Limits of a web snapshot.
#[derive(Clone, Debug, PartialEq, Eq, Structural)]
pub struct WebSnapshotLimits {
    /// Redirects that are followed at most.
    pub max_redirects: usize,
    /// Bytes of a body at most.
    pub max_bytes: usize,
}

impl Default for WebSnapshotLimits {
    fn default() -> (r: WebSnapshotLimits)
        ensures
            r.max_redirects == 5,
            r.max_bytes == 4 * 1024 * 1024,
    {
        WebSnapshotLimits { max_redirects: 5, max_bytes: 4 * 1024 * 1024 }
    }
}

/// A response of a web server.
pub struct WebResponse {
    /// Status code.
    pub status: u16,
    /// Headers with names in lower case.
    pub headers: Vec<Header>,
    body: Vec<u8>,
}

/// A response by the views of its fields.
pub struct ResponseModel {
    pub status: u16,
    pub headers: Seq<(Seq<char>, Seq<char>)>,
    pub body: Seq<u8>,
}

impl View for WebResponse {
    type V = ResponseModel;

    closed spec fn view(&self) -> ResponseModel {
        ResponseModel { status: self.status, headers: headers(self.headers@), body: self.body@ }
    }
}

/// A text with ASCII capitals replaced by small letters.
pub open spec fn lower_text(text: Seq<char>) -> Seq<char> {
    text.map_values(|c: char| ascii_lower(c))
}

fn lowered_text(text: &str) -> (r: String)
    ensures
        r@ == lower_text(text@),
{
    let chars = to_chars(text);
    let mut out = String::new();
    let mut i: usize = 0;
    while i < chars.len()
        invariant
            i <= chars@.len(),
            chars@ == text@,
            out@ == lower_text(text@).take(i as int),
        decreases chars@.len() - i,
    {
        out.push(lower_ascii(chars[i]));
        assert(lower_text(text@)[i as int] == ascii_lower(text@[i as int]));
        i += 1;
        assert(out@ =~= lower_text(text@).take(i as int));
    }
    assert(out@ =~= lower_text(text@));
    out
}

/// Headers with names in lower case.
pub open spec fn lower_headers(list: Seq<(Seq<char>, Seq<char>)>) -> Seq<(Seq<char>, Seq<char>)> {
    list.map_values(|header: (Seq<char>, Seq<char>)| (lower_text(header.0), header.1))
}

/// The value of a header: of several with the name, the last one.
pub open spec fn header_value(list: Seq<(Seq<char>, Seq<char>)>, name: Seq<char>) -> Option<
    Seq<char>,
>
    decreases list.len(),
{
    if list.len() == 0 {
        None
    } else if list.last().0 == name {
        Some(list.last().1)
    } else {
        header_value(list.drop_last(), name)
    }
}

fn find_header<'a>(list: &'a [Header], name: &str) -> (r: Option<&'a str>)
    ensures
        header_value(headers(list@), name@) == (match r {
            Some(value) => Some(value@),
            None => None,
        }),
{
    let ghost all = headers(list@);
    let mut i: usize = list.len();
    assert(all.take(i as int) =~= all);
    while i > 0
        invariant
            i <= list@.len(),
            all == headers(list@),
            header_value(all, name@) == header_value(all.take(i as int), name@),
        decreases i,
    {
        assert(all.take(i as int).last() == (list@[i - 1].name@, list@[i - 1].value@));
        assert(all.take(i as int).drop_last() =~= all.take(i - 1));
        if str_eq(list[i - 1].name.as_str(), name) {
            return Some(list[i - 1].value.as_str());
        }
        i -= 1;
    }
    None
}

impl WebResponse {
    /// Builds a redirect.
    pub fn redirect(location: String) -> (r: WebResponse)
        ensures
            r@.status == 302,
            r@.headers == seq![("location"@, location@)],
            r@.body.len() == 0,
    {
        let list = vec![Header { name: "location".to_owned(), value: location }];
        assert(headers(list@) =~= seq![("location"@, location@)]);
        WebResponse { status: 302, headers: list, body: Vec::new() }
    }

    /// Builds a response with a body; header names are brought to lower case.
    pub fn success(status: u16, list: Vec<Header>, body: Vec<u8>) -> (r: WebResponse)
        ensures
            r@.status == status,
            r@.headers == lower_headers(headers(list@)),
            r@.body == body@,
    {
        let ghost all = lower_headers(headers(list@));
        let mut lower: Vec<Header> = Vec::new();
        let mut i: usize = 0;
        while i < list.len()
            invariant
                i <= list@.len(),
                all == lower_headers(headers(list@)),
                lower@.len() == i,
                forall|k: int|
                    0 <= k < i ==> (#[trigger] lower@[k]).name@ == all[k].0 && lower@[k].value@
                        == all[k].1,
            decreases list@.len() - i,
        {
            assert(all[i as int] == (lower_text(list@[i as int].name@), list@[i as int].value@));
            lower.push(
                Header {
                    name: lowered_text(list[i].name.as_str()),
                    value: list[i].value.clone(),
                },
            );
            i += 1;
        }
        assert(headers(lower@) =~= all);
        WebResponse { status, headers: lower, body }
    }
}

/// Status codes that redirect.
pub open spec fn redirects(status: u16) -> bool {
    status == 301 || status == 302 || status == 303 || status == 307 || status == 308
}

/// Where a redirect leads, or the failure.
pub open spec fn redirect_result(current: Seq<char>, location: Option<Seq<char>>) -> Result<
    Seq<char>,
    SourceFailure,
> {
    match location {
        None => Err((SourceErrorKind::Redirect, "web redirect has no Location header"@)),
        Some(reference) => match url_joined(current, reference) {
            Err(message) => Err(
                (SourceErrorKind::Redirect, "invalid web redirect target: "@ + message),
            ),
            Ok(next) => match url_error(next) {
                Some(error) => Err(error),
                None => Ok(normal_url(next)),
            },
        },
    }
}

fn redirect_target(current: &str, location: Option<&str>) -> (r: Result<String, SourceError>)
    ensures
        redirect_result(
            current@,
            match location {
                Some(value) => Some(value@),
                None => None,
            },
        ) == (match r {
            Ok(next) => Ok::<Seq<char>, SourceFailure>(next@),
            Err(error) => Err(error@),
        }),
{
    match location {
        None => fail(SourceErrorKind::Redirect, "web redirect has no Location header"),
        Some(reference) => match join_url(current, reference) {
            Err(message) => {
                let mut text = "invalid web redirect target: ".to_owned();
                text.append(message.as_str());
                Err(SourceError::new(SourceErrorKind::Redirect, text))
            },
            Ok(next) => validate_web_url(next.as_str()),
        },
    }
}

/// The failure of an announced length, where there is one.
pub open spec fn length_error(value: Option<Seq<char>>, max_bytes: usize) -> Option<SourceFailure> {
    match value {
        None => None,
        Some(text) => match parsed_u64(text) {
            Some(length) => if length > usize::MAX {
                Some((SourceErrorKind::Network, "web snapshot has an invalid Content-Length"@))
            } else if length > max_bytes {
                Some(
                    (
                        SourceErrorKind::TooLarge,
                        "web snapshot Content-Length exceeds the configured limit"@,
                    ),
                )
            } else {
                None
            },
            None => Some(
                (SourceErrorKind::Network, "web snapshot has an invalid Content-Length"@),
            ),
        },
    }
}

fn check_content_length(value: Option<&str>, max_bytes: usize) -> (r: Result<(), SourceError>)
    ensures
        crate::sources::failure(r) == length_error(
            match value {
                Some(text) => Some(text@),
                None => None,
            },
            max_bytes,
        ),
{
    match value {
        None => Ok(()),
        Some(text) => match parse_size(text) {
            None => fail(
                SourceErrorKind::Network,
                "web snapshot has an invalid Content-Length",
            ),
            Some(length) => {
                if length > max_bytes {
                    fail(
                        SourceErrorKind::TooLarge,
                        "web snapshot Content-Length exceeds the configured limit",
                    )
                } else {
                    Ok(())
                }
            },
        },
    }
}

/// A chain of requests that leads to a web page.
pub struct WebFetch {
    initial: String,
    current: String,
    chain: Vec<String>,
}

/// The first URL, the URL of the next request and the URLs that redirected.
pub struct FetchModel {
    pub initial: Seq<char>,
    pub current: Seq<char>,
    pub chain: Seq<Seq<char>>,
}

impl View for WebFetch {
    type V = FetchModel;

    closed spec fn view(&self) -> FetchModel {
        FetchModel { initial: self.initial@, current: self.current@, chain: texts(self.chain@) }
    }
}

/// What a response means for a chain of requests.
#[derive(Clone, Copy, Debug, PartialEq, Eq, Structural)]
pub enum FetchStep {
    /// The next URL is requested.
    Follow,
    /// The response holds the page.
    Accept,
}

/// The URLs that were requested.
pub open spec fn visited(state: FetchModel) -> Seq<Seq<char>> {
    state.chain.push(state.current)
}

/// The state after a response and what it means, or the failure.
pub open spec fn fetch_result(
    state: FetchModel,
    status: u16,
    location: Option<Seq<char>>,
    length: Option<Seq<char>>,
    limits: WebSnapshotLimits,
) -> Result<(FetchModel, FetchStep), SourceFailure> {
    if redirects(status) {
        match redirect_result(state.current, location) {
            Err(error) => Err(error),
            Ok(next) => {
                if state.chain.len() + 1 > limits.max_redirects {
                    Err((SourceErrorKind::Redirect, "web redirect limit exceeded"@))
                } else if visited(state).contains(next) {
                    Err((SourceErrorKind::Redirect, "web redirect loop detected"@))
                } else {
                    Ok(
                        (
                            FetchModel {
                                initial: state.initial,
                                current: next,
                                chain: state.chain.push(state.current),
                            },
                            FetchStep::Follow,
                        ),
                    )
                }
            },
        }
    } else if !(200 <= status < 300) {
        Err(
            (
                SourceErrorKind::Network,
                "web snapshot returned HTTP "@ + decimal(status as nat),
            ),
        )
    } else {
        match length_error(length, limits.max_bytes) {
            Some(error) => Err(error),
            None => Ok((state, FetchStep::Accept)),
        }
    }
}

impl WebFetch {
    /// Starts a chain of requests at a URL that may be fetched.
    pub fn start(initial_url: &str) -> (r: Result<WebFetch, SourceError>)
        ensures
            match r {
                Ok(fetch) => url_error(initial_url@) is None && fetch@ == (FetchModel {
                    initial: normal_url(initial_url@),
                    current: normal_url(initial_url@),
                    chain: Seq::empty(),
                }),
                Err(error) => url_error(initial_url@) == Some(error@),
            },
    {
        match validate_web_url(initial_url) {
            Err(error) => Err(error),
            Ok(url) => {
                let fetch = WebFetch { initial: url.clone(), current: url, chain: Vec::new() };
                assert(texts(fetch.chain@) =~= Seq::<Seq<char>>::empty());
                Ok(fetch)
            },
        }
    }

    /// Returns the URL of the next request.
    pub fn current(&self) -> (r: &str)
        ensures
            r@ == self@.current,
    {
        self.current.as_str()
    }

    /// Takes in the head of a response.
    pub fn step(
        &mut self,
        status: u16,
        location: Option<&str>,
        length: Option<&str>,
        limits: &WebSnapshotLimits,
    ) -> (r: Result<FetchStep, SourceError>)
        ensures
            match r {
                Ok(step) => fetch_result(
                    old(self)@,
                    status,
                    match location {
                        Some(value) => Some(value@),
                        None => None,
                    },
                    match length {
                        Some(value) => Some(value@),
                        None => None,
                    },
                    *limits,
                ) == Ok::<(FetchModel, FetchStep), SourceFailure>((final(self)@, step)),
                Err(error) => fetch_result(
                    old(self)@,
                    status,
                    match location {
                        Some(value) => Some(value@),
                        None => None,
                    },
                    match length {
                        Some(value) => Some(value@),
                        None => None,
                    },
                    *limits,
                ) == Err::<(FetchModel, FetchStep), SourceFailure>(error@) && final(self)@ == old(
                    self,
                )@,
            },
    {
        if status == 301 || status == 302 || status == 303 || status == 307 || status == 308 {
            match redirect_target(self.current.as_str(), location) {
                Err(error) => Err(error),
                Ok(next) => {
                    if self.chain.len() >= limits.max_redirects {
                        return fail(SourceErrorKind::Redirect, "web redirect limit exceeded");
                    }
                    let ghost before = texts(self.chain@);
                    let seen = contains_text(self.chain.as_slice(), next.as_str()) || str_eq(
                        next.as_str(),
                        self.current.as_str(),
                    );
                    proof {
                        crate::text::lemma_has_text(self.chain@, next@);
                        let all = visited(self@);
                        assert(all[before.len() as int] == self@.current);
                        if before.contains(next@) {
                            let k = choose|k: int| 0 <= k < before.len() && before[k] == next@;
                            assert(all[k] == next@);
                        }
                    }
                    if seen {
                        return fail(SourceErrorKind::Redirect, "web redirect loop detected");
                    }
                    self.chain.push(self.current.clone());
                    self.current = next;
                    assert(texts(self.chain@) =~= before.push(old(self)@.current));
                    Ok(FetchStep::Follow)
                },
            }
        } else if !(200 <= status && status < 300) {
            let mut text = "web snapshot returned HTTP ".to_owned();
            text.append(decimal_text(status as u64).as_str());
            Err(SourceError::new(SourceErrorKind::Network, text))
        } else {
            match check_content_length(length, limits.max_bytes) {
                Err(error) => Err(error),
                Ok(()) => Ok(FetchStep::Accept),
            }
        }
    }
}

/// Accepts another part of a body as long as the whole stays within the limit.
pub fn accept_chunk(body_length: usize, chunk_length: usize, limits: &WebSnapshotLimits) -> (r:
    Result<(), SourceError>)
    ensures
        r is Ok == (body_length + chunk_length <= limits.max_bytes || (limits.max_bytes
            == usize::MAX)),
        r is Err ==> r->Err_0@ == (
            SourceErrorKind::TooLarge,
            "web snapshot body exceeds the configured limit"@,
        ),
{
    let total: usize = if chunk_length > usize::MAX - body_length {
        usize::MAX
    } else {
        body_length + chunk_length
    };
    if total > limits.max_bytes {
        fail(SourceErrorKind::TooLarge, "web snapshot body exceeds the configured limit")
    } else {
        Ok(())
    }
}

/// The Markdown that `htmd::convert` makes of HTML, or the message of the failure.
pub uninterp spec fn html_markdown(html: Seq<char>) -> Result<Seq<char>, Seq<char>>;

/// Calls `htmd::convert`.
#[verifier::external_body]
fn convert_html(html: &str) -> (r: Result<String, String>)
    ensures
        html_markdown(html@) == (match r {
            Ok(markdown) => Ok::<Seq<char>, Seq<char>>(markdown@),
            Err(message) => Err(message@),
        }),
{
    htmd::convert(html).map_err(|error| error.to_string())
}

/// Reads the clock with `SystemTime::now` and `duration_since`: seconds since the Unix epoch, or
/// the message of the failure.  Nothing is promised of the value.
#[verifier::external_body]
fn unix_seconds() -> (r: Result<u64, String>) {
    std::time::SystemTime::now()
        .duration_since(std::time::UNIX_EPOCH)
        .map(|elapsed| elapsed.as_secs())
        .map_err(|error| error.to_string())
}

/// The headers that web evidence keeps.
pub open spec fn selected(list: Seq<(Seq<char>, Seq<char>)>) -> Seq<(Seq<char>, Seq<char>)> {
    let kind = header_value(list, "content-type"@);
    let tag = header_value(list, "etag"@);
    let date = header_value(list, "last-modified"@);
    (match kind {
        Some(value) => seq![("content-type"@, value)],
        None => Seq::empty(),
    }) + (match tag {
        Some(value) => seq![("etag"@, value)],
        None => Seq::empty(),
    }) + (match date {
        Some(value) => seq![("last-modified"@, value)],
        None => Seq::empty(),
    })
}

/// Returns the headers that web evidence keeps.
pub fn selected_headers(list: &[Header]) -> (r: Vec<Header>)
    ensures
        headers(r@) == selected(headers(list@)),
{
    let mut out: Vec<Header> = Vec::new();
    match find_header(list, "content-type") {
        Some(value) => out.push(
            Header { name: "content-type".to_owned(), value: value.to_owned() },
        ),
        None => {},
    }
    match find_header(list, "etag") {
        Some(value) => out.push(Header { name: "etag".to_owned(), value: value.to_owned() }),
        None => {},
    }
    match find_header(list, "last-modified") {
        Some(value) => out.push(
            Header { name: "last-modified".to_owned(), value: value.to_owned() },
        ),
        None => {},
    }
    assert(headers(out@) =~= selected(headers(list@)));
    out
}

/// The time of a snapshot, or the message about a clock that cannot tell.
pub open spec fn clock_text(clock: Result<u64, String>) -> Result<u64, Seq<char>> {
    match clock {
        Ok(seconds) => Ok(seconds),
        Err(message) => Err(message@),
    }
}

/// The snapshot of a web page, or the failure.
pub open spec fn page_result(
    fetch: FetchModel,
    kept: Seq<(Seq<char>, Seq<char>)>,
    body: Seq<u8>,
    max_bytes: usize,
    secret: bool,
    clock: Result<u64, Seq<char>>,
) -> Result<SnapshotModel, SourceFailure> {
    if body.len() > max_bytes {
        Err((SourceErrorKind::TooLarge, "web snapshot body exceeds the configured limit"@))
    } else if !valid_utf8(body) {
        Err((SourceErrorKind::InvalidUtf8, "web snapshot is not UTF-8: "@ + utf8_error(body)))
    } else {
        converted_result(fetch, kept, body, html_markdown(text_of(body)), secret, clock)
    }
}

/// The snapshot of a web page whose HTML was converted to Markdown, or the failure.
pub open spec fn converted_result(
    fetch: FetchModel,
    kept: Seq<(Seq<char>, Seq<char>)>,
    body: Seq<u8>,
    converted: Result<Seq<char>, Seq<char>>,
    secret: bool,
    clock: Result<u64, Seq<char>>,
) -> Result<SnapshotModel, SourceFailure> {
    match converted {
        Err(message) => Err(
            (SourceErrorKind::Network, "failed to convert web snapshot to Markdown: "@ + message),
        ),
        Ok(markdown) => {
            if secret {
                Ok(snapshot_of(SourceKind::Web, body, markdown, true, None))
            } else {
                match clock {
                    Err(message) => Err(
                        (
                            SourceErrorKind::Network,
                            "system clock predates the Unix epoch: "@ + message,
                        ),
                    ),
                    Ok(seconds) => Ok(
                        snapshot_of(
                            SourceKind::Web,
                            body,
                            markdown,
                            false,
                            Some(
                                WebModel {
                                    initial_url: fetch.initial,
                                    final_url: fetch.current,
                                    redirect_chain: fetch.chain.push(fetch.current),
                                    selected_headers: kept,
                                    retrieved_unix_seconds: seconds,
                                    converter_version: "htmd-0.5"@,
                                    raw_sha256: digest_text(body),
                                    content_sha256: digest_text(crate::text::utf8(markdown)),
                                },
                            ),
                        ),
                    ),
                }
            }
        },
    }
}

/// A converted text, or the message of the failure, by views.
pub open spec fn converted_text(converted: Result<String, String>) -> Result<Seq<char>, Seq<char>> {
    match converted {
        Ok(markdown) => Ok(markdown@),
        Err(message) => Err(message@),
    }
}

/// A result that holds a snapshot, by its view.
pub open spec fn snapshot_view(r: Result<Snapshot, SourceError>) -> Result<
    SnapshotModel,
    SourceFailure,
> {
    match r {
        Ok(snapshot) => Ok(snapshot@),
        Err(error) => Err(error@),
    }
}

/// Takes the snapshot of a web page from the end of a chain of requests, the kept headers, the
/// body and the time.
pub fn finish_web_snapshot(
    fetch: WebFetch,
    kept: Vec<Header>,
    body: Vec<u8>,
    limits: &WebSnapshotLimits,
    secret: bool,
    clock: Result<u64, String>,
) -> (r: Result<Snapshot, SourceError>)
    ensures
        snapshot_view(r) == page_result(
            fetch@,
            headers(kept@),
            body@,
            limits.max_bytes,
            secret,
            clock_text(clock),
        ),
{
    if body.len() > limits.max_bytes {
        return fail(SourceErrorKind::TooLarge, "web snapshot body exceeds the configured limit");
    }
    let html = match decode(copy_bytes(body.as_slice())) {
        Err(message) => {
            let mut text = "web snapshot is not UTF-8: ".to_owned();
            text.append(message.as_str());
            return Err(SourceError::new(SourceErrorKind::InvalidUtf8, text));
        },
        Ok(html) => html,
    };
    proof {
        decoding_inverts_encoding(html@);
    }
    let converted = convert_html(html.as_str());
    record_web_snapshot(fetch, kept, body, converted, secret, clock)
}

/// Takes the snapshot of a web page whose HTML was converted to Markdown.
pub fn record_web_snapshot(
    fetch: WebFetch,
    kept: Vec<Header>,
    body: Vec<u8>,
    converted: Result<String, String>,
    secret: bool,
    clock: Result<u64, String>,
) -> (r: Result<Snapshot, SourceError>)
    ensures
        snapshot_view(r) == converted_result(
            fetch@,
            headers(kept@),
            body@,
            converted_text(converted),
            secret,
            clock_text(clock),
        ),
{
    let markdown = match converted {
        Err(message) => {
            let mut text = "failed to convert web snapshot to Markdown: ".to_owned();
            text.append(message.as_str());
            return Err(SourceError::new(SourceErrorKind::Network, text));
        },
        Ok(markdown) => markdown,
    };
    if secret {
        return Ok(Snapshot::from_content(SourceKind::Web, body, markdown, true, None));
    }
    match clock {
        Err(message) => {
            let mut text = "system clock predates the Unix epoch: ".to_owned();
            text.append(message.as_str());
            Err(SourceError::new(SourceErrorKind::Network, text))
        },
        Ok(seconds) => {
            let ghost before = texts(fetch.chain@);
            let mut redirect_chain = fetch.chain;
            redirect_chain.push(fetch.current.clone());
            assert(texts(redirect_chain@) =~= before.push(fetch.current@));
            let web = WebSnapshotMetadata {
                initial_url: fetch.initial,
                final_url: fetch.current,
                redirect_chain,
                selected_headers: kept,
                retrieved_unix_seconds: seconds,
                converter_version: "htmd-0.5".to_owned(),
                raw_sha256: sha256_bytes(body.as_slice()),
                content_sha256: sha256_text(markdown.as_str()),
            };
            Ok(Snapshot::from_content(SourceKind::Web, body, markdown, false, Some(web)))
        },
    }
}

/// The views of responses.
pub open spec fn response_models(items: Seq<WebResponse>) -> Seq<ResponseModel> {
    items.map_values(|item: WebResponse| item@)
}

/// The snapshot that responses from `i` on lead to, or the failure.
pub open spec fn responses_result(
    fetch: FetchModel,
    responses: Seq<ResponseModel>,
    i: int,
    limits: WebSnapshotLimits,
    secret: bool,
    clock: Result<u64, Seq<char>>,
) -> Result<SnapshotModel, SourceFailure>
    decreases responses.len() - i,
{
    if i < 0 || i >= responses.len() {
        Err(
            (
                SourceErrorKind::Network,
                "web snapshot response sequence ended before a final response"@,
            ),
        )
    } else {
        let response = responses[i];
        match fetch_result(
            fetch,
            response.status,
            header_value(response.headers, "location"@),
            header_value(response.headers, "content-length"@),
            limits,
        ) {
            Err(error) => Err(error),
            Ok((next, FetchStep::Follow)) => responses_result(
                next,
                responses,
                i + 1,
                limits,
                secret,
                clock,
            ),
            Ok((state, FetchStep::Accept)) => page_result(
                state,
                selected(response.headers),
                response.body,
                limits.max_bytes,
                secret,
                clock,
            ),
        }
    }
}

/// The snapshot of a URL that responses lead to, or the failure.
pub open spec fn web_result(
    initial_url: Seq<char>,
    responses: Seq<ResponseModel>,
    limits: WebSnapshotLimits,
    secret: bool,
    clock: Result<u64, Seq<char>>,
) -> Result<SnapshotModel, SourceFailure> {
    match url_error(initial_url) {
        Some(error) => Err(error),
        None => responses_result(
            FetchModel {
                initial: normal_url(initial_url),
                current: normal_url(initial_url),
                chain: Seq::empty(),
            },
            responses,
            0,
            limits,
            secret,
            clock,
        ),
    }
}

/// Takes the snapshot of a URL from recorded responses at a given time.
pub fn snapshot_web_at(
    initial_url: &str,
    responses: Vec<WebResponse>,
    limits: &WebSnapshotLimits,
    secret: bool,
    clock: Result<u64, String>,
) -> (r: Result<Snapshot, SourceError>)
    ensures
        snapshot_view(r) == web_result(
            initial_url@,
            response_models(responses@),
            *limits,
            secret,
            clock_text(clock),
        ),
{
    let mut fetch = match WebFetch::start(initial_url) {
        Err(error) => {
            return Err(error);
        },
        Ok(fetch) => fetch,
    };
    let ghost models = response_models(responses@);
    let ghost goal = responses_result(fetch@, models, 0, *limits, secret, clock_text(clock));
    let mut i: usize = 0;
    while i < responses.len()
        invariant
            i <= responses@.len(),
            models == response_models(responses@),
            url_error(initial_url@) is None,
            goal == web_result(
                initial_url@,
                models,
                *limits,
                secret,
                clock_text(clock),
            ),
            goal == responses_result(
                fetch@,
                models,
                i as int,
                *limits,
                secret,
                clock_text(clock),
            ),
        decreases responses@.len() - i,
    {
        let response = &responses[i];
        assert(models[i as int] == response@);
        let location = find_header(response.headers.as_slice(), "location");
        let length = find_header(response.headers.as_slice(), "content-length");
        match fetch.step(response.status, location, length, limits) {
            Err(error) => {
                return Err(error);
            },
            Ok(FetchStep::Follow) => {},
            Ok(FetchStep::Accept) => {
                let kept = selected_headers(response.headers.as_slice());
                let body = copy_bytes(response.body.as_slice());
                return finish_web_snapshot(fetch, kept, body, limits, secret, clock);
            },
        }
        i += 1;
    }
    fail(
        SourceErrorKind::Network,
        "web snapshot response sequence ended before a final response",
    )
}

/// Takes the snapshot of a URL from recorded responses.
pub fn snapshot_web_from_responses(
    initial_url: &str,
    responses: Vec<WebResponse>,
    limits: &WebSnapshotLimits,
    secret: bool,
) -> (r: Result<Snapshot, SourceError>)
    ensures
        exists|clock: Result<u64, Seq<char>>|
            snapshot_view(r) == #[trigger] web_result(
                initial_url@,
                response_models(responses@),
                *limits,
                secret,
                clock,
            ),
{
    let clock = unix_seconds();
    snapshot_web_at(initial_url, responses, limits, secret, clock)
}

/// A chain of requests that is followed never requests a URL twice and never grows beyond the
/// limit.
pub proof fn followed_chain_is_bounded(
    state: FetchModel,
    status: u16,
    location: Option<Seq<char>>,
    length: Option<Seq<char>>,
    limits: WebSnapshotLimits,
)
    requires
        fetch_result(state, status, location, length, limits) is Ok,
        fetch_result(state, status, location, length, limits)->Ok_0.1 == FetchStep::Follow,
        visited(state).no_duplicates(),
    ensures
        ({
            let next = fetch_result(state, status, location, length, limits)->Ok_0.0;
            visited(next).no_duplicates() && next.chain.len() <= limits.max_redirects
        }),
{
}

} // verus!
