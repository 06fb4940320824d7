//! The authority (`host:port`) and URL that a connection dials.

use vstd::prelude::*;
use crate::ipv6::{
    chars_of, is_ipv6_address, is_ipv6_literal, lemma_bracket_not_ipv6, lemma_ipv6_literal_shape,
    lemma_one_colon_not_ipv6,
};

verus! {

/// The port the Ubidium `TimingSystem` gRPC server listens on.
pub const DEFAULT_PORT: u16 = 443;

/// How a host, as a user writes it, relates to a port.
#[derive(PartialEq, Eq, Structural, Debug, Clone, Copy)]
pub enum HostShape {
    /// A host name, an IPv4 address or a bracketed `[IPv6]` address, with no
    /// port.
    NoPort,
    /// A host followed by `:port` (for a bracketed IPv6 address, anything
    /// after the `]`); also any other host holding a `:`, which is used as
    /// given.
    WithPort,
    /// A bare IPv6 address such as `fe80::1`.
    BareIpv6,
}

/// The character that separates a host from its port.
pub open spec fn port_separator() -> char {
    ':'
}

/// `host` is a bracketed address: it starts with `[` and ends with `]`.
pub open spec fn is_bracketed(host: Seq<char>) -> bool {
    host.len() > 0 && host[0] == '[' && host.last() == ']'
}

/// The shape of a host: a bracketed address (`[...]`) names no port, nor
/// does a bare IPv6 address; any other host names a port when it holds a `:`.
pub open spec fn spec_host_shape(host: Seq<char>) -> HostShape {
    if is_bracketed(host) {
        HostShape::NoPort
    } else if is_ipv6_literal(host) {
        HostShape::BareIpv6
    } else if host.contains(port_separator()) {
        HostShape::WithPort
    } else {
        HostShape::NoPort
    }
}

/// Whether `c` occurs in `v`.
fn contains_char(v: &Vec<char>, c: char) -> (res: bool)
    ensures
        res == v@.contains(c),
{
    let mut i: usize = 0;
    while i < v.len()
        invariant
            i <= v.len(),
            forall|j: int| 0 <= j < i ==> v@[j] != c,
        decreases v.len() - i,
    {
        if v[i] == c {
            return true;
        }
        i = i + 1;
    }
    false
}

/// The shape of `host`.
pub fn host_shape(host: &str) -> (res: HostShape)
    ensures
        res == spec_host_shape(host@),
{
    let v = chars_of(host);
    let n = v.len();
    if n > 0 && v[0] == '[' && v[n - 1] == ']' {
        HostShape::NoPort
    } else if is_ipv6_address(host) {
        HostShape::BareIpv6
    } else if contains_char(&v, ':') {
        HostShape::WithPort
    } else {
        HostShape::NoPort
    }
}

/// The decimal digit `d` (`0 <= d < 10`) as a character.
pub open spec fn digit_char(d: nat) -> char {
    seq!['0', '1', '2', '3', '4', '5', '6', '7', '8', '9'][d as int]
}

/// The value of a decimal digit character, or `None` for any other character.
pub open spec fn digit_value(c: char) -> Option<nat> {
    if '0' <= c && c <= '9' {
        Some((c as nat - '0' as nat) as nat)
    } else {
        None
    }
}

/// `n` written in decimal, most significant digit first, without leading zeros.
pub open spec fn decimal_text(n: nat) -> Seq<char>
    decreases n,
{
    if n < 10 {
        seq![digit_char(n)]
    } else {
        decimal_text(n / 10).push(digit_char(n % 10))
    }
}

/// The number that a string of decimal digits denotes (`None` when a character
/// is not a digit or the string is empty).
pub open spec fn decimal_value(text: Seq<char>) -> Option<nat>
    decreases text.len(),
{
    if text.len() == 0 {
        None
    } else {
        match digit_value(text.last()) {
            None => None,
            Some(d) => if text.len() == 1 {
                Some(d)
            } else {
                match decimal_value(text.drop_last()) {
                    None => None,
                    Some(v) => Some(v * 10 + d),
                }
            },
        }
    }
}

/// The one-character string of the digit `d`.
fn digit_str(d: u16) -> (s: &'static str)
    requires
        d < 10,
    ensures
        s@ == seq![digit_char(d as nat)],
{
    if d == 0 {
        proof { reveal_strlit("0"); }
        "0"
    } else if d == 1 {
        proof { reveal_strlit("1"); }
        "1"
    } else if d == 2 {
        proof { reveal_strlit("2"); }
        "2"
    } else if d == 3 {
        proof { reveal_strlit("3"); }
        "3"
    } else if d == 4 {
        proof { reveal_strlit("4"); }
        "4"
    } else if d == 5 {
        proof { reveal_strlit("5"); }
        "5"
    } else if d == 6 {
        proof { reveal_strlit("6"); }
        "6"
    } else if d == 7 {
        proof { reveal_strlit("7"); }
        "7"
    } else if d == 8 {
        proof { reveal_strlit("8"); }
        "8"
    } else {
        proof { reveal_strlit("9"); }
        "9"
    }
}

/// A port number written in decimal.
pub fn port_text(port: u16) -> (s: String)
    ensures
        s@ == decimal_text(port as nat),
    decreases port,
{
    let mut s = if port >= 10 {
        port_text(port / 10)
    } else {
        String::new()
    };
    s.append(digit_str(port % 10));
    s
}

/// The `host:port` authority that is dialled for `host`: `host` itself when it
/// names a port; `host` followed by `:` and [`DEFAULT_PORT`] when it does not;
/// and for a bare IPv6 address, the address in brackets followed by `:` and
/// [`DEFAULT_PORT`].
pub open spec fn spec_authority(host: Seq<char>) -> Seq<char> {
    match spec_host_shape(host) {
        HostShape::WithPort => host,
        HostShape::NoPort => host.push(port_separator()) + decimal_text(DEFAULT_PORT as nat),
        HostShape::BareIpv6 => (seq!['['] + host + seq![']', port_separator()]) + decimal_text(
            DEFAULT_PORT as nat,
        ),
    }
}

/// The scheme prefix of every endpoint URL.
pub open spec fn https_prefix() -> Seq<char> {
    seq!['h', 't', 't', 'p', 's', ':', '/', '/']
}

/// The URL that is dialled for `host`: `https://` followed by its authority.
pub open spec fn spec_endpoint_url(host: Seq<char>) -> Seq<char> {
    https_prefix() + spec_authority(host)
}

/// The authority to dial for `host`, which may be an IP or a host name,
/// optionally with a `:port` suffix; [`DEFAULT_PORT`] is added when it has none,
/// and a bare IPv6 address is put in brackets first.
pub fn authority(host: &str) -> (res: String)
    ensures
        res@ == spec_authority(host@),
        spec_host_shape(host@) == HostShape::WithPort ==> res@ == host@,
        spec_host_shape(host@) == HostShape::NoPort ==> res@ == host@ + seq![':', '4', '4', '3'],
        spec_host_shape(host@) == HostShape::BareIpv6 ==> res@ == seq!['['] + host@ + seq![
            ']',
            ':',
            '4',
            '4',
            '3',
        ],
{
    proof {
        lemma_default_port_text();
    }
    match host_shape(host) {
        HostShape::WithPort => String::from_str(host),
        HostShape::NoPort => {
            proof {
                reveal_strlit(":");
            }
            let mut res = String::from_str(host);
            res.append(":");
            let port = port_text(DEFAULT_PORT);
            res.append(port.as_str());
            res
        },
        HostShape::BareIpv6 => {
            proof {
                reveal_strlit("[");
                reveal_strlit("]:");
            }
            let mut res = String::from_str("[");
            res.append(host);
            res.append("]:");
            let port = port_text(DEFAULT_PORT);
            res.append(port.as_str());
            res
        },
    }
}

/// The `https://` URL of the endpoint for `host`.
pub fn endpoint_url(host: &str) -> (res: String)
    ensures
        res@ == spec_endpoint_url(host@),
{
    proof { reveal_strlit("https://"); }
    let mut res = String::from_str("https://");
    let auth = authority(host);
    res.append(auth.as_str());
    res
}


/// Every digit character denotes its digit.
pub proof fn lemma_digit_char_value(d: nat)
    requires
        d < 10,
    ensures
        digit_value(digit_char(d)) == Some(d),
{
    assert(digit_value('0') == Some(0nat));
    assert(digit_value('1') == Some(1nat));
    assert(digit_value('2') == Some(2nat));
    assert(digit_value('3') == Some(3nat));
    assert(digit_value('4') == Some(4nat));
    assert(digit_value('5') == Some(5nat));
    assert(digit_value('6') == Some(6nat));
    assert(digit_value('7') == Some(7nat));
    assert(digit_value('8') == Some(8nat));
    assert(digit_value('9') == Some(9nat));
}

/// Reading back the decimal text of a number gives the number.
pub proof fn lemma_decimal_text_round_trip(n: nat)
    ensures
        decimal_value(decimal_text(n)) == Some(n),
    decreases n,
{
    if n < 10 {
        lemma_digit_char_value(n);
        assert(decimal_text(n).drop_last().len() == 0);
    } else {
        lemma_decimal_text_round_trip(n / 10);
        lemma_digit_char_value(n % 10);
        let t = decimal_text(n);
        assert(t.drop_last() =~= decimal_text(n / 10));
        assert(t.last() == digit_char(n % 10));
    }
}

/// The decimal text of a number is non-empty and made of digits only.
pub proof fn lemma_decimal_text_digits(n: nat)
    ensures
        decimal_text(n).len() > 0,
        forall|i: int|
            0 <= i < decimal_text(n).len() ==> (#[trigger] digit_value(decimal_text(n)[i])) is Some,
    decreases n,
{
    if n < 10 {
        lemma_digit_char_value(n);
    } else {
        lemma_decimal_text_digits(n / 10);
        lemma_digit_char_value(n % 10);
        let t = decimal_text(n / 10);
        assert forall|i: int| 0 <= i < decimal_text(n).len() implies (#[trigger] digit_value(
            decimal_text(n)[i],
        )) is Some by {
            if i < t.len() {
                assert(decimal_text(n)[i] == t[i]);
            }
        }
    }
}

/// [`DEFAULT_PORT`] is written `443`.
pub proof fn lemma_default_port_text()
    ensures
        decimal_text(DEFAULT_PORT as nat) == seq!['4', '4', '3'],
        decimal_value(seq!['4', '4', '3']) == Some(DEFAULT_PORT as nat),
{
    reveal_with_fuel(decimal_text, 3);
    assert(decimal_text(443) =~= seq!['4', '4', '3']);
    lemma_decimal_text_round_trip(443);
}

/// A host without a port is dialled on port 443: its authority is the host
/// followed by `:443`, and the text after the `:` denotes [`DEFAULT_PORT`].
pub proof fn lemma_default_port_authority(host: Seq<char>)
    requires
        spec_host_shape(host) == HostShape::NoPort,
    ensures
        spec_authority(host) == host + seq![':', '4', '4', '3'],
        spec_authority(host).take(host.len() as int) == host,
        decimal_value(spec_authority(host).skip(host.len() as int + 1)) == Some(
            DEFAULT_PORT as nat,
        ),
{
    lemma_default_port_text();
    assert(spec_authority(host) =~= host + seq![':', '4', '4', '3']);
    assert(spec_authority(host).take(host.len() as int) =~= host);
    assert(spec_authority(host).skip(host.len() as int + 1) =~= seq!['4', '4', '3']);
}

/// A bare IPv6 address is dialled in brackets on port 443.
pub proof fn lemma_bare_ipv6_authority(host: Seq<char>)
    requires
        spec_host_shape(host) == HostShape::BareIpv6,
    ensures
        spec_authority(host) == seq!['['] + host + seq![']', ':', '4', '4', '3'],
        spec_authority(host).subrange(1, host.len() as int + 1) == host,
{
    lemma_default_port_text();
    assert(spec_authority(host) =~= seq!['['] + host + seq![']', ':', '4', '4', '3']);
    assert(spec_authority(host).subrange(1, host.len() as int + 1) =~= host);
}

/// A host that names its port is dialled exactly as given.
pub proof fn lemma_explicit_port_kept(host: Seq<char>)
    requires
        spec_host_shape(host) == HostShape::WithPort,
    ensures
        spec_authority(host) == host,
{
}

/// Every authority names a port.
pub proof fn lemma_authority_names_port(host: Seq<char>)
    ensures
        spec_host_shape(spec_authority(host)) == HostShape::WithPort,
{
    let a = spec_authority(host);
    let n = host.len() as int;
    lemma_default_port_text();
    match spec_host_shape(host) {
        HostShape::WithPort => {},
        HostShape::NoPort => {
            assert(a =~= host + seq![':', '4', '4', '3']);
            assert(a[n] == port_separator());
            assert(a.contains(port_separator()));
            if is_bracketed(host) {
                assert(a[0] == '[');
                assert(a.last() == '3');
                lemma_bracket_not_ipv6(a);
            } else {
                assert(!host.contains(port_separator()));
                assert forall|k: int| 0 <= k < a.len() && k != n implies a[k]
                    != port_separator() by {
                    if k < n {
                        assert(a[k] == host[k]);
                    }
                }
                lemma_one_colon_not_ipv6(a, n);
                assert(a.last() == '3');
            }
        },
        HostShape::BareIpv6 => {
            assert(a =~= seq!['['] + host + seq![']', ':', '4', '4', '3']);
            assert(a[0] == '[');
            assert(a[n + 1] == ']');
            assert(a.last() == '3');
            assert(a.contains(port_separator())) by {
                assert(a[n + 2] == port_separator());
            }
            lemma_bracket_not_ipv6(a);
        },
    }
}

/// A host without `:` names no port.
pub proof fn lemma_no_colon_no_port(host: Seq<char>)
    requires
        !host.contains(port_separator()),
    ensures
        spec_host_shape(host) == HostShape::NoPort,
{
    lemma_one_colon_not_ipv6(host, -1);
}

/// Which authority each kind of host gets, told by the host's own characters:
/// a host without `:`, or a bracketed address `[...]` alone, gets `:443`
/// added; a bare IPv6 address gets brackets and `:443`; any other host holding
/// a `:` (a host name or IPv4 address with its port, a bracketed address with
/// its port) is dialled exactly as given.
pub proof fn lemma_authority_by_host(host: Seq<char>)
    ensures
        !host.contains(':') ==> spec_authority(host) == host + seq![':', '4', '4', '3'],
        (host.len() > 0 && host[0] == '[' && host.last() == ']') ==> spec_authority(host) == host
            + seq![':', '4', '4', '3'],
        is_ipv6_literal(host) ==> spec_authority(host) == seq!['['] + host + seq![
            ']',
            ':',
            '4',
            '4',
            '3',
        ],
        (host.contains(':') && !(host.len() > 0 && host[0] == '[' && host.last() == ']')
            && !is_ipv6_literal(host)) ==> spec_authority(host) == host,
{
    lemma_default_port_text();
    if !host.contains(':') {
        lemma_no_colon_no_port(host);
        lemma_default_port_authority(host);
    }
    if host.len() > 0 && host[0] == '[' && host.last() == ']' {
        lemma_default_port_authority(host);
    }
    if is_ipv6_literal(host) {
        if host.len() > 0 && host[0] == '[' {
            lemma_bracket_not_ipv6(host);
        }
        lemma_bare_ipv6_authority(host);
    }
}

/// A host name or IPv4 address followed by `:port` (a `.` somewhere before a
/// `:`, and not a bracketed `[...]`) is dialled exactly as given.
pub proof fn lemma_dotted_host_with_port_kept(host: Seq<char>, i: int, j: int)
    requires
        0 <= i < j < host.len(),
        host[i] == '.',
        host[j] == ':',
        !(host[0] == '[' && host.last() == ']'),
    ensures
        spec_authority(host) == host,
{
    if is_ipv6_literal(host) {
        lemma_ipv6_literal_shape(host);
        assert(host[i] == '.' && host[j] != ':');
    }
    lemma_authority_by_host(host);
}

/// A bracketed IPv6 address followed by `:port` (it starts with `[`, holds a
/// `:` and does not end with `]`) is dialled exactly as given.
pub proof fn lemma_bracketed_with_port_kept(host: Seq<char>)
    requires
        host.len() > 0,
        host[0] == '[',
        host.last() != ']',
        host.contains(':'),
    ensures
        spec_authority(host) == host,
{
    lemma_bracket_not_ipv6(host);
    lemma_authority_by_host(host);
}

/// Making an authority out of an authority changes nothing.
pub proof fn lemma_authority_idempotent(host: Seq<char>)
    ensures
        spec_authority(spec_authority(host)) == spec_authority(host),
{
    lemma_authority_names_port(host);
}

/// A host without a port, and the same host followed by `:443`, are dialled
/// at the same authority and URL.
pub proof fn lemma_default_port_written_out(host: Seq<char>)
    requires
        spec_host_shape(host) == HostShape::NoPort,
    ensures
        spec_authority(host + seq![':', '4', '4', '3']) == spec_authority(host),
        spec_endpoint_url(host + seq![':', '4', '4', '3']) == spec_endpoint_url(host),
{
    lemma_default_port_authority(host);
    lemma_authority_idempotent(host);
}

/// Every endpoint URL is `https://` followed by the authority.
pub proof fn lemma_endpoint_url_shape(host: Seq<char>)
    ensures
        spec_endpoint_url(host).take(8) == https_prefix(),
        spec_endpoint_url(host).skip(8) == spec_authority(host),
{
    assert(spec_endpoint_url(host).take(8) =~= https_prefix());
    assert(spec_endpoint_url(host).skip(8) =~= spec_authority(host));
}

} // verus!
