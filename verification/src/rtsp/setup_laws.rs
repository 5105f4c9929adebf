//! What a server writes into the header fields of a SETUP response is what the client reads.

use vstd::prelude::*;

use crate::number::{
    decimal_spec, is_digit_spec, lemma_decimal, lemma_parse_decimal, parse_number_spec,
};
use crate::rtsp::headers::{lookup, Field};
use crate::rtsp::setup::{
    first_with_prefix, parse_port_range, parse_session, parse_setup, parse_transport, SetupError,
};
use crate::text::{find_spec, join_spec, split_spec, starts_with_spec, strip_prefixes_spec};
use crate::text_laws::{lemma_starts_with, lemma_strip_prefixes};
use crate::text_lemmas::{
    lemma_char_not_found, lemma_not_found, lemma_split_behind, lemma_split_join, occurs_at,
};

verus! {

/// The server_port parameter for a pair of ports.
pub open spec fn server_port_param(ports: (u16, u16)) -> Seq<char> {
    "server_port="@ + decimal_spec(ports.0 as int) + seq!['-'] + decimal_spec(ports.1 as int)
}

/// A number in decimal holds none of the characters that part it from what stands around it.
pub proof fn lemma_decimal_chars(n: int)
    requires
        n >= 0,
    ensures
        forall|i: int| 0 <= i < decimal_spec(n).len() ==> #[trigger] decimal_spec(n)[i] != '-',
        forall|i: int| 0 <= i < decimal_spec(n).len() ==> #[trigger] decimal_spec(n)[i] != ';',
        decimal_spec(n).len() > 0,
        decimal_spec(n)[0] != 's' && decimal_spec(n)[0] != 't',
{
    lemma_decimal(n);
    assert forall|i: int| 0 <= i < decimal_spec(n).len() implies #[trigger] decimal_spec(n)[i]
        != '-' && decimal_spec(n)[i] != ';' && decimal_spec(n)[i] != 's' && decimal_spec(n)[i]
        != 't' by {
        assert(is_digit_spec(decimal_spec(n)[i]));
    }
}

proof fn lemma_strip_one_prefix(prefix: Seq<char>, s: Seq<char>)
    requires
        prefix.len() > 0,
        s.len() > 0,
        s[0] != prefix[0],
    ensures
        starts_with_spec(prefix + s, prefix),
        strip_prefixes_spec(prefix + s, prefix) == s,
{
    assert((prefix + s).take(prefix.len() as int) =~= prefix);
    assert((prefix + s).skip(prefix.len() as int) =~= s);
    if starts_with_spec(s, prefix) {
        assert(s.take(prefix.len() as int)[0] == s[0]);
    }
    assert(strip_prefixes_spec(s, prefix) == s);
}

/// Two ports that are written as a range are read back.
pub proof fn lemma_port_range_round_trip(ports: (u16, u16))
    ensures
        parse_port_range(decimal_spec(ports.0 as int) + seq!['-'] + decimal_spec(ports.1 as int))
            == Ok::<_, SetupError>(ports),
{
    let a = decimal_spec(ports.0 as int);
    let b = decimal_spec(ports.1 as int);
    lemma_decimal_chars(ports.0 as int);
    lemma_decimal_chars(ports.1 as int);
    lemma_char_not_found(a, '-');
    lemma_char_not_found(b, '-');
    lemma_split_behind(a, seq!['-'], b);
    assert(split_spec(b, seq!['-']) =~= seq![b]);
    assert(split_spec(a + seq!['-'] + b, seq!['-']) =~= seq![a, b]);
    lemma_parse_decimal(ports.0 as int, u16::MAX as int);
    lemma_parse_decimal(ports.1 as int, u16::MAX as int);
}

proof fn lemma_first_with_prefix(
    before: Seq<Seq<char>>,
    param: Seq<char>,
    after: Seq<Seq<char>>,
    prefix: Seq<char>,
)
    requires
        starts_with_spec(param, prefix),
        forall|i: int|
            0 <= i < before.len() ==> !starts_with_spec(#[trigger] before[i], prefix),
    ensures
        first_with_prefix(before + seq![param] + after, prefix) == Some(param),
    decreases before.len(),
{
    let params = before + seq![param] + after;
    if before.len() > 0 {
        assert(params[0] == before[0]);
        assert(params.drop_first() =~= before.drop_first() + seq![param] + after);
        assert forall|i: int| 0 <= i < before.drop_first().len() implies !starts_with_spec(
            #[trigger] before.drop_first()[i],
            prefix,
        ) by {
            assert(before.drop_first()[i] == before[i + 1]);
        }
        lemma_first_with_prefix(before.drop_first(), param, after, prefix);
    } else {
        assert(params[0] == param);
    }
}

/// The ports of a server_port parameter are read back, whichever other parameters stand around
/// it.
pub proof fn lemma_transport_round_trip(
    before: Seq<Seq<char>>,
    ports: (u16, u16),
    after: Seq<Seq<char>>,
)
    requires
        forall|i: int|
            0 <= i < before.len() ==> find_spec(#[trigger] before[i], seq![';']) is None,
        forall|i: int| 0 <= i < after.len() ==> find_spec(#[trigger] after[i], seq![';']) is None,
        forall|i: int|
            0 <= i < before.len() ==> !starts_with_spec(#[trigger] before[i], "server_port="@),
    ensures
        parse_transport(
            join_spec(before + seq![server_port_param(ports)] + after, seq![';']),
        ) == Ok::<_, SetupError>(ports),
{
    let prefix = "server_port="@;
    let a = decimal_spec(ports.0 as int);
    let b = decimal_spec(ports.1 as int);
    let range = a + seq!['-'] + b;
    let param = server_port_param(ports);
    let params = before + seq![param] + after;
    reveal_strlit("server_port=");
    assert(prefix =~= seq!['s', 'e', 'r', 'v', 'e', 'r', '_', 'p', 'o', 'r', 't', '=']);
    assert(param =~= prefix + range);
    lemma_decimal_chars(ports.0 as int);
    lemma_decimal_chars(ports.1 as int);
    assert(range[0] == a[0]);
    lemma_strip_one_prefix(prefix, range);
    assert forall|i: int| 0 <= i < param.len() implies #[trigger] param[i] != ';' by {
        if i < prefix.len() {
            assert(param[i] == prefix[i]);
        } else {
            let k = i - prefix.len();
            assert(param[i] == range[k]);
            if k < a.len() {
                assert(range[k] == a[k]);
            } else if k > a.len() {
                assert(range[k] == b[k - a.len() - 1]);
            }
        }
    }
    lemma_char_not_found(param, ';');
    assert forall|i: int| 0 <= i < params.len() implies find_spec(
        #[trigger] params[i],
        seq![';'],
    ) is None by {
        if i < before.len() {
            assert(params[i] == before[i]);
        } else if i > before.len() {
            assert(params[i] == after[i - before.len() - 1]);
        }
    }
    lemma_split_join(params, seq![';']);
    lemma_first_with_prefix(before, param, after, prefix);
    lemma_port_range_round_trip(ports);
}

/// A session identifier is read back; without a timeout the default holds.
pub proof fn lemma_session_round_trip(id: u32)
    ensures
        parse_session(decimal_spec(id as int)) == Ok::<_, SetupError>((id, 60usize)),
{
    let s = decimal_spec(id as int);
    lemma_decimal_chars(id as int);
    lemma_char_not_found(s, ';');
    assert(split_spec(s, seq![';']) =~= seq![s]);
    lemma_parse_decimal(id as int, u32::MAX as int);
}

/// A session identifier and the timeout behind it are read back.
pub proof fn lemma_session_timeout_round_trip(id: u32, timeout: usize)
    ensures
        parse_session(
            decimal_spec(id as int) + seq![';'] + "timeout="@ + decimal_spec(timeout as int),
        ) == Ok::<_, SetupError>((id, timeout)),
{
    let a = decimal_spec(id as int);
    let t = decimal_spec(timeout as int);
    let param = "timeout="@ + t;
    reveal_strlit("timeout=");
    assert("timeout="@ =~= seq!['t', 'i', 'm', 'e', 'o', 'u', 't', '=']);
    lemma_decimal_chars(id as int);
    lemma_decimal_chars(timeout as int);
    lemma_char_not_found(a, ';');
    assert forall|i: int| 0 <= i < param.len() implies #[trigger] param[i] != ';' by {
        if i < 8 {
            assert(param[i] == "timeout="@[i]);
        } else {
            assert(param[i] == t[i - 8]);
        }
    }
    lemma_char_not_found(param, ';');
    assert(a + seq![';'] + "timeout="@ + t =~= a + seq![';'] + param);
    lemma_split_behind(a, seq![';'], param);
    assert(split_spec(param, seq![';']) =~= seq![param]);
    assert(split_spec(a + seq![';'] + param, seq![';']) =~= seq![a, param]);
    lemma_strip_one_prefix("timeout="@, t);
    lemma_parse_decimal(id as int, u32::MAX as int);
    lemma_parse_decimal(timeout as int, usize::MAX as int);
}

/// What the header fields of a SETUP response settle is what the server wrote into them.
pub proof fn lemma_setup_round_trip(
    headers: Seq<Field>,
    before: Seq<Seq<char>>,
    ports: (u16, u16),
    after: Seq<Seq<char>>,
    id: u32,
    timeout: usize,
)
    requires
        forall|i: int|
            0 <= i < before.len() ==> find_spec(#[trigger] before[i], seq![';']) is None,
        forall|i: int| 0 <= i < after.len() ==> find_spec(#[trigger] after[i], seq![';']) is None,
        forall|i: int|
            0 <= i < before.len() ==> !starts_with_spec(#[trigger] before[i], "server_port="@),
        lookup(headers, "Transport"@) == Some(
            join_spec(before + seq![server_port_param(ports)] + after, seq![';']),
        ),
        lookup(headers, "Session"@) == Some(
            decimal_spec(id as int) + seq![';'] + "timeout="@ + decimal_spec(timeout as int),
        ),
    ensures
        parse_setup(headers) == Ok::<_, SetupError>((ports, (id, timeout))),
{
    lemma_transport_round_trip(before, ports, after);
    lemma_session_timeout_round_trip(id, timeout);
}

/// The same without a timeout: the session has a minute.
pub proof fn lemma_setup_round_trip_without_timeout(
    headers: Seq<Field>,
    before: Seq<Seq<char>>,
    ports: (u16, u16),
    after: Seq<Seq<char>>,
    id: u32,
)
    requires
        forall|i: int|
            0 <= i < before.len() ==> find_spec(#[trigger] before[i], seq![';']) is None,
        forall|i: int| 0 <= i < after.len() ==> find_spec(#[trigger] after[i], seq![';']) is None,
        forall|i: int|
            0 <= i < before.len() ==> !starts_with_spec(#[trigger] before[i], "server_port="@),
        lookup(headers, "Transport"@) == Some(
            join_spec(before + seq![server_port_param(ports)] + after, seq![';']),
        ),
        lookup(headers, "Session"@) == Some(decimal_spec(id as int)),
    ensures
        parse_setup(headers) == Ok::<_, SetupError>((ports, (id, 60usize))),
{
    lemma_transport_round_trip(before, ports, after);
    lemma_session_round_trip(id);
}

/// What a SETUP response settles is what its Transport header and its Session header read as, each
/// by itself. The Transport header's error comes before the Session header's.
pub proof fn lemma_setup_is_read(headers: Seq<Field>)
    ensures
        match (lookup(headers, "Transport"@), lookup(headers, "Session"@)) {
            (None, _) => parse_setup(headers) == Err::<((u16, u16), (u32, usize)), _>(
                SetupError::NoTransport,
            ),
            (Some(transport), session) => match parse_transport(transport) {
                Err(error) => parse_setup(headers) == Err::<((u16, u16), (u32, usize)), _>(error),
                Ok(ports) => match session {
                    None => parse_setup(headers) == Err::<((u16, u16), (u32, usize)), _>(
                        SetupError::NoSession,
                    ),
                    Some(session) => match parse_session(session) {
                        Err(error) => parse_setup(headers) == Err::<
                            ((u16, u16), (u32, usize)),
                            _,
                        >(error),
                        Ok(session) => parse_setup(headers) == Ok::<_, SetupError>(
                            (ports, session),
                        ),
                    },
                },
            },
        },
{
}

/// A Session header is its first parameter, the identifier, and its second, the timeout, with or
/// without a name in front; what follows makes no difference. Without an identifier it is an
/// error; without a timeout, or with one that is no number, the session has a minute.
pub proof fn lemma_session_is_read(id: Seq<char>, timeout: Seq<char>, rest: Seq<char>)
    requires
        find_spec(id, seq![';']) is None,
        find_spec(timeout, seq![';']) is None,
    ensures
        ({
            let minute = 60usize;
            let value = strip_prefixes_spec(timeout, "timeout="@);
            let stated = match parse_number_spec(value, usize::MAX as int) {
                Some(n) => n as usize,
                None => minute,
            };
            let bare = id + seq![';'] + timeout;
            let named = id + seq![';'] + ("timeout="@ + timeout);
            match parse_number_spec(id, 0xffff_ffff) {
                None => {
                    &&& parse_session(id) == Err::<(u32, usize), _>(SetupError::InvalidSessionId)
                    &&& parse_session(bare) == Err::<(u32, usize), _>(SetupError::InvalidSessionId)
                    &&& parse_session(bare + seq![';'] + rest) == Err::<(u32, usize), _>(
                        SetupError::InvalidSessionId,
                    )
                },
                Some(number) => {
                    &&& parse_session(id) == Ok::<_, SetupError>((number as u32, minute))
                    &&& parse_session(bare) == Ok::<_, SetupError>((number as u32, stated))
                    &&& parse_session(named) == Ok::<_, SetupError>((number as u32, stated))
                    &&& parse_session(bare + seq![';'] + rest) == Ok::<_, SetupError>(
                        (number as u32, stated),
                    )
                    &&& parse_session(named + seq![';'] + rest) == Ok::<_, SetupError>(
                        (number as u32, stated),
                    )
                },
            }
        }),
{
    let semicolon = seq![';'];
    let word = "timeout="@;
    let param = word + timeout;
    let bare = id + semicolon + timeout;
    let named = id + semicolon + param;
    reveal_strlit("timeout=");
    assert(word =~= seq!['t', 'i', 'm', 'e', 'o', 'u', 't', '=']);
    assert(split_spec(id, semicolon) =~= seq![id]);
    lemma_char_found(timeout, ';');
    assert forall|i: int| 0 <= i < param.len() implies #[trigger] param[i] != ';' by {
        if i < 8 {
            assert(param[i] == word[i]);
        } else {
            assert(param[i] == timeout[i - 8]);
        }
    }
    lemma_char_not_found(param, ';');
    lemma_split_behind(id, semicolon, timeout);
    lemma_split_behind(id, semicolon, param);
    assert(split_spec(timeout, semicolon) =~= seq![timeout]);
    assert(split_spec(param, semicolon) =~= seq![param]);
    assert(split_spec(bare, semicolon) =~= seq![id, timeout]);
    assert(split_spec(named, semicolon) =~= seq![id, param]);
    assert(bare + semicolon + rest =~= id + semicolon + (timeout + semicolon + rest));
    assert(named + semicolon + rest =~= id + semicolon + (param + semicolon + rest));
    lemma_split_behind(timeout, semicolon, rest);
    lemma_split_behind(param, semicolon, rest);
    lemma_split_behind(id, semicolon, timeout + semicolon + rest);
    lemma_split_behind(id, semicolon, param + semicolon + rest);
    assert(split_spec(bare + semicolon + rest, semicolon) =~= seq![id, timeout] + split_spec(
        rest,
        semicolon,
    ));
    assert(split_spec(named + semicolon + rest, semicolon) =~= seq![id, param] + split_spec(
        rest,
        semicolon,
    ));
    lemma_strip_prefixes(word, timeout);
}

/// A port range is two numbers around a hyphen; what follows another hyphen makes no difference.
/// Each part that is missing or no number of 16 bits has its error.
pub proof fn lemma_port_range_is_read(first: Seq<char>, second: Seq<char>, rest: Seq<char>)
    requires
        find_spec(first, seq!['-']) is None,
        find_spec(second, seq!['-']) is None,
    ensures
        ({
            let range = first + seq!['-'] + second;
            match (parse_number_spec(first, 65535), parse_number_spec(second, 65535)) {
                (None, _) => {
                    &&& parse_port_range(first) == Err::<(u16, u16), _>(SetupError::InvalidRtpPort)
                    &&& parse_port_range(range) == Err::<(u16, u16), _>(SetupError::InvalidRtpPort)
                    &&& parse_port_range(range + seq!['-'] + rest) == Err::<(u16, u16), _>(
                        SetupError::InvalidRtpPort,
                    )
                },
                (Some(_), None) => {
                    &&& parse_port_range(first) == Err::<(u16, u16), _>(SetupError::NoRtcpPort)
                    &&& parse_port_range(range) == Err::<(u16, u16), _>(SetupError::InvalidRtcpPort)
                    &&& parse_port_range(range + seq!['-'] + rest) == Err::<(u16, u16), _>(
                        SetupError::InvalidRtcpPort,
                    )
                },
                (Some(a), Some(b)) => {
                    &&& parse_port_range(first) == Err::<(u16, u16), _>(SetupError::NoRtcpPort)
                    &&& parse_port_range(range) == Ok::<_, SetupError>((a as u16, b as u16))
                    &&& parse_port_range(range + seq!['-'] + rest) == Ok::<_, SetupError>(
                        (a as u16, b as u16),
                    )
                },
            }
        }),
{
    let hyphen = seq!['-'];
    let range = first + hyphen + second;
    assert(split_spec(first, hyphen) =~= seq![first]);
    assert(split_spec(second, hyphen) =~= seq![second]);
    lemma_split_behind(first, hyphen, second);
    assert(split_spec(range, hyphen) =~= seq![first, second]);
    assert(range + hyphen + rest =~= first + hyphen + (second + hyphen + rest));
    lemma_split_behind(second, hyphen, rest);
    lemma_split_behind(first, hyphen, second + hyphen + rest);
    assert(split_spec(range + hyphen + rest, hyphen) =~= seq![first, second] + split_spec(
        rest,
        hyphen,
    ));
}

/// The server's ports are those of the first parameter of the Transport header that starts with
/// `server_port=`; without one there is an error.
pub proof fn lemma_transport_is_read(transport: Seq<char>, i: int, range: Seq<char>)
    ensures
        ({
            let params = split_spec(transport, seq![';']);
            &&& (forall|k: int|
                0 <= k < params.len() ==> !starts_with_spec(#[trigger] params[k], "server_port="@))
                ==> parse_transport(transport) == Err::<(u16, u16), _>(SetupError::NoServerPort)
            &&& 0 <= i < params.len() && params[i] == "server_port="@ + range && (forall|k: int|
                0 <= k < i ==> !starts_with_spec(#[trigger] params[k], "server_port="@))
                ==> parse_transport(transport) == parse_port_range(
                strip_prefixes_spec(range, "server_port="@),
            )
        }),
{
    let prefix = "server_port="@;
    let params = split_spec(transport, seq![';']);
    reveal_strlit("server_port=");
    lemma_strip_prefixes(prefix, range);
    lemma_starts_with(prefix, range);
    if forall|k: int| 0 <= k < params.len() ==> !starts_with_spec(#[trigger] params[k], prefix) {
        lemma_no_prefix(params, prefix);
    }
    if 0 <= i < params.len() && params[i] == prefix + range && (forall|k: int|
        0 <= k < i ==> !starts_with_spec(#[trigger] params[k], prefix)) {
        let before = params.take(i);
        let after = params.skip(i + 1);
        assert(params =~= before + seq![params[i]] + after);
        assert forall|k: int| 0 <= k < before.len() implies !starts_with_spec(
            #[trigger] before[k],
            prefix,
        ) by {
            assert(before[k] == params[k]);
        }
        lemma_first_with_prefix(before, params[i], after, prefix);
    }
}

proof fn lemma_no_prefix(params: Seq<Seq<char>>, prefix: Seq<char>)
    requires
        forall|k: int| 0 <= k < params.len() ==> !starts_with_spec(#[trigger] params[k], prefix),
    ensures
        first_with_prefix(params, prefix) is None,
    decreases params.len(),
{
    if params.len() > 0 {
        let rest = params.drop_first();
        assert(!starts_with_spec(params[0], prefix));
        assert forall|k: int| 0 <= k < rest.len() implies !starts_with_spec(
            #[trigger] rest[k],
            prefix,
        ) by {
            assert(rest[k] == params[k + 1]);
        }
        lemma_no_prefix(rest, prefix);
    }
}

proof fn lemma_char_found(s: Seq<char>, c: char)
    requires
        find_spec(s, seq![c]) is None,
    ensures
        forall|i: int| 0 <= i < s.len() ==> #[trigger] s[i] != c,
{
    lemma_not_found(s, seq![c]);
    assert forall|i: int| 0 <= i < s.len() implies #[trigger] s[i] != c by {
        if s[i] == c {
            assert forall|k: int| 0 <= k < 1 implies s[i + k] == seq![c][k] by {}
            assert(occurs_at(s, seq![c], i));
        }
    }
}

} // verus!
