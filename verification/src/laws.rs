use vstd::prelude::*;
use crate::config::{first_missing, first_unknown_channel, string_views, EndpointConfig};
use crate::handler::{admitted, decide, endpoint_for, last_index, offered_token, targets, Decision};
use crate::json::{json_get, json_str, field_source, json_escape_char, json_escaped, json_string_literal, lower_hex_digit, path_value, response_text, JsonValue};
use crate::query::{last_value, target_path, target_query};
use crate::text::lemma_find_char_is;
use crate::notification::{level_color, level_emoji, level_hex_color, level_label};
use crate::url::{all_hex_digits, decoded_bytes, escape_len, hex_digit_value, hex_digits_value, is_hex_digit, radix16_byte};
use vstd::utf8::{decode_utf8, encode_utf8, valid_utf8};

verus! {

/// A request whose path no endpoint has is answered 404 `not_found`.
pub proof fn law_unknown_path_is_not_found(
    endpoints: Seq<EndpointConfig>,
    target: Seq<char>,
    auth: Option<Seq<char>>,
    body: Option<JsonValue>,
)
    requires
        endpoint_for(endpoints, target_path(target)) is None,
    ensures
        decide(endpoints, target, auth, body) == Decision::Reply(
            404,
            response_text("not_found"@, "endpoint not found"@),
        ),
{
}

/// A notification is only ever sent for a request that the endpoint
/// admits: an endpoint with a token needs exactly that token, from the
/// `token` parameter or else from a bearer header.
pub proof fn law_notify_only_when_admitted(
    endpoints: Seq<EndpointConfig>,
    target: Seq<char>,
    auth: Option<Seq<char>>,
    body: Option<JsonValue>,
)
    requires
        decide(endpoints, target, auth, body) is Notify,
    ensures
        endpoint_for(endpoints, target_path(target)) == Some(decide(endpoints, target, auth, body)->endpoint),
        admitted(
            endpoints[decide(endpoints, target, auth, body)->endpoint],
            offered_token(target_query(target), auth),
        ),
{
}

/// A request to a token-protected endpoint that does not offer the token
/// is answered 401 `unauthorized`.
pub proof fn law_wrong_token_is_unauthorized(
    endpoints: Seq<EndpointConfig>,
    target: Seq<char>,
    auth: Option<Seq<char>>,
    body: Option<JsonValue>,
)
    requires
        endpoint_for(endpoints, target_path(target)) is Some,
        !admitted(
            endpoints[endpoint_for(endpoints, target_path(target))->0],
            offered_token(target_query(target), auth),
        ),
    ensures
        decide(endpoints, target, auth, body) == Decision::Reply(
            401,
            response_text("unauthorized"@, "invalid or missing token"@),
        ),
{
}

/// An admitted request that yields no title or no message is answered
/// 400 `bad_request`.
pub proof fn law_missing_fields_is_bad_request(
    endpoints: Seq<EndpointConfig>,
    target: Seq<char>,
    auth: Option<Seq<char>>,
    body: Option<JsonValue>,
)
    requires
        endpoint_for(endpoints, target_path(target)) is Some,
        admitted(
            endpoints[endpoint_for(endpoints, target_path(target))->0],
            offered_token(target_query(target), auth),
        ),
        field_source(target_query(target), body, "title"@, "title_path"@) is None || field_source(
            target_query(target),
            body,
            "message"@,
            "message_path"@,
        ) is None,
    ensures
        decide(endpoints, target, auth, body) == Decision::Reply(
            400,
            response_text("bad_request"@, "missing required fields: title and message"@),
        ),
{
}

/// A `_path` parameter takes precedence: when it is given, the field is
/// what the path selects in the body (nothing without a body), whatever
/// the direct parameter says.
pub proof fn law_path_parameter_wins(
    query: Seq<(Seq<char>, Seq<char>)>,
    body: Option<JsonValue>,
    direct_key: Seq<char>,
    path_key: Seq<char>,
)
    requires
        last_value(query, path_key) is Some,
    ensures
        field_source(query, body, direct_key, path_key) == match body {
            Some(json) => path_value(json, last_value(query, path_key)->0),
            None => None,
        },
{
}

/// The value set last for a key is the one read back, and setting one key
/// leaves every other key as it was.
pub proof fn law_last_value_wins(
    pairs: Seq<(Seq<char>, Seq<char>)>,
    key: Seq<char>,
    value: Seq<char>,
    other: Seq<char>,
)
    requires
        other != key,
    ensures
        last_value(pairs.push((key, value)), key) == Some(value),
        last_value(pairs.push((key, value)), other) == last_value(pairs, other),
{
    assert(pairs.push((key, value)).drop_last() =~= pairs);
}

proof fn lemma_first_missing_none(known: Seq<Seq<char>>, wanted: Seq<Seq<char>>)
    ensures
        first_missing(known, wanted) is None <==> forall|i: int| 0 <= i < wanted.len() ==> known.contains(
            #[trigger] wanted[i],
        ),
    decreases wanted.len(),
{
    if wanted.len() > 0 {
        lemma_first_missing_none(known, wanted.drop_first());
        if known.contains(wanted[0]) {
            assert forall|i: int| 0 <= i < wanted.len() && (forall|j: int|
                0 <= j < wanted.drop_first().len() ==> known.contains(
                    #[trigger] wanted.drop_first()[j],
                )) implies known.contains(wanted[i]) by {
                if i > 0 {
                    assert(wanted[i] == wanted.drop_first()[i - 1]);
                }
            }
            if forall|i: int| 0 <= i < wanted.len() ==> known.contains(#[trigger] wanted[i]) {
                assert forall|j: int| 0 <= j < wanted.drop_first().len() implies known.contains(
                    #[trigger] wanted.drop_first()[j],
                ) by {
                    assert(wanted.drop_first()[j] == wanted[j + 1]);
                }
            }
        }
    }
}

/// A configuration passes validation exactly when every channel named by
/// every endpoint is a configured channel.
pub proof fn law_validation_accepts_exactly_known_channels(
    known: Seq<Seq<char>>,
    endpoints: Seq<EndpointConfig>,
)
    ensures
        first_unknown_channel(known, endpoints) is None <==> forall|e: int, c: int|
            0 <= e < endpoints.len() && 0 <= c < endpoints[e].channels@.len() ==> known.contains(
                #[trigger] endpoints[e].channels@[c]@,
            ),
    decreases endpoints.len(),
{
    if endpoints.len() > 0 {
        let wanted = string_views(endpoints[0].channels@);
        lemma_first_missing_none(known, wanted);
        law_validation_accepts_exactly_known_channels(known, endpoints.drop_first());
        let all = forall|e: int, c: int|
            0 <= e < endpoints.len() && 0 <= c < endpoints[e].channels@.len() ==> known.contains(
                #[trigger] endpoints[e].channels@[c]@,
            );
        if all {
            assert forall|i: int| 0 <= i < wanted.len() implies known.contains(#[trigger] wanted[i]) by {
                assert(known.contains(endpoints[0].channels@[i]@));
            }
            assert forall|e: int, c: int|
                0 <= e < endpoints.drop_first().len() && 0 <= c < endpoints.drop_first()[e].channels@.len()
                    implies known.contains(#[trigger] endpoints.drop_first()[e].channels@[c]@) by {
                assert(endpoints.drop_first()[e] == endpoints[e + 1]);
                assert(known.contains(endpoints[e + 1].channels@[c]@));
            }
        }
        if first_unknown_channel(known, endpoints) is None {
            assert(first_missing(known, wanted) is None);
            assert forall|e: int, c: int|
                0 <= e < endpoints.len() && 0 <= c < endpoints[e].channels@.len() implies known.contains(
                #[trigger] endpoints[e].channels@[c]@,
            ) by {
                if e == 0 {
                    assert(wanted[c] == endpoints[0].channels@[c]@);
                } else {
                    assert(endpoints[e] == endpoints.drop_first()[e - 1]);
                }
            }
        }
    }
}

proof fn lemma_last_index(names: Seq<Seq<char>>, n: Seq<char>)
    ensures
        last_index(names, n) matches Some(i) ==> 0 <= i < names.len() && names[i] == n,
        last_index(names, n) is None ==> !names.contains(n),
    decreases names.len(),
{
    if names.len() > 0 {
        lemma_last_index(names.drop_last(), n);
        if names.last() != n && names.contains(n) {
            let k = choose|k: int| 0 <= k < names.len() && names[k] == n;
            assert(names.drop_last()[k] == n);
        }
    }
}

/// Every channel a notification goes to is a built channel whose name is
/// one of the endpoint's channel names; and when every name of the
/// endpoint has a built channel, each name gets exactly one send, in
/// order, to a channel of that name.
pub proof fn law_targets_are_named_channels(wanted: Seq<Seq<char>>, names: Seq<Seq<char>>)
    ensures
        targets(wanted, names).len() <= wanted.len(),
        forall|k: int|
            0 <= k < targets(wanted, names).len() ==> 0 <= #[trigger] targets(wanted, names)[k] < names.len()
                && wanted.contains(names[targets(wanted, names)[k]]),
        (forall|i: int| 0 <= i < wanted.len() ==> names.contains(#[trigger] wanted[i])) ==> {
            &&& targets(wanted, names).len() == wanted.len()
            &&& forall|k: int| 0 <= k < wanted.len() ==> names[#[trigger] targets(wanted, names)[k]] == wanted[k]
        },
    decreases wanted.len(),
{
    if wanted.len() > 0 {
        let rest = wanted.drop_first();
        law_targets_are_named_channels(rest, names);
        lemma_last_index(names, wanted[0]);
        let t = targets(wanted, names);
        let tr = targets(rest, names);
        assert forall|k: int| 0 <= k < t.len() implies 0 <= #[trigger] t[k] < names.len() && wanted.contains(
            names[t[k]],
        ) by {
            match last_index(names, wanted[0]) {
                Some(i) => {
                    if k == 0 {
                        assert(t[0] == i);
                    } else {
                        assert(t[k] == tr[k - 1]);
                        let w = names[tr[k - 1]];
                        let j = choose|j: int| 0 <= j < rest.len() && rest[j] == w;
                        assert(wanted[j + 1] == w);
                    }
                },
                None => {
                    assert(t[k] == tr[k]);
                    let w = names[tr[k]];
                    let j = choose|j: int| 0 <= j < rest.len() && rest[j] == w;
                    assert(wanted[j + 1] == w);
                },
            }
        }
        if forall|i: int| 0 <= i < wanted.len() ==> names.contains(#[trigger] wanted[i]) {
            assert(names.contains(wanted[0]));
            assert forall|i: int| 0 <= i < rest.len() implies names.contains(#[trigger] rest[i]) by {
                assert(rest[i] == wanted[i + 1]);
            }
            assert forall|k: int| 0 <= k < wanted.len() implies names[#[trigger] t[k]] == wanted[k] by {
                if k > 0 {
                    assert(t[k] == tr[k - 1]);
                    assert(rest[k - 1] == wanted[k]);
                }
            }
        }
    }
}

} // verus!

verus! {

/// An upper-case hexadecimal digit.
pub open spec fn upper_hex_digit(d: nat) -> char {
    if d == 0 { '0' } else if d == 1 { '1' } else if d == 2 { '2' } else if d == 3 { '3' }
    else if d == 4 { '4' } else if d == 5 { '5' } else if d == 6 { '6' } else if d == 7 { '7' }
    else if d == 8 { '8' } else if d == 9 { '9' } else if d == 10 { 'A' } else if d == 11 { 'B' }
    else if d == 12 { 'C' } else if d == 13 { 'D' } else if d == 14 { 'E' } else { 'F' }
}

/// A number below 2^24 written as six upper-case hexadecimal digits.
pub open spec fn hex6(n: nat) -> Seq<char> {
    seq![
        upper_hex_digit((n / 0x100000) % 16),
        upper_hex_digit((n / 0x10000) % 16),
        upper_hex_digit((n / 0x1000) % 16),
        upper_hex_digit((n / 0x100) % 16),
        upper_hex_digit((n / 0x10) % 16),
        upper_hex_digit(n % 16),
    ]
}

/// Every level's style is one of the three, its colour fits in 24 bits,
/// and its hex colour text is `#` and that colour in six upper-case hex
/// digits.
pub proof fn law_level_style_is_consistent(level: Seq<char>)
    ensures
        level_color(level) <= 0xFFFFFF,
        level_hex_color(level) == "#"@ + hex6(level_color(level) as nat),
        (level_label(level) == "ERROR"@ && level_emoji(level) == "❌"@) || (level_label(level) == "INFO"@
            && level_emoji(level) == "✅"@) || (level_label(level) == "WARN"@ && level_emoji(level)
            == "⚠️"@),
{
    reveal_strlit("#");
    reveal_strlit("#E74C3C");
    reveal_strlit("#2ECC71");
    reveal_strlit("#F1C40F");
    assert(hex6(0xE74C3C) =~= seq!['E', '7', '4', 'C', '3', 'C']);
    assert(hex6(0x2ECC71) =~= seq!['2', 'E', 'C', 'C', '7', '1']);
    assert(hex6(0xF1C40F) =~= seq!['F', '1', 'C', '4', '0', 'F']);
    assert("#"@ + seq!['E', '7', '4', 'C', '3', 'C'] =~= "#E74C3C"@);
    assert("#"@ + seq!['2', 'E', 'C', 'C', '7', '1'] =~= "#2ECC71"@);
    assert("#"@ + seq!['F', '1', 'C', '4', '0', 'F'] =~= "#F1C40F"@);
}

/// A byte written as `%` and two upper-case hexadecimal digits.
pub open spec fn percent_escape(b: u8) -> Seq<char> {
    seq!['%', upper_hex_digit((b / 16) as nat), upper_hex_digit((b % 16) as nat)]
}

/// Every byte written as a `%XX` escape.
pub open spec fn percent_encoded(bytes: Seq<u8>) -> Seq<char>
    decreases bytes.len(),
{
    if bytes.len() == 0 {
        Seq::empty()
    } else {
        percent_escape(bytes[0]) + percent_encoded(bytes.drop_first())
    }
}

proof fn lemma_upper_hex_digit(d: nat)
    requires
        d < 16,
    ensures
        is_hex_digit(upper_hex_digit(d)),
        hex_digit_value(upper_hex_digit(d)) == d,
        upper_hex_digit(d) != '+',
{
}

proof fn lemma_escape_decodes(b: u8)
    ensures
        radix16_byte(seq![upper_hex_digit((b / 16) as nat), upper_hex_digit((b % 16) as nat)]) == Some(b),
{
    let hi = upper_hex_digit((b / 16) as nat);
    let lo = upper_hex_digit((b % 16) as nat);
    lemma_upper_hex_digit((b / 16) as nat);
    lemma_upper_hex_digit((b % 16) as nat);
    let ds = seq![hi, lo];
    assert(ds.drop_last() =~= seq![hi]);
    assert(seq![hi].drop_last() =~= Seq::<char>::empty());
    assert(seq![hi].last() == hi);
    assert(ds.last() == lo);
    assert(hex_digits_value(Seq::<char>::empty()) == 0);
    assert(hex_digits_value(seq![hi]) == (b / 16) as nat);
    assert(hex_digits_value(ds) == b as nat);
    assert(all_hex_digits(ds));
}

proof fn lemma_percent_decodes(bytes: Seq<u8>)
    ensures
        decoded_bytes(percent_encoded(bytes)) == bytes,
    decreases bytes.len(),
{
    if bytes.len() == 0 {
        assert(percent_encoded(bytes) =~= Seq::<char>::empty());
        assert(decoded_bytes(Seq::<char>::empty()) =~= bytes);
    } else {
        let cs = percent_encoded(bytes);
        let rest = percent_encoded(bytes.drop_first());
        lemma_percent_decodes(bytes.drop_first());
        lemma_escape_decodes(bytes[0]);
        assert(cs[0] == '%');
        assert(escape_len(cs) == 3);
        assert(cs.subrange(1, 3) =~= seq![
            upper_hex_digit((bytes[0] / 16) as nat),
            upper_hex_digit((bytes[0] % 16) as nat),
        ]);
        assert(cs.skip(3) =~= rest);
        assert(decoded_bytes(cs) == seq![bytes[0]] + decoded_bytes(rest));
        assert(seq![bytes[0]] + bytes.drop_first() =~= bytes);
    }
}

/// Writing every UTF-8 byte of a text as a `%XX` escape and URL-decoding
/// the result gives the text back: the decoded bytes are exactly its
/// UTF-8 encoding, which `url_decode` then reads back as the text.
pub proof fn law_percent_encoding_round_trips(s: Seq<char>)
    ensures
        decoded_bytes(percent_encoded(encode_utf8(s))) == encode_utf8(s),
        valid_utf8(decoded_bytes(percent_encoded(encode_utf8(s)))),
        decode_utf8(decoded_bytes(percent_encoded(encode_utf8(s)))) == s,
{
    lemma_percent_decodes(encode_utf8(s));
    vstd::utf8::encode_utf8_valid_utf8(s);
    vstd::utf8::encode_utf8_decode_utf8(s);
}

} // verus!

verus! {

/// The character a JSON short escape `\c` stands for (RFC 8259).
pub open spec fn json_short_escape(c: char) -> Option<char> {
    if c == '"' {
        Some('"')
    } else if c == '\\' {
        Some('\\')
    } else if c == '/' {
        Some('/')
    } else if c == 'b' {
        Some('\u{8}')
    } else if c == 'f' {
        Some('\u{c}')
    } else if c == 'n' {
        Some('\n')
    } else if c == 'r' {
        Some('\r')
    } else if c == 't' {
        Some('\t')
    } else {
        None
    }
}

/// Reads the contents of a JSON string literal, starting just after its
/// opening quote, as RFC 8259 defines them: the text it stands for and the
/// number of characters read up to and including the closing quote.
/// Unescaped quotes end it; unescaped control characters and bad escapes
/// make it invalid. (`\u` escapes of surrogates are not read.)
pub open spec fn json_string_read(t: Seq<char>) -> Option<(Seq<char>, int)>
    decreases t.len(),
{
    if t.len() == 0 {
        None
    } else if t[0] == '"' {
        Some((Seq::empty(), 1))
    } else if t[0] == '\\' {
        if t.len() < 2 {
            None
        } else if t[1] == 'u' {
            if t.len() < 6 || !all_hex_digits(t.subrange(2, 6)) {
                None
            } else {
                let v = hex_digits_value(t.subrange(2, 6));
                if 0xD800 <= v <= 0xDFFF {
                    None
                } else {
                    match json_string_read(t.skip(6)) {
                        Some((r, n)) => Some((seq![(v as u32) as char] + r, n + 6)),
                        None => None,
                    }
                }
            }
        } else {
            match json_short_escape(t[1]) {
                Some(c) => match json_string_read(t.skip(2)) {
                    Some((r, n)) => Some((seq![c] + r, n + 2)),
                    None => None,
                },
                None => None,
            }
        }
    } else if (t[0] as u32) < 0x20 {
        None
    } else {
        match json_string_read(t.drop_first()) {
            Some((r, n)) => Some((seq![t[0]] + r, n + 1)),
            None => None,
        }
    }
}

proof fn lemma_lower_hex_digit(d: u32)
    requires
        d < 16,
    ensures
        is_hex_digit(lower_hex_digit(d)),
        hex_digit_value(lower_hex_digit(d)) == d,
{
}

proof fn lemma_hex4(a: char, b: char, c: char, d: char)
    ensures
        hex_digits_value(seq![a, b, c, d]) == ((hex_digit_value(a) * 16 + hex_digit_value(b)) * 16
            + hex_digit_value(c)) * 16 + hex_digit_value(d),
{
    let s = seq![a, b, c, d];
    assert(s.drop_last() =~= seq![a, b, c]);
    assert(seq![a, b, c].drop_last() =~= seq![a, b]);
    assert(seq![a, b].drop_last() =~= seq![a]);
    assert(seq![a].drop_last() =~= Seq::<char>::empty());
    assert(hex_digits_value(Seq::<char>::empty()) == 0);
    assert(hex_digits_value(seq![a]) == hex_digit_value(a));
    assert(hex_digits_value(seq![a, b]) == hex_digit_value(a) * 16 + hex_digit_value(b));
    assert(hex_digits_value(seq![a, b, c]) == (hex_digit_value(a) * 16 + hex_digit_value(b)) * 16
        + hex_digit_value(c));
}

proof fn lemma_escaped_char_reads(c: char, tail: Seq<char>)
    ensures
        json_string_read(tail) matches Some((r, n)) ==> json_string_read(json_escape_char(c) + tail) == Some(
            (seq![c] + r, n + json_escape_char(c).len() as int),
        ),
{
    let e = json_escape_char(c);
    let t = e + tail;
    if c == '"' || c == '\\' || c == '\u{8}' || c == '\t' || c == '\n' || c == '\u{c}' || c == '\r' {
        assert(t.skip(2) =~= tail);
        assert(t[0] == '\\');
    } else if (c as u32) < 0x20 {
        let u = c as u32;
        lemma_lower_hex_digit(u / 16);
        lemma_lower_hex_digit(u % 16);
        let hex = t.subrange(2, 6);
        assert(hex =~= seq!['0', '0', lower_hex_digit(u / 16), lower_hex_digit(u % 16)]);
        lemma_hex4('0', '0', lower_hex_digit(u / 16), lower_hex_digit(u % 16));
        assert(hex_digits_value(hex) == u);
        assert(all_hex_digits(hex));
        vstd::utf8::char_u32_cast(c, u);
        assert(t.skip(6) =~= tail);
        assert(t[0] == '\\' && t[1] == 'u');
    } else {
        assert(e =~= seq![c]);
        assert(t.drop_first() =~= tail);
        assert(t[0] == c);
    }
}

/// The escaped text, a closing quote, and anything after it read back as
/// the text, ending exactly at that quote.
proof fn lemma_escaped_reads_back(s: Seq<char>, rest: Seq<char>)
    ensures
        json_string_read(json_escaped(s) + seq!['"'] + rest) == Some((s, json_escaped(s).len() as int + 1)),
    decreases s.len(),
{
    if s.len() == 0 {
        assert(json_escaped(s) + seq!['"'] + rest =~= seq!['"'] + rest);
        assert(s =~= Seq::<char>::empty());
    } else {
        let tail = json_escaped(s.drop_first()) + seq!['"'] + rest;
        lemma_escaped_reads_back(s.drop_first(), rest);
        lemma_escaped_char_reads(s[0], tail);
        assert(json_escaped(s) + seq!['"'] + rest =~= json_escape_char(s[0]) + tail);
        assert(seq![s[0]] + s.drop_first() =~= s);
    }
}

/// Every JSON reply is the object `{"status":…,"message":…}` whose two
/// string literals read back, by the JSON string grammar, as exactly the
/// status and the message given, each ending at its own closing quote.
pub proof fn law_json_response_carries_both_texts(status: Seq<char>, message: Seq<char>)
    ensures
        response_text(status, message) == "{\"status\":"@ + json_string_literal(status) + ",\"message\":"@
            + json_string_literal(message) + "}"@,
        json_string_literal(status)[0] == '"',
        json_string_read(json_string_literal(status).drop_first()) == Some(
            (status, json_string_literal(status).len() as int - 1),
        ),
        json_string_literal(message)[0] == '"',
        json_string_read(json_string_literal(message).drop_first()) == Some(
            (message, json_string_literal(message).len() as int - 1),
        ),
{
    lemma_escaped_reads_back(status, Seq::empty());
    lemma_escaped_reads_back(message, Seq::empty());
    assert(json_string_literal(status).drop_first() =~= json_escaped(status) + seq!['"'] + Seq::<char>::empty());
    assert(json_string_literal(message).drop_first() =~= json_escaped(message) + seq!['"']
        + Seq::<char>::empty());
}

} // verus!

verus! {

/// Routing picks the first endpoint whose path is exactly the given path,
/// and finds none exactly when no endpoint has that path.
pub proof fn law_routing_finds_first_exact_path(endpoints: Seq<EndpointConfig>, path: Seq<char>)
    ensures
        endpoint_for(endpoints, path) matches Some(i) ==> {
            &&& 0 <= i < endpoints.len()
            &&& endpoints[i].path@ == path
            &&& forall|j: int| 0 <= j < i ==> endpoints[j].path@ != path
        },
        endpoint_for(endpoints, path) is None <==> forall|j: int|
            0 <= j < endpoints.len() ==> #[trigger] endpoints[j].path@ != path,
    decreases endpoints.len(),
{
    if endpoints.len() > 0 {
        law_routing_finds_first_exact_path(endpoints.drop_first(), path);
        assert forall|j: int| 1 <= j < endpoints.len() implies endpoints[j] == endpoints.drop_first()[j - 1] by {}
        if endpoint_for(endpoints, path) is None {
            assert forall|j: int| 0 <= j < endpoints.len() implies #[trigger] endpoints[j].path@ != path by {
                if j > 0 {
                    assert(endpoints.drop_first()[j - 1].path@ != path);
                }
            }
        } else {
            let i = endpoint_for(endpoints, path)->0;
            assert(endpoints[i].path@ == path);
        }
    }
}

/// A request whose path (the part before the first `?`) equals no
/// endpoint's path is answered 404, even when an endpoint's path is a
/// prefix of it.
pub proof fn law_no_exact_path_is_not_found(
    endpoints: Seq<EndpointConfig>,
    target: Seq<char>,
    auth: Option<Seq<char>>,
    body: Option<JsonValue>,
)
    requires
        forall|j: int| 0 <= j < endpoints.len() ==> #[trigger] endpoints[j].path@ != target_path(target),
    ensures
        decide(endpoints, target, auth, body) == Decision::Reply(
            404,
            response_text("not_found"@, "endpoint not found"@),
        ),
{
    law_routing_finds_first_exact_path(endpoints, target_path(target));
}

/// A notification goes to the first endpoint whose path is exactly the
/// request's path.
pub proof fn law_dispatch_goes_to_first_exact_path(
    endpoints: Seq<EndpointConfig>,
    target: Seq<char>,
    auth: Option<Seq<char>>,
    body: Option<JsonValue>,
)
    requires
        decide(endpoints, target, auth, body) is Notify,
    ensures
        ({
            let e = decide(endpoints, target, auth, body)->endpoint;
            &&& 0 <= e < endpoints.len()
            &&& endpoints[e].path@ == target_path(target)
            &&& forall|j: int| 0 <= j < e ==> endpoints[j].path@ != target_path(target)
        }),
{
    law_routing_finds_first_exact_path(endpoints, target_path(target));
}

/// The fields of a dispatched notification: the title is the extracted
/// title (query parameter, body field or `title_path`, whichever applies),
/// with `[prefix] ` in front whenever a `title_prefix` parameter is given;
/// the message is the extracted message; `to` and `from` are exactly those
/// parameters, each absent without its own parameter; the level is the
/// `level` parameter, else the body's `level` string, else `info`.
pub proof fn law_dispatched_notification_fields(
    endpoints: Seq<EndpointConfig>,
    target: Seq<char>,
    auth: Option<Seq<char>>,
    body: Option<JsonValue>,
)
    requires
        decide(endpoints, target, auth, body) is Notify,
    ensures
        ({
            let q = target_query(target);
            let d = decide(endpoints, target, auth, body);
            let title = field_source(q, body, "title"@, "title_path"@);
            let message = field_source(q, body, "message"@, "message_path"@);
            &&& title is Some
            &&& message is Some
            &&& (last_value(q, "title_prefix"@) matches Some(p) ==> d->title == "["@ + p + "] "@ + title->0)
            &&& (last_value(q, "title_prefix"@) is None ==> d->title == title->0)
            &&& d->message == message->0
            &&& d->to == last_value(q, "to"@)
            &&& d->from == last_value(q, "from"@)
            &&& (last_value(q, "level"@) matches Some(l) ==> d->level == l)
            &&& (last_value(q, "level"@) is None ==> d->level == match body {
                Some(json) => match json_get(json, "level"@) {
                    Some(v) => match json_str(v) {
                        Some(l) => l,
                        None => "info"@,
                    },
                    None => "info"@,
                },
                None => "info"@,
            })
        }),
{
}

/// A JSON path walks one object level per key: `.k.rest` looks up `k`
/// and follows `.rest` from there, so paths of any depth reach nested
/// strings.
pub proof fn law_path_walks_one_level_per_key(value: JsonValue, key: Seq<char>, rest: Seq<char>)
    requires
        forall|i: int| 0 <= i < key.len() ==> #[trigger] key[i] != '.',
    ensures
        path_value(value, seq!['.'] + key + seq!['.'] + rest) == match json_get(value, key) {
            Some(inner) => path_value(inner, seq!['.'] + rest),
            None => None,
        },
{
    let keys = key + seq!['.'] + rest;
    assert((seq!['.'] + key + seq!['.'] + rest).drop_first() =~= keys);
    lemma_find_char_is(keys, '.', Some(key.len() as int));
    assert(keys.take(key.len() as int) =~= key);
    assert(keys.skip(key.len() as int + 1) =~= rest);
    assert((seq!['.'] + rest).drop_first() =~= rest);
}

/// A one-key path `.k` is the string at field `k`.
pub proof fn law_path_single_key(value: JsonValue, key: Seq<char>)
    requires
        forall|i: int| 0 <= i < key.len() ==> #[trigger] key[i] != '.',
    ensures
        path_value(value, seq!['.'] + key) == match json_get(value, key) {
            Some(inner) => json_str(inner),
            None => None,
        },
{
    assert((seq!['.'] + key).drop_first() =~= key);
    lemma_find_char_is(key, '.', None);
}

} // verus!
