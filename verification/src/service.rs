//! The `IrohNode` service entry of a DID document and its `serviceEndpoint` format.
//!
//! An iroh node is advertised in a DID document as a service with id `#iroh`, type
//! `IrohNode` and endpoint `iroh://<node-id>`, where `<node-id>` is the lower-case hex
//! iroh public key. Relay URLs follow as `?relay=<percent-encoded-url>`, joined by `&`.

use vstd::prelude::*;
use vstd::utf8::*;

use crate::error::Error;
use crate::node::{
    endpoint_id_from_str, hex_lower, lemma_sorted_same_set_equal, lower_hex_digit, relay_url_from_str,
    IrohAddr, NodeId, RelayUrl,
};
use crate::percent::{
    encode_byte, lemma_percent_decode_encode, percent_decode, percent_decoded_text, percent_encode,
    percent_encoded,
};
use crate::text::{chars_of, chars_start_with, copy_chars, string_from_chars};

verus! {

/// The DID document service `id` for an iroh node entry.
pub const SERVICE_ID: &'static str = "#iroh";

/// The DID document service `type` for an iroh node entry.
pub const IROH_SERVICE_TYPE: &'static str = "IrohNode";

/// The prefix of every iroh `serviceEndpoint`: `iroh://`.
pub open spec fn scheme_text() -> Seq<char> {
    seq!['i', 'r', 'o', 'h', ':', '/', '/']
}

/// The prefix of a relay query parameter: `relay=`.
pub open spec fn relay_key_text() -> Seq<char> {
    seq!['r', 'e', 'l', 'a', 'y', '=']
}

/// The number of characters of `s` before the first `c` (all of them when there is none).
pub open spec fn prefix_len_before(s: Seq<char>, c: char) -> int
    decreases s.len(),
{
    if s.len() == 0 {
        0
    } else if s[0] == c {
        0
    } else {
        1 + prefix_len_before(s.drop_first(), c)
    }
}

/// The pieces of `s` between the separators `c`, as `str::split` gives them.
pub open spec fn split_on(s: Seq<char>, c: char) -> Seq<Seq<char>>
    decreases s.len(),
{
    let k = prefix_len_before(s, c);
    if 0 <= k < s.len() {
        seq![s.take(k)] + split_on(s.skip(k + 1), c)
    } else {
        seq![s]
    }
}

/// The value of a `relay=` query parameter, if `pair` is one.
pub open spec fn relay_param_value(pair: Seq<char>) -> Option<Seq<char>> {
    if pair.len() >= 6 && pair.take(6) == relay_key_text() {
        Some(pair.skip(6))
    } else {
        None
    }
}

/// The outcome of reading the relay parameters of a query.
pub enum RelayScan {
    /// The texts of the relay URLs read.
    Relays(Set<Seq<char>>),
    /// The first relay parameter whose decoded value is not a URL.
    BadRelay(Seq<char>),
}

/// Reads the relay parameters among `pairs`, in order; other parameters are ignored.
pub open spec fn scan_relays(pairs: Seq<Seq<char>>) -> RelayScan
    decreases pairs.len(),
{
    if pairs.len() == 0 {
        RelayScan::Relays(Set::empty())
    } else {
        match relay_param_value(pairs[0]) {
            None => scan_relays(pairs.drop_first()),
            Some(raw) => {
                let decoded = percent_decoded_text(raw);
                match relay_url_from_str(decoded) {
                    None => RelayScan::BadRelay(decoded),
                    Some(url) => match scan_relays(pairs.drop_first()) {
                        RelayScan::Relays(set) => RelayScan::Relays(set.insert(url)),
                        RelayScan::BadRelay(d) => RelayScan::BadRelay(d),
                    },
                }
            },
        }
    }
}

/// The outcome of parsing a `serviceEndpoint`.
pub enum EndpointParse {
    /// The node id's bytes and the texts of the relay URLs.
    Parsed(Seq<u8>, Set<Seq<char>>),
    /// The text does not start with `iroh://`.
    BadScheme,
    /// The node id text (between `iroh://` and the first `?`) is not a key.
    BadNodeId(Seq<char>),
    /// The decoded value of a relay parameter is not a URL.
    BadRelay(Seq<char>),
}

/// What parsing the `serviceEndpoint` `s` gives.
pub open spec fn parse_endpoint_spec(s: Seq<char>) -> EndpointParse {
    if !(s.len() >= 7 && s.take(7) == scheme_text()) {
        EndpointParse::BadScheme
    } else {
        let rest = s.skip(7);
        let k = prefix_len_before(rest, '?');
        let id_text = rest.take(k);
        match endpoint_id_from_str(id_text) {
            None => EndpointParse::BadNodeId(id_text),
            Some(id) => if k >= rest.len() {
                EndpointParse::Parsed(id, Set::empty())
            } else {
                match scan_relays(split_on(rest.skip(k + 1), '&')) {
                    RelayScan::Relays(set) => EndpointParse::Parsed(id, set),
                    RelayScan::BadRelay(d) => EndpointParse::BadRelay(d),
                }
            },
        }
    }
}

/// The reason given for an endpoint that lacks the `iroh://` prefix.
pub open spec fn scheme_error_reason() -> Seq<char> {
    "must start with `iroh://`"@
}

/// The reason given for a relay parameter whose decoded value is not a URL.
pub open spec fn relay_error_reason(decoded: Seq<char>) -> Seq<char> {
    "invalid relay URL `"@ + decoded + "`"@
}

/// `r` is what `parse_service_endpoint` owes for the text `s`.
pub open spec fn parse_result_matches(s: Seq<char>, r: Result<IrohAddr, Error>) -> bool {
    match parse_endpoint_spec(s) {
        EndpointParse::Parsed(id, relays) => r matches Ok(a) && a.id_bytes() == id
            && a.relay_texts().to_set() == relays && a.wf(),
        EndpointParse::BadScheme => r matches Err(Error::InvalidServiceEndpoint { endpoint, reason })
            && endpoint@ == s && reason@ == scheme_error_reason(),
        EndpointParse::BadNodeId(v) => r matches Err(Error::InvalidNodeId { value, .. })
            && value@ == v,
        EndpointParse::BadRelay(d) => r matches Err(Error::InvalidServiceEndpoint { endpoint, reason })
            && endpoint@ == s && reason@ == relay_error_reason(d),
    }
}

/// The `relay=` parameter that carries the relay URL `url`.
pub open spec fn relay_param_text(url: Seq<char>) -> Seq<char> {
    relay_key_text() + percent_encoded(encode_utf8(url))
}

/// The relay parameters for `urls`, joined by `&`.
pub open spec fn join_relay_params(urls: Seq<Seq<char>>) -> Seq<char>
    decreases urls.len(),
{
    if urls.len() == 0 {
        seq![]
    } else if urls.len() == 1 {
        relay_param_text(urls[0])
    } else {
        relay_param_text(urls[0]) + seq!['&'] + join_relay_params(urls.drop_first())
    }
}

/// The `serviceEndpoint` text for an address.
pub open spec fn format_endpoint_spec(addr: IrohAddr) -> Seq<char> {
    let base = scheme_text() + hex_lower(addr.id_bytes());
    if addr.relay_texts().len() == 0 {
        base
    } else {
        base + seq!['?'] + join_relay_params(addr.relay_texts())
    }
}

proof fn lemma_prefix_len_before(s: Seq<char>, c: char, k: int)
    requires
        0 <= k <= s.len(),
        forall|j: int| 0 <= j < k ==> s[j] != c,
        k < s.len() ==> s[k] == c,
    ensures
        prefix_len_before(s, c) == k,
    decreases k,
{
    if k > 0 {
        assert forall|j: int| 0 <= j < k - 1 implies s.drop_first()[j] != c by {
            assert(s.drop_first()[j] == s[j + 1]);
        }
        lemma_prefix_len_before(s.drop_first(), c, k - 1);
    }
}

proof fn lemma_prefix_len_bounds(s: Seq<char>, c: char)
    ensures
        0 <= prefix_len_before(s, c) <= s.len(),
    decreases s.len(),
{
    if s.len() > 0 && s[0] != c {
        lemma_prefix_len_bounds(s.drop_first(), c);
    }
}

/// The characters of the `iroh://` prefix.
fn scheme_chars() -> (v: Vec<char>)
    ensures
        v@ == scheme_text(),
{
    let v = vec!['i', 'r', 'o', 'h', ':', '/', '/'];
    assert(v@ =~= scheme_text());
    v
}

/// The characters of the `relay=` key.
fn relay_key_chars() -> (v: Vec<char>)
    ensures
        v@ == relay_key_text(),
{
    let v = vec!['r', 'e', 'l', 'a', 'y', '='];
    assert(v@ =~= relay_key_text());
    v
}

/// Finds the first `c` in `v` from `from` on, before `to` (or `to` when there is none).
fn find_char(v: &Vec<char>, from: usize, to: usize, c: char) -> (k: usize)
    requires
        from <= to <= v@.len(),
    ensures
        from <= k <= to,
        k == from + prefix_len_before(v@.subrange(from as int, to as int), c),
{
    let mut k = from;
    while k < to && v[k] != c
        invariant
            from <= k <= to <= v@.len(),
            forall|j: int| from <= j < k ==> v@[j] != c,
        decreases to - k,
    {
        k = k + 1;
    }
    proof {
        let sub = v@.subrange(from as int, to as int);
        assert forall|j: int| 0 <= j < k - from implies sub[j] != c by {
            assert(sub[j] == v@[from + j]);
        }
        if k < to {
            assert(sub[k - from] == v@[k as int]);
        }
        lemma_prefix_len_before(sub, c, k - from);
    }
    k
}

/// Relays accumulated so far, then the scan of the rest.
pub open spec fn combine_scan(acc: Set<Seq<char>>, rest: RelayScan) -> RelayScan {
    match rest {
        RelayScan::Relays(set) => RelayScan::Relays(acc.union(set)),
        RelayScan::BadRelay(d) => RelayScan::BadRelay(d),
    }
}

/// Parses an iroh `serviceEndpoint` string into an [`IrohAddr`].
///
/// Accepts `iroh://<node-id>` with optional `?relay=<relay-url>` query parameters.
pub fn parse_service_endpoint(endpoint: &str) -> (r: Result<IrohAddr, Error>)
    ensures
        parse_result_matches(endpoint@, r),
{
    let chars = chars_of(endpoint);
    let n = chars.len();
    let scheme = scheme_chars();
    if !chars_start_with(&chars, 0, n, &scheme) {
        proof {
            if n >= 7 {
                assert(chars@.subrange(0, 7) =~= chars@.take(7));
            }
        }
        return Err(
            Error::InvalidServiceEndpoint {
                endpoint: endpoint.to_owned(),
                reason: "must start with `iroh://`".to_owned(),
            },
        );
    }
    let ghost s = endpoint@;
    let ghost rest = s.skip(7);
    proof {
        assert(chars@.subrange(0, 7) =~= s.take(7));
        assert(chars@.subrange(7, n as int) =~= rest);
    }
    let k = find_char(&chars, 7, n, '?');
    let id_text = string_from_chars(copy_chars(&chars, 7, k));
    proof {
        assert(id_text@ =~= rest.take(k - 7));
    }
    let id = match NodeId::parse(id_text.as_str()) {
        Ok(id) => id,
        Err(source) => {
            return Err(Error::InvalidNodeId { value: id_text, source });
        },
    };
    let mut addr = IrohAddr::new(id);
    proof {
        use_type_invariant(&addr);
        assert(addr.relay_texts().to_set() =~= Set::<Seq<char>>::empty());
    }
    if k < n {
        let ghost query = rest.skip(k - 7 + 1);
        proof {
            assert(chars@.subrange(k + 1, n as int) =~= query);
            assert(Set::<Seq<char>>::empty().union(Set::empty()) =~= Set::<Seq<char>>::empty());
            match scan_relays(split_on(query, '&')) {
                RelayScan::Relays(set) => {
                    assert(Set::<Seq<char>>::empty().union(set) =~= set);
                },
                _ => {},
            }
        }
        let key = relay_key_chars();
        let mut start = k + 1;
        let mut done = false;
        while !done
            invariant
                k < start <= n == chars@.len(),
                chars@ == s,
                s == endpoint@,
                query == chars@.subrange(k + 1, n as int),
                s.len() >= 7 && s.take(7) == scheme_text(),
                rest == s.skip(7),
                k - 7 == prefix_len_before(rest, '?'),
                query == rest.skip(k - 7 + 1),
                endpoint_id_from_str(rest.take(k - 7)) == Some(id.bytes()),
                addr.id_bytes() == id.bytes(),
                addr.wf(),
                key@ == relay_key_text(),
                scan_relays(split_on(query, '&')) == (if done {
                    RelayScan::Relays(addr.relay_texts().to_set())
                } else {
                    combine_scan(
                        addr.relay_texts().to_set(),
                        scan_relays(split_on(chars@.subrange(start as int, n as int), '&')),
                    )
                }),
            decreases n - start + (if done { 0int } else { 1int }),
        {
            let end = find_char(&chars, start, n, '&');
            let ghost piece = chars@.subrange(start as int, end as int);
            let ghost remaining = chars@.subrange(start as int, n as int);
            let ghost later = if end < n {
                split_on(chars@.subrange(end + 1, n as int), '&')
            } else {
                Seq::<Seq<char>>::empty()
            };
            let ghost before = addr.relay_texts().to_set();
            proof {
                lemma_prefix_len_bounds(remaining, '&');
                assert(remaining.take(end - start) =~= piece);
                if end < n {
                    assert(remaining.skip(end - start + 1) =~= chars@.subrange(end + 1, n as int));
                    assert(split_on(remaining, '&') =~= seq![piece] + later);
                } else {
                    assert(remaining =~= piece);
                    assert(split_on(remaining, '&') =~= seq![piece] + later);
                }
                assert((seq![piece] + later)[0] == piece);
                assert((seq![piece] + later).drop_first() =~= later);
            }
            if chars_start_with(&chars, start, end, &key) {
                let raw = string_from_chars(copy_chars(&chars, start + 6, end));
                let decoded = percent_decode(raw.as_str());
                proof {
                    assert(chars@.subrange(start as int, start + 6) =~= piece.take(6));
                    assert(raw@ =~= piece.skip(6));
                }
                match RelayUrl::parse(decoded.as_str()) {
                    None => {
                        proof {
                            assert(relay_param_value(piece) == Some(raw@));
                            assert(scan_relays(split_on(remaining, '&')) == RelayScan::BadRelay(
                                decoded@,
                            ));
                            assert(scan_relays(split_on(query, '&')) == RelayScan::BadRelay(
                                decoded@,
                            ));
                        }
                        let mut reason = String::new();
                        reason.append("invalid relay URL `");
                        reason.append(decoded.as_str());
                        reason.append("`");
                        return Err(
                            Error::InvalidServiceEndpoint { endpoint: endpoint.to_owned(), reason },
                        );
                    },
                    Some(url) => {
                        let ghost url_text = url.text();
                        addr = addr.with_relay_url(url);
                        proof {
                            use_type_invariant(&addr);
                            match scan_relays(later) {
                                RelayScan::Relays(set) => {
                                    assert(before.union(set.insert(url_text)) =~= before.insert(
                                        url_text,
                                    ).union(set));
                                },
                                _ => {},
                            }
                        }
                    },
                }
            } else {
                proof {
                    if piece.len() >= 6 {
                        assert(chars@.subrange(start as int, start + 6) =~= piece.take(6));
                    }
                }
            }
            if end == n {
                proof {
                    let acc = addr.relay_texts().to_set();
                    assert(acc.union(Set::empty()) =~= acc);
                }
                done = true;
            } else {
                start = end + 1;
            }
        }
    }
    Ok(addr)
}

proof fn lemma_join_push(urls: Seq<Seq<char>>, url: Seq<char>)
    requires
        urls.len() >= 1,
    ensures
        join_relay_params(urls.push(url)) == join_relay_params(urls) + seq!['&'] + relay_param_text(
            url,
        ),
    decreases urls.len(),
{
    let all = urls.push(url);
    assert(all[0] == urls[0]);
    if urls.len() == 1 {
        assert(all.drop_first() =~= seq![url]);
        assert(join_relay_params(all.drop_first()) == relay_param_text(url));
        assert(join_relay_params(all) =~= join_relay_params(urls) + seq!['&'] + relay_param_text(
            url,
        ));
    } else {
        assert(all.drop_first() =~= urls.drop_first().push(url));
        lemma_join_push(urls.drop_first(), url);
        assert(join_relay_params(all) =~= join_relay_params(urls) + seq!['&'] + relay_param_text(
            url,
        ));
    }
}

/// Formats an [`IrohAddr`] as an iroh `serviceEndpoint` string.
///
/// Produces `iroh://<node-id>` with a `relay=<relay-url>` query parameter for each relay
/// URL of the address.
pub fn format_service_endpoint(addr: &IrohAddr) -> (r: String)
    ensures
        r@ == format_endpoint_spec(*addr),
{
    proof {
        reveal_strlit("iroh://");
        reveal_strlit("?");
        reveal_strlit("&");
        reveal_strlit("relay=");
    }
    let mut endpoint = String::new();
    endpoint.append("iroh://");
    endpoint.append(addr.id().to_hex().as_str());
    assert("iroh://"@ =~= scheme_text());
    assert(endpoint@ =~= scheme_text() + hex_lower(addr.id_bytes()));
    let urls = addr.relay_urls();
    let n = urls.len();
    if n > 0 {
        let ghost base = endpoint@;
        let ghost texts = addr.relay_texts();
        endpoint.append("?");
        assert("?"@ =~= seq!['?']);
        assert(texts.take(0) =~= Seq::<Seq<char>>::empty());
        assert(endpoint@ =~= base + seq!['?'] + join_relay_params(texts.take(0)));
        let mut i: usize = 0;
        while i < n
            invariant
                n == urls@.len(),
                texts == urls@.map_values(|u: RelayUrl| u.text()),
                i <= n,
                endpoint@ == base + seq!['?'] + join_relay_params(texts.take(i as int)),
            decreases n - i,
        {
            let ghost before = endpoint@;
            if i > 0 {
                endpoint.append("&");
            }
            endpoint.append("relay=");
            endpoint.append(percent_encode(urls[i].as_str()).as_str());
            proof {
                reveal_strlit("&");
                reveal_strlit("relay=");
                assert("relay="@ =~= relay_key_text());
                assert("&"@ =~= seq!['&']);
                assert(texts[i as int] == urls@[i as int].text());
                assert(texts.take(i + 1) =~= texts.take(i as int).push(texts[i as int]));
                if i > 0 {
                    lemma_join_push(texts.take(i as int), texts[i as int]);
                } else {
                    assert(texts.take(1) =~= seq![texts[0]]);
                }
                assert(endpoint@ =~= base + seq!['?'] + join_relay_params(texts.take(i + 1)));
            }
            i = i + 1;
        }
        proof {
            assert(texts.take(n as int) =~= texts);
        }
    }
    endpoint
}

proof fn lemma_hex_lower_facts(b: Seq<u8>)
    ensures
        hex_lower(b).len() == 2 * b.len(),
        forall|i: int| 0 <= i < hex_lower(b).len() ==> #[trigger] hex_lower(b)[i] != '?',
    decreases b.len(),
{
    if b.len() > 0 {
        lemma_hex_lower_facts(b.drop_last());
        let p = hex_lower(b.drop_last());
        let e = seq![
            lower_hex_digit((b.last() / 16) as int),
            lower_hex_digit((b.last() % 16) as int),
        ];
        assert forall|i: int| 0 <= i < (p + e).len() implies (p + e)[i] != '?' by {
            if i < p.len() {
                assert((p + e)[i] == p[i]);
            }
        }
    }
}

proof fn lemma_encode_byte_no_amp(x: u8)
    ensures
        forall|i: int| 0 <= i < encode_byte(x).len() ==> #[trigger] encode_byte(x)[i] != '&',
{
}

proof fn lemma_encoded_no_amp(b: Seq<u8>)
    ensures
        forall|i: int| 0 <= i < percent_encoded(b).len() ==> #[trigger] percent_encoded(b)[i] != '&',
    decreases b.len(),
{
    if b.len() > 0 {
        lemma_encoded_no_amp(b.drop_last());
        lemma_encode_byte_no_amp(b.last());
        let p = percent_encoded(b.drop_last());
        let e = encode_byte(b.last());
        assert forall|i: int| 0 <= i < (p + e).len() implies (p + e)[i] != '&' by {
            if i < p.len() {
                assert((p + e)[i] == p[i]);
            } else {
                assert((p + e)[i] == e[i - p.len()]);
            }
        }
    }
}

proof fn lemma_param_no_amp(url: Seq<char>)
    ensures
        forall|j: int|
            0 <= j < relay_param_text(url).len() ==> #[trigger] relay_param_text(url)[j] != '&',
        prefix_len_before(relay_param_text(url), '&') == relay_param_text(url).len(),
        relay_param_value(relay_param_text(url)) == Some(percent_encoded(encode_utf8(url))),
{
    let p = relay_param_text(url);
    let e = percent_encoded(encode_utf8(url));
    lemma_encoded_no_amp(encode_utf8(url));
    assert forall|j: int| 0 <= j < p.len() implies p[j] != '&' by {
        if j >= 6 {
            assert(p[j] == e[j - 6]);
        }
    }
    lemma_prefix_len_before(p, '&', p.len() as int);
    assert(p.take(6) =~= relay_key_text());
    assert(p.skip(6) =~= e);
}

proof fn lemma_split_joined(urls: Seq<Seq<char>>)
    requires
        urls.len() >= 1,
    ensures
        split_on(join_relay_params(urls), '&') == urls.map_values(|u: Seq<char>| relay_param_text(u)),
    decreases urls.len(),
{
    let p = relay_param_text(urls[0]);
    lemma_param_no_amp(urls[0]);
    if urls.len() == 1 {
        assert(p.take(p.len() as int) =~= p);
        assert(split_on(p, '&') =~= seq![p]);
        assert(urls.map_values(|u: Seq<char>| relay_param_text(u)) =~= seq![p]);
    } else {
        let joined = join_relay_params(urls);
        let tail = join_relay_params(urls.drop_first());
        assert(joined == p + seq!['&'] + tail);
        assert forall|j: int| 0 <= j < p.len() implies joined[j] != '&' by {
            assert(joined[j] == p[j]);
        }
        assert(joined[p.len() as int] == '&');
        lemma_prefix_len_before(joined, '&', p.len() as int);
        assert(joined.take(p.len() as int) =~= p);
        assert(joined.skip(p.len() as int + 1) =~= tail);
        lemma_split_joined(urls.drop_first());
        assert(urls.map_values(|u: Seq<char>| relay_param_text(u)) =~= seq![p]
            + urls.drop_first().map_values(|u: Seq<char>| relay_param_text(u)));
    }
}

proof fn lemma_scan_params(urls: Seq<Seq<char>>)
    requires
        forall|i: int| 0 <= i < urls.len() ==> relay_url_from_str(#[trigger] urls[i]) == Some(
            urls[i],
        ),
    ensures
        scan_relays(urls.map_values(|u: Seq<char>| relay_param_text(u))) == RelayScan::Relays(
            urls.to_set(),
        ),
    decreases urls.len(),
{
    let params = urls.map_values(|u: Seq<char>| relay_param_text(u));
    if urls.len() == 0 {
        assert(urls.to_set() =~= Set::<Seq<char>>::empty());
    } else {
        let u = urls[0];
        lemma_param_no_amp(u);
        lemma_percent_decode_encode(u);
        assert(params[0] == relay_param_text(u));
        assert(params.drop_first() =~= urls.drop_first().map_values(
            |u: Seq<char>| relay_param_text(u),
        ));
        assert forall|i: int| 0 <= i < urls.drop_first().len() implies relay_url_from_str(
            #[trigger] urls.drop_first()[i],
        ) == Some(urls.drop_first()[i]) by {
            assert(urls.drop_first()[i] == urls[i + 1]);
        }
        lemma_scan_params(urls.drop_first());
        assert(urls.to_set() =~= urls.drop_first().to_set().insert(u)) by {
            assert forall|t: Seq<char>| urls.to_set().contains(t) implies urls.drop_first().to_set().insert(u).contains(t) by {
                let k = choose|k: int| 0 <= k < urls.len() && urls[k] == t;
                if k > 0 {
                    assert(urls.drop_first()[k - 1] == t);
                }
            }
            assert forall|t: Seq<char>| urls.drop_first().to_set().insert(u).contains(t) implies urls.to_set().contains(t) by {
                if t != u {
                    let k = choose|k: int| 0 <= k < urls.drop_first().len() && urls.drop_first()[k] == t;
                    assert(urls[k + 1] == t);
                } else {
                    assert(urls[0] == t);
                }
            }
        }
    }
}

/// Parsing the endpoint text formatted from a well-formed address gives back its node
/// id and its set of relays.
pub proof fn lemma_parse_formatted(addr: IrohAddr)
    requires
        addr.wf(),
    ensures
        parse_endpoint_spec(format_endpoint_spec(addr)) == EndpointParse::Parsed(
            addr.id_bytes(),
            addr.relay_texts().to_set(),
        ),
{
    let h = hex_lower(addr.id_bytes());
    let base = scheme_text() + h;
    let s = format_endpoint_spec(addr);
    lemma_hex_lower_facts(addr.id_bytes());
    assert(s.take(7) =~= scheme_text());
    let rest = s.skip(7);
    let texts = addr.relay_texts();
    assert forall|j: int| 0 <= j < h.len() implies rest[j] != '?' by {
        assert(rest[j] == h[j]);
    }
    if texts.len() == 0 {
        assert(rest =~= h);
        lemma_prefix_len_before(rest, '?', h.len() as int);
        assert(rest.take(h.len() as int) =~= h);
        assert(texts.to_set() =~= Set::<Seq<char>>::empty());
    } else {
        let joined = join_relay_params(texts);
        assert(rest =~= h + seq!['?'] + joined);
        assert(rest[h.len() as int] == '?');
        lemma_prefix_len_before(rest, '?', h.len() as int);
        assert(rest.take(h.len() as int) =~= h);
        assert(rest.skip(h.len() as int + 1) =~= joined);
        lemma_split_joined(texts);
        lemma_scan_params(texts);
    }
}

/// Formatting a well-formed address and parsing the text back gives the same address.
pub proof fn lemma_format_parse_roundtrip(addr: IrohAddr, parsed: Result<IrohAddr, Error>)
    requires
        addr.wf(),
        parse_result_matches(format_endpoint_spec(addr), parsed),
    ensures
        parsed matches Ok(a) && a.id_bytes() == addr.id_bytes() && a.relay_texts()
            == addr.relay_texts(),
{
    lemma_parse_formatted(addr);
    let a = parsed->Ok_0;
    lemma_sorted_same_set_equal(a.relay_texts(), addr.relay_texts());
}

} // verus!
