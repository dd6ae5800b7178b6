//! Iroh node identifiers, relay URLs and node addresses.

use vstd::prelude::*;
use vstd::utf8::*;

use crate::text::{
    compare_texts, lemma_bytes_lt_asymmetric, lemma_bytes_lt_irreflexive,
    lemma_bytes_lt_transitive,
    string_from_chars, text_lt, TextOrder,
};

verus! {

/// What `iroh::PublicKey::from_str` reads from a text: the 32 key bytes, or nothing when
/// the text is neither 64 lower-case hex digits nor 52 base32 digits of a valid
/// ed25519 point.
pub uninterp spec fn endpoint_id_from_str(s: Seq<char>) -> Option<Seq<u8>>;

/// What `iroh::RelayUrl::from_str` reads from a text: the serialization of the parsed
/// URL, or nothing when the text is not a URL.
pub uninterp spec fn relay_url_from_str(s: Seq<char>) -> Option<Seq<char>>;

#[verifier::external_type_specification]
#[verifier::external_body]
pub struct ExKeyParsingError(iroh::KeyParsingError);

/// What the error of `iroh::PublicKey::from_str` displays for a text that it refuses.
pub uninterp spec fn key_error_text_of(s: Seq<char>) -> Seq<char>;

/// Calls `iroh::PublicKey::from_str` (through `str::parse`) and hands out the key bytes,
/// or the error together with its `Display` text.
/// Its source reads the bytes as hex or base32 and keeps them when they decompress to an
/// ed25519 point; its `Display` writes those bytes as lower-case hex, which that same
/// `from_str` reads back to the same key. On failure the error, and so its text, is
/// decided by the input text alone (which decoding step refused it). The contract names
/// both results and states the read-back fact.
#[verifier::external_body]
pub(crate) fn parse_public_key(s: &str) -> (r: Result<[u8; 32], (iroh::KeyParsingError, String)>)
    ensures
        match r {
            Ok(bytes) => endpoint_id_from_str(s@) == Some(bytes@),
            Err((_, text)) => endpoint_id_from_str(s@) is None && text@ == key_error_text_of(s@),
        },
        r matches Ok(bytes) ==> endpoint_id_from_str(hex_lower(bytes@)) == Some(bytes@),
{
    match s.parse::<iroh::PublicKey>() {
        Ok(key) => Ok(*key.as_bytes()),
        Err(e) => {
            let text = e.to_string();
            Err((e, text))
        },
    }
}

/// Calls `iroh::RelayUrl::from_str` (through `str::parse`) and hands out the URL's
/// serialization (`as_str`). The `url` crate's own invariant check parses a URL's
/// serialization again and finds the same serialization; the contract states that.
#[verifier::external_body]
fn parse_relay_url_text(s: &str) -> (r: Option<String>)
    ensures
        match r {
            Some(u) => relay_url_from_str(s@) == Some(u@),
            None => relay_url_from_str(s@) is None,
        },
        r matches Some(u) ==> relay_url_from_str(u@) == Some(u@),
{
    match s.parse::<iroh::RelayUrl>() {
        Ok(url) => Some(url.as_str().to_string()),
        Err(_) => None,
    }
}

/// The lower-case hexadecimal digit for `n` (`0 <= n < 16`).
pub open spec fn lower_hex_digit(n: int) -> char {
    if n < 10 {
        (n + 0x30) as char
    } else {
        (n + 0x57) as char
    }
}

/// Lower-case hex encoding of bytes, two digits per byte.
pub open spec fn hex_lower(bytes: Seq<u8>) -> Seq<char>
    decreases bytes.len(),
{
    if bytes.len() == 0 {
        seq![]
    } else {
        hex_lower(bytes.drop_last()) + seq![
            lower_hex_digit((bytes.last() / 16) as int),
            lower_hex_digit((bytes.last() % 16) as int),
        ]
    }
}

fn lower_hex_char(n: u8) -> (c: char)
    requires
        n < 16,
    ensures
        c == lower_hex_digit(n as int),
{
    if n < 10 {
        ((n + 0x30) as u8) as char
    } else {
        ((n + 0x57) as u8) as char
    }
}

/// The identifier of an iroh node: the 32 bytes of an ed25519 public key that iroh
/// accepts. A value is made only by [`NodeId::parse`], so every one is a valid key.
#[derive(Clone, Copy, Debug, PartialEq, Eq)]
pub struct NodeId([u8; 32]);

impl NodeId {
    /// The key bytes.
    pub closed spec fn bytes(&self) -> Seq<u8> {
        self.0@
    }

    /// The bytes are a key that iroh accepts, and its hex form reads back to them.
    #[verifier::type_invariant]
    pub open spec fn is_valid(&self) -> bool {
        endpoint_id_from_str(hex_lower(self.bytes())) == Some(self.bytes())
    }

    /// Reads a node id from its hex or base32 text, as `iroh::PublicKey` does.
    pub fn parse(s: &str) -> (r: Result<NodeId, iroh::KeyParsingError>)
        ensures
            match r {
                Ok(id) => endpoint_id_from_str(s@) == Some(id.bytes()),
                Err(_) => endpoint_id_from_str(s@) is None,
            },
    {
        match parse_public_key(s) {
            Ok(bytes) => Ok(NodeId(bytes)),
            Err((e, _)) => Err(e),
        }
    }

    /// The key bytes.
    pub fn key_bytes(&self) -> (b: [u8; 32])
        ensures
            b@ == self.bytes(),
    {
        self.0
    }

    /// The lower-case hex text of the key, as `iroh::PublicKey` displays it.
    pub fn to_hex(&self) -> (s: String)
        ensures
            s@ == hex_lower(self.bytes()),
    {
        let mut out: Vec<char> = Vec::new();
        let mut i: usize = 0;
        while i < 32
            invariant
                i <= 32,
                self.bytes().len() == 32,
                out@ == hex_lower(self.bytes().take(i as int)),
            decreases 32 - i,
        {
            let b = self.0[i];
            proof {
                assert(self.bytes().take(i + 1).drop_last() =~= self.bytes().take(i as int));
                assert(self.bytes().take(i + 1).last() == b);
            }
            out.push(lower_hex_char(b / 16));
            out.push(lower_hex_char(b % 16));
            i = i + 1;
        }
        proof {
            assert(self.bytes().take(32) =~= self.bytes());
        }
        string_from_chars(out)
    }

    /// Whether two node ids are the same key.
    pub fn same_as(&self, other: &NodeId) -> (r: bool)
        ensures
            r == (self.bytes() == other.bytes()),
    {
        let mut i: usize = 0;
        while i < 32
            invariant
                i <= 32,
                self.bytes().len() == 32,
                other.bytes().len() == 32,
                forall|j: int| 0 <= j < i ==> self.bytes()[j] == other.bytes()[j],
            decreases 32 - i,
        {
            if self.0[i] != other.0[i] {
                return false;
            }
            i = i + 1;
        }
        proof {
            assert(self.bytes() =~= other.bytes());
        }
        true
    }
}

/// A relay server URL, held as its normalized serialization. A value is made only by
/// [`RelayUrl::parse`], so every one is a URL's serialization.
#[derive(Debug, PartialEq, Eq)]
pub struct RelayUrl(String);

impl Clone for RelayUrl {
    fn clone(&self) -> (r: Self)
        ensures
            r == *self,
    {
        proof {
            use_type_invariant(self);
        }
        RelayUrl(self.0.clone())
    }
}

impl RelayUrl {
    /// The URL's text.
    pub closed spec fn text(&self) -> Seq<char> {
        self.0@
    }

    /// The text is a URL's serialization, which reads back to itself.
    #[verifier::type_invariant]
    pub open spec fn is_valid(&self) -> bool {
        relay_url_from_str(self.text()) == Some(self.text())
    }

    /// Reads a relay URL, as `iroh::RelayUrl` does.
    pub fn parse(s: &str) -> (r: Option<RelayUrl>)
        ensures
            match r {
                Some(u) => relay_url_from_str(s@) == Some(u.text()),
                None => relay_url_from_str(s@) is None,
            },
    {
        match parse_relay_url_text(s) {
            Some(text) => Some(RelayUrl(text)),
            None => None,
        }
    }

    /// The URL's text.
    pub fn as_str(&self) -> (s: &str)
        ensures
            s@ == self.text(),
    {
        self.0.as_str()
    }
}

/// Texts in strictly increasing order.
pub open spec fn strictly_sorted(texts: Seq<Seq<char>>) -> bool {
    forall|i: int, j: int| 0 <= i < j < texts.len() ==> text_lt(#[trigger] texts[i], #[trigger] texts[j])
}

/// Every text is a URL's serialization that reads back to itself.
pub open spec fn all_relay_urls(texts: Seq<Seq<char>>) -> bool {
    forall|i: int| 0 <= i < texts.len() ==> relay_url_from_str(#[trigger] texts[i]) == Some(texts[i])
}

/// The address of an iroh node: its id and the relay servers it can be reached through.
/// The relays are kept as a set, in increasing order of their text.
#[derive(Debug, PartialEq, Eq)]
pub struct IrohAddr {
    id: NodeId,
    relays: Vec<RelayUrl>,
}

impl Clone for IrohAddr {
    fn clone(&self) -> (r: Self)
        ensures
            r.id_bytes() == self.id_bytes(),
            r.relay_texts() == self.relay_texts(),
    {
        proof {
            use_type_invariant(self);
        }
        let relays = self.relays.clone();
        proof {
            assert forall|i: int| 0 <= i < relays@.len() implies relays@[i] == self.relays@[i] by {
                assert(cloned::<RelayUrl>(self.relays@[i], relays@[i]));
            }
            assert(relays@ =~= self.relays@);
        }
        IrohAddr { id: self.id, relays }
    }
}

impl IrohAddr {
    /// The node's key bytes.
    pub closed spec fn id_bytes(&self) -> Seq<u8> {
        self.id.bytes()
    }

    /// The texts of the relays, in order.
    pub closed spec fn relay_texts(&self) -> Seq<Seq<char>> {
        self.relays@.map_values(|r: RelayUrl| r.text())
    }

    /// The id is a valid key, every relay is a URL, and the relays are in increasing
    /// order with no repetition.
    #[verifier::type_invariant]
    pub open spec fn wf(&self) -> bool {
        &&& endpoint_id_from_str(hex_lower(self.id_bytes())) == Some(self.id_bytes())
        &&& all_relay_urls(self.relay_texts())
        &&& strictly_sorted(self.relay_texts())
    }

    /// An address with an id and no relay.
    pub fn new(id: NodeId) -> (r: IrohAddr)
        ensures
            r.id_bytes() == id.bytes(),
            r.relay_texts().len() == 0,
    {
        proof {
            use_type_invariant(&id);
        }
        let r = IrohAddr { id, relays: Vec::new() };
        assert(r.relay_texts() =~= Seq::<Seq<char>>::empty());
        r
    }

    /// The node id.
    pub fn id(&self) -> (r: NodeId)
        ensures
            r.bytes() == self.id_bytes(),
    {
        self.id
    }

    /// Adds a relay to the set; an equal relay already present is kept.
    pub fn with_relay_url(self, relay: RelayUrl) -> (r: IrohAddr)
        ensures
            r.id_bytes() == self.id_bytes(),
            r.relay_texts().to_set() == self.relay_texts().to_set().insert(relay.text()),
    {
        proof {
            use_type_invariant(&self);
            use_type_invariant(&relay);
        }
        let ghost texts = self.relay_texts();
        let n = self.relays.len();
        let mut i: usize = 0;
        let mut found_greater = false;
        while i < n && !found_greater
            invariant
                found_greater ==> i < n && text_lt(relay.text(), texts[i as int]),
                n == self.relays@.len(),
                texts == self.relay_texts(),
                strictly_sorted(texts),
                i <= n,
                forall|j: int| 0 <= j < i ==> text_lt(#[trigger] texts[j], relay.text()),
            decreases n - i + (if found_greater { 0int } else { 1int }),
        {
            match compare_texts(self.relays[i].as_str(), relay.as_str()) {
                TextOrder::Less => {
                    i = i + 1;
                },
                TextOrder::Equal => {
                    proof {
                        assert(texts[i as int] == relay.text());
                        assert(texts.to_set().insert(relay.text()) =~= texts.to_set());
                    }
                    return self;
                },
                TextOrder::Greater => {
                    found_greater = true;
                },
            }
        }
        // Every relay before position `i` is smaller, every one from `i` on is greater.
        proof {
            if i < n {
                assert(text_lt(relay.text(), texts[i as int]));
                assert forall|j: int| i <= j < n implies text_lt(relay.text(), #[trigger] texts[j]) by {
                    if j > i {
                        lemma_bytes_lt_transitive(
                            encode_utf8(relay.text()),
                            encode_utf8(texts[i as int]),
                            encode_utf8(texts[j]),
                        );
                    }
                }
            }
        }
        let IrohAddr { id, relays } = self;
        let mut relays = relays;
        let ghost rt = relay.text();
        relays.insert(i, relay);
        proof {
            let nt = relays@.map_values(|r: RelayUrl| r.text());
            assert(nt =~= texts.insert(i as int, rt));
            assert forall|a: int, b: int| 0 <= a < b < nt.len() implies text_lt(#[trigger] nt[a], #[trigger] nt[b]) by {
                if b < i {
                } else if a < i && b == i {
                } else if a < i && b > i {
                    assert(nt[b] == texts[b - 1]);
                    assert(text_lt(texts[a], rt));
                    assert(text_lt(rt, texts[b - 1]));
                    lemma_bytes_lt_transitive(
                        encode_utf8(texts[a]),
                        encode_utf8(rt),
                        encode_utf8(texts[b - 1]),
                    );
                } else if a == i {
                    assert(nt[b] == texts[b - 1]);
                } else {
                    assert(nt[a] == texts[a - 1]);
                    assert(nt[b] == texts[b - 1]);
                }
            }
            assert forall|j: int| 0 <= j < nt.len() implies relay_url_from_str(#[trigger] nt[j])
                == Some(nt[j]) by {
                if j < i {
                    assert(nt[j] == texts[j]);
                } else if j > i {
                    assert(nt[j] == texts[j - 1]);
                }
            }
            assert(nt.to_set() =~= texts.to_set().insert(rt)) by {
                assert forall|t: Seq<char>| nt.to_set().contains(t) implies texts.to_set().insert(
                    rt,
                ).contains(t) by {
                    let k = choose|k: int| 0 <= k < nt.len() && nt[k] == t;
                    if k < i {
                        assert(texts[k] == t);
                    } else if k > i {
                        assert(texts[k - 1] == t);
                    }
                }
                assert forall|t: Seq<char>| texts.to_set().insert(rt).contains(t) implies nt.to_set().contains(t) by {
                    if t == rt {
                        assert(nt[i as int] == t);
                    } else {
                        let k = choose|k: int| 0 <= k < texts.len() && texts[k] == t;
                        if k < i {
                            assert(nt[k] == t);
                        } else {
                            assert(nt[k + 1] == t);
                        }
                    }
                }
            }
        }
        IrohAddr { id, relays }
    }

    /// The relays, in increasing order.
    pub fn relay_urls(&self) -> (r: &[RelayUrl])
        ensures
            r@.map_values(|u: RelayUrl| u.text()) == self.relay_texts(),
    {
        self.relays.as_slice()
    }
}

proof fn lemma_sorted_first_is_least(a: Seq<Seq<char>>, x: Seq<char>)
    requires
        strictly_sorted(a),
        a.len() > 0,
        a.contains(x),
    ensures
        x == a[0] || text_lt(a[0], x),
{
    let k = choose|k: int| 0 <= k < a.len() && a[k] == x;
    if k > 0 {
        assert(text_lt(a[0], a[k]));
    }
}

proof fn lemma_sorted_drop_first(a: Seq<Seq<char>>)
    requires
        strictly_sorted(a),
        a.len() > 0,
    ensures
        strictly_sorted(a.drop_first()),
        a.drop_first().to_set() == a.to_set().remove(a[0]),
{
    let r = a.drop_first();
    assert forall|i: int, j: int| 0 <= i < j < r.len() implies text_lt(#[trigger] r[i], #[trigger] r[j]) by {
        assert(r[i] == a[i + 1]);
        assert(r[j] == a[j + 1]);
    }
    assert forall|t: Seq<char>| r.to_set().contains(t) implies a.to_set().remove(a[0]).contains(t) by {
        let k = choose|k: int| 0 <= k < r.len() && r[k] == t;
        assert(a[k + 1] == t);
        assert(text_lt(a[0], a[k + 1]));
        lemma_bytes_lt_irreflexive(encode_utf8(a[0]));
    }
    assert forall|t: Seq<char>| a.to_set().remove(a[0]).contains(t) implies r.to_set().contains(t) by {
        let k = choose|k: int| 0 <= k < a.len() && a[k] == t;
        assert(k != 0);
        assert(r[k - 1] == t);
    }
    assert(r.to_set() =~= a.to_set().remove(a[0]));
}

/// Two sequences of texts in strictly increasing order that hold the same texts are equal.
pub proof fn lemma_sorted_same_set_equal(a: Seq<Seq<char>>, b: Seq<Seq<char>>)
    requires
        strictly_sorted(a),
        strictly_sorted(b),
        a.to_set() == b.to_set(),
    ensures
        a == b,
    decreases a.len(),
{
    if a.len() == 0 {
        if b.len() > 0 {
            assert(b.to_set().contains(b[0]));
        }
        assert(a =~= b);
    } else {
        assert(a.to_set().contains(a[0]));
        assert(b.len() > 0);
        assert(b.to_set().contains(b[0]));
        lemma_sorted_first_is_least(b, a[0]);
        lemma_sorted_first_is_least(a, b[0]);
        if a[0] != b[0] {
            lemma_bytes_lt_asymmetric(encode_utf8(a[0]), encode_utf8(b[0]));
        }
        lemma_sorted_drop_first(a);
        lemma_sorted_drop_first(b);
        lemma_sorted_same_set_equal(a.drop_first(), b.drop_first());
        assert(a =~= seq![a[0]] + a.drop_first());
        assert(b =~= seq![b[0]] + b.drop_first());
    }
}

} // verus!
