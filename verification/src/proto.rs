//! Handshake spoken on the pod network between the attaching agent (next to the VM) and the
//! exporting agent (next to the USB device), before the raw usbredir stream starts.
//!
//! ```text
//! attacher -> exporter: {"protocol":"atomic-usb/1","device":...,"claim":{...},"timestamp":...,"nonce":...,"mac":...}\n
//! exporter -> attacher: {"ok":true}\n        (or {"ok":false,"error":"..."}\n and close)
//! <usbredir protocol in both directions>
//! ```
//!
//! The MAC is HMAC-SHA256 over the request fields with a cluster-wide pre-shared key, which stops
//! arbitrary pods from grabbing USB devices. The stream itself is not encrypted; use a CNI with
//! transparent encryption (e.g. WireGuard) if the pod network is untrusted.

use vstd::prelude::*;
use vstd::utf8::encode_utf8;

use crate::digest::{
    from_hex, hex_decode, hex_encode, hex_text, hmac_of, hmac_sha256, hmac_verify,
    law_hex_round_trip, random_bytes,
};
use crate::table::Table;
use crate::text::{
    debug_text, decimal_i64, decimal_int, lemma_decimal_int_injective, quote, text_eq,
};

verus! {

pub const PROTOCOL: &'static str = "atomic-usb/1";

/// Maximum accepted clock difference between nodes.
pub const MAX_CLOCK_SKEW_SECS: i64 = 120;

/// Maximum length of a handshake line.
pub const MAX_LINE_BYTES: usize = 16384;

/// The claim that a session is for.
#[derive(Debug, PartialEq, Eq, Hash)]
pub struct ClaimRef {
    pub namespace: String,
    pub name: String,
    pub uid: String,
}

impl Clone for ClaimRef {
    fn clone(&self) -> (r: Self)
        ensures
            r == *self,
    {
        ClaimRef {
            namespace: self.namespace.clone(),
            name: self.name.clone(),
            uid: self.uid.clone(),
        }
    }
}

impl ClaimRef {
    /// Whether two references hold the same texts.
    pub open spec fn same_as(self, other: ClaimRef) -> bool {
        self.namespace@ == other.namespace@ && self.name@ == other.name@ && self.uid@ == other.uid@
    }

    /// Whether two references hold the same texts.
    pub fn same(&self, other: &ClaimRef) -> (same: bool)
        ensures
            same == self.same_as(*other),
    {
        text_eq(&self.namespace, &other.namespace) && text_eq(&self.name, &other.name) && text_eq(
            &self.uid,
            &other.uid,
        )
    }
}

/// The request that opens a session.
#[derive(Clone, Debug)]
pub struct Hello {
    pub protocol: String,
    pub device: String,
    pub claim: ClaimRef,
    pub timestamp: i64,
    pub nonce: String,
    pub mac: String,
}

/// The answer to a [`Hello`].
#[derive(Clone, Debug, PartialEq, Eq)]
pub struct Reply {
    pub ok: bool,
    pub error: Option<String>,
}

/// Why a [`Hello`] was refused.
#[derive(Debug, PartialEq, Eq)]
pub enum AuthError {
    Protocol(String),
    Mac,
    Expired,
    Replay,
}

/// What an [`AuthError`] holds.
pub enum AuthView {
    Protocol(Seq<char>),
    Mac,
    Expired,
    Replay,
}

impl View for AuthError {
    type V = AuthView;

    open spec fn view(&self) -> AuthView {
        match self {
            AuthError::Protocol(p) => AuthView::Protocol(p@),
            AuthError::Mac => AuthView::Mac,
            AuthError::Expired => AuthView::Expired,
            AuthError::Replay => AuthView::Replay,
        }
    }
}

impl AuthView {
    /// The text of the error.
    pub open spec fn text(self) -> Seq<char> {
        match self {
            AuthView::Protocol(p) => "unsupported protocol "@ + debug_text(p),
            AuthView::Mac => "invalid MAC"@,
            AuthView::Expired => "timestamp outside the allowed clock skew"@,
            AuthView::Replay => "nonce replayed"@,
        }
    }
}

/// The text about a protocol that is not spoken, given its quoted name.
pub fn protocol_message(quoted: &str) -> (text: String)
    ensures
        text@ == "unsupported protocol "@ + quoted@,
{
    "unsupported protocol ".to_string().concat(quoted)
}

impl AuthError {
    /// The text of the error.
    pub fn message(&self) -> (text: String)
        ensures
            text@ == self@.text(),
    {
        match self {
            AuthError::Protocol(p) => protocol_message(&quote(p)),
            AuthError::Mac => "invalid MAC".to_string(),
            AuthError::Expired => "timestamp outside the allowed clock skew".to_string(),
            AuthError::Replay => "nonce replayed".to_string(),
        }
    }
}

/// A number as a given count of bytes, most significant first.
pub open spec fn big_endian(n: int, count: nat) -> Seq<u8>
    decreases count,
{
    if count == 0 {
        Seq::empty()
    } else {
        big_endian(n / 256, (count - 1) as nat).push((n % 256) as u8)
    }
}

/// A number as a given count of bytes, most significant first.
fn be_bytes(n: u64, count: usize) -> (bytes: Vec<u8>)
    ensures
        bytes@ == big_endian(n as int, count as nat),
    decreases count,
{
    if count == 0 {
        return Vec::new();
    }
    let mut bytes = be_bytes(n / 256, count - 1);
    bytes.push((n % 256) as u8);
    bytes
}

/// A text after the number of its bytes.
pub open spec fn framed(text: Seq<char>) -> Seq<u8> {
    big_endian(encode_utf8(text).len() as int, 8) + encode_utf8(text)
}

/// Texts one after another, each after the number of its bytes.
pub open spec fn framed_all(texts: Seq<Seq<char>>) -> Seq<u8>
    decreases texts.len(),
{
    if texts.len() == 0 {
        Seq::empty()
    } else {
        framed(texts[0]) + framed_all(texts.drop_first())
    }
}

impl Hello {
    /// The fields that the MAC covers.
    pub open spec fn fields(self) -> Seq<Seq<char>> {
        seq![
            self.protocol@,
            self.device@,
            self.claim.namespace@,
            self.claim.name@,
            self.claim.uid@,
            decimal_int(self.timestamp as int),
            self.nonce@,
        ]
    }

    /// The bytes that the MAC covers.
    pub open spec fn transcript(self) -> Seq<u8> {
        framed_all(self.fields())
    }

    /// What is wrong with the request.
    pub open spec fn problem(self, psk: Seq<u8>, now: int) -> Option<AuthView> {
        if self.protocol@ != PROTOCOL@ {
            Some(AuthView::Protocol(self.protocol@))
        } else if from_hex(self.mac@) != Some(hmac_of(psk, self.transcript())) {
            Some(AuthView::Mac)
        } else if !within_skew(now, self.timestamp as int) {
            Some(AuthView::Expired)
        } else {
            None
        }
    }

    /// A request with a given nonce.
    pub fn with_nonce(
        psk: &[u8],
        device: &str,
        claim: ClaimRef,
        timestamp: i64,
        nonce: &str,
    ) -> (hello: Hello)
        ensures
            hello.protocol@ == PROTOCOL@,
            hello.device@ == device@,
            hello.claim == claim,
            hello.timestamp == timestamp,
            hello.nonce@ == nonce@,
            hello.mac@ == hex_text(hmac_of(psk@, hello.transcript())),
            hello.problem(psk@, timestamp as int) is None,
    {
        let blank = Hello {
            protocol: PROTOCOL.to_string(),
            device: device.to_string(),
            claim,
            timestamp,
            nonce: nonce.to_string(),
            mac: String::new(),
        };
        let code = blank.mac_for(psk);
        let mac = hex_encode(code.as_slice());
        let hello = Hello {
            protocol: blank.protocol,
            device: blank.device,
            claim: blank.claim,
            timestamp: blank.timestamp,
            nonce: blank.nonce,
            mac,
        };
        proof {
            assert(hello.fields() =~= blank.fields());
            law_hex_round_trip(hmac_of(psk@, hello.transcript()));
        }
        hello
    }

    /// A request with a random nonce: the text of 16 bytes, any of which may come up.
    pub fn new(psk: &[u8], device: &str, claim: ClaimRef, timestamp: i64) -> (hello: Hello)
        ensures
            hello.protocol@ == PROTOCOL@,
            hello.device@ == device@,
            hello.claim == claim,
            hello.timestamp == timestamp,
            exists|bytes: Seq<u8>| bytes.len() == 16 && hello.nonce@ == #[trigger] hex_text(bytes),
            hello.mac@ == hex_text(hmac_of(psk@, hello.transcript())),
            hello.problem(psk@, timestamp as int) is None,
    {
        let bytes: [u8; 16] = random_bytes::<16>();
        let nonce = hex_encode(&bytes);
        assert(bytes@.len() == 16 && nonce@ == hex_text(bytes@));
        Hello::with_nonce(psk, device, claim, timestamp, &nonce)
    }

    /// The MAC of the request.
    pub fn mac_for(&self, psk: &[u8]) -> (code: Vec<u8>)
        ensures
            code@ == hmac_of(psk@, self.transcript()),
            code@.len() == 32,
    {
        let input = self.transcript_bytes();
        hmac_sha256(psk, input.as_slice())
    }

    /// The bytes that the MAC covers.
    fn transcript_bytes(&self) -> (bytes: Vec<u8>)
        ensures
            bytes@ == self.transcript(),
    {
        let fields: Vec<String> = vec![
            self.protocol.clone(),
            self.device.clone(),
            self.claim.namespace.clone(),
            self.claim.name.clone(),
            self.claim.uid.clone(),
            decimal_i64(self.timestamp),
            self.nonce.clone(),
        ];
        let ghost all = self.fields();
        assert(fields.deep_view() =~= all);
        let mut input: Vec<u8> = Vec::new();
        assert(all.skip(0) =~= all);
        assert(input@ + framed_all(all) =~= framed_all(all));
        for i in 0..fields.len()
            invariant
                all == self.fields(),
                all == fields.deep_view(),
                input@ + framed_all(all.skip(i as int)) == framed_all(all),
        {
            let bytes = fields[i].as_str().as_bytes();
            let length = be_bytes(bytes.len() as u64, 8);
            let ghost before = input@;
            assert(all.skip(i as int)[0] == fields@[i as int]@);
            assert(all.skip(i as int).drop_first() =~= all.skip(i + 1));
            input.extend_from_slice(length.as_slice());
            input.extend_from_slice(bytes);
            assert(input@ =~= before + framed(all[i as int]));
            assert(input@ + framed_all(all.skip(i + 1)) =~= before + (framed(all[i as int])
                + framed_all(all.skip(i + 1))));
        }
        assert(all.skip(fields@.len() as int) =~= Seq::empty());
        assert(input@ + Seq::<u8>::empty() =~= input@);
        input
    }

    /// Verifies protocol, MAC and freshness. Replay protection is handled by [`NonceCache`].
    pub fn verify(&self, psk: &[u8], now: i64) -> (r: Result<(), AuthError>)
        ensures
            match r {
                Ok(_) => self.problem(psk@, now as int) is None,
                Err(e) => self.problem(psk@, now as int) == Some(e@),
            },
    {
        if !text_eq(&self.protocol, PROTOCOL) {
            return Err(AuthError::Protocol(self.protocol.clone()));
        }
        let expected = match hex_decode(&self.mac) {
            Some(expected) => expected,
            None => return Err(AuthError::Mac),
        };
        let input = self.transcript_bytes();
        if !hmac_verify(psk, input.as_slice(), expected.as_slice()) {
            return Err(AuthError::Mac);
        }
        if !is_fresh(now, self.timestamp) {
            return Err(AuthError::Expired);
        }
        Ok(())
    }
}

/// Whether two clocks differ by no more than is accepted.
pub open spec fn within_skew(now: int, timestamp: int) -> bool {
    -MAX_CLOCK_SKEW_SECS <= now - timestamp <= MAX_CLOCK_SKEW_SECS
}

/// Whether two clocks differ by no more than is accepted.
fn is_fresh(now: i64, timestamp: i64) -> (fresh: bool)
    ensures
        fresh == within_skew(now as int, timestamp as int),
{
    let difference: i128 = now as i128 - timestamp as i128;
    -(MAX_CLOCK_SKEW_SECS as i128) <= difference && difference <= MAX_CLOCK_SKEW_SECS as i128
}

/// Remembers nonces for the skew window so a captured handshake cannot be replayed.
pub struct NonceCache {
    seen: Table<String, i64>,
}

impl View for NonceCache {
    type V = Map<Seq<char>, i64>;

    closed spec fn view(&self) -> Map<Seq<char>, i64> {
        self.seen@
    }
}

/// The nonces that are still to be remembered.
pub open spec fn remembered(seen: Map<Seq<char>, i64>, now: int) -> Map<Seq<char>, i64> {
    seen.restrict(Set::new(|nonce: Seq<char>| within_skew(now, seen[nonce] as int)))
}

/// The nonces that are remembered after a nonce was checked.
pub open spec fn after_check(
    seen: Map<Seq<char>, i64>,
    nonce: Seq<char>,
    timestamp: i64,
    now: int,
) -> Map<Seq<char>, i64> {
    let rest = remembered(seen, now);
    if rest.contains_key(nonce) {
        rest
    } else {
        rest.insert(nonce, timestamp)
    }
}

impl Default for NonceCache {
    fn default() -> (cache: Self)
        ensures
            cache@ == Map::<Seq<char>, i64>::empty(),
    {
        NonceCache { seen: Table::new() }
    }
}

impl NonceCache {
    /// Forgets the nonces whose timestamps are out of the skew window.
    fn forget_old(&mut self, now: i64)
        ensures
            final(self)@ == remembered(old(self)@, now as int),
    {
        let mut old_nonces: Vec<String> = Vec::new();
        let ghost before = self@;
        let ghost items = self.seen.items();
        let n = self.seen.len();
        for i in 0..n
            invariant
                n == items.len(),
                items == self.seen.items(),
                before == self@,
                *self == *old(self),
                forall|k: int|
                    0 <= k < old_nonces@.len() ==> before.contains_key(
                        (#[trigger] old_nonces@[k])@,
                    ) && !within_skew(now as int, before[old_nonces@[k]@] as int),
                forall|j: int|
                    0 <= j < i && !within_skew(now as int, before[(#[trigger] items[j]).0@] as int)
                        ==> old_key(old_nonces@, items[j].0@),
        {
            let (nonce, timestamp) = self.seen.entry(i);
            if !is_fresh(now, *timestamp) {
                let ghost list = old_nonces@;
                old_nonces.push(nonce.clone());
                proof {
                    assert(old_nonces@[list.len() as int]@ == nonce@);
                    assert forall|j: int|
                        0 <= j < i + 1 && !within_skew(
                            now as int,
                            before[(#[trigger] items[j]).0@] as int,
                        ) implies old_key(old_nonces@, items[j].0@) by {
                        if j < i {
                            let k = choose|k: int|
                                0 <= k < list.len() && (#[trigger] list[k])@ == items[j].0@;
                            assert(old_nonces@[k]@ == items[j].0@);
                        }
                    }
                }
            }
        }
        proof {
            self.seen.lemma_items();
            crate::table::lemma_map_of_dom(items);
        }
        self.seen.remove_all(old_nonces.as_slice());
        proof {
            let kept = remembered(before, now as int);
            let gone = crate::table::key_set(old_nonces@);
            assert forall|k: Seq<char>| self@.contains_key(k) <==> kept.contains_key(k) by {
                if before.contains_key(k) && !within_skew(now as int, before[k] as int) {
                    let keys = crate::table::keys_of(items);
                    assert(crate::table::map_of(items).contains_key(k));
                    let j = choose|j: int| 0 <= j < keys.len() && keys[j] == k;
                    assert(items[j].0@ == k);
                    assert(old_key(old_nonces@, k));
                    assert(gone.contains(k));
                }
                if before.contains_key(k) && gone.contains(k) {
                    let m = choose|m: int|
                        0 <= m < old_nonces@.len() && (#[trigger] old_nonces@[m])@ == k;
                    assert(!within_skew(now as int, before[old_nonces@[m]@] as int));
                }
            }
            assert(self@ =~= kept);
        }
    }

    /// Refuses a nonce that was seen in the skew window, and remembers it otherwise.
    pub fn check_and_insert(&mut self, nonce: &str, timestamp: i64, now: i64) -> (r: Result<
        (),
        AuthError,
    >)
        ensures
            final(self)@ == after_check(old(self)@, nonce@, timestamp, now as int),
            match r {
                Ok(_) => !remembered(old(self)@, now as int).contains_key(nonce@),
                Err(e) => remembered(old(self)@, now as int).contains_key(nonce@) && e@
                    == AuthView::Replay,
            },
    {
        self.forget_old(now);
        let key = nonce.to_string();
        if self.seen.contains_key(&key) {
            return Err(AuthError::Replay);
        }
        self.seen.insert(key, timestamp);
        Ok(())
    }
}

/// Whether a key is among some keys.
spec fn old_key(keys: Seq<String>, key: Seq<char>) -> bool {
    exists|k: int| 0 <= k < keys.len() && (#[trigger] keys[k])@ == key
}

/// What became of a handshake line after one more byte.
#[derive(Clone, Copy, Debug, PartialEq, Eq, Structural)]
pub enum LineStatus {
    /// The line goes on.
    More,
    /// The line is complete; the next byte belongs to what follows it.
    Complete,
    /// The line is longer than is accepted.
    TooLong,
}

/// A handshake line that is read byte by byte, so that no bytes of the following usbredir stream
/// are consumed.
pub struct LineReader {
    line: Vec<u8>,
}

impl View for LineReader {
    type V = Seq<u8>;

    closed spec fn view(&self) -> Seq<u8> {
        self.line@
    }
}

/// What becomes of a line after one more byte.
pub open spec fn line_status(line: Seq<u8>, byte: u8) -> LineStatus {
    if byte == 10 {
        LineStatus::Complete
    } else if line.len() >= MAX_LINE_BYTES {
        LineStatus::TooLong
    } else {
        LineStatus::More
    }
}

impl LineReader {
    /// An empty line.
    pub fn new() -> (r: LineReader)
        ensures
            r@ == Seq::<u8>::empty(),
    {
        LineReader { line: Vec::new() }
    }

    /// Takes the next byte: a line feed completes the line, any other byte extends it unless it
    /// has its maximum length.
    pub fn push(&mut self, byte: u8) -> (status: LineStatus)
        ensures
            status == line_status(old(self)@, byte),
            final(self)@ == (if status == LineStatus::More {
                old(self)@.push(byte)
            } else {
                old(self)@
            }),
    {
        if byte == 10 {
            LineStatus::Complete
        } else if self.line.len() >= MAX_LINE_BYTES {
            LineStatus::TooLong
        } else {
            self.line.push(byte);
            LineStatus::More
        }
    }

    /// The bytes of the line, without the line feed.
    pub fn line(&self) -> (line: &[u8])
        ensures
            line@ == self@,
    {
        self.line.as_slice()
    }
}

/// The message about a line that is longer than is accepted.
pub fn line_too_long() -> (message: String)
    ensures
        message@ == "handshake line too long"@,
{
    "handshake line too long".to_string()
}

/// Ends a line with a line feed.
pub fn end_line(content: Vec<u8>) -> (line: Vec<u8>)
    ensures
        line@ == content@.push(10u8),
{
    let mut line = content;
    line.push(10);
    line
}

/// What is read of a stream as a line: the line and the rest of the stream, if the stream holds a
/// complete line that is not too long.
pub open spec fn read_line(line: Seq<u8>, stream: Seq<u8>) -> Option<(Seq<u8>, Seq<u8>)>
    decreases stream.len(),
{
    if stream.len() == 0 {
        None
    } else {
        match line_status(line, stream[0]) {
            LineStatus::More => read_line(line.push(stream[0]), stream.drop_first()),
            LineStatus::Complete => Some((line, stream.drop_first())),
            LineStatus::TooLong => None,
        }
    }
}

/// Reading a line back gives its content, and no byte of what follows it is consumed.
pub proof fn law_line_reader_does_not_over_read(content: Seq<u8>, rest: Seq<u8>)
    requires
        !content.contains(10u8),
        content.len() <= MAX_LINE_BYTES,
    ensures
        read_line(Seq::empty(), content.push(10u8) + rest) == Some((content, rest)),
{
    lemma_read_line(Seq::empty(), content, rest);
    assert(Seq::<u8>::empty() + content =~= content);
}

/// Reading the rest of a line.
proof fn lemma_read_line(line: Seq<u8>, content: Seq<u8>, rest: Seq<u8>)
    requires
        !content.contains(10u8),
        line.len() + content.len() <= MAX_LINE_BYTES,
    ensures
        read_line(line, content.push(10u8) + rest) == Some((line + content, rest)),
    decreases content.len(),
{
    let stream = content.push(10u8) + rest;
    if content.len() == 0 {
        assert(stream[0] == 10);
        assert(stream.drop_first() =~= rest);
        assert(line + content =~= line);
    } else {
        assert(content.contains(content[0]));
        assert(stream[0] == content[0]);
        let tail = content.drop_first();
        assert forall|i: int| 0 <= i < tail.len() implies tail[i] != 10 by {
            assert(tail[i] == content[i + 1]);
            assert(content.contains(content[i + 1]));
        }
        lemma_read_line(line.push(content[0]), tail, rest);
        assert(stream.drop_first() =~= tail.push(10u8) + rest);
        assert(line.push(content[0]) + tail =~= line + content);
    }
}

/// A request verifies with the key it was made with, as long as the clocks differ by no more than
/// is accepted, and is refused as expired otherwise.
pub proof fn law_valid_hello_verifies(hello: Hello, psk: Seq<u8>, now: int)
    requires
        hello.protocol@ == PROTOCOL@,
        hello.mac@ == hex_text(hmac_of(psk, hello.transcript())),
    ensures
        hello.problem(psk, now) == (if within_skew(now, hello.timestamp as int) {
            None
        } else {
            Some(AuthView::Expired)
        }),
{
    law_hex_round_trip(hmac_of(psk, hello.transcript()));
}

/// A request is accepted only if its MAC is the one of its fields under the key.
pub proof fn law_accepted_hello_is_authentic(hello: Hello, psk: Seq<u8>, now: int)
    requires
        hello.problem(psk, now) is None,
    ensures
        from_hex(hello.mac@) == Some(hmac_of(psk, hello.transcript())),
        hello.protocol@ == PROTOCOL@,
        within_skew(now, hello.timestamp as int),
{
}

/// Numbers below `256^count` have different bytes.
proof fn lemma_big_endian_injective(a: int, b: int, count: nat)
    requires
        0 <= a < vstd::arithmetic::power::pow(256, count),
        0 <= b < vstd::arithmetic::power::pow(256, count),
        big_endian(a, count) == big_endian(b, count),
    ensures
        a == b,
    decreases count,
{
    reveal(vstd::arithmetic::power::pow);
    if count > 0 {
        let rest = (count - 1) as nat;
        let (x, y) = (big_endian(a, count), big_endian(b, count));
        assert(x.drop_last() =~= big_endian(a / 256, rest));
        assert(y.drop_last() =~= big_endian(b / 256, rest));
        assert(x.last() == (a % 256) as u8);
        assert(y.last() == (b % 256) as u8);
        assert(vstd::arithmetic::power::pow(256, count) == 256 * vstd::arithmetic::power::pow(
            256,
            rest,
        ));
        lemma_big_endian_injective(a / 256, b / 256, rest);
    }
}

/// The bytes of a number are as many as asked for.
proof fn lemma_big_endian_len(n: int, count: nat)
    ensures
        big_endian(n, count).len() == count,
    decreases count,
{
    if count > 0 {
        lemma_big_endian_len(n / 256, (count - 1) as nat);
    }
}

/// Whether the number of bytes of each text can be written in eight bytes.
pub open spec fn sized(texts: Seq<Seq<char>>) -> bool {
    forall|i: int| 0 <= i < texts.len() ==> encode_utf8(#[trigger] texts[i]).len() <= u64::MAX
}

/// Framed texts can be told apart.
proof fn lemma_framed_injective(a: Seq<Seq<char>>, b: Seq<Seq<char>>)
    requires
        a.len() == b.len(),
        sized(a),
        sized(b),
        framed_all(a) == framed_all(b),
    ensures
        a == b,
    decreases a.len(),
{
    if a.len() > 0 {
        let (x, y) = (encode_utf8(a[0]), encode_utf8(b[0]));
        let (s, t) = (framed_all(a), framed_all(b));
        let (ra, rb) = (framed_all(a.drop_first()), framed_all(b.drop_first()));
        lemma_big_endian_len(x.len() as int, 8);
        lemma_big_endian_len(y.len() as int, 8);
        assert(s.take(8) =~= big_endian(x.len() as int, 8));
        assert(t.take(8) =~= big_endian(y.len() as int, 8));
        assert(vstd::arithmetic::power::pow(256, 8) == 0x1_0000_0000_0000_0000) by {
            reveal_with_fuel(vstd::arithmetic::power::pow, 9);
        }
        lemma_big_endian_injective(x.len() as int, y.len() as int, 8);
        let n = x.len() as int;
        assert(s.subrange(8, 8 + n) =~= x);
        assert(t.subrange(8, 8 + n) =~= y);
        vstd::utf8::encode_utf8_decode_utf8(a[0]);
        vstd::utf8::encode_utf8_decode_utf8(b[0]);
        assert(a[0] == b[0]);
        assert(s.skip(8 + n) =~= ra);
        assert(t.skip(8 + n) =~= rb);
        assert forall|i: int| 0 <= i < a.drop_first().len() implies encode_utf8(
            #[trigger] a.drop_first()[i],
        ).len() <= u64::MAX by {
            assert(a.drop_first()[i] == a[i + 1]);
        }
        assert forall|i: int| 0 <= i < b.drop_first().len() implies encode_utf8(
            #[trigger] b.drop_first()[i],
        ).len() <= u64::MAX by {
            assert(b.drop_first()[i] == b[i + 1]);
        }
        lemma_framed_injective(a.drop_first(), b.drop_first());
        assert(a =~= seq![a[0]] + a.drop_first());
        assert(b =~= seq![b[0]] + b.drop_first());
    } else {
        assert(a =~= b);
    }
}

/// Field boundaries are unambiguous: requests whose MACs cover the same bytes agree in every field
/// that the MAC covers.
pub proof fn law_field_boundaries_are_unambiguous(a: Hello, b: Hello)
    requires
        sized(a.fields()),
        sized(b.fields()),
        a.transcript() == b.transcript(),
    ensures
        a.protocol@ == b.protocol@,
        a.device@ == b.device@,
        a.claim.same_as(b.claim),
        a.timestamp == b.timestamp,
        a.nonce@ == b.nonce@,
{
    lemma_framed_injective(a.fields(), b.fields());
    let (x, y) = (a.fields(), b.fields());
    assert(x[0] == y[0] && x[1] == y[1] && x[2] == y[2] && x[3] == y[3] && x[4] == y[4] && x[5]
        == y[5] && x[6] == y[6]);
    lemma_decimal_int_injective(a.timestamp as int, b.timestamp as int);
}

/// A check of a nonce with a timestamp at some time.
pub struct NonceCheck {
    pub nonce: Seq<char>,
    pub timestamp: i64,
    pub now: int,
}

/// The nonces that are remembered after some checks.
pub open spec fn after_checks(
    seen: Map<Seq<char>, i64>,
    checks: Seq<NonceCheck>,
) -> Map<Seq<char>, i64>
    decreases checks.len(),
{
    if checks.len() == 0 {
        seen
    } else {
        let c = checks.last();
        after_check(after_checks(seen, checks.drop_last()), c.nonce, c.timestamp, c.now)
    }
}

/// A captured handshake cannot be replayed: once a nonce with a fresh timestamp is remembered, it
/// is refused for as long as a request with that timestamp would be accepted, whatever was checked
/// in between, as long as the clock does not go back.
pub proof fn law_replay_is_rejected(
    seen: Map<Seq<char>, i64>,
    nonce: Seq<char>,
    timestamp: i64,
    first: int,
    checks: Seq<NonceCheck>,
    now: int,
)
    requires
        seen.contains_key(nonce),
        seen[nonce] == timestamp,
        within_skew(first, timestamp as int),
        within_skew(now, timestamp as int),
        forall|i: int| 0 <= i < checks.len() ==> first <= (#[trigger] checks[i]).now <= now,
    ensures
        remembered(after_checks(seen, checks), now).contains_key(nonce),
{
    lemma_nonce_stays(seen, nonce, timestamp, first, checks, now);
}

/// A nonce stays remembered.
proof fn lemma_nonce_stays(
    seen: Map<Seq<char>, i64>,
    nonce: Seq<char>,
    timestamp: i64,
    first: int,
    checks: Seq<NonceCheck>,
    now: int,
)
    requires
        seen.contains_key(nonce),
        seen[nonce] == timestamp,
        within_skew(first, timestamp as int),
        within_skew(now, timestamp as int),
        forall|i: int| 0 <= i < checks.len() ==> first <= (#[trigger] checks[i]).now <= now,
    ensures
        after_checks(seen, checks).contains_key(nonce),
        after_checks(seen, checks)[nonce] == timestamp,
    decreases checks.len(),
{
    if checks.len() > 0 {
        let rest = checks.drop_last();
        assert forall|i: int| 0 <= i < rest.len() implies first <= (#[trigger] rest[i]).now
            <= now by {
            assert(rest[i] == checks[i]);
        }
        lemma_nonce_stays(seen, nonce, timestamp, first, rest, now);
        assert(checks[checks.len() - 1] == checks.last());
    }
}

/// A request is refused for the first of these that holds: it is of another protocol version, its
/// MAC is not the one of its fields under the key, or its time is more than two minutes away from
/// that of this node. Otherwise it is accepted.
pub proof fn law_requests_are_refused_for_the_first_problem(hello: Hello, psk: Seq<u8>, now: int)
    ensures
        ({
            let version = hello.protocol@ == "atomic-usb/1"@;
            let authentic = from_hex(hello.mac@) == Some(hmac_of(psk, hello.transcript()));
            let fresh = now - hello.timestamp <= 120 && hello.timestamp - now <= 120;
            &&& hello.problem(psk, now) is None <==> version && authentic && fresh
            &&& !version ==> hello.problem(psk, now) == Some(AuthView::Protocol(hello.protocol@))
            &&& version && !authentic ==> hello.problem(psk, now) == Some(AuthView::Mac)
            &&& version && authentic && !fresh ==> hello.problem(psk, now) == Some(
                AuthView::Expired,
            )
        }),
{
}

/// Errors say what is wrong with a request.
pub proof fn law_errors_say_what_is_wrong(protocol: Seq<char>)
    ensures
        AuthView::Protocol(protocol).text() == "unsupported protocol "@ + debug_text(protocol),
        AuthView::Mac.text() == "invalid MAC"@,
        AuthView::Expired.text() == "timestamp outside the allowed clock skew"@,
        AuthView::Replay.text() == "nonce replayed"@,
{
}

/// A nonce is remembered exactly as long as a request with its time would be accepted; a new one is
/// remembered with the time of its request, and a known one keeps its time.
pub proof fn law_nonces_are_remembered_while_requests_are_fresh(
    seen: Map<Seq<char>, i64>,
    nonce: Seq<char>,
    timestamp: i64,
    now: int,
    other: Seq<char>,
)
    ensures
        remembered(seen, now).contains_key(other) <==> seen.contains_key(other) && now - seen[other]
            <= 120 && seen[other] - now <= 120,
        remembered(seen, now).contains_key(other) ==> remembered(seen, now)[other] == seen[other],
        after_check(seen, nonce, timestamp, now).contains_key(nonce),
        !remembered(seen, now).contains_key(nonce) ==> after_check(seen, nonce, timestamp, now)[nonce]
            == timestamp,
        remembered(seen, now).contains_key(nonce) ==> after_check(seen, nonce, timestamp, now)[nonce]
            == seen[nonce],
        other != nonce ==> (after_check(seen, nonce, timestamp, now).contains_key(other)
            <==> remembered(seen, now).contains_key(other)),
{
}

/// A line ends at its line feed, and is refused once it has more bytes than are accepted.
pub proof fn law_lines_end_at_the_line_feed(line: Seq<u8>, byte: u8)
    ensures
        byte == 10 ==> line_status(line, byte) == LineStatus::Complete,
        byte != 10 && line.len() < 16384 ==> line_status(line, byte) == LineStatus::More,
        byte != 10 && line.len() >= 16384 ==> line_status(line, byte) == LineStatus::TooLong,
{
}

} // verus!
