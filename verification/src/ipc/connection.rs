//! Framing of q IPC messages: connection methods, message headers, queries and the check
//! of a client's credential.

use super::bytes::{host_encoding, push_uint, uint_bytes};
use super::compression::{compress, decompress, deflate, inflate};
use super::inflate_deflate::law_deflate_frame;
use super::deserialize::decode_q;
use super::object::K;
use super::serialize::{encodable, encode_q};
use crate::qtype;
use super::text::{digit_char, digits};
use vstd::string::StringExecFns;
use vstd::utf8::encode_utf8;
use vstd::prelude::*;

verus! {

//%% ConnectionMethod %%//vvvvvvvvvvvvvvvvvvvvvvvvvvvvvvv/

/// Connection method to q/kdb+.
#[derive(Clone, Copy, Debug, PartialEq, Eq, Structural)]
pub enum ConnectionMethod {
    TCP,
    TLS,
    /// Unix domain socket.
    UDS,
}

/// The name of a connection method.
pub open spec fn method_name(method: ConnectionMethod) -> Seq<char> {
    match method {
        ConnectionMethod::TCP => "TCP"@,
        ConnectionMethod::TLS => "TLS"@,
        ConnectionMethod::UDS => "UDS"@,
    }
}

/// The name of a connection method: `TCP`, `TLS` or `UDS`.
pub fn connection_type(method: ConnectionMethod) -> (r: &'static str)
    ensures
        r@ == method_name(method),
{
    match method {
        ConnectionMethod::TCP => "TCP",
        ConnectionMethod::TLS => "TLS",
        ConnectionMethod::UDS => "UDS",
    }
}

//%% MessageHeader %%//vvvvvvvvvvvvvvvvvvvvvvvvvvvvvvvvvv/

/// Header of a q IPC data frame.
#[derive(Clone, Copy, Debug)]
pub struct MessageHeader {
    /// Encoding: 0 for big endian, 1 for little endian.
    pub encoding: u8,
    /// Message type: 0 asynchronous, 1 synchronous, 2 response.
    pub message_type: u8,
    /// 1 where the message is compressed, else 0.
    pub compressed: u8,
    /// Reserved byte.
    pub unused: u8,
    /// Total length of the message, header included.
    pub length: u32,
}

/// The length that the bytes 4 to 7 of a header hold, in the byte order of its first byte
/// (0 for big endian, any other value for little endian).
pub open spec fn header_length(bytes: [u8; 8]) -> int {
    if bytes[0] == 0 {
        bytes[4] * 0x100_0000 + bytes[5] * 0x1_0000 + bytes[6] * 0x100 + bytes[7]
    } else {
        bytes[7] * 0x100_0000 + bytes[6] * 0x1_0000 + bytes[5] * 0x100 + bytes[4]
    }
}

impl MessageHeader {
    /// A header with the reserved byte 0.
    pub fn new(encoding: u8, message_type: u8, compressed: u8, length: u32) -> (r: Self)
        ensures
            r.encoding == encoding,
            r.message_type == message_type,
            r.compressed == compressed,
            r.unused == 0,
            r.length == length,
    {
        MessageHeader { encoding, message_type, compressed, unused: 0, length }
    }

    /// The header held by the first 8 bytes of a message.
    pub fn from_bytes(bytes: [u8; 8]) -> (r: Self)
        ensures
            r.encoding == bytes[0],
            r.message_type == bytes[1],
            r.compressed == bytes[2],
            r.unused == 0,
            r.length == header_length(bytes),
    {
        let encoding = bytes[0];
        let length: u32 = if encoding == 0 {
            (bytes[4] as u32) * 0x100_0000 + (bytes[5] as u32) * 0x1_0000 + (bytes[6] as u32)
                * 0x100 + bytes[7] as u32
        } else {
            (bytes[7] as u32) * 0x100_0000 + (bytes[6] as u32) * 0x1_0000 + (bytes[5] as u32)
                * 0x100 + bytes[4] as u32
        };
        MessageHeader::new(encoding, bytes[1], bytes[2], length)
    }

    /// Length of a header in bytes.
    pub fn size() -> (r: usize)
        ensures
            r == 8,
    {
        8
    }
}

//%% Query %%//vvvvvvvvvvvvvvvvvvvvvvvvvvvvvvvvvvvvvvvvv/

/// A message in the byte order `encoding` that carries a q query given as text: the header,
/// then the text as a q string.
pub open spec fn text_query_message(text: Seq<u8>, encoding: u8, message_type: u8) -> Seq<u8> {
    seq![encoding, message_type, 0u8, 0u8] + uint_bytes((14 + text.len()) as nat, 4, encoding)
        + seq![qtype::STRING as u8, 0u8] + uint_bytes(text.len(), 4, encoding) + text
}

/// A message in the byte order `encoding` that carries a q object: the header and the
/// encoding of the object, compressed where the encoding is longer than 1992 bytes, the
/// connection is not within the host and the message compresses to less than half its size.
pub open spec fn object_message(
    k: super::object::QObject,
    encoding: u8,
    message_type: u8,
    is_local: bool,
) -> Seq<u8> {
    let body = encode_q(k, encoding);
    let plain = seq![encoding, message_type, 0u8, 0u8] + uint_bytes(
        (8 + body.len()) as nat,
        4,
        encoding,
    ) + body;
    if body.len() > 1992 && !is_local {
        match deflate(seq![encoding, message_type, 0u8, 0u8, 0u8, 0u8, 0u8, 0u8] + body, encoding) {
            Some(c) => c,
            None => plain,
        }
    } else {
        plain
    }
}

/// A query that can be sent to q: serialized into a q IPC message, header included.
pub trait Query {
    /// Whether the query can be serialized.
    spec fn serializable(&self) -> bool;

    /// The message in the byte order `encoding` that carries the query.
    spec fn message(&self, encoding: u8, message_type: u8, is_local: bool) -> Seq<u8>;

    /// Serialize into q IPC bytes including a header (encoding, message type, compression flag
    /// and total message length), in the byte order of the host, which the first byte names.
    /// A message within the same host is never compressed.
    fn serialize(&self, message_type: u8, is_local: bool) -> (r: Vec<u8>)
        requires
            self.serializable(),
        ensures
            r@.len() > 0,
            r@[0] == 0 || r@[0] == 1,
            r@ == self.message(r@[0], message_type, is_local),
    ;
}

/// A query as q text; it is not compressed.
impl Query for &str {
    open spec fn serializable(&self) -> bool {
        encode_utf8(self@).len() + 14 <= u32::MAX
    }

    open spec fn message(&self, encoding: u8, message_type: u8, is_local: bool) -> Seq<u8> {
        text_query_message(encode_utf8(self@), encoding, message_type)
    }

    fn serialize(&self, message_type: u8, is_local: bool) -> (r: Vec<u8>) {
        let encoding = host_encoding();
        let bytes = self.as_bytes();
        let length = bytes.len();
        let mut message: Vec<u8> = Vec::new();
        message.push(encoding);
        message.push(message_type);
        message.push(0);
        message.push(0);
        push_uint(&mut message, (length + 14) as u64, 4, encoding);
        message.push(qtype::STRING as u8);
        message.push(0);
        push_uint(&mut message, length as u64, 4, encoding);
        super::serialize::push_all(&mut message, bytes);
        proof {
            assert(message@ =~= self.message(encoding, message_type, is_local));
        }
        message
    }
}

/// A query in functional form: a q object.
impl Query for K {
    open spec fn serializable(&self) -> bool {
        encodable(self@) && encode_q(self@, 0).len() + 8 <= i32::MAX && encode_q(self@, 1).len()
            + 8 <= i32::MAX
    }

    open spec fn message(&self, encoding: u8, message_type: u8, is_local: bool) -> Seq<u8> {
        object_message(self@, encoding, message_type, is_local)
    }

    fn serialize(&self, message_type: u8, is_local: bool) -> (r: Vec<u8>) {
        let encoding = host_encoding();
        let body = self.q_ipc_encode(encoding);
        let length = body.len();
        if length > 1992 && !is_local {
            let mut message: Vec<u8> = Vec::new();
            message.push(encoding);
            message.push(message_type);
            let mut k: usize = 0;
            while k < 6
                invariant
                    k <= 6,
                    message@ == seq![encoding, message_type] + Seq::new(k as nat, |j: int| 0u8),
                decreases 6 - k,
            {
                message.push(0);
                k += 1;
                assert(message@ =~= seq![encoding, message_type] + Seq::new(k as nat, |j: int| 0u8));
            }
            let ghost head = message@;
            super::serialize::push_all(&mut message, body.as_slice());
            assert(head =~= seq![encoding, message_type, 0u8, 0u8, 0u8, 0u8, 0u8, 0u8]);
            let ghost raw = message@;
            let (done, mut out) = compress(message, encoding);
            if done {
                proof {
                    law_deflate_frame(raw, encoding);
                }
                out
            } else {
                let mut plain: Vec<u8> = Vec::new();
                plain.push(encoding);
                plain.push(message_type);
                plain.push(0);
                plain.push(0);
                push_uint(&mut plain, (length + 8) as u64, 4, encoding);
                super::serialize::push_all(&mut plain, body.as_slice());
                proof {
                    assert(plain@ =~= self.message(encoding, message_type, is_local));
                }
                plain
            }
        } else {
            let mut message: Vec<u8> = Vec::new();
            message.push(encoding);
            message.push(message_type);
            message.push(0);
            message.push(0);
            push_uint(&mut message, (length + 8) as u64, 4, encoding);
            super::serialize::push_all(&mut message, body.as_slice());
            proof {
                assert(message@ =~= self.message(encoding, message_type, is_local));
            }
            message
        }
    }
}

//%% Receiving %%//vvvvvvvvvvvvvvvvvvvvvvvvvvvvvvvvvvvvvvv/

/// The body of a message once decompressed where its header says it is compressed: `None`
/// where a compressed body is malformed.
pub open spec fn message_body(header: MessageHeader, body: Seq<u8>) -> Option<Seq<u8>> {
    if header.compressed == 1 {
        inflate(body, header.encoding)
    } else {
        Some(body)
    }
}

/// The message type and the object of a message whose header and body have been read,
/// decompressing the body where the header says it is compressed. `None` where the body is
/// malformed.
pub fn parse_message(header: MessageHeader, body: Vec<u8>) -> (r: Option<(u8, K)>)
    requires
        body@.len() < usize::MAX,
    ensures
        match r {
            Some((t, k)) => {
                &&& t == header.message_type
                &&& message_body(header, body@) matches Some(b)
                &&& decode_q(b, 0, header.encoding) matches Some(p)
                &&& k@ == p.0
            },
            None => match message_body(header, body@) {
                Some(b) => decode_q(b, 0, header.encoding) is None,
                None => true,
            },
        },
{
    let bytes = if header.compressed == 1 {
        match decompress(body.as_slice(), header.encoding) {
            Some(b) => b,
            None => {
                return None;
            },
        }
    } else {
        body
    };
    match K::q_ipc_decode(bytes.as_slice(), header.encoding) {
        Some(k) => Some((header.message_type, k)),
        None => None,
    }
}

//%% Credentials %%//vvvvvvvvvvvvvvvvvvvvvvvvvvvvvvvvvvvvv/

/// The byte that separates a user name from a password.
pub const COLON: u8 = 58;

/// Index of the first byte `x` of `b`, or the length of `b` where it has none.
pub open spec fn find_byte(b: Seq<u8>, x: u8) -> int
    decreases b.len(),
{
    if b.len() == 0 {
        0
    } else if b[0] == x {
        0
    } else {
        1 + find_byte(b.drop_first(), x)
    }
}

/// Whether a byte of client input gives the client's capacity (3 or 6), which ends its
/// credential.
pub open spec fn is_capacity(x: u8) -> bool {
    x == 3 || x == 6
}

/// Index of the first capacity byte of `b`, or the length of `b` where it has none.
pub open spec fn find_capacity(b: Seq<u8>) -> int
    decreases b.len(),
{
    if b.len() == 0 {
        0
    } else if is_capacity(b[0]) {
        0
    } else {
        1 + find_capacity(b.drop_first())
    }
}

/// `find_byte` is the first index of `x`.
proof fn lemma_find_byte(b: Seq<u8>, x: u8, i: int)
    requires
        0 <= i <= b.len(),
        forall|j: int| 0 <= j < i ==> b[j] != x,
        i == b.len() || b[i] == x,
    ensures
        find_byte(b, x) == i,
    decreases i,
{
    if i > 0 {
        lemma_find_byte(b.drop_first(), x, i - 1);
    }
}

/// `find_capacity` is the first index of a capacity byte.
proof fn lemma_find_capacity(b: Seq<u8>, i: int)
    requires
        0 <= i <= b.len(),
        forall|j: int| 0 <= j < i ==> !is_capacity(b[j]),
        i == b.len() || is_capacity(b[i]),
    ensures
        find_capacity(b) == i,
    decreases i,
{
    if i > 0 {
        lemma_find_capacity(b.drop_first(), i - 1);
    }
}

/// Index of the first byte `x` of `b`, or the length of `b`.
fn position_of(b: &[u8], x: u8) -> (r: usize)
    ensures
        r == find_byte(b@, x),
        r <= b@.len(),
{
    let mut i: usize = 0;
    while i < b.len() && b[i] != x
        invariant
            i <= b@.len(),
            forall|j: int| 0 <= j < i ==> b@[j] != x,
        decreases b@.len() - i,
    {
        i += 1;
    }
    proof {
        lemma_find_byte(b@, x, i as int);
    }
    i
}

/// The position of the first capacity byte (3 or 6) in a chunk of client input, if any.
pub fn capacity_position(chunk: &[u8]) -> (r: Option<usize>)
    ensures
        match r {
            Some(i) => i == find_capacity(chunk@) && i < chunk@.len(),
            None => find_capacity(chunk@) == chunk@.len(),
        },
{
    let mut i: usize = 0;
    while i < chunk.len() && !(chunk[i] == 3 || chunk[i] == 6)
        invariant
            i <= chunk@.len(),
            forall|j: int| 0 <= j < i ==> !is_capacity(chunk@[j]),
        decreases chunk@.len() - i,
    {
        i += 1;
    }
    proof {
        lemma_find_capacity(chunk@, i as int);
    }
    if i < chunk.len() {
        Some(i)
    } else {
        None
    }
}

/// The first field of `user:password`: the bytes before the first colon.
pub open spec fn first_field(b: Seq<u8>) -> Seq<u8> {
    b.take(find_byte(b, COLON))
}

/// The second field of `user:password`: the bytes after the first colon, up to the next one.
pub open spec fn second_field(b: Seq<u8>) -> Seq<u8> {
    let rest = b.skip(find_byte(b, COLON) + 1);
    rest.take(find_byte(rest, COLON))
}

/// The bytes of `b` from `from` to `to`.
fn copy_bytes(b: &[u8], from: usize, to: usize) -> (r: Vec<u8>)
    requires
        from <= to <= b@.len(),
    ensures
        r@ == b@.subrange(from as int, to as int),
{
    let mut r: Vec<u8> = Vec::new();
    let mut i: usize = from;
    while i < to
        invariant
            from <= i <= to <= b@.len(),
            r@ == b@.subrange(from as int, i as int),
        decreases to - i,
    {
        r.push(b[i]);
        i += 1;
        assert(r@ =~= b@.subrange(from as int, i as int));
    }
    r
}

/// The user name and the password of a credential `user:password` (a further colon ends the
/// password).
pub fn split_credential(credential: &[u8]) -> (r: (Vec<u8>, Vec<u8>))
    requires
        find_byte(credential@, COLON) < credential@.len(),
    ensures
        r.0@ == first_field(credential@),
        r.1@ == second_field(credential@),
{
    let b = credential;
    let i = position_of(b, COLON);
    let user = copy_bytes(b, 0, i);
    let len = b.len();
    assert(i < len);
    let mut j: usize = i + 1;
    while j < b.len() && b[j] != COLON
        invariant
            i + 1 <= j <= b@.len(),
            forall|k: int| i + 1 <= k < j ==> b@[k] != COLON,
        decreases b@.len() - j,
    {
        j += 1;
    }
    let password = copy_bytes(b, i + 1, j);
    proof {
        let rest = b@.skip(i + 1);
        assert forall|k: int| 0 <= k < j - (i + 1) implies rest[k] != COLON by {
            assert(rest[k] == b@[k + i + 1]);
        }
        lemma_find_byte(rest, COLON, j - (i + 1));
        assert(user@ =~= first_field(b@));
        assert(password@ =~= second_field(b@));
    }
    (user, password)
}

/// `b` without one trailing newline.
pub open spec fn strip_newline(b: Seq<u8>) -> Seq<u8> {
    if b.len() > 0 && b.last() == 10 {
        b.drop_last()
    } else {
        b
    }
}

/// The user name and the SHA-1 hash of the password of a line `user:hash` of an account
/// file, without its trailing newline.
pub fn account_entry(line: &[u8]) -> (r: (Vec<u8>, Vec<u8>))
    requires
        find_byte(line@, COLON) < line@.len(),
    ensures
        r.0@ == first_field(line@),
        r.1@ == strip_newline(second_field(line@)),
{
    let (user, mut hash) = split_credential(line);
    let n = hash.len();
    if n > 0 && hash[n - 1] == 10 {
        hash.truncate(n - 1);
    }
    (user, hash)
}

/// Accounts as pairs of plain byte sequences.
pub open spec fn accounts_view(accounts: Seq<(Vec<u8>, Vec<u8>)>) -> Seq<(Seq<u8>, Seq<u8>)> {
    Seq::new(accounts.len(), |i: int| (accounts[i].0@, accounts[i].1@))
}

/// The hash of the password of `user`: that of the last account of the user, as a map filled
/// in order keeps it.
pub open spec fn account_hash(accounts: Seq<(Seq<u8>, Seq<u8>)>, user: Seq<u8>) -> Option<Seq<u8>>
    decreases accounts.len(),
{
    if accounts.len() == 0 {
        None
    } else if accounts.last().0 == user {
        Some(accounts.last().1)
    } else {
        account_hash(accounts.drop_last(), user)
    }
}

/// The SHA-1 digest of some bytes as text (what `sha1_smol` prints for it).
pub uninterp spec fn sha1_hex_digest(data: Seq<u8>) -> Seq<char>;

/// `sha1_smol`: `Sha1::from(data).digest().to_string()`, the SHA-1 digest of `data` printed
/// as the `Display` of `Digest` prints it, five words of 8 lower-case hexadecimal digits.
/// Claimed: the text is the named digest of `data`, 40 characters long, each a digit or a
/// letter from `a` to `f`.
#[verifier::external_body]
fn sha1_hex(data: &[u8]) -> (r: String)
    ensures
        r@ == sha1_hex_digest(data@),
        r@.len() == 40,
        forall|i: int|
            0 <= i < 40 ==> ('0' <= #[trigger] r@[i] <= '9' || 'a' <= r@[i] <= 'f'),
{
    sha1_smol::Sha1::from(data).digest().to_string()
}

/// Whether two byte sequences are equal.
fn bytes_eq(a: &[u8], b: &[u8]) -> (r: bool)
    ensures
        r == (a@ == b@),
{
    if a.len() != b.len() {
        return false;
    }
    let mut i: usize = 0;
    while i < a.len()
        invariant
            a@.len() == b@.len(),
            i <= a@.len(),
            forall|j: int| 0 <= j < i ==> a@[j] == b@[j],
        decreases a@.len() - i,
    {
        if a[i] != b[i] {
            return false;
        }
        i += 1;
    }
    assert(a@ =~= b@);
    true
}

/// Whether a client's credential `user:password` matches an account: the user has one and
/// the SHA-1 digest of the password, as text, is its hash.
pub open spec fn credential_accepted(
    accounts: Seq<(Seq<u8>, Seq<u8>)>,
    credential: Seq<u8>,
) -> bool {
    match account_hash(accounts, first_field(credential)) {
        Some(h) => h == encode_utf8(sha1_hex_digest(second_field(credential))),
        None => false,
    }
}

/// Check a client's credential `user:password` against the accounts (pairs of a user name
/// and the SHA-1 hash of the password in hexadecimal). A credential without a colon is a user
/// name alone; it is refused where no account has that name.
pub fn authenticate(accounts: &Vec<(Vec<u8>, Vec<u8>)>, credential: &[u8]) -> (r: bool)
    requires
        find_byte(credential@, COLON) < credential@.len() || account_hash(
            accounts_view(accounts@),
            first_field(credential@),
        ) is None,
    ensures
        r == credential_accepted(accounts_view(accounts@), credential@),
{
    let colon = position_of(credential, COLON);
    let user = copy_bytes(credential, 0, colon);
    assert(user@ =~= first_field(credential@));
    let ghost view = accounts_view(accounts@);
    let mut i: usize = accounts.len();
    assert(view.take(i as int) =~= view);
    while i > 0
        invariant
            i <= accounts@.len(),
            view == accounts_view(accounts@),
            user@ == first_field(credential@),
            find_byte(credential@, COLON) < credential@.len() || account_hash(
                view,
                first_field(credential@),
            ) is None,
            account_hash(view, user@) == account_hash(view.take(i as int), user@),
        decreases i,
    {
        proof {
            assert(view.take(i as int).drop_last() =~= view.take(i - 1));
        }
        if bytes_eq(accounts[i - 1].0.as_slice(), user.as_slice()) {
            assert(view.take(i as int).last() == (accounts@[i - 1].0@, accounts@[i - 1].1@));
            assert(account_hash(view, user@) == Some(accounts@[i - 1].1@));
            let (_, password) = split_credential(credential);
            let digest = sha1_hex(password.as_slice());
            let text = digest.as_str().as_bytes();
            assert(text@ == encode_utf8(sha1_hex_digest(second_field(credential@))));
            return bytes_eq(accounts[i - 1].1.as_slice(), text);
        }
        i -= 1;
    }
    proof {
        assert(view.take(0) =~= Seq::<(Seq<u8>, Seq<u8>)>::empty());
    }
    false
}

//%% Connecting %%//vvvvvvvvvvvvvvvvvvvvvvvvvvvvvvvvvvvvvv/

/// The credential message that opens a connection: the credential `user:password`, the
/// capacity (3 over TCP or TLS, 6 over a Unix domain socket) and a null byte.
pub fn handshake_message(credential: &str, capacity: u8) -> (r: Vec<u8>)
    ensures
        r@ == encode_utf8(credential@) + seq![capacity, 0u8],
{
    let mut message: Vec<u8> = Vec::new();
    super::serialize::push_all(&mut message, credential.as_bytes());
    message.push(capacity);
    message.push(0);
    proof {
        assert(message@ =~= encode_utf8(credential@) + seq![capacity, 0u8]);
    }
    message
}

/// The text of the decimal digit `d`.
fn digit_str(d: u16) -> (r: &'static str)
    requires
        d < 10,
    ensures
        r@ == seq![digit_char(d as nat)],
{
    if d == 0 {
        proof {
            reveal_strlit("0");
        }
        "0"
    } else if d == 1 {
        proof {
            reveal_strlit("1");
        }
        "1"
    } else if d == 2 {
        proof {
            reveal_strlit("2");
        }
        "2"
    } else if d == 3 {
        proof {
            reveal_strlit("3");
        }
        "3"
    } else if d == 4 {
        proof {
            reveal_strlit("4");
        }
        "4"
    } else if d == 5 {
        proof {
            reveal_strlit("5");
        }
        "5"
    } else if d == 6 {
        proof {
            reveal_strlit("6");
        }
        "6"
    } else if d == 7 {
        proof {
            reveal_strlit("7");
        }
        "7"
    } else if d == 8 {
        proof {
            reveal_strlit("8");
        }
        "8"
    } else {
        proof {
            reveal_strlit("9");
        }
        "9"
    }
}

/// Append the decimal digits of `n`.
fn append_decimal(out: &mut String, n: u16)
    ensures
        final(out)@ == old(out)@ + digits(n as nat),
    decreases n,
{
    if n >= 10 {
        append_decimal(out, n / 10);
    }
    out.append(digit_str(n % 10));
    proof {
        if n >= 10 {
            assert(out@ =~= old(out)@ + digits(n as nat));
        } else {
            assert(out@ =~= old(out)@ + digits(n as nat));
        }
    }
}

/// The path of the socket file of a q process listening on `port`: in the directory `dir`
/// (the value of `QUDSPATH` where it is set), else in `/tmp`.
pub open spec fn sockfile_text(dir: Option<Seq<char>>, port: u16) -> Seq<char> {
    match dir {
        Some(d) => d + "/kx."@ + digits(port as nat),
        None => "/tmp/kx."@ + digits(port as nat),
    }
}

/// Build the path of the socket file of a q process listening on `port`.
pub fn create_sockfile_path(dir: Option<&str>, port: u16) -> (r: String)
    ensures
        r@ == sockfile_text(
            match dir {
                Some(d) => Some(d@),
                None => None,
            },
            port,
        ),
{
    let mut path = match dir {
        Some(d) => {
            let mut p = String::from_str(d);
            p.append("/kx.");
            p
        },
        None => String::from_str("/tmp/kx."),
    };
    append_decimal(&mut path, port);
    path
}

/// Whether a host name denotes this host: `localhost` or `127.0.0.1`. A message to such a host
/// is never compressed.
pub fn is_local_host(host: &str) -> (r: bool)
    ensures
        r == (host@ == "localhost"@ || host@ == "127.0.0.1"@),
{
    super::error::str_eq(host, "localhost") || super::error::str_eq(host, "127.0.0.1")
}

} // verus!
