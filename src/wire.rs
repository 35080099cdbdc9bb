use crate::error::SessionError;
use vstd::prelude::*;

verus! {

/// Largest record payload that a receiver accepts (16 MiB).
pub const MAX_FRAME_LEN: u64 = 16 * 1024 * 1024;

/// Length of the big-endian length prefix in front of each record.
pub const FRAME_HEADER_LEN: usize = 8;

/// Exact length of a record tag and of a revealed MAC key.
pub const MAC_LEN: usize = 64;

/// A Diffie–Hellman public value with its signature (empty for rekey
/// messages).
#[derive(Debug, Clone, PartialEq, Eq, Default)]
pub struct DiffieHellmanSend {
    /// Public value as unsigned big-endian integer bytes.
    pub open_key: Vec<u8>,
    /// Signature over `open_key`; empty when unsigned.
    pub signed: Vec<u8>,
}

/// One record exchanged between the peers.
#[derive(Debug, Clone, PartialEq, Eq)]
pub enum MessageSend {
    /// An encrypted and authenticated message.
    Encrypted {
        /// Ciphertext.
        content: Vec<u8>,
        /// Tag over the plaintext.
        mac: Vec<u8>,
        /// MAC key of the previous outbound record, or zeros.
        old_mac_key: Vec<u8>,
    },
    /// Offer of a Diffie–Hellman public value.
    Dh(DiffieHellmanSend),
    /// Answer to an offer.
    DhBack(DiffieHellmanSend),
}

/// What a `DiffieHellmanSend` holds.
pub struct DhView {
    pub open_key: Seq<u8>,
    pub signed: Seq<u8>,
}

/// What a `MessageSend` holds.
pub enum RecordView {
    Encrypted { content: Seq<u8>, mac: Seq<u8>, old_mac_key: Seq<u8> },
    Dh(DhView),
    DhBack(DhView),
}

impl View for DiffieHellmanSend {
    type V = DhView;

    open spec fn view(&self) -> DhView {
        DhView { open_key: self.open_key@, signed: self.signed@ }
    }
}

impl View for MessageSend {
    type V = RecordView;

    open spec fn view(&self) -> RecordView {
        match self {
            MessageSend::Encrypted { content, mac, old_mac_key } => RecordView::Encrypted {
                content: content@,
                mac: mac@,
                old_mac_key: old_mac_key@,
            },
            MessageSend::Dh(d) => RecordView::Dh(d@),
            MessageSend::DhBack(d) => RecordView::DhBack(d@),
        }
    }
}

/// A record that can travel on the wire: tags and revealed keys are exactly
/// `MAC_LEN` bytes long.
pub open spec fn record_wf(r: RecordView) -> bool {
    match r {
        RecordView::Encrypted { mac, old_mac_key, .. } => mac.len() == MAC_LEN
            && old_mac_key.len() == MAC_LEN,
        _ => true,
    }
}

// ----- encoding -----

/// Unsigned LEB128 in its shortest form: seven bits per byte, low group
/// first, high bit set on every byte but the last.
pub open spec fn varint(n: nat) -> Seq<u8>
    decreases n,
{
    if n < 128 {
        seq![n as u8]
    } else {
        seq![(n % 128 + 128) as u8] + varint(n / 128)
    }
}

/// A byte string as its length followed by its bytes.
pub open spec fn field(b: Seq<u8>) -> Seq<u8> {
    varint(b.len()) + b
}

/// The canonical encoding of a record: one tag byte (0 encrypted, 1 offer,
/// 2 answer), then each byte string as a field.
pub open spec fn encode_record(r: RecordView) -> Seq<u8> {
    match r {
        RecordView::Encrypted { content, mac, old_mac_key } => seq![0u8] + field(content) + field(
            mac,
        ) + field(old_mac_key),
        RecordView::Dh(d) => seq![1u8] + field(d.open_key) + field(d.signed),
        RecordView::DhBack(d) => seq![2u8] + field(d.open_key) + field(d.signed),
    }
}

// ----- decoding -----

/// Reads a shortest-form LEB128 number at the front of `b`: its value and
/// the number of bytes it takes.
pub open spec fn parse_varint(b: Seq<u8>) -> Option<(nat, nat)>
    decreases b.len(),
{
    if b.len() == 0 {
        None
    } else if b[0] < 128 {
        Some((b[0] as nat, 1nat))
    } else {
        match parse_varint(b.drop_first()) {
            Some((v, k)) => if v > 0 {
                Some((((b[0] - 128) + 128 * v) as nat, k + 1))
            } else {
                None
            },
            None => None,
        }
    }
}

/// Reads a field at the front of `b`: its bytes and the number of bytes it
/// takes.
pub open spec fn parse_field(b: Seq<u8>) -> Option<(Seq<u8>, nat)> {
    match parse_varint(b) {
        Some((n, k)) => if k + n <= b.len() {
            Some((b.subrange(k as int, (k + n) as int), k + n))
        } else {
            None
        },
        None => None,
    }
}

/// Reads two fields that fill `b` exactly.
pub open spec fn parse_two(b: Seq<u8>) -> Option<(Seq<u8>, Seq<u8>)> {
    match parse_field(b) {
        Some((x, k1)) => match parse_field(b.subrange(k1 as int, b.len() as int)) {
            Some((y, k2)) => if k1 + k2 == b.len() {
                Some((x, y))
            } else {
                None
            },
            None => None,
        },
        None => None,
    }
}

/// Reads three fields that fill `b` exactly.
pub open spec fn parse_three(b: Seq<u8>) -> Option<(Seq<u8>, Seq<u8>, Seq<u8>)> {
    match parse_field(b) {
        Some((x, k1)) => match parse_two(b.subrange(k1 as int, b.len() as int)) {
            Some((y, z)) => Some((x, y, z)),
            None => None,
        },
        None => None,
    }
}

/// The record that `b` encodes, if it is a well-formed record and nothing
/// else.
pub open spec fn parse_record(b: Seq<u8>) -> Option<RecordView> {
    if b.len() == 0 {
        None
    } else {
        let rest = b.drop_first();
        if b[0] == 0 {
            match parse_three(rest) {
                Some((c, m, o)) => if m.len() == MAC_LEN && o.len() == MAC_LEN {
                    Some(RecordView::Encrypted { content: c, mac: m, old_mac_key: o })
                } else {
                    None
                },
                None => None,
            }
        } else if b[0] == 1 || b[0] == 2 {
            match parse_two(rest) {
                Some((k, s)) => {
                    let d = DhView { open_key: k, signed: s };
                    if b[0] == 1 {
                        Some(RecordView::Dh(d))
                    } else {
                        Some(RecordView::DhBack(d))
                    }
                },
                None => None,
            }
        } else {
            None
        }
    }
}

// ----- the two directions agree -----

proof fn lemma_varint_parse(n: nat, tail: Seq<u8>)
    ensures
        parse_varint(varint(n) + tail) == Some((n, varint(n).len())),
        varint(n).len() >= 1,
    decreases n,
{
    let b = varint(n) + tail;
    if n >= 128 {
        let m = n / 128;
        lemma_varint_parse(m, tail);
        assert(b.drop_first() =~= varint(m) + tail);
        assert(b[0] == n % 128 + 128);
        assert(m > 0);
        assert(n == (n % 128) + 128 * m);
    } else {
        assert(b[0] == n);
    }
}

proof fn lemma_varint_canonical(b: Seq<u8>)
    requires
        parse_varint(b) is Some,
    ensures
        1 <= (parse_varint(b)->0).1 <= b.len(),
        b.subrange(0, (parse_varint(b)->0).1 as int) == varint((parse_varint(b)->0).0),
    decreases b.len(),
{
    let (v, k) = parse_varint(b)->0;
    if b[0] < 128 {
        assert(b.subrange(0, 1) =~= seq![b[0]]);
    } else {
        let rest = b.drop_first();
        let (w, j) = parse_varint(rest)->0;
        lemma_varint_canonical(rest);
        assert(v == (b[0] - 128) + 128 * w);
        assert(v % 128 == b[0] - 128);
        assert(v / 128 == w);
        assert(b.subrange(0, k as int) =~= seq![b[0]] + rest.subrange(0, j as int));
    }
}

proof fn lemma_field_parse(x: Seq<u8>, tail: Seq<u8>)
    ensures
        parse_field(field(x) + tail) == Some((x, field(x).len())),
{
    lemma_varint_parse(x.len(), x + tail);
    assert(field(x) + tail =~= varint(x.len()) + (x + tail));
    let b = field(x) + tail;
    let k = varint(x.len()).len();
    assert(b.subrange(k as int, (k + x.len()) as int) =~= x);
}

proof fn lemma_field_canonical(b: Seq<u8>)
    requires
        parse_field(b) is Some,
    ensures
        (parse_field(b)->0).1 <= b.len(),
        b.subrange(0, (parse_field(b)->0).1 as int) == field((parse_field(b)->0).0),
{
    let (n, k) = parse_varint(b)->0;
    lemma_varint_canonical(b);
    let (x, e) = parse_field(b)->0;
    assert(b.subrange(0, e as int) =~= b.subrange(0, k as int) + x);
}

proof fn lemma_two_parse(x: Seq<u8>, y: Seq<u8>)
    ensures
        parse_two(field(x) + field(y)) == Some((x, y)),
{
    let b = field(x) + field(y);
    lemma_field_parse(x, field(y));
    let k1 = field(x).len();
    assert(b.subrange(k1 as int, b.len() as int) =~= field(y) + Seq::<u8>::empty());
    lemma_field_parse(y, Seq::<u8>::empty());
}

proof fn lemma_two_canonical(b: Seq<u8>)
    requires
        parse_two(b) is Some,
    ensures
        b == field((parse_two(b)->0).0) + field((parse_two(b)->0).1),
{
    let (x, k1) = parse_field(b)->0;
    lemma_field_canonical(b);
    let rest = b.subrange(k1 as int, b.len() as int);
    let (y, k2) = parse_field(rest)->0;
    lemma_field_canonical(rest);
    assert(rest.subrange(0, k2 as int) =~= rest);
    assert(b =~= b.subrange(0, k1 as int) + rest);
}

proof fn lemma_three_parse(x: Seq<u8>, y: Seq<u8>, z: Seq<u8>)
    ensures
        parse_three(field(x) + field(y) + field(z)) == Some((x, y, z)),
{
    let b = field(x) + field(y) + field(z);
    lemma_field_parse(x, field(y) + field(z));
    assert(b =~= field(x) + (field(y) + field(z)));
    let k1 = field(x).len();
    assert(b.subrange(k1 as int, b.len() as int) =~= field(y) + field(z));
    lemma_two_parse(y, z);
}

proof fn lemma_three_canonical(b: Seq<u8>)
    requires
        parse_three(b) is Some,
    ensures
        b == field((parse_three(b)->0).0) + field((parse_three(b)->0).1) + field((parse_three(b)->0).2),
{
    let (x, k1) = parse_field(b)->0;
    lemma_field_canonical(b);
    let rest = b.subrange(k1 as int, b.len() as int);
    lemma_two_canonical(rest);
    assert(b =~= b.subrange(0, k1 as int) + rest);
}

/// Decoding the encoding of a well-formed record gives the record back.
pub proof fn lemma_record_round_trip(r: RecordView)
    requires
        record_wf(r),
    ensures
        parse_record(encode_record(r)) == Some(r),
{
    let b = encode_record(r);
    match r {
        RecordView::Encrypted { content, mac, old_mac_key } => {
            assert(b.drop_first() =~= field(content) + field(mac) + field(old_mac_key));
            lemma_three_parse(content, mac, old_mac_key);
        },
        RecordView::Dh(d) => {
            assert(b.drop_first() =~= field(d.open_key) + field(d.signed));
            lemma_two_parse(d.open_key, d.signed);
        },
        RecordView::DhBack(d) => {
            assert(b.drop_first() =~= field(d.open_key) + field(d.signed));
            lemma_two_parse(d.open_key, d.signed);
        },
    }
}

/// The encoding is canonical: bytes that decode to a record are exactly the
/// encoding of that record, and the record is well formed.
pub proof fn lemma_record_canonical(b: Seq<u8>)
    requires
        parse_record(b) is Some,
    ensures
        record_wf(parse_record(b)->0),
        encode_record(parse_record(b)->0) == b,
{
    let rest = b.drop_first();
    if b[0] == 0 {
        lemma_three_canonical(rest);
    } else {
        lemma_two_canonical(rest);
    }
    assert(b =~= seq![b[0]] + rest);
    assert(encode_record(parse_record(b)->0) =~= b);
}

/// No two well-formed records share an encoding, and every byte string is
/// the encoding of at most one record.
pub proof fn lemma_encoding_injective(r1: RecordView, r2: RecordView)
    requires
        record_wf(r1),
        record_wf(r2),
        encode_record(r1) == encode_record(r2),
    ensures
        r1 == r2,
{
    lemma_record_round_trip(r1);
    lemma_record_round_trip(r2);
}

// ----- executable codec -----

fn push_varint(out: &mut Vec<u8>, n: u64)
    ensures
        final(out)@ == old(out)@ + varint(n as nat),
{
    let mut rest: u64 = n;
    while rest >= 128
        invariant
            out@ + varint(rest as nat) == old(out)@ + varint(n as nat),
        decreases rest,
    {
        let ghost before = out@;
        out.push((rest % 128 + 128) as u8);
        assert(varint(rest as nat) == seq![(rest % 128 + 128) as u8] + varint((rest / 128) as nat));
        assert(before + varint(rest as nat) =~= out@ + varint((rest / 128) as nat));
        rest = rest / 128;
    }
    out.push(rest as u8);
    assert(varint(rest as nat) == seq![rest as u8]);
    assert(out@ =~= old(out)@ + varint(n as nat));
}

fn push_field(out: &mut Vec<u8>, b: &Vec<u8>)
    ensures
        final(out)@ == old(out)@ + field(b@),
{
    push_varint(out, b.len() as u64);
    let ghost mid = out@;
    out.extend_from_slice(b.as_slice());
    assert(out@ =~= mid + b@);
    assert(out@ =~= old(out)@ + field(b@));
}

/// Encodes a record in the canonical form `encode_record`.
pub fn encode_message(m: &MessageSend) -> (r: Vec<u8>)
    ensures
        r@ == encode_record(m@),
{
    let mut out: Vec<u8> = Vec::new();
    match m {
        MessageSend::Encrypted { content, mac, old_mac_key } => {
            out.push(0u8);
            push_field(&mut out, content);
            push_field(&mut out, mac);
            push_field(&mut out, old_mac_key);
        },
        MessageSend::Dh(d) => {
            out.push(1u8);
            push_field(&mut out, &d.open_key);
            push_field(&mut out, &d.signed);
        },
        MessageSend::DhBack(d) => {
            out.push(2u8);
            push_field(&mut out, &d.open_key);
            push_field(&mut out, &d.signed);
        },
    }
    assert(out@ =~= encode_record(m@));
    out
}

/// Reads a shortest-form LEB128 number at `pos`, accepting it only when
/// its value is at most `limit`; gives the value and the end position.
fn read_varint(b: &[u8], pos: usize, limit: u64) -> (r: Option<(u64, usize)>)
    requires
        pos <= b@.len(),
    ensures
        match r {
            Some((v, end)) => parse_varint(b@.subrange(pos as int, b@.len() as int)) == Some(
                (v as nat, (end - pos) as nat),
            ) && v <= limit && pos < end <= b@.len(),
            None => match parse_varint(b@.subrange(pos as int, b@.len() as int)) {
                Some((v, _)) => v > limit,
                None => true,
            },
        },
    decreases b@.len() - pos,
{
    let ghost tail = b@.subrange(pos as int, b@.len() as int);
    if pos >= b.len() {
        return None;
    }
    let byte = b[pos];
    assert(tail[0] == byte);
    if byte < 128 {
        if byte as u64 <= limit {
            return Some((byte as u64, pos + 1));
        }
        return None;
    }
    assert(tail.drop_first() =~= b@.subrange(pos + 1, b@.len() as int));
    if limit < 128 {
        return None;
    }
    match read_varint(b, pos + 1, limit / 128) {
        None => {
            proof {
                let rest = tail.drop_first();
                if parse_varint(rest) is Some {
                    let w = (parse_varint(rest)->0).0;
                    assert(128 * w > limit) by (nonlinear_arith)
                        requires
                            w > limit / 128,
                            limit >= 128,
                    ;
                }
            }
            None
        },
        Some((w, end)) => {
            if w == 0 {
                return None;
            }
            assert(128 * w <= limit) by (nonlinear_arith)
                requires
                    w <= limit / 128,
            ;
            let v = (byte - 128) as u64 + 128 * w;
            if v <= limit {
                Some((v, end))
            } else {
                None
            }
        },
    }
}

/// Reads a field at `pos`: its bytes and the end position.
fn read_field(b: &[u8], pos: usize) -> (r: Option<(Vec<u8>, usize)>)
    requires
        pos <= b@.len(),
    ensures
        match r {
            Some((x, end)) => parse_field(b@.subrange(pos as int, b@.len() as int)) == Some(
                (x@, (end - pos) as nat),
            ) && pos <= end <= b@.len(),
            None => parse_field(b@.subrange(pos as int, b@.len() as int)) is None,
        },
{
    let ghost tail = b@.subrange(pos as int, b@.len() as int);
    let remaining = (b.len() - pos) as u64;
    match read_varint(b, pos, remaining) {
        None => None,
        Some((n, k_end)) => {
            if n > (b.len() - k_end) as u64 {
                return None;
            }
            let end = k_end + n as usize;
            let mut x: Vec<u8> = Vec::new();
            x.extend_from_slice(&b[k_end..end]);
            assert(x@ =~= tail.subrange((k_end - pos) as int, (end - pos) as int));
            Some((x, end))
        },
    }
}

/// Decodes one record. Succeeds exactly on the canonical encodings of
/// well-formed records, and then gives that record.
pub fn decode_message(b: &[u8]) -> (r: Result<MessageSend, SessionError>)
    ensures
        match r {
            Ok(m) => parse_record(b@) == Some(m@) && encode_record(m@) == b@ && record_wf(m@),
            Err(e) => e == SessionError::Deserialize && parse_record(b@) is None && forall|v: RecordView|
                record_wf(v) ==> encode_record(v) != b@,
        },
{
    let r = decode_inner(b);
    proof {
        if r is Ok {
            lemma_record_canonical(b@);
        } else {
            {
                assert forall|v: RecordView| record_wf(v) implies encode_record(v) != b@ by {
                    lemma_record_round_trip(v);
                }
            }
        }
    }
    r
}

fn decode_inner(b: &[u8]) -> (r: Result<MessageSend, SessionError>)
    ensures
        match r {
            Ok(m) => parse_record(b@) == Some(m@),
            Err(e) => e == SessionError::Deserialize && parse_record(b@) is None,
        },
{
    if b.len() == 0 {
        return Err(SessionError::Deserialize);
    }
    let tag = b[0];
    let ghost rest = b@.drop_first();
    assert(b@.subrange(1, b@.len() as int) =~= rest);
    if tag > 2 {
        return Err(SessionError::Deserialize);
    }
    let (x, e1) = match read_field(b, 1) {
        Some(p) => p,
        None => return Err(SessionError::Deserialize),
    };
    assert(b@.subrange(e1 as int, b@.len() as int) =~= rest.subrange(e1 - 1, rest.len() as int));
    let (y, e2) = match read_field(b, e1) {
        Some(p) => p,
        None => return Err(SessionError::Deserialize),
    };
    assert(b@.subrange(e2 as int, b@.len() as int) =~= rest.subrange(e2 - 1, rest.len() as int));
    assert(rest.subrange(e1 - 1, rest.len() as int).subrange((e2 - e1) as int, rest.len() - (e1 - 1))
        =~= rest.subrange(e2 - 1, rest.len() as int));
    if tag == 0 {
        let (z, e3) = match read_field(b, e2) {
            Some(p) => p,
            None => return Err(SessionError::Deserialize),
        };
        assert(rest.subrange(e2 - 1, rest.len() as int).subrange((e3 - e2) as int, rest.len() - (e2 - 1))
            =~= rest.subrange(e3 - 1, rest.len() as int));
        if e3 != b.len() || y.len() != MAC_LEN || z.len() != MAC_LEN {
            return Err(SessionError::Deserialize);
        }
        Ok(MessageSend::Encrypted { content: x, mac: y, old_mac_key: z })
    } else {
        if e2 != b.len() {
            return Err(SessionError::Deserialize);
        }
        let d = DiffieHellmanSend { open_key: x, signed: y };
        if tag == 1 {
            Ok(MessageSend::Dh(d))
        } else {
            Ok(MessageSend::DhBack(d))
        }
    }
}

// ----- framing -----

/// The number that `s` spells in big-endian order.
pub open spec fn be_value(s: Seq<u8>) -> nat
    decreases s.len(),
{
    if s.len() == 0 {
        0
    } else {
        (be_value(s.drop_last()) * 256 + s.last()) as nat
    }
}

proof fn lemma_be_prefix_le(s: Seq<u8>, i: int)
    requires
        0 <= i <= s.len(),
    ensures
        be_value(s.subrange(0, i)) <= be_value(s),
    decreases s.len() - i,
{
    if i < s.len() {
        lemma_be_prefix_le(s, i + 1);
        let p = s.subrange(0, i + 1);
        assert(p.drop_last() =~= s.subrange(0, i));
    } else {
        assert(s.subrange(0, i) =~= s);
    }
}

/// Reads the length prefix of a frame. A length of zero is accepted; one
/// above `MAX_FRAME_LEN` is refused as malformed before any buffer for it
/// exists.
pub fn frame_length(header: &[u8; 8]) -> (r: Result<usize, SessionError>)
    ensures
        match r {
            Ok(n) => n == be_value(header@) && n <= MAX_FRAME_LEN,
            Err(e) => e == SessionError::Deserialize && be_value(header@) > MAX_FRAME_LEN,
        },
{
    let mut acc: u64 = 0;
    let mut i: usize = 0;
    while i < FRAME_HEADER_LEN
        invariant
            0 <= i <= FRAME_HEADER_LEN,
            header@.len() == FRAME_HEADER_LEN,
            acc == be_value(header@.subrange(0, i as int)),
            acc <= MAX_FRAME_LEN,
        decreases FRAME_HEADER_LEN - i,
    {
        let ghost p = header@.subrange(0, i as int + 1);
        assert(p.drop_last() =~= header@.subrange(0, i as int));
        let next = acc * 256 + header[i] as u64;
        i = i + 1;
        if next > MAX_FRAME_LEN {
            proof {
                lemma_be_prefix_le(header@, i as int);
            }
            return Err(SessionError::Deserialize);
        }
        acc = next;
    }
    assert(header@.subrange(0, 8) =~= header@);
    Ok(acc as usize)
}

} // verus!
