//! Wire framing: a fixed-size header, the payload cut into packets, and a
//! one-byte terminator.
use vstd::prelude::*;
use vstd::arithmetic::div_mod::{lemma_div_plus_one, lemma_fundamental_div_mod_converse_div};

verus! {

/// Size of the header block: tag, digit span and delimiter.
pub const HEADER_LEN: usize = 16;

/// Number of bytes in the header that hold the decimal length.
pub const DIGIT_SPAN: usize = 14;

/// The delimiter closing a header.
pub const DELIMITER: u8 = 0x3a;

/// The byte sent as the last packet of every frame.
pub const TERMINATOR: u8 = 0x0a;

/// What a frame carries.
#[derive(Clone, Copy, Debug, PartialEq, Eq, Structural)]
pub enum CommKind {
    /// A log record drained from the log buffer (tag `D`).
    Log,
    /// A liveness message (tag `S`).
    Heartbeat,
}

/// The tag byte of a kind.
pub open spec fn kind_tag(kind: CommKind) -> u8 {
    match kind {
        CommKind::Log => 0x44u8,
        CommKind::Heartbeat => 0x53u8,
    }
}

/// The kind a tag byte stands for, if any.
pub open spec fn kind_of_tag(tag: u8) -> Option<CommKind> {
    if tag == 0x44u8 {
        Some(CommKind::Log)
    } else if tag == 0x53u8 {
        Some(CommKind::Heartbeat)
    } else {
        None
    }
}

impl CommKind {
    /// The ASCII tag written as the first header byte.
    pub fn tag(&self) -> (r: u8)
        ensures
            r == kind_tag(*self),
    {
        match self {
            CommKind::Log => 0x44u8,
            CommKind::Heartbeat => 0x53u8,
        }
    }
}

/// Kind and payload length of one frame.
#[derive(Clone, Copy, Debug, PartialEq, Eq, Structural)]
pub struct MessageHeader {
    pub kind: CommKind,
    pub length: usize,
}

impl MessageHeader {
    /// The header block of this header.
    pub fn encode(&self) -> (r: Result<Vec<u8>, EncodingOverflow>)
        ensures
            r is Ok <==> self.length < LENGTH_LIMIT,
            r matches Ok(b) ==> b@ == header_bytes(self.kind, self.length as nat),
    {
        encode_header(self.kind, self.length)
    }
}

/// The length does not fit in the digit span of the header.
#[derive(Clone, Copy, Debug, PartialEq, Eq, Structural)]
pub struct EncodingOverflow;

/// Decimal ASCII digits of `n`, most significant first, without leading zeros.
pub open spec fn decimal(n: nat) -> Seq<u8>
    decreases n,
{
    if n < 10 {
        seq![(0x30 + n) as u8]
    } else {
        decimal(n / 10).push((0x30 + n % 10) as u8)
    }
}

/// Whether a length can be written in the digit span.
pub open spec fn length_fits(n: nat) -> bool {
    decimal(n).len() <= DIGIT_SPAN
}

/// `10` to the power `k`.
pub open spec fn pow10(k: nat) -> nat
    decreases k,
{
    if k == 0 {
        1
    } else {
        10 * pow10((k - 1) as nat)
    }
}

/// Largest length a header can carry, plus one.
pub const LENGTH_LIMIT: u64 = 100_000_000_000_000;

proof fn lemma_pow10_ge_ten(k: nat)
    requires
        k >= 1,
    ensures
        pow10(k) >= 10,
    decreases k,
{
    reveal_with_fuel(pow10, 2);
    if k > 1 {
        lemma_pow10_ge_ten((k - 1) as nat);
    }
}

proof fn lemma_decimal_len(n: nat, k: nat)
    requires
        k >= 1,
    ensures
        decimal(n).len() <= k <==> n < pow10(k),
    decreases n,
{
    reveal_with_fuel(pow10, 2);
    lemma_pow10_ge_ten(k);
    lemma_decimal(n);
    if n >= 10 {
        if k >= 2 {
            lemma_decimal_len(n / 10, (k - 1) as nat);
            assert(n / 10 < pow10((k - 1) as nat) <==> n < 10 * pow10((k - 1) as nat));
        } else {
            lemma_decimal_len(n / 10, 1);
        }
    }
}

/// A length fits in the digit span exactly when it is below `10^14`.
pub proof fn lemma_length_fits(n: nat)
    ensures
        length_fits(n) <==> n < LENGTH_LIMIT,
{
    lemma_decimal_len(n, DIGIT_SPAN as nat);
    reveal_with_fuel(pow10, 15);
    assert(pow10(DIGIT_SPAN as nat) == LENGTH_LIMIT);
}

/// The header block for a kind and a length that fits.
pub open spec fn header_bytes(kind: CommKind, n: nat) -> Seq<u8> {
    seq![kind_tag(kind)] + decimal(n) + Seq::new(
        (DIGIT_SPAN - decimal(n).len()) as nat,
        |i: int| 0u8,
    ) + seq![DELIMITER]
}

/// Relies on itoa::Buffer::format: the decimal text of an unsigned integer,
/// without sign or leading zeros ("0" for zero).
#[verifier::external_body]
fn format_decimal(n: usize) -> (r: Vec<u8>)
    ensures
        r@ == decimal(n as nat),
{
    let mut buffer = itoa::Buffer::new();
    buffer.format(n).as_bytes().to_vec()
}

/// Builds the header block: the kind's tag, the decimal length left-aligned
/// in the digit span with zero bytes after it, and the delimiter.
pub fn encode_header(kind: CommKind, length: usize) -> (r: Result<Vec<u8>, EncodingOverflow>)
    ensures
        r is Ok <==> length_fits(length as nat),
        r is Ok <==> length < LENGTH_LIMIT,
        r matches Ok(b) ==> b@ == header_bytes(kind, length as nat),
{
    proof {
        lemma_length_fits(length as nat);
    }
    let digits = format_decimal(length);
    if digits.len() > DIGIT_SPAN {
        return Err(EncodingOverflow);
    }
    let mut out: Vec<u8> = Vec::new();
    out.push(kind.tag());
    let mut i: usize = 0;
    while i < digits.len()
        invariant
            i <= digits.len(),
            out@ == seq![kind_tag(kind)] + digits@.take(i as int),
        decreases digits.len() - i,
    {
        out.push(digits[i]);
        i = i + 1;
        assert(out@ =~= seq![kind_tag(kind)] + digits@.take(i as int));
    }
    let mut j: usize = digits.len();
    while j < DIGIT_SPAN
        invariant
            digits.len() <= j <= DIGIT_SPAN,
            out@ == seq![kind_tag(kind)] + digits@ + Seq::new(
                (j - digits.len()) as nat,
                |k: int| 0u8,
            ),
        decreases DIGIT_SPAN - j,
    {
        out.push(0u8);
        j = j + 1;
        assert(out@ =~= seq![kind_tag(kind)] + digits@ + Seq::new(
            (j - digits.len()) as nat,
            |k: int| 0u8,
        ));
    }
    out.push(DELIMITER);
    assert(digits@.take(digits.len() as int) =~= digits@);
    assert(out@ =~= header_bytes(kind, length as nat));
    Ok(out)
}

/// The payload cut into packets of at most `m` bytes, in order; every packet
/// but the last holds exactly `m` bytes.
pub open spec fn chunks(p: Seq<u8>, m: nat) -> Seq<Seq<u8>>
    decreases p.len(),
{
    if p.len() == 0 || m == 0 {
        Seq::empty()
    } else if p.len() <= m {
        seq![p]
    } else {
        seq![p.take(m as int)] + chunks(p.skip(m as int), m)
    }
}

/// All packets of one frame: header, payload chunks, terminator.
pub open spec fn frame(kind: CommKind, p: Seq<u8>, m: nat) -> Seq<Seq<u8>> {
    seq![header_bytes(kind, p.len())] + chunks(p, m) + seq![seq![TERMINATOR]]
}

/// The bytes of a list of packets, as sequences.
pub open spec fn packets_view(v: Seq<Vec<u8>>) -> Seq<Seq<u8>> {
    v.map_values(|b: Vec<u8>| b@)
}

/// Cuts a payload into packets of at most `max_packet_size` bytes.
pub fn split_payload(payload: &[u8], max_packet_size: usize) -> (r: Vec<Vec<u8>>)
    requires
        max_packet_size > 0,
    ensures
        packets_view(r@) == chunks(payload@, max_packet_size as nat),
{
    let ghost m = max_packet_size as nat;
    let mut out: Vec<Vec<u8>> = Vec::new();
    let mut start: usize = 0;
    assert(payload@.skip(0) =~= payload@);
    assert(packets_view(out@) + chunks(payload@, m) =~= chunks(payload@, m));
    while start < payload.len()
        invariant
            start <= payload@.len(),
            m == max_packet_size,
            m > 0,
            chunks(payload@, m) == packets_view(out@) + chunks(payload@.skip(start as int), m),
        decreases payload.len() - start,
    {
        let end: usize = if payload.len() - start <= max_packet_size {
            payload.len()
        } else {
            start + max_packet_size
        };
        let mut chunk: Vec<u8> = Vec::new();
        let mut i: usize = start;
        while i < end
            invariant
                start <= i <= end <= payload@.len(),
                chunk@ == payload@.subrange(start as int, i as int),
            decreases end - i,
        {
            chunk.push(payload[i]);
            i = i + 1;
            assert(chunk@ =~= payload@.subrange(start as int, i as int));
        }
        let ghost rest = payload@.skip(start as int);
        proof {
            if rest.len() <= m {
                assert(chunk@ =~= rest);
                assert(payload@.skip(end as int) =~= Seq::<u8>::empty());
            } else {
                assert(chunk@ =~= rest.take(m as int));
                assert(payload@.skip(end as int) =~= rest.skip(m as int));
            }
        }
        let ghost before = out@;
        out.push(chunk);
        assert(packets_view(out@) =~= packets_view(before) + seq![chunk@]);
        start = end;
    }
    assert(payload@.skip(start as int) =~= Seq::<u8>::empty());
    assert(packets_view(out@) + Seq::<Seq<u8>>::empty() =~= packets_view(out@));
    out
}

/// Builds every packet of a frame, in the order they go on the wire.
pub fn frame_packets(kind: CommKind, payload: &[u8], max_packet_size: usize) -> (r: Result<
    Vec<Vec<u8>>,
    EncodingOverflow,
>)
    requires
        max_packet_size > 0,
    ensures
        r is Ok <==> length_fits(payload@.len()),
        r matches Ok(v) ==> packets_view(v@) == frame(kind, payload@, max_packet_size as nat),
{
    let header = match encode_header(kind, payload.len()) {
        Ok(h) => h,
        Err(e) => return Err(e),
    };
    let body = split_payload(payload, max_packet_size);
    let mut out: Vec<Vec<u8>> = Vec::new();
    out.push(header);
    let mut i: usize = 0;
    let ghost hv = out@[0]@;
    assert(packets_view(out@) =~= seq![hv]);
    while i < body.len()
        invariant
            i <= body@.len(),
            packets_view(out@) == seq![hv] + packets_view(body@).take(i as int),
        decreases body.len() - i,
    {
        let ghost before = out@;
        out.push(body[i].clone());
        i = i + 1;
        assert(packets_view(out@) =~= packets_view(before) + seq![body@[i - 1]@]);
        assert(packets_view(out@) =~= seq![hv] + packets_view(body@).take(i as int));
    }
    let ghost before = out@;
    let term: Vec<u8> = vec![TERMINATOR];
    assert(term@ =~= seq![TERMINATOR]);
    out.push(term);
    assert(packets_view(body@).take(i as int) =~= packets_view(body@));
    assert(packets_view(out@) =~= packets_view(before) + seq![seq![TERMINATOR]]);
    assert(packets_view(out@) =~= frame(kind, payload@, max_packet_size as nat));
    Ok(out)
}

/// Value of a sequence of decimal ASCII digits.
pub open spec fn digits_value(s: Seq<u8>) -> nat
    decreases s.len(),
{
    if s.len() == 0 {
        0
    } else {
        digits_value(s.drop_last()) * 10 + (s.last() - 0x30) as nat
    }
}

/// The bytes before the first zero byte.
pub open spec fn until_zero(s: Seq<u8>) -> Seq<u8>
    decreases s.len(),
{
    if s.len() == 0 || s[0] == 0 {
        Seq::empty()
    } else {
        seq![s[0]] + until_zero(s.drop_first())
    }
}

/// The length a receiver reads from a header block: the digits that start
/// the digit span, up to the first zero byte.
pub open spec fn decoded_length(h: Seq<u8>) -> nat {
    digits_value(until_zero(h.subrange(1, DIGIT_SPAN + 1)))
}

proof fn lemma_decimal(n: nat)
    ensures
        decimal(n).len() >= 1,
        forall|i: int| 0 <= i < decimal(n).len() ==> 0x30 <= #[trigger] decimal(n)[i] <= 0x39,
        digits_value(decimal(n)) == n,
    decreases n,
{
    if n >= 10 {
        lemma_decimal(n / 10);
        let d = decimal(n);
        assert(d.drop_last() =~= decimal(n / 10));
        assert(d.last() == (0x30 + n % 10) as u8);
        assert((n / 10) * 10 + n % 10 == n);
        assert(digits_value(d) == digits_value(decimal(n / 10)) * 10 + (n % 10));
    } else {
        let d = decimal(n);
        assert(d.drop_last() =~= Seq::<u8>::empty());
        assert(digits_value(d.drop_last()) == 0);
        assert(d.last() == (0x30 + n) as u8);
    }
}

proof fn lemma_until_zero(d: Seq<u8>, z: Seq<u8>)
    requires
        forall|i: int| 0 <= i < d.len() ==> #[trigger] d[i] != 0,
        forall|i: int| 0 <= i < z.len() ==> #[trigger] z[i] == 0,
    ensures
        until_zero(d + z) == d,
    decreases d.len(),
{
    if d.len() == 0 {
        assert(d + z =~= z);
    } else {
        lemma_until_zero(d.drop_first(), z);
        assert((d + z).drop_first() =~= d.drop_first() + z);
        assert(seq![d[0]] + d.drop_first() =~= d);
    }
}

/// A header names its kind in its first byte, and a receiver that reads the
/// digit span up to the first zero byte gets back the length it was built
/// with; the block has the fixed size and ends with the delimiter.
pub proof fn lemma_header_round_trip(kind: CommKind, n: nat)
    requires
        length_fits(n),
    ensures
        header_bytes(kind, n).len() == HEADER_LEN,
        kind_of_tag(header_bytes(kind, n)[0]) == Some(kind),
        decoded_length(header_bytes(kind, n)) == n,
        header_bytes(kind, n)[HEADER_LEN - 1] == DELIMITER,
{
    let h = header_bytes(kind, n);
    let d = decimal(n);
    let z = Seq::new((DIGIT_SPAN - d.len()) as nat, |i: int| 0u8);
    lemma_decimal(n);
    assert(h.subrange(1, DIGIT_SPAN + 1) =~= d + z);
    lemma_until_zero(d, z);
}

/// Every chunk is non-empty and at most `m` long, the chunks put together
/// give the payload back, and there are `ceil(len / m)` of them.
pub proof fn lemma_chunks(p: Seq<u8>, m: nat)
    requires
        m > 0,
    ensures
        chunks(p, m).len() == (p.len() + m - 1) / (m as int),
        chunks(p, m).flatten() == p,
        forall|i: int| 0 <= i < chunks(p, m).len() ==> 0 < #[trigger] chunks(p, m)[i].len() <= m,
    decreases p.len(),
{
    let len = p.len() as int;
    if len == 0 {
        lemma_fundamental_div_mod_converse_div(m - 1, m as int, 0, m - 1);
        assert(p =~= Seq::<u8>::empty());
    } else if len <= m {
        lemma_fundamental_div_mod_converse_div(len + m - 1, m as int, 1, len - 1);
        assert(seq![p].drop_first() =~= Seq::<Seq<u8>>::empty());
        assert(p + Seq::<u8>::empty() =~= p);
        assert(Seq::<Seq<u8>>::empty().flatten() == Seq::<u8>::empty());
    } else {
        let rest = p.skip(m as int);
        lemma_chunks(rest, m);
        lemma_div_plus_one(len - 1, m as int);
        assert(rest.len() + m - 1 == len - 1);
        let c = chunks(p, m);
        assert(c.drop_first() =~= chunks(rest, m));
        assert(p.take(m as int) + rest =~= p);
        assert(c.first() == p.take(m as int));
        assert forall|i: int| 0 <= i < c.len() implies 0 < #[trigger] c[i].len() <= m by {
            if i > 0 {
                assert(c[i] == chunks(rest, m)[i - 1]);
            }
        }
    }
}

/// A frame is one header packet, `ceil(len / m)` payload packets that
/// together hold the payload in order, and one terminator packet.
pub proof fn lemma_frame_shape(kind: CommKind, p: Seq<u8>, m: nat)
    requires
        m > 0,
    ensures
        frame(kind, p, m).len() == (p.len() + m - 1) / (m as int) + 2,
        frame(kind, p, m)[0] == header_bytes(kind, p.len()),
        frame(kind, p, m).last() == seq![TERMINATOR],
        frame(kind, p, m).subrange(1, frame(kind, p, m).len() - 1) == chunks(p, m),
        chunks(p, m).flatten() == p,
        forall|i: int|
            1 <= i < frame(kind, p, m).len() - 1 ==> 0 < #[trigger] frame(kind, p, m)[i].len() <= m,
{
    lemma_chunks(p, m);
    let f = frame(kind, p, m);
    assert(f.subrange(1, f.len() - 1) =~= chunks(p, m));
    assert forall|i: int| 1 <= i < f.len() - 1 implies 0 < #[trigger] f[i].len() <= m by {
        assert(f[i] == chunks(p, m)[i - 1]);
    }
}

} // verus!
