//! Frame codec: serializes a command invocation into an escaped, checksummed
//! wire frame, and decodes such a frame back.
//!
//! Wire layout, little-endian throughout:
//! `[len-1][0x7E] opcode argtag [count? params...] [extralen? extra...] crc16 [0x7E]`
//! where everything between the `0x7E` markers is byte-stuffed
//! (`0x7D -> 0x7D 0x5D`, `0x7E -> 0x7D 0x5E`) after the CRC-16/X.25 checksum
//! is computed over the unescaped bytes.

use vstd::prelude::*;
use vstd::bytes::spec_u16_from_le_bytes;
use vstd::bytes::spec_u16_to_le_bytes;
use vstd::bytes::spec_u32_from_le_bytes;
use vstd::bytes::spec_u32_to_le_bytes;
use vstd::bytes::u16_from_le_bytes;
use vstd::bytes::u16_to_le_bytes;
use vstd::bytes::u32_from_le_bytes;
use vstd::bytes::u32_to_le_bytes;
use vstd::slice::slice_subrange;
use crate::checksum::crc16_x25;
use crate::checksum::crc16_x25_of;
use crate::probe::Ez430Error;

verus! {

/// Size of the fixed unescaped scratch buffer: one 64-byte HID report.
pub const UNESCAPED_BUFSIZ: usize = 64;

/// Size of the fixed escaped scratch buffer: length byte, two markers, and
/// the stuffed payload must all fit here.
pub const ESCAPED_BUFSIZ: usize = 65;

/// Command opcodes understood by the eZ430 firmware. Each variant maps to a
/// fixed one-byte wire code.
#[derive(Clone, Copy, PartialEq, Eq, Structural, Debug)]
pub enum Cmd {
    /// Initialize the probe firmware.
    Init,
}

impl Cmd {
    /// The one-byte wire code of this command.
    pub open spec fn opcode_spec(self) -> u8 {
        match self {
            Cmd::Init => 0x01,
        }
    }

    /// Executable mirror of [`Self::opcode_spec`].
    pub fn opcode(self) -> (r: u8)
        ensures
            r == self.opcode_spec(),
    {
        match self {
            Cmd::Init => 0x01,
        }
    }

    /// The command a wire opcode stands for, if any.
    pub open spec fn from_opcode_spec(code: u8) -> Option<Cmd> {
        if code == 0x01 {
            Some(Cmd::Init)
        } else {
            None
        }
    }

    /// Executable mirror of [`Self::from_opcode_spec`].
    pub fn from_opcode(code: u8) -> (r: Option<Cmd>)
        ensures
            r == Self::from_opcode_spec(code),
    {
        if code == 0x01 {
            Some(Cmd::Init)
        } else {
            None
        }
    }
}

/// The one-byte tag that records which of the two optional argument blocks
/// (parameter list, extra bytes) an invocation carries.
pub open spec fn args_type_tag(has_params: bool, has_extra: bool) -> u8 {
    match (has_params, has_extra) {
        (false, false) => 1,
        (true, false) => 2,
        (false, true) => 3,
        (true, true) => 4,
    }
}

/// The 4-byte little-endian serialization of each parameter, concatenated.
pub open spec fn params_bytes(params: Seq<u32>) -> Seq<u8>
    decreases params.len(),
{
    if params.len() == 0 {
        Seq::empty()
    } else {
        spec_u32_to_le_bytes(params[0]) + params_bytes(params.skip(1))
    }
}

/// The unescaped payload before the checksum: opcode, args-type tag, then
/// the optional parameter block (2-byte count, 4-byte values) and the
/// optional extra block (4-byte length, raw bytes).
pub open spec fn payload_bytes(cmd: Cmd, params: Option<Seq<u32>>, extra: Option<Seq<u8>>) -> Seq<
    u8,
> {
    let head = seq![cmd.opcode_spec(), args_type_tag(params is Some, extra is Some)];
    let ppart = match params {
        Some(p) => spec_u16_to_le_bytes(p.len() as u16) + params_bytes(p),
        None => Seq::<u8>::empty(),
    };
    let epart = match extra {
        Some(e) => spec_u32_to_le_bytes(e.len() as u32) + e,
        None => Seq::<u8>::empty(),
    };
    head + ppart + epart
}

/// The full unescaped frame body: payload followed by its CRC-16/X.25,
/// little-endian.
pub open spec fn unescaped_frame(cmd: Cmd, params: Option<Seq<u32>>, extra: Option<Seq<u8>>) -> Seq<
    u8,
> {
    let payload = payload_bytes(cmd, params, extra);
    payload + spec_u16_to_le_bytes(crc16_x25_of(payload))
}

/// Byte-stuffing of a single byte: the two reserved bytes expand to a
/// two-byte escape sequence, every other byte passes through.
pub open spec fn escaped_byte(b: u8) -> Seq<u8> {
    if b == 0x7D {
        seq![0x7Du8, 0x5Du8]
    } else if b == 0x7E {
        seq![0x7Du8, 0x5Eu8]
    } else {
        seq![b]
    }
}

/// Byte-stuffing of a whole sequence.
pub open spec fn escape_bytes(s: Seq<u8>) -> Seq<u8>
    decreases s.len(),
{
    if s.len() == 0 {
        Seq::empty()
    } else {
        escaped_byte(s[0]) + escape_bytes(s.skip(1))
    }
}

/// Inverse of [`escape_bytes`]: `None` when the input is not a valid
/// escaped region (a dangling or unknown escape sequence, or a bare marker).
pub open spec fn unescape_bytes(s: Seq<u8>) -> Option<Seq<u8>>
    decreases s.len(),
{
    if s.len() == 0 {
        Some(Seq::empty())
    } else if s[0] == 0x7D {
        if s.len() < 2 {
            None
        } else if s[1] == 0x5D {
            match unescape_bytes(s.skip(2)) {
                Some(r) => Some(seq![0x7Du8] + r),
                None => None,
            }
        } else if s[1] == 0x5E {
            match unescape_bytes(s.skip(2)) {
                Some(r) => Some(seq![0x7Eu8] + r),
                None => None,
            }
        } else {
            None
        }
    } else if s[0] == 0x7E {
        None
    } else {
        match unescape_bytes(s.skip(1)) {
            Some(r) => Some(seq![s[0]] + r),
            None => None,
        }
    }
}

/// Whether an invocation fits the fixed scratch buffers: the unescaped
/// frame within 64 bytes, and the stuffed frame with its length byte and
/// two markers within 65.
pub open spec fn fits(cmd: Cmd, params: Option<Seq<u32>>, extra: Option<Seq<u8>>) -> bool {
    let full = unescaped_frame(cmd, params, extra);
    full.len() <= UNESCAPED_BUFSIZ && escape_bytes(full).len() + 3 <= ESCAPED_BUFSIZ
}

/// The complete wire frame: length byte (total length minus one), start
/// marker, stuffed frame body, end marker.
pub open spec fn wire_frame(cmd: Cmd, params: Option<Seq<u32>>, extra: Option<Seq<u8>>) -> Seq<u8> {
    let esc = escape_bytes(unescaped_frame(cmd, params, extra));
    seq![((esc.len() + 2) as u8), 0x7Eu8] + esc + seq![0x7Eu8]
}

/// Escaping distributes over concatenation.
pub proof fn lemma_escape_bytes_add(a: Seq<u8>, b: Seq<u8>)
    ensures
        escape_bytes(a + b) == escape_bytes(a) + escape_bytes(b),
    decreases a.len(),
{
    if a.len() == 0 {
        assert(a + b =~= b);
        assert(escape_bytes(a) + escape_bytes(b) =~= escape_bytes(b));
    } else {
        assert((a + b).skip(1) =~= a.skip(1) + b);
        lemma_escape_bytes_add(a.skip(1), b);
        assert(escape_bytes(a + b) =~= escape_bytes(a) + escape_bytes(b));
    }
}

/// The stuffed form of one more byte is the stuffed prefix plus that byte's
/// expansion.
pub proof fn lemma_escape_bytes_take_succ(s: Seq<u8>, i: int)
    requires
        0 <= i < s.len(),
    ensures
        escape_bytes(s.take(i + 1)) == escape_bytes(s.take(i)) + escaped_byte(s[i]),
{
    assert(s.take(i + 1) =~= s.take(i) + seq![s[i]]);
    lemma_escape_bytes_add(s.take(i), seq![s[i]]);
    let one = seq![s[i]];
    assert(one.skip(1) =~= Seq::<u8>::empty());
    assert(escape_bytes(one) == escaped_byte(one[0]) + escape_bytes(one.skip(1)));
    assert(escape_bytes(one) =~= escaped_byte(s[i]));
}

/// Parameter serialization length: four bytes per parameter.
pub proof fn lemma_params_bytes_len(p: Seq<u32>)
    ensures
        params_bytes(p).len() == 4 * p.len(),
    decreases p.len(),
{
    vstd::bytes::lemma_auto_spec_u32_to_from_le_bytes();
    if p.len() > 0 {
        lemma_params_bytes_len(p.skip(1));
    }
}

/// Parameter serialization distributes over concatenation.
pub proof fn lemma_params_bytes_add(a: Seq<u32>, b: Seq<u32>)
    ensures
        params_bytes(a + b) == params_bytes(a) + params_bytes(b),
    decreases a.len(),
{
    if a.len() == 0 {
        assert(a + b =~= b);
        assert(params_bytes(a) + params_bytes(b) =~= params_bytes(b));
    } else {
        assert((a + b).skip(1) =~= a.skip(1) + b);
        lemma_params_bytes_add(a.skip(1), b);
        assert(params_bytes(a + b) =~= params_bytes(a) + params_bytes(b));
    }
}

/// Serializing one more parameter appends its four bytes.
pub proof fn lemma_params_bytes_take_succ(p: Seq<u32>, i: int)
    requires
        0 <= i < p.len(),
    ensures
        params_bytes(p.take(i + 1)) == params_bytes(p.take(i)) + spec_u32_to_le_bytes(p[i]),
{
    assert(p.take(i + 1) =~= p.take(i) + seq![p[i]]);
    lemma_params_bytes_add(p.take(i), seq![p[i]]);
    let one = seq![p[i]];
    assert(one.skip(1) =~= Seq::<u32>::empty());
    assert(params_bytes(one) == spec_u32_to_le_bytes(one[0]) + params_bytes(one.skip(1)));
    assert(params_bytes(one) =~= spec_u32_to_le_bytes(p[i]));
}

/// The exact length of the unescaped payload, by block.
pub proof fn lemma_payload_bytes_len(cmd: Cmd, params: Option<Seq<u32>>, extra: Option<Seq<u8>>)
    ensures
        payload_bytes(cmd, params, extra).len() == 2 + (match params {
            Some(p) => 2 + 4 * p.len(),
            None => 0,
        }) + (match extra {
            Some(e) => 4 + e.len(),
            None => 0,
        }),
{
    vstd::bytes::lemma_auto_spec_u16_to_from_le_bytes();
    vstd::bytes::lemma_auto_spec_u32_to_from_le_bytes();
    match params {
        Some(p) => lemma_params_bytes_len(p),
        None => (),
    }
}

/// Byte-stuffing is invertible: unescaping a stuffed sequence gives back
/// exactly the original bytes, whatever reserved bytes it held and wherever
/// they stood.
pub proof fn lemma_unescape_escape(s: Seq<u8>)
    ensures
        unescape_bytes(escape_bytes(s)) == Some(s),
    decreases s.len(),
{
    if s.len() == 0 {
    } else {
        lemma_unescape_escape(s.skip(1));
        let e = escape_bytes(s);
        let rest = escape_bytes(s.skip(1));
        if s[0] == 0x7D {
            assert(e =~= seq![0x7Du8, 0x5Du8] + rest);
            assert(e.skip(2) =~= rest);
            assert(unescape_bytes(e) == Some(seq![0x7Du8] + s.skip(1)));
            assert(seq![0x7Du8] + s.skip(1) =~= s);
        } else if s[0] == 0x7E {
            assert(e =~= seq![0x7Du8, 0x5Eu8] + rest);
            assert(e.skip(2) =~= rest);
            assert(unescape_bytes(e) == Some(seq![0x7Eu8] + s.skip(1)));
            assert(seq![0x7Eu8] + s.skip(1) =~= s);
        } else {
            assert(e =~= seq![s[0]] + rest);
            assert(e.skip(1) =~= rest);
            assert(e[0] == s[0]);
            assert(unescape_bytes(e) == Some(seq![s[0]] + s.skip(1)));
            assert(seq![s[0]] + s.skip(1) =~= s);
        }
    }
}

/// The sequence a borrowed parameter list stands for.
pub open spec fn opt_params_view(params: Option<&Vec<u32>>) -> Option<Seq<u32>> {
    match params {
        Some(p) => Some(p@),
        None => None,
    }
}

/// The sequence a borrowed extra-byte block stands for.
pub open spec fn opt_extra_view(extra: Option<&Vec<u8>>) -> Option<Seq<u8>> {
    match extra {
        Some(e) => Some(e@),
        None => None,
    }
}

/// Serializes one command invocation into its complete wire frame.
///
/// Succeeds exactly when the invocation fits the fixed scratch buffers:
/// the unescaped frame within 64 bytes and the stuffed frame within 65.
/// On success the returned bytes are exactly [`wire_frame`]; on failure
/// nothing has been handed to the transport.
#[verifier::rlimit(100)]
#[verifier::spinoff_prover]
pub fn mk_cmd_buf(cmd: Cmd, params: Option<&Vec<u32>>, extra: Option<&Vec<u8>>) -> (r: Result<
    Vec<u8>,
    Ez430Error,
>)
    ensures
        match r {
            Ok(frame) => {
                &&& fits(cmd, opt_params_view(params), opt_extra_view(extra))
                &&& frame@ == wire_frame(cmd, opt_params_view(params), opt_extra_view(extra))
                &&& frame@.len() <= ESCAPED_BUFSIZ
            },
            Err(e) => {
                &&& !fits(cmd, opt_params_view(params), opt_extra_view(extra))
                &&& e == Ez430Error::BufferOverflow
            },
        },
{
    let ghost gparams = opt_params_view(params);
    let ghost gextra = opt_extra_view(extra);
    proof {
        vstd::bytes::lemma_auto_spec_u16_to_from_le_bytes();
        vstd::bytes::lemma_auto_spec_u32_to_from_le_bytes();
        lemma_payload_bytes_len(cmd, gparams, gextra);
    }
    let n: usize = match params {
        Some(p) => p.len(),
        None => 0,
    };
    let m: usize = match extra {
        Some(e) => e.len(),
        None => 0,
    };
    // Reject sizes that can never fit the unescaped scratch before any
    // length cast could truncate.
    if n > 14 || m > UNESCAPED_BUFSIZ {
        return Err(Ez430Error::BufferOverflow);
    }
    let psize: usize = if params.is_some() {
        2 + 4 * n
    } else {
        0
    };
    let esize: usize = if extra.is_some() {
        4 + m
    } else {
        0
    };
    if 2 + psize + esize + 2 > UNESCAPED_BUFSIZ {
        return Err(Ez430Error::BufferOverflow);
    }
    let tag: u8 = if params.is_some() {
        if extra.is_some() {
            4
        } else {
            2
        }
    } else {
        if extra.is_some() {
            3
        } else {
            1
        }
    };
    let ghost head = seq![cmd.opcode_spec(), args_type_tag(gparams is Some, gextra is Some)];
    let ghost ppart = match gparams {
        Some(p) => spec_u16_to_le_bytes(p.len() as u16) + params_bytes(p),
        None => Seq::<u8>::empty(),
    };
    let ghost epart = match gextra {
        Some(e) => spec_u32_to_le_bytes(e.len() as u32) + e,
        None => Seq::<u8>::empty(),
    };
    let mut buf: Vec<u8> = Vec::new();
    buf.push(cmd.opcode());
    buf.push(tag);
    assert(buf@ =~= head);
    if let Some(p) = params {
        let cnt = u16_to_le_bytes(n as u16);
        buf.push(cnt[0]);
        buf.push(cnt[1]);
        assert(buf@ =~= head + spec_u16_to_le_bytes(n as u16));
        let mut i: usize = 0;
        assert(p@.take(0) =~= Seq::<u32>::empty());
        while i < p.len()
            invariant
                i <= p.len(),
                n == p.len(),
                buf@ == head + spec_u16_to_le_bytes(n as u16) + params_bytes(p@.take(i as int)),
            decreases p.len() - i,
        {
            let bs = u32_to_le_bytes(p[i]);
            buf.push(bs[0]);
            buf.push(bs[1]);
            buf.push(bs[2]);
            buf.push(bs[3]);
            proof {
                vstd::bytes::lemma_auto_spec_u32_to_from_le_bytes();
                lemma_params_bytes_take_succ(p@, i as int);
                assert(buf@ =~= head + spec_u16_to_le_bytes(n as u16) + params_bytes(
                    p@.take(i as int + 1),
                ));
            }
            i += 1;
        }
        assert(p@.take(p@.len() as int) =~= p@);
        assert(buf@ == head + ppart);
    } else {
        assert(buf@ =~= head + ppart);
    }
    if let Some(e) = extra {
        let lb = u32_to_le_bytes(m as u32);
        buf.push(lb[0]);
        buf.push(lb[1]);
        buf.push(lb[2]);
        buf.push(lb[3]);
        assert(buf@ =~= head + ppart + spec_u32_to_le_bytes(m as u32));
        let mut j: usize = 0;
        assert(e@.take(0) =~= Seq::<u8>::empty());
        while j < e.len()
            invariant
                j <= e.len(),
                m == e.len(),
                buf@ == head + ppart + spec_u32_to_le_bytes(m as u32) + e@.take(j as int),
            decreases e.len() - j,
        {
            buf.push(e[j]);
            assert(e@.take(j + 1) =~= e@.take(j as int).push(e@[j as int]));
            j += 1;
        }
        assert(e@.take(e@.len() as int) =~= e@);
        assert(buf@ =~= (head + ppart) + (spec_u32_to_le_bytes(m as u32) + e@));
    } else {
        assert(buf@ =~= (head + ppart) + epart);
    }
    assert(buf@ == payload_bytes(cmd, gparams, gextra));
    let crc = crc16_x25(&buf);
    let cb = u16_to_le_bytes(crc);
    let ghost gpayload = buf@;
    buf.push(cb[0]);
    buf.push(cb[1]);
    assert(buf@ =~= gpayload + spec_u16_to_le_bytes(crc16_x25_of(gpayload)));
    assert(buf@ == unescaped_frame(cmd, gparams, gextra));
    let mut esc: Vec<u8> = Vec::new();
    let mut k: usize = 0;
    assert(buf@.take(0) =~= Seq::<u8>::empty());
    while k < buf.len()
        invariant
            k <= buf.len(),
            buf@.len() <= UNESCAPED_BUFSIZ,
            esc@ == escape_bytes(buf@.take(k as int)),
            esc@.len() <= 2 * k,
        decreases buf.len() - k,
    {
        let b = buf[k];
        if b == 0x7D {
            esc.push(0x7D);
            esc.push(0x5D);
        } else if b == 0x7E {
            esc.push(0x7D);
            esc.push(0x5E);
        } else {
            esc.push(b);
        }
        proof {
            lemma_escape_bytes_take_succ(buf@, k as int);
            assert(esc@ =~= escape_bytes(buf@.take(k as int + 1)));
        }
        k += 1;
    }
    assert(buf@.take(buf@.len() as int) =~= buf@);
    assert(esc@ == escape_bytes(unescaped_frame(cmd, gparams, gextra)));
    if esc.len() + 3 > ESCAPED_BUFSIZ {
        return Err(Ez430Error::BufferOverflow);
    }
    let mut frame: Vec<u8> = Vec::new();
    frame.push((esc.len() + 2) as u8);
    frame.push(0x7E);
    let mut k2: usize = 0;
    assert(esc@.take(0) =~= Seq::<u8>::empty());
    while k2 < esc.len()
        invariant
            k2 <= esc.len(),
            esc@.len() + 3 <= ESCAPED_BUFSIZ,
            frame@ == seq![((esc@.len() + 2) as u8), 0x7Eu8] + esc@.take(k2 as int),
        decreases esc.len() - k2,
    {
        frame.push(esc[k2]);
        assert(esc@.take(k2 + 1) =~= esc@.take(k2 as int).push(esc@[k2 as int]));
        k2 += 1;
    }
    assert(esc@.take(esc@.len() as int) =~= esc@);
    frame.push(0x7E);
    assert(frame@ =~= wire_frame(cmd, gparams, gextra));
    Ok(frame)
}

/// Whether a byte sequence carries the frame envelope: a length byte equal
/// to the total length minus one, a start marker, an end marker, and a
/// total length the escaped scratch could have held.
pub open spec fn well_framed(bytes: Seq<u8>) -> bool {
    &&& bytes.len() >= 4
    &&& bytes.len() <= ESCAPED_BUFSIZ
    &&& bytes[0] == (bytes.len() - 1) as u8
    &&& bytes[1] == 0x7E
    &&& bytes[bytes.len() - 1] == 0x7E
}

/// The escaped region between the two markers.
pub open spec fn frame_interior(bytes: Seq<u8>) -> Seq<u8> {
    bytes.subrange(2, bytes.len() - 1)
}

/// The first `n` 4-byte little-endian parameters at the front of `s`.
pub open spec fn parse_params(s: Seq<u8>, n: nat) -> Seq<u32>
    decreases n,
{
    if n == 0 {
        Seq::empty()
    } else {
        seq![spec_u32_from_le_bytes(s.take(4))] + parse_params(s.skip(4), (n - 1) as nat)
    }
}

/// The tail of a payload after the parameter block: the optional extra
/// block, which must consume the rest exactly.
pub open spec fn parse_tail(
    cmd: Cmd,
    params: Option<Seq<u32>>,
    has_extra: bool,
    rest: Seq<u8>,
) -> Option<(Cmd, Option<Seq<u32>>, Option<Seq<u8>>)> {
    if has_extra {
        if rest.len() < 4 {
            None
        } else if rest.len() != 4 + spec_u32_from_le_bytes(rest.take(4)) {
            None
        } else {
            Some((cmd, params, Some(rest.skip(4))))
        }
    } else {
        if rest.len() != 0 {
            None
        } else {
            Some((cmd, params, None))
        }
    }
}

/// The invocation an unescaped payload (without its checksum) stands for,
/// or `None` when the payload is not a valid serialization.
pub open spec fn parse_payload(s: Seq<u8>) -> Option<(Cmd, Option<Seq<u32>>, Option<Seq<u8>>)> {
    if s.len() < 2 {
        None
    } else {
        match Cmd::from_opcode_spec(s[0]) {
            None => None,
            Some(cmd) => {
                let tag = s[1];
                if tag < 1 || tag > 4 {
                    None
                } else {
                    let has_params = tag == 2 || tag == 4;
                    let has_extra = tag == 3 || tag == 4;
                    if has_params {
                        if s.len() < 4 {
                            None
                        } else {
                            let n = spec_u16_from_le_bytes(s.subrange(2, 4));
                            if s.len() < 4 + 4 * n {
                                None
                            } else {
                                parse_tail(
                                    cmd,
                                    Some(parse_params(s.skip(4), n as nat)),
                                    has_extra,
                                    s.skip(4 + 4 * n),
                                )
                            }
                        }
                    } else {
                        parse_tail(cmd, None, has_extra, s.skip(2))
                    }
                }
            },
        }
    }
}

/// The invocation a received frame decodes to, or `None` when the decoder
/// rejects it.
pub open spec fn decode_ok(bytes: Seq<u8>) -> Option<(Cmd, Option<Seq<u32>>, Option<Seq<u8>>)> {
    if !well_framed(bytes) {
        None
    } else {
        match unescape_bytes(frame_interior(bytes)) {
            None => None,
            Some(full) => {
                if full.len() < 2 {
                    None
                } else if spec_u16_from_le_bytes(full.skip(full.len() - 2)) != crc16_x25_of(
                    full.take(full.len() - 2),
                ) {
                    None
                } else {
                    parse_payload(full.take(full.len() - 2))
                }
            },
        }
    }
}

/// The error a rejected frame is rejected with: `ChecksumMismatch` exactly
/// when the envelope and escaping are intact but the stored checksum is not
/// the CRC-16/X.25 of the payload; `FrameError` for every other corruption.
pub open spec fn decode_err(bytes: Seq<u8>) -> Ez430Error {
    if well_framed(bytes) {
        match unescape_bytes(frame_interior(bytes)) {
            None => Ez430Error::FrameError,
            Some(full) => {
                if full.len() < 2 {
                    Ez430Error::FrameError
                } else if spec_u16_from_le_bytes(full.skip(full.len() - 2)) != crc16_x25_of(
                    full.take(full.len() - 2),
                ) {
                    Ez430Error::ChecksumMismatch
                } else {
                    Ez430Error::FrameError
                }
            },
        }
    } else {
        Ez430Error::FrameError
    }
}

/// An optional unescaped remainder, prefixed with already-unescaped bytes.
pub open spec fn prepend_opt(prefix: Seq<u8>, r: Option<Seq<u8>>) -> Option<Seq<u8>> {
    match r {
        Some(s) => Some(prefix + s),
        None => None,
    }
}

/// Prefixing twice is prefixing with the concatenation.
pub proof fn lemma_prepend_opt_add(a: Seq<u8>, b: Seq<u8>, r: Option<Seq<u8>>)
    ensures
        prepend_opt(a, prepend_opt(b, r)) == prepend_opt(a + b, r),
{
    match r {
        Some(s) => {
            assert(a + (b + s) =~= (a + b) + s);
        },
        None => (),
    }
}

/// Undoes byte-stuffing. Fails with `FrameError` on a dangling or unknown
/// escape sequence or a bare marker byte inside the region.
pub fn unescape(escaped: &Vec<u8>) -> (r: Result<Vec<u8>, Ez430Error>)
    ensures
        match r {
            Ok(out) => unescape_bytes(escaped@) == Some(out@),
            Err(e) => unescape_bytes(escaped@) is None && e == Ez430Error::FrameError,
        },
{
    let mut out: Vec<u8> = Vec::new();
    let mut i: usize = 0;
    proof {
        assert(escaped@.skip(0) =~= escaped@);
        assert(prepend_opt(Seq::<u8>::empty(), unescape_bytes(escaped@)) == unescape_bytes(
            escaped@,
        )) by {
            match unescape_bytes(escaped@) {
                Some(s) => {
                    assert(Seq::<u8>::empty() + s =~= s);
                },
                None => (),
            }
        }
    }
    while i < escaped.len()
        invariant
            i <= escaped.len(),
            unescape_bytes(escaped@) == prepend_opt(out@, unescape_bytes(escaped@.skip(i as int))),
        decreases escaped.len() - i,
    {
        let ghost tail = escaped@.skip(i as int);
        let b = escaped[i];
        assert(tail[0] == b);
        if b == 0x7D {
            if i + 1 >= escaped.len() {
                assert(tail.len() == 1);
                assert(unescape_bytes(tail) is None);
                return Err(Ez430Error::FrameError);
            }
            let b2 = escaped[i + 1];
            assert(tail[1] == b2);
            assert(tail.skip(2) =~= escaped@.skip(i + 2));
            if b2 == 0x5D {
                out.push(0x7D);
                proof {
                    lemma_prepend_opt_add(
                        out@.drop_last(),
                        seq![0x7Du8],
                        unescape_bytes(escaped@.skip(i + 2)),
                    );
                    assert(out@.drop_last() + seq![0x7Du8] =~= out@);
                }
            } else if b2 == 0x5E {
                out.push(0x7E);
                proof {
                    lemma_prepend_opt_add(
                        out@.drop_last(),
                        seq![0x7Eu8],
                        unescape_bytes(escaped@.skip(i + 2)),
                    );
                    assert(out@.drop_last() + seq![0x7Eu8] =~= out@);
                }
            } else {
                assert(unescape_bytes(tail) is None);
                return Err(Ez430Error::FrameError);
            }
            i += 2;
        } else if b == 0x7E {
            assert(unescape_bytes(tail) is None);
            return Err(Ez430Error::FrameError);
        } else {
            assert(tail.skip(1) =~= escaped@.skip(i + 1));
            out.push(b);
            proof {
                lemma_prepend_opt_add(
                    out@.drop_last(),
                    seq![b],
                    unescape_bytes(escaped@.skip(i + 1)),
                );
                assert(out@.drop_last() + seq![b] =~= out@);
            }
            i += 1;
        }
    }
    proof {
        assert(escaped@.skip(i as int) =~= Seq::<u8>::empty());
        assert(out@ + Seq::<u8>::empty() =~= out@);
    }
    Ok(out)
}

/// Parsing one more parameter appends its value.
pub proof fn lemma_parse_params_succ(s: Seq<u8>, t: nat)
    requires
        s.len() >= 4 * t + 4,
    ensures
        parse_params(s, t + 1) == parse_params(s, t) + seq![
            spec_u32_from_le_bytes(s.skip(4 * t as int).take(4)),
        ],
    decreases t,
{
    if t == 0 {
        assert(s.skip(0) =~= s);
        assert(parse_params(s, 1) == seq![spec_u32_from_le_bytes(s.take(4))] + parse_params(
            s.skip(4),
            0,
        ));
        assert(parse_params(s, 1) =~= parse_params(s, 0) + seq![
            spec_u32_from_le_bytes(s.skip(0).take(4)),
        ]);
    } else {
        lemma_parse_params_succ(s.skip(4), (t - 1) as nat);
        assert(s.skip(4).skip(4 * (t - 1)) =~= s.skip(4 * t as int));
        assert(parse_params(s, t + 1) =~= parse_params(s, t) + seq![
            spec_u32_from_le_bytes(s.skip(4 * t as int).take(4)),
        ]);
    }
}

/// The sequence a decoded parameter list stands for.
pub open spec fn opt_seq_u32(p: Option<Vec<u32>>) -> Option<Seq<u32>> {
    match p {
        Some(v) => Some(v@),
        None => None,
    }
}

/// The sequence a decoded extra-byte block stands for.
pub open spec fn opt_seq_u8(e: Option<Vec<u8>>) -> Option<Seq<u8>> {
    match e {
        Some(v) => Some(v@),
        None => None,
    }
}

/// Parses an unescaped payload (without its checksum) back into the
/// invocation it serializes. Fails with `FrameError` exactly when the
/// payload is not a valid serialization.
#[verifier::rlimit(100)]
#[verifier::spinoff_prover]
pub fn parse_cmd_payload(payload: &Vec<u8>) -> (r: Result<
    (Cmd, Option<Vec<u32>>, Option<Vec<u8>>),
    Ez430Error,
>)
    ensures
        match r {
            Ok(inv) => parse_payload(payload@) == Some((inv.0, opt_seq_u32(inv.1), opt_seq_u8(inv.2))),
            Err(e) => parse_payload(payload@) is None && e == Ez430Error::FrameError,
        },
{
    let s = payload;
    if s.len() < 2 {
        return Err(Ez430Error::FrameError);
    }
    let cmd = match Cmd::from_opcode(s[0]) {
        Some(c) => c,
        None => {
            return Err(Ez430Error::FrameError);
        },
    };
    let tag = s[1];
    if tag < 1 || tag > 4 {
        return Err(Ez430Error::FrameError);
    }
    let has_params = tag == 2 || tag == 4;
    let has_extra = tag == 3 || tag == 4;
    let mut params_out: Option<Vec<u32>> = None;
    let mut idx: usize = 2;
    if has_params {
        if s.len() < 4 {
            return Err(Ez430Error::FrameError);
        }
        let n16 = u16_from_le_bytes(slice_subrange(s.as_slice(), 2, 4));
        assert(s@.subrange(2, 4) == payload@.subrange(2, 4));
        let n = n16 as usize;
        if s.len() < 4 + 4 * n {
            return Err(Ez430Error::FrameError);
        }
        let ghost stail = s@.skip(4);
        let mut pv: Vec<u32> = Vec::new();
        let mut t: usize = 0;
        while t < n
            invariant
                t <= n,
                n < 0x10000,
                s@.len() >= 4 + 4 * n,
                pv@ == parse_params(stail, t as nat),
                stail == s@.skip(4),
            decreases n - t,
        {
            let v = u32_from_le_bytes(slice_subrange(s.as_slice(), 4 + 4 * t, 8 + 4 * t));
            pv.push(v);
            proof {
                lemma_parse_params_succ(stail, t as nat);
                assert(stail.skip(4 * t as int).take(4) =~= s@.subrange(
                    4 + 4 * t as int,
                    8 + 4 * t as int,
                ));
                assert(pv@ =~= parse_params(stail, (t + 1) as nat));
            }
            t += 1;
        }
        params_out = Some(pv);
        idx = 4 + 4 * n;
    }
    let mut extra_out: Option<Vec<u8>> = None;
    let ghost rest = s@.skip(idx as int);
    assert(rest.len() == s@.len() - idx);
    if has_extra {
        if s.len() < idx + 4 {
            return Err(Ez430Error::FrameError);
        }
        let m32 = u32_from_le_bytes(slice_subrange(s.as_slice(), idx, idx + 4));
        assert(rest.take(4) =~= s@.subrange(idx as int, idx + 4));
        let m = m32 as usize;
        if s.len() - idx - 4 != m {
            return Err(Ez430Error::FrameError);
        }
        let mut ev: Vec<u8> = Vec::new();
        let mut q: usize = idx + 4;
        while q < s.len()
            invariant
                idx + 4 <= q <= s@.len(),
                ev@ == s@.subrange(idx + 4, q as int),
            decreases s.len() - q,
        {
            ev.push(s[q]);
            assert(s@.subrange(idx + 4, q + 1) =~= s@.subrange(idx + 4, q as int).push(
                s@[q as int],
            ));
            q += 1;
        }
        assert(ev@ =~= rest.skip(4));
        extra_out = Some(ev);
    } else {
        if s.len() != idx {
            assert(rest.len() != 0);
            return Err(Ez430Error::FrameError);
        }
    }
    Ok((cmd, params_out, extra_out))
}

/// Decodes a complete received wire frame back into the invocation it
/// carries: checks the envelope, undoes the byte-stuffing, verifies the
/// checksum, and parses the payload. The error says which stage rejected
/// the frame, exactly as [`decode_err`] states it.
pub fn decode_cmd_buf(frame: &Vec<u8>) -> (r: Result<
    (Cmd, Option<Vec<u32>>, Option<Vec<u8>>),
    Ez430Error,
>)
    ensures
        match r {
            Ok(inv) => decode_ok(frame@) == Some((inv.0, opt_seq_u32(inv.1), opt_seq_u8(inv.2))),
            Err(e) => decode_ok(frame@) is None && e == decode_err(frame@),
        },
{
    let len = frame.len();
    if len < 4 || len > ESCAPED_BUFSIZ {
        return Err(Ez430Error::FrameError);
    }
    if frame[0] != (len - 1) as u8 || frame[1] != 0x7E || frame[len - 1] != 0x7E {
        return Err(Ez430Error::FrameError);
    }
    assert(well_framed(frame@));
    let mut interior: Vec<u8> = Vec::new();
    let mut i: usize = 2;
    assert(frame@.subrange(2, 2) =~= Seq::<u8>::empty());
    while i < len - 1
        invariant
            2 <= i <= frame@.len() - 1,
            len == frame@.len(),
            interior@ == frame@.subrange(2, i as int),
        decreases len - 1 - i,
    {
        interior.push(frame[i]);
        assert(frame@.subrange(2, i + 1) =~= frame@.subrange(2, i as int).push(frame@[i as int]));
        i += 1;
    }
    assert(interior@ == frame_interior(frame@));
    let full = match unescape(&interior) {
        Ok(f) => f,
        Err(e) => {
            return Err(e);
        },
    };
    if full.len() < 2 {
        return Err(Ez430Error::FrameError);
    }
    let flen = full.len();
    let mut payload: Vec<u8> = Vec::new();
    let mut j: usize = 0;
    assert(full@.take(0) =~= Seq::<u8>::empty());
    while j < flen - 2
        invariant
            0 <= j <= flen - 2,
            flen == full@.len(),
            payload@ == full@.take(j as int),
        decreases flen - 2 - j,
    {
        payload.push(full[j]);
        assert(full@.take(j + 1) =~= full@.take(j as int).push(full@[j as int]));
        j += 1;
    }
    assert(payload@ == full@.take(flen - 2));
    let computed = crc16_x25(&payload);
    let stored = u16_from_le_bytes(slice_subrange(full.as_slice(), flen - 2, flen));
    assert(full@.subrange(flen - 2, flen as int) =~= full@.skip(flen - 2));
    if stored != computed {
        return Err(Ez430Error::ChecksumMismatch);
    }
    match parse_cmd_payload(&payload) {
        Ok(inv) => Ok(inv),
        Err(e) => Err(e),
    }
}

/// An escaped sequence is at least as long as its source.
pub proof fn lemma_escape_bytes_len(s: Seq<u8>)
    ensures
        escape_bytes(s).len() >= s.len(),
    decreases s.len(),
{
    if s.len() > 0 {
        lemma_escape_bytes_len(s.skip(1));
    }
}

/// Parsing the serialized parameter block recovers the parameters and
/// leaves exactly the rest.
pub proof fn lemma_parse_params_roundtrip(p: Seq<u32>, rest: Seq<u8>)
    ensures
        parse_params(params_bytes(p) + rest, p.len()) == p,
    decreases p.len(),
{
    lemma_params_bytes_len(p);
    if p.len() > 0 {
        vstd::bytes::lemma_auto_spec_u32_to_from_le_bytes();
        lemma_params_bytes_len(p.skip(1));
        let s = params_bytes(p) + rest;
        assert(s.take(4) =~= spec_u32_to_le_bytes(p[0]));
        assert(s.skip(4) =~= params_bytes(p.skip(1)) + rest);
        lemma_parse_params_roundtrip(p.skip(1), rest);
        assert(parse_params(s, p.len()) == seq![spec_u32_from_le_bytes(s.take(4))] + parse_params(
            s.skip(4),
            (p.len() - 1) as nat,
        ));
        assert(seq![p[0]] + p.skip(1) =~= p);
    }
}

/// Parsing an unescaped payload recovers exactly the invocation that was
/// serialized into it, for every invocation whose block lengths fit their
/// wire-count fields.
#[verifier::rlimit(100)]
#[verifier::spinoff_prover]
pub proof fn lemma_parse_payload_roundtrip(cmd: Cmd, params: Option<Seq<u32>>, extra: Option<Seq<
    u8,
>>)
    requires
        params matches Some(p) ==> p.len() < 0x10000,
        extra matches Some(e) ==> e.len() < 0x100000000,
    ensures
        parse_payload(payload_bytes(cmd, params, extra)) == Some((cmd, params, extra)),
{
    vstd::bytes::lemma_auto_spec_u16_to_from_le_bytes();
    vstd::bytes::lemma_auto_spec_u32_to_from_le_bytes();
    let s = payload_bytes(cmd, params, extra);
    let head = seq![cmd.opcode_spec(), args_type_tag(params is Some, extra is Some)];
    let ppart = match params {
        Some(p) => spec_u16_to_le_bytes(p.len() as u16) + params_bytes(p),
        None => Seq::<u8>::empty(),
    };
    let epart = match extra {
        Some(e) => spec_u32_to_le_bytes(e.len() as u32) + e,
        None => Seq::<u8>::empty(),
    };
    lemma_payload_bytes_len(cmd, params, extra);
    assert(s == head + ppart + epart);
    assert(s[0] == cmd.opcode_spec());
    assert(s[1] == args_type_tag(params is Some, extra is Some));
    assert(Cmd::from_opcode_spec(cmd.opcode_spec()) == Some(cmd));
    match params {
        Some(p) => {
            lemma_params_bytes_len(p);
            assert(s.subrange(2, 4) =~= spec_u16_to_le_bytes(p.len() as u16));
            let n = spec_u16_from_le_bytes(s.subrange(2, 4));
            assert(n == p.len() as u16);
            assert(n as int == p.len());
            assert(s.skip(4) =~= params_bytes(p) + epart);
            lemma_parse_params_roundtrip(p, epart);
            assert(parse_params(s.skip(4), n as nat) == p);
            assert(s.skip(4 + 4 * (n as int)) =~= epart);
            lemma_parse_tail_roundtrip(cmd, Some(p), extra, epart);
        },
        None => {
            assert(s.skip(2) =~= epart);
            lemma_parse_tail_roundtrip(cmd, None, extra, epart);
        },
    }
}

/// Parsing the serialized extra block recovers it exactly.
proof fn lemma_parse_tail_roundtrip(
    cmd: Cmd,
    params: Option<Seq<u32>>,
    extra: Option<Seq<u8>>,
    epart: Seq<u8>,
)
    requires
        extra matches Some(e) ==> e.len() < 0x100000000,
        epart == (match extra {
            Some(e) => spec_u32_to_le_bytes(e.len() as u32) + e,
            None => Seq::<u8>::empty(),
        }),
    ensures
        parse_tail(cmd, params, extra is Some, epart) == Some((cmd, params, extra)),
{
    vstd::bytes::lemma_auto_spec_u32_to_from_le_bytes();
    match extra {
        Some(e) => {
            assert(epart.take(4) =~= spec_u32_to_le_bytes(e.len() as u32));
            assert(spec_u32_from_le_bytes(epart.take(4)) == e.len() as u32);
            assert(epart.len() == 4 + e.len());
            assert(epart.skip(4) =~= e);
        },
        None => (),
    }
}

/// Law: encoding is deterministic. The wire frame is a function of the
/// invocation alone, so any two frames encoded from the same command,
/// parameters and extra bytes are byte-identical.
pub proof fn lemma_encode_deterministic(
    cmd: Cmd,
    params: Option<Seq<u32>>,
    extra: Option<Seq<u8>>,
    f1: Seq<u8>,
    f2: Seq<u8>,
)
    requires
        f1 == wire_frame(cmd, params, extra),
        f2 == wire_frame(cmd, params, extra),
    ensures
        f1 == f2,
{
}

/// Law: round trip. Decoding a frame encoded from any invocation that fits
/// the scratch buffers yields exactly that invocation.
#[verifier::rlimit(100)]
#[verifier::spinoff_prover]
pub proof fn lemma_round_trip(cmd: Cmd, params: Option<Seq<u32>>, extra: Option<Seq<u8>>)
    requires
        fits(cmd, params, extra),
    ensures
        decode_ok(wire_frame(cmd, params, extra)) == Some((cmd, params, extra)),
{
    vstd::bytes::lemma_auto_spec_u16_to_from_le_bytes();
    vstd::bytes::lemma_auto_spec_u32_to_from_le_bytes();
    lemma_payload_bytes_len(cmd, params, extra);
    let payload = payload_bytes(cmd, params, extra);
    let full = unescaped_frame(cmd, params, extra);
    let esc = escape_bytes(full);
    let bytes = wire_frame(cmd, params, extra);
    lemma_escape_bytes_len(full);
    assert(full.len() == payload.len() + 2);
    assert(payload.len() >= 2);
    assert(bytes.len() == esc.len() + 3);
    assert(bytes[0] == (bytes.len() - 1) as u8);
    assert(bytes[1] == 0x7E);
    assert(bytes[bytes.len() - 1] == 0x7E);
    assert(well_framed(bytes));
    assert(frame_interior(bytes) =~= esc);
    lemma_unescape_escape(full);
    assert(unescape_bytes(frame_interior(bytes)) == Some(full));
    assert(full.take(full.len() - 2) =~= payload);
    assert(full.skip(full.len() - 2) =~= spec_u16_to_le_bytes(crc16_x25_of(payload)));
    assert(spec_u16_from_le_bytes(full.skip(full.len() - 2)) == crc16_x25_of(payload));
    match params {
        Some(p) => {
            lemma_params_bytes_len(p);
            assert(p.len() < 0x10000);
        },
        None => (),
    }
    lemma_parse_payload_roundtrip(cmd, params, extra);
}

/// The compute half of issuing a command: the buffer handed to the HID
/// layer, whose first byte is the fixed report id 0 ("default report"),
/// followed by the complete wire frame.
pub fn mk_report_buf(cmd: Cmd, params: Option<&Vec<u32>>, extra: Option<&Vec<u8>>) -> (r: Result<
    Vec<u8>,
    Ez430Error,
>)
    ensures
        match r {
            Ok(report) => {
                &&& fits(cmd, opt_params_view(params), opt_extra_view(extra))
                &&& report@ == seq![0u8] + wire_frame(
                    cmd,
                    opt_params_view(params),
                    opt_extra_view(extra),
                )
                &&& report@.len() <= ESCAPED_BUFSIZ + 1
            },
            Err(e) => {
                &&& !fits(cmd, opt_params_view(params), opt_extra_view(extra))
                &&& e == Ez430Error::BufferOverflow
            },
        },
{
    let frame = match mk_cmd_buf(cmd, params, extra) {
        Ok(f) => f,
        Err(e) => {
            return Err(e);
        },
    };
    let mut report: Vec<u8> = Vec::new();
    report.push(0);
    let mut i: usize = 0;
    assert(frame@.take(0) =~= Seq::<u8>::empty());
    assert(report@ =~= seq![0u8] + frame@.take(0));
    while i < frame.len()
        invariant
            i <= frame@.len(),
            report@ == seq![0u8] + frame@.take(i as int),
        decreases frame@.len() - i,
    {
        report.push(frame[i]);
        assert(frame@.take(i + 1) =~= frame@.take(i as int).push(frame@[i as int]));
        i += 1;
    }
    assert(frame@.take(frame@.len() as int) =~= frame@);
    Ok(report)
}

/// Whether a frame's envelope and escaping are intact while its stored
/// checksum is not the CRC-16/X.25 of its payload.
pub open spec fn checksum_mismatched(bytes: Seq<u8>) -> bool {
    &&& well_framed(bytes)
    &&& match unescape_bytes(frame_interior(bytes)) {
        Some(full) => full.len() >= 2 && spec_u16_from_le_bytes(full.skip(full.len() - 2))
            != crc16_x25_of(full.take(full.len() - 2)),
        None => false,
    }
}

/// Law: checksum corruption is rejected. Any frame whose envelope and
/// escaping are intact but whose stored checksum differs from the
/// CRC-16/X.25 of its unescaped payload decodes to no invocation, and the
/// decoder reports exactly a checksum mismatch.
pub proof fn lemma_checksum_rejection(bytes: Seq<u8>)
    ensures
        checksum_mismatched(bytes) ==> decode_ok(bytes) is None && decode_err(bytes)
            == Ez430Error::ChecksumMismatch,
{
}

} // verus!