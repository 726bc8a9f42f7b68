use ez430::codec::decode_cmd_buf;
use ez430::codec::mk_cmd_buf;
use ez430::codec::mk_report_buf;
use ez430::codec::unescape;
use ez430::codec::Cmd;
use ez430::probe::Ez430Error;

/// Byte-stuffs a frame body the same way the device expects it, for
/// building expected frames by hand.
fn escape_all(body: &[u8]) -> Vec<u8> {
    let mut out = Vec::new();
    for &b in body {
        match b {
            0x7D => {
                out.push(0x7D);
                out.push(0x5D);
            }
            0x7E => {
                out.push(0x7D);
                out.push(0x5E);
            }
            other => out.push(other),
        }
    }
    out
}

/// Wraps an unescaped frame body (payload followed by its checksum bytes)
/// into a complete wire frame.
fn frame_of(body: &[u8]) -> Vec<u8> {
    let esc = escape_all(body);
    let mut out = Vec::new();
    out.push((esc.len() + 2) as u8);
    out.push(0x7E);
    out.extend_from_slice(&esc);
    out.push(0x7E);
    out
}

fn crc16(data: &[u8]) -> u16 {
    crc::Crc::<u16>::new(&crc::CRC_16_IBM_SDLC).checksum(data)
}

#[test]
fn test_init_cmd() {
    let frame = mk_cmd_buf(Cmd::Init, None, None).unwrap();
    assert_eq!([0x06, 0x7E, 0x01, 0x01, 0x16, 0x07, 0x7E].as_ref(), frame.as_slice());
}

#[test]
fn encoding_is_deterministic() {
    let params = vec![0x11223344u32, 0x7D7E0001u32];
    let extra = vec![0x7Eu8, 0x7D, 0x00, 0xFF];
    let a = mk_cmd_buf(Cmd::Init, Some(&params), Some(&extra)).unwrap();
    let b = mk_cmd_buf(Cmd::Init, Some(&params), Some(&extra)).unwrap();
    assert_eq!(a, b);
    let c = mk_cmd_buf(Cmd::Init, None, None).unwrap();
    let d = mk_cmd_buf(Cmd::Init, None, None).unwrap();
    assert_eq!(c, d);
}

#[test]
fn report_buf_prepends_report_id() {
    let report = mk_report_buf(Cmd::Init, None, None).unwrap();
    assert_eq!(
        [0x00, 0x06, 0x7E, 0x01, 0x01, 0x16, 0x07, 0x7E].as_ref(),
        report.as_slice()
    );
}

#[test]
fn round_trip_no_args() {
    let frame = mk_cmd_buf(Cmd::Init, None, None).unwrap();
    let (cmd, params, extra) = decode_cmd_buf(&frame).unwrap();
    assert_eq!(cmd, Cmd::Init);
    assert!(params.is_none());
    assert!(extra.is_none());
}

#[test]
fn round_trip_params_only() {
    let params = vec![0u32, 1, 0xFFFFFFFF, 0x7D7E7D7E];
    let frame = mk_cmd_buf(Cmd::Init, Some(&params), None).unwrap();
    let (cmd, dparams, dextra) = decode_cmd_buf(&frame).unwrap();
    assert_eq!(cmd, Cmd::Init);
    assert_eq!(dparams.unwrap(), params);
    assert!(dextra.is_none());
}

#[test]
fn round_trip_extra_only() {
    let extra = vec![0x7Du8, 0x7E, 0x5D, 0x5E, 0x00, 0xFF];
    let frame = mk_cmd_buf(Cmd::Init, None, Some(&extra)).unwrap();
    let (cmd, dparams, dextra) = decode_cmd_buf(&frame).unwrap();
    assert_eq!(cmd, Cmd::Init);
    assert!(dparams.is_none());
    assert_eq!(dextra.unwrap(), extra);
}

#[test]
fn round_trip_params_and_extra() {
    let params = vec![0xDEADBEEFu32, 0x7E7E7E7E];
    let extra = vec![0x01u8, 0x7D, 0x7E];
    let frame = mk_cmd_buf(Cmd::Init, Some(&params), Some(&extra)).unwrap();
    let (cmd, dparams, dextra) = decode_cmd_buf(&frame).unwrap();
    assert_eq!(cmd, Cmd::Init);
    assert_eq!(dparams.unwrap(), params);
    assert_eq!(dextra.unwrap(), extra);
}

#[test]
fn unescape_undoes_escaping() {
    let original = vec![0x7Du8, 0x7E, 0x41, 0x5D, 0x5E, 0x7E, 0x00, 0x7D];
    let escaped = escape_all(&original);
    assert_eq!(unescape(&escaped).unwrap(), original);
    // Escaping at the very first and very last position round-trips too.
    let edges = vec![0x7Eu8, 0x01, 0x7D];
    assert_eq!(unescape(&escape_all(&edges)).unwrap(), edges);
}

#[test]
fn unescape_rejects_garbled_regions() {
    // Dangling escape byte at the end.
    assert_eq!(unescape(&vec![0x41, 0x7D]), Err(Ez430Error::FrameError));
    // Unknown escape sequence.
    assert_eq!(unescape(&vec![0x7D, 0x41]), Err(Ez430Error::FrameError));
    // Bare marker inside the region.
    assert_eq!(unescape(&vec![0x41, 0x7E, 0x42]), Err(Ez430Error::FrameError));
}

#[test]
fn checksum_bit_flips_are_rejected() {
    // The valid Init frame carries payload [0x01, 0x01] and checksum
    // bytes [0x16, 0x07]. Flip every single bit of the payload in turn,
    // keep the stored checksum, and the decoder must reject each frame
    // with a checksum mismatch.
    for byte_idx in 0..2usize {
        for bit in 0..8 {
            let mut body = vec![0x01u8, 0x01, 0x16, 0x07];
            body[byte_idx] ^= 1 << bit;
            let frame = frame_of(&body);
            assert_eq!(decode_cmd_buf(&frame), Err(Ez430Error::ChecksumMismatch));
        }
    }
    // Flipping bits of the stored checksum itself is also caught.
    for byte_idx in 2..4usize {
        for bit in 0..8 {
            let mut body = vec![0x01u8, 0x01, 0x16, 0x07];
            body[byte_idx] ^= 1 << bit;
            let frame = frame_of(&body);
            assert_eq!(decode_cmd_buf(&frame), Err(Ez430Error::ChecksumMismatch));
        }
    }
}

#[test]
fn decoder_rejects_bad_envelope() {
    // Too short.
    assert_eq!(decode_cmd_buf(&vec![0x7E, 0x7E]), Err(Ez430Error::FrameError));
    // Wrong length byte.
    let mut frame = mk_cmd_buf(Cmd::Init, None, None).unwrap();
    frame[0] = frame[0].wrapping_add(1);
    assert_eq!(decode_cmd_buf(&frame), Err(Ez430Error::FrameError));
    // Missing start marker.
    let mut frame = mk_cmd_buf(Cmd::Init, None, None).unwrap();
    frame[1] = 0x00;
    assert_eq!(decode_cmd_buf(&frame), Err(Ez430Error::FrameError));
    // Missing end marker.
    let mut frame = mk_cmd_buf(Cmd::Init, None, None).unwrap();
    let last = frame.len() - 1;
    frame[last] = 0x00;
    assert_eq!(decode_cmd_buf(&frame), Err(Ez430Error::FrameError));
}

#[test]
fn decoder_rejects_bad_structure() {
    // Unknown opcode, with a correct checksum so the failure is the
    // structure, not the checksum.
    let mut body = vec![0x02u8, 0x01];
    let crc = crc16(&body);
    body.extend_from_slice(&crc.to_le_bytes());
    assert_eq!(decode_cmd_buf(&frame_of(&body)), Err(Ez430Error::FrameError));
    // Args-type tag out of range.
    let mut body = vec![0x01u8, 0x05];
    let crc = crc16(&body);
    body.extend_from_slice(&crc.to_le_bytes());
    assert_eq!(decode_cmd_buf(&frame_of(&body)), Err(Ez430Error::FrameError));
    // Tag says "no arguments" but bytes trail the header.
    let mut body = vec![0x01u8, 0x01, 0x42];
    let crc = crc16(&body);
    body.extend_from_slice(&crc.to_le_bytes());
    assert_eq!(decode_cmd_buf(&frame_of(&body)), Err(Ez430Error::FrameError));
    // Tag says "parameters" but the count promises more than is there.
    let mut body = vec![0x01u8, 0x02, 0x02, 0x00, 0xAA, 0xBB, 0xCC, 0xDD];
    let crc = crc16(&body);
    body.extend_from_slice(&crc.to_le_bytes());
    assert_eq!(decode_cmd_buf(&frame_of(&body)), Err(Ez430Error::FrameError));
}

#[test]
fn overflow_is_rejected_not_truncated() {
    // 59 extra bytes push the unescaped frame to 67 bytes, past the
    // 64-byte scratch.
    let extra = vec![0u8; 59];
    assert_eq!(
        mk_cmd_buf(Cmd::Init, None, Some(&extra)),
        Err(Ez430Error::BufferOverflow)
    );
    // 15 parameters need 66 unescaped bytes.
    let params = vec![0u32; 15];
    assert_eq!(
        mk_cmd_buf(Cmd::Init, Some(&params), None),
        Err(Ez430Error::BufferOverflow)
    );
}

#[test]
fn overflow_boundary_is_exact() {
    // 52 extra bytes give a 60-byte unescaped frame; even if both
    // checksum bytes need escaping, the stuffed frame stays within the
    // 65-byte escaped scratch: accepted.
    let extra = vec![0u8; 52];
    let frame = mk_cmd_buf(Cmd::Init, None, Some(&extra)).unwrap();
    let (_, _, dextra) = decode_cmd_buf(&frame).unwrap();
    assert_eq!(dextra.unwrap(), extra);
    // 57 extra bytes give a 65-byte unescaped frame, past the 64-byte
    // scratch: rejected.
    let extra = vec![0u8; 57];
    assert_eq!(
        mk_cmd_buf(Cmd::Init, None, Some(&extra)),
        Err(Ez430Error::BufferOverflow)
    );
}

#[test]
fn escaped_scratch_overflow_fails_cleanly() {
    // 40 extra bytes of 0x7E fit the unescaped scratch (48 bytes) but
    // escape to far more than the 65-byte escaped scratch allows.
    let extra = vec![0x7Eu8; 40];
    assert_eq!(
        mk_cmd_buf(Cmd::Init, None, Some(&extra)),
        Err(Ez430Error::BufferOverflow)
    );
}

#[test]
fn opcode_round_trip() {
    assert_eq!(Cmd::Init.opcode(), 0x01);
    assert_eq!(Cmd::from_opcode(0x01), Some(Cmd::Init));
    assert_eq!(Cmd::from_opcode(0x00), None);
    assert_eq!(Cmd::from_opcode(0xFF), None);
}
