use ants::multicast::message::{MulticastMessage, Timestamp};
use prost::bytes::Buf;
use prost::encoding::{decode_key, DecodeContext};
use rand::Rng;

type Fields = (String, i32, Option<Timestamp>, String, u32, u64);

/// Reads the message the way prost's generated `merge` does, field by field.
fn prost_decode(mut buf: &[u8]) -> Result<Fields, prost::DecodeError> {
    let ctx = DecodeContext::default();
    let mut uuid = String::new();
    let mut kind = 0i32;
    let mut ts: Option<prost_types::Timestamp> = None;
    let mut body = String::new();
    let mut ttl = 0u32;
    let mut checksum = 0u64;
    while buf.has_remaining() {
        let (tag, wire_type) = decode_key(&mut buf)?;
        match tag {
            1 => prost::encoding::string::merge(wire_type, &mut uuid, &mut buf, ctx.clone())?,
            2 => prost::encoding::int32::merge(wire_type, &mut kind, &mut buf, ctx.clone())?,
            3 => prost::encoding::message::merge(
                wire_type,
                ts.get_or_insert_with(Default::default),
                &mut buf,
                ctx.clone(),
            )?,
            4 => prost::encoding::string::merge(wire_type, &mut body, &mut buf, ctx.clone())?,
            5 => prost::encoding::uint32::merge(wire_type, &mut ttl, &mut buf, ctx.clone())?,
            6 => prost::encoding::uint64::merge(wire_type, &mut checksum, &mut buf, ctx.clone())?,
            _ => prost::encoding::skip_field(wire_type, tag, &mut buf, ctx.clone())?,
        }
    }
    Ok((uuid, kind, ts.map(|t| Timestamp { seconds: t.seconds, nanos: t.nanos }), body, ttl, checksum))
}

fn fields_of(m: &MulticastMessage) -> Fields {
    (m.uuid.clone(), m.kind, m.timestamp, m.body.clone(), m.ttl, m.checksum)
}

fn agree(bytes: &[u8]) {
    let ours = MulticastMessage::from_bytes(bytes).map(|m| fields_of(&m));
    let theirs = prost_decode(bytes);
    match (ours, theirs) {
        (Ok(a), Ok(b)) => assert_eq!(a, b, "bytes {:?}", bytes),
        (Err(_), Err(_)) => {},
        (a, b) => panic!("disagreement on {:?}: {:?} against {:?}", bytes, a.map(|_| ()), b.map(|_| ())),
    }
}

/// A byte that is often a key or a small length, to reach deep into the format.
fn interesting_byte(rng: &mut impl Rng) -> u8 {
    match rng.gen_range(0..10) {
        0 => rng.gen_range(0x08..0x38),
        1 => (rng.gen_range(1..16u8) << 3) | rng.gen_range(0..8u8),
        2 => rng.gen_range(0..4),
        3 => 0x80 | rng.gen_range(0..0x80),
        4 => 0xff,
        5 => 0x1a,
        6 => 0x4b,
        7 => 0x4c,
        _ => rng.gen(),
    }
}

#[test]
fn random_bytes_read_as_prost_reads_them() {
    let mut rng = rand::thread_rng();
    for _ in 0..50_000 {
        let len = rng.gen_range(0..24);
        let bytes: Vec<u8> = (0..len).map(|_| interesting_byte(&mut rng)).collect();
        agree(&bytes);
    }
}

#[test]
fn written_messages_with_noise_read_as_prost_reads_them() {
    let mut rng = rand::thread_rng();
    for _ in 0..5_000 {
        let m = MulticastMessage::new(
            rng.gen(),
            ants::multicast::message::Kind::Origin,
            "body".repeat(rng.gen_range(0..3)),
            Some(rng.gen_range(0..3)),
            Timestamp { seconds: rng.gen(), nanos: rng.gen() },
        );
        let mut bytes = m.to_bytes();
        agree(&bytes);
        // Change one byte, cut or extend.
        match rng.gen_range(0..3) {
            0 => {
                let i = rng.gen_range(0..bytes.len());
                bytes[i] = interesting_byte(&mut rng);
            },
            1 => {
                let n = rng.gen_range(0..bytes.len());
                bytes.truncate(n);
            },
            _ => {
                for _ in 0..rng.gen_range(1..6) {
                    bytes.push(interesting_byte(&mut rng));
                }
            },
        }
        agree(&bytes);
    }
}

#[test]
fn groups_are_skipped_as_prost_skips_them() {
    // An unknown group 9 holding a varint field, then the body.
    let mut bytes = vec![0x4b, 0x08, 0x05, 0x4c];
    prost::encoding::string::encode(4, &"after".to_owned(), &mut bytes);
    agree(&bytes);
    assert_eq!(MulticastMessage::from_bytes(&bytes).unwrap().body, "after");
    // A group closed with another number.
    agree(&[0x4b, 0x44]);
    assert!(MulticastMessage::from_bytes(&[0x4b, 0x44]).is_err());
    // An end of group out of place.
    agree(&[0x4c]);
    // A group that is never closed.
    agree(&[0x4b, 0x08, 0x05]);
}

#[test]
fn nesting_stops_where_prost_stops() {
    for depth in [1usize, 2, 50, 99, 100, 101, 150] {
        let mut bytes = Vec::new();
        for _ in 0..depth {
            bytes.push(0x4b);
        }
        for _ in 0..depth {
            bytes.push(0x4c);
        }
        agree(&bytes);
        let mut with_field = Vec::new();
        for _ in 0..depth {
            with_field.push(0x4b);
        }
        with_field.extend([0x08, 0x01]);
        for _ in 0..depth {
            with_field.push(0x4c);
        }
        agree(&with_field);
    }
}
