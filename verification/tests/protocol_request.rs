use nowhere::protocol::request::{
    decode_request_frame, decode_request_head, decode_request_tail, validate_padding,
    write_request_frame, EffectiveProtocolSpec, FramePart, FrameLayout, RequestError,
    TcpFrameElement, PROXY_FRAME_VERSION,
};
use nowhere::protocol::util::TargetError;

const EDGE_A_PADDING: &str = "1e7800dfe8345ac8f3c1897d243ec10cea6218a101531221c227da14f0242f079004bf8575f00e6a2ff9c48a932410fe4346";
const AUTO_PADDING: &str = "1526b9b947228779cfc539fe4681bcb5d1e20efa2bcb9f89eda5b473625c3c6b7fb12499fd33edfefb1934c9ae0bfc0e849f4c94814f4f2f9ae782e8";

fn unhex(s: &str) -> Vec<u8> {
    (0..s.len())
        .step_by(2)
        .map(|i| u8::from_str_radix(&s[i..i + 2], 16).unwrap())
        .collect()
}

fn hex(data: &[u8]) -> String {
    const HEX: &[u8; 16] = b"0123456789abcdef";
    let mut out = String::with_capacity(data.len() * 2);
    for byte in data {
        out.push(HEX[(byte >> 4) as usize] as char);
        out.push(HEX[(byte & 0x0f) as usize] as char);
    }
    out
}

/// The layout, padding length and padding that the seeds `edge-a` and `auto`
/// derive for the target `example.com:443`.
fn protocol_spec(spec: &str) -> (EffectiveProtocolSpec, Vec<u8>) {
    match spec {
        "edge-a" => (
            EffectiveProtocolSpec {
                frame_layout: FrameLayout {
                    tcp: [
                        TcpFrameElement::Padding,
                        TcpFrameElement::Version,
                        TcpFrameElement::Target,
                    ],
                },
                tcp_padding_len: 50,
            },
            unhex(EDGE_A_PADDING),
        ),
        "auto" => (
            EffectiveProtocolSpec {
                frame_layout: FrameLayout {
                    tcp: [
                        TcpFrameElement::Target,
                        TcpFrameElement::Version,
                        TcpFrameElement::Padding,
                    ],
                },
                tcp_padding_len: 60,
            },
            unhex(AUTO_PADDING),
        ),
        _ => unreachable!(),
    }
}

/// Reads a whole request frame as a reader would: decode up to the target
/// and padding, check the padding against the derived padding, then decode
/// the rest.
fn read_request(frame: &[u8], spec: &EffectiveProtocolSpec, padding: &[u8]) -> Result<String, RequestError> {
    let head = decode_request_head(frame, spec)?;
    if let Some(received) = &head.padding {
        validate_padding(padding, received)?;
    }
    let decoded = decode_request_tail(frame, spec, head)?;
    Ok(decoded.target)
}

fn field_offset(frame: &[u8], spec: &EffectiveProtocolSpec, target_element: TcpFrameElement) -> usize {
    let mut offset = 0;
    for element in spec.frame_layout.tcp {
        if element == target_element {
            return offset;
        }
        offset += match element {
            TcpFrameElement::Version => 1,
            TcpFrameElement::Target => {
                let len = u16::from_be_bytes(frame[offset..offset + 2].try_into().unwrap()) as usize;
                2 + len
            }
            TcpFrameElement::Padding => 1 + frame[offset] as usize,
        };
    }
    unreachable!("field must exist in TCP frame layout")
}

#[test]
fn writes_versioned_target_in_derived_order() {
    let (spec, padding) = protocol_spec("edge-a");
    let frame = write_request_frame("example.com:443", &spec, &padding).unwrap();
    assert_eq!(
        frame.len(),
        1 + 2 + "example.com:443".len() + 1 + spec.tcp_padding_len as usize
    );

    let decoded = decode_request_frame(&frame, &spec).unwrap();
    let version_at = field_offset(&frame, &spec, TcpFrameElement::Version);
    assert_eq!(frame[version_at], PROXY_FRAME_VERSION);
    assert_eq!(decoded.target, "example.com:443");
    assert_eq!(decoded.padding, padding);
}

#[test]
fn tcp_request_fixed_vectors() {
    let cases = [
        (
            "auto",
            "000f6578616d706c652e636f6d3a343433013c1526b9b947228779cfc539fe4681bcb5d1e20efa2bcb9f89eda5b473625c3c6b7fb12499fd33edfefb1934c9ae0bfc0e849f4c94814f4f2f9ae782e8",
        ),
        (
            "edge-a",
            "321e7800dfe8345ac8f3c1897d243ec10cea6218a101531221c227da14f0242f079004bf8575f00e6a2ff9c48a932410fe434601000f6578616d706c652e636f6d3a343433",
        ),
    ];

    for (spec_name, expected_hex) in cases {
        let (spec, padding) = protocol_spec(spec_name);
        let frame = write_request_frame("example.com:443", &spec, &padding).unwrap();

        assert_eq!(hex(&frame), expected_hex);
    }
}

#[test]
fn reads_request_frame() {
    let (spec, padding) = protocol_spec("edge-a");
    let frame = write_request_frame("example.com:443", &spec, &padding).unwrap();

    assert_eq!(read_request(&frame, &spec, &padding).unwrap(), "example.com:443");
}

#[test]
fn rejects_invalid_request_targets() {
    let (spec, padding) = protocol_spec("edge-a");
    let mut frame = Vec::new();
    for element in spec.frame_layout.tcp {
        match element {
            TcpFrameElement::Version => frame.push(PROXY_FRAME_VERSION),
            TcpFrameElement::Target => {
                frame.extend_from_slice(&12u16.to_be_bytes());
                frame.extend_from_slice(b"example.com:");
            }
            TcpFrameElement::Padding => {
                frame.push(spec.tcp_padding_len);
                frame.extend_from_slice(&padding);
            }
        }
    }

    assert!(read_request(&frame, &spec, &padding).is_err());
    assert!(matches!(
        decode_request_frame(&frame, &spec),
        Err(RequestError::InvalidTarget(TargetError::EmptyPort))
    ));
}

#[test]
fn rejects_invalid_version() {
    let (spec, padding) = protocol_spec("edge-a");
    let mut frame = write_request_frame("example.com:443", &spec, &padding).unwrap();
    let offset = field_offset(&frame, &spec, TcpFrameElement::Version);
    frame[offset] = PROXY_FRAME_VERSION + 1;

    assert!(read_request(&frame, &spec, &padding).is_err());
    assert!(matches!(
        decode_request_frame(&frame, &spec),
        Err(RequestError::UnsupportedVersion(2))
    ));
}

#[test]
fn rejects_invalid_padding_length_and_bytes() {
    let (spec, padding) = protocol_spec("edge-a");
    let mut bad_len = write_request_frame("example.com:443", &spec, &padding).unwrap();
    let padding_offset = field_offset(&bad_len, &spec, TcpFrameElement::Padding);
    bad_len[padding_offset] = bad_len[padding_offset].wrapping_add(1);
    assert!(read_request(&bad_len, &spec, &padding).is_err());
    assert!(matches!(
        decode_request_frame(&bad_len, &spec),
        Err(RequestError::InvalidPaddingLength { expected: 50, got: 51 })
    ));

    if spec.tcp_padding_len > 0 {
        let mut bad_padding = write_request_frame("example.com:443", &spec, &padding).unwrap();
        bad_padding[padding_offset + 1] ^= 1;
        assert!(read_request(&bad_padding, &spec, &padding).is_err());
        assert!(matches!(
            read_request(&bad_padding, &spec, &padding),
            Err(RequestError::InvalidPadding)
        ));
    }
}

#[test]
fn decoding_a_written_frame_gives_it_back_with_trailing_bytes() {
    for name in ["auto", "edge-a"] {
        let (spec, padding) = protocol_spec(name);
        let mut frame = write_request_frame("[::1]:8080", &spec, &padding).unwrap();
        let len = frame.len();
        frame.extend_from_slice(b"relay payload");
        let decoded = decode_request_frame(&frame, &spec).unwrap();
        assert_eq!(decoded.target, "[::1]:8080");
        assert_eq!(decoded.padding, padding);
        assert_eq!(decoded.frame_len, len);
    }
}

#[test]
fn truncated_frames_ask_for_exactly_the_missing_bytes() {
    let (spec, padding) = protocol_spec("auto");
    let frame = write_request_frame("example.com:443", &spec, &padding).unwrap();
    // Reading as a stream would: fetch what the decoder asks for.
    let mut got: Vec<u8> = Vec::new();
    let mut reads = Vec::new();
    let decoded = loop {
        match decode_request_frame(&got, &spec) {
            Err(RequestError::Truncated { needed, .. }) => {
                reads.push(needed);
                got.extend_from_slice(&frame[got.len()..got.len() + needed]);
            }
            other => break other.unwrap(),
        }
    };
    assert_eq!(decoded.target, "example.com:443");
    assert_eq!(reads, vec![2, 15, 1, 1, 60]);
    assert_eq!(got, frame);
}

#[test]
fn writer_refuses_bad_targets() {
    let (spec, padding) = protocol_spec("auto");
    assert!(matches!(
        write_request_frame("", &spec, &padding),
        Err(RequestError::InvalidTargetLength(0))
    ));
    let long = format!("{}:1", "a".repeat(511));
    assert!(matches!(
        write_request_frame(&long, &spec, &padding),
        Err(RequestError::InvalidTargetLength(513))
    ));
    assert!(matches!(
        write_request_frame("::1:443", &spec, &padding),
        Err(RequestError::InvalidTarget(TargetError::TooManyColons))
    ));
}

#[test]
fn decoder_refuses_bad_lengths_and_utf8() {
    let spec = EffectiveProtocolSpec {
        frame_layout: FrameLayout {
            tcp: [TcpFrameElement::Version, TcpFrameElement::Target, TcpFrameElement::Padding],
        },
        tcp_padding_len: 0,
    };
    assert!(matches!(
        decode_request_frame(&[1, 0, 0], &spec),
        Err(RequestError::InvalidTargetLength(0))
    ));
    assert!(matches!(
        decode_request_frame(&[1, 2, 1], &spec),
        Err(RequestError::InvalidTargetLength(513))
    ));
    assert!(matches!(
        decode_request_frame(&[1, 0, 3, b'a', b':', 0xff, 0], &spec),
        Err(RequestError::TargetNotUtf8)
    ));
    let ok = decode_request_frame(&[1, 0, 3, b'a', b':', b'1', 0], &spec).unwrap();
    assert_eq!(ok.target, "a:1");
    assert!(ok.padding.is_empty());
    assert_eq!(ok.frame_len, 7);
}

#[test]
fn layouts_without_target_or_padding_are_refused() {
    let no_target = EffectiveProtocolSpec {
        frame_layout: FrameLayout {
            tcp: [TcpFrameElement::Version, TcpFrameElement::Version, TcpFrameElement::Padding],
        },
        tcp_padding_len: 0,
    };
    assert!(matches!(
        decode_request_frame(&[1, 1, 0], &no_target),
        Err(RequestError::MissingTarget)
    ));
    let no_padding = EffectiveProtocolSpec {
        frame_layout: FrameLayout {
            tcp: [TcpFrameElement::Version, TcpFrameElement::Target, TcpFrameElement::Version],
        },
        tcp_padding_len: 0,
    };
    assert!(matches!(
        decode_request_frame(&[1, 0, 3, b'a', b':', b'1', 1], &no_padding),
        Err(RequestError::MissingPadding)
    ));
}

#[test]
fn truncated_written_frames_are_never_accepted() {
    for name in ["auto", "edge-a"] {
        let (spec, padding) = protocol_spec(name);
        let frame = write_request_frame("example.com:443", &spec, &padding).unwrap();
        for k in 0..frame.len() {
            assert!(matches!(
                decode_request_frame(&frame[..k], &spec),
                Err(RequestError::Truncated { .. })
            ));
        }
    }
    // The 68-byte prefix of the edge-a vector.
    let (spec, padding) = protocol_spec("edge-a");
    let frame = write_request_frame("example.com:443", &spec, &padding).unwrap();
    assert_eq!(frame.len(), 69);
    assert!(matches!(
        decode_request_frame(&frame[..68], &spec),
        Err(RequestError::Truncated { needed: 1, .. })
    ));
}

#[test]
fn padding_is_checked_before_the_fields_after_it() {
    let spec = EffectiveProtocolSpec {
        frame_layout: FrameLayout {
            tcp: [TcpFrameElement::Target, TcpFrameElement::Padding, TcpFrameElement::Version],
        },
        tcp_padding_len: 2,
    };
    // Target and wrong padding, and no version byte yet.
    let frame = [0, 3, b'a', b':', b'1', 2, 9, 9];
    let head = decode_request_head(&frame, &spec).unwrap();
    assert_eq!(head.fields, 2);
    assert_eq!(head.pos, frame.len());
    assert_eq!(head.target.as_deref(), Some("a:1"));
    assert!(matches!(read_request(&frame, &spec, &[7, 7]), Err(RequestError::InvalidPadding)));
    // With the right padding, the missing version is what is asked for next.
    let good = [0, 3, b'a', b':', b'1', 2, 7, 7];
    assert!(matches!(
        read_request(&good, &spec, &[7, 7]),
        Err(RequestError::Truncated { part: FramePart::Version, needed: 1 })
    ));
    let mut whole = good.to_vec();
    whole.push(PROXY_FRAME_VERSION);
    assert_eq!(read_request(&whole, &spec, &[7, 7]).unwrap(), "a:1");
}

#[test]
fn request_errors_read_as_the_reader_and_writer_word_them() {
    let ctx = "protocol::request::read_request";
    assert_eq!(
        RequestError::UnsupportedVersion(2).message(ctx),
        "protocol::request::read_request: unsupported frame version: 2"
    );
    assert_eq!(
        RequestError::InvalidTargetLength(0).message("protocol::request::write_request_frame"),
        "protocol::request::write_request_frame: invalid target length: 0"
    );
    assert_eq!(
        RequestError::InvalidPaddingLength { expected: 50, got: 51 }.message(ctx),
        "protocol::request::read_request: invalid padding length: expected 50, got 51"
    );
    assert_eq!(
        RequestError::InvalidTarget(nowhere::protocol::util::TargetError::EmptyPort).message(ctx),
        "protocol::request::read_request: protocol::util::validate_target: invalid target address: empty port"
    );
    assert_eq!(
        RequestError::TargetNotUtf8.message(ctx),
        "protocol::request::read_request: target address is not valid UTF-8"
    );
    assert_eq!(RequestError::InvalidPadding.message(ctx), "protocol::request::read_request: invalid padding");
    assert_eq!(RequestError::MissingTarget.message(ctx), "protocol::request::read_request: missing target");
    assert_eq!(RequestError::MissingPadding.message(ctx), "protocol::request::read_request: missing padding");
    assert_eq!(
        RequestError::Truncated { part: FramePart::TargetLength, needed: 2 }.message(ctx),
        "protocol::request::read_request: failed to read target length"
    );
}
