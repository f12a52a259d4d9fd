//! The wire codec: JSON and frame round trips, and the decoder's behavior
//! on short, padded and corrupt buffers.

use code_furnace::frame::{decode_frame, encode_frame, FrameRead};
use code_furnace::json::{encode, json_as_u64, json_u64, parse, u64_string, JsonValue};

fn bytes_of(s: &str) -> Vec<u8> {
    s.as_bytes().to_vec()
}

fn sample_value() -> JsonValue {
    let inner = JsonValue::Obj(vec![
        ("label".to_string(), JsonValue::Str("say \"hi\"\\now".to_string())),
        ("count".to_string(), json_u64(42)),
        ("flag".to_string(), JsonValue::Bool(true)),
        ("nothing".to_string(), JsonValue::Null),
    ]);
    JsonValue::Obj(vec![
        ("jsonrpc".to_string(), JsonValue::Str("2.0".to_string())),
        ("id".to_string(), json_u64(7)),
        (
            "items".to_string(),
            JsonValue::Arr(vec![inner, JsonValue::Str("plain".to_string()), json_u64(0)]),
        ),
    ])
}

#[test]
fn json_round_trip_nested() {
    let v = sample_value();
    let bytes = encode(&v);
    let back = parse(&bytes).expect("canonical bytes must parse");
    assert_eq!(back, v);
}

#[test]
fn json_round_trip_control_chars() {
    let v = JsonValue::Str("line one\nline two\ttabbed\u{1}end".to_string());
    let bytes = encode(&v);
    let back = parse(&bytes).expect("escaped control bytes must parse");
    assert_eq!(back, v);
}

#[test]
fn json_round_trip_non_ascii() {
    let v = JsonValue::Str("grüße 世界".to_string());
    let bytes = encode(&v);
    let back = parse(&bytes).expect("raw utf-8 content must parse");
    assert_eq!(back, v);
}

#[test]
fn json_parse_exact_shapes() {
    assert_eq!(parse(&bytes_of("null")), Some(JsonValue::Null));
    assert_eq!(parse(&bytes_of("true")), Some(JsonValue::Bool(true)));
    assert_eq!(parse(&bytes_of("false")), Some(JsonValue::Bool(false)));
    assert_eq!(parse(&bytes_of("[]")), Some(JsonValue::Arr(vec![])));
    assert_eq!(parse(&bytes_of("{}")), Some(JsonValue::Obj(vec![])));
    assert_eq!(
        parse(&bytes_of("[1,2]")),
        Some(JsonValue::Arr(vec![
            JsonValue::Num("1".to_string()),
            JsonValue::Num("2".to_string())
        ]))
    );
    assert_eq!(parse(&bytes_of("tru")), None);
    assert_eq!(parse(&bytes_of("{\"a\":1")), None);
    assert_eq!(parse(&bytes_of("[1,]")), None);
    assert_eq!(parse(&bytes_of("12 7")), None);
}

#[test]
fn json_parse_accepts_insignificant_whitespace() {
    // the spacing python's json module emits by default
    let spaced = parse(&bytes_of("{\"a\": 1, \"b\": [true, null]}")).expect("spaced json parses");
    let compact = parse(&bytes_of("{\"a\":1,\"b\":[true,null]}")).expect("compact json parses");
    assert_eq!(spaced, compact);
    // whitespace in every legal spot, including around the document
    let airy = parse(&bytes_of(" \r\n\t{ \"k\" : [ 1 , { } , [ ] ] } \n")).expect("airy json parses");
    assert_eq!(airy, parse(&bytes_of("{\"k\":[1,{},[]]}")).unwrap());
    assert_eq!(parse(&bytes_of("12 ")), parse(&bytes_of("12")));
    // whitespace does not reach inside tokens
    assert_eq!(parse(&bytes_of("tr ue")), None);
}

#[test]
fn json_parse_accepts_unicode_escapes() {
    // the escaping python's json module emits by default (ensure_ascii)
    assert_eq!(
        parse(&bytes_of("\"caf\\u00e9\"")),
        Some(JsonValue::Str("café".to_string()))
    );
    assert_eq!(
        parse(&bytes_of("\"\\u4e16\\u754c\"")),
        Some(JsonValue::Str("世界".to_string()))
    );
    // a surrogate pair combines into one supplementary character
    assert_eq!(
        parse(&bytes_of("\"\\ud83d\\ude00\"")),
        Some(JsonValue::Str("\u{1f600}".to_string()))
    );
    // lone or misordered surrogates are rejected
    assert_eq!(parse(&bytes_of("\"\\ud83d\"")), None);
    assert_eq!(parse(&bytes_of("\"\\ude00\"")), None);
    assert_eq!(parse(&bytes_of("\"\\ud83d\\ud83d\"")), None);
}

#[test]
fn json_string_escapes_decode() {
    let parsed = parse(&bytes_of("\"a\\u0041\\n\\t\\\\\\\"\\/\"")).expect("escapes parse");
    assert_eq!(parsed, JsonValue::Str("aA\n\t\\\"/".to_string()));
}

#[test]
fn number_lexemes_survive() {
    let parsed = parse(&bytes_of("[1.5,2e10,-3]")).expect("number lexemes parse");
    assert_eq!(
        parsed,
        JsonValue::Arr(vec![
            JsonValue::Num("1.5".to_string()),
            JsonValue::Num("2e10".to_string()),
            JsonValue::Num("-3".to_string()),
        ])
    );
}

#[test]
fn u64_spellings() {
    assert_eq!(u64_string(0), "0");
    assert_eq!(u64_string(907), "907");
    assert_eq!(u64_string(u64::MAX), "18446744073709551615");
    assert_eq!(json_as_u64(&json_u64(907)), Some(907));
    assert_eq!(json_as_u64(&JsonValue::Num("18446744073709551616".to_string())), None);
    assert_eq!(json_as_u64(&JsonValue::Num("1.5".to_string())), None);
    assert_eq!(json_as_u64(&JsonValue::Str("12".to_string())), None);
}

#[test]
fn frame_round_trip() {
    let v = sample_value();
    let frame = encode_frame(&v);
    match decode_frame(&frame, 0) {
        FrameRead::Msg(back, next) => {
            assert_eq!(back, v);
            assert_eq!(next, frame.len());
        },
        _ => panic!("a canonical frame must decode to its message"),
    }
}

#[test]
fn frame_header_shape() {
    let frame = encode_frame(&JsonValue::Null);
    assert_eq!(frame, bytes_of("Content-Length: 4\r\n\r\nnull"));
}

#[test]
fn frame_decode_needs_more_on_short_buffer() {
    let frame = encode_frame(&sample_value());
    for cut in [0, 5, 17, frame.len() - 1] {
        let partial = frame[..cut].to_vec();
        match decode_frame(&partial, 0) {
            FrameRead::NeedMore => {},
            _ => panic!("a truncated frame must ask for more bytes"),
        }
    }
}

#[test]
fn frame_decode_skips_extra_headers() {
    let buf = bytes_of("Content-Length: 4\r\nContent-Type: application/json\r\n\r\ntrue");
    match decode_frame(&buf, 0) {
        FrameRead::Msg(v, next) => {
            assert_eq!(v, JsonValue::Bool(true));
            assert_eq!(next, buf.len());
        },
        _ => panic!("extra header lines are consumed"),
    }
}

#[test]
fn frame_decode_rejects_garbage() {
    match decode_frame(&bytes_of("Content-Size: 4\r\n\r\ntrue"), 0) {
        FrameRead::Corrupt => {},
        _ => panic!("a wrong header name is corrupt"),
    }
    match decode_frame(&bytes_of("Content-Length: x\r\n\r\ntrue"), 0) {
        FrameRead::Corrupt => {},
        _ => panic!("a non-numeric length is corrupt"),
    }
    match decode_frame(&bytes_of("Content-Length: 4\r\n\r\ntrub"), 0) {
        FrameRead::Corrupt => {},
        _ => panic!("a body that is not one document is corrupt"),
    }
}

#[test]
fn frame_length_counts_bytes_not_characters() {
    let v = JsonValue::Str("héllo".to_string());
    let frame = encode_frame(&v);
    // the header announces the byte length of the body, 8 here: two quotes,
    // four ascii letters and the two-byte character, with nothing escaped
    assert!(frame.starts_with(b"Content-Length: 8\r\n\r\n"));
    match decode_frame(&frame, 0) {
        FrameRead::Msg(back, next) => {
            assert_eq!(back, v);
            assert_eq!(next, frame.len());
        },
        _ => panic!("a frame with non-ascii content decodes"),
    }
}

#[test]
fn frame_decode_consecutive_frames() {
    let mut buf = encode_frame(&JsonValue::Bool(true));
    let second = encode_frame(&json_u64(3));
    buf.extend_from_slice(&second);
    let (first_len, v1) = match decode_frame(&buf, 0) {
        FrameRead::Msg(v, next) => (next, v),
        _ => panic!("first frame decodes"),
    };
    assert_eq!(v1, JsonValue::Bool(true));
    match decode_frame(&buf, first_len) {
        FrameRead::Msg(v, next) => {
            assert_eq!(v, json_u64(3));
            assert_eq!(next, buf.len());
        },
        _ => panic!("second frame decodes from the recorded offset"),
    }
}
