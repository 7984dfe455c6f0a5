use relay_paging::cursor::{decode, encode, format_key, parse_key, NodeKind};
use relay_paging::error::ClientInputError;

#[test]
fn encode_actor_key() {
    assert_eq!(encode(NodeKind::Actor, 42), "Actor:42");
}

#[test]
fn encode_post_key() {
    assert_eq!(encode(NodeKind::Post, 7), "Post:7");
}

#[test]
fn encode_extreme_keys() {
    assert_eq!(encode(NodeKind::Actor, 0), "Actor:0");
    assert_eq!(encode(NodeKind::Actor, -1), "Actor:-1");
    assert_eq!(encode(NodeKind::Actor, i32::MAX), "Actor:2147483647");
    assert_eq!(encode(NodeKind::Actor, i32::MIN), "Actor:-2147483648");
    assert_eq!(encode(NodeKind::Post, 1000), "Post:1000");
}

#[test]
fn decode_actor_cursor() {
    assert_eq!(decode(NodeKind::Actor, "Actor:42"), Ok(Some(42)));
}

#[test]
fn decode_post_cursor() {
    assert_eq!(decode(NodeKind::Post, "Post:15"), Ok(Some(15)));
}

#[test]
fn round_trip_of_many_keys() {
    let keys = [
        i32::MIN,
        i32::MIN + 1,
        -1_000_000_007,
        -10,
        -9,
        -1,
        0,
        1,
        9,
        10,
        11,
        99,
        100,
        101,
        12345,
        1_000_000_000,
        i32::MAX - 1,
        i32::MAX,
    ];
    for kind in [NodeKind::Actor, NodeKind::Post] {
        for key in keys {
            assert_eq!(decode(kind, &encode(kind, key)), Ok(Some(key)));
        }
    }
}

#[test]
fn round_trip_of_a_key_range() {
    for key in -1200..1200 {
        assert_eq!(decode(NodeKind::Post, &encode(NodeKind::Post, key)), Ok(Some(key)));
    }
}

#[test]
fn cursor_of_another_kind_is_absent() {
    assert_eq!(decode(NodeKind::Post, &encode(NodeKind::Actor, 5)), Ok(None));
    assert_eq!(decode(NodeKind::Actor, &encode(NodeKind::Post, 5)), Ok(None));
}

#[test]
fn cursor_without_the_tag_is_absent() {
    assert_eq!(decode(NodeKind::Actor, "Bogus:1"), Ok(None));
    assert_eq!(decode(NodeKind::Actor, ""), Ok(None));
    assert_eq!(decode(NodeKind::Actor, "Actor"), Ok(None));
    assert_eq!(decode(NodeKind::Actor, "actor:1"), Ok(None));
    assert_eq!(decode(NodeKind::Actor, " Actor:1"), Ok(None));
    assert_eq!(decode(NodeKind::Actor, "42"), Ok(None));
    assert_eq!(decode(NodeKind::Actor, "\u{24b6}ctor:1"), Ok(None));
    assert_eq!(decode(NodeKind::Post, "Pos:1"), Ok(None));
}

#[test]
fn tagged_cursor_without_a_key_is_malformed() {
    let malformed = Err(ClientInputError::MalformedCursor);
    assert_eq!(decode(NodeKind::Actor, "Actor:"), malformed);
    assert_eq!(decode(NodeKind::Actor, "Actor:x"), malformed);
    assert_eq!(decode(NodeKind::Actor, "Actor::5"), malformed);
    assert_eq!(decode(NodeKind::Actor, "Actor:Actor:5"), malformed);
    assert_eq!(decode(NodeKind::Actor, "Actor:5 "), malformed);
    assert_eq!(decode(NodeKind::Actor, "Actor: 5"), malformed);
    assert_eq!(decode(NodeKind::Actor, "Actor:-"), malformed);
    assert_eq!(decode(NodeKind::Actor, "Actor:+"), malformed);
    assert_eq!(decode(NodeKind::Actor, "Actor:1.5"), malformed);
    assert_eq!(decode(NodeKind::Actor, "Actor:\u{ff15}"), malformed);
    assert_eq!(decode(NodeKind::Post, "Post:12a"), malformed);
}

#[test]
fn tagged_cursor_out_of_range_is_malformed() {
    let malformed = Err(ClientInputError::MalformedCursor);
    assert_eq!(decode(NodeKind::Actor, "Actor:2147483648"), malformed);
    assert_eq!(decode(NodeKind::Actor, "Actor:-2147483649"), malformed);
    assert_eq!(decode(NodeKind::Actor, "Actor:99999999999999999999999999"), malformed);
    assert_eq!(decode(NodeKind::Actor, "Actor:2147483647"), Ok(Some(i32::MAX)));
    assert_eq!(decode(NodeKind::Actor, "Actor:-2147483648"), Ok(Some(i32::MIN)));
}

#[test]
fn signs_and_leading_zeros_are_read() {
    assert_eq!(decode(NodeKind::Actor, "Actor:+5"), Ok(Some(5)));
    assert_eq!(decode(NodeKind::Actor, "Actor:-5"), Ok(Some(-5)));
    assert_eq!(decode(NodeKind::Actor, "Actor:007"), Ok(Some(7)));
    assert_eq!(decode(NodeKind::Actor, "Actor:-0"), Ok(Some(0)));
    assert_eq!(decode(NodeKind::Actor, "Actor:0000000000000000000000042"), Ok(Some(42)));
}

#[test]
fn parse_key_reads_what_the_standard_parser_reads() {
    let texts = [
        "",
        "0",
        "7",
        "-7",
        "+7",
        "--7",
        "+-7",
        "-+7",
        "007",
        "-007",
        "+",
        "-",
        " 7",
        "7 ",
        "7a",
        "a7",
        "1_0",
        "0x10",
        "2147483647",
        "2147483648",
        "+2147483647",
        "+2147483648",
        "-2147483648",
        "-2147483649",
        "00000000002147483647",
        "00000000002147483648",
        "-00000000002147483648",
        "4294967296",
        "18446744073709551616",
        "340282366920938463463374607431768211456",
        "\u{0661}",
        "\u{ff11}",
        "1\u{0301}",
    ];
    for text in texts {
        assert_eq!(parse_key(text), text.parse::<i32>().ok(), "{text:?}");
    }
}

#[test]
fn format_key_writes_what_the_standard_formatter_writes() {
    let keys = [i32::MIN, -2147483647, -1000, -10, -1, 0, 1, 5, 10, 19, 20, 1000, i32::MAX];
    for key in keys {
        assert_eq!(format_key(key), key.to_string());
    }
    for key in -300..300 {
        assert_eq!(format_key(key), key.to_string());
    }
}

#[test]
fn format_then_parse_gives_the_key() {
    for key in [i32::MIN, -1, 0, 1, 42, i32::MAX] {
        assert_eq!(parse_key(&format_key(key)), Some(key));
    }
}

#[test]
fn tags_of_the_kinds() {
    assert_eq!(NodeKind::Actor.prefix(), "Actor:");
    assert_eq!(NodeKind::Post.prefix(), "Post:");
}

#[test]
fn messages_of_client_errors() {
    assert_eq!(ClientInputError::MalformedCursor.message(), "Cursor does not hold an integer key");
    assert_eq!(
        ClientInputError::BothDirections.message(),
        "Arguments `first` and `last` exclude each other"
    );
    assert_eq!(ClientInputError::NegativeCount.message(), "Pagination argument must be positive");
}
