//! The policy layers: structural decodes with defaults and policies,
//! round trips, map splicing, enum tag layouts, and the shadow type.

use destream::decode::Decode;
use destream::decoder::Decoder;
use destream::duration::Duration;
use destream::flatten::User;
use destream::message::{Message, Params, Value};
use destream::remote::{DurationDef, Process};
use destream::request::{Priority, Request, Timeout, UnknownPolicy};
use destream::token::{DecodeError, Token};

fn text(s: &str) -> Token {
    Token::Str(s.to_string())
}

#[test]
fn duration_round_trip_through_tokens() {
    let v = Duration::new(42, 123456789);
    let mut out = Vec::new();
    v.encode(&mut out);
    let mut d = Decoder::new(out);
    assert_eq!(Duration::decode(&mut d), Ok(v));
    assert!(d.at_eof());
}

#[test]
fn duration_map_accepts_either_field_order() {
    let mut d = Decoder::new(vec![
        Token::MapStart,
        text("nanos"),
        Token::Int(7),
        text("secs"),
        Token::Int(1),
        Token::MapEnd,
    ]);
    assert_eq!(Duration::decode(&mut d), Ok(Duration::new(1, 7)));
}

#[test]
fn duration_missing_field() {
    let mut d = Decoder::new(vec![Token::MapStart, text("secs"), Token::Int(1), Token::MapEnd]);
    assert_eq!(
        Duration::decode(&mut d),
        Err(DecodeError::MissingField { field: "nanos".to_string() })
    );
}

#[test]
fn duration_duplicate_field() {
    let mut d = Decoder::new(vec![
        Token::MapStart,
        text("secs"),
        Token::Int(1),
        text("secs"),
        Token::Int(2),
        Token::MapEnd,
    ]);
    assert_eq!(
        Duration::decode(&mut d),
        Err(DecodeError::DuplicateField { field: "secs".to_string() })
    );
}

#[test]
fn duration_unknown_field_is_rejected() {
    let mut d = Decoder::new(vec![
        Token::MapStart,
        text("weeks"),
        Token::Int(1),
        Token::MapEnd,
    ]);
    assert_eq!(
        Duration::decode(&mut d),
        Err(DecodeError::UnknownField { field: "weeks".to_string() })
    );
}

#[test]
fn duration_from_sequence_shape() {
    let mut d = Decoder::new(vec![
        Token::SeqStart,
        Token::Int(3),
        Token::Int(9),
        Token::SeqEnd,
    ]);
    assert_eq!(Duration::decode(&mut d), Ok(Duration::new(3, 9)));
}

#[test]
fn duration_sequence_empty_is_invalid_length_zero() {
    let mut d = Decoder::new(vec![Token::SeqStart, Token::SeqEnd]);
    assert_eq!(
        Duration::decode(&mut d),
        Err(DecodeError::InvalidLength { index: 0 })
    );
}

#[test]
fn duration_sequence_one_element_is_invalid_length_one() {
    let mut d = Decoder::new(vec![Token::SeqStart, Token::Int(3), Token::SeqEnd]);
    assert_eq!(
        Duration::decode(&mut d),
        Err(DecodeError::InvalidLength { index: 1 })
    );
}

#[test]
fn request_defaults_apply_when_absent() {
    let mut d = Decoder::new(vec![Token::MapStart, Token::MapEnd]);
    let q = Request::decode(&mut d).unwrap();
    assert_eq!(q.resource, "/");
    assert_eq!(q.timeout, Timeout(30));
    assert_eq!(q.priority, Priority::ExtraLow);
}

#[test]
fn request_partial_fields_keep_other_defaults() {
    let mut d = Decoder::new(vec![
        Token::MapStart,
        text("timeout"),
        Token::Int(5),
        text("priority"),
        text("High"),
        Token::MapEnd,
    ]);
    let q = Request::decode(&mut d).unwrap();
    assert_eq!(q.resource, "/");
    assert_eq!(q.timeout, Timeout(5));
    assert_eq!(q.priority, Priority::High);
}

#[test]
fn request_round_trip_through_tokens() {
    let q = Request {
        resource: "/users".to_string(),
        timeout: Timeout(9),
        priority: Priority::Normal,
    };
    let mut out = Vec::new();
    q.encode(&mut out);
    let mut d = Decoder::new(out);
    assert_eq!(Request::decode(&mut d), Ok(q));
}

#[test]
fn request_unknown_key_ignored_under_lenient_policy() {
    let mut d = Decoder::new(vec![
        Token::MapStart,
        text("color"),
        text("green"),
        text("resource"),
        text("/users"),
        Token::MapEnd,
    ]);
    let q = Request::decode_with(&mut d, UnknownPolicy::Ignore).unwrap();
    assert_eq!(q.resource, "/users");
    assert_eq!(q.timeout, Timeout(30));
}

#[test]
fn request_unknown_key_rejected_under_strict_policy() {
    let mut d = Decoder::new(vec![
        Token::MapStart,
        text("color"),
        text("green"),
        text("resource"),
        text("/users"),
        Token::MapEnd,
    ]);
    assert_eq!(
        Request::decode_with(&mut d, UnknownPolicy::Reject),
        Err(DecodeError::UnknownField { field: "color".to_string() })
    );
}

#[test]
fn request_unknown_priority_name_is_custom_error() {
    let mut d = Decoder::new(vec![
        Token::MapStart,
        text("priority"),
        text("Urgent"),
        Token::MapEnd,
    ]);
    assert!(matches!(
        Request::decode(&mut d),
        Err(DecodeError::Custom { .. })
    ));
}

fn user_tokens(order: [usize; 3]) -> Vec<Token> {
    let entries: [Vec<Token>; 3] = [
        vec![text("id"), text("x")],
        vec![text("username"), text("y")],
        vec![text("extra1"), text("z")],
    ];
    let mut ts = vec![Token::MapStart];
    for i in order {
        ts.extend(entries[i].iter().cloned());
    }
    ts.push(Token::MapEnd);
    ts
}

#[test]
fn flatten_catch_all_takes_unknown_key() {
    let mut d = Decoder::new(user_tokens([0, 1, 2]));
    let u = User::decode(&mut d).unwrap();
    assert_eq!(u.id, "x");
    assert_eq!(u.username, "y");
    assert_eq!(u.extra.len(), 1);
    assert_eq!(u.extra.items()[0].0, "extra1");
    assert_eq!(u.extra.items()[0].1, vec![text("z")]);
}

#[test]
fn flatten_result_does_not_depend_on_key_order() {
    let orders = [[0, 1, 2], [0, 2, 1], [1, 0, 2], [1, 2, 0], [2, 0, 1], [2, 1, 0]];
    for order in orders {
        let mut d = Decoder::new(user_tokens(order));
        let u = User::decode(&mut d).unwrap();
        assert_eq!(u.id, "x");
        assert_eq!(u.username, "y");
        assert_eq!(u.extra.len(), 1);
        assert_eq!(u.extra.items()[0].0, "extra1");
        assert_eq!(u.extra.items()[0].1, vec![text("z")]);
    }
}

#[test]
fn flatten_missing_declared_field() {
    let mut d = Decoder::new(vec![
        Token::MapStart,
        text("id"),
        text("x"),
        Token::MapEnd,
    ]);
    assert!(matches!(
        User::decode(&mut d),
        Err(DecodeError::MissingField { .. })
    ));
}

fn sample_request() -> Message {
    Message::Request {
        id: "a37cacc3".to_string(),
        method: "GET".to_string(),
        params: Params::new(),
    }
}

fn request_payload_tokens() -> Vec<Token> {
    vec![
        Token::MapStart,
        text("id"),
        text("a37cacc3"),
        text("method"),
        text("GET"),
        text("params"),
        Token::MapStart,
        text("field_1"),
        Token::Int(30),
        text("field_2"),
        Token::Bool(false),
        text("field_3"),
        Token::SeqStart,
        Token::Int(-4),
        Token::Int(-4),
        Token::Int(0),
        Token::Int(3),
        Token::SeqEnd,
        Token::MapEnd,
        Token::MapEnd,
    ]
}

#[test]
fn enum_layouts_decode_to_the_same_value() {
    let expected = sample_request();
    let payload = request_payload_tokens();

    let mut external = vec![Token::MapStart, text("Request")];
    external.extend(payload.iter().cloned());
    external.push(Token::MapEnd);
    let mut d = Decoder::new(external);
    assert_eq!(Message::decode_external(&mut d), Ok(expected.clone()));
    assert!(d.at_eof());

    let mut internal = vec![Token::MapStart, text("type"), text("Request")];
    internal.extend(payload.iter().skip(1).cloned());
    let mut d = Decoder::new(internal);
    assert_eq!(Message::decode_internal(&mut d), Ok(expected.clone()));
    assert!(d.at_eof());

    let mut adjacent = vec![Token::MapStart, text("t"), text("Request"), text("c")];
    adjacent.extend(payload.iter().cloned());
    adjacent.push(Token::MapEnd);
    let mut d = Decoder::new(adjacent);
    assert_eq!(Message::decode_adjacent(&mut d), Ok(expected.clone()));
    assert!(d.at_eof());

    let mut d = Decoder::new(payload);
    assert_eq!(Message::decode_untagged(&mut d), Ok(expected));
    assert!(d.at_eof());
}

#[test]
fn adjacent_accepts_content_before_tag() {
    let expected = sample_request();
    let mut adjacent = vec![Token::MapStart, text("c")];
    adjacent.extend(request_payload_tokens());
    adjacent.push(text("t"));
    adjacent.push(text("Request"));
    adjacent.push(Token::MapEnd);
    let mut d = Decoder::new(adjacent);
    assert_eq!(Message::decode_adjacent(&mut d), Ok(expected));
    assert!(d.at_eof());
}

#[test]
fn untagged_falls_through_to_response() {
    let tokens = vec![
        Token::MapStart,
        text("id"),
        text("r1"),
        text("result"),
        Token::MapStart,
        text("field_1"),
        Token::Bool(true),
        text("field_2"),
        text("done"),
        Token::MapEnd,
        Token::MapEnd,
    ];
    let mut d = Decoder::new(tokens);
    let expected = Message::Response {
        id: "r1".to_string(),
        result: Value { field_1: true, field_2: "done".to_string() },
    };
    assert_eq!(Message::decode_untagged(&mut d), Ok(expected));
    assert!(d.at_eof());
}

#[test]
fn untagged_unmatched_input_is_custom_error() {
    let mut d = Decoder::new(vec![Token::MapStart, Token::MapEnd]);
    assert!(matches!(
        Message::decode_untagged(&mut d),
        Err(DecodeError::Custom { .. })
    ));
}

#[test]
fn shadow_decodes_foreign_duration() {
    let mut d = Decoder::new(vec![
        Token::MapStart,
        text("secs"),
        Token::Int(42),
        text("nanos"),
        Token::Int(1321),
        Token::MapEnd,
    ]);
    let def = DurationDef::decode(&mut d).unwrap();
    assert_eq!(def, DurationDef { secs: 42, nanos: 1321 });

    let mut d = Decoder::new(vec![
        Token::MapStart,
        text("nanos"),
        Token::Int(1321),
        text("secs"),
        Token::Int(42),
        Token::MapEnd,
    ]);
    let w = DurationDef::decode_remote(&mut d).unwrap();
    assert_eq!(w.seconds(), 42);
    assert_eq!(w.subsec_nanos(), 1321);
}

#[test]
fn process_delegates_wall_time_to_shadow() {
    let mut d = Decoder::new(vec![
        Token::MapStart,
        text("command_line"),
        text("sleep 5"),
        text("wall_time"),
        Token::MapStart,
        text("secs"),
        Token::Int(5),
        text("nanos"),
        Token::Int(0),
        Token::MapEnd,
        Token::MapEnd,
    ]);
    let p = Process::decode(&mut d).unwrap();
    assert_eq!(p.command_line, "sleep 5");
    assert_eq!(p.wall_time.seconds(), 5);
    assert_eq!(p.wall_time.subsec_nanos(), 0);
}

#[test]
fn flatten_duplicate_extra_key_keeps_later_value() {
    let mut d = Decoder::new(vec![
        Token::MapStart,
        text("id"),
        text("x"),
        text("username"),
        text("y"),
        text("extra1"),
        text("first"),
        text("extra1"),
        text("second"),
        Token::MapEnd,
    ]);
    let u = User::decode(&mut d).unwrap();
    assert_eq!(u.extra.len(), 1);
    assert_eq!(u.extra.items()[0].0, "extra1");
    assert_eq!(u.extra.items()[0].1, vec![text("second")]);
}

#[test]
fn users_splices_pagination_out_of_the_parent_map() {
    let mut d = Decoder::new(vec![
        Token::MapStart,
        text("limit"),
        Token::Int(100),
        text("offset"),
        Token::Int(200),
        text("total"),
        Token::Int(1053),
        text("users"),
        Token::SeqStart,
        Token::MapStart,
        text("id"),
        text("49824073"),
        text("username"),
        text("john_doe"),
        text("mascot"),
        text("Ferris"),
        Token::MapEnd,
        Token::MapStart,
        text("id"),
        text("84820495"),
        text("username"),
        text("bruce_wayne"),
        Token::MapEnd,
        Token::SeqEnd,
        Token::MapEnd,
    ]);
    let page = destream::flatten::Users::decode(&mut d).unwrap();
    assert_eq!(
        page.pagination,
        destream::flatten::Pagination { limit: 100, offset: 200, total: 1053 }
    );
    assert_eq!(page.users.len(), 2);
    assert_eq!(page.users[0].username, "john_doe");
    assert_eq!(page.users[0].extra.items()[0].0, "mascot");
    assert_eq!(page.users[1].id, "84820495");
    assert_eq!(page.users[1].extra.len(), 0);
}

#[test]
fn users_missing_spliced_field() {
    let mut d = Decoder::new(vec![
        Token::MapStart,
        text("users"),
        Token::SeqStart,
        Token::SeqEnd,
        text("limit"),
        Token::Int(1),
        text("offset"),
        Token::Int(0),
        Token::MapEnd,
    ]);
    assert_eq!(
        destream::flatten::Users::decode(&mut d),
        Err(DecodeError::MissingField { field: "total".to_string() })
    );
}
