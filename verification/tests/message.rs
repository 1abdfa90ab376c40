use tokio_jsonrpc::json::{Json, JsonNumber, ParseFailure};
use tokio_jsonrpc::message::{
    Broken, Message, Notification, RPCError, Request, Response, Version, INTERNAL_ERROR,
    INVALID_PARAMS, INVALID_REQUEST, METHOD_NOT_FOUND, PARSE_ERROR,
};

fn text(s: &str) -> Json {
    Json::String(s.to_owned())
}

fn num(i: u64) -> Json {
    Json::Number(JsonNumber::PosInt(i))
}

fn object(members: Vec<(&str, Json)>) -> Json {
    Json::Object(members.into_iter().map(|(k, v)| (k.to_owned(), v)).collect())
}

fn request(method: &str, params: Option<Json>, id: Json) -> Request {
    Request { jsonrpc: Version, method: method.to_owned(), params, id }
}

#[test]
fn request_constructor_carries_the_null_id() {
    let made = Message::request("sum".to_owned(), Some(Json::Array(vec![num(1), num(2)])));
    assert_eq!(
        made,
        Message::Request(request("sum", Some(Json::Array(vec![num(1), num(2)])), Json::Null))
    );
}

#[test]
fn notification_constructor() {
    let made = Message::notification("tick".to_owned(), None);
    assert_eq!(
        made,
        Message::Notification(Notification {
            jsonrpc: Version,
            method: "tick".to_owned(),
            params: None
        })
    );
}

#[test]
fn error_constructor_answers_nobody_in_particular() {
    let made = Message::error(-32000, "busy".to_owned(), Some(num(3)));
    assert_eq!(
        made,
        Message::Response(Response {
            result: Err(RPCError { code: -32000, message: "busy".to_owned(), data: Some(num(3)) }),
            id: Json::Null,
        })
    );
}

#[test]
fn reserved_codes() {
    assert_eq!(PARSE_ERROR, -32700);
    assert_eq!(INVALID_REQUEST, -32600);
    assert_eq!(METHOD_NOT_FOUND, -32601);
    assert_eq!(INVALID_PARAMS, -32602);
    assert_eq!(INTERNAL_ERROR, -32603);
}

#[test]
fn version_is_read_from_its_own_text_only() {
    assert_eq!(Version.serialize(), text("2.0"));
    assert_eq!(Version::deserialize(&text("2.0")), Some(Version));
    assert_eq!(Version::deserialize(&text("2")), None);
    assert_eq!(Version::deserialize(&text("1.0")), None);
    assert_eq!(Version::deserialize(&num(2)), None);
    assert_eq!(Version::deserialize(&Json::Null), None);
}

#[test]
fn request_is_written_member_by_member() {
    let written = request("sum", Some(Json::Array(vec![num(1)])), num(7)).serialize();
    assert_eq!(
        written,
        object(vec![
            ("jsonrpc", text("2.0")),
            ("method", text("sum")),
            ("params", Json::Array(vec![num(1)])),
            ("id", num(7)),
        ])
    );
    let bare = request("sum", None, text("a")).serialize();
    assert_eq!(
        bare,
        object(vec![("jsonrpc", text("2.0")), ("method", text("sum")), ("id", text("a"))])
    );
}

#[test]
fn response_is_written_with_result_or_error() {
    let fine = Response { result: Ok(Json::Bool(true)), id: num(7) }.serialize();
    assert_eq!(fine, object(vec![("id", num(7)), ("result", Json::Bool(true))]));
    let failed = Response {
        result: Err(RPCError { code: -5, message: "no".to_owned(), data: None }),
        id: Json::Null,
    }
    .serialize();
    assert_eq!(
        failed,
        object(vec![
            ("id", Json::Null),
            (
                "error",
                object(vec![
                    ("code", Json::Number(JsonNumber::NegInt(-5))),
                    ("message", text("no"))
                ])
            ),
        ])
    );
}

#[test]
fn error_data_is_written_only_where_there_is_some() {
    let with = RPCError { code: 4, message: "m".to_owned(), data: Some(text("d")) }.serialize();
    assert_eq!(
        with,
        object(vec![("code", num(4)), ("message", text("m")), ("data", text("d"))])
    );
}

#[test]
fn an_object_with_method_and_id_is_a_request() {
    let json = object(vec![
        ("jsonrpc", text("2.0")),
        ("method", text("sum")),
        ("params", Json::Array(vec![num(1), num(2)])),
        ("id", num(3)),
    ]);
    assert_eq!(
        Message::from_json(json),
        Message::Request(request("sum", Some(Json::Array(vec![num(1), num(2)])), num(3)))
    );
}

#[test]
fn a_request_may_have_the_null_id() {
    let json =
        object(vec![("jsonrpc", text("2.0")), ("method", text("sum")), ("id", Json::Null)]);
    assert_eq!(Message::from_json(json), Message::Request(request("sum", None, Json::Null)));
}

#[test]
fn null_parameters_are_no_parameters() {
    let json = object(vec![
        ("jsonrpc", text("2.0")),
        ("method", text("sum")),
        ("params", Json::Null),
        ("id", num(3)),
    ]);
    assert_eq!(Message::from_json(json), Message::Request(request("sum", None, num(3))));
}

#[test]
fn the_first_shape_that_fits_wins() {
    let json = object(vec![
        ("jsonrpc", text("2.0")),
        ("method", text("sum")),
        ("id", num(3)),
        ("result", num(5)),
    ]);
    assert_eq!(Message::from_json(json), Message::Request(request("sum", None, num(3))));
}

#[test]
fn without_an_id_it_is_a_notification() {
    let json = object(vec![("jsonrpc", text("2.0")), ("method", text("tick"))]);
    assert_eq!(Message::from_json(json), Message::notification("tick".to_owned(), None));
}

#[test]
fn an_id_that_is_an_array_makes_no_request() {
    let json = object(vec![
        ("jsonrpc", text("2.0")),
        ("method", text("tick")),
        ("id", Json::Array(vec![num(1)])),
    ]);
    assert_eq!(Message::from_json(json), Message::notification("tick".to_owned(), None));
}

#[test]
fn responses_are_read_with_result_or_error() {
    let fine = object(vec![("id", num(3)), ("result", text("ok"))]);
    assert_eq!(
        Message::from_json(fine),
        Message::Response(Response { result: Ok(text("ok")), id: num(3) })
    );
    let null = object(vec![("id", num(3)), ("result", Json::Null)]);
    assert_eq!(
        Message::from_json(null),
        Message::Response(Response { result: Ok(Json::Null), id: num(3) })
    );
    let failed = object(vec![
        ("id", text("x")),
        (
            "error",
            object(vec![
                ("code", Json::Number(JsonNumber::NegInt(-32601))),
                ("message", text("Method not found")),
                ("data", text("sum")),
            ]),
        ),
    ]);
    assert_eq!(
        Message::from_json(failed),
        Message::Response(Response {
            result: Err(RPCError {
                code: -32601,
                message: "Method not found".to_owned(),
                data: Some(text("sum")),
            }),
            id: text("x"),
        })
    );
}

#[test]
fn result_and_error_together_match_nothing() {
    let both = object(vec![
        ("id", num(3)),
        ("result", num(1)),
        ("error", object(vec![("code", num(1)), ("message", text("m"))])),
    ]);
    assert_eq!(Message::from_json(both.clone()), Message::Unmatched(both));
    let neither = object(vec![("id", num(3))]);
    assert_eq!(Message::from_json(neither.clone()), Message::Unmatched(neither));
}

#[test]
fn an_error_code_is_an_integer_of_64_bits() {
    let huge = object(vec![
        ("id", num(3)),
        ("error", object(vec![("code", num(u64::MAX)), ("message", text("m"))])),
    ]);
    assert_eq!(Message::from_json(huge.clone()), Message::Unmatched(huge));
    let real = object(vec![
        ("id", num(3)),
        (
            "error",
            object(vec![
                (
                    "code",
                    Json::Number(JsonNumber::Float(serde_json::Number::from_f64(1.5).unwrap())),
                ),
                ("message", text("m")),
            ]),
        ),
    ]);
    assert_eq!(Message::from_json(real.clone()), Message::Unmatched(real));
    assert_eq!(
        RPCError::deserialize(&object(vec![
            ("code", num(i64::MAX as u64)),
            ("message", text("m"))
        ])),
        Some(RPCError { code: i64::MAX, message: "m".to_owned(), data: None })
    );
    assert_eq!(
        RPCError::deserialize(&object(vec![
            ("code", Json::Number(JsonNumber::NegInt(i64::MIN))),
            ("message", text("m"))
        ])),
        Some(RPCError { code: i64::MIN, message: "m".to_owned(), data: None })
    );
}

#[test]
fn another_version_matches_nothing() {
    let json = object(vec![("jsonrpc", text("1.0")), ("method", text("tick"))]);
    assert_eq!(Message::from_json(json.clone()), Message::Unmatched(json));
    let missing = object(vec![("method", text("tick")), ("id", num(1))]);
    assert_eq!(Message::from_json(missing.clone()), Message::Unmatched(missing));
}

#[test]
fn scalars_match_nothing() {
    assert_eq!(Message::from_json(num(5)), Message::Unmatched(num(5)));
    assert_eq!(Message::from_json(text("x")), Message::Unmatched(text("x")));
    assert_eq!(Message::from_json(Json::Null), Message::Unmatched(Json::Null));
    assert_eq!(Message::from_json(Json::Bool(false)), Message::Unmatched(Json::Bool(false)));
}

#[test]
fn an_array_is_a_batch() {
    let json = Json::Array(vec![
        object(vec![("jsonrpc", text("2.0")), ("method", text("a")), ("id", num(1))]),
        object(vec![("jsonrpc", text("2.0")), ("method", text("b"))]),
        num(9),
    ]);
    assert_eq!(
        Message::from_json(json),
        Message::Batch(vec![
            Message::Request(request("a", None, num(1))),
            Message::notification("b".to_owned(), None),
            Message::Unmatched(num(9)),
        ])
    );
    assert_eq!(Message::from_json(Json::Array(vec![])), Message::Batch(vec![]));
}

#[test]
fn an_array_in_an_array_matches_nothing() {
    let inner = Json::Array(vec![object(vec![
        ("jsonrpc", text("2.0")),
        ("method", text("b")),
    ])]);
    let json = Json::Array(vec![inner.clone()]);
    assert_eq!(Message::from_json(json), Message::Batch(vec![Message::Unmatched(inner)]));
}

#[test]
fn every_message_but_the_mark_has_json() {
    assert_eq!(Message::SyntaxError.serialize(), None);
    assert_eq!(
        Message::Batch(vec![Message::notification("a".to_owned(), None), Message::SyntaxError])
            .serialize(),
        None
    );
    assert_eq!(Message::Unmatched(num(4)).serialize(), Some(num(4)));
    assert_eq!(
        Message::Batch(vec![
            Message::notification("a".to_owned(), None),
            Message::Unmatched(num(4))
        ])
        .serialize(),
        Some(Json::Array(vec![
            object(vec![("jsonrpc", text("2.0")), ("method", text("a"))]),
            num(4)
        ]))
    );
}

#[test]
fn written_and_read_again() {
    let messages = vec![
        Message::Request(request("sum", Some(Json::Array(vec![num(1)])), num(7))),
        Message::Request(request("sum", None, text("seven"))),
        Message::notification("tick".to_owned(), Some(object(vec![("a", Json::Bool(true))]))),
        Message::Response(Response { result: Ok(Json::Null), id: num(1) }),
        Message::Response(Response {
            result: Err(RPCError { code: -1, message: "m".to_owned(), data: Some(num(2)) }),
            id: Json::Null,
        }),
        Message::Batch(vec![
            Message::Request(request("a", None, num(1))),
            Message::notification("b".to_owned(), None),
        ]),
    ];
    for message in messages {
        let json = message.serialize().unwrap();
        assert_eq!(Message::from_json(json), message);
    }
}

#[test]
fn broken_records_are_answered_with_their_code() {
    assert_eq!(
        Broken::SyntaxError.reply(),
        Message::error(-32700, "Parse error".to_owned(), None)
    );
    assert_eq!(
        Broken::Unmatched(num(5)).reply(),
        Message::error(-32600, "Invalid Request".to_owned(), None)
    );
}

#[test]
fn recovery_marks_become_broken_records() {
    assert_eq!(Message::SyntaxError.into_parsed(), Err(Broken::SyntaxError));
    assert_eq!(Message::Unmatched(num(5)).into_parsed(), Err(Broken::Unmatched(num(5))));
    let notif = Message::notification("a".to_owned(), None);
    assert_eq!(notif.clone().into_parsed(), Ok(notif));
    let batch = Message::Batch(vec![Message::Unmatched(num(5))]);
    assert_eq!(batch.clone().into_parsed(), Ok(batch));
}

#[test]
fn replies_go_to_the_id_of_the_request() {
    let asked = request("sum", None, num(41));
    assert_eq!(
        asked.reply(num(3)),
        Message::Response(Response { result: Ok(num(3)), id: num(41) })
    );
    assert_eq!(
        asked.error(-32602, "bad".to_owned(), Some(text("why"))),
        Message::Response(Response {
            result: Err(RPCError {
                code: -32602,
                message: "bad".to_owned(),
                data: Some(text("why"))
            }),
            id: num(41),
        })
    );
    assert_eq!(
        asked.not_found(),
        Message::Response(Response {
            result: Err(RPCError {
                code: -32601,
                message: "Method not found".to_owned(),
                data: Some(text("sum"))
            }),
            id: num(41),
        })
    );
}

#[test]
fn the_last_member_of_a_name_is_the_one_that_is_read() {
    let json = object(vec![("a", num(1)), ("b", num(2)), ("a", num(3))]);
    assert_eq!(json.member("a"), Some(&num(3)));
    assert_eq!(json.member("b"), Some(&num(2)));
    assert_eq!(json.member("c"), None);
    assert_eq!(num(1).member("a"), None);
    assert_eq!(Json::Array(vec![num(1)]).member("a"), None);
}

#[test]
fn numbers_as_integers() {
    assert_eq!(JsonNumber::from_i64(0), JsonNumber::PosInt(0));
    assert_eq!(JsonNumber::from_i64(5), JsonNumber::PosInt(5));
    assert_eq!(JsonNumber::from_i64(-5), JsonNumber::NegInt(-5));
    assert_eq!(JsonNumber::from_i64(i64::MIN), JsonNumber::NegInt(i64::MIN));
    assert_eq!(JsonNumber::PosInt(5).as_i64(), Some(5));
    assert_eq!(JsonNumber::PosInt(i64::MAX as u64).as_i64(), Some(i64::MAX));
    assert_eq!(JsonNumber::PosInt(i64::MAX as u64 + 1).as_i64(), None);
    assert_eq!(JsonNumber::NegInt(-7).as_i64(), Some(-7));
    assert_eq!(
        JsonNumber::Float(serde_json::Number::from_f64(0.5).unwrap()).as_i64(),
        None
    );
}

#[test]
fn scalar_or_not() {
    assert!(Json::Null.is_scalar());
    assert!(Json::Bool(true).is_scalar());
    assert!(num(1).is_scalar());
    assert!(text("a").is_scalar());
    assert!(!Json::Array(vec![]).is_scalar());
    assert!(!object(vec![]).is_scalar());
    assert!(Json::Null.is_null());
    assert!(!num(0).is_null());
}

#[test]
fn copies_are_equal() {
    let json = object(vec![
        ("a", Json::Array(vec![num(1), text("x"), Json::Null])),
        ("b", object(vec![("c", Json::Bool(true))])),
    ]);
    assert_eq!(json.clone(), json);
    let batch = Message::Batch(vec![
        Message::Request(request("a", Some(json.clone()), num(1))),
        Message::Unmatched(json),
        Message::SyntaxError,
    ]);
    assert_eq!(batch.clone(), batch);
}

#[test]
fn a_message_from_a_string() {
    assert_eq!(
        Message::from_str("{\"jsonrpc\": \"2.0\", \"method\": \"tick\", \"params\": [1]}"),
        Ok(Message::notification("tick".to_owned(), Some(Json::Array(vec![num(1)]))))
    );
    assert_eq!(Message::from_str(" 17 "), Ok(Message::Unmatched(num(17))));
    assert_eq!(
        Message::from_str("[{\"id\": null, \"result\": 1}]"),
        Ok(Message::Batch(vec![Message::Response(Response {
            result: Ok(num(1)),
            id: Json::Null
        })]))
    );
}

#[test]
fn a_string_that_is_not_one_json_value_is_an_error() {
    assert_eq!(Message::from_str("{]"), Err(ParseFailure::Syntax));
    assert_eq!(Message::from_str("{\"a\":1} trailing"), Err(ParseFailure::Syntax));
    assert_eq!(Message::from_str("{\"a\":"), Err(ParseFailure::Eof));
    assert_eq!(Message::from_str(""), Err(ParseFailure::Eof));
}

#[test]
fn a_message_into_a_string() {
    assert_eq!(
        Message::notification("notif".to_owned(), None).into_string(),
        Some("{\"jsonrpc\":\"2.0\",\"method\":\"notif\"}".to_owned())
    );
    assert_eq!(
        Message::Request(request("s\u{fc}m", Some(text("a\tb\n")), num(1))).into_string(),
        Some("{\"jsonrpc\":\"2.0\",\"method\":\"s\u{fc}m\",\"params\":\"a\\tb\\n\",\"id\":1}".to_owned())
    );
    assert_eq!(Message::SyntaxError.into_string(), None);
}

#[test]
fn the_same_value_or_not() {
    let json = object(vec![
        ("a", Json::Array(vec![num(1), text("x"), Json::Null, Json::Bool(false)])),
        ("b", object(vec![("c", Json::Number(JsonNumber::NegInt(-3)))])),
    ]);
    assert!(json.same_as(&json.clone()));
    assert!(Json::Null.same_as(&Json::Null));
    assert!(!Json::Null.same_as(&Json::Bool(false)));
    assert!(!num(1).same_as(&num(2)));
    assert!(!num(1).same_as(&Json::Number(JsonNumber::NegInt(1))));
    assert!(!text("a").same_as(&text("b")));
    assert!(!Json::Array(vec![num(1)]).same_as(&Json::Array(vec![num(1), num(1)])));
    assert!(!Json::Array(vec![num(1), num(2)]).same_as(&Json::Array(vec![num(1), num(3)])));
    assert!(!object(vec![("a", num(1))]).same_as(&object(vec![("b", num(1))])));
    assert!(!object(vec![("a", num(1))]).same_as(&object(vec![("a", num(2))])));
    assert!(!object(vec![("a", num(1)), ("b", num(2))])
        .same_as(&object(vec![("b", num(2)), ("a", num(1))])));
    // Two numbers that are no integers are never found the same.
    let half = Json::Number(JsonNumber::Float(serde_json::Number::from_f64(0.5).unwrap()));
    assert!(!half.same_as(&half.clone()));
    assert!(!Json::Array(vec![num(1), half.clone()]).same_as(&Json::Array(vec![num(1), half])));
    assert!(JsonNumber::PosInt(7).same_as(&JsonNumber::PosInt(7)));
    assert!(!JsonNumber::PosInt(7).same_as(&JsonNumber::PosInt(8)));
    assert!(JsonNumber::NegInt(-7).same_as(&JsonNumber::NegInt(-7)));
}
