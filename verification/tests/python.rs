use mork_server::expr::{decode, Decoded, Expr};
use mork_server::float_text::{print_float, print_plain};
use mork_server::json::Json;
use mork_server::python::manager::{
    answer, command_json, request, request_frame, response_size, result_from_json, value_from_json, value_json, PyIpcError,
    PySessionManager, MAX_FRAME_SIZE,
};
use mork_server::python::parse::{
    py_command_from_expr, py_query_from_expr, py_result_from_expr, py_value_from_expr,
};
use mork_server::python::protocol::{
    py_command_to_expr_bytes, py_query_to_expr_bytes, py_result_to_expr_bytes, py_value_to_expr_bytes,
    PyCommand, PyResult, PyValue,
};

fn tree(bytes: &[u8]) -> Expr {
    match decode(bytes, 0) {
        Decoded::Tree(e, end) if end == bytes.len() => e,
        _ => panic!("not an expression"),
    }
}

fn symbol(value: &str) -> Vec<u8> {
    let mut encoded = vec![0xC0 + value.len() as u8];
    encoded.extend_from_slice(value.as_bytes());
    encoded
}

fn list(items: &[Vec<u8>]) -> Expr {
    let mut encoded = vec![items.len() as u8];
    for item in items {
        encoded.extend_from_slice(item);
    }
    tree(&encoded)
}

fn values() -> Vec<PyValue> {
    vec![
        PyValue::NoneValue,
        PyValue::Bool(true),
        PyValue::Bool(false),
        PyValue::Int(i64::MIN),
        PyValue::Float("4.5".into()),
        PyValue::Str("x y".into()),
        PyValue::Handle("@py:py1:1".into()),
        PyValue::List(vec![PyValue::Int(1), PyValue::List(vec![])]),
        PyValue::Dict(vec![("k".into(), PyValue::Int(2)), ("k".into(), PyValue::NoneValue)]),
    ]
}

#[test]
fn values_survive_expressions_and_json() {
    for v in values() {
        let bytes = py_value_to_expr_bytes(&v).unwrap();
        assert_eq!(py_value_from_expr(&tree(&bytes)).unwrap(), v);
        assert_eq!(value_from_json(&value_json(&v)).unwrap(), v);
    }
    assert_eq!(py_value_to_expr_bytes(&PyValue::NoneValue).unwrap(), symbol("None"));
}

#[test]
fn commands_survive_expressions() {
    let commands = vec![
        PyCommand::Import { req_id: "r".into(), module: "math".into() },
        PyCommand::ImportFile { req_id: "r".into(), module: "m".into(), path: "/p".into() },
        PyCommand::GetAttr { req_id: "r".into(), target: PyValue::Handle("h".into()), attr: "a".into() },
        PyCommand::GetVariable { req_id: "r".into(), name: "n".into() },
        PyCommand::SetVariable { req_id: "r".into(), name: "n".into(), value: PyValue::Int(41) },
        PyCommand::Call {
            req_id: "r".into(),
            module: "math".into(),
            function: "sqrt".into(),
            args: vec![PyValue::Int(16)],
            kwargs: vec![("k".into(), PyValue::Bool(true))],
        },
        PyCommand::CallMethod {
            req_id: "r".into(),
            target: PyValue::Handle("h".into()),
            method: "m".into(),
            args: vec![],
            kwargs: vec![],
        },
        PyCommand::DropObject { req_id: "r".into(), handle: "h".into() },
    ];
    for c in commands {
        let bytes = py_command_to_expr_bytes(&c).unwrap();
        assert_eq!(py_command_from_expr(&tree(&bytes)).unwrap(), c);
        let bytes = py_query_to_expr_bytes(&c).unwrap();
        assert_eq!(py_query_from_expr(&tree(&bytes)).unwrap(), c);
        assert_eq!(command_json(&c).unwrap().get_str("req_id").unwrap(), "r");
    }
}

#[test]
fn results_survive_expressions() {
    let ok = PyResult::Success(PyValue::Int(21));
    let bad = PyResult::Error { error_type: "E".into(), message: "m".into(), traceback: "t".into() };
    for r in [ok, bad] {
        let bytes = py_result_to_expr_bytes(&r).unwrap();
        assert_eq!(py_result_from_expr(&tree(&bytes)).unwrap(), r);
    }
}

#[test]
fn malformed_expressions_are_refused() {
    let e = |items: &[Vec<u8>]| py_value_from_expr(&list(items)).unwrap_err();
    assert_eq!(py_value_from_expr(&tree(&symbol("X"))).unwrap_err(), "unexpected atom \"X\" for PyValue");
    assert_eq!(e(&[symbol("Nope")]), "unknown PyValue form \"Nope\"");
    assert_eq!(e(&[symbol("Bool"), symbol("maybe")]), "invalid Bool payload \"maybe\"");
    assert_eq!(e(&[symbol("Bool"), symbol("true"), symbol("x")]), "Bool value has trailing data");
    assert_eq!(e(&[symbol("Int"), symbol("x")]), "invalid digit found in string");
    assert_eq!(e(&[symbol("Int"), vec![0xC1, 0xFF]]), "invalid utf-8 sequence of 1 bytes from index 0");
    assert_eq!(py_value_from_expr(&tree(&[0xC0])).unwrap_err(), "unexpected tag NewVar for PyValue");
    assert!(py_command_from_expr(&list(&[symbol("Fly"), symbol("r")])).is_err());
    assert!(py_command_from_expr(&tree(&symbol("Import"))).is_err());
}

#[test]
fn json_replies_become_results() {
    let reply = |members: Vec<(&str, Json)>| {
        Json::Object(members.into_iter().map(|(k, v)| (k.to_string(), v)).collect())
    };
    let ok = reply(vec![("status", Json::Str("ok".into())), ("result", value_json(&PyValue::Int(3)))]);
    assert_eq!(result_from_json(&ok).unwrap(), PyResult::Success(PyValue::Int(3)));
    let failed = reply(vec![("status", Json::Str("error".into())), ("message", Json::Str("m".into()))]);
    assert_eq!(
        result_from_json(&failed).unwrap(),
        PyResult::Error { error_type: "PythonError".into(), message: "m".into(), traceback: "".into() }
    );
    assert!(matches!(result_from_json(&Json::Null), Err(PyIpcError::Protocol(_))));
    let odd = reply(vec![("type", Json::Str("odd".into()))]);
    let e = value_from_json(&odd).unwrap_err();
    assert_eq!(e.message(), "invalid python worker response: unknown result type \"odd\"");
}

#[test]
fn frames_announce_their_length() {
    assert_eq!(request_frame(b"abc").unwrap(), [0, 0, 0, 3, b'a', b'b', b'c']);
    assert_eq!(response_size([0, 0, 1, 2]).unwrap(), 258);
    let e = response_size((MAX_FRAME_SIZE + 1).to_be_bytes()).unwrap_err();
    assert_eq!(
        e.message(),
        "invalid python worker response: response frame is too large: 67108865 bytes"
    );
}

#[test]
fn sinks_cache_results_for_sources() {
    let mut m = PySessionManager::with_worker("worker.py".into());
    assert!(m.needs_worker("py1"));
    m.worker_started("py1");
    assert!(!m.needs_worker("py1"));
    assert_eq!(m.worker_count(), 1);
    let c = PyCommand::Import { req_id: "import-math".into(), module: "math".into() };
    let e = m.execute_source("py1", &c).unwrap_err();
    assert_eq!(e.message(), "no cached Python result for request \"import-math\"");
    let reply = Json::Object(vec![
        ("status".into(), Json::Str("ok".into())),
        ("result".into(), value_json(&PyValue::Handle("@py:py1:1".into()))),
    ]);
    m.finish_sink(&c, &reply).unwrap();
    let r = m.execute_source("py1", &c).unwrap();
    assert_eq!(r, PyResult::Success(PyValue::Handle("@py:py1:1".into())));
    let bytes = py_command_to_expr_bytes(&c).unwrap();
    assert_eq!(m.sink_command(&tree(&bytes)).unwrap(), c);
    let out = m.execute_source_expr("py1", &tree(&bytes)).unwrap();
    assert_eq!(py_result_from_expr(&tree(&out)).unwrap(), r);
    m.clear_results();
    assert!(m.result("import-math").is_none());
}

#[test]
fn floats_that_are_not_finite_are_refused() {
    let limit = mork_server::float::TOO_LARGE.to_string();
    let mut below = limit.clone();
    below.replace_range(308..309, "1");
    let texts = [
        "4.5", "-0", "+1", ".5", "5.", "1e5", "1E-400", "0e999999999999999999999999", "NaN", "-inf",
        "Infinity", "1e308", "1.7976931348623157e308", "1.7976931348623158e308",
        "1.7976931348623159e308", "-1e309", "0.00001e313", "0.00001e314", "1e99999999999999999999",
        "1e-99999999999999999999999999999999999999999", &limit, &below,
    ];
    for t in texts {
        let finite = t.parse::<f64>().unwrap().is_finite();
        let v = PyValue::List(vec![PyValue::Int(1), PyValue::Float(t.into())]);
        match value_from_json(&value_json(&v)) {
            Ok(back) => {
                let printed = t.parse::<f64>().unwrap().to_string();
                assert!(finite, "{t}");
                assert_eq!(back, PyValue::List(vec![PyValue::Int(1), PyValue::Float(printed)]), "{t}");
            }
            Err(e) => assert!(!finite && e == PyIpcError::Protocol("invalid float".into()), "{t}"),
        }
    }
}

#[test]
fn requests_are_framed_json() {
    let c = PyCommand::SetVariable {
        req_id: "r".into(),
        name: "n".into(),
        value: PyValue::List(vec![PyValue::Float("+.50e1".into()), PyValue::Float("nan".into())]),
    };
    let bytes = request(&c).unwrap();
    let text = "{\"command\":\"set-variable\",\"name\":\"n\",\"req_id\":\"r\",\"value\":{\"type\":\"list\",\
                \"value\":[{\"type\":\"float\",\"value\":5.0},{\"type\":\"float\",\"value\":null}]}}";
    assert_eq!(&bytes[..4], &(text.len() as u32).to_be_bytes());
    assert_eq!(std::str::from_utf8(&bytes[4..]).unwrap(), text);
    // every float of seventeen digits arrives as it is
    for t in ["0.1", "2.2250738585072014e-308", "123456789012345.67", "9007199254740993.5", "007"] {
        let c = PyCommand::SetVariable {
            req_id: "r".into(),
            name: "n".into(),
            value: PyValue::Float(t.into()),
        };
        let bytes = request(&c).unwrap();
        let text = std::str::from_utf8(&bytes[4..]).unwrap();
        let sent = text.rsplit("\"value\":").next().unwrap().trim_end_matches('}');
        assert_eq!(sent.parse::<f64>().unwrap(), t.parse::<f64>().unwrap());
    }
}

#[test]
fn answers_are_read_from_bytes() {
    let ok = answer(b"{\"status\":\"ok\",\"result\":{\"type\":\"float\",\"value\":1.5}}").unwrap();
    assert_eq!(ok, PyResult::Success(PyValue::Float("1.5".into())));
    for (sent, printed) in [
        ("2.0", "2"), ("7", "7"), ("1e20", "100000000000000000000"), ("-0.0", "-0"),
        ("9007199254740993", "9007199254740992"), ("18446744073709551615", "18446744073709552000"),
        ("1.5e-7", "0.00000015"), ("0.30000000000000004", "0.30000000000000004"),
    ] {
        let body = format!("{}{sent}{}", "{\"status\":\"ok\",\"result\":{\"type\":\"float\",\"value\":", "}}");
        let got = answer(body.as_bytes()).unwrap();
        assert_eq!(got, PyResult::Success(PyValue::Float(printed.into())), "{sent}");
    }
    let big = answer(b"{\"status\":\"ok\",\"result\":{\"type\":\"int\",\"value\":18446744073709551615}}");
    assert_eq!(big.unwrap_err(), PyIpcError::Protocol("invalid int".into()));
    assert!(matches!(answer(b"{"), Err(PyIpcError::Json(_))));
    let e = answer(b"[1, true, null]").unwrap_err();
    assert_eq!(e, PyIpcError::Protocol("response status must be ok or error".into()));
    let mut m = PySessionManager::with_worker("w".into());
    let c = PyCommand::Import { req_id: "r".into(), module: "math".into() };
    m.take_answer(&c, b"{\"status\":\"ok\",\"result\":{\"type\":\"none\"}}").unwrap();
    assert_eq!(m.result("r"), Some(&PyResult::Success(PyValue::NoneValue)));
    assert!(m.take_answer(&c, b"x").is_err());
    assert!(m.result("r").is_some());
}

#[test]
fn integers_are_read_as_the_standard_library_reads_them() {
    for t in [
        "", "+", "-", "0", "-0", "+7", "x", "9223372036854775807", "9223372036854775808",
        "-9223372036854775808", "-9223372036854775809", "99999999999999999999x", "1x", "--1", "\u{e0}",
    ] {
        let mine = mork_server::text::i64_from_text(t);
        assert_eq!(mine, t.parse::<i64>().map_err(|e| e.to_string()), "{t:?}");
    }
}

#[test]
fn floats_are_read_and_written_as_they_print() {
    let read = |text: &str| {
        let mut form = vec![2];
        form.extend_from_slice(&symbol("Float"));
        form.extend_from_slice(&symbol(text));
        py_value_from_expr(&tree(&form)).unwrap()
    };
    for (text, printed) in [
        ("1.50", "1.5"), ("2.0", "2"), ("+7", "7"), ("-0", "-0"), (".5", "0.5"), ("5.", "5"),
        ("1e3", "1000"), ("12.5E-3", "0.0125"), ("1e-400", "0"), ("-1e999", "-inf"),
        ("infinity", "inf"), ("-nan", "NaN"), ("0.1000000000000000055511151231257827", "0.1"),
    ] {
        let value = read(text);
        assert_eq!(value, PyValue::Float(printed.into()), "{text}");
        let bytes = py_value_to_expr_bytes(&value).unwrap();
        assert_eq!(py_value_from_expr(&tree(&bytes)).unwrap(), value, "{text}");
        // a value that was not read is written in the same form, as far as nothing is rounded
        if text.len() < 15 && text != "1e-400" {
            assert_eq!(py_value_to_expr_bytes(&PyValue::Float(text.into())).unwrap(), bytes, "{text}");
        }
    }
}

#[test]
fn floats_print_as_the_standard_library_prints_them() {
    let check = |text: &str| {
        assert_eq!(print_float(text), text.parse::<f64>().unwrap().to_string(), "{text}");
    };
    let mut seed: u64 = 0x9e37_79b9_7f4a_7c15;
    let mut next = || {
        seed ^= seed << 13;
        seed ^= seed >> 7;
        seed ^= seed << 17;
        seed
    };
    for _ in 0..20000 {
        // any float, in the shortest form, in full, and in scientific notation
        let x = f64::from_bits(next());
        check(&x.to_string());
        check(&format!("{x:e}"));
        if x.is_finite() {
            check(&format!("{x:.20e}"));
        }
        // a binary fraction, which may lie midway between two short forms, and what is near to it
        let fraction = (next() >> 11) as f64 / 2f64.powi((next() % 60) as i32);
        check(&format!("{fraction:.70}"));
        check(&format!("-{fraction:.17e}"));
        // digits with a point and an exponent
        let digits = next() % 10u64.pow((next() % 20) as u32).max(1);
        let exponent = (next() % 700) as i64 - 350;
        check(&format!("{digits}e{exponent}"));
        check(&format!("-{}.{digits:010}E+{:03}", next() % 1000, next() % 320));
        check(&format!("+0.000{digits}e-{}", next() % 340));
    }
    for text in [
        "0", "-0", "+0.000", "0e99999999999999999999", "1e99999999999999999999", "-1e-99999999999999999999",
        "758442672961133.25", "7584426729611332107e-4", "758442672961133.375", "9007199254740993.5",
        "5e-324", "2.4703282292062327e-324", "2.4703282292062328e-324", "2.2250738585072011e-308",
        "1.7976931348623157e308", "1.7976931348623158e308", "1.7976931348623159e308", "17976931348623157e292",
        "999999999999999", "9999999999999999", "99999999999999999999999", "123456789012345e-320",
        "100000000000000000000000e-23", "inf", "-INFINITY", "nAn", "0.1", "1e-306", "1e-307", "1e-308",
    ] {
        check(text);
    }
    assert_eq!(print_plain("12345678901234567890.50"), "12345678901234567890.5", "nothing is rounded");
    assert_eq!(print_plain("no number"), "no number");
}
