use mork_server::http::{
    error_reply, export_failed, is_unavailable, not_found, parse_query, percent_decode, prepare_as, route,
    run_reply, run_transaction, shut_down, stats, wants_deltas, Reply, Route,
};
use mork_server::json::Json;
use mork_server::transaction::{TxId, TxOk};
use mork_server::wrap::is_txid;

#[test]
fn stats_reports_the_three_always_present_gauges() {
    let v = stats(42, 2, 4);
    assert_eq!(v.get("version"), Some(&Json::Int(42)));
    assert_eq!(v.get("in_flight"), Some(&Json::Int(2)));
    assert_eq!(v.get("history_len"), Some(&Json::Int(4)));
}

#[test]
fn cow_keys_are_present_only_under_the_counters_feature() {
    let v = stats(0, 0, 0);
    assert_eq!(v.get("cow_clones").is_some(), false);
    assert_eq!(v.get("make_unique_calls").is_some(), false);
}

#[test]
fn routes_are_by_method_and_path() {
    assert_eq!(route("POST", "/run"), Route::Run);
    assert_eq!(route("GET", "/events"), Route::Events);
    assert_eq!(route("GET", "/export"), Route::Export);
    assert_eq!(route("GET", "/stats"), Route::Stats);
    assert_eq!(route("GET", "/run"), Route::NotFound);
    assert_eq!(route("GET", "/"), Route::NotFound);
    assert_eq!(not_found().status, 404);
}

#[test]
fn escapes_are_decoded() {
    assert_eq!(percent_decode(b"a%20b+c").as_deref(), Some("a b c"));
    assert_eq!(percent_decode(b"%E2%8D%BC").as_deref(), Some("\u{237c}"));
    assert_eq!(percent_decode(b"%4"), None);
    assert_eq!(percent_decode(b"%zz"), None);
    assert_eq!(percent_decode(b"%FF"), None);
}

#[test]
fn queries_become_tables() {
    let q = parse_query("tx=tx1_abcdefgh&deltas=true");
    assert_eq!(q.get("tx").unwrap(), "tx1_abcdefgh");
    assert!(wants_deltas(&q));
    assert!(!wants_deltas(&parse_query("deltas=no")));
    assert_eq!(parse_query("pattern=%5B2%5D+foo+%24").get("pattern").unwrap(), "[2] foo $");
}

#[test]
fn transactions_are_wrapped_under_a_new_id() {
    let (id, source) = run_transaction(b"(exec 0 (, $x) (, $x))", 5).unwrap();
    assert!(is_txid(&id));
    assert!(id.starts_with("tx5_"));
    assert_eq!(source, format!("(exec ({} 0) (, $x) (, $x))\n", id.to_text()));
    let id = TxId::new("tx1_abcdefgh".into()).unwrap();
    assert_eq!(prepare_as(b"(a)", &id).unwrap(), "(a)\n");
    assert_eq!(prepare_as(b"(a", &id).unwrap_err().status, 400);
    assert_eq!(prepare_as(&[0xFF], &id).unwrap_err().status, 400);
}

#[test]
fn replies_follow_the_answer() {
    let id = TxId::new("tx1_abcdefgh".into()).unwrap();
    let ok = run_reply(&Some(Ok(TxOk { tx: id, count: 2, version: 3 })));
    assert_eq!(ok.status, 200);
    assert_eq!(ok.body.get("version"), Some(&Json::Int(3)));
    assert_eq!(run_reply(&Some(Err("unavailable: log".into()))).status, 503);
    assert_eq!(run_reply(&Some(Err("write-write conflict".into()))).status, 422);
    assert_eq!(run_reply(&None).status, 500);
    assert_eq!(shut_down().status, 503);
    assert!(is_unavailable("unavailable: x"));
    assert!(!is_unavailable("x unavailable:"));
    assert_eq!(export_failed("unavailable: x").status, 503);
    assert_eq!(export_failed("bad").status, 400);
    let e = error_reply(418, "teapot");
    assert_eq!((e.status, e.body.get_str("error").unwrap().as_str()), (418, "teapot"));
}

#[test]
fn replies_are_sent_as_json() {
    let body = Json::Object(vec![
        ("version".into(), Json::Int(3)),
        ("error".into(), Json::Str("a \"b\"\n".into())),
        ("delta".into(), Json::Array(vec![Json::Null, Json::Bool(true), Json::Float("1.50".into())])),
    ]);
    let reply = Reply { status: 200, body };
    assert_eq!(reply.text(), "{\"delta\":[null,true,1.5],\"error\":\"a \\\"b\\\"\\n\",\"version\":3}");
}
