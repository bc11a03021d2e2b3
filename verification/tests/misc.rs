use mork_server::admission::AdmissionController;
use mork_server::events::{frame, hello, json_frame, lagged, passes, DeltaTask};
use mork_server::expr::{byte_item, child_offset, decode, item_byte, tag_name, Decoded, Expr, Tag};
use mork_server::json::Json;
use mork_server::output::{
    print_box, print_dumping, print_execution, print_header, print_loaded, print_result,
};
use mork_server::paths::PathMap;
use mork_server::read::{
    dump_lines, export, export_mode, parse_expr_bytes, ExportMode, ParseOutcome, NO_PERMIT,
};
use mork_server::steps::{exec_to_text, pause_pending_execs, step_at, step_once};
use mork_server::table::Table;
use mork_server::float::{check_finite, number_for_json};
use mork_server::text::{check_float, i64_text, parse_u64, u128_text};
use mork_server::transaction::{Event, TxId};
use mork_server::worker::{
    panicked, worker_name, BudgetAction, Run, RunAction, StepOutcome, WorkerOutcome,
};

#[test]
fn boxes_are_aligned_in_characters() {
    let text = print_box("Ünï", &vec!["a".to_string(), "⍼⍼⍼⍼⍼".to_string()]);
    let widths: Vec<usize> = text.lines().map(|l| l.chars().count()).collect();
    assert_eq!(widths, vec![11, 11, 11, 11]);
    assert_eq!(
        print_box("T", &vec!["abc".to_string()]),
        "╭─ T ───╮\n│ abc   │\n╰───────╯\n"
    );
    assert_eq!(
        print_header("in", "out"),
        "╔═════════════╗\n║ File: in    ║\n║ Output: out ║\n╚═════════════╝\n\n"
    );
    assert_eq!(print_loaded(3), "✓ Loaded 3 expressions\n\n");
    assert_eq!(
        print_execution(1, 20, 3, 4, 5),
        "╭─ Execution ───────╮\n│ Steps: 1          │\n│ Time: 20 ms       │\n│ Unifications: 3   │\n│ Writes: 4         │\n│ Transitions: 5    │\n╰───────────────────╯\n\n"
    );
    assert_eq!(
        print_dumping(7),
        "╭─ Dumping ────────╮\n│ Expressions: 7   │\n╰──────────────────╯\n\n"
    );
    assert_eq!(
        print_result("(a)\n(bb)\n"),
        "╭─ Result ─╮\n│ (a)      │\n│ (bb)     │\n╰──────────╯\n"
    );
}

#[test]
fn admission_refuses_beyond_its_budgets() {
    let mut a = AdmissionController::new(64, 1, 2);
    let p = a.acquire_run().unwrap();
    assert_eq!(p.max_body_bytes(), 64);
    assert!(a.acquire_run().is_none(), "at capacity");
    a.release_run(p);
    assert!(a.acquire_run().is_some());
    let plain = a.acquire_sse().unwrap();
    let other = a.acquire_sse().unwrap();
    assert!(a.acquire_sse().is_none());
    assert_eq!(a.delta_sub_count(), 0);
    let delta = a.with_deltas(other);
    assert_eq!(a.delta_sub_count(), 1);
    a.release_sse(delta);
    assert_eq!(a.delta_sub_count(), 0);
    a.release_sse(plain);
    assert!(a.acquire_sse().is_some());
}

#[test]
fn event_frames_and_filters() {
    assert_eq!(frame("hello", "{}"), "event: hello\ndata: {}\n\n");
    let id = TxId::new("tx1_abcdefgh".into()).unwrap();
    let tx = Event::Quiescent { tx: id, version: 1 };
    let delta = Event::Delta { version: 1, added: vec![], removed: vec![] };
    let idle = Event::Idle { version: 1 };
    let mine = Some("tx1_abcdefgh".to_string());
    let other = Some("tx2_abcdefgh".to_string());
    assert!(passes(&tx, &None, false));
    assert!(passes(&tx, &mine, false));
    assert!(!passes(&tx, &other, false));
    assert!(passes(&idle, &other, false));
    assert!(!passes(&delta, &None, false));
    assert!(passes(&delta, &other, true));
    assert_eq!(lagged(3).get("skipped"), Some(&Json::Int(3)));
    let h = hello(4, 5, &vec!["tx1_abcdefgh".to_string()]);
    assert_eq!(h.get("count"), Some(&Json::Int(5)));
    assert_eq!(h.get("active_txs"), Some(&Json::Array(vec![Json::Str("tx1_abcdefgh".into())])));
}

fn map(paths: &[&[u8]]) -> PathMap<u64> {
    let mut m = PathMap::new();
    for p in paths {
        m.insert(p, 1);
    }
    m
}

#[test]
fn deltas_lead_from_one_snapshot_to_the_next() {
    let mut t = DeltaTask::new(1, map(&[b"a", b"b"]));
    assert!(t.observe(0, 2, map(&[b"b"])).is_none(), "nobody listens");
    assert!(t.observe(1, 2, map(&[b"b"])).is_none(), "the same version");
    let d = t.observe(1, 3, map(&[b"b", b"c"])).unwrap();
    assert_eq!(d.added.val_count(), 1);
    assert!(d.added.contains(b"c"));
    assert!(d.removed.is_empty());
    let d = t.observe(2, 4, map(&[b"c"])).unwrap();
    assert!(d.removed.contains(b"b") && d.added.is_empty());
}

#[test]
fn exports_are_shown_without_wrappers() {
    let listing = b"(a)\n\n(exec (tx1_abcdefgh 0) $x $y)\n";
    assert_eq!(export(listing), "(a)\n(exec 0 $x $y)\n");
    assert_eq!(dump_lines(listing), vec!["(a)".to_string(), "(exec 0 $x $y)".to_string()]);
    assert_eq!(export(b"\xFF\n"), "\u{FFFD}\n");
    assert_eq!(export_mode(None, None), Ok(ExportMode::All));
    assert_eq!(export_mode(Some("$"), Some("_1")), Ok(ExportMode::Query));
    assert_eq!(
        export_mode(Some("$"), None).unwrap_err(),
        "pattern and template must be provided together"
    );
}

#[test]
fn expressions_that_cannot_be_parsed_are_refused() {
    let long = "a".repeat(2049);
    assert_eq!(
        parse_expr_bytes(&long, ParseOutcome::NoPermit).unwrap_err(),
        "expression too long (max 2048 bytes)"
    );
    assert_eq!(
        parse_expr_bytes("a \"b", ParseOutcome::Refused).unwrap_err(),
        "failed to parse expression: \"a \\\"b\""
    );
    assert_eq!(parse_expr_bytes("$", ParseOutcome::Parsed(vec![0xC0])).unwrap(), vec![0xC0]);
}

#[test]
fn a_parse_with_no_free_slot_reports_unavailable() {
    let err = parse_expr_bytes("[2] foo $", ParseOutcome::NoPermit).unwrap_err();
    assert_eq!(err, NO_PERMIT);
    assert!(err.starts_with("unavailable:"), "must map to 503, not 400: {err}");
}

#[test]
fn runs_end_within_their_budget() {
    let (mut run, action) = Run::start(Ok(1), 2, BudgetAction::Abort);
    assert_eq!(action, RunAction::Step);
    assert_eq!(run.stepped(StepOutcome::Stepped), RunAction::Step);
    assert_eq!(run.stepped(StepOutcome::Stepped), RunAction::Finish(WorkerOutcome::Failed(
        "step budget exhausted (2 steps)".into()
    )));
    let (mut run, _) = Run::start(Ok(1), 1, BudgetAction::Commit);
    assert_eq!(run.stepped(StepOutcome::Stepped), RunAction::Park);
    assert_eq!(run.parked(Ok(())), RunAction::Finish(WorkerOutcome::Budget));
    let (mut run, _) = Run::start(Ok(1), 5, BudgetAction::Commit);
    assert_eq!(run.stepped(StepOutcome::Done), RunAction::Finish(WorkerOutcome::Quiesced));
    let (mut run, _) = Run::start(Ok(1), 5, BudgetAction::Commit);
    assert_eq!(
        run.stepped(StepOutcome::Failed("exec x: bad".into())),
        RunAction::Finish(WorkerOutcome::Failed("exec x: bad".into()))
    );
    assert!(matches!(
        Run::start(Err("no".into()), 5, BudgetAction::Commit).1,
        RunAction::Finish(WorkerOutcome::Failed(_))
    ));
    assert!(matches!(panicked(Some("boom".into())), WorkerOutcome::Failed(m) if m.contains("boom")));
    assert_eq!(worker_name(3), "mork-worker-3");
}

#[test]
fn pending_execs_are_parked() {
    assert!(pause_pending_execs(b"").is_none());
    let (execs, paused) = pause_pending_execs(b"(exec (tx1_abcdefgh 0) $x $y)\n").unwrap();
    assert_eq!(execs, "(exec (tx1_abcdefgh 0) $x $y)\n");
    assert!(paused.contains("(paused "));
    assert_eq!(exec_to_text(b"(a)\n\n"), "(a)");
    assert!(step_at(0, "", None).is_none());
    assert_eq!(step_at(1, "", None), Some(StepOutcome::Stepped));
    assert_eq!(
        step_at(1, "(exec (tx1_abcdefgh 0) $x $y)", Some("bad")),
        Some(StepOutcome::Failed("exec (exec 0 $x $y): bad".into()))
    );
    assert_eq!(step_once(None, None), StepOutcome::Done);
    assert_eq!(step_once(None, Some(StepOutcome::Stepped)), StepOutcome::Stepped);
}

#[test]
fn tags_and_expressions_read_back() {
    for t in [Tag::NewVar, Tag::VarRef(5), Tag::SymbolSize(3), Tag::Arity(4)] {
        assert_eq!(byte_item(item_byte(t)), t);
    }
    assert_eq!(tag_name(Tag::Arity(4)), "Arity(4)");
    let Decoded::Tree(e, 6) = decode(&[2, 0xC2, b'a', b'b', 0xC0, 0x80], 0).map_end() else {
        panic!("an expression")
    };
    assert_eq!(e.encoded_len(), 5);
    let Expr::List(items) = &e else { panic!("a list") };
    assert_eq!(child_offset(items, 1), 4);
    assert!(matches!(decode(&[2, 0xC2, b'a'], 0), Decoded::Short));
    assert!(matches!(decode(&[0x40], 0), Decoded::Reserved));
}

trait MapEnd {
    fn map_end(self) -> Decoded;
}

impl MapEnd for Decoded {
    fn map_end(self) -> Decoded {
        match self {
            Decoded::Tree(e, end) => Decoded::Tree(e, end + 1),
            other => other,
        }
    }
}

#[test]
fn numbers_and_tables() {
    assert_eq!(i64_text(i64::MIN), "-9223372036854775808");
    assert_eq!(u128_text(u128::MAX), "340282366920938463463374607431768211455");
    assert_eq!(parse_u64(b"+18446744073709551615"), Some(u64::MAX));
    assert_eq!(parse_u64(b"18446744073709551616"), None);
    for good in ["1", "-1.5e3", ".5", "5.", "+inf", "NaN"] {
        assert!(check_float(good.as_bytes()), "{good}");
        assert!(good.parse::<f64>().is_ok());
    }
    for bad in ["", ".", "e5", "1e", "--1", "in", "1_0"] {
        assert!(!check_float(bad.as_bytes()), "{bad}");
        assert!(bad.parse::<f64>().is_err());
    }
    let mut t: Table<u8> = Table::new();
    assert_eq!(t.insert("a".into(), 1), None);
    assert_eq!(t.insert("a".into(), 2), Some(1));
    assert_eq!((t.get("a"), t.len()), (Some(&2), 1));
    assert_eq!(t.remove("a"), Some(2));
}

#[test]
fn numerals_are_rewritten_for_json() {
    for (text, json) in [(".5", "0.5"), ("+1.50", "1.50"), ("5", "5.0"), ("1e5", "1.0e5"), ("-7.", "-7.0")] {
        let written = number_for_json(text);
        assert_eq!(written, json);
        assert_eq!(written.parse::<f64>().unwrap(), text.parse::<f64>().unwrap());
    }
    assert!(check_finite(b"1.7976931348623158e308"));
    assert!(!check_finite(b"1.7976931348623159e308"));
    assert!(!check_finite(b"-inf"));
}

#[test]
fn event_data_is_sent_as_json() {
    assert_eq!(
        json_frame("lagged", &lagged(3)),
        format!("event: lagged\ndata: {}\n\n", "{\"skipped\":3}")
    );
}
