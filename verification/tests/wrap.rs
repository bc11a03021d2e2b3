use mork_server::wrap::{
    gen_txid, is_txid, make_txid, ns_loc_prefix, parse_all, rewrite, to_text, unwrap_execs, unwrap_text,
    wrap_execs, SExpr,
};

#[test]
fn roundtrip_2plus2() {
    let src = r#"(exec (IC 0 1 (S Z)) (, (exec (IC $x $y (S $c)) $sp $st) ((exec $x) $p $t)) (, (exec (IC $y $x $c) $sp $st) (exec (R $x) $p $t)))
(petri (! (add result) ((S (S Z)) (S (S Z)))))"#;
    let wrapped = rewrite(src, "tx1_abcd1234").unwrap();
    // every 4-ary exec loc got wrapped, including inside patterns/templates
    assert_eq!(wrapped.matches("(tx1_abcd1234 ").count(), 4);
    // arity-2 dormant (exec $x) is untouched
    assert!(wrapped.contains("((exec $x) $p $t)"));
    // unwrap restores what was wrapped (modulo whitespace)
    let (un, txid) = unwrap_text(wrapped.lines().next().unwrap());
    assert_eq!(txid.as_deref(), Some("tx1_abcd1234"));
    assert!(un.starts_with("(exec (IC 0 1 (S Z))"));
    assert!(!un.contains("tx1_"));
}

#[test]
fn txid_format() {
    let id = gen_txid(17);
    assert!(is_txid(&id), "{}", id.to_text());
    assert!(id.starts_with("tx17_"));
    assert!(!is_txid("exec"));
    assert!(!is_txid("tx_abc"));
    assert!(!is_txid("tx1_short"));
}

#[test]
fn strings_and_vars_roundtrip() {
    let src = r#"(data "a (quoted) \" string" $var)"#;
    let exprs = parse_all(src).unwrap();
    assert_eq!(to_text(&exprs[0]), src);
}

#[test]
fn txid_suffix_is_the_number_in_base_36() {
    assert_eq!(make_txid(3, 0).as_str(), "tx3_aaaaaaaa");
    assert_eq!(make_txid(3, 1).as_str(), "tx3_baaaaaaa");
    assert_eq!(make_txid(0, 35 + 36 * 26).as_str(), "tx0_90aaaaaa");
    assert_ne!(gen_txid(1), gen_txid(1));
}

#[test]
fn parse_errors_say_what_is_wrong() {
    assert_eq!(parse_all("(a").unwrap_err(), "unclosed '('");
    assert_eq!(parse_all("a )").unwrap_err(), "unexpected ')' at byte 2");
    assert_eq!(parse_all("\"abc").unwrap_err(), "unfinished string");
    assert_eq!(parse_all("\"abc\\").unwrap_err(), "unfinished escape sequence");
    assert_eq!(parse_all("  \n ").unwrap(), vec![]);
}

#[test]
fn unwrapping_undoes_wrapping() {
    let mut e = parse_all("(exec 0 (, (a $x)) (, (exec (1 2) $p $t)))").unwrap().remove(0);
    let before = e.clone();
    wrap_execs(&mut e, "tx5_abcdefgh");
    assert_eq!(
        to_text(&e),
        "(exec (tx5_abcdefgh 0) (, (a $x)) (, (exec (tx5_abcdefgh (1 2)) $p $t)))"
    );
    assert_eq!(unwrap_execs(&mut e).as_deref(), Some("tx5_abcdefgh"));
    assert_eq!(e, before);
    assert_eq!(unwrap_execs(&mut e), None);
}

#[test]
fn unwrap_text_leaves_what_it_cannot_parse() {
    assert_eq!(unwrap_text("(open"), ("(open".to_string(), None));
    assert_eq!(unwrap_text(""), ("".to_string(), None));
}

#[test]
fn loc_prefix_is_arity_two_and_the_id() {
    let mut want = vec![2u8, 0xC0 + 12];
    want.extend_from_slice(b"tx1_abcdefgh");
    assert_eq!(ns_loc_prefix("tx1_abcdefgh"), want);
}

#[test]
fn atoms_and_lists_print_as_they_are() {
    let e = SExpr::List(vec![SExpr::Atom("a".into()), SExpr::List(vec![])]);
    assert_eq!(to_text(&e), "(a ())");
}

#[test]
fn letters_are_never_split() {
    let src = "(word \u{e0} \u{85}x \u{2005})";
    let es = parse_all(src).unwrap();
    assert_eq!(to_text(&es[0]), src);
    let SExpr::List(items) = &es[0] else { panic!("a list") };
    assert_eq!(items[1], SExpr::Atom("\u{e0}".into()));
}

#[test]
fn a_whole_source_is_restored() {
    let src = "(exec  0 (, $x)\n (, (exec 1 \u{e0} $y)))  (data \"a (b\") c";
    let w = rewrite(src, "tx1_abcd1234").unwrap();
    let (text, tx) = unwrap_text(&w);
    assert_eq!(text, "(exec 0 (, $x) (, (exec 1 \u{e0} $y))) (data \"a (b\") c");
    assert_eq!(tx.as_deref(), Some("tx1_abcd1234"));
    let w = rewrite("(exec 0 p) b", "tx1_abcd1234").unwrap();
    assert_eq!(unwrap_text(&w), ("(exec 0 p) b".into(), None), "nothing was wrapped");
    let w = rewrite("(a) (exec 0 p t) (b)", "tx1_abcd1234").unwrap();
    assert_eq!(unwrap_text(&w), ("(a) (exec 0 p t) (b)".into(), Some("tx1_abcd1234".into())));
}
