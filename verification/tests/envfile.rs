use sealed_env::envfile::{parse_var_line, read_var, upsert_var};

#[test]
fn parse_plain_binding() {
    let p = parse_var_line("KEY=value").unwrap();
    assert_eq!(p.leading_ws, "");
    assert!(!p.export_prefix);
    assert_eq!(p.key, "KEY");
    assert_eq!(p.value, "value");
}

#[test]
fn parse_keeps_leading_ws_and_export() {
    let p = parse_var_line("   export DBPASS=old").unwrap();
    assert_eq!(p.leading_ws, "   ");
    assert!(p.export_prefix);
    assert_eq!(p.key, "DBPASS");
    assert_eq!(p.value, "old");
}

#[test]
fn parse_trims_key_not_value() {
    let p = parse_var_line("\tKEY  = v = w ").unwrap();
    assert_eq!(p.leading_ws, "\t");
    assert_eq!(p.key, "KEY");
    assert_eq!(p.value, " v = w ");
}

#[test]
fn parse_value_is_verbatim() {
    let p = parse_var_line("K=a=b#c \"quoted\"").unwrap();
    assert_eq!(p.value, "a=b#c \"quoted\"");
    let empty = parse_var_line("K=").unwrap();
    assert_eq!(empty.value, "");
}

#[test]
fn parse_rejects_comments_blanks_and_broken_lines() {
    assert!(parse_var_line("").is_none());
    assert!(parse_var_line("   ").is_none());
    assert!(parse_var_line("# comment").is_none());
    assert!(parse_var_line("   # indented comment").is_none());
    assert!(parse_var_line("no equals sign").is_none());
    assert!(parse_var_line("=value with empty key").is_none());
    assert!(parse_var_line("   =x").is_none());
    assert!(parse_var_line("export =x").is_none());
}

#[test]
fn parse_export_needs_the_trailing_space() {
    let p = parse_var_line("exportKEY=v").unwrap();
    assert!(!p.export_prefix);
    assert_eq!(p.key, "exportKEY");
    let q = parse_var_line("export KEY=v").unwrap();
    assert!(q.export_prefix);
    assert_eq!(q.key, "KEY");
}

#[test]
fn read_returns_last_binding() {
    let content = "A=1\nA=2\n";
    assert_eq!(read_var(content, "A").unwrap(), "2");
}

#[test]
fn read_is_none_for_unbound_comment_or_empty() {
    assert!(read_var("", "A").is_none());
    assert!(read_var("# A=1\n", "A").is_none());
    assert!(read_var("B=1\n", "A").is_none());
}

#[test]
fn read_sees_export_and_indented_bindings() {
    let content = "  export A=deep\n";
    assert_eq!(read_var(content, "A").unwrap(), "deep");
}

#[test]
fn upsert_appends_when_missing() {
    assert_eq!(upsert_var("", "A", "1"), "A=1\n");
    assert_eq!(upsert_var("B=2\n", "A", "1"), "B=2\nA=1\n");
}

#[test]
fn upsert_rewrites_in_place_preserving_layout() {
    let content = "   export DBPASS=old\n# note\nKEEP=me\n";
    let out = upsert_var(content, "DBPASS", "new");
    assert_eq!(out, "   export DBPASS=new\n# note\nKEEP=me\n");
}

#[test]
fn upsert_rewrites_every_duplicate() {
    let out = upsert_var("A=1\nA=2\n", "A", "3");
    assert_eq!(out, "A=3\nA=3\n");
    assert_eq!(read_var(&out, "A").unwrap(), "3");
}

#[test]
fn upsert_is_idempotent() {
    let once = upsert_var("A=1\n# c\nB=2", "A", "x");
    let twice = upsert_var(&once, "A", "x");
    assert_eq!(once, twice);
}

#[test]
fn upsert_normalises_missing_final_newline() {
    assert_eq!(upsert_var("A=1", "A", "2"), "A=2\n");
    assert_eq!(upsert_var("KEEP=me", "A", "1"), "KEEP=me\nA=1\n");
}

#[test]
fn non_ascii_values_and_comments_survive() {
    let p = parse_var_line("GREETING=café ☕").unwrap();
    assert_eq!(p.key, "GREETING");
    assert_eq!(p.value, "café ☕");

    let content = "# naïve café\nGREETING=früh\nKEEP=привет\n";
    assert_eq!(read_var(content, "GREETING").unwrap(), "früh");
    let out = upsert_var(content, "GREETING", "spät");
    assert_eq!(out, "# naïve café\nGREETING=spät\nKEEP=привет\n");
}

#[test]
fn upsert_leaves_other_keys_byte_identical() {
    let content = "  WEIRD  = spaced \n#x\n\nexport E=1\nA=0\n";
    let out = upsert_var(content, "A", "9");
    assert_eq!(out, "  WEIRD  = spaced \n#x\n\nexport E=1\nA=9\n");
}
