use anyhow::{Backtrace, Context, Error, ErrorLike, Kind, Value};

fn texts(e: &Error) -> Vec<String> {
    let mut out = Vec::new();
    let mut chain = e.chain();
    while let Some(v) = chain.next() {
        out.push(v.text.clone());
    }
    out
}

fn three_layers() -> Error {
    Error::msg("root").context(Value::message("middle")).context(Value::message("outer"))
}

#[test]
fn context_is_reachable_by_its_kind() {
    let e = Error::msg("disk full").context(Value::new(Kind::Custom(7), "saving file"));
    let got = e.downcast_ref(Kind::Custom(7)).expect("context reachable");
    assert_eq!(got.kind, Kind::Custom(7));
    assert_eq!(got.text, "saving file");
}

#[test]
fn wrapped_value_stays_reachable() {
    let base = Error::from_value(Value::new(Kind::Custom(3), "not found"));
    let e = base.context(Value::message("loading config")).context(Value::new(Kind::Custom(9), "startup"));
    let got = e.downcast_ref(Kind::Custom(3)).expect("base reachable");
    assert_eq!(got.text, "not found");
    assert_eq!(e.downcast_ref(Kind::Message).unwrap().text, "loading config");
}

#[test]
fn chain_has_one_entry_per_layer() {
    let e = Error::msg("root");
    assert_eq!(texts(&e), vec!["root"]);
    let e = three_layers();
    assert_eq!(texts(&e), vec!["outer", "middle", "root"]);
    let mut chain = e.chain();
    for _ in 0..3 {
        assert!(chain.next().is_some());
    }
    assert!(chain.next().is_none());
    assert!(chain.next().is_none());
    assert_eq!(e.root_cause().text, "root");
}

#[test]
fn chain_includes_reported_causes() {
    let like = ErrorLike {
        value: Value::new(Kind::Custom(1), "request failed"),
        causes: vec![Value::new(Kind::Custom(2), "connection reset"), Value::message("timeout")],
        backtrace: Backtrace::Disabled,
    };
    let e = Error::new(like, Backtrace::Disabled).context(Value::message("fetching page"));
    assert_eq!(texts(&e), vec!["fetching page", "request failed", "connection reset", "timeout"]);
    assert_eq!(e.root_cause().text, "timeout");
    // causes of the base value are in the chain but not reachable by downcasting
    assert!(e.downcast_ref(Kind::Custom(2)).is_none());
}

#[test]
fn mismatched_downcast_hands_error_back() {
    let e = three_layers();
    let back = match e.downcast(Kind::Custom(42)) {
        Ok(_) => panic!("no layer has this kind"),
        Err(back) => back,
    };
    assert_eq!(texts(&back), vec!["outer", "middle", "root"]);
    assert_eq!(back.message(), "outer");
    assert!(back.downcast_ref(Kind::Custom(42)).is_none());
}

#[test]
fn plain_and_alternate_forms() {
    let e = Error::msg("inner cause").context(Value::message("outer"));
    assert_eq!(e.message(), "outer");
    assert_eq!(e.message_alternate(), "outer: inner cause");
    assert_eq!(Error::msg("alone").message_alternate(), "alone");
}

#[test]
fn diagnostic_form_three_layers() {
    let e = three_layers();
    assert_eq!(e.debug_text(), "Error: outer\n\nCaused by:\n    0: middle\n    1: root");
}

#[test]
fn diagnostic_form_single_cause_is_unnumbered() {
    let e = Error::msg("root").context(Value::message("outer"));
    assert_eq!(e.debug_text(), "Error: outer\n\nCaused by:\n    root");
    assert_eq!(Error::msg("alone").debug_text(), "Error: alone");
}

#[test]
fn diagnostic_form_indents_multiline_causes() {
    let e = Error::msg("line one\nline two").context(Value::message("outer"));
    assert_eq!(e.debug_text(), "Error: outer\n\nCaused by:\n    line one\n    line two");
    let e = Error::msg("a\nb").context(Value::message("mid")).context(Value::message("top"));
    assert_eq!(e.debug_text(), "Error: top\n\nCaused by:\n    0: mid\n    1: a\n       b");
}

#[test]
fn diagnostic_form_numbers_right_aligned() {
    let mut e = Error::msg("c0");
    for i in 1..13 {
        e = e.context(Value::message(&format!("c{}", i)));
    }
    let text = e.debug_text();
    assert!(text.starts_with("Error: c12\n\nCaused by:\n    0: c11\n"));
    assert!(text.ends_with("\n    9: c2\n   10: c1\n   11: c0"));
}

#[test]
fn diagnostic_form_backtrace_section() {
    let like = ErrorLike {
        value: Value::message("boom"),
        causes: vec![],
        backtrace: Backtrace::Disabled,
    };
    let e = Error::new(like, Backtrace::Captured("   0: main\n   1: start\n\n".to_string()));
    assert_eq!(e.debug_text(), "Error: boom\n\nStack backtrace:\n   0: main\n   1: start");
    let like = ErrorLike {
        value: Value::message("boom"),
        causes: vec![],
        backtrace: Backtrace::Captured("stack backtrace:\n   0: own \n".to_string()),
    };
    let e = Error::new(like, Backtrace::Captured("ignored".to_string()));
    assert_eq!(e.debug_text(), "Error: boom\n\nStack backtrace:\n   0: own");
    match e.backtrace() {
        Backtrace::Captured(t) => assert_eq!(t, "stack backtrace:\n   0: own \n"),
        Backtrace::Disabled => panic!("the value's own backtrace is kept"),
    }
    assert!(matches!(Error::msg("x").backtrace(), Backtrace::Disabled));
}

#[test]
fn struct_form_nests_contexts() {
    let e = three_layers();
    assert_eq!(
        e.debug_struct(),
        "Error {\n    context: \"outer\",\n    source: Error {\n        context: \"middle\",\n        source: \"root\",\n    },\n}"
    );
    assert_eq!(Error::msg("say \"hi\"\n").debug_struct(), "\"say \\\"hi\\\"\\n\"");
}

#[test]
fn repeated_reads_agree() {
    let e = three_layers();
    assert_eq!(e.message(), e.message());
    assert_eq!(texts(&e), texts(&e));
    assert_eq!(e.debug_text(), e.debug_text());
}

#[test]
fn value_round_trip() {
    let e = Error::from_value(Value::new(Kind::Custom(5), "bad input"));
    let v = e.downcast(Kind::Custom(5)).ok().expect("round trip");
    assert_eq!(v.kind, Kind::Custom(5));
    assert_eq!(v.text, "bad input");
    let e = Error::msg("outer text").context(Value::new(Kind::Custom(8), "ctx"));
    let v = e.downcast(Kind::Message).ok().expect("base by value");
    assert_eq!(v.text, "outer text");
}

#[test]
fn downcast_mut_changes_layer() {
    let mut e = three_layers().context(Value::new(Kind::Custom(4), "tagged"));
    {
        let v = e.downcast_mut(Kind::Message).expect("a message layer");
        assert_eq!(v.text, "outer");
        v.text = "changed".to_string();
    }
    assert_eq!(texts(&e), vec!["tagged", "changed", "middle", "root"]);
    assert!(e.downcast_mut(Kind::Custom(99)).is_none());
}

#[test]
fn result_context() {
    let ok: Result<u32, Error> = Ok(3);
    assert_eq!(ok.context(Value::message("unused")).ok(), Some(3));
    let failed: Result<u32, Error> = Err(Error::msg("low level"));
    let e = failed.context(Value::message("high level")).err().unwrap();
    assert_eq!(e.message_alternate(), "high level: low level");
    let failed: Result<u32, ErrorLike> = Err(ErrorLike {
        value: Value::new(Kind::Custom(6), "io"),
        causes: vec![Value::message("os error 2")],
        backtrace: Backtrace::Disabled,
    });
    let e = failed.with_context(|| Value::message("reading file")).err().unwrap();
    assert_eq!(texts(&e), vec!["reading file", "io", "os error 2"]);
    assert_eq!(e.downcast_ref(Kind::Custom(6)).unwrap().text, "io");
}

#[test]
fn option_context() {
    assert_eq!(Some(1).context(Value::message("missing")).ok(), Some(1));
    let e = None::<u8>.context(Value::new(Kind::Custom(2), "missing")).err().unwrap();
    assert_eq!(texts(&e), vec!["missing"]);
    assert!(e.downcast_ref(Kind::Custom(2)).is_some());
}

#[test]
fn with_context_runs_only_on_failure() {
    let ok: Result<u8, Error> = Ok(1);
    let r = ok.with_context(|| -> Value { panic!("must not run") });
    assert_eq!(r.ok(), Some(1));
    let e = Error::msg("base").with_context(|| Value::message("lazy"));
    assert_eq!(e.message(), "lazy");
}

fn fails(flag: bool) -> anyhow::Result<u8> {
    if flag {
        Err(Error::msg("flagged"))
    } else {
        Ok(0)
    }
}

#[test]
fn result_alias_carries_error() {
    assert_eq!(fails(false).ok(), Some(0));
    assert_eq!(fails(true).err().unwrap().message(), "flagged");
}
