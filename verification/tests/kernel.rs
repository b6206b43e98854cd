use umoja::kernel::{clip, exec_text, vars_by_size, ExecOutcome, ExecRequest, KernelLanguage, VarSummary};

#[test]
fn empty_code_is_refused() {
    assert!(ExecRequest::new("ses-1", "   \n").is_err());
}

#[test]
fn clipping_keeps_both_ends_and_says_what_it_dropped() {
    let outcome = ExecOutcome {
        ok: true,
        stdout: "A".repeat(1000) + &"Z".repeat(1000),
        stderr: String::new(),
        result: None,
        error: None,
        duration_ms: 1,
        truncated_bytes: 0,
        timed_out: false,
    }
    .clip(300);

    assert!(outcome.stdout.starts_with("AAA"));
    assert!(outcome.stdout.ends_with("ZZZ"));
    assert!(outcome.stdout.contains("clipped"));
    assert!(outcome.truncated_bytes > 0);
}

#[test]
fn short_output_is_left_alone() {
    let outcome = ExecOutcome {
        ok: true,
        stdout: "hello".into(),
        stderr: String::new(),
        result: None,
        error: None,
        duration_ms: 1,
        truncated_bytes: 0,
        timed_out: false,
    }
    .clip(1024);
    assert_eq!(outcome.stdout, "hello");
    assert_eq!(outcome.truncated_bytes, 0);
}

#[test]
fn clipping_never_splits_a_character() {
    let text = "é".repeat(500);
    let (clipped, _) = clip(&text, 301);
    assert!(clipped.contains('é'));
}

#[test]
fn shell_kernels_admit_they_hold_no_objects() {
    assert!(!KernelLanguage::Shell.holds_objects());
    assert!(KernelLanguage::Python.holds_objects());
}

#[test]
fn a_clip_keeps_two_thirds_head_and_one_third_tail() {
    let text = "a".repeat(100) + &"b".repeat(100);
    let (clipped, dropped) = clip(&text, 30);
    assert_eq!(dropped, 170);
    assert_eq!(
        clipped,
        format!(
            "{}\n... [170 bytes clipped; run again printing a smaller slice] ...\n{}",
            "a".repeat(20),
            "b".repeat(10)
        )
    );
}

#[test]
fn requests_keep_sane_limits() {
    let req = ExecRequest::new("ses-1", "print(1)").unwrap();
    assert_eq!(req.timeout_secs, 120);
    assert_eq!(req.max_output_bytes, 16 * 1024);
    let req = req.with_timeout(0).with_max_output(10);
    assert_eq!(req.timeout_secs, 1);
    assert_eq!(req.max_output_bytes, 256);
    let failed = ExecOutcome::failure("boom", 5);
    assert!(!failed.ok);
    assert_eq!(failed.error.as_deref(), Some("boom"));
}

#[test]
fn languages_read_their_spellings() {
    assert_eq!(KernelLanguage::parse("py").unwrap(), KernelLanguage::Python);
    assert_eq!(KernelLanguage::parse(" JavaScript ").unwrap(), KernelLanguage::Node);
    assert_eq!(KernelLanguage::parse("bash").unwrap(), KernelLanguage::Shell);
    assert!(KernelLanguage::parse("cobol").is_err());
    assert_eq!(KernelLanguage::Node.label(), "node");
}

#[test]
fn vars_report_shape_and_are_ordered_by_size() {
    let var = |name: &str, size: Option<u64>| VarSummary {
        name: name.into(),
        value_type: "str".into(),
        length: None,
        size_bytes: size,
        preview: None,
    };
    let vars = vars_by_size(vec![
        var("small", Some(2)),
        var("unknown", None),
        var("large", Some(10)),
        var("also", Some(2)),
    ]);
    let names: Vec<&str> = vars.iter().map(|v| v.name.as_str()).collect();
    assert_eq!(names, vec!["large", "also", "small", "unknown"]);
}

fn ran(stdout: &str, result: Option<&str>, stderr: &str, error: Option<&str>) -> ExecOutcome {
    ExecOutcome {
        ok: error.is_none(),
        stdout: stdout.to_string(),
        stderr: stderr.to_string(),
        result: result.map(str::to_string),
        error: error.map(str::to_string),
        duration_ms: 3,
        truncated_bytes: 0,
        timed_out: false,
    }
}

#[test]
fn an_execution_reads_as_output_result_errors_in_that_order() {
    let outcome = ran("hello\n\n", Some("42"), "warning: x  \n", Some("NameError: y"));
    assert_eq!(exec_text(&outcome), "hello\n42\nwarning: x\nNameError: y");
}

#[test]
fn blank_output_is_left_out_of_the_reading() {
    assert_eq!(exec_text(&ran("  \n", Some("3"), "\t", None)), "3");
    assert_eq!(exec_text(&ran("", None, "", None)), "");
    assert_eq!(exec_text(&ran("", None, "boom\n", None)), "boom");
}

#[test]
fn an_empty_result_still_takes_its_line() {
    assert_eq!(exec_text(&ran("out", Some(""), "", Some("e"))), "out\n\ne");
}
