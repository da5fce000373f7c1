use openab_pty::capproxy::CapabilityProxy;
use std::borrow::Cow;

fn run(input: &[u8]) -> (Vec<u8>, Vec<u8>) {
    let mut p = CapabilityProxy::new();
    let (out, resp) = p.process(input);
    (out.to_vec(), resp)
}

#[test]
fn answers_primary_da_and_strips_it() {
    let (out, resp) = run(b"before\x1b[cafter");
    assert_eq!(out, b"beforeafter", "query removed from output");
    assert_eq!(resp, b"\x1b[?65;1;2;6;21;22;17;28c");
}

#[test]
fn answers_primary_da_zero_param() {
    let (_, resp) = run(b"\x1b[0c");
    assert_eq!(resp, b"\x1b[?65;1;2;6;21;22;17;28c");
}

#[test]
fn answers_secondary_da() {
    let (out, resp) = run(b"\x1b[>c");
    assert!(out.is_empty());
    assert_eq!(resp, b"\x1b[>65;20;1c");
}

#[test]
fn answers_dsr_status_but_not_cpr() {
    let (_, ok) = run(b"\x1b[5n");
    assert_eq!(ok, b"\x1b[0n");
    // CPR must pass through untouched and produce no runtime answer.
    let (out, cpr) = run(b"\x1b[6n");
    assert_eq!(out, b"\x1b[6n");
    assert!(cpr.is_empty());
}

#[test]
fn answers_kitty_keyboard_query() {
    let (out, resp) = run(b"\x1b[?u");
    assert!(out.is_empty());
    assert_eq!(resp, b"\x1b[?0u");
}

#[test]
fn answers_osc_colour_queries_with_dark_palette() {
    let (out, fg) = run(b"\x1b]10;?\x07");
    assert!(out.is_empty());
    assert_eq!(fg, b"\x1b]10;rgb:c7c7/c7c7/c7c7\x07");
    let (_, bg) = run(b"\x1b]11;?\x1b\\");
    assert_eq!(bg, b"\x1b]11;rgb:1e1e/1e1e/1e1e\x1b\\");
}

#[test]
fn does_not_answer_osc_colour_reports() {
    // A colour *value* (not `?`) is a response, not a query — pass through.
    let report = b"\x1b]11;rgb:1e1e/1e1e/1e1e\x07";
    let (out, resp) = run(report);
    assert_eq!(out, report);
    assert!(resp.is_empty());
}

#[test]
fn the_devin_startup_burst_is_answered_and_stripped() {
    // DA + kitty + colour in one read, interleaved with real output.
    let input = b"\x1b[c\x1b[?u\x1b]11;?\x07shell$ ";
    let (out, resp) = run(input);
    assert_eq!(out, b"shell$ ", "only real output survives");
    assert_eq!(
        resp,
        b"\x1b[?65;1;2;6;21;22;17;28c\x1b[?0u\x1b]11;rgb:1e1e/1e1e/1e1e\x07"
    );
}

#[test]
fn plain_output_is_untouched_and_borrowed() {
    let mut p = CapabilityProxy::new();
    let (out, resp) = p.process(b"just some log output\r\n");
    assert!(matches!(out, Cow::Borrowed(_)));
    assert!(resp.is_empty());
    assert_eq!(p.answered(), 0);
}

#[test]
fn arrow_keys_and_mouse_are_not_queries() {
    for input in [&b"\x1b[A"[..], b"\x1b[3~", b"\x1b[<0;1;1M", b"\x1b[I"] {
        let (out, resp) = run(input);
        assert_eq!(out, input);
        assert!(resp.is_empty(), "not a query: {input:?}");
    }
}

#[test]
fn split_query_passes_through() {
    let (out, resp) = run(b"\x1b[?62;22");
    assert_eq!(out, b"\x1b[?62;22");
    assert!(resp.is_empty());
}

#[test]
fn answers_ask_nothing_themselves() {
    let burst: &[u8] = b"\x1b[c\x1b[>c\x1b[5n\x1b[?u\x1b]10;?\x07\x1b]11;?\x1b\\";
    let (_, answers) = run(burst);
    assert!(!answers.is_empty());
    let (passed, more) = run(&answers);
    assert_eq!(passed, answers);
    assert!(more.is_empty());
}
