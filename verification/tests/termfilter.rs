use openab_pty::escape::MAX_SEQUENCE_LEN;
use openab_pty::termfilter::TermFilter;
use std::borrow::Cow;

fn filtered(input: &[u8]) -> Vec<u8> {
    TermFilter::new().filter(input).to_vec()
}

#[test]
fn strips_primary_and_secondary_device_attributes() {
    assert!(filtered(b"\x1b[?62;22c").is_empty());
    assert!(filtered(b"\x1b[>0;276;0c").is_empty());
    assert!(filtered(b"\x1b[?1;2c").is_empty());
}

#[test]
fn strips_cursor_position_report() {
    assert!(filtered(b"\x1b[24;80R").is_empty());
    assert!(filtered(b"\x1b[?24;80;1R").is_empty(), "DECXCPR");
}

#[test]
fn strips_device_status_report() {
    assert!(filtered(b"\x1b[0n").is_empty());
    assert!(filtered(b"\x1b[?83n").is_empty());
}

#[test]
fn strips_tertiary_da_and_xtversion_dcs() {
    assert!(filtered(b"\x1bP!|7E565445\x1b\\").is_empty());
    assert!(filtered(b"\x1bP>|xterm.js(5.3.0)\x1b\\").is_empty());
    assert!(filtered(b"\x1bP1$r0;1m\x1b\\").is_empty(), "DECRQSS answer");
    assert!(
        filtered(b"\x1bP1+r544e=787465726d\x07").is_empty(),
        "XTGETTCAP"
    );
}

#[test]
fn strips_osc_color_reports() {
    assert!(filtered(b"\x1b]11;rgb:1e1e/1e1e/1e1e\x07").is_empty());
    assert!(filtered(b"\x1b]10;rgb:ffff/ffff/ffff\x1b\\").is_empty());
    assert!(filtered(b"\x1b]4;1;rgb:cd00/0000/0000\x07").is_empty());
}

#[test]
fn strips_response_embedded_in_typing() {
    // The realistic case: the emulator's auto-answer lands in the middle of
    // the user's keystrokes.
    assert_eq!(filtered(b"ls\x1b[?62;22c -la\r"), b"ls -la\r");
}

#[test]
fn strips_multiple_responses_in_one_chunk() {
    assert_eq!(filtered(b"a\x1b[0nb\x1b[24;80Rc"), b"abc");
}

#[test]
fn passes_plain_text_untouched_without_allocating() {
    let mut f = TermFilter::new();
    assert!(matches!(f.filter(b"echo hello\r"), Cow::Borrowed(_)));
    assert_eq!(f.stripped_sequences(), 0);
}

#[test]
fn passes_keyboard_input_unchanged() {
    for input in [
        &b"\x1b[A"[..],              // up arrow
        b"\x1b[B",                   // down
        b"\x1b[1;5C",                // ctrl+right
        b"\x1b[3~",                  // delete
        b"\x1bOP",                   // F1 via SS3
        b"\x1b",                     // bare Esc keypress
        b"\x1b\x1b",                 // Esc Esc (vi users do this)
        b"\x03",                     // Ctrl-C
        b"\x1b[97;5u",               // Kitty keyboard protocol
        b"\x1b[200~pasted\x1b[201~", // bracketed paste
    ] {
        assert_eq!(filtered(input), input, "must pass through: {input:?}");
    }
}

#[test]
fn passes_mouse_and_focus_reports_unchanged() {
    for input in [
        &b"\x1b[<0;10;5M"[..], // SGR mouse press
        b"\x1b[<0;10;5m",      // SGR mouse release (lowercase m, not n)
        b"\x1b[I",             // focus in
        b"\x1b[O",             // focus out
    ] {
        assert_eq!(filtered(input), input, "must pass through: {input:?}");
    }
}

#[test]
fn passes_literal_letters_that_match_response_finals() {
    // `c`, `n` and `R` only matter after a CSI introducer.
    assert_eq!(filtered(b"cat n R\r"), b"cat n R\r");
}

#[test]
fn passes_unrecognised_osc_and_dcs_untouched() {
    let osc_title = b"\x1b]0;my title\x07";
    assert_eq!(filtered(osc_title), osc_title);
    let dcs_other = b"\x1bPtmux;something\x1b\\";
    assert_eq!(filtered(dcs_other), dcs_other);
}

#[test]
fn passes_unterminated_sequences_untouched() {
    // Split across chunks: documented pass-through rather than holding the
    // bytes back (which would delay a bare Esc).
    assert_eq!(filtered(b"\x1b[?62;22"), b"\x1b[?62;22");
    assert_eq!(filtered(b"\x1b]11;rgb:1e1e"), b"\x1b]11;rgb:1e1e");
    assert_eq!(filtered(b"\x1bP!|7E56"), b"\x1bP!|7E56");
}

#[test]
fn bounded_scan_does_not_strip_overlong_runs() {
    let mut input = Vec::from(&b"\x1b["[..]);
    input.extend_from_slice(&vec![b'1'; MAX_SEQUENCE_LEN + 8]);
    input.push(b'c');
    assert_eq!(
        filtered(&input),
        input,
        "past the scan bound: leave it alone"
    );
}

#[test]
fn counters_track_what_was_removed() {
    let mut f = TermFilter::new();
    let out = f.filter(b"x\x1b[0n\x1b[24;80Ry");
    assert_eq!(out.as_ref(), b"xy");
    assert_eq!(f.stripped_sequences(), 2);
    assert_eq!(f.stripped_bytes(), 4 + 8);
}

#[test]
fn only_the_listed_dcs_reports_are_stripped() {
    for report in [
        &b"\x1bP0$r\x1b\\"[..],
        b"\x1bP1$rm\x1b\\",
        b"\x1bP0+r\x1b\\",
        b"\x1bP1+r544e\x07",
        b"\x1bP!|00\x1b\\",
        b"\x1bP>|name\x1b\\",
    ] {
        assert!(filtered(report).is_empty());
    }
    for other in [
        &b"\x1bP7$rm\x1b\\"[..],
        b"\x1bP$rm\x1b\\",
        b"\x1bP10$rm\x1b\\",
        b"\x1bP1+R544e\x1b\\",
        b"\x1bP2+r544e\x1b\\",
        b"\x1bP+r544e\x1b\\",
        b"\x1bP1!|00\x1b\\",
        b"\x1bP1>|name\x1b\\",
    ] {
        assert_eq!(filtered(other), other);
    }
}
