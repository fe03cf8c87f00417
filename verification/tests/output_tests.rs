use webrust::latex::{latex, latex_display, latex_inline};
use webrust::print::{print_str, println_str};
use webrust::session::GuiState;
use webrust::supervisor::{should_exit, GRACE_PERIOD_MS, MAX_DRAIN_MS, NO_ACTIVITY_TIMEOUT_MS};

#[test]
fn print_joins_the_last_line() {
    let mut s = GuiState::new();
    print_str(&mut s, "a");
    print_str(&mut s, "b");
    assert_eq!(s.output_buffer, vec!["ab"]);
}

#[test]
fn println_adds_a_break_marker() {
    let mut s = GuiState::new();
    println_str(&mut s, "hello");
    println_str(&mut s, "@(bold)hi");
    assert_eq!(
        s.output_buffer,
        vec![
            "hello<br>",
            "<span style=\"font-weight: bold\">hi</span><br>"
        ]
    );
}

#[test]
fn latex_picks_the_mode_automatically() {
    let mut s = GuiState::new();
    latex(&mut s, "x^2");
    latex(&mut s, "\\begin{align}x\\end{align}");
    latex(&mut s, "\\[x\\]");
    assert_eq!(
        s.output_buffer,
        vec![
            "LATEX_INLINE:x^2",
            "LATEX_DISPLAY:\\begin{align}x\\end{align}",
            "LATEX_DISPLAY:\\[x\\]"
        ]
    );
}

#[test]
fn latex_fixed_modes_use_their_markers() {
    let mut s = GuiState::new();
    latex_display(&mut s, "a+b");
    latex_inline(&mut s, "c");
    assert_eq!(
        s.output_buffer,
        vec!["LATEX_DISPLAY:a+b", "LATEX_INLINE:c"]
    );
}

#[test]
fn supervisor_exits_after_the_no_activity_timeout() {
    assert!(!should_exit(false, NO_ACTIVITY_TIMEOUT_MS, 0));
    assert!(should_exit(false, NO_ACTIVITY_TIMEOUT_MS + 1, 0));
}

#[test]
fn supervisor_waits_for_the_grace_period() {
    // activity seen recently: stay up
    assert!(!should_exit(true, 4_000, GRACE_PERIOD_MS));
    // activity old enough, minimum drain passed: exit
    assert!(should_exit(true, 3_000, GRACE_PERIOD_MS + 1));
    // activity old enough but the drain only began: stay up
    assert!(!should_exit(true, 2_999, GRACE_PERIOD_MS + 1));
}

#[test]
fn supervisor_never_outlives_the_ceiling() {
    assert!(should_exit(true, MAX_DRAIN_MS + 1, 0));
    assert!(should_exit(false, MAX_DRAIN_MS + 1, 0));
    assert!(!should_exit(true, MAX_DRAIN_MS, 0));
}
