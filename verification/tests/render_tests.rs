use webrust::render::{preserve_formatting, process_styles};

#[test]
fn render_bold_wraps_exactly_the_content() {
    assert_eq!(
        process_styles("@(bold)hi"),
        "<span style=\"font-weight: bold\">hi</span>"
    );
}

#[test]
fn render_unknown_style_leaves_content_bare() {
    assert_eq!(process_styles("@(unknownstyle)hi"), "hi");
}

#[test]
fn render_plain_text_is_unchanged() {
    assert_eq!(process_styles("plain"), "plain");
    assert_eq!(process_styles(""), "");
    assert_eq!(process_styles("a@b"), "a@b");
    assert_eq!(process_styles("open@(never closed"), "open@(never closed");
}

#[test]
fn render_combines_styles_in_order() {
    assert_eq!(
        process_styles("@(red, bold)x"),
        "<span style=\"color: #ff6b6b; font-weight: bold\">x</span>"
    );
}

#[test]
fn render_empty_style_list_emits_content() {
    assert_eq!(process_styles("@()x"), "x");
}

#[test]
fn render_text_around_directives_passes_through() {
    assert_eq!(
        process_styles("say @(green)ok@(reset) now"),
        "say <span style=\"color: #51cf66\">ok</span> now"
    );
}

#[test]
fn render_content_stops_at_next_marker() {
    assert_eq!(
        process_styles("@(blue)a@(yellow)b"),
        "<span style=\"color: #339af0\">a</span><span style=\"color: #ffd43b\">b</span>"
    );
}

#[test]
fn render_background_and_aliases() {
    assert_eq!(
        process_styles("@(bg-red)x"),
        "<span style=\"background-color: #ff6b6b\">x</span>"
    );
    assert_eq!(
        process_styles("@(grey)x"),
        process_styles("@(gray)x")
    );
}

#[test]
fn render_wraps_structured_multiline_content() {
    let out = process_styles("data {\nrow");
    assert_eq!(
        out,
        "<pre style=\"font-family: 'Courier New', monospace; margin: 0; display: inline;\">data {\nrow</pre>"
    );
}

#[test]
fn render_leaves_plain_multiline_content_alone() {
    assert_eq!(process_styles("a\nb"), "a\nb");
    assert_eq!(process_styles("a{b"), "a{b");
}

#[test]
fn preserve_formatting_only_wraps_structured_text() {
    assert_eq!(preserve_formatting("x"), "x");
    assert_eq!(
        preserve_formatting("[1,\n2]"),
        "<pre style=\"font-family: 'Courier New', monospace; margin: 0; display: inline;\">[1,\n2]</pre>"
    );
}

#[test]
fn render_empty_content_still_opens_a_span() {
    assert_eq!(
        process_styles("@(bold)"),
        "<span style=\"font-weight: bold\"></span>"
    );
}

#[test]
fn render_name_list_runs_to_the_first_closing_paren() {
    assert_eq!(process_styles("@((x)y"), "y");
    assert_eq!(
        process_styles("@(bold(ignored, red)y"),
        "<span style=\"color: #ff6b6b\">y</span>"
    );
}
