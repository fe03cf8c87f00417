//! The printing entry points: render the style directives, then append to the
//! transcript — on the same line for `print_str`, as a new line ending in a
//! break marker for `println_str`.

use vstd::prelude::*;

use crate::render::{process_styles, process_styles_spec};
use crate::session::{add_output_new_line, add_output_same_line, append_last_spec, append_line_spec, GuiState};

verus! {

/// Renders `text` and joins it onto the most recent transcript line.
pub fn print_str(state: &mut GuiState, text: &str)
    ensures
        final (state).out() == append_last_spec(old(state).out(), process_styles_spec(text@)),
        final (state).pending_inputs == old(state).pending_inputs,
        final (state).input_counter == old(state).input_counter,
        final (state).program_finished == old(state).program_finished,
        final (state).last_request_time == old(state).last_request_time,
        final (state).has_received_requests == old(state).has_received_requests,
        old(state).wf() ==> final (state).wf(),
{
    let processed = process_styles(text);
    add_output_same_line(state, processed);
}

/// Renders `text` and appends it as a new transcript line ending in a line
/// break marker.
pub fn println_str(state: &mut GuiState, text: &str)
    ensures
        final (state).out() == append_line_spec(
            old(state).out(),
            process_styles_spec(text@) + "<br>"@,
        ),
        final (state).pending_inputs == old(state).pending_inputs,
        final (state).input_counter == old(state).input_counter,
        final (state).program_finished == old(state).program_finished,
        final (state).last_request_time == old(state).last_request_time,
        final (state).has_received_requests == old(state).has_received_requests,
        old(state).wf() ==> final (state).wf(),
{
    let mut processed = process_styles(text);
    processed.append("<br>");
    add_output_new_line(state, processed);
}

} // verus!
