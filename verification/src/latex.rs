//! Mathematical notation: a formula is appended to the transcript behind a
//! marker naming its rendering mode. Display mode is chosen automatically
//! when the formula holds a structural block marker, otherwise inline mode.

use vstd::prelude::*;

use crate::session::{add_output, append_line_spec, GuiState};
use crate::strutil::{contains_sub, has_sub};

verus! {

/// The transcript line for a formula: display mode when the formula holds a
/// `\begin{` environment or a `\[` block, inline mode otherwise.
pub open spec fn latex_line(f: Seq<char>) -> Seq<char> {
    if has_sub(f, "\\begin{"@) || has_sub(f, "\\["@) {
        "LATEX_DISPLAY:"@ + f
    } else {
        "LATEX_INLINE:"@ + f
    }
}

/// Appends the formula behind the automatically chosen mode marker.
pub fn latex(state: &mut GuiState, formula: &str)
    ensures
        final (state).out() == append_line_spec(old(state).out(), latex_line(formula@)),
        final (state).pending_inputs == old(state).pending_inputs,
        final (state).input_counter == old(state).input_counter,
        final (state).program_finished == old(state).program_finished,
        final (state).last_request_time == old(state).last_request_time,
        final (state).has_received_requests == old(state).has_received_requests,
        old(state).wf() ==> final (state).wf(),
{
    let display = contains_sub(formula, "\\begin{") || contains_sub(formula, "\\[");
    let mut line = if display {
        "LATEX_DISPLAY:".to_owned()
    } else {
        "LATEX_INLINE:".to_owned()
    };
    line.append(formula);
    add_output(state, line);
}

/// Appends the formula in display mode.
pub fn latex_display(state: &mut GuiState, formula: &str)
    ensures
        final (state).out() == append_line_spec(old(state).out(), "LATEX_DISPLAY:"@ + formula@),
        final (state).pending_inputs == old(state).pending_inputs,
        final (state).input_counter == old(state).input_counter,
        final (state).program_finished == old(state).program_finished,
        final (state).last_request_time == old(state).last_request_time,
        final (state).has_received_requests == old(state).has_received_requests,
        old(state).wf() ==> final (state).wf(),
{
    let mut line = "LATEX_DISPLAY:".to_owned();
    line.append(formula);
    add_output(state, line);
}

/// Appends the formula in inline mode.
pub fn latex_inline(state: &mut GuiState, formula: &str)
    ensures
        final (state).out() == append_line_spec(old(state).out(), "LATEX_INLINE:"@ + formula@),
        final (state).pending_inputs == old(state).pending_inputs,
        final (state).input_counter == old(state).input_counter,
        final (state).program_finished == old(state).program_finished,
        final (state).last_request_time == old(state).last_request_time,
        final (state).has_received_requests == old(state).has_received_requests,
        old(state).wf() ==> final (state).wf(),
{
    let mut line = "LATEX_INLINE:".to_owned();
    line.append(formula);
    add_output(state, line);
}

} // verus!
