//! The single shared session record: ordered output lines, outstanding input
//! requests, the request counter, the finished flag and the activity
//! timestamps, together with the operations that the gateway, the printing
//! layer and the worker use. Each operation states exactly how it changes the
//! record; the well-formedness invariant ties every pending request to its
//! unique id and to the transcript line that announced it.

use vstd::prelude::*;

use crate::strutil::{
    dec_digits, is_prefix, lemma_dec_digits_injective, lemma_prefix_extend, lemma_prefix_refl,
    lemma_prefix_trans, str_eq, string_from_chars, usize_to_dec_chars,
};

verus! {

/// The request id built from counter value `k`.
pub open spec fn id_chars(k: nat) -> Seq<char> {
    "input_"@ + dec_digits(k)
}

/// The fixed head of the transcript line announcing a request: everything up
/// to and including the colon before the prompt.
pub open spec fn request_prefix(id: Seq<char>) -> Seq<char> {
    "INPUT_REQUEST:"@ + id + ":"@
}

/// The full transcript line announcing a request.
pub open spec fn request_line(id: Seq<char>, prompt: Seq<char>) -> Seq<char> {
    request_prefix(id) + prompt
}

pub proof fn lemma_id_chars_injective(a: nat, b: nat)
    requires
        id_chars(a) == id_chars(b),
    ensures
        a == b,
{
    let p = "input_"@;
    assert(dec_digits(a) =~= id_chars(a).subrange(p.len() as int, id_chars(a).len() as int));
    assert(dec_digits(b) =~= id_chars(b).subrange(p.len() as int, id_chars(b).len() as int));
    lemma_dec_digits_injective(a, b);
}

/// One outstanding input request: its id string, the counter value the id was
/// built from, and the expected-type tag used by the validation endpoint.
pub struct PendingInput {
    pub id: String,
    pub num: usize,
    pub type_tag: String,
}

/// Index of the first pending entry whose id reads `id`, or `p.len()`.
pub open spec fn find_pending(p: Seq<PendingInput>, id: Seq<char>) -> int
    decreases p.len(),
{
    if p.len() == 0 {
        0
    } else if p[0].id@ == id {
        0
    } else {
        1 + find_pending(p.drop_first(), id)
    }
}

/// Some pending entry carries the id `id`.
pub open spec fn pending_has(p: Seq<PendingInput>, id: Seq<char>) -> bool {
    find_pending(p, id) < p.len()
}

pub proof fn lemma_find_pending(p: Seq<PendingInput>, id: Seq<char>)
    ensures
        0 <= find_pending(p, id) <= p.len(),
        find_pending(p, id) < p.len() ==> p[find_pending(p, id)].id@ == id,
        forall|k: int| 0 <= k < find_pending(p, id) ==> p[k].id@ != id,
    decreases p.len(),
{
    if p.len() > 0 && p[0].id@ != id {
        lemma_find_pending(p.drop_first(), id);
        assert(forall|k: int|
            0 <= k < find_pending(p.drop_first(), id) ==> p.drop_first()[k].id@ != id);
        assert forall|k: int| 0 <= k < find_pending(p, id) implies p[k].id@ != id by {
            if k > 0 {
                assert(p.drop_first()[k - 1] == p[k]);
            }
        }
    }
}

pub proof fn lemma_find_pending_is(p: Seq<PendingInput>, id: Seq<char>, j: int)
    requires
        0 <= j <= p.len(),
        forall|k: int| 0 <= k < j ==> p[k].id@ != id,
        j < p.len() ==> p[j].id@ == id,
    ensures
        find_pending(p, id) == j,
    decreases p.len(),
{
    if p.len() > 0 && p[0].id@ != id {
        assert(j > 0);
        lemma_find_pending_is(p.drop_first(), id, j - 1);
    }
}

/// Some transcript line announces the request `id`: it begins with
/// `INPUT_REQUEST:<id>:`.
pub open spec fn has_request_line(out: Seq<Seq<char>>, id: Seq<char>) -> bool {
    exists|i: int| 0 <= i < out.len() && is_prefix(request_prefix(id), #[trigger] out[i])
}

/// A new output line at the end.
pub open spec fn append_line_spec(out: Seq<Seq<char>>, t: Seq<char>) -> Seq<Seq<char>> {
    out.push(t)
}

/// `t` joined onto the most recent output line, or a first line if there is
/// none.
pub open spec fn append_last_spec(out: Seq<Seq<char>>, t: Seq<char>) -> Seq<Seq<char>> {
    if out.len() == 0 {
        seq![t]
    } else {
        out.update(out.len() - 1, out.last() + t)
    }
}

/// The single shared mutable record of one session.
pub struct GuiState {
    pub output_buffer: Vec<String>,
    pub pending_inputs: Vec<PendingInput>,
    pub input_counter: usize,
    pub program_finished: bool,
    pub last_request_time: Option<u64>,
    pub has_received_requests: bool,
}

impl GuiState {
    /// The transcript as a sequence of character sequences.
    pub open spec fn out(&self) -> Seq<Seq<char>> {
        self.output_buffer.deep_view()
    }

    /// Every pending entry's id was built from its counter value, counter
    /// values are at most the current counter and strictly increase along the
    /// vector (so ids are unique and never reused), and every pending entry
    /// was announced by a transcript line.
    pub open spec fn wf(&self) -> bool {
        let p = self.pending_inputs@;
        &&& (forall|j: int|
            0 <= j < p.len() ==> (#[trigger] p[j]).id@ == id_chars(p[j].num as nat))
        &&& (forall|j: int|
            0 <= j < p.len() ==> 1 <= (#[trigger] p[j]).num && p[j].num <= self.input_counter)
        &&& (forall|j: int, k: int|
            0 <= j < k < p.len() ==> (#[trigger] p[j]).num < (#[trigger] p[k]).num)
        &&& (forall|j: int|
            0 <= j < p.len() ==> has_request_line(self.out(), (#[trigger] p[j]).id@))
    }

    /// A fresh session: no output, no pending requests, counter at zero, not
    /// finished, no activity seen.
    pub fn new() -> (s: Self)
        ensures
            s.out() =~= Seq::<Seq<char>>::empty(),
            s.pending_inputs@ =~= Seq::<PendingInput>::empty(),
            s.input_counter == 0,
            !s.program_finished,
            s.last_request_time is None,
            !s.has_received_requests,
            s.wf(),
    {
        GuiState {
            output_buffer: Vec::new(),
            pending_inputs: Vec::new(),
            input_counter: 0,
            program_finished: false,
            last_request_time: None,
            has_received_requests: false,
        }
    }
}

/// In a well-formed session, distinct pending entries carry distinct ids.
pub proof fn lemma_wf_ids_distinct(s: &GuiState)
    requires
        s.wf(),
    ensures
        forall|j: int, k: int|
            0 <= j < k < s.pending_inputs@.len() ==> (#[trigger] s.pending_inputs@[j]).id@ != (
            #[trigger] s.pending_inputs@[k]).id@,
{
    let p = s.pending_inputs@;
    assert forall|j: int, k: int| 0 <= j < k < p.len() implies (#[trigger] p[j]).id@ != (
    #[trigger] p[k]).id@ by {
        if p[j].id@ == p[k].id@ {
            lemma_id_chars_injective(p[j].num as nat, p[k].num as nat);
        }
    }
}

/// Pushes a new output entry.
pub fn add_output_new_line(state: &mut GuiState, text: String)
    ensures
        final (state).out() == append_line_spec(old(state).out(), text@),
        final (state).pending_inputs == old(state).pending_inputs,
        final (state).input_counter == old(state).input_counter,
        final (state).program_finished == old(state).program_finished,
        final (state).last_request_time == old(state).last_request_time,
        final (state).has_received_requests == old(state).has_received_requests,
        old(state).wf() ==> final (state).wf(),
{
    let ghost pre = *state;
    state.output_buffer.push(text);
    proof {
        assert(state.out() =~= append_line_spec(pre.out(), text@));
        if pre.wf() {
            assert forall|j: int| 0 <= j < state.pending_inputs@.len() implies has_request_line(
                state.out(),
                (#[trigger] state.pending_inputs@[j]).id@,
            ) by {
                let id = state.pending_inputs@[j].id@;
                let i = choose|i: int|
                    0 <= i < pre.out().len() && is_prefix(request_prefix(id), #[trigger] pre.out()[i]);
                assert(is_prefix(request_prefix(id), state.out()[i]));
            }
        }
    }
}

/// Concatenates onto the most recent output entry, or starts a new entry if
/// the transcript is empty.
pub fn add_output_same_line(state: &mut GuiState, text: String)
    ensures
        final (state).out() == append_last_spec(old(state).out(), text@),
        final (state).pending_inputs == old(state).pending_inputs,
        final (state).input_counter == old(state).input_counter,
        final (state).program_finished == old(state).program_finished,
        final (state).last_request_time == old(state).last_request_time,
        final (state).has_received_requests == old(state).has_received_requests,
        old(state).wf() ==> final (state).wf(),
{
    let ghost pre = *state;
    let popped = state.output_buffer.pop();
    match popped {
        Some(mut last) => {
            last.append(text.as_str());
            state.output_buffer.push(last);
            proof {
                assert(state.out() =~= append_last_spec(pre.out(), text@));
            }
        },
        None => {
            state.output_buffer.push(text);
            proof {
                assert(state.out() =~= append_last_spec(pre.out(), text@));
            }
        },
    }
    proof {
        if pre.wf() {
            assert forall|j: int| 0 <= j < state.pending_inputs@.len() implies has_request_line(
                state.out(),
                (#[trigger] state.pending_inputs@[j]).id@,
            ) by {
                let id = state.pending_inputs@[j].id@;
                let i = choose|i: int|
                    0 <= i < pre.out().len() && is_prefix(request_prefix(id), #[trigger] pre.out()[i]);
                if i == pre.out().len() - 1 {
                    lemma_prefix_extend(request_prefix(id), pre.out()[i], text@);
                    assert(is_prefix(request_prefix(id), state.out()[i]));
                } else {
                    assert(is_prefix(request_prefix(id), state.out()[i]));
                }
            }
        }
    }
}

/// Pushes a new output entry.
pub fn add_output(state: &mut GuiState, text: String)
    ensures
        final (state).out() == append_line_spec(old(state).out(), text@),
        final (state).pending_inputs == old(state).pending_inputs,
        final (state).input_counter == old(state).input_counter,
        final (state).program_finished == old(state).program_finished,
        final (state).last_request_time == old(state).last_request_time,
        final (state).has_received_requests == old(state).has_received_requests,
        old(state).wf() ==> final (state).wf(),
{
    add_output_new_line(state, text);
}

} // verus!

verus! {

/// Increments the counter, builds the fresh id `input_<counter>`, stores the
/// request under that id with its expected-type tag, and appends the
/// `INPUT_REQUEST:<id>:<prompt>` transcript line. Returns the id; the caller
/// blocks elsewhere for the answer.
pub fn create_input_request_typed(state: &mut GuiState, prompt: &str, type_tag: &str) -> (id:
    String)
    requires
        old(state).wf(),
        old(state).input_counter < usize::MAX,
    ensures
        final (state).wf(),
        final (state).input_counter == old(state).input_counter + 1,
        id@ == id_chars((old(state).input_counter + 1) as nat),
        !pending_has(old(state).pending_inputs@, id@),
        final (state).pending_inputs@.len() == old(state).pending_inputs@.len() + 1,
        final (state).pending_inputs@.drop_last() == old(state).pending_inputs@,
        final (state).pending_inputs@.last().id@ == id@,
        final (state).pending_inputs@.last().num == old(state).input_counter + 1,
        final (state).pending_inputs@.last().type_tag@ == type_tag@,
        final (state).out() == append_line_spec(old(state).out(), request_line(id@, prompt@)),
        final (state).program_finished == old(state).program_finished,
        final (state).last_request_time == old(state).last_request_time,
        final (state).has_received_requests == old(state).has_received_requests,
{
    let ghost pre = *state;
    let next = state.input_counter + 1;
    state.input_counter = next;
    let digits = usize_to_dec_chars(next);
    let digits_str = string_from_chars(digits.as_slice());
    let mut id = "input_".to_owned();
    id.append(digits_str.as_str());
    let mut line = "INPUT_REQUEST:".to_owned();
    line.append(id.as_str());
    line.append(":");
    line.append(prompt);
    let entry = PendingInput { id: id.clone(), num: next, type_tag: type_tag.to_owned() };
    state.pending_inputs.push(entry);
    state.output_buffer.push(line);
    proof {
        assert(id@ =~= id_chars(next as nat));
        assert(line@ =~= request_line(id@, prompt@));
        assert(state.out() =~= append_line_spec(pre.out(), request_line(id@, prompt@)));
        assert(state.pending_inputs@.drop_last() =~= pre.pending_inputs@);
        // the fresh id differs from every pending id: their counter values
        // are all at most the old counter
        let p = pre.pending_inputs@;
        lemma_find_pending(p, id@);
        if find_pending(p, id@) < p.len() {
            let f = find_pending(p, id@);
            lemma_id_chars_injective(p[f].num as nat, next as nat);
        }
        // well-formedness: the new entry is announced by the line just pushed
        assert forall|j: int| 0 <= j < state.pending_inputs@.len() implies has_request_line(
            state.out(),
            (#[trigger] state.pending_inputs@[j]).id@,
        ) by {
            if j < p.len() {
                let eid = state.pending_inputs@[j].id@;
                assert(p[j].id@ == eid);
                let i = choose|i: int|
                    0 <= i < pre.out().len() && is_prefix(request_prefix(eid), #[trigger] pre.out()[i]);
                assert(is_prefix(request_prefix(eid), state.out()[i]));
            } else {
                let w = state.out().len() - 1;
                assert(request_prefix(id@) =~= state.out()[w].subrange(
                    0,
                    request_prefix(id@).len() as int,
                ));
                assert(is_prefix(request_prefix(id@), state.out()[w]));
            }
        }
    }
    id
}

/// A request with no expected type: free-text input.
pub fn create_input_request(state: &mut GuiState, prompt: &str) -> (id: String)
    requires
        old(state).wf(),
        old(state).input_counter < usize::MAX,
    ensures
        final (state).wf(),
        final (state).input_counter == old(state).input_counter + 1,
        id@ == id_chars((old(state).input_counter + 1) as nat),
        !pending_has(old(state).pending_inputs@, id@),
        final (state).pending_inputs@.len() == old(state).pending_inputs@.len() + 1,
        final (state).pending_inputs@.drop_last() == old(state).pending_inputs@,
        final (state).pending_inputs@.last().id@ == id@,
        final (state).pending_inputs@.last().num == old(state).input_counter + 1,
        final (state).pending_inputs@.last().type_tag@ == "String"@,
        final (state).out() == append_line_spec(old(state).out(), request_line(id@, prompt@)),
        final (state).program_finished == old(state).program_finished,
        final (state).last_request_time == old(state).last_request_time,
        final (state).has_received_requests == old(state).has_received_requests,
{
    create_input_request_typed(state, prompt, "String")
}

/// If `id` is pending: removes it, appends the submitted value as a plain
/// transcript line (so the interaction is visible to pollers) and returns
/// true, and the caller then delivers the value to the blocked reader.
/// Otherwise — an unknown, late or duplicate submission — a no-op that
/// returns false.
pub fn submit_response(state: &mut GuiState, id: &str, value: String) -> (r: bool)
    requires
        old(state).wf(),
    ensures
        final (state).wf(),
        r == pending_has(old(state).pending_inputs@, id@),
        !r ==> *final (state) == *old(state),
        r ==> ({
            let p = old(state).pending_inputs@;
            &&& final (state).pending_inputs@ == p.remove(find_pending(p, id@))
            &&& final (state).out() == append_line_spec(old(state).out(), value@)
            &&& final (state).input_counter == old(state).input_counter
            &&& final (state).program_finished == old(state).program_finished
            &&& final (state).last_request_time == old(state).last_request_time
            &&& final (state).has_received_requests == old(state).has_received_requests
        }),
{
    let mut j: usize = 0;
    let n = state.pending_inputs.len();
    while j < n
        invariant
            *state == *old(state),
            old(state).wf(),
            n == old(state).pending_inputs@.len(),
            0 <= j <= n,
            forall|k: int| 0 <= k < j ==> old(state).pending_inputs@[k].id@ != id@,
        decreases n - j,
    {
        let ghost pre = *old(state);
        let ghost p = pre.pending_inputs@;
        let matches_id = {
            let e = &state.pending_inputs[j];
            str_eq(e.id.as_str(), id)
        };
        if matches_id {
            proof {
                lemma_find_pending_is(p, id@, j as int);
            }
            state.pending_inputs.remove(j);
            state.output_buffer.push(value);
            proof {
                assert(state.out() =~= append_line_spec(pre.out(), value@));
                // the remaining entries keep all well-formedness clauses
                let q = state.pending_inputs@;
                assert forall|a: int| 0 <= a < q.len() implies has_request_line(
                    state.out(),
                    (#[trigger] q[a]).id@,
                ) by {
                    let src = if a < j { a } else { a + 1 };
                    assert(q[a] == p[src]);
                    let eid = q[a].id@;
                    let i = choose|i: int|
                        0 <= i < pre.out().len() && is_prefix(request_prefix(eid), #[trigger] pre.out()[i]);
                    assert(is_prefix(request_prefix(eid), state.out()[i]));
                }
                assert forall|a: int, b: int| 0 <= a < b < q.len() implies (#[trigger] q[a]).num < (
                #[trigger] q[b]).num by {
                    let sa = if a < j { a } else { a + 1 };
                    let sb = if b < j { b } else { b + 1 };
                    assert(q[a] == p[sa] && q[b] == p[sb]);
                }
            }
            return true;
        }
        j = j + 1;
    }
    proof {
        let p = old(state).pending_inputs@;
        lemma_find_pending_is(p, id@, p.len() as int);
    }
    false
}

/// Marks the worker as done; set exactly once, never reset.
pub fn mark_finished(state: &mut GuiState)
    ensures
        final (state).program_finished,
        final (state).output_buffer == old(state).output_buffer,
        final (state).pending_inputs == old(state).pending_inputs,
        final (state).input_counter == old(state).input_counter,
        final (state).last_request_time == old(state).last_request_time,
        final (state).has_received_requests == old(state).has_received_requests,
        old(state).wf() ==> final (state).wf(),
{
    state.program_finished = true;
}

/// Records an inbound request at `now_ms` (milliseconds of the caller's
/// clock).
pub fn touch_activity(state: &mut GuiState, now_ms: u64)
    ensures
        final (state).last_request_time == Some(now_ms),
        final (state).has_received_requests,
        final (state).output_buffer == old(state).output_buffer,
        final (state).pending_inputs == old(state).pending_inputs,
        final (state).input_counter == old(state).input_counter,
        final (state).program_finished == old(state).program_finished,
        old(state).wf() ==> final (state).wf(),
{
    state.last_request_time = Some(now_ms);
    state.has_received_requests = true;
}

/// The ids of the pending entries, in creation order.
pub open spec fn ids_view(p: Seq<PendingInput>) -> Seq<Seq<char>> {
    p.map_values(|e: PendingInput| e.id@)
}

/// A read-only, consistent point-in-time copy for the polling endpoint.
pub struct Snapshot {
    pub output: Vec<String>,
    pub pending_ids: Vec<String>,
    pub finished: bool,
}

/// Copies the transcript, the outstanding request ids and the finished flag.
pub fn snapshot(state: &GuiState) -> (snap: Snapshot)
    ensures
        snap.output.deep_view() == state.out(),
        snap.pending_ids.deep_view() == ids_view(state.pending_inputs@),
        snap.finished == state.program_finished,
{
    let mut output: Vec<String> = Vec::new();
    let mut i: usize = 0;
    let n = state.output_buffer.len();
    while i < n
        invariant
            n == state.output_buffer@.len(),
            0 <= i <= n,
            output@.len() == i,
            forall|k: int| 0 <= k < i ==> (#[trigger] output@[k])@ == state.output_buffer@[k]@,
        decreases n - i,
    {
        output.push(state.output_buffer[i].clone());
        i = i + 1;
    }
    let mut pending_ids: Vec<String> = Vec::new();
    let mut j: usize = 0;
    let m = state.pending_inputs.len();
    while j < m
        invariant
            m == state.pending_inputs@.len(),
            0 <= j <= m,
            pending_ids@.len() == j,
            forall|k: int|
                0 <= k < j ==> (#[trigger] pending_ids@[k])@ == state.pending_inputs@[k].id@,
        decreases m - j,
    {
        pending_ids.push(state.pending_inputs[j].id.clone());
        j = j + 1;
    }
    proof {
        assert forall|k: int| 0 <= k < n implies output.deep_view()[k] == state.out()[k] by {
            assert(output.deep_view()[k] == output@[k]@);
            assert(state.out()[k] == state.output_buffer@[k]@);
        }
        assert(output.deep_view() =~= state.out());
        assert forall|k: int| 0 <= k < m implies pending_ids.deep_view()[k] == ids_view(
            state.pending_inputs@,
        )[k] by {
            assert(pending_ids.deep_view()[k] == pending_ids@[k]@);
            assert(ids_view(state.pending_inputs@)[k] == state.pending_inputs@[k].id@);
        }
        assert(pending_ids.deep_view() =~= ids_view(state.pending_inputs@));
    }
    Snapshot { output, pending_ids, finished: state.program_finished }
}

/// The expected-type tag stored for `id`, if `id` is pending.
pub fn lookup_type_tag(state: &GuiState, id: &str) -> (r: Option<String>)
    ensures
        ({
            let p = state.pending_inputs@;
            match r {
                Some(t) => find_pending(p, id@) < p.len() && t@ == p[find_pending(p, id@)].type_tag@,
                None => !pending_has(p, id@),
            }
        }),
{
    let ghost p = state.pending_inputs@;
    let mut j: usize = 0;
    let n = state.pending_inputs.len();
    while j < n
        invariant
            n == p.len(),
            p == state.pending_inputs@,
            0 <= j <= n,
            forall|k: int| 0 <= k < j ==> p[k].id@ != id@,
        decreases n - j,
    {
        let e = &state.pending_inputs[j];
        if str_eq(e.id.as_str(), id) {
            proof {
                lemma_find_pending_is(p, id@, j as int);
            }
            return Some(e.type_tag.clone());
        }
        j = j + 1;
    }
    proof {
        lemma_find_pending_is(p, id@, p.len() as int);
    }
    None
}

// ------------------------------------------------------------------
// Laws of the session record.
// ------------------------------------------------------------------

/// Appending a new line keeps every existing line, in order, and places the
/// new text last: pollers observe lines in append order.
pub proof fn lemma_append_line_keeps_order(out: Seq<Seq<char>>, t: Seq<char>)
    ensures
        append_line_spec(out, t).len() == out.len() + 1,
        append_line_spec(out, t).subrange(0, out.len() as int) == out,
        append_line_spec(out, t).last() == t,
{
    assert(append_line_spec(out, t).subrange(0, out.len() as int) =~= out);
}

/// Appending to the last line modifies exactly the most recently appended
/// element: no line is added or removed, every earlier line is unchanged,
/// and the last line grows by exactly the appended text.
pub proof fn lemma_append_to_last_touches_only_last(out: Seq<Seq<char>>, t: Seq<char>)
    requires
        out.len() > 0,
    ensures
        append_last_spec(out, t).len() == out.len(),
        append_last_spec(out, t).last() == out.last() + t,
        forall|i: int| 0 <= i < out.len() - 1 ==> append_last_spec(out, t)[i] == out[i],
{
}

/// Distinct counter values always render to distinct request ids, so two
/// creations — the counter strictly increases — never hand out the same id.
pub proof fn lemma_create_ids_distinct(c0: nat, c1: nat)
    requires
        c0 != c1,
    ensures
        id_chars(c0) != id_chars(c1),
{
    if id_chars(c0) == id_chars(c1) {
        lemma_id_chars_injective(c0, c1);
    }
}

/// Once a successful submission has removed the entry for `id`, no pending
/// entry carries `id` any more; by `submit_response`'s contract a second
/// submission for the same id therefore returns false and leaves the session
/// unchanged.
pub proof fn lemma_second_submission_is_noop(pre: GuiState, id: Seq<char>)
    requires
        pre.wf(),
        pending_has(pre.pending_inputs@, id),
    ensures
        !pending_has(pre.pending_inputs@.remove(find_pending(pre.pending_inputs@, id)), id),
{
    let p = pre.pending_inputs@;
    let j = find_pending(p, id);
    lemma_find_pending(p, id);
    lemma_wf_ids_distinct(&pre);
    let q = p.remove(j);
    assert forall|k: int| 0 <= k < q.len() implies q[k].id@ != id by {
        let src = if k < j { k } else { k + 1 };
        assert(q[k] == p[src]);
        if p[src].id@ == id {
            lemma_id_chars_injective(p[src].num as nat, p[j].num as nat);
            assert(p[src].num == p[j].num);
        }
    }
    lemma_find_pending_is(q, id, q.len() as int);
}

} // verus!

verus! {

/// One transcript operation: a new line, or text joined onto the last line.
pub enum AppendOp {
    Line(Seq<char>),
    ToLast(Seq<char>),
}

pub open spec fn apply_append(out: Seq<Seq<char>>, op: AppendOp) -> Seq<Seq<char>> {
    match op {
        AppendOp::Line(t) => append_line_spec(out, t),
        AppendOp::ToLast(t) => append_last_spec(out, t),
    }
}

/// The transcript after a whole sequence of append operations.
pub open spec fn apply_appends(out: Seq<Seq<char>>, ops: Seq<AppendOp>) -> Seq<Seq<char>>
    decreases ops.len(),
{
    if ops.len() == 0 {
        out
    } else {
        apply_appends(apply_append(out, ops[0]), ops.drop_first())
    }
}

/// Under every sequence of append operations the transcript only grows at its
/// end: no line is removed or reordered, every line but the most recent one
/// is never touched again, and the most recent line is only ever extended —
/// so a snapshot always shows the lines in append order.
pub proof fn lemma_appends_only_extend(out: Seq<Seq<char>>, ops: Seq<AppendOp>)
    ensures
        apply_appends(out, ops).len() >= out.len(),
        forall|i: int| 0 <= i < out.len() - 1 ==> #[trigger] apply_appends(out, ops)[i] == out[i],
        out.len() > 0 ==> is_prefix(out.last(), apply_appends(out, ops)[out.len() - 1]),
    decreases ops.len(),
{
    if ops.len() == 0 {
        if out.len() > 0 {
            lemma_prefix_refl(out.last());
        }
    } else {
        let out1 = apply_append(out, ops[0]);
        lemma_appends_only_extend(out1, ops.drop_first());
        assert(apply_appends(out, ops) == apply_appends(out1, ops.drop_first()));
        if out.len() > 0 {
            let last = out.len() - 1;
            match ops[0] {
                AppendOp::Line(t) => {
                    assert(out1[last] == out[last]);
                    if last < out1.len() - 1 {
                        assert(apply_appends(out1, ops.drop_first())[last] == out1[last]);
                        lemma_prefix_refl(out.last());
                    }
                },
                AppendOp::ToLast(t) => {
                    assert(out1[last] == out.last() + t);
                    lemma_prefix_refl(out.last());
                    lemma_prefix_extend(out.last(), out.last(), t);
                    assert(is_prefix(out.last(), out1[last]));
                    if last < out1.len() - 1 {
                        assert(apply_appends(out1, ops.drop_first())[last] == out1[last]);
                    } else {
                        lemma_prefix_trans(
                            out.last(),
                            out1[last],
                            apply_appends(out1, ops.drop_first())[last],
                        );
                    }
                },
            }
        }
    }
}

} // verus!
