//! The streaming controller: it gathers the deltas of an answer, commits its
//! lines one per tick, and ends the write cycle once finalization was asked
//! for and every line is committed.

use crate::text::{
    after_first_line, append, first_line, lemma_line_end, lemma_line_end_bounds, line_end, lines,
    split_lines, string_of, texts, to_chars,
};
use vstd::prelude::*;

verus! {

/// The controller of the answer stream.
#[derive(Debug)]
pub struct StreamController {
    /// Whether a write cycle is active.
    pub active: bool,
    /// Whether finalization was asked for in this write cycle.
    pub finalizing: bool,
    /// Whether a blank line follows the last line of this write cycle.
    pub separator: bool,
    /// The text of the answer so far.
    pub text: Vec<char>,
    /// How many lines of the text are committed.
    pub committed: usize,
    /// The status header that was last taken from the reasoning text.
    pub header: Option<String>,
}

/// The mathematical value of a controller.
pub ghost struct StreamView {
    pub active: bool,
    pub finalizing: bool,
    pub separator: bool,
    pub text: Seq<char>,
    pub committed: nat,
    pub header: Option<Seq<char>>,
}

impl View for StreamController {
    type V = StreamView;

    open spec fn view(&self) -> StreamView {
        StreamView {
            active: self.active,
            finalizing: self.finalizing,
            separator: self.separator,
            text: self.text@,
            committed: self.committed as nat,
            header: match self.header {
                Some(h) => Some(h@),
                None => None,
            },
        }
    }
}

/// The controller between write cycles, with the header it has.
pub open spec fn idle(header: Option<Seq<char>>) -> StreamView {
    StreamView {
        active: false,
        finalizing: false,
        separator: false,
        text: Seq::empty(),
        committed: 0,
        header,
    }
}

/// How many lines of a text a line feed ends.
pub open spec fn complete_lines(text: Seq<char>) -> nat {
    if text.len() > 0 && text.last() != '\n' {
        (lines(text).len() - 1) as nat
    } else {
        lines(text).len()
    }
}

/// How many lines may be committed: the complete ones or, once finalization
/// was asked for, all.
pub open spec fn ready(s: StreamView) -> nat {
    if s.finalizing {
        lines(s.text).len()
    } else {
        complete_lines(s.text)
    }
}

/// What a controller does and gives: its next state, the lines it commits,
/// and whether the write cycle ended.
pub ghost struct Outcome {
    pub state: StreamView,
    pub lines: Seq<Seq<char>>,
    pub finished: bool,
}

/// Ends the write cycle where finalization was asked for and every line is
/// committed; the blank line follows where one was asked for.
pub open spec fn settled(s: StreamView) -> Outcome {
    if s.active && s.finalizing && s.committed >= ready(s) {
        Outcome {
            state: idle(s.header),
            lines: if s.separator {
                seq![Seq::<char>::empty()]
            } else {
                Seq::empty()
            },
            finished: true,
        }
    } else {
        Outcome { state: s, lines: Seq::empty(), finished: false }
    }
}

/// `begin`: a write cycle is active.
pub open spec fn begun(s: StreamView) -> StreamView {
    if s.active {
        s
    } else {
        StreamView { active: true, ..idle(s.header) }
    }
}

/// `push_and_maybe_commit`: the delta follows the text of an active cycle.
pub open spec fn pushed(s: StreamView, delta: Seq<char>) -> StreamView {
    if s.active {
        StreamView { text: s.text + delta, ..s }
    } else {
        s
    }
}

/// `on_commit_tick`: commits the next line that may be committed, then ends
/// the cycle where it is due.
pub open spec fn ticked(s: StreamView) -> Outcome {
    if !s.active {
        Outcome { state: s, lines: Seq::empty(), finished: false }
    } else if s.committed < ready(s) {
        let end = settled(StreamView { committed: s.committed + 1, ..s });
        Outcome {
            state: end.state,
            lines: seq![lines(s.text)[s.committed as int]] + end.lines,
            finished: end.finished,
        }
    } else {
        settled(s)
    }
}

/// `finalize`: asks an active cycle to end, then ends it where it is due.
pub open spec fn finalized(s: StreamView, with_trailing_separator: bool) -> Outcome {
    if !s.active {
        Outcome { state: s, lines: Seq::empty(), finished: false }
    } else {
        settled(
            StreamView {
                finalizing: true,
                separator: s.separator || with_trailing_separator,
                ..s
            },
        )
    }
}

/// `apply_final_answer`: the final text takes the place of the text so far,
/// the lines already committed stay committed, and the cycle is asked to end.
pub open spec fn final_applied(s: StreamView, text: Seq<char>) -> Outcome {
    settled(StreamView { text, finalizing: true, ..begun(s) })
}

/// The phases of the controller.
#[derive(Clone, Copy, Debug, PartialEq, Eq, Structural)]
pub enum Phase {
    /// No write cycle is active.
    Idle,
    /// The answer streams.
    Streaming,
    /// The answer is complete, and the lines that are left go out.
    Finalizing,
}

/// The phase that a controller is in.
pub open spec fn phase_of(s: StreamView) -> Phase {
    if !s.active {
        Phase::Idle
    } else if s.finalizing {
        Phase::Finalizing
    } else {
        Phase::Streaming
    }
}

/// The controller goes from phase to phase as follows. `begin` leads from
/// idle to streaming and changes no other phase. A delta changes no phase.
/// Asking for the end leads from streaming to finalizing, or to idle at once
/// where no line is left, and a tick while streaming stays there. From
/// finalizing the only way leads to idle, and it is taken exactly where the
/// cycle finishes.
pub proof fn lemma_phases(s: StreamView, delta: Seq<char>, with_trailing_separator: bool)
    ensures
        phase_of(begun(s)) == if phase_of(s) == Phase::Idle {
            Phase::Streaming
        } else {
            phase_of(s)
        },
        phase_of(pushed(s, delta)) == phase_of(s),
        phase_of(s) == Phase::Idle ==> ticked(s).state == s && finalized(
            s,
            with_trailing_separator,
        ).state == s,
        phase_of(s) == Phase::Streaming ==> phase_of(ticked(s).state) == Phase::Streaming
            && !ticked(s).finished,
        phase_of(s) != Phase::Idle ==> phase_of(finalized(s, with_trailing_separator).state)
            == if finalized(s, with_trailing_separator).finished {
            Phase::Idle
        } else {
            Phase::Finalizing
        },
        phase_of(s) == Phase::Finalizing ==> phase_of(ticked(s).state) == if ticked(s).finished {
            Phase::Idle
        } else {
            Phase::Finalizing
        },
        phase_of(idle(s.header)) == Phase::Idle,
{
}

/// A text that is not empty has a line.
pub proof fn lemma_lines_nonempty(text: Seq<char>)
    ensures
        text.len() > 0 ==> lines(text).len() >= 1,
        text.len() == 0 ==> lines(text).len() == 0,
{
}

impl StreamController {
    /// A controller between write cycles, without a header.
    pub fn new() -> (c: StreamController)
        ensures
            c@ == idle(None),
    {
        StreamController {
            active: false,
            finalizing: false,
            separator: false,
            text: Vec::new(),
            committed: 0,
            header: None,
        }
    }

    /// Whether a write cycle is active.
    pub fn is_write_cycle_active(&self) -> (r: bool)
        ensures
            r == self@.active,
    {
        self.active
    }

    /// The phase that the controller is in.
    pub fn phase(&self) -> (r: Phase)
        ensures
            r == phase_of(self@),
    {
        if !self.active {
            Phase::Idle
        } else if self.finalizing {
            Phase::Finalizing
        } else {
            Phase::Streaming
        }
    }

    /// Marks the write cycle active. Within an active cycle this changes
    /// nothing. Nothing goes to the sink.
    pub fn begin(&mut self, sink: &mut Vec<String>)
        ensures
            final(self)@ == begun(old(self)@),
            *final(sink) == *old(sink),
    {
        if !self.active {
            self.active = true;
            self.finalizing = false;
            self.separator = false;
            self.text = Vec::new();
            self.committed = 0;
        }
    }

    /// Appends a delta to the text of the active cycle. Its lines go to the
    /// sink at the ticks that follow, one line per tick, and none goes there
    /// now.
    pub fn push_and_maybe_commit(&mut self, delta: &str, sink: &mut Vec<String>)
        ensures
            final(self)@ == pushed(old(self)@, delta@),
            *final(sink) == *old(sink),
    {
        if self.active {
            let more = to_chars(delta);
            append(&mut self.text, &more);
        }
    }

    /// How many lines may be committed, and the lines of the text.
    fn ready_lines(&self) -> (r: (usize, Vec<Vec<char>>))
        ensures
            r.0 == ready(self@),
            texts(r.1@) == lines(self@.text),
            r.0 <= r.1@.len(),
    {
        let all = split_lines(&self.text);
        proof {
            lemma_lines_nonempty(self.text@);
        }
        let n = self.text.len();
        let count: usize = if !self.finalizing && n > 0 && self.text[n - 1] != '\n' {
            all.len() - 1
        } else {
            all.len()
        };
        (count, all)
    }

    /// Ends the write cycle where finalization was asked for and every line
    /// is committed.
    fn settle(&mut self, sink: &mut Vec<String>) -> (finished: bool)
        ensures
            final(self)@ == settled(old(self)@).state,
            crate::text::strings(final(sink)@) == crate::text::strings(old(sink)@) + settled(
                old(self)@,
            ).lines,
            finished == settled(old(self)@).finished,
    {
        let ghost before = crate::text::strings(sink@);
        if self.active && self.finalizing {
            let r = self.ready_lines();
            if self.committed >= r.0 {
                if self.separator {
                    sink.push(String::new());
                    assert(crate::text::strings(sink@) =~= before + seq![Seq::<char>::empty()]);
                } else {
                    assert(crate::text::strings(sink@) =~= before + Seq::<Seq<char>>::empty());
                }
                self.active = false;
                self.finalizing = false;
                self.separator = false;
                self.text = Vec::new();
                self.committed = 0;
                return true;
            }
        }
        assert(crate::text::strings(sink@) =~= before + Seq::<Seq<char>>::empty());
        false
    }

    /// Commits at most one line to the sink. The cycle is finished once
    /// finalization was asked for and no line is left.
    pub fn on_commit_tick(&mut self, sink: &mut Vec<String>) -> (finished: bool)
        ensures
            final(self)@ == ticked(old(self)@).state,
            crate::text::strings(final(sink)@) == crate::text::strings(old(sink)@) + ticked(
                old(self)@,
            ).lines,
            finished == ticked(old(self)@).finished,
    {
        let ghost before = crate::text::strings(sink@);
        if !self.active {
            assert(crate::text::strings(sink@) =~= before + Seq::<Seq<char>>::empty());
            return false;
        }
        let r = self.ready_lines();
        if self.committed < r.0 {
            let line = string_of(&r.1[self.committed]);
            assert(line@ == lines(self@.text)[self.committed as int]);
            sink.push(line);
            let ghost mid = crate::text::strings(sink@);
            assert(mid =~= before + seq![lines(old(self)@.text)[old(self).committed as int]]);
            self.committed = self.committed + 1;
            let finished = self.settle(sink);
            assert(crate::text::strings(sink@) =~= before + ticked(old(self)@).lines);
            finished
        } else {
            self.settle(sink)
        }
    }

    /// Asks the active cycle to end; with `with_trailing_separator` a blank
    /// line follows its last line. The cycle is finished at once where no
    /// line is left.
    pub fn finalize(&mut self, with_trailing_separator: bool, sink: &mut Vec<String>) -> (finished:
        bool)
        ensures
            final(self)@ == finalized(old(self)@, with_trailing_separator).state,
            crate::text::strings(final(sink)@) == crate::text::strings(old(sink)@) + finalized(
                old(self)@,
                with_trailing_separator,
            ).lines,
            finished == finalized(old(self)@, with_trailing_separator).finished,
    {
        if !self.active {
            assert(crate::text::strings(sink@) =~= crate::text::strings(sink@) + Seq::<
                Seq<char>,
            >::empty());
            return false;
        }
        self.finalizing = true;
        if with_trailing_separator {
            self.separator = true;
        }
        self.settle(sink)
    }

    /// Puts the final text of the answer in the place of the text so far and
    /// asks the cycle to end. The lines that are committed stay committed.
    pub fn apply_final_answer(&mut self, text: &str, sink: &mut Vec<String>) -> (finished: bool)
        ensures
            final(self)@ == final_applied(old(self)@, text@).state,
            crate::text::strings(final(sink)@) == crate::text::strings(old(sink)@) + final_applied(
                old(self)@,
                text@,
            ).lines,
            finished == final_applied(old(self)@, text@).finished,
    {
        self.begin(sink);
        self.text = to_chars(text);
        self.finalizing = true;
        self.settle(sink)
    }

    /// Forgets the status header, so that the next reasoning block shows its
    /// header again.
    pub fn reset_headers_for_new_turn(&mut self)
        ensures
            final(self)@ == (StreamView { header: None, ..old(self)@ }),
    {
        self.header = None;
    }

    /// Ends the write cycle at once and drops what was not committed.
    pub fn clear_all(&mut self)
        ensures
            final(self)@ == idle(old(self)@.header),
    {
        self.active = false;
        self.finalizing = false;
        self.separator = false;
        self.text = Vec::new();
        self.committed = 0;
    }
}

/// A text whose first line ends with a line feed has one complete line more
/// than what follows that line.
pub proof fn lemma_complete_lines_step(a: Seq<char>)
    requires
        line_end(a) < a.len(),
    ensures
        lines(a) == seq![first_line(a)] + lines(after_first_line(a)),
        complete_lines(a) == 1 + complete_lines(after_first_line(a)),
{
    lemma_line_end_bounds(a);
    let rest = after_first_line(a);
    lemma_lines_nonempty(rest);
    if rest.len() > 0 {
        assert(a.last() == rest.last());
    }
}

/// Text that follows does not change the complete lines of a text: they
/// are the first lines of the longer text too.
pub proof fn lemma_lines_stable(a: Seq<char>, d: Seq<char>)
    ensures
        complete_lines(a) <= complete_lines(a + d),
        complete_lines(a + d) <= lines(a + d).len(),
        forall|i: int| 0 <= i < complete_lines(a) ==> lines(a + d)[i] == lines(a)[i],
    decreases a.len(),
{
    let b = a + d;
    lemma_lines_nonempty(b);
    lemma_lines_nonempty(a);
    if a.len() > 0 {
        lemma_line_end_bounds(a);
        let e = line_end(a);
        if e == a.len() {
            assert(a.last() == a[a.len() - 1]);
            assert(after_first_line(a) =~= Seq::<char>::empty());
            assert(lines(after_first_line(a)).len() == 0);
        } else {
            assert forall|j: int| 0 <= j < e implies b[j] != '\n' by {
                assert(b[j] == a[j]);
            }
            assert(b[e] == a[e]);
            lemma_line_end(b, e);
            let ra = after_first_line(a);
            let rb = after_first_line(b);
            assert(rb =~= ra + d);
            assert(first_line(b) =~= first_line(a)) by {
                if e > 0 {
                    assert(b[e - 1] == a[e - 1]);
                }
            }
            lemma_lines_stable(ra, d);
            lemma_complete_lines_step(a);
            lemma_complete_lines_step(b);
            assert forall|i: int| 0 <= i < complete_lines(a) implies lines(b)[i] == lines(a)[i] by {
                if i > 0 {
                    assert(lines(a)[i] == lines(ra)[i - 1]);
                    assert(lines(b)[i] == lines(rb)[i - 1]);
                }
            }
        }
    }
}

/// What the stream is given while the answer comes: a delta, or a commit
/// tick.
pub ghost enum StreamInput {
    Delta(Seq<char>),
    Tick,
}

/// The controller after the inputs. A delta begins the write cycle where
/// none is active and joins the text.
pub open spec fn streamed_state(s: StreamView, inputs: Seq<StreamInput>) -> StreamView
    decreases inputs.len(),
{
    if inputs.len() == 0 {
        s
    } else {
        let before = streamed_state(s, inputs.drop_last());
        match inputs.last() {
            StreamInput::Delta(d) => pushed(begun(before), d),
            StreamInput::Tick => ticked(before).state,
        }
    }
}

/// The lines that the controller commits at the inputs.
pub open spec fn streamed_lines(s: StreamView, inputs: Seq<StreamInput>) -> Seq<Seq<char>>
    decreases inputs.len(),
{
    if inputs.len() == 0 {
        Seq::empty()
    } else {
        let before = streamed_state(s, inputs.drop_last());
        streamed_lines(s, inputs.drop_last()) + (match inputs.last() {
            StreamInput::Delta(d) => Seq::empty(),
            StreamInput::Tick => ticked(before).lines,
        })
    }
}

/// The deltas among the inputs, one behind the other.
pub open spec fn deltas_of(inputs: Seq<StreamInput>) -> Seq<char>
    decreases inputs.len(),
{
    if inputs.len() == 0 {
        Seq::empty()
    } else {
        deltas_of(inputs.drop_last()) + (match inputs.last() {
            StreamInput::Delta(d) => d,
            StreamInput::Tick => Seq::empty(),
        })
    }
}

/// While the answer comes, the text of the controller is the deltas so
/// far, and the lines committed are the first complete lines of that text.
pub proof fn lemma_streaming(header: Option<Seq<char>>, inputs: Seq<StreamInput>)
    ensures
        ({
            let s = streamed_state(idle(header), inputs);
            let out = streamed_lines(idle(header), inputs);
            &&& s.header == header
            &&& !s.finalizing
            &&& !s.separator
            &&& s.text == deltas_of(inputs)
            &&& s.committed <= complete_lines(s.text)
            &&& out == lines(s.text).take(s.committed as int)
            &&& !s.active ==> s == idle(header)
        }),
    decreases inputs.len(),
{
    let s = streamed_state(idle(header), inputs);
    let out = streamed_lines(idle(header), inputs);
    if inputs.len() == 0 {
        assert(out =~= lines(s.text).take(0));
    } else {
        let earlier = inputs.drop_last();
        lemma_streaming(header, earlier);
        let before = streamed_state(idle(header), earlier);
        let out_before = streamed_lines(idle(header), earlier);
        match inputs.last() {
            StreamInput::Delta(d) => {
                lemma_lines_stable(before.text, d);
                assert(out_before + Seq::<Seq<char>>::empty() =~= out_before);
                assert(lines(before.text + d).take(before.committed as int) =~= lines(
                    before.text,
                ).take(before.committed as int));
                if !before.active {
                    assert(Seq::<char>::empty() + d =~= d);
                }
            },
            StreamInput::Tick => {
                assert(before.text + Seq::<char>::empty() =~= before.text);
                lemma_lines_nonempty(before.text);
                if before.active && before.committed < complete_lines(before.text) {
                    assert(lines(before.text).take(before.committed as int).push(
                        lines(before.text)[before.committed as int],
                    ) =~= lines(before.text).take(before.committed as int + 1));
                    assert(out =~= lines(s.text).take(s.committed as int));
                } else {
                    assert(out_before + Seq::<Seq<char>>::empty() =~= out_before);
                }
            },
        }
    }
}

/// The controller after some commit ticks.
pub open spec fn ticks_state(s: StreamView, ticks: nat) -> StreamView
    decreases ticks,
{
    if ticks == 0 {
        s
    } else {
        ticks_state(ticked(s).state, (ticks - 1) as nat)
    }
}

/// The lines that the controller commits at some commit ticks.
pub open spec fn ticks_lines(s: StreamView, ticks: nat) -> Seq<Seq<char>>
    decreases ticks,
{
    if ticks == 0 {
        Seq::empty()
    } else {
        ticked(s).lines + ticks_lines(ticked(s).state, (ticks - 1) as nat)
    }
}

/// Between write cycles ticks change nothing and commit nothing.
pub proof fn lemma_ticks_idle(s: StreamView, ticks: nat)
    requires
        !s.active,
    ensures
        ticks_state(s, ticks) == s,
        ticks_lines(s, ticks) == Seq::<Seq<char>>::empty(),
    decreases ticks,
{
    if ticks > 0 {
        lemma_ticks_idle(s, (ticks - 1) as nat);
    }
}

/// The blank line that ends a write cycle, where one was asked for.
pub open spec fn separator_lines(separator: bool) -> Seq<Seq<char>> {
    if separator {
        seq![Seq::<char>::empty()]
    } else {
        Seq::empty()
    }
}

/// Once finalization was asked for, enough ticks commit the lines that are
/// left, then the blank line where one was asked for, and the write cycle
/// has ended.
pub proof fn lemma_drain(s: StreamView, ticks: nat)
    requires
        s.active,
        s.finalizing,
        s.committed < lines(s.text).len(),
        ticks >= lines(s.text).len() - s.committed,
    ensures
        ticks_state(s, ticks) == idle(s.header),
        ticks_lines(s, ticks) == lines(s.text).skip(s.committed as int) + separator_lines(
            s.separator,
        ),
    decreases ticks,
{
    let all = lines(s.text);
    let c = s.committed as int;
    let next = StreamView { committed: (s.committed + 1) as nat, ..s };
    if c + 1 >= all.len() {
        lemma_ticks_idle(idle(s.header), (ticks - 1) as nat);
        assert(ticks_lines(s, ticks) =~= all.skip(c) + separator_lines(s.separator));
    } else {
        lemma_drain(next, (ticks - 1) as nat);
        assert(seq![all[c]] + (all.skip(c + 1) + separator_lines(s.separator)) =~= all.skip(c)
            + separator_lines(s.separator));
    }
}

/// While the answer comes, as many lines are committed as the controller
/// counts.
pub proof fn lemma_streamed_count(header: Option<Seq<char>>, inputs: Seq<StreamInput>)
    ensures
        streamed_lines(idle(header), inputs).len() == streamed_state(idle(header), inputs).committed,
{
    lemma_streaming(header, inputs);
    let s = streamed_state(idle(header), inputs);
    lemma_lines_nonempty(s.text);
}

/// Where the deltas begin the final message, the lines committed while
/// they come are the first lines of the final message.
pub proof fn lemma_deltas_begin_final_message(
    header: Option<Seq<char>>,
    inputs: Seq<StreamInput>,
    text: Seq<char>,
)
    requires
        deltas_of(inputs).is_prefix_of(text),
    ensures
        streamed_lines(idle(header), inputs).is_prefix_of(lines(text)),
{
    let streamed = streamed_state(idle(header), inputs);
    let out = streamed_lines(idle(header), inputs);
    lemma_streaming(header, inputs);
    let c = streamed.committed as int;
    let rest = text.skip(streamed.text.len() as int);
    assert(text =~= streamed.text + rest);
    lemma_lines_stable(streamed.text, rest);
    lemma_lines_nonempty(text);
    lemma_lines_nonempty(streamed.text);
    assert(out =~= lines(text).subrange(0, c));
}

/// For any deltas and ticks, followed by the final message and the end of
/// the task, the lines committed are the lines of the final message, where
/// the lines committed before the final message came are its first lines.
/// A blank line follows them where the task ended with
/// `with_trailing_separator` before the last line was committed.
pub proof fn lemma_committed_lines_are_final_lines(
    header: Option<Seq<char>>,
    inputs: Seq<StreamInput>,
    text: Seq<char>,
    with_trailing_separator: bool,
    ticks: nat,
)
    requires
        streamed_lines(idle(header), inputs).is_prefix_of(lines(text)),
        ticks >= lines(text).len(),
    ensures
        ({
            let streamed = streamed_state(idle(header), inputs);
            let applied = final_applied(streamed, text);
            let asked = finalized(applied.state, with_trailing_separator);
            let committed = streamed_lines(idle(header), inputs) + applied.lines + asked.lines
                + ticks_lines(asked.state, ticks);
            &&& ticks_state(asked.state, ticks) == idle(header)
            &&& committed == lines(text) + separator_lines(
                with_trailing_separator && !applied.finished,
            )
        }),
{
    let streamed = streamed_state(idle(header), inputs);
    let out = streamed_lines(idle(header), inputs);
    let applied = final_applied(streamed, text);
    let asked = finalized(applied.state, with_trailing_separator);
    let all = lines(text);
    lemma_streaming(header, inputs);
    lemma_streamed_count(header, inputs);
    let c = streamed.committed as int;
    lemma_lines_nonempty(text);
    assert(out =~= all.take(c));
    if applied.finished {
        lemma_ticks_idle(asked.state, ticks);
        assert(all.take(c) =~= all);
        assert(out + applied.lines + asked.lines + ticks_lines(asked.state, ticks) =~= all
            + separator_lines(false));
    } else {
        lemma_drain(asked.state, ticks);
        assert(out + applied.lines + asked.lines + ticks_lines(asked.state, ticks) =~= all
            + separator_lines(with_trailing_separator)) by {
            assert(all.take(c) + all.skip(c) =~= all);
        }
    }
}

} // verus!
