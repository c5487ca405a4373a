//! Following the output of a container.
//!
//! What the container printed before is fetched first, then its live output is attached to.
//! When the live output ends, the panel tries again: at once, a little later, or quietly every
//! few seconds while there is no container. With each new try the last of the earlier output is
//! fetched again, so that nothing is missed in between.
use vstd::prelude::*;

use crate::docker;
use crate::text;
use crate::text::CharClass;

verus! {

// ── Lines of a chunk ──────────────────────────────────────────────────────

/// The lines that are not mere noise, in their order.
pub open spec fn without_noise(lines: Seq<Seq<char>>) -> Seq<Seq<char>>
    decreases lines.len(),
{
    if lines.len() == 0 {
        Seq::empty()
    } else if docker::is_noise(lines.last()) {
        without_noise(lines.drop_last())
    } else {
        without_noise(lines.drop_last()).push(lines.last())
    }
}

/// The lines of a piece of output: text between line feeds and carriage returns, without white
/// space at its ends, without empty lines and without noise.
pub open spec fn lines_in(output: Seq<char>) -> Seq<Seq<char>> {
    without_noise(
        text::nonempty(text::trimmed_each(text::split_at_class(output, CharClass::LineBreak))),
    )
}

/// The lines of a piece of output.
pub fn console_lines(output: &str) -> (r: Vec<String>)
    ensures
        text::views(r@) == lines_in(output@),
{
    let lines = text::keep_nonempty(&text::trim_each(&text::split(output, CharClass::LineBreak)));
    let ghost all = text::views(lines@);
    let mut out: Vec<String> = Vec::new();
    let mut i: usize = 0;
    proof {
        assert(all.take(0) =~= Seq::<Seq<char>>::empty());
        assert(text::views(out@) =~= without_noise(all.take(0)));
    }
    while i < lines.len()
        invariant
            i <= lines.len(),
            all == text::views(lines@),
            text::views(out@) == without_noise(all.take(i as int)),
        decreases lines.len() - i,
    {
        let ghost before = text::views(out@);
        proof {
            assert(all.take(i + 1).drop_last() =~= all.take(i as int));
            assert(all.take(i + 1).last() == lines@[i as int]@);
        }
        if !docker::is_rcon_noise(lines[i].as_str()) {
            out.push(lines[i].clone());
            proof {
                assert(text::views(out@) =~= before.push(lines@[i as int]@));
            }
        }
        i += 1;
    }
    proof {
        assert(all.take(i as int) =~= all);
    }
    out
}

/// The lines of the answer to a command: text between line feeds, without white space at its
/// ends and without empty lines.
pub open spec fn answer_lines_in(output: Seq<char>) -> Seq<Seq<char>> {
    text::nonempty(text::trimmed_each(text::split_at_class(output, CharClass::Is('\n'))))
}

/// The lines of the answer to a command.
pub fn answer_lines(output: &str) -> (r: Vec<String>)
    ensures
        text::views(r@) == answer_lines_in(output@),
{
    text::keep_nonempty(&text::trim_each(&text::split(output, CharClass::Is('\n'))))
}

// ── One run over the output ───────────────────────────────────────────────

/// How much of the earlier output is fetched.
#[derive(Debug, Clone, Copy, PartialEq, Eq, Structural)]
pub enum Tail {
    /// The last five hundred lines.
    Recent,
    /// Nothing.
    Nothing,
}

impl Tail {
    /// The number of lines as Docker takes it.
    pub open spec fn text(self) -> Seq<char> {
        match self {
            Tail::Recent => "500"@,
            Tail::Nothing => "0"@,
        }
    }

    /// The number of lines as Docker takes it.
    pub fn name(self) -> (r: String)
        ensures
            r@ == self.text(),
    {
        match self {
            Tail::Recent => "500".to_owned(),
            Tail::Nothing => "0".to_owned(),
        }
    }
}

/// What is being read.
#[derive(Debug, Clone, Copy, PartialEq, Eq, Structural)]
pub enum StreamPhase {
    /// What the container printed before.
    History,
    /// What it prints now.
    Live,
}

impl StreamPhase {
    /// What is read first.
    pub fn first(tail: Tail) -> (r: StreamPhase)
        ensures
            r == (if tail == Tail::Nothing {
                StreamPhase::Live
            } else {
                StreamPhase::History
            }),
    {
        match tail {
            Tail::Nothing => StreamPhase::Live,
            Tail::Recent => StreamPhase::History,
        }
    }
}

/// What comes from Docker.
#[derive(Debug)]
pub enum StreamEvent {
    /// Output of the container.
    Output(Vec<u8>),
    /// Something that is no output.
    Other,
    /// An error, and what it says.
    Failed(String),
    /// There is no more.
    Ended,
}

/// What is done about it.
#[derive(Debug)]
pub enum StreamAction {
    /// The lines are put into the console as earlier ones, which record no event.
    TakeHistory(Vec<String>),
    /// The lines are put into the console.
    Take(Vec<String>),
    /// Nothing.
    Skip,
    /// The live output is attached to.
    Attach,
    /// The run is over.
    Finish,
    /// The run is over with that error.
    Fail(String),
}

/// What is done about an event.
pub fn stream_logs_to_buffer(phase: StreamPhase, event: StreamEvent) -> (r: StreamAction)
    ensures
        match (phase, event) {
            (StreamPhase::History, StreamEvent::Output(bytes)) => r matches
                StreamAction::TakeHistory(lines) && text::views(lines@) == lines_in(
                text::utf8_lossy(bytes@),
            ),
            (StreamPhase::Live, StreamEvent::Output(bytes)) => r matches StreamAction::Take(lines)
                && text::views(lines@) == lines_in(text::utf8_lossy(bytes@)),
            (StreamPhase::History, StreamEvent::Ended) => r is Attach,
            (StreamPhase::Live, StreamEvent::Ended) => r is Finish,
            (StreamPhase::Live, StreamEvent::Failed(message)) => r matches StreamAction::Fail(m)
                && m@ == message@,
            (StreamPhase::History, StreamEvent::Failed(_)) => r is Skip,
            (_, StreamEvent::Other) => r is Skip,
        },
{
    match event {
        StreamEvent::Output(bytes) => {
            let lines = console_lines(text::text_of(bytes.as_slice()).as_str());
            match phase {
                StreamPhase::History => StreamAction::TakeHistory(lines),
                StreamPhase::Live => StreamAction::Take(lines),
            }
        },
        StreamEvent::Other => StreamAction::Skip,
        StreamEvent::Failed(message) => match phase {
            StreamPhase::History => StreamAction::Skip,
            StreamPhase::Live => StreamAction::Fail(message),
        },
        StreamEvent::Ended => match phase {
            StreamPhase::History => StreamAction::Attach,
            StreamPhase::Live => StreamAction::Finish,
        },
    }
}

// ── Trying again ──────────────────────────────────────────────────────────

/// Why a run came to its end.
#[derive(Debug, Clone, Copy, PartialEq, Eq, Structural)]
pub enum StreamEnd {
    /// The container stopped.
    Stopped,
    /// There is no container yet.
    NoContainer,
    /// The connection was idle for too long.
    Idle,
    /// The connection was reset, as when the container restarts.
    Reset,
    /// Something else, which is worth a warning where the container is running.
    Unknown,
}

/// Why a run came to its end, by what its error says.
pub open spec fn end_of(error: Option<Seq<char>>) -> StreamEnd {
    match error {
        None => StreamEnd::Stopped,
        Some(m) => if text::has_text(m, "No such container"@) || text::has_text(
            m,
            "no such container"@,
        ) || text::has_text(m, "404"@) {
            StreamEnd::NoContainer
        } else if text::has_text(m, "Timeout"@) || text::has_text(m, "timeout"@)
            || text::has_text(m, "timed out"@) {
            StreamEnd::Idle
        } else if text::has_text(m, "connection reset"@) || text::has_text(m, "broken pipe"@)
            || text::has_text(m, "unexpected end"@) || text::has_text(m, "hyper"@) {
            StreamEnd::Reset
        } else {
            StreamEnd::Unknown
        },
    }
}

/// How the next run begins.
#[derive(Debug, Clone, Copy)]
pub struct NextRun {
    pub end: StreamEnd,
    /// How much of the earlier output it fetches.
    pub tail: Tail,
    /// The seconds until it begins.
    pub wait_secs: u64,
}

/// How the next run begins after one that came to its end.
pub open spec fn next_run(tail: Tail, error: Option<Seq<char>>) -> NextRun {
    let end = end_of(error);
    NextRun {
        end,
        tail: if end == StreamEnd::NoContainer {
            tail
        } else {
            Tail::Recent
        },
        wait_secs: match end {
            StreamEnd::Stopped => 7,
            StreamEnd::NoContainer => 5,
            StreamEnd::Idle => 0,
            StreamEnd::Reset => 2,
            StreamEnd::Unknown => 5,
        },
    }
}

fn end_by(error: Option<&str>) -> (r: StreamEnd)
    ensures
        r == end_of(text::opt_str_view(error)),
{
    match error {
        None => StreamEnd::Stopped,
        Some(m) => {
            if text::contains(m, "No such container") || text::contains(m, "no such container")
                || text::contains(m, "404") {
                StreamEnd::NoContainer
            } else if text::contains(m, "Timeout") || text::contains(m, "timeout")
                || text::contains(m, "timed out") {
                StreamEnd::Idle
            } else if text::contains(m, "connection reset") || text::contains(m, "broken pipe")
                || text::contains(m, "unexpected end") || text::contains(m, "hyper") {
                StreamEnd::Reset
            } else {
                StreamEnd::Unknown
            }
        },
    }
}

/// How the next run begins after one that came to its end, with an error or without.
pub fn pump_logs(tail: Tail, error: Option<&str>) -> (r: NextRun)
    ensures
        r == next_run(tail, text::opt_str_view(error)),
{
    let end = end_by(error);
    match end {
        StreamEnd::Stopped => NextRun { end, tail: Tail::Recent, wait_secs: 7 },
        StreamEnd::NoContainer => NextRun { end, tail, wait_secs: 5 },
        StreamEnd::Idle => NextRun { end, tail: Tail::Recent, wait_secs: 0 },
        StreamEnd::Reset => NextRun { end, tail: Tail::Recent, wait_secs: 2 },
        StreamEnd::Unknown => NextRun { end, tail: Tail::Recent, wait_secs: 5 },
    }
}

/// How much of the earlier output the run after all of these fetches.
pub open spec fn tail_after(tail: Tail, errors: Seq<Option<Seq<char>>>) -> Tail
    decreases errors.len(),
{
    if errors.len() == 0 {
        tail
    } else {
        next_run(tail_after(tail, errors.drop_last()), errors.last()).tail
    }
}

// ── Laws ──────────────────────────────────────────────────────────────────

/// Whatever the runs ended with, the next one fetches the last of the earlier output: always
/// where the first one did, and in any case once a run ended otherwise than for want of a
/// container.
pub proof fn law_reconnect_replays(tail: Tail, errors: Seq<Option<Seq<char>>>)
    requires
        tail == Tail::Recent || exists|k: int|
            0 <= k < errors.len() && end_of(#[trigger] errors[k]) != StreamEnd::NoContainer,
    ensures
        tail_after(tail, errors) == Tail::Recent,
    decreases errors.len(),
{
    if errors.len() > 0 && end_of(errors.last()) == StreamEnd::NoContainer {
        let before = errors.drop_last();
        if tail != Tail::Recent {
            let k = choose|k: int|
                0 <= k < errors.len() && end_of(#[trigger] errors[k]) != StreamEnd::NoContainer;
            assert(before[k] == errors[k]);
        }
        law_reconnect_replays(tail, before);
    }
}

proof fn lemma_without_noise(a: Seq<Seq<char>>, b: Seq<Seq<char>>)
    ensures
        without_noise(a + b) == without_noise(a) + without_noise(b),
    decreases b.len(),
{
    if b.len() == 0 {
        assert(a + b =~= a);
        assert(without_noise(a) + without_noise(b) =~= without_noise(a));
    } else {
        lemma_without_noise(a, b.drop_last());
        assert((a + b).drop_last() =~= a + b.drop_last());
        assert((a + b).last() == b.last());
        assert(without_noise(a + b) =~= without_noise(a) + without_noise(b));
    }
}

/// The lines of output are those before a line break and those behind it, in their order, with
/// nothing between them. Line feeds and carriage returns both break the lines of a console, and
/// line feeds those of an answer.
pub proof fn law_lines_in_order(a: Seq<char>, c: char, b: Seq<char>)
    ensures
        c as u32 == 10 || c as u32 == 13 ==> lines_in(a + seq![c] + b) == lines_in(a) + lines_in(b),
        c as u32 == 10 ==> answer_lines_in(a + seq![c] + b) == answer_lines_in(a)
            + answer_lines_in(b),
{
    assert(a.push(c) + b =~= a + seq![c] + b);
    let none = Seq::<char>::empty();
    if c as u32 == 10 || c as u32 == 13 {
        let class = CharClass::LineBreak;
        text::law_white_space(c);
        text::lemma_split_around(a, c, b, class);
        let (pa, pb) = (text::split_at_class(a, class), text::split_at_class(b, class));
        let (ta, tb) = (text::trimmed_each(pa), text::trimmed_each(pb));
        assert(text::trimmed_each(pa + pb) =~= ta + tb);
        text::law_nonempty(ta, none, tb);
        lemma_without_noise(text::nonempty(ta), text::nonempty(tb));
    }
    if c as u32 == 10 {
        let class = CharClass::Is('\n');
        assert(c == '\n');
        text::lemma_split_around(a, c, b, class);
        let (pa, pb) = (text::split_at_class(a, class), text::split_at_class(b, class));
        let (ta, tb) = (text::trimmed_each(pa), text::trimmed_each(pb));
        assert(text::trimmed_each(pa + pb) =~= ta + tb);
        text::law_nonempty(ta, none, tb);
    }
}

/// A single line is taken as it is, but for white space around it, unless it is noise; of the
/// answer to a command noise is taken too. White space alone is no line.
pub proof fn law_one_line(front: Seq<char>, line: Seq<char>, back: Seq<char>)
    requires
        forall|i: int|
            0 <= i < front.len() ==> text::is_white(#[trigger] front[i]) && front[i] != '\n'
                && front[i] != '\r',
        forall|i: int|
            0 <= i < back.len() ==> text::is_white(#[trigger] back[i]) && back[i] != '\n'
                && back[i] != '\r',
        !line.contains('\n'),
        !line.contains('\r'),
        line.len() > 0 ==> !text::is_white(line[0]) && !text::is_white(line.last()),
    ensures
        ({
            let s = front + line + back;
            &&& line.len() > 0 && !docker::is_noise(line) ==> lines_in(s) == seq![line]
            &&& line.len() > 0 && docker::is_noise(line) ==> lines_in(s).len() == 0
            &&& line.len() == 0 ==> lines_in(s).len() == 0
            &&& line.len() > 0 ==> answer_lines_in(s) == seq![line]
            &&& line.len() == 0 ==> answer_lines_in(s).len() == 0
        }),
{
    let s = front + line + back;
    let none = Seq::<Seq<char>>::empty();
    assert forall|i: int| 0 <= i < s.len() implies s[i] != '\n' && s[i] != '\r' by {
        if i < front.len() {
            assert(s[i] == front[i]);
        } else if i < front.len() + line.len() {
            assert(s[i] == line[i - front.len()]);
            assert(line.contains(line[i - front.len()]));
        } else {
            assert(s[i] == back[i - front.len() - line.len()]);
        }
    }
    text::lemma_split_one(s, CharClass::LineBreak);
    text::lemma_split_one(s, CharClass::Is('\n'));
    text::law_trim(front, line, back);
    assert(text::trimmed_each(seq![s]) =~= seq![line]);
    text::law_nonempty(none, line, none);
    assert(seq![line].drop_last() =~= none);
    assert(seq![line].last() == line);
    assert(without_noise(none) =~= none);
    assert(none.push(line) =~= seq![line]);
}

/// Why a run ended is read off what its error says, whatever stands around the words: that there
/// is no container, or else that it timed out, or else that the connection broke.
pub proof fn law_end_by_words(a: Seq<char>, b: Seq<char>, m: Seq<char>)
    ensures
        end_of(None) == StreamEnd::Stopped,
        end_of(Some(a + "No such container"@ + b)) == StreamEnd::NoContainer,
        end_of(Some(a + "no such container"@ + b)) == StreamEnd::NoContainer,
        end_of(Some(a + "404"@ + b)) == StreamEnd::NoContainer,
        end_of(Some(m)) == StreamEnd::NoContainer ==> text::has_text(m, "No such container"@)
            || text::has_text(m, "no such container"@) || text::has_text(m, "404"@),
        end_of(Some(m)) == StreamEnd::Idle ==> text::has_text(m, "Timeout"@) || text::has_text(
            m,
            "timeout"@,
        ) || text::has_text(m, "timed out"@),
        end_of(Some(m)) == StreamEnd::Reset ==> text::has_text(m, "connection reset"@)
            || text::has_text(m, "broken pipe"@) || text::has_text(m, "unexpected end"@)
            || text::has_text(m, "hyper"@),
        text::has_text(m, "Timeout"@) || text::has_text(m, "timeout"@) || text::has_text(
            m,
            "timed out"@,
        ) ==> end_of(Some(m)) == StreamEnd::Idle || end_of(Some(m)) == StreamEnd::NoContainer,
        text::has_text(m, "connection reset"@) || text::has_text(m, "broken pipe"@)
            || text::has_text(m, "unexpected end"@) || text::has_text(m, "hyper"@) ==> end_of(
            Some(m),
        ) != StreamEnd::Unknown,
        end_of(Some(m)) != StreamEnd::Stopped,
{
    text::lemma_stands(a, "No such container"@, b);
    text::lemma_stands(a, "no such container"@, b);
    text::lemma_stands(a, "404"@, b);
}

/// After an idle connection the next run begins at once; after one that broke in two seconds, and
/// after a container that stopped in seven; all else is tried again every five seconds. Only
/// where there is no container is as much fetched as before; any other run fetches the last five
/// hundred lines.
pub proof fn law_next_run(tail: Tail, error: Option<Seq<char>>)
    ensures
        next_run(tail, error).end == end_of(error),
        end_of(error) == StreamEnd::Idle <==> next_run(tail, error).wait_secs == 0,
        end_of(error) == StreamEnd::Reset <==> next_run(tail, error).wait_secs == 2,
        end_of(error) == StreamEnd::Stopped <==> next_run(tail, error).wait_secs == 7,
        end_of(error) == StreamEnd::NoContainer || end_of(error) == StreamEnd::Unknown <==> next_run(
            tail,
            error,
        ).wait_secs == 5,
        end_of(error) == StreamEnd::NoContainer ==> next_run(tail, error).tail == tail,
        end_of(error) != StreamEnd::NoContainer ==> next_run(tail, error).tail == Tail::Recent,
        Tail::Recent.text() == "500"@,
        Tail::Nothing.text() == "0"@,
{
}

/// Only line feeds break the lines of an answer: a line that holds carriage returns stays one.
pub proof fn law_answer_line(line: Seq<char>)
    requires
        line.len() > 0,
        !line.contains('\n'),
        !text::is_white(line[0]) && !text::is_white(line.last()),
    ensures
        answer_lines_in(line) == seq![line],
{
    let class = CharClass::Is('\n');
    let none = Seq::<char>::empty();
    let empty = Seq::<Seq<char>>::empty();
    assert forall|i: int| 0 <= i < line.len() implies !class.has(#[trigger] line[i]) by {
        assert(line.contains(line[i]));
    }
    text::lemma_split_one(line, class);
    text::law_trim(none, line, none);
    assert(none + line + none =~= line);
    assert(text::trimmed_each(seq![line]) =~= seq![line]);
    text::law_nonempty(empty, line, empty);
}

} // verus!
