//! The console of a server: its last lines, and the events that are read off them.
//!
//! A line is cleaned of what a terminal would not show, dropped where the same text was seen
//! within the last two seconds, and kept until newer lines take its place. Clearing leaves
//! nothing behind. Lines that the server itself printed are searched for players who join,
//! leave or die.
use std::collections::VecDeque;
use vstd::prelude::*;

use crate::json;
use crate::patterns;
use crate::text;
use crate::text::CharClass;

verus! {

/// How many lines are kept.
pub const MAX_LINES: usize = 2000;

/// How long the same text is not taken again, in nanoseconds.
pub const DEDUP_WINDOW: u64 = 2_000_000_000;

// ── Patterns ──────────────────────────────────────────────────────────────

/// What the server thread prefixes its messages with: time, thread and level.
pub const INFO_PREFIX: &'static str = r"^\[[\d:]+\] \[.*?/INFO\]: (.+)$";

/// A player joined: `Steve joined the game`.
pub const JOIN: &'static str = r"^([A-Za-z0-9_.\-]{1,36}) joined the game$";

/// A player left: `Steve left the game`.
pub const LEAVE: &'static str = r"^([A-Za-z0-9_.\-]{1,36}) left the game$";

/// A player died: a name, and what death messages go on with.
pub const PLAYER_DEATH: &'static str = r"^([A-Za-z0-9_.\-]{1,36}) (died|was shot|was pricked|walked into|was killed|drowned|blew up|was blown up|was knocked|hit the ground|fell|was impaled|was squished|was fireballed|was stung|was struck|burned to death|went up in flames|tried to swim|was slain|suffocated|was pummeled|starved|was frozen|was poked|experienced kinetic|didn't want to live|discovered the floor|went off|was obliterated|left the confines)";

/// A named mob died. The groups are name, dimension, the three coordinates and the message.
pub const MOB_DEATH: &'static str = r"^Named entity \S+\['([^']+)'/\d+,\s*l='ServerLevel\[([^\]]+)\]',\s*x=([\d.\-]+),\s*y=([\d.\-]+),\s*z=([\d.\-]+)\] died:\s*(.+)$";

/// Three coordinates in brackets, as the server prints a position.
pub const POSITION: &'static str = r"\[(?:I;\s*)?([+-]?\d+(?:\.\d+)?)[dD]?,\s*([+-]?\d+(?:\.\d+)?)[dD]?,\s*([+-]?\d+(?:\.\d+)?)[dD]?\]";

/// A dimension in quotes, with or without its name space.
pub const DIMENSION: &'static str = r#"dimension:\s*"(?:minecraft:)?([^"]+)""#;

// ── Events ────────────────────────────────────────────────────────────────

/// What happened.
#[derive(Debug, Clone, Copy, PartialEq, Eq, Structural)]
pub enum ActivityEvent {
    Join,
    Leave,
    VillagerDeath,
    Death,
}

impl ActivityEvent {
    /// The name that the event is stored under.
    pub open spec fn text(self) -> Seq<char> {
        match self {
            ActivityEvent::Join => "join"@,
            ActivityEvent::Leave => "leave"@,
            ActivityEvent::VillagerDeath => "villager_death"@,
            ActivityEvent::Death => "death"@,
        }
    }

    /// The name that the event is stored under.
    pub fn name(self) -> (r: String)
        ensures
            r@ == self.text(),
    {
        match self {
            ActivityEvent::Join => "join".to_owned(),
            ActivityEvent::Leave => "leave".to_owned(),
            ActivityEvent::VillagerDeath => "villager_death".to_owned(),
            ActivityEvent::Death => "death".to_owned(),
        }
    }
}

/// An event that was read off a line.
#[derive(Debug)]
pub struct Activity {
    pub event: ActivityEvent,
    /// The player, or the mob by its name.
    pub player: String,
    /// More about the event.
    pub detail: Option<String>,
}

/// The value of an [`Activity`].
#[verifier::ext_equal]
pub struct ActivityView {
    pub event: ActivityEvent,
    pub player: Seq<char>,
    pub detail: Option<Seq<char>>,
}

impl View for Activity {
    type V = ActivityView;

    open spec fn view(&self) -> ActivityView {
        ActivityView {
            event: self.event,
            player: self.player@,
            detail: text::opt_view(self.detail),
        }
    }
}

/// The value of an optional event.
pub open spec fn opt_activity(a: Option<Activity>) -> Option<ActivityView> {
    match a {
        Some(x) => Some(x@),
        None => None,
    }
}

impl ActivityView {
    /// What is entered in the death log for the event: the message, for the death of a player.
    pub open spec fn death(self) -> Option<Seq<char>> {
        if self.event == ActivityEvent::Death {
            match self.detail {
                Some(message) => Some(message),
                None => Some("died"@),
            }
        } else {
            None
        }
    }
}

impl Activity {
    /// What is entered in the death log for the event: the message, for the death of a player.
    pub fn death_message(&self) -> (r: Option<String>)
        ensures
            text::opt_view(r) == self@.death(),
    {
        match self.event {
            ActivityEvent::Death => match &self.detail {
                Some(message) => Some(message.clone()),
                None => Some("died".to_owned()),
            },
            _ => None,
        }
    }
}

/// The detail of the death of a named mob: a JSON object of its message and its place.
pub open spec fn villager_detail(
    msg: Seq<char>,
    dim: Seq<char>,
    x: Seq<char>,
    y: Seq<char>,
    z: Seq<char>,
) -> Seq<char> {
    "{\"dim\":"@ + json::json_string(dim) + ",\"msg\":"@ + json::json_string(msg)
        + ",\"villager\":true,\"x\":"@ + json::json_string(x) + ",\"y\":"@ + json::json_string(y)
        + ",\"z\":"@ + json::json_string(z) + "}"@
}

/// The detail of the death of a named mob.
pub fn villager_json(msg: &str, dim: &str, x: &str, y: &str, z: &str) -> (r: String)
    ensures
        r@ == villager_detail(msg@, dim@, x@, y@, z@),
{
    let mut out = "{\"dim\":".to_owned();
    out.push_str(json::write_string(dim).as_str());
    out.push_str(",\"msg\":");
    out.push_str(json::write_string(msg).as_str());
    out.push_str(",\"villager\":true,\"x\":");
    out.push_str(json::write_string(x).as_str());
    out.push_str(",\"y\":");
    out.push_str(json::write_string(y).as_str());
    out.push_str(",\"z\":");
    out.push_str(json::write_string(z).as_str());
    out.push_str("}");
    out
}

/// The event that a message tells of, by the groups that the four patterns capture in it: who
/// joins and who leaves come first, then named mobs, then players who die.
pub open spec fn classified(
    message: Seq<char>,
    join: Option<Seq<Option<Seq<char>>>>,
    leave: Option<Seq<Option<Seq<char>>>>,
    mob: Option<Seq<Option<Seq<char>>>>,
    death: Option<Seq<Option<Seq<char>>>>,
) -> Option<ActivityView> {
    if join.is_some() {
        Some(
            ActivityView {
                event: ActivityEvent::Join,
                player: patterns::group_text(join.unwrap(), 1),
                detail: None,
            },
        )
    } else if leave.is_some() {
        Some(
            ActivityView {
                event: ActivityEvent::Leave,
                player: patterns::group_text(leave.unwrap(), 1),
                detail: None,
            },
        )
    } else if mob.is_some() {
        let g = mob.unwrap();
        Some(
            ActivityView {
                event: ActivityEvent::VillagerDeath,
                player: patterns::group_text(g, 1),
                detail: Some(
                    villager_detail(
                        patterns::group_text(g, 6),
                        patterns::group_text(g, 2),
                        patterns::group_text(g, 3),
                        patterns::group_text(g, 4),
                        patterns::group_text(g, 5),
                    ),
                ),
            },
        )
    } else if death.is_some() {
        Some(
            ActivityView {
                event: ActivityEvent::Death,
                player: patterns::group_text(death.unwrap(), 1),
                detail: Some(message),
            },
        )
    } else {
        None
    }
}

/// The event that a message tells of, by the groups that the four patterns capture in it.
pub fn classify(
    message: &str,
    join: Option<Vec<Option<String>>>,
    leave: Option<Vec<Option<String>>>,
    mob: Option<Vec<Option<String>>>,
    death: Option<Vec<Option<String>>>,
) -> (r: Option<Activity>)
    ensures
        opt_activity(r) == classified(
            message@,
            patterns::group_views(join),
            patterns::group_views(leave),
            patterns::group_views(mob),
            patterns::group_views(death),
        ),
{
    if let Some(g) = &join {
        return Some(
            Activity { event: ActivityEvent::Join, player: patterns::group(g, 1), detail: None },
        );
    }
    if let Some(g) = &leave {
        return Some(
            Activity { event: ActivityEvent::Leave, player: patterns::group(g, 1), detail: None },
        );
    }
    if let Some(g) = &mob {
        let detail = villager_json(
            patterns::group(g, 6).as_str(),
            patterns::group(g, 2).as_str(),
            patterns::group(g, 3).as_str(),
            patterns::group(g, 4).as_str(),
            patterns::group(g, 5).as_str(),
        );
        return Some(
            Activity {
                event: ActivityEvent::VillagerDeath,
                player: patterns::group(g, 1),
                detail: Some(detail),
            },
        );
    }
    if let Some(g) = &death {
        return Some(
            Activity {
                event: ActivityEvent::Death,
                player: patterns::group(g, 1),
                detail: Some(message.to_owned()),
            },
        );
    }
    None
}

/// The event that a line tells of, where it is a message of the server.
pub open spec fn activity_of(line: Seq<char>) -> Option<ActivityView> {
    match patterns::regex_captures(INFO_PREFIX@, line) {
        Some(info) => if info.len() > 1 && info[1].is_some() {
            let message = info[1].unwrap();
            classified(
                message,
                patterns::regex_captures(JOIN@, message),
                patterns::regex_captures(LEAVE@, message),
                patterns::regex_captures(MOB_DEATH@, message),
                patterns::regex_captures(PLAYER_DEATH@, message),
            )
        } else {
            None
        },
        None => None,
    }
}

/// Reads the event off a console line: a player who joins, leaves or dies, or the death of a
/// named mob.
pub fn parse_activity(line: &str) -> (r: Option<Activity>)
    ensures
        opt_activity(r) == activity_of(line@),
{
    match patterns::captures(INFO_PREFIX, line) {
        Some(info) => {
            if info.len() > 1 {
                match &info[1] {
                    Some(message) => classify(
                        message.as_str(),
                        patterns::captures(JOIN, message.as_str()),
                        patterns::captures(LEAVE, message.as_str()),
                        patterns::captures(MOB_DEATH, message.as_str()),
                        patterns::captures(PLAYER_DEATH, message.as_str()),
                    ),
                    None => None,
                }
            } else {
                None
            }
        },
        None => None,
    }
}

// ── Place of death ────────────────────────────────────────────────────────

/// Where a player died, as far as the server says.
#[derive(Debug)]
pub struct DeathLocation {
    pub dimension: Option<String>,
    /// The coordinates, with commas between them.
    pub coords: Option<String>,
}

/// The command that asks the server where a player died.
pub open spec fn asks_for_place(player: Seq<char>) -> Seq<char> {
    "data get entity "@ + player + " LastDeathLocation"@
}

/// The command that asks the server where a player died.
pub fn death_location_command(player: &str) -> (r: String)
    ensures
        r@ == asks_for_place(player@),
        r@ == "data get entity "@ + player@ + " LastDeathLocation"@,
{
    text::cat3("data get entity ", player, " LastDeathLocation")
}

/// The place by the groups captured in the answer: dimension and coordinates, or nothing where
/// both are missing.
pub open spec fn located(
    pos: Option<Seq<Option<Seq<char>>>>,
    dim: Option<Seq<Option<Seq<char>>>>,
) -> Option<(Option<Seq<char>>, Option<Seq<char>>)> {
    if pos.is_none() && dim.is_none() {
        None
    } else {
        Some(
            (
                match dim {
                    Some(g) => Some(patterns::group_text(g, 1)),
                    None => None,
                },
                match pos {
                    Some(g) => Some(
                        patterns::group_text(g, 1) + ","@ + patterns::group_text(g, 2) + ","@
                            + patterns::group_text(g, 3),
                    ),
                    None => None,
                },
            ),
        )
    }
}

/// The value of an optional place.
pub open spec fn opt_location(l: Option<DeathLocation>) -> Option<
    (Option<Seq<char>>, Option<Seq<char>>),
> {
    match l {
        Some(x) => Some((text::opt_view(x.dimension), text::opt_view(x.coords))),
        None => None,
    }
}

/// The place by the groups captured in the answer.
pub fn locate(pos: Option<Vec<Option<String>>>, dim: Option<Vec<Option<String>>>) -> (r: Option<
    DeathLocation,
>)
    ensures
        opt_location(r) == located(patterns::group_views(pos), patterns::group_views(dim)),
{
    if pos.is_none() && dim.is_none() {
        return None;
    }
    let dimension = match &dim {
        Some(g) => Some(patterns::group(g, 1)),
        None => None,
    };
    let coords = match &pos {
        Some(g) => {
            let mut out = text::cat3(
                patterns::group(g, 1).as_str(),
                ",",
                patterns::group(g, 2).as_str(),
            );
            out.push_str(",");
            out.push_str(patterns::group(g, 3).as_str());
            Some(out)
        },
        None => None,
    };
    Some(DeathLocation { dimension, coords })
}

/// The place of a death that the answer of the server tells.
pub open spec fn place_in(output: Seq<char>) -> Option<(Option<Seq<char>>, Option<Seq<char>>)> {
    located(
        patterns::regex_captures(POSITION@, output),
        patterns::regex_captures(DIMENSION@, output),
    )
}

/// Reads the place of a death off the answer of the server.
pub fn death_location(output: &str) -> (r: Option<DeathLocation>)
    ensures
        opt_location(r) == place_in(output@),
        opt_location(r) == located(
            patterns::regex_captures(POSITION@, output@),
            patterns::regex_captures(DIMENSION@, output@),
        ),
{
    locate(patterns::captures(POSITION, output), patterns::captures(DIMENSION, output))
}

// ── Lines ─────────────────────────────────────────────────────────────────

/// A line of the console.
#[derive(Debug)]
pub struct LogLine {
    pub text: String,
    /// Where the line comes from: `docker`, `rcon` or `panel`.
    pub kind: String,
}

/// The value of a [`LogLine`].
#[verifier::ext_equal]
pub struct LogLineView {
    pub text: Seq<char>,
    pub kind: Seq<char>,
}

impl View for LogLine {
    type V = LogLineView;

    open spec fn view(&self) -> LogLineView {
        LogLineView { text: self.text@, kind: self.kind@ }
    }
}

impl Clone for LogLine {
    fn clone(&self) -> (r: Self)
        ensures
            r@ == self@,
    {
        LogLine { text: self.text.clone(), kind: self.kind.clone() }
    }
}

/// The values of a list of lines.
pub open spec fn line_views(lines: Seq<LogLine>) -> Seq<LogLineView> {
    lines.map_values(|l: LogLine| l@)
}

/// The last piece that is more than white space.
pub open spec fn last_shown(pieces: Seq<Seq<char>>) -> Option<Seq<char>>
    decreases pieces.len(),
{
    if pieces.len() == 0 {
        None
    } else if text::trimmed(pieces.last()).len() > 0 {
        Some(pieces.last())
    } else {
        last_shown(pieces.drop_last())
    }
}

/// Whether a console shows the character: tabs and whatever is no control character.
pub open spec fn is_shown(c: char) -> bool {
    c == '\t' || (c >= ' ' && c != '\u{7f}')
}

/// The characters that a console shows.
pub open spec fn shown(s: Seq<char>) -> Seq<char>
    decreases s.len(),
{
    if s.len() == 0 {
        Seq::empty()
    } else if is_shown(s.last()) {
        shown(s.drop_last()).push(s.last())
    } else {
        shown(s.drop_last())
    }
}

/// The line that a console would end up with: of text overwritten by carriage returns the last
/// piece, without control characters and without white space at its ends.
pub open spec fn cleaned(s: Seq<char>) -> Seq<char> {
    let last = match last_shown(text::split_at_class(s, CharClass::Is('\r'))) {
        Some(piece) => piece,
        None => s,
    };
    text::trimmed(shown(last))
}

/// The line that a console would end up with.
pub fn clean(s: &str) -> (r: String)
    ensures
        r@ == cleaned(s@),
{
    let pieces = text::split(s, CharClass::Is('\r'));
    let ghost all = text::views(pieces@);
    let mut n: usize = pieces.len();
    proof {
        assert(all.take(n as int) =~= all);
    }
    while n > 0 && text::trim(pieces[n - 1].as_str()).as_str().is_empty()
        invariant
            n <= pieces.len(),
            all == text::views(pieces@),
            last_shown(all) == last_shown(all.take(n as int)),
        decreases n,
    {
        proof {
            assert(all.take(n as int).last() == pieces@[n - 1]@);
            assert(all.take(n as int).drop_last() =~= all.take(n - 1));
        }
        n -= 1;
    }
    let last = if n > 0 {
        proof {
            assert(all.take(n as int).last() == pieces@[n - 1]@);
        }
        pieces[n - 1].clone()
    } else {
        s.to_owned()
    };
    let v = text::chars_of(last.as_str());
    let mut out = String::new();
    let mut i: usize = 0;
    while i < v.len()
        invariant
            i <= v.len(),
            v@ == last@,
            out@ == shown(last@.take(i as int)),
        decreases v.len() - i,
    {
        let c = v[i];
        proof {
            assert(last@.take(i + 1).drop_last() =~= last@.take(i as int));
            assert(last@.take(i + 1).last() == c);
        }
        if c == '\t' || (c >= ' ' && c != '\u{7f}') {
            out.push(c);
        }
        i += 1;
    }
    proof {
        assert(last@.take(i as int) =~= last@);
    }
    text::trim(out.as_str())
}

// ── Buffer ────────────────────────────────────────────────────────────────

/// A line and the time that it came at, in nanoseconds of a clock that does not go back.
#[verifier::ext_equal]
pub struct StampedView {
    pub at: u64,
    pub line: LogLineView,
}

/// Whether the text was seen within the window before that time.
pub open spec fn seen_lately(lines: Seq<StampedView>, text: Seq<char>, now: u64) -> bool {
    exists|i: int| 0 <= i < lines.len() && matches_lately(#[trigger] lines[i], text, now)
}

/// Whether the line has the text and came within the window before that time.
pub open spec fn matches_lately(line: StampedView, text: Seq<char>, now: u64) -> bool {
    now - line.at < DEDUP_WINDOW && line.line.text == text
}

/// Whether the line is taken: something is left of it, and it was not seen lately.
pub open spec fn is_taken(lines: Seq<StampedView>, text: Seq<char>, now: u64) -> bool {
    cleaned(text).len() > 0 && !seen_lately(lines, cleaned(text), now)
}

/// The lines after one more; the oldest goes where there are too many.
pub open spec fn appended(
    lines: Seq<StampedView>,
    text: Seq<char>,
    kind: Seq<char>,
    now: u64,
) -> Seq<StampedView> {
    if is_taken(lines, text, now) {
        let kept = if lines.len() >= MAX_LINES {
            lines.drop_first()
        } else {
            lines
        };
        kept.push(StampedView { at: now, line: LogLineView { text: cleaned(text), kind } })
    } else {
        lines
    }
}

/// The lines that a console begins with: the last of those that were stored, as if they came
/// now.
pub open spec fn restored(history: Seq<LogLineView>, now: u64) -> Seq<StampedView> {
    let last = if history.len() > MAX_LINES {
        history.skip(history.len() - MAX_LINES)
    } else {
        history
    };
    last.map_values(|l: LogLineView| StampedView { at: now, line: l })
}

/// Whether the text is one that a console keeps: there is something of it, it neither begins nor
/// ends with white space, and it holds no control character but tabs.
pub open spec fn is_clean(text: Seq<char>) -> bool {
    &&& text.len() > 0
    &&& text::trimmed(text) == text
    &&& forall|i: int| 0 <= i < text.len() ==> is_shown(#[trigger] text[i])
}

/// Whether all lines are such as a console keeps.
pub open spec fn are_clean_lines(lines: Seq<LogLineView>) -> bool {
    forall|i: int| 0 <= i < lines.len() ==> is_clean(#[trigger] lines[i].text)
}

/// Whether all lines of a console are such as it keeps.
pub open spec fn are_clean(lines: Seq<StampedView>) -> bool {
    forall|i: int| 0 <= i < lines.len() ==> is_clean(#[trigger] lines[i].line.text)
}

/// What a console is asked to do: to take a line, live or from earlier output, or to forget all.
pub enum ConsoleCall {
    Take { text: Seq<char>, kind: Seq<char>, now: u64 },
    Clear,
}

/// The lines after a call.
pub open spec fn after_call(lines: Seq<StampedView>, call: ConsoleCall) -> Seq<StampedView> {
    match call {
        ConsoleCall::Take { text, kind, now } => appended(lines, text, kind, now),
        ConsoleCall::Clear => Seq::empty(),
    }
}

/// The lines after one call after the other.
pub open spec fn after_calls(lines: Seq<StampedView>, calls: Seq<ConsoleCall>) -> Seq<StampedView>
    decreases calls.len(),
{
    if calls.len() == 0 {
        lines
    } else {
        after_call(after_calls(lines, calls.drop_last()), calls.last())
    }
}

/// The lines without their times.
pub open spec fn lines_of(lines: Seq<StampedView>) -> Seq<LogLineView> {
    lines.map_values(|e: StampedView| e.line)
}

/// The event that is recorded of a line: what the server itself prints is searched for one, where
/// events are recorded at all.
pub open spec fn recorded(line: Seq<char>, kind: Seq<char>, record: bool) -> Option<ActivityView> {
    if record && kind == "docker"@ {
        activity_of(line)
    } else {
        None
    }
}

/// What follows from a line that was taken: it is stored and sent to whoever listens, and the
/// event in it is recorded.
#[derive(Debug)]
pub struct Pushed {
    pub line: LogLine,
    pub activity: Option<Activity>,
}

/// The values of stamped lines.
pub open spec fn stamped_views(lines: Seq<(u64, LogLine)>) -> Seq<StampedView> {
    lines.map_values(|e: (u64, LogLine)| StampedView { at: e.0, line: e.1@ })
}

/// The last lines of a console.
pub struct LogBuffer {
    lines: VecDeque<(u64, LogLine)>,
}

impl View for LogBuffer {
    type V = Seq<StampedView>;

    closed spec fn view(&self) -> Seq<StampedView> {
        stamped_views(self.lines@)
    }
}

impl LogBuffer {
    #[verifier::type_invariant]
    spec fn inv(self) -> bool {
        self.lines@.len() <= MAX_LINES
    }

    /// A console that begins with the last of the lines that were stored.
    pub fn new(history: Vec<LogLine>, now: u64) -> (r: LogBuffer)
        ensures
            r@ == restored(line_views(history@), now),
            r@.len() <= MAX_LINES,
            are_clean_lines(line_views(history@)) ==> are_clean(r@),
    {
        let mut lines: VecDeque<(u64, LogLine)> = VecDeque::new();
        let start: usize = if history.len() > MAX_LINES {
            history.len() - MAX_LINES
        } else {
            0
        };
        let mut i: usize = start;
        while i < history.len()
            invariant
                start <= i <= history.len(),
                start == (if history@.len() > MAX_LINES {
                    history@.len() - MAX_LINES
                } else {
                    0
                }),
                lines@.len() == i - start,
                forall|k: int|
                    0 <= k < lines@.len() ==> (#[trigger] lines@[k]).0 == now && lines@[k].1@
                        == history@[start + k]@,
            decreases history.len() - i,
        {
            lines.push_back((now, history[i].clone()));
            i += 1;
        }
        proof {
            assert(stamped_views(lines@) =~= restored(line_views(history@), now));
            if are_clean_lines(line_views(history@)) {
                law_restored_lines_are_clean(line_views(history@), now);
            }
        }
        LogBuffer { lines }
    }

    fn was_seen(&self, line: &str, now: u64) -> (r: bool)
        ensures
            r == seen_lately(self@, line@, now),
    {
        let mut i: usize = self.lines.len();
        while i > 0
            invariant
                i <= self.lines.len(),
                forall|k: int|
                    i <= k < self@.len() ==> !matches_lately(#[trigger] self@[k], line@, now),
            decreases i,
        {
            i -= 1;
            let at: u64 = self.lines[i].0;
            proof {
                assert(self@[i as int] == (StampedView { at, line: self.lines@[i as int].1@ }));
            }
            if (now < at || now - at < DEDUP_WINDOW) && text::same(
                self.lines[i].1.text.as_str(),
                line,
            ) {
                proof {
                    assert(matches_lately(self@[i as int], line@, now));
                }
                return true;
            }
        }
        false
    }

    /// Takes a line, unless nothing is left of it or its text was seen lately: such a line
    /// changes nothing, and nothing follows from it. Where events are recorded, lines of the
    /// server itself are searched for them.
    pub fn push_inner(&mut self, text: &str, kind: &str, now: u64, record_activity: bool) -> (r:
        Option<Pushed>)
        ensures
            final(self)@ == appended(old(self)@, text@, kind@, now),
            final(self)@.len() <= MAX_LINES,
            seen_lately(old(self)@, cleaned(text@), now) ==> r.is_none() && final(self)@ == old(
                self,
            )@,
            are_clean(old(self)@) ==> are_clean(final(self)@),
            match r {
                Some(p) => {
                    &&& is_taken(old(self)@, text@, now)
                    &&& p.line@ == (LogLineView { text: cleaned(text@), kind: kind@ })
                    &&& opt_activity(p.activity) == (if record_activity && kind@ == "docker"@ {
                        activity_of(cleaned(text@))
                    } else {
                        None
                    })
                },
                None => !is_taken(old(self)@, text@, now),
            },
            r matches Some(p) ==> opt_activity(p.activity) == recorded(cleaned(text@), kind@, record_activity),
    {
        proof {
            use_type_invariant(&*self);
            if are_clean(self@) {
                law_lines_stay_clean(self@, ConsoleCall::Take { text: text@, kind: kind@, now });
            }
        }
        let line = clean(text);
        if line.as_str().is_empty() {
            return None;
        }
        if self.was_seen(line.as_str(), now) {
            return None;
        }
        let mut lines: VecDeque<(u64, LogLine)> = VecDeque::new();
        std::mem::swap(&mut lines, &mut self.lines);
        let ghost before = stamped_views(lines@);
        if lines.len() >= MAX_LINES {
            let _ = lines.pop_front();
            proof {
                assert(stamped_views(lines@) =~= before.drop_first());
            }
        }
        let ghost kept = stamped_views(lines@);
        let entry = LogLine { text: line.clone(), kind: kind.to_owned() };
        let stored = entry.clone();
        lines.push_back((now, stored));
        proof {
            assert(stamped_views(lines@) =~= kept.push(StampedView { at: now, line: entry@ }));
        }
        self.lines = lines;
        let activity = if record_activity && text::same(kind, "docker") {
            parse_activity(line.as_str())
        } else {
            None
        };
        Some(Pushed { line: entry, activity })
    }

    /// Takes a line. Lines of the server itself are searched for events.
    pub fn push(&mut self, text: &str, kind: &str, now: u64) -> (r: Option<Pushed>)
        ensures
            final(self)@ == appended(old(self)@, text@, kind@, now),
            final(self)@.len() <= MAX_LINES,
            seen_lately(old(self)@, cleaned(text@), now) ==> r.is_none() && final(self)@ == old(
                self,
            )@,
            are_clean(old(self)@) ==> are_clean(final(self)@),
            match r {
                Some(p) => {
                    &&& is_taken(old(self)@, text@, now)
                    &&& p.line@ == (LogLineView { text: cleaned(text@), kind: kind@ })
                    &&& opt_activity(p.activity) == (if kind@ == "docker"@ {
                        activity_of(cleaned(text@))
                    } else {
                        None
                    })
                },
                None => !is_taken(old(self)@, text@, now),
            },
            r matches Some(p) ==> opt_activity(p.activity) == recorded(cleaned(text@), kind@, true),
    {
        self.push_inner(text, kind, now, true)
    }

    /// Takes a line that the server printed earlier: its events were recorded then.
    pub fn push_history(&mut self, text: &str, kind: &str, now: u64) -> (r: Option<Pushed>)
        ensures
            final(self)@ == appended(old(self)@, text@, kind@, now),
            final(self)@.len() <= MAX_LINES,
            seen_lately(old(self)@, cleaned(text@), now) ==> r.is_none() && final(self)@ == old(
                self,
            )@,
            are_clean(old(self)@) ==> are_clean(final(self)@),
            match r {
                Some(p) => {
                    &&& is_taken(old(self)@, text@, now)
                    &&& p.line@ == (LogLineView { text: cleaned(text@), kind: kind@ })
                    &&& p.activity.is_none()
                },
                None => !is_taken(old(self)@, text@, now),
            },
            r matches Some(p) ==> opt_activity(p.activity) == recorded(cleaned(text@), kind@, false),
    {
        self.push_inner(text, kind, now, false)
    }

    /// The lines, oldest first.
    pub fn snapshot(&self) -> (r: Vec<LogLine>)
        ensures
            line_views(r@) == lines_of(self@),
            r@.len() <= MAX_LINES,
            are_clean(self@) ==> are_clean_lines(line_views(r@)),
    {
        proof {
            use_type_invariant(self);
        }
        let ghost all = lines_of(self@);
        let mut out: Vec<LogLine> = Vec::new();
        let mut i: usize = 0;
        while i < self.lines.len()
            invariant
                i <= self.lines.len(),
                all == lines_of(self@),
                line_views(out@) == all.take(i as int),
            decreases self.lines.len() - i,
        {
            let ghost before = line_views(out@);
            out.push(self.lines[i].1.clone());
            proof {
                assert(line_views(out@) =~= before.push(self.lines@[i as int].1@));
                assert(line_views(out@) =~= all.take(i + 1));
            }
            i += 1;
        }
        proof {
            assert(all.take(i as int) =~= all);
            assert(line_views(out@).len() == out@.len());
            if are_clean(self@) {
                assert forall|k: int| 0 <= k < all.len() implies is_clean(
                    #[trigger] all[k].text,
                ) by {
                    assert(is_clean(self@[k].line.text));
                }
            }
        }
        out
    }

    /// Forgets all lines.
    pub fn clear(&mut self)
        ensures
            final(self)@ == Seq::<StampedView>::empty(),
            are_clean(final(self)@),
    {
        let lines: VecDeque<(u64, LogLine)> = VecDeque::new();
        proof {
            assert(stamped_views(lines@) =~= Seq::<StampedView>::empty());
        }
        self.lines = lines;
    }
}

// ── Laws ──────────────────────────────────────────────────────────────────

proof fn lemma_shown(s: Seq<char>)
    ensures
        forall|i: int| 0 <= i < shown(s).len() ==> is_shown(#[trigger] shown(s)[i]),
        (forall|i: int| 0 <= i < s.len() ==> is_shown(#[trigger] s[i])) ==> shown(s) == s,
    decreases s.len(),
{
    if s.len() > 0 {
        let init = s.drop_last();
        lemma_shown(init);
        let before = shown(init);
        assert forall|i: int| 0 <= i < shown(s).len() implies is_shown(#[trigger] shown(s)[i]) by {
            if i < before.len() {
                assert(shown(s)[i] == before[i]);
            }
        }
        if forall|i: int| 0 <= i < s.len() ==> is_shown(#[trigger] s[i]) {
            assert forall|i: int| 0 <= i < init.len() implies is_shown(#[trigger] init[i]) by {
                assert(init[i] == s[i]);
            }
            assert(is_shown(s[s.len() - 1]));
            assert(shown(s) =~= s);
        }
    }
}

/// A clean line holds no control character but tabs, neither line feed nor carriage return, and
/// neither begins nor ends with white space.
pub proof fn law_clean_line(s: Seq<char>)
    ensures
        forall|i: int| 0 <= i < cleaned(s).len() ==> is_shown(#[trigger] cleaned(s)[i]),
        !cleaned(s).contains('\n'),
        !cleaned(s).contains('\r'),
        cleaned(s).len() > 0 ==> !text::is_white(cleaned(s)[0]) && !text::is_white(
            cleaned(s).last(),
        ),
{
    let last = match last_shown(text::split_at_class(s, CharClass::Is('\r'))) {
        Some(piece) => piece,
        None => s,
    };
    lemma_shown(last);
    let (from, to) = text::lemma_trim_range(shown(last), CharClass::White);
    assert forall|i: int| 0 <= i < cleaned(s).len() implies is_shown(#[trigger] cleaned(s)[i]) by {
        assert(cleaned(s)[i] == shown(last)[from + i]);
    }
}

/// To clean a clean line changes nothing.
pub proof fn law_clean_twice(s: Seq<char>)
    ensures
        cleaned(cleaned(s)) == cleaned(s),
{
    let t = cleaned(s);
    let class = CharClass::Is('\r');
    law_clean_line(s);
    assert forall|i: int| 0 <= i < t.len() implies !class.has(#[trigger] t[i]) by {
        assert(is_shown(t[i]));
    }
    text::lemma_split_one(t, class);
    lemma_shown(t);
    if t.len() > 0 {
        text::lemma_trim_around(t, CharClass::White, 0, t.len() as int);
        assert(t.subrange(0, t.len() as int) =~= t);
        assert(last_shown(seq![t]) == Some(seq![t].last()));
    } else {
        assert(t =~= Seq::<char>::empty());
        assert(text::trimmed(t) == t);
        assert(seq![t].last() == t);
        assert(last_shown(seq![t].drop_last()).is_none());
        assert(last_shown(seq![t]).is_none());
    }
    assert(shown(t) == t);
}

/// What is left of a line, if anything, is such as a console keeps.
pub proof fn law_taken_text_is_clean(s: Seq<char>)
    ensures
        cleaned(s).len() > 0 ==> is_clean(cleaned(s)),
{
    let t = cleaned(s);
    law_clean_line(s);
    if t.len() > 0 {
        text::lemma_trim_around(t, CharClass::White, 0, t.len() as int);
        assert(t.subrange(0, t.len() as int) =~= t);
    }
}

/// Every call leaves a console with lines that are clean, trimmed and not empty, where it had
/// such lines, and with no more of them than are kept.
pub proof fn law_lines_stay_clean(lines: Seq<StampedView>, call: ConsoleCall)
    requires
        are_clean(lines),
    ensures
        are_clean(after_call(lines, call)),
        lines.len() <= MAX_LINES ==> after_call(lines, call).len() <= MAX_LINES,
{
    match call {
        ConsoleCall::Take { text, kind, now } => {
            let after = appended(lines, text, kind, now);
            law_taken_text_is_clean(text);
            if is_taken(lines, text, now) {
                let dropped = lines.len() + 1 - after.len();
                assert forall|i: int| 0 <= i < after.len() implies is_clean(
                    #[trigger] after[i].line.text,
                ) by {
                    if i < after.len() - 1 {
                        assert(after[i] == lines[i + dropped]);
                        assert(is_clean(lines[i + dropped].line.text));
                    }
                }
            }
        },
        ConsoleCall::Clear => {},
    }
}

/// Lines that were stored clean are restored clean.
pub proof fn law_restored_lines_are_clean(history: Seq<LogLineView>, now: u64)
    requires
        are_clean_lines(history),
    ensures
        are_clean(restored(history, now)),
        restored(history, now).len() <= MAX_LINES,
{
    let lines = restored(history, now);
    let dropped = history.len() - lines.len();
    assert forall|i: int| 0 <= i < lines.len() implies is_clean(#[trigger] lines[i].line.text) by {
        assert(lines[i].line == history[i + dropped]);
        assert(is_clean(history[i + dropped].text));
    }
}

/// Whatever a console made from stored lines is asked to do, in whatever order, all its lines are
/// clean, trimmed and not empty, and there are no more than are kept.
pub proof fn law_console_is_clean(history: Seq<LogLineView>, start: u64, calls: Seq<ConsoleCall>)
    requires
        are_clean_lines(history),
    ensures
        are_clean(after_calls(restored(history, start), calls)),
        are_clean_lines(lines_of(after_calls(restored(history, start), calls))),
        after_calls(restored(history, start), calls).len() <= MAX_LINES,
    decreases calls.len(),
{
    let first = restored(history, start);
    let lines = after_calls(first, calls);
    if calls.len() == 0 {
        law_restored_lines_are_clean(history, start);
    } else {
        law_console_is_clean(history, start, calls.drop_last());
        law_lines_stay_clean(after_calls(first, calls.drop_last()), calls.last());
    }
    assert forall|i: int| 0 <= i < lines_of(lines).len() implies is_clean(
        #[trigger] lines_of(lines)[i].text,
    ) by {
        assert(is_clean(lines[i].line.text));
    }
}

/// A line whose text, once cleaned, a console holds from less than two seconds ago is dropped,
/// whatever its kind: the console stays as it is.
pub proof fn law_duplicate_is_dropped(
    lines: Seq<StampedView>,
    i: int,
    text: Seq<char>,
    kind: Seq<char>,
    now: u64,
)
    requires
        0 <= i < lines.len(),
        lines[i].line.text == cleaned(text),
        now - lines[i].at < DEDUP_WINDOW,
    ensures
        seen_lately(lines, cleaned(text), now),
        !is_taken(lines, text, now),
        appended(lines, text, kind, now) == lines,
{
    assert(matches_lately(lines[i], cleaned(text), now));
}

/// A text that was just taken is not taken again within two seconds, whatever its kind.
pub proof fn law_repeat_is_dropped(
    lines: Seq<StampedView>,
    first: Seq<char>,
    kind: Seq<char>,
    now: u64,
    second: Seq<char>,
    other_kind: Seq<char>,
    later: u64,
)
    requires
        is_taken(lines, first, now),
        cleaned(second) == cleaned(first),
        later - now < DEDUP_WINDOW,
    ensures
        appended(appended(lines, first, kind, now), second, other_kind, later) == appended(
            lines,
            first,
            kind,
            now,
        ),
{
    let after = appended(lines, first, kind, now);
    assert(matches_lately(after[after.len() - 1], cleaned(second), later));
}

/// The lines are the last ones that were taken: a new line comes last, the others keep their
/// order, and only the oldest ever goes.
pub proof fn law_newest_lines_stay(
    lines: Seq<StampedView>,
    text: Seq<char>,
    kind: Seq<char>,
    now: u64,
)
    requires
        is_taken(lines, text, now),
        lines.len() <= MAX_LINES,
    ensures
        ({
            let after = appended(lines, text, kind, now);
            let dropped = lines.len() + 1 - after.len();
            &&& 0 <= dropped <= 1
            &&& after.len() <= MAX_LINES
            &&& dropped == 1 ==> after.len() == MAX_LINES
            &&& after.last() == (StampedView {
                at: now,
                line: LogLineView { text: cleaned(text), kind },
            })
            &&& after.drop_last() == lines.skip(dropped)
        }),
{
    let after = appended(lines, text, kind, now);
    let dropped = lines.len() + 1 - after.len();
    assert(after.drop_last() =~= lines.skip(dropped));
}

/// A console that is made from the lines of another shows the same lines: they survive a
/// restart of the panel.
pub proof fn law_lines_survive_a_restart(lines: Seq<StampedView>, now: u64)
    requires
        lines.len() <= MAX_LINES,
    ensures
        lines_of(restored(lines_of(lines), now)) == lines_of(lines),
{
    assert(lines_of(restored(lines_of(lines), now)) =~= lines_of(lines));
}

proof fn lemma_one_piece(s: Seq<char>)
    requires
        !s.contains('\r'),
    ensures
        text::split_at_class(s, CharClass::Is('\r')) == seq![s],
        cleaned(s) == text::trimmed(shown(s)),
{
    let class = CharClass::Is('\r');
    assert forall|i: int| 0 <= i < s.len() implies !class.has(#[trigger] s[i]) by {
        assert(s.contains(s[i]));
    }
    text::lemma_split_one(s, class);
    assert(seq![s].last() == s);
    assert(seq![s].drop_last() =~= Seq::<Seq<char>>::empty());
    assert(last_shown(seq![s].drop_last()).is_none());
}

proof fn lemma_shown_concat(a: Seq<char>, b: Seq<char>)
    ensures
        shown(a + b) == shown(a) + shown(b),
    decreases b.len(),
{
    if b.len() == 0 {
        assert(a + b =~= a);
        assert(shown(a) + shown(b) =~= shown(a));
    } else {
        lemma_shown_concat(a, b.drop_last());
        assert((a + b).drop_last() =~= a + b.drop_last());
        assert((a + b).last() == b.last());
        assert(shown(a + b) =~= shown(a) + shown(b));
    }
}

/// Whether the code point is that of white space.
pub open spec fn is_space_code(n: u32) -> bool {
    ||| 9 <= n <= 13
    ||| n == 32
    ||| n == 0x85
    ||| n == 0xA0
    ||| n == 0x1680
    ||| 0x2000 <= n <= 0x200A
    ||| n == 0x2028
    ||| n == 0x2029
    ||| n == 0x202F
    ||| n == 0x205F
    ||| n == 0x3000
}

/// A character is shown, is white space or is a carriage return by its code point.
pub proof fn law_shown_characters(c: char)
    ensures
        is_shown(c) <==> {
            let n = c as u32;
            n == 9 || (n >= 0x20 && n != 0x7F)
        },
        text::is_white(c) <==> is_space_code(c as u32),
        c == '\r' <==> c as u32 == 13,
{
    text::law_white_space(c);
}

/// A line that holds no carriage return and no other control character, but for tabs, and that
/// neither begins nor ends with white space, is shown as it is: whatever letters it holds, of
/// whatever script, all of them stay.
pub proof fn law_plain_line_stays(s: Seq<char>)
    requires
        forall|i: int|
            0 <= i < s.len() ==> {
                let n = (#[trigger] s[i]) as u32;
                n == 9 || (n >= 0x20 && n != 0x7F)
            },
        s.len() > 0 ==> !is_space_code(s[0] as u32) && !is_space_code(s.last() as u32),
    ensures
        cleaned(s) == s,
{
    assert forall|i: int| 0 <= i < s.len() implies s[i] != '\r' && is_shown(#[trigger] s[i]) by {
        law_shown_characters(s[i]);
    }
    if s.len() > 0 {
        law_shown_characters(s[0]);
        law_shown_characters(s.last());
    }
    lemma_one_piece(s);
    lemma_shown(s);
    text::law_trim(Seq::empty(), s, Seq::empty());
    assert(Seq::<char>::empty() + s + Seq::<char>::empty() =~= s);
}

/// White space around a line goes, and nothing else of it.
pub proof fn law_white_ends_go(front: Seq<char>, s: Seq<char>, back: Seq<char>)
    requires
        forall|i: int|
            0 <= i < front.len() ==> is_space_code((#[trigger] front[i]) as u32) && front[i] != '\r',
        forall|i: int|
            0 <= i < back.len() ==> is_space_code((#[trigger] back[i]) as u32) && back[i] != '\r',
        forall|i: int|
            0 <= i < s.len() ==> {
                let n = (#[trigger] s[i]) as u32;
                n == 9 || (n >= 0x20 && n != 0x7F)
            },
        s.len() > 0 ==> !is_space_code(s[0] as u32) && !is_space_code(s.last() as u32),
    ensures
        cleaned(front + s + back) == s,
{
    let whole = front + s + back;
    assert forall|i: int| 0 <= i < s.len() implies s[i] != '\r' && is_shown(#[trigger] s[i]) by {
        law_shown_characters(s[i]);
    }
    if s.len() > 0 {
        law_shown_characters(s[0]);
        law_shown_characters(s.last());
    }
    assert forall|i: int| 0 <= i < whole.len() implies whole[i] != '\r' by {
        if i < front.len() {
            assert(whole[i] == front[i]);
        } else if i < front.len() + s.len() {
            assert(whole[i] == s[i - front.len()]);
        } else {
            assert(whole[i] == back[i - front.len() - s.len()]);
        }
    }
    lemma_one_piece(whole);
    lemma_shown_concat(front + s, back);
    lemma_shown_concat(front, s);
    lemma_shown(s);
    lemma_shown_from(front);
    lemma_shown_from(back);
    assert forall|i: int| 0 <= i < shown(front).len() implies text::is_white(
        #[trigger] shown(front)[i],
    ) by {
        let k = choose|k: int| 0 <= k < front.len() && front[k] == shown(front)[i];
        assert(is_space_code(front[k] as u32));
        law_shown_characters(front[k]);
    }
    assert forall|i: int| 0 <= i < shown(back).len() implies text::is_white(
        #[trigger] shown(back)[i],
    ) by {
        let k = choose|k: int| 0 <= k < back.len() && back[k] == shown(back)[i];
        assert(is_space_code(back[k] as u32));
        law_shown_characters(back[k]);
    }
    text::law_trim(shown(front), s, shown(back));
}

proof fn lemma_shown_from(s: Seq<char>)
    ensures
        forall|i: int| 0 <= i < shown(s).len() ==> s.contains(#[trigger] shown(s)[i]),
    decreases s.len(),
{
    if s.len() > 0 {
        let init = s.drop_last();
        lemma_shown_from(init);
        assert forall|i: int| 0 <= i < shown(s).len() implies s.contains(#[trigger] shown(s)[i]) by {
            if i < shown(init).len() {
                assert(shown(s)[i] == shown(init)[i]);
                let k = choose|k: int| 0 <= k < init.len() && init[k] == shown(init)[i];
                assert(s[k] == shown(init)[i]);
            } else {
                assert(s[s.len() - 1] == shown(s)[i]);
            }
        }
    }
}

/// A control character is not shown: the line is the one without it. Tabs are none of these, and
/// a carriage return does more.
pub proof fn law_control_characters_go(a: Seq<char>, c: char, b: Seq<char>)
    requires
        ((c as u32) < 0x20 && c as u32 != 9 && c as u32 != 13) || c as u32 == 0x7F,
        !a.contains('\r'),
        !b.contains('\r'),
    ensures
        cleaned(a + seq![c] + b) == cleaned(a + b),
{
    let whole = a + seq![c] + b;
    assert forall|i: int| 0 <= i < whole.len() implies whole[i] != '\r' by {
        if i < a.len() {
            assert(a.contains(a[i]));
        } else if i > a.len() {
            assert(b.contains(b[i - a.len() - 1]));
        }
    }
    assert forall|i: int| 0 <= i < (a + b).len() implies (a + b)[i] != '\r' by {
        if i < a.len() {
            assert(a.contains(a[i]));
        } else {
            assert(b.contains(b[i - a.len()]));
        }
    }
    lemma_one_piece(whole);
    lemma_one_piece(a + b);
    lemma_shown_concat(a + seq![c], b);
    lemma_shown_concat(a, seq![c]);
    lemma_shown_concat(a, b);
    assert(seq![c].drop_last() =~= Seq::<char>::empty());
    assert(seq![c].last() == c);
    assert(shown(seq![c].drop_last()) =~= Seq::<char>::empty());
    assert(shown(seq![c]) =~= Seq::<char>::empty());
    assert(shown(a) + shown(seq![c]) =~= shown(a));
}

/// What follows a carriage return takes the place of what stood before it, and where only white
/// space follows, what stood before it stays.
pub proof fn law_carriage_return_overwrites(a: Seq<char>, b: Seq<char>)
    requires
        !b.contains('\r'),
    ensures
        (exists|i: int| 0 <= i < b.len() && !is_space_code((#[trigger] b[i]) as u32)) ==> cleaned(
            a + seq!['\r'] + b,
        ) == cleaned(b),
        (forall|i: int| 0 <= i < b.len() ==> is_space_code((#[trigger] b[i]) as u32))
            && (exists|i: int| 0 <= i < a.len() && !is_space_code((#[trigger] a[i]) as u32))
            ==> cleaned(a + seq!['\r'] + b) == cleaned(a),
{
    let class = CharClass::Is('\r');
    let whole = a + seq!['\r'] + b;
    let pieces = text::split_at_class(whole, class);
    text::lemma_split_around(a, '\r', b, class);
    assert(a.push('\r') + b =~= whole);
    lemma_one_piece(b);
    let front = text::split_at_class(a, class);
    assert(pieces == front + seq![b]);
    assert(pieces.last() == b);
    assert(pieces.drop_last() =~= front);
    if exists|i: int| 0 <= i < b.len() && !is_space_code((#[trigger] b[i]) as u32) {
        let i = choose|i: int| 0 <= i < b.len() && !is_space_code((#[trigger] b[i]) as u32);
        law_shown_characters(b[i]);
        lemma_has_ink(b, i);
    } else if exists|i: int| 0 <= i < a.len() && !is_space_code((#[trigger] a[i]) as u32) {
        let i = choose|i: int| 0 <= i < a.len() && !is_space_code((#[trigger] a[i]) as u32);
        assert forall|i: int| 0 <= i < b.len() implies CharClass::White.has(#[trigger] b[i]) by {
            law_shown_characters(b[i]);
        }
        text::lemma_trim_all(b, CharClass::White);
        law_shown_characters(a[i]);
        lemma_ink_is_shown(a, i);
    }
}

proof fn lemma_ink_is_shown(s: Seq<char>, i: int)
    requires
        0 <= i < s.len(),
        !text::is_white(s[i]),
    ensures
        last_shown(text::split_at_class(s, CharClass::Is('\r'))).is_some(),
    decreases s.len(),
{
    let class = CharClass::Is('\r');
    let init = s.drop_last();
    let c = s.last();
    let before = text::split_at_class(init, class);
    let after = text::split_at_class(s, class);
    text::lemma_split_some(init, class);
    text::lemma_split_some(s, class);
    let none = Seq::<char>::empty();
    if i < init.len() {
        assert(init[i] == s[i]);
        lemma_ink_is_shown(init, i);
    }
    if class.has(c) {
        assert(i < init.len());
        assert(after.last() == none);
        assert(after.drop_last() =~= before);
        text::lemma_trim_all(none, CharClass::White);
    } else {
        let piece = before.last();
        let longer = piece.push(c);
        assert(after.last() == longer);
        assert(after.drop_last() =~= before.drop_last());
        if text::trimmed(piece).len() > 0 {
            let range = text::lemma_trim_range(piece, CharClass::White);
            assert(!text::is_white(piece[range.0]));
            assert(longer[range.0] == piece[range.0]);
            lemma_has_ink(longer, range.0);
        } else if !text::is_white(c) {
            assert(longer[longer.len() - 1] == c);
            lemma_has_ink(longer, longer.len() - 1);
        } else {
            assert(i < init.len());
            assert(last_shown(before) == last_shown(before.drop_last()));
        }
    }
}

proof fn lemma_no_ink(s: Seq<char>)
    requires
        forall|i: int| 0 <= i < s.len() ==> text::is_white(#[trigger] s[i]),
    ensures
        last_shown(text::split_at_class(s, CharClass::Is('\r'))).is_none(),
        forall|i: int|
            0 <= i < text::split_at_class(s, CharClass::Is('\r')).last().len() ==> text::is_white(
                #[trigger] text::split_at_class(s, CharClass::Is('\r')).last()[i],
            ),
    decreases s.len(),
{
    let class = CharClass::Is('\r');
    let none = Seq::<char>::empty();
    let empty = Seq::<Seq<char>>::empty();
    let after = text::split_at_class(s, class);
    text::lemma_trim_all(none, CharClass::White);
    assert(last_shown(empty).is_none());
    if s.len() == 0 {
        assert(after.last() == none);
        assert(after.drop_last() =~= empty);
    } else {
        let init = s.drop_last();
        assert forall|i: int| 0 <= i < init.len() implies text::is_white(#[trigger] init[i]) by {
            assert(init[i] == s[i]);
        }
        lemma_no_ink(init);
        let before = text::split_at_class(init, class);
        text::lemma_split_some(init, class);
        assert(s.last() == s[s.len() - 1]);
        if class.has(s.last()) {
            assert(after.last() == none);
            assert(after.drop_last() =~= before);
        } else {
            let piece = before.last();
            let longer = piece.push(s.last());
            assert(after.last() == longer);
            assert(after.drop_last() =~= before.drop_last());
            assert forall|i: int| 0 <= i < longer.len() implies CharClass::White.has(
                #[trigger] longer[i],
            ) by {
                if i < piece.len() {
                    assert(longer[i] == piece[i]);
                }
            }
            text::lemma_trim_all(longer, CharClass::White);
            assert forall|i: int| 0 <= i < piece.len() implies CharClass::White.has(
                #[trigger] piece[i],
            ) by {
                assert(text::is_white(piece[i]));
            }
            text::lemma_trim_all(piece, CharClass::White);
            assert(last_shown(before) == last_shown(before.drop_last()));
        }
    }
}

/// Nothing is left of white space, carriage returns among it or not.
pub proof fn law_nothing_is_left(s: Seq<char>)
    requires
        forall|i: int| 0 <= i < s.len() ==> is_space_code((#[trigger] s[i]) as u32),
    ensures
        cleaned(s).len() == 0,
{
    assert forall|i: int| 0 <= i < s.len() implies text::is_white(#[trigger] s[i]) by {
        law_shown_characters(s[i]);
    }
    lemma_no_ink(s);
    lemma_shown_from(s);
    let t = shown(s);
    assert forall|i: int| 0 <= i < t.len() implies CharClass::White.has(#[trigger] t[i]) by {
        let k = choose|k: int| 0 <= k < s.len() && s[k] == t[i];
        assert(text::is_white(s[k]));
    }
    text::lemma_trim_all(t, CharClass::White);
}

proof fn lemma_has_ink(b: Seq<char>, i: int)
    requires
        0 <= i < b.len(),
        !text::is_white(b[i]),
    ensures
        text::trimmed(b).len() > 0,
{
    let l = lemma_last_ink(b, i);
    let f = lemma_first_ink(b, i);
    text::lemma_trim_around(b, CharClass::White, f, l + 1);
}

proof fn lemma_first_ink(b: Seq<char>, i: int) -> (f: int)
    requires
        0 <= i < b.len(),
        !text::is_white(b[i]),
    ensures
        0 <= f <= i,
        !text::is_white(b[f]),
        forall|k: int| 0 <= k < f ==> CharClass::White.has(#[trigger] b[k]),
    decreases i,
{
    if exists|k: int| 0 <= k < i && !text::is_white(#[trigger] b[k]) {
        let k = choose|k: int| 0 <= k < i && !text::is_white(#[trigger] b[k]);
        lemma_first_ink(b, k)
    } else {
        i
    }
}

proof fn lemma_last_ink(b: Seq<char>, i: int) -> (l: int)
    requires
        0 <= i < b.len(),
        !text::is_white(b[i]),
    ensures
        i <= l < b.len(),
        !text::is_white(b[l]),
        forall|k: int| l < k < b.len() ==> CharClass::White.has(#[trigger] b[k]),
    decreases b.len() - i,
{
    if exists|k: int| i < k < b.len() && !text::is_white(#[trigger] b[k]) {
        let k = choose|k: int| i < k < b.len() && !text::is_white(#[trigger] b[k]);
        lemma_last_ink(b, k)
    } else {
        i
    }
}

/// A line of which something is left is taken unless the same text came within the last two
/// seconds. It comes last; of two thousand lines the oldest goes for it, and of fewer none.
pub proof fn law_fresh_line_is_taken(
    lines: Seq<StampedView>,
    text: Seq<char>,
    kind: Seq<char>,
    now: u64,
)
    requires
        lines.len() <= 2000,
        cleaned(text).len() > 0,
        forall|i: int|
            0 <= i < lines.len() ==> (#[trigger] lines[i]).line.text != cleaned(text) || now
                >= lines[i].at + 2_000_000_000,
    ensures
        ({
            let new = StampedView { at: now, line: LogLineView { text: cleaned(text), kind } };
            appended(lines, text, kind, now) == (if lines.len() < 2000 {
                lines.push(new)
            } else {
                lines.subrange(1, 2000).push(new)
            })
        }),
{
    if seen_lately(lines, cleaned(text), now) {
        let i = choose|i: int|
            0 <= i < lines.len() && matches_lately(#[trigger] lines[i], cleaned(text), now);
        assert(lines[i].line.text == cleaned(text));
    }
    assert(lines.len() == 2000 ==> lines.drop_first() =~= lines.subrange(1, 2000));
}

/// A line of which nothing is left, and one whose text came within the last two seconds, change
/// nothing.
pub proof fn law_stale_line_is_dropped(
    lines: Seq<StampedView>,
    text: Seq<char>,
    kind: Seq<char>,
    now: u64,
    i: int,
)
    requires
        cleaned(text).len() == 0 || (0 <= i < lines.len() && lines[i].line.text == cleaned(text)
            && now < lines[i].at + 2_000_000_000),
    ensures
        appended(lines, text, kind, now) == lines,
{
    if cleaned(text).len() > 0 {
        assert(matches_lately(lines[i], cleaned(text), now));
    }
}

/// A console begins with the last two thousand lines that were stored, or with all where there
/// are no more, in their order and as they are.
pub proof fn law_last_lines_are_restored(history: Seq<LogLineView>, now: u64)
    ensures
        ({
            let lines = restored(history, now);
            let n = if history.len() > 2000 {
                2000
            } else {
                history.len() as int
            };
            &&& lines.len() == n
            &&& forall|k: int|
                0 <= k < n ==> (#[trigger] lines[k]).at == now && lines[k].line
                    == history[history.len() - n + k]
        }),
{
}

/// Who joins comes before who leaves, this before the death of a named mob, and this before the
/// death of a player. The first group is who it happened to, and a message that no pattern knows
/// is no event.
pub proof fn law_events_by_pattern(
    message: Seq<char>,
    join: Option<Seq<Option<Seq<char>>>>,
    leave: Option<Seq<Option<Seq<char>>>>,
    mob: Option<Seq<Option<Seq<char>>>>,
    death: Option<Seq<Option<Seq<char>>>>,
    who: Seq<char>,
)
    ensures
        ({
            let event = classified(message, join, leave, mob, death);
            &&& event.is_none() <==> join.is_none() && leave.is_none() && mob.is_none()
                && death.is_none()
            &&& join matches Some(g) ==> {
                &&& event.unwrap().event == ActivityEvent::Join
                &&& event.unwrap().detail.is_none()
                &&& g.len() > 1 && g[1] == Some(who) ==> event.unwrap().player == who
            }
            &&& join.is_none() && leave.is_some() ==> {
                let g = leave.unwrap();
                &&& event.unwrap().event == ActivityEvent::Leave
                &&& event.unwrap().detail.is_none()
                &&& g.len() > 1 && g[1] == Some(who) ==> event.unwrap().player == who
            }
            &&& join.is_none() && leave.is_none() && mob.is_some() ==> {
                let g = mob.unwrap();
                &&& event.unwrap().event == ActivityEvent::VillagerDeath
                &&& event.unwrap().detail.is_some()
                &&& g.len() > 1 && g[1] == Some(who) ==> event.unwrap().player == who
            }
            &&& join.is_none() && leave.is_none() && mob.is_none() && death.is_some() ==> {
                let g = death.unwrap();
                &&& event.unwrap().event == ActivityEvent::Death
                &&& event.unwrap().detail == Some(message)
                &&& g.len() > 1 && g[1] == Some(who) ==> event.unwrap().player == who
            }
        }),
{
}

proof fn lemma_leads()
    ensures
        text::ends("{\"dim\":"@, "\"dim\":"@),
        text::ends(",\"msg\":"@, "\"msg\":"@),
        text::ends(",\"villager\":true,\"x\":"@, "\"x\":"@),
        text::has_text(",\"villager\":true,\"x\":"@, "\"villager\":true"@),
        text::ends(",\"y\":"@, "\"y\":"@),
        text::ends(",\"z\":"@, "\"z\":"@),
        text::begins("{\"dim\":"@, "{"@),
{
    reveal_strlit("{\"dim\":");
    reveal_strlit("\"dim\":");
    reveal_strlit("{");
    assert("{\"dim\":"@.subrange(1, 7) =~= "\"dim\":"@);
    assert("{\"dim\":"@.subrange(0, 1) =~= "{"@);
    reveal_strlit(",\"msg\":");
    reveal_strlit("\"msg\":");
    assert(",\"msg\":"@.subrange(1, 7) =~= "\"msg\":"@);
    reveal_strlit(",\"villager\":true,\"x\":");
    reveal_strlit("\"villager\":true");
    reveal_strlit("\"x\":");
    assert(",\"villager\":true,\"x\":"@.subrange(17, 21) =~= "\"x\":"@);
    assert(",\"villager\":true,\"x\":"@.subrange(1, 16) =~= "\"villager\":true"@);
    assert(text::occurs_at(",\"villager\":true,\"x\":"@, "\"villager\":true"@, 1));
    reveal_strlit(",\"y\":");
    reveal_strlit("\"y\":");
    assert(",\"y\":"@.subrange(1, 5) =~= "\"y\":"@);
    reveal_strlit(",\"z\":");
    reveal_strlit("\"z\":");
    assert(",\"z\":"@.subrange(1, 5) =~= "\"z\":"@);
}

proof fn lemma_detail(
    msg: Seq<char>,
    dim: Seq<char>,
    x: Seq<char>,
    y: Seq<char>,
    z: Seq<char>,
)
    ensures
        ({
            let detail = villager_detail(msg, dim, x, y, z);
            &&& text::begins(detail, "{"@)
            &&& text::ends(detail, "}"@)
            &&& text::has_text(detail, "\"dim\":"@ + json::json_string(dim))
            &&& text::has_text(detail, "\"msg\":"@ + json::json_string(msg))
            &&& text::has_text(detail, "\"villager\":true"@)
            &&& text::has_text(detail, "\"x\":"@ + json::json_string(x))
            &&& text::has_text(detail, "\"y\":"@ + json::json_string(y))
            &&& text::has_text(detail, "\"z\":"@ + json::json_string(z))
        }),
{
    let none = Seq::<char>::empty();
    let (jd, jm, jx, jy, jz) = (
        json::json_string(dim),
        json::json_string(msg),
        json::json_string(x),
        json::json_string(y),
        json::json_string(z),
    );
    let (ld, lm, lx, ly, lz) = (
        "{\"dim\":"@,
        ",\"msg\":"@,
        ",\"villager\":true,\"x\":"@,
        ",\"y\":"@,
        ",\"z\":"@,
    );
    let t1 = ld + jd;
    let t2 = t1 + lm + jm;
    let t3 = t2 + lx + jx;
    let t4 = t3 + ly + jy;
    let t5 = t4 + lz + jz;
    let detail = villager_detail(msg, dim, x, y, z);
    assert(detail == t5 + "}"@);
    lemma_leads();
    assert(none + ld + jd =~= t1);
    text::lemma_field_stands(none, ld, "\"dim\":"@, jd);
    text::lemma_field_stands(t1, lm, "\"msg\":"@, jm);
    text::lemma_field_stands(t2, lx, "\"x\":"@, jx);
    text::lemma_field_stands(t3, ly, "\"y\":"@, jy);
    text::lemma_field_stands(t4, lz, "\"z\":"@, jz);
    text::lemma_still_stands(t2, lx, jx, "\"villager\":true"@);
    lemma_goes_on(t1, lm, jm, "\"dim\":"@ + jd);
    lemma_goes_on(t2, lx, jx, "\"dim\":"@ + jd);
    lemma_goes_on(t2, lx, jx, "\"msg\":"@ + jm);
    lemma_goes_on(t3, ly, jy, "\"dim\":"@ + jd);
    lemma_goes_on(t3, ly, jy, "\"msg\":"@ + jm);
    lemma_goes_on(t3, ly, jy, "\"x\":"@ + jx);
    lemma_goes_on(t3, ly, jy, "\"villager\":true"@);
    lemma_goes_on(t4, lz, jz, "\"dim\":"@ + jd);
    lemma_goes_on(t4, lz, jz, "\"msg\":"@ + jm);
    lemma_goes_on(t4, lz, jz, "\"x\":"@ + jx);
    lemma_goes_on(t4, lz, jz, "\"villager\":true"@);
    lemma_goes_on(t4, lz, jz, "\"y\":"@ + jy);
    text::lemma_still_stands(none, t5, "}"@, "\"dim\":"@ + jd);
    text::lemma_still_stands(none, t5, "}"@, "\"msg\":"@ + jm);
    text::lemma_still_stands(none, t5, "}"@, "\"villager\":true"@);
    text::lemma_still_stands(none, t5, "}"@, "\"x\":"@ + jx);
    text::lemma_still_stands(none, t5, "}"@, "\"y\":"@ + jy);
    text::lemma_still_stands(none, t5, "}"@, "\"z\":"@ + jz);
    text::lemma_stands(t5, "}"@, none);
    assert(text::begins(detail, "{"@)) by {
        assert(detail.subrange(0, "{"@.len() as int) =~= ld.subrange(0, "{"@.len() as int));
    }
}

proof fn lemma_goes_on(t: Seq<char>, lead: Seq<char>, value: Seq<char>, pattern: Seq<char>)
    requires
        text::has_text(t, pattern),
    ensures
        text::has_text(t + lead + value, pattern),
{
    let none = Seq::<char>::empty();
    text::lemma_still_stands(none, t, lead, pattern);
    text::lemma_still_stands(none, t + lead, value, pattern);
}

/// Of the death of a named mob, the detail tells the dimension, the three coordinates and the
/// message, each from the group that holds it.
pub proof fn law_mob_death_tells_all(
    message: Seq<char>,
    death: Option<Seq<Option<Seq<char>>>>,
    name: Seq<char>,
    dim: Seq<char>,
    x: Seq<char>,
    y: Seq<char>,
    z: Seq<char>,
    msg: Seq<char>,
    whole: Seq<char>,
)
    ensures
        ({
            let groups = seq![
                Some(whole),
                Some(name),
                Some(dim),
                Some(x),
                Some(y),
                Some(z),
                Some(msg),
            ];
            let event = classified(message, None, None, Some(groups), death).unwrap();
            let detail = event.detail.unwrap();
            &&& event.player == name
            &&& text::begins(detail, "{"@)
            &&& text::ends(detail, "}"@)
            &&& text::has_text(detail, "\"dim\":"@ + json::json_string(dim))
            &&& text::has_text(detail, "\"msg\":"@ + json::json_string(msg))
            &&& text::has_text(detail, "\"villager\":true"@)
            &&& text::has_text(detail, "\"x\":"@ + json::json_string(x))
            &&& text::has_text(detail, "\"y\":"@ + json::json_string(y))
            &&& text::has_text(detail, "\"z\":"@ + json::json_string(z))
        }),
{
    let groups = seq![Some(whole), Some(name), Some(dim), Some(x), Some(y), Some(z), Some(msg)];
    assert(patterns::group_text(groups, 1) == name);
    assert(patterns::group_text(groups, 2) == dim);
    assert(patterns::group_text(groups, 3) == x);
    assert(patterns::group_text(groups, 4) == y);
    assert(patterns::group_text(groups, 5) == z);
    assert(patterns::group_text(groups, 6) == msg);
    lemma_detail(msg, dim, x, y, z);
}

/// The event of a line is the one that its message tells of, by what the patterns capture there;
/// a line that no server thread prefixed tells of none.
pub proof fn law_event_of_line(line: Seq<char>, message: Seq<char>, whole: Option<Seq<char>>)
    ensures
        ({
            let info = patterns::regex_captures(
                r"^\[[\d:]+\] \[.*?/INFO\]: (.+)$"@,
                line,
            );
            &&& info.is_none() ==> activity_of(line).is_none()
            &&& info == Some(seq![whole, Some(message)]) ==> activity_of(line) == classified(
                message,
                patterns::regex_captures(
                    r"^([A-Za-z0-9_.\-]{1,36}) joined the game$"@,
                    message,
                ),
                patterns::regex_captures(
                    r"^([A-Za-z0-9_.\-]{1,36}) left the game$"@,
                    message,
                ),
                patterns::regex_captures(
                    r"^Named entity \S+\['([^']+)'/\d+,\s*l='ServerLevel\[([^\]]+)\]',\s*x=([\d.\-]+),\s*y=([\d.\-]+),\s*z=([\d.\-]+)\] died:\s*(.+)$"@,
                    message,
                ),
                patterns::regex_captures(
                    r"^([A-Za-z0-9_.\-]{1,36}) (died|was shot|was pricked|walked into|was killed|drowned|blew up|was blown up|was knocked|hit the ground|fell|was impaled|was squished|was fireballed|was stung|was struck|burned to death|went up in flames|tried to swim|was slain|suffocated|was pummeled|starved|was frozen|was poked|experienced kinetic|didn't want to live|discovered the floor|went off|was obliterated|left the confines)"@,
                    message,
                ),
            )
        }),
{
}

/// Where a player died is told by the dimension and by the three coordinates with commas between
/// them, each where it was captured; nothing is told where neither was.
pub proof fn law_place_of_death(
    x: Seq<char>,
    y: Seq<char>,
    z: Seq<char>,
    dim: Seq<char>,
    at: Option<Seq<char>>,
    named: Option<Seq<char>>,
)
    ensures
        ({
            let pos = seq![at, Some(x), Some(y), Some(z)];
            let place = seq![named, Some(dim)];
            let coords = x + seq![','] + y + seq![','] + z;
            &&& located(None, None).is_none()
            &&& located(Some(pos), None) == Some((None::<Seq<char>>, Some(coords)))
            &&& located(None, Some(place)) == Some((Some(dim), None::<Seq<char>>))
            &&& located(Some(pos), Some(place)) == Some((Some(dim), Some(coords)))
        }),
{
    reveal_strlit(",");
    assert(","@ =~= seq![',']);
}

/// The death of a player is logged with its message, and as a plain death where there is none.
/// Nothing else is logged as a death.
pub proof fn law_deaths_are_logged(a: ActivityView)
    ensures
        a.event != ActivityEvent::Death ==> a.death().is_none(),
        a.event == ActivityEvent::Death && a.detail.is_some() ==> a.death() == a.detail,
        a.event == ActivityEvent::Death && a.detail.is_none() ==> a.death() == Some("died"@),
{
}

/// No two events are stored under the same name.
pub proof fn law_event_names(a: ActivityEvent, b: ActivityEvent)
    ensures
        a.text() == b.text() ==> a == b,
        ActivityEvent::Join.text() == "join"@,
        ActivityEvent::Leave.text() == "leave"@,
        ActivityEvent::Death.text() == "death"@,
        ActivityEvent::VillagerDeath.text() == "villager_death"@,
{
    reveal_strlit("join");
    reveal_strlit("leave");
    reveal_strlit("death");
    reveal_strlit("villager_death");
    assert("join"@.len() == 4 && "leave"@.len() == 5 && "death"@.len() == 5
        && "villager_death"@.len() == 14);
    assert("leave"@[0] == 'l' && "death"@[0] == 'd');
}

proof fn lemma_between(head: Seq<char>, a: Seq<char>, b: Seq<char>, tail: Seq<char>)
    requires
        head + a + tail == head + b + tail,
    ensures
        a == b,
{
    let n = head.len() as int;
    assert((head + a + tail).len() == n + a.len() + tail.len());
    assert((head + b + tail).len() == n + b.len() + tail.len());
    assert(a.len() == b.len());
    assert((head + a + tail).subrange(n, n + a.len()) =~= a);
    assert((head + b + tail).subrange(n, n + b.len()) =~= b);
}

/// The server is asked about the player who died and about no other: the command is that of one
/// player only.
pub proof fn law_asks_for_player(player: Seq<char>, other: Seq<char>)
    ensures
        text::begins(asks_for_place(player), "data get entity "@ + player),
        text::ends(asks_for_place(player), " LastDeathLocation"@),
        asks_for_place(player) == asks_for_place(other) ==> player == other,
{
    let head = "data get entity "@;
    let tail = " LastDeathLocation"@;
    let none = Seq::<char>::empty();
    assert(text::begins(asks_for_place(player), head + player)) by {
        text::lemma_stands(none, head + player, tail);
    }
    assert(text::ends(asks_for_place(player), tail)) by {
        text::lemma_stands(head + player, tail, none);
    }
    if asks_for_place(player) == asks_for_place(other) {
        lemma_between(head, player, other, tail);
    }
}

/// The place of a death is told by three numbers in brackets, and by a dimension in quotes, with
/// or without its name space.
pub proof fn law_place_in_answer(output: Seq<char>)
    ensures
        place_in(output) == located(
            patterns::regex_captures(
                r"\[(?:I;\s*)?([+-]?\d+(?:\.\d+)?)[dD]?,\s*([+-]?\d+(?:\.\d+)?)[dD]?,\s*([+-]?\d+(?:\.\d+)?)[dD]?\]"@,
                output,
            ),
            patterns::regex_captures(
                r#"dimension:\s*"(?:minecraft:)?([^"]+)""#@,
                output,
            ),
        ),
{
}

/// An event stands for what its fields hold.
pub proof fn law_value_of_activity(a: Activity)
    ensures
        a@.event == a.event,
        a@.player == a.player@,
        a.detail matches Some(s) ==> a@.detail == Some(s@),
        a.detail.is_none() ==> a@.detail.is_none(),
{
}

/// A line stands for its text and its kind.
pub proof fn law_value_of_line(line: LogLine)
    ensures
        line@.text == line.text@,
        line@.kind == line.kind@,
{
}

/// The lines of a console stand for their texts and kinds, one by one, with or without the time.
pub proof fn law_line_views(lines: Seq<LogLine>, i: int, stamped: Seq<StampedView>, j: int)
    requires
        0 <= i < lines.len(),
        0 <= j < stamped.len(),
    ensures
        line_views(lines).len() == lines.len(),
        line_views(lines)[i] == lines[i]@,
        lines_of(stamped).len() == stamped.len(),
        lines_of(stamped)[j] == stamped[j].line,
{
}

/// Events are recorded of what the server itself prints, as it prints it, and of nothing else: not
/// of what the panel or a command says, and not of output that is fetched again.
pub proof fn law_events_of_the_server(line: Seq<char>, kind: Seq<char>)
    ensures
        recorded(line, "docker"@, true) == activity_of(line),
        kind != "docker"@ ==> recorded(line, kind, true).is_none(),
        recorded(line, kind, false).is_none(),
{
}

} // verus!
