//! What is known of a server's container: its status, its players and what it prints.
use vstd::prelude::*;

use crate::numbers;
use crate::paths;
use crate::patterns;
use crate::text;
use crate::text::CharClass;

verus! {

// ── Noise ─────────────────────────────────────────────────────────────────

/// Whether the line tells of nothing but an RCON connection.
pub open spec fn is_noise(line: Seq<char>) -> bool {
    ||| text::has_text(line, "RCON Listener"@)
    ||| text::has_text(line, "Thread RCON Client"@)
    ||| text::has_text(line, "RCON Client #"@)
}

/// Whether the line tells of nothing but an RCON connection.
pub fn is_rcon_noise(line: &str) -> (r: bool)
    ensures
        r == is_noise(line@),
{
    text::contains(line, "RCON Listener") || text::contains(line, "Thread RCON Client")
        || text::contains(line, "RCON Client #")
}

// ── Socket ────────────────────────────────────────────────────────────────

/// The socket of the Docker daemon, given `DOCKER_HOST`: what follows `unix://` in it, or the
/// absolute path that it is, or else the usual place.
pub open spec fn socket_of(docker_host: Option<Seq<char>>) -> Seq<char> {
    match docker_host {
        Some(host) => if text::begins(host, "unix://"@) {
            host.skip("unix://"@.len() as int)
        } else if paths::is_rooted(host) {
            host
        } else {
            "/var/run/docker.sock"@
        },
        None => "/var/run/docker.sock"@,
    }
}

/// The socket of the Docker daemon, given `DOCKER_HOST`.
pub fn socket_path(docker_host: Option<&str>) -> (r: String)
    ensures
        r@ == socket_of(text::opt_str_view(docker_host)),
{
    match docker_host {
        Some(host) => match text::strip_prefix(host, "unix://") {
            Some(path) => path,
            None => {
                if paths::is_absolute(host) {
                    host.to_owned()
                } else {
                    "/var/run/docker.sock".to_owned()
                }
            },
        },
        None => "/var/run/docker.sock".to_owned(),
    }
}

// ── Status ────────────────────────────────────────────────────────────────

/// The state that Docker reports a container in.
#[derive(Debug, Clone, Copy, PartialEq, Eq, Structural)]
pub enum ContainerState {
    Empty,
    Created,
    Running,
    Paused,
    Restarting,
    Removing,
    Exited,
    Dead,
}

impl ContainerState {
    /// The name of the state.
    pub open spec fn text(self) -> Seq<char> {
        match self {
            ContainerState::Empty => "empty"@,
            ContainerState::Created => "created"@,
            ContainerState::Running => "running"@,
            ContainerState::Paused => "paused"@,
            ContainerState::Restarting => "restarting"@,
            ContainerState::Removing => "removing"@,
            ContainerState::Exited => "exited"@,
            ContainerState::Dead => "dead"@,
        }
    }

    /// The name of the state.
    pub fn name(self) -> (r: String)
        ensures
            r@ == self.text(),
    {
        match self {
            ContainerState::Empty => "empty".to_owned(),
            ContainerState::Created => "created".to_owned(),
            ContainerState::Running => "running".to_owned(),
            ContainerState::Paused => "paused".to_owned(),
            ContainerState::Restarting => "restarting".to_owned(),
            ContainerState::Removing => "removing".to_owned(),
            ContainerState::Exited => "exited".to_owned(),
            ContainerState::Dead => "dead".to_owned(),
        }
    }
}

/// What Docker says of a container, as far as it says it.
#[derive(Debug)]
pub struct Inspection {
    pub id: Option<String>,
    pub running: Option<bool>,
    pub state: Option<ContainerState>,
    pub image: Option<String>,
    /// When the container was started, in the form of RFC 3339.
    pub started_at: Option<String>,
}

/// The status of a server.
#[derive(Debug)]
pub struct ServerStatus {
    pub running: bool,
    pub status: String,
    pub container_id: String,
    pub image: String,
    pub uptime: String,
}

/// The value of a [`ServerStatus`].
#[verifier::ext_equal]
pub struct ServerStatusView {
    pub running: bool,
    pub status: Seq<char>,
    pub container_id: Seq<char>,
    pub image: Seq<char>,
    pub uptime: Seq<char>,
}

impl View for ServerStatus {
    type V = ServerStatusView;

    open spec fn view(&self) -> ServerStatusView {
        ServerStatusView {
            running: self.running,
            status: self.status@,
            container_id: self.container_id@,
            image: self.image@,
            uptime: self.uptime@,
        }
    }
}

impl Clone for ServerStatus {
    fn clone(&self) -> (r: Self)
        ensures
            r@ == self@,
    {
        ServerStatus {
            running: self.running,
            status: self.status.clone(),
            container_id: self.container_id.clone(),
            image: self.image.clone(),
            uptime: self.uptime.clone(),
        }
    }
}

/// The status of a server of which nothing is known.
pub open spec fn unknown_status() -> ServerStatusView {
    ServerStatusView {
        running: false,
        status: Seq::empty(),
        container_id: Seq::empty(),
        image: Seq::empty(),
        uptime: Seq::empty(),
    }
}

impl Default for ServerStatus {
    fn default() -> (r: Self)
        ensures
            r@ == unknown_status(),
    {
        let r = ServerStatus {
            running: false,
            status: String::new(),
            container_id: String::new(),
            image: String::new(),
            uptime: String::new(),
        };
        proof {
            assert(r@ =~= unknown_status());
        }
        r
    }
}

/// A time span in seconds as text: hours only where there are any, and minutes where there are
/// hours or minutes. A negative span counts as none.
pub open spec fn uptime_text(secs: int) -> Seq<char> {
    let s = if secs < 0 {
        0
    } else {
        secs
    };
    let hours = numbers::digits((s / 3600) as nat);
    let minutes = numbers::digits((s % 3600 / 60) as nat);
    let seconds = numbers::digits((s % 60) as nat);
    if s >= 3600 {
        hours + "h "@ + minutes + "m "@ + seconds + "s"@
    } else if s >= 60 {
        minutes + "m "@ + seconds + "s"@
    } else {
        seconds + "s"@
    }
}

/// A time span in seconds as text.
pub fn format_uptime(secs: i64) -> (r: String)
    ensures
        r@ == uptime_text(secs as int),
{
    let s: u64 = if secs < 0 {
        0
    } else {
        secs as u64
    };
    let h: u64 = s / 3600;
    let m: u64 = s % 3600 / 60;
    let sec: u64 = s % 60;
    if h > 0 {
        let mut out = text::cat3(
            numbers::decimal(h).as_str(),
            "h ",
            numbers::decimal(m).as_str(),
        );
        out.push_str("m ");
        out.push_str(numbers::decimal(sec).as_str());
        out.push_str("s");
        out
    } else if m > 0 {
        let mut out = text::cat3(
            numbers::decimal(m).as_str(),
            "m ",
            numbers::decimal(sec).as_str(),
        );
        out.push_str("s");
        out
    } else {
        text::cat(numbers::decimal(sec).as_str(), "s")
    }
}

/// The moment that text in the form of RFC 3339 names, in seconds since 1970 and nanoseconds
/// within the second, where it names one. A leap second is a thousand million nanoseconds more
/// of the second before it.
pub uninterp spec fn time_read(s: Seq<char>) -> Option<(i64, u32)>;

/// `chrono`: `str::parse::<DateTime<Utc>>`, taken apart by `timestamp` and
/// `timestamp_subsec_nanos`. The result is a function of the text, and is named [`time_read`].
#[verifier::external_body]
fn read_time(s: &str) -> (r: Option<(i64, u32)>)
    ensures
        r == time_read(s@),
{
    let time = s.parse::<chrono::DateTime<chrono::Utc>>().ok()?;
    Some((time.timestamp(), time.timestamp_subsec_nanos()))
}

/// The second of the day.
pub open spec fn day_second(secs: i64) -> int {
    secs as int % 86400
}

/// The whole seconds from one moment to another, rounded towards none. A leap second counts
/// where it lies between the two on the clock.
pub open spec fn seconds_between(then: (i64, u32), now: (i64, u32)) -> int {
    let leap: int = if day_second(now.0) > day_second(then.0) && then.1 >= 1_000_000_000 {
        1
    } else if day_second(now.0) < day_second(then.0) && now.1 >= 1_000_000_000 {
        -1
    } else {
        0
    };
    let nanos = (now.0 - then.0 + leap) * 1_000_000_000 + (now.1 - then.1);
    if nanos >= 0 {
        nanos / 1_000_000_000
    } else {
        -((-nanos) / 1_000_000_000)
    }
}

/// The seconds from one moment to another, where there is the one and where they can be held.
pub open spec fn elapsed_secs(then: Option<(i64, u32)>, now: (i64, u32)) -> Option<i64> {
    match then {
        Some(t) => if i64::MIN <= seconds_between(t, now) <= i64::MAX {
            Some(seconds_between(t, now) as i64)
        } else {
            None
        },
        None => None,
    }
}

fn second_of_day(secs: i64) -> (r: i64)
    ensures
        r == day_second(secs),
{
    match secs.checked_rem_euclid(86400) {
        Some(n) => n,
        None => 0,
    }
}

/// The seconds from one moment to another.
pub fn elapsed(then: Option<(i64, u32)>, now: (i64, u32)) -> (r: Option<i64>)
    ensures
        r == elapsed_secs(then, now),
{
    let then = match then {
        Some(t) => t,
        None => {
            return None;
        },
    };
    let then_of_day: i64 = second_of_day(then.0);
    let now_of_day: i64 = second_of_day(now.0);
    let leap: i128 = if now_of_day > then_of_day && then.1 >= 1_000_000_000 {
        1
    } else if now_of_day < then_of_day && now.1 >= 1_000_000_000 {
        -1
    } else {
        0
    };
    let nanos: i128 = (now.0 as i128 - then.0 as i128 + leap) * 1_000_000_000 + (now.1 as i128
        - then.1 as i128);
    if nanos >= 0 {
        let secs: u128 = nanos as u128 / 1_000_000_000;
        if secs <= i64::MAX as u128 {
            Some(secs as i64)
        } else {
            None
        }
    } else {
        let secs: i128 = -((((-nanos) as u128) / 1_000_000_000) as i128);
        if secs >= i64::MIN as i128 {
            Some(secs as i64)
        } else {
            None
        }
    }
}

/// Whether the text can be cut after twelve bytes, where it has as many.
pub open spec fn can_shorten(id: Seq<char>) -> bool {
    text::bytes_of(id) >= 12 ==> exists|n: int| cuts_at(id, n)
}

/// Whether the first characters, so many, make up twelve bytes.
pub open spec fn cuts_at(id: Seq<char>, n: int) -> bool {
    0 <= n <= id.len() && text::bytes_of(id.take(n)) == 12
}

/// The first twelve bytes of an id, or all of a shorter one.
pub open spec fn short_id(id: Seq<char>) -> Seq<char> {
    if text::bytes_of(id) >= 12 {
        id.take(choose|n: int| cuts_at(id, n))
    } else {
        id
    }
}

fn shorten(id: &str) -> (r: String)
    requires
        can_shorten(id@),
    ensures
        r@ == short_id(id@),
{
    if text::byte_len(id) < 12 {
        return id.to_owned();
    }
    let v = text::chars_of(id);
    let ghost n = choose|n: int| cuts_at(id@, n);
    let mut i: usize = 0;
    let mut bytes: usize = 0;
    while i < v.len() && bytes < 12
        invariant
            i <= v@.len(),
            v@ == id@,
            bytes == text::bytes_of(id@.take(i as int)),
            bytes < 16,
            cuts_at(id@, n),
            i <= n,
        decreases v.len() - i,
    {
        proof {
            assert(id@.take(i + 1) =~= id@.take(i as int).push(id@[i as int]));
            text::lemma_bytes_push(id@.take(i as int), id@[i as int]);
            if i == n {
                assert(false);
            }
        }
        bytes = bytes + text::char_bytes(v[i]);
        i += 1;
    }
    proof {
        text::lemma_bytes_grow(id@, i as int, n);
        assert(v@.subrange(0, i as int) =~= id@.take(i as int));
    }
    text::string_of(&v, 0, i)
}

/// The text, or nothing.
pub open spec fn or_empty(s: Option<Seq<char>>) -> Seq<char> {
    match s {
        Some(t) => t,
        None => Seq::empty(),
    }
}

/// The status of a server by what Docker says of its container, and by the seconds that have
/// passed since it was started.
pub open spec fn status_from(info: Inspection, elapsed: Option<i64>) -> ServerStatusView {
    let running = info.running == Some(true);
    ServerStatusView {
        running,
        status: match info.state {
            Some(state) => state.text(),
            None => "unknown"@,
        },
        container_id: short_id(or_empty(text::opt_view(info.id))),
        image: or_empty(text::opt_view(info.image)),
        uptime: if running && elapsed.is_some() {
            uptime_text(elapsed.unwrap() as int)
        } else {
            Seq::empty()
        },
    }
}

/// The status of a server whose container is not there.
pub open spec fn missing_status() -> ServerStatusView {
    ServerStatusView { status: "not found"@, ..unknown_status() }
}

fn value_or_empty(s: &Option<String>) -> (r: String)
    ensures
        r@ == or_empty(text::opt_view(*s)),
{
    match s {
        Some(t) => t.clone(),
        None => {
            let r = String::new();
            proof {
                assert(r@ =~= Seq::<char>::empty());
            }
            r
        },
    }
}

/// The status of a server by what Docker says of its container, and by the seconds that have
/// passed since it was started.
pub fn status_with(info: &Inspection, elapsed: Option<i64>) -> (r: ServerStatus)
    requires
        can_shorten(or_empty(text::opt_view(info.id))),
    ensures
        r@ == status_from(*info, elapsed),
{
    let running = match info.running {
        Some(running) => running,
        None => false,
    };
    let uptime = match elapsed {
        Some(secs) if running => format_uptime(secs),
        _ => String::new(),
    };
    let r = ServerStatus {
        running,
        status: match info.state {
            Some(state) => state.name(),
            None => "unknown".to_owned(),
        },
        container_id: shorten(value_or_empty(&info.id).as_str()),
        image: value_or_empty(&info.image),
        uptime,
    };
    proof {
        assert(r@.uptime =~= status_from(*info, elapsed).uptime);
        assert(r@ =~= status_from(*info, elapsed));
    }
    r
}

/// The seconds since the container was started.
pub open spec fn elapsed_of(info: Inspection, now_secs: i64, now_nanos: u32) -> Option<i64> {
    match info.started_at {
        Some(t) => elapsed_secs(time_read(t@), (now_secs, now_nanos)),
        None => None,
    }
}

/// The status of a server at a moment, given in seconds and nanoseconds since 1970, by what
/// Docker says of its container. Where it says nothing the container is not there.
pub fn get_status(info: Option<Inspection>, now_secs: i64, now_nanos: u32) -> (r: ServerStatus)
    requires
        info matches Some(i) ==> can_shorten(or_empty(text::opt_view(i.id))),
    ensures
        r@ == (match info {
            Some(i) => status_from(i, elapsed_of(i, now_secs, now_nanos)),
            None => missing_status(),
        }),
{
    match &info {
        Some(i) => {
            let passed: Option<i64> = match &i.started_at {
                Some(t) => elapsed(read_time(t.as_str()), (now_secs, now_nanos)),
                None => None,
            };
            status_with(i, passed)
        },
        None => {
            let mut r = ServerStatus::default();
            r.status = "not found".to_owned();
            r
        },
    }
}

// ── Players ───────────────────────────────────────────────────────────────

/// Who is on a server.
#[derive(Debug)]
pub struct PlayerList {
    pub online: Vec<String>,
    pub count: usize,
    pub max: usize,
}

/// The value of a [`PlayerList`].
#[verifier::ext_equal]
pub struct PlayerListView {
    pub online: Seq<Seq<char>>,
    pub count: usize,
    pub max: usize,
}

impl View for PlayerList {
    type V = PlayerListView;

    open spec fn view(&self) -> PlayerListView {
        PlayerListView { online: text::views(self.online@), count: self.count, max: self.max }
    }
}

/// Nobody, of none.
pub open spec fn no_players() -> PlayerListView {
    PlayerListView { online: Seq::empty(), count: 0, max: 0 }
}

impl Default for PlayerList {
    fn default() -> (r: Self)
        ensures
            r@ == no_players(),
    {
        let r = PlayerList { online: Vec::new(), count: 0, max: 0 };
        proof {
            assert(r@.online =~= no_players().online);
        }
        r
    }
}

/// What the server answers to `list`.
pub const PLAYERS: &'static str = r"There are (\d+) of a max(?: of)? (\d+) players online:(.*)";

/// The number that the text stands for, or the default where it stands for none.
pub open spec fn number_or(s: Seq<char>, default: usize) -> usize {
    match numbers::parsed(s, usize::MAX as nat) {
        Some(n) => n as usize,
        None => default,
    }
}

/// The players by the groups captured in the answer to `list`.
pub open spec fn players_from(groups: Option<Seq<Option<Seq<char>>>>) -> PlayerListView {
    match groups {
        Some(g) => PlayerListView {
            online: text::nonempty(
                text::trimmed_each(
                    text::split_at_class(
                        text::trimmed(patterns::group_text(g, 3)),
                        CharClass::Is(','),
                    ),
                ),
            ),
            count: number_or(patterns::group_text(g, 1), 0),
            max: number_or(patterns::group_text(g, 2), 20),
        },
        None => no_players(),
    }
}

fn number_of(s: &str, default: usize) -> (r: usize)
    ensures
        r == number_or(s@, default),
{
    match numbers::parse_number(s, usize::MAX as u64) {
        Some(n) => n as usize,
        None => default,
    }
}

/// The players by the groups captured in the answer to `list`.
pub fn players_of(groups: Option<Vec<Option<String>>>) -> (r: PlayerList)
    ensures
        r@ == players_from(patterns::group_views(groups)),
{
    match &groups {
        Some(g) => {
            let names = text::split(
                text::trim(patterns::group(g, 3).as_str()).as_str(),
                CharClass::Is(','),
            );
            PlayerList {
                online: text::keep_nonempty(&text::trim_each(&names)),
                count: number_of(patterns::group(g, 1).as_str(), 0),
                max: number_of(patterns::group(g, 2).as_str(), 20),
            }
        },
        None => PlayerList::default(),
    }
}

/// The players that the answer to `list` tells.
pub open spec fn players_in(output: Seq<char>) -> PlayerListView {
    players_from(patterns::regex_captures(PLAYERS@, output))
}

/// Reads the players off the answer to `list`; any other text means nobody.
pub fn parse_player_list(output: &str) -> (r: PlayerList)
    ensures
        r@ == players_in(output@),
        r@ == players_from(patterns::regex_captures(PLAYERS@, output@)),
{
    players_of(patterns::captures(PLAYERS, output))
}

/// Who is on a server, by its answer to `list`. A server that does not answer has nobody on it.
pub fn get_players(answer: Option<&str>) -> (r: PlayerList)
    ensures
        r@ == (match answer {
            Some(output) => players_from(patterns::regex_captures(PLAYERS@, output@)),
            None => no_players(),
        }),
{
    match answer {
        Some(output) => parse_player_list(output),
        None => PlayerList::default(),
    }
}

// ── Commands ──────────────────────────────────────────────────────────────

/// What a command is run as inside the container.
pub fn command_line(command: &str) -> (r: Vec<String>)
    ensures
        text::views(r@) == seq!["rcon-cli"@, command@],
{
    let r = vec!["rcon-cli".to_owned(), command.to_owned()];
    proof {
        assert(text::views(r@) =~= seq!["rcon-cli"@, command@]);
    }
    r
}

/// The texts one after the other, each read as UTF-8.
pub open spec fn lossy_all(chunks: Seq<Vec<u8>>) -> Seq<char>
    decreases chunks.len(),
{
    if chunks.len() == 0 {
        Seq::empty()
    } else {
        lossy_all(chunks.drop_last()) + text::utf8_lossy(chunks.last()@)
    }
}

/// What a command printed, without white space at its ends.
pub fn command_output(chunks: &Vec<Vec<u8>>) -> (r: String)
    ensures
        r@ == text::trimmed(lossy_all(chunks@)),
{
    let mut out = String::new();
    let mut i: usize = 0;
    while i < chunks.len()
        invariant
            i <= chunks.len(),
            out@ == lossy_all(chunks@.take(i as int)),
        decreases chunks.len() - i,
    {
        proof {
            assert(chunks@.take(i + 1).drop_last() =~= chunks@.take(i as int));
        }
        out.push_str(text::text_of(chunks[i].as_slice()).as_str());
        i += 1;
    }
    proof {
        assert(chunks@.take(i as int) =~= chunks@);
    }
    text::trim(out.as_str())
}

// ── Laws ──────────────────────────────────────────────────────────────────

/// A line is noise where it speaks of the RCON listener or of an RCON client, wherever in it, and
/// no other line is.
pub proof fn law_noise(a: Seq<char>, b: Seq<char>, other: Seq<char>)
    requires
        !text::has_text(other, "RCON Listener"@),
        !text::has_text(other, "Thread RCON Client"@),
        !text::has_text(other, "RCON Client #"@),
    ensures
        is_noise(a + "RCON Listener"@ + b),
        is_noise(a + "Thread RCON Client"@ + b),
        is_noise(a + "RCON Client #"@ + b),
        !is_noise(other),
{
    text::lemma_stands(a, "RCON Listener"@, b);
    text::lemma_stands(a, "Thread RCON Client"@, b);
    text::lemma_stands(a, "RCON Client #"@, b);
}

/// The socket is what follows the scheme of a Unix socket, or an absolute path as it is; whatever
/// else is said, and where nothing is said, it is the usual one.
pub proof fn law_socket(path: Seq<char>, other: Seq<char>)
    requires
        !text::begins(other, "unix://"@),
    ensures
        socket_of(Some("unix://"@ + path)) == path,
        other.len() > 0 && other[0] == '/' ==> socket_of(Some(other)) == other,
        other.len() == 0 || other[0] != '/' ==> socket_of(Some(other)) == "/var/run/docker.sock"@,
        socket_of(None) == "/var/run/docker.sock"@,
{
    let host = "unix://"@ + path;
    text::lemma_stands(Seq::empty(), "unix://"@, path);
    assert(host.skip("unix://"@.len() as int) =~= path);
}

/// Whether the text tells so many hours, minutes and seconds, with the larger units only where
/// they count.
pub open spec fn tells(s: Seq<char>, h: Seq<char>, m: Seq<char>, sec: Seq<char>) -> bool {
    if numbers::digits_value(h) > 0 {
        s == h + "h "@ + m + "m "@ + sec + "s"@
    } else if numbers::digits_value(m) > 0 {
        s == m + "m "@ + sec + "s"@
    } else {
        s == sec + "s"@
    }
}

/// A time span tells hours, minutes and seconds that add up to it: less than sixty minutes and
/// less than sixty seconds. A negative span is told as none.
pub proof fn law_uptime_adds_up(secs: int)
    ensures
        secs >= 0 ==> exists|h: Seq<char>, m: Seq<char>, s: Seq<char>| #[trigger]
            tells(uptime_text(secs), h, m, s) && numbers::digits_value(m) < 60
                && numbers::digits_value(s) < 60 && secs == 3600 * numbers::digits_value(h) + 60
                * numbers::digits_value(m) + numbers::digits_value(s),
        secs < 0 ==> uptime_text(secs) == uptime_text(0),
{
    if secs >= 0 {
        let h = numbers::digits((secs / 3600) as nat);
        let m = numbers::digits((secs % 3600 / 60) as nat);
        let s = numbers::digits((secs % 60) as nat);
        numbers::law_decimal_reads_back((secs / 3600) as nat, 0);
        numbers::law_decimal_reads_back((secs % 3600 / 60) as nat, 0);
        numbers::law_decimal_reads_back((secs % 60) as nat, 0);
        assert(tells(uptime_text(secs), h, m, s));
        assert(secs == 3600 * (secs / 3600) + 60 * (secs % 3600 / 60) + secs % 60);
    }
}

/// From one moment to another as many whole seconds pass as lie between them, unless the clock of
/// the one is in a leap second and earlier in the day than that of the other; and as many back,
/// with the other sign.
pub proof fn law_seconds_between(then: (i64, u32), now: (i64, u32))
    ensures
        seconds_between(now, then) == -seconds_between(then, now),
        !(then.1 >= 1_000_000_000 && then.0 as int % 86400 < now.0 as int % 86400) && !(now.1
            >= 1_000_000_000 && now.0 as int % 86400 < then.0 as int % 86400) ==> {
            let nanos = (now.0 - then.0) * 1_000_000_000 + now.1 - then.1;
            let secs = seconds_between(then, now);
            &&& nanos >= 0 ==> secs * 1_000_000_000 <= nanos < (secs + 1) * 1_000_000_000
            &&& nanos <= 0 ==> (secs - 1) * 1_000_000_000 < nanos <= secs * 1_000_000_000
        },
{
}

/// A leap second is a second of its own: from within it to any later second of the day there is
/// as much time as from within the second before it, and likewise back.
pub proof fn law_leap_second(then: i64, now: i64, a: u32, b: u32)
    requires
        a < 1_000_000_000,
        then as int % 86400 < now as int % 86400,
    ensures
        seconds_between((then, (a + 1_000_000_000) as u32), (now, b)) == seconds_between(
            (then, a),
            (now, b),
        ),
        seconds_between((now, b), (then, (a + 1_000_000_000) as u32)) == seconds_between(
            (now, b),
            (then, a),
        ),
{
}

/// The time that has passed is known where the beginning is and the number of seconds can be
/// held.
pub proof fn law_elapsed(then: (i64, u32), now: (i64, u32))
    ensures
        elapsed_secs(None, now).is_none(),
        elapsed_secs(Some(then), now) matches Some(n) ==> n == seconds_between(then, now),
        elapsed_secs(Some(then), now).is_none() <==> !(i64::MIN <= seconds_between(then, now)
            <= i64::MAX),
{
}

proof fn lemma_ascii_bytes(id: Seq<char>, n: int)
    requires
        0 <= n <= id.len(),
        forall|i: int| 0 <= i < id.len() ==> #[trigger] id[i] < '\u{80}',
    ensures
        text::bytes_of(id.take(n)) == n,
    decreases n,
{
    if n > 0 {
        lemma_ascii_bytes(id, n - 1);
        let c = id[n - 1];
        assert(id.take(n) =~= id.take(n - 1).push(c));
        text::lemma_bytes_push(id.take(n - 1), c);
        lemma_ascii_char(c);
    } else {
        assert(id.take(0) =~= Seq::<char>::empty());
        assert(vstd::utf8::encode_utf8(Seq::<char>::empty()).len() == 0);
    }
}

proof fn lemma_ascii_char(c: char)
    requires
        c < '\u{80}',
    ensures
        vstd::utf8::encode_scalar(c as u32).len() == 1,
{
}

/// The id of a container is told by its first twelve characters, and all of it where it is
/// shorter; ids are plain ASCII.
pub proof fn law_short_id(id: Seq<char>)
    requires
        forall|i: int| 0 <= i < id.len() ==> #[trigger] id[i] < '\u{80}',
    ensures
        id.len() >= 12 ==> short_id(id) == id.take(12),
        id.len() < 12 ==> short_id(id) == id,
        can_shorten(id),
{
    assert(id.take(id.len() as int) =~= id);
    lemma_ascii_bytes(id, id.len() as int);
    if id.len() >= 12 {
        lemma_ascii_bytes(id, 12);
        assert(cuts_at(id, 12));
        let n = choose|n: int| cuts_at(id, n);
        lemma_ascii_bytes(id, n);
    }
}

/// The status tells what Docker tells: whether the container runs, the name of its state, its
/// image and, while it runs, since when. Nothing told is nothing, and an unknown state is called
/// so.
pub proof fn law_status_tells(info: Inspection, elapsed: Option<i64>)
    ensures
        ({
            let st = status_from(info, elapsed);
            &&& st.running <==> info.running == Some(true)
            &&& info.state.is_none() ==> st.status == "unknown"@
            &&& info.state matches Some(s) ==> st.status == s.text()
            &&& info.image.is_none() ==> st.image.len() == 0
            &&& info.image matches Some(image) ==> st.image == image@
            &&& info.id.is_none() ==> st.container_id.len() == 0
            &&& info.id matches Some(id) ==> st.container_id == short_id(id@)
            &&& info.running != Some(true) || elapsed.is_none() ==> st.uptime.len() == 0
            &&& info.running == Some(true) && elapsed.is_some() ==> st.uptime == uptime_text(
                elapsed.unwrap() as int,
            )
        }),
        !missing_status().running,
        missing_status().status == "not found"@,
        missing_status().container_id.len() == 0,
        missing_status().image.len() == 0,
        missing_status().uptime.len() == 0,
{
    assert(text::bytes_of(Seq::<char>::empty()) == 0) by {
        assert(vstd::utf8::encode_utf8(Seq::<char>::empty()).len() == 0);
    }
}

/// The states of a container are told by the names that Docker has for them.
pub proof fn law_state_names()
    ensures
        ContainerState::Empty.text() == "empty"@,
        ContainerState::Created.text() == "created"@,
        ContainerState::Running.text() == "running"@,
        ContainerState::Paused.text() == "paused"@,
        ContainerState::Restarting.text() == "restarting"@,
        ContainerState::Removing.text() == "removing"@,
        ContainerState::Exited.text() == "exited"@,
        ContainerState::Dead.text() == "dead"@,
{
}

/// Whether the text can be the name of a player in a list: it is not empty, holds no comma, and
/// neither begins nor ends with white space.
pub open spec fn is_listed_name(name: Seq<char>) -> bool {
    &&& name.len() > 0
    &&& !name.contains(',')
    &&& !text::is_white(name[0])
    &&& !text::is_white(name.last())
}

proof fn lemma_listed(names: Seq<Seq<char>>)
    requires
        names.len() > 0,
        forall|i: int| 0 <= i < names.len() ==> is_listed_name(#[trigger] names[i]),
    ensures
        ({
            let s = text::joined(names, seq![',', ' ']);
            &&& s.len() > 0
            &&& s[0] == names[0][0]
            &&& s.last() == names.last().last()
            &&& text::trimmed_each(text::split_at_class(s, CharClass::Is(','))) == names
        }),
    decreases names.len(),
{
    let sep = seq![',', ' '];
    let class = CharClass::Is(',');
    let s = text::joined(names, sep);
    let last = names.last();
    assert(names[names.len() - 1] == last);
    assert forall|i: int| 0 <= i < last.len() implies !class.has(#[trigger] last[i]) by {
        assert(last.contains(last[i]));
    }
    let none = Seq::<char>::empty();
    text::law_trim(none, last, none);
    assert(none + last + none =~= last);
    if names.len() == 1 {
        assert(s == names[0]);
        text::lemma_split_one(s, class);
        assert(text::trimmed_each(seq![s]) =~= names);
    } else {
        let init = names.drop_last();
        assert forall|i: int| 0 <= i < init.len() implies is_listed_name(#[trigger] init[i]) by {
            assert(init[i] == names[i]);
        }
        lemma_listed(init);
        let before = text::joined(init, sep);
        let spaced = seq![' '] + last;
        assert(s =~= before.push(',') + spaced);
        text::lemma_split_around(before, ',', spaced, class);
        assert forall|i: int| 0 <= i < spaced.len() implies !class.has(#[trigger] spaced[i]) by {
            if i > 0 {
                assert(spaced[i] == last[i - 1]);
            }
        }
        text::lemma_split_one(spaced, class);
        text::law_trim(seq![' '], last, none);
        assert(seq![' '] + last + none =~= spaced);
        let front = text::split_at_class(before, class);
        assert(text::trimmed_each(front + seq![spaced]) =~= text::trimmed_each(front).push(last));
        assert(init.push(last) =~= names);
        assert(s.last() == last.last());
        assert(s[0] == before[0]);
    }
}

proof fn lemma_all_kept(names: Seq<Seq<char>>)
    requires
        forall|i: int| 0 <= i < names.len() ==> (#[trigger] names[i]).len() > 0,
    ensures
        text::nonempty(names) == names,
    decreases names.len(),
{
    if names.len() > 0 {
        let init = names.drop_last();
        assert forall|i: int| 0 <= i < init.len() implies (#[trigger] init[i]).len() > 0 by {
            assert(init[i] == names[i]);
        }
        lemma_all_kept(init);
        assert(names[names.len() - 1].len() > 0);
        assert(init.push(names.last()) =~= names);
    } else {
        assert(text::nonempty(names) =~= names);
    }
}

/// Of an answer that lists players, the numbers are the numbers that it tells, and the players
/// are those that it names, in its order, whatever white space stands around the list. An answer
/// of another sort means nobody.
pub proof fn law_players_are_listed(
    whole: Option<Seq<char>>,
    count: nat,
    max: nat,
    front: Seq<char>,
    names: Seq<Seq<char>>,
    back: Seq<char>,
)
    requires
        count <= usize::MAX,
        max <= usize::MAX,
        forall|i: int| 0 <= i < front.len() ==> text::is_white(#[trigger] front[i]),
        forall|i: int| 0 <= i < back.len() ==> text::is_white(#[trigger] back[i]),
        forall|i: int| 0 <= i < names.len() ==> is_listed_name(#[trigger] names[i]),
    ensures
        ({
            let list = players_from(
                Some(
                    seq![
                        whole,
                        Some(numbers::digits(count)),
                        Some(numbers::digits(max)),
                        Some(front + text::joined(names, seq![',', ' ']) + back),
                    ],
                ),
            );
            &&& list.count == count
            &&& list.max == max
            &&& list.online == names
        }),
        players_from(None).online.len() == 0,
        players_from(None).count == 0,
        players_from(None).max == 0,
{
    numbers::law_decimal_reads_back(count, usize::MAX as nat);
    numbers::law_decimal_reads_back(max, usize::MAX as nat);
    let s = text::joined(names, seq![',', ' ']);
    if names.len() > 0 {
        lemma_listed(names);
        assert(is_listed_name(names[0]));
        assert(is_listed_name(names[names.len() - 1]));
        text::law_trim(front, s, back);
        lemma_all_kept(names);
    } else {
        assert(s =~= Seq::<char>::empty());
        text::law_trim(front, s, back);
        text::lemma_split_one(s, CharClass::Is(','));
        text::lemma_trim_all(s, CharClass::White);
        let none = Seq::<Seq<char>>::empty();
        assert(text::trimmed_each(seq![s]) =~= seq![s]);
        assert(seq![s].drop_last() =~= none);
        assert(text::nonempty(none) =~= none);
        assert(seq![s].last() == s);
        assert(names =~= none);
    }
    let groups = seq![
        whole,
        Some(numbers::digits(count)),
        Some(numbers::digits(max)),
        Some(front + s + back),
    ];
    assert(patterns::group_text(groups, 1) == numbers::digits(count));
    assert(patterns::group_text(groups, 2) == numbers::digits(max));
    assert(patterns::group_text(groups, 3) == front + s + back);
}

/// An answer whose limit is no number is taken to allow twenty players, and one whose count is
/// none to count nobody.
pub proof fn law_numbers_of_players(s: Seq<char>, n: nat, default: usize)
    ensures
        n <= usize::MAX ==> number_or(numbers::digits(n), default) == n,
        numbers::parsed(s, usize::MAX as nat).is_none() ==> number_or(s, default) == default,
        numbers::parsed(s, usize::MAX as nat).is_none() ==> {
            let list = players_from(Some(seq![None, Some(s), Some(s), None]));
            list.count == 0 && list.max == 20
        },
{
    numbers::law_decimal_reads_back(n, usize::MAX as nat);
    let groups = seq![None::<Seq<char>>, Some(s), Some(s), None];
    assert(patterns::group_text(groups, 1) == s);
    assert(patterns::group_text(groups, 2) == s);
}

/// What a command printed in pieces is what it printed, piece after piece.
pub proof fn law_output_in_pieces(a: Seq<Vec<u8>>, b: Seq<Vec<u8>>, piece: Vec<u8>)
    ensures
        lossy_all(a + b) == lossy_all(a) + lossy_all(b),
        lossy_all(seq![piece]) == text::utf8_lossy(piece@),
    decreases b.len(),
{
    let none = Seq::<Vec<u8>>::empty();
    assert(seq![piece].drop_last() =~= none);
    assert(lossy_all(none) =~= Seq::<char>::empty());
    assert(seq![piece].last() == piece);
    assert(lossy_all(seq![piece]) =~= text::utf8_lossy(piece@));
    if b.len() == 0 {
        assert(a + b =~= a);
        assert(lossy_all(a) + lossy_all(b) =~= lossy_all(a));
    } else {
        law_output_in_pieces(a, b.drop_last(), piece);
        assert((a + b).drop_last() =~= a + b.drop_last());
        assert((a + b).last() == b.last());
        assert(lossy_all(a + b) =~= lossy_all(a) + lossy_all(b));
    }
}

/// How long a container runs is known where it is said when it was started, and is counted from
/// that moment.
pub proof fn law_running_since(info: Inspection, now_secs: i64, now_nanos: u32)
    ensures
        info.started_at.is_none() ==> elapsed_of(info, now_secs, now_nanos).is_none(),
        info.started_at matches Some(t) ==> elapsed_of(info, now_secs, now_nanos) == elapsed_secs(
            time_read(t@),
            (now_secs, now_nanos),
        ),
{
}

/// The players are told by how many of how many there are, with or without a word between, and by
/// their names.
pub proof fn law_players_in_answer(output: Seq<char>)
    ensures
        players_in(output) == players_from(
            patterns::regex_captures(
                r"There are (\d+) of a max(?: of)? (\d+) players online:(.*)"@,
                output,
            ),
        ),
{
}

/// A status stands for what its fields hold.
pub proof fn law_value_of_status(status: ServerStatus)
    ensures
        status@.running == status.running,
        status@.status == status.status@,
        status@.container_id == status.container_id@,
        status@.image == status.image@,
        status@.uptime == status.uptime@,
{
}

/// A list of players stands for what its fields hold.
pub proof fn law_value_of_players(list: PlayerList)
    ensures
        list@.online == text::views(list.online@),
        list@.count == list.count,
        list@.max == list.max,
{
}

/// What is told of an id is how it begins: twelve bytes of it, where it has as many and can be cut
/// there.
pub proof fn law_id_is_cut(id: Seq<char>)
    requires
        can_shorten(id),
    ensures
        text::begins(id, short_id(id)),
        text::bytes_of(id) >= 12 ==> text::bytes_of(short_id(id)) == 12,
        text::bytes_of(id) < 12 ==> short_id(id) == id,
{
    if text::bytes_of(id) >= 12 {
        let n = choose|n: int| cuts_at(id, n);
        assert(id.subrange(0, n) =~= id.take(n));
    } else {
        assert(id.subrange(0, id.len() as int) =~= id);
    }
}

/// Whatever is read as a number is that number, and whatever is not leaves the default.
pub proof fn law_number_is_read(s: Seq<char>, default: usize)
    ensures
        numbers::parsed(s, usize::MAX as nat) matches Some(n) ==> number_or(s, default) == n,
        numbers::parsed(s, usize::MAX as nat).is_none() ==> number_or(s, default) == default,
{
}

} // verus!
