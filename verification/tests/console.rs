use minecraft_panel::docker;
use minecraft_panel::docker::ContainerState;
use minecraft_panel::docker::Inspection;
use minecraft_panel::logbuffer;
use minecraft_panel::logbuffer::ActivityEvent;
use minecraft_panel::logbuffer::LogBuffer;
use minecraft_panel::logbuffer::LogLine;
use minecraft_panel::stream;
use minecraft_panel::stream::StreamAction;
use minecraft_panel::stream::StreamEnd;
use minecraft_panel::stream::StreamEvent;
use minecraft_panel::stream::StreamPhase;
use minecraft_panel::stream::Tail;

const SECOND: u64 = 1_000_000_000;

fn texts(buffer: &LogBuffer) -> Vec<String> {
    buffer.snapshot().into_iter().map(|l| l.text).collect()
}

#[test]
fn lines_are_cleaned() {
    assert_eq!(logbuffer::clean("  hello  "), "hello");
    assert_eq!(logbuffer::clean("10%\r50%\r100%\r"), "100%");
    assert_eq!(logbuffer::clean("done\r  \r"), "done");
    assert_eq!(logbuffer::clean("\u{1b}[31mred\u{7f}\tx"), "[31mred\tx");
    assert_eq!(logbuffer::clean("\r\r"), "");
    assert_eq!(logbuffer::clean("a\nb"), "ab");
    for s in ["  x\r", "a\rb", "\u{1}", "tab\tin"] {
        let once = logbuffer::clean(s);
        assert_eq!(logbuffer::clean(&once), once);
    }
}

#[test]
fn repeated_lines_are_dropped_for_two_seconds() {
    let mut b = LogBuffer::new(vec![], 0);
    assert!(b.push("hello", "docker", SECOND).is_some());
    assert!(b.push(" hello ", "rcon", SECOND + 1).is_none());
    assert!(b.push("hello", "docker", 3 * SECOND - 1).is_none());
    assert!(b.push("hello", "docker", 0).is_none());
    assert!(b.push("hello", "docker", 3 * SECOND).is_some());
    assert!(b.push("   ", "docker", 9 * SECOND).is_none());
    assert_eq!(texts(&b), vec!["hello", "hello"]);
}

#[test]
fn only_the_last_lines_stay() {
    let mut b = LogBuffer::new(vec![], 0);
    for i in 0..(logbuffer::MAX_LINES + 5) {
        assert!(b.push(&format!("line {}", i), "docker", 0).is_some());
    }
    let all = texts(&b);
    assert_eq!(all.len(), logbuffer::MAX_LINES);
    assert_eq!(all[0], "line 5");
    assert_eq!(all[logbuffer::MAX_LINES - 1], format!("line {}", logbuffer::MAX_LINES + 4));
}

#[test]
fn clearing_leaves_nothing() {
    let mut b = LogBuffer::new(vec![], 0);
    b.push("a", "panel", 0);
    b.clear();
    assert!(b.snapshot().is_empty());
    assert!(b.push("a", "panel", 0).is_some());
}

#[test]
fn history_fills_a_new_console() {
    let line = |i: usize| LogLine { text: format!("{}", i), kind: "docker".to_string() };
    let b = LogBuffer::new((0..3).map(line).collect(), 5);
    assert_eq!(texts(&b), vec!["0", "1", "2"]);
    let long = LogBuffer::new((0..logbuffer::MAX_LINES + 7).map(line).collect(), 5);
    assert_eq!(long.snapshot().len(), logbuffer::MAX_LINES);
    assert_eq!(texts(&long)[0], "7");
}

#[test]
fn activity_is_recorded_for_live_server_lines_only() {
    let line = "[12:00:01] [Server thread/INFO]: Steve joined the game";
    let mut b = LogBuffer::new(vec![], 0);
    let taken = b.push(line, "docker", 0).unwrap();
    assert_eq!(taken.line.text, line);
    assert_eq!(taken.line.kind, "docker");
    assert_eq!(taken.activity.unwrap().player, "Steve");
    assert!(b.push(line, "rcon", 10 * SECOND).unwrap().activity.is_none());
    assert!(b.push_history(line, "docker", 20 * SECOND).unwrap().activity.is_none());
}

#[test]
fn joins_and_leaves_are_read() {
    let join = logbuffer::parse_activity("[12:00:01] [Server thread/INFO]: .Bedrock_1 joined the game")
        .unwrap();
    assert_eq!(join.event, ActivityEvent::Join);
    assert_eq!(join.event.name(), "join");
    assert_eq!(join.player, ".Bedrock_1");
    assert!(join.detail.is_none());
    assert!(join.death_message().is_none());
    let leave = logbuffer::parse_activity("[12:00:01] [Server thread/INFO]: Steve left the game").unwrap();
    assert_eq!(leave.event.name(), "leave");
    assert!(logbuffer::parse_activity("Steve joined the game").is_none());
    assert!(logbuffer::parse_activity("[12:00:01] [Server thread/WARN]: Steve joined the game").is_none());
    assert!(logbuffer::parse_activity("[12:00:01] [Server thread/INFO]: <Steve> joined the game").is_none());
}

#[test]
fn deaths_of_players_are_read() {
    let line = "[12:00:01] [Server thread/INFO]: Steve was slain by Zombie";
    let death = logbuffer::parse_activity(line).unwrap();
    assert_eq!(death.event.name(), "death");
    assert_eq!(death.player, "Steve");
    assert_eq!(death.detail, Some("Steve was slain by Zombie".to_string()));
    assert_eq!(death.death_message(), Some("Steve was slain by Zombie".to_string()));
    assert!(logbuffer::parse_activity("[12:00:01] [Server thread/INFO]: Done (3.2s)!").is_none());
}

#[test]
fn deaths_of_named_mobs_are_read() {
    let line = "[12:00:01] [Server thread/INFO]: Named entity class_3989['Russel'/24, l='ServerLevel[world]', x=25.35, y=62.61, z=-525.68] died: Russel was slain by .Yuki \"67\"";
    let death = logbuffer::parse_activity(line).unwrap();
    assert_eq!(death.event.name(), "villager_death");
    assert_eq!(death.player, "Russel");
    assert_eq!(
        death.detail.as_deref(),
        Some("{\"dim\":\"world\",\"msg\":\"Russel was slain by .Yuki \\\"67\\\"\",\"villager\":true,\"x\":\"25.35\",\"y\":\"62.61\",\"z\":\"-525.68\"}")
    );
    assert!(death.death_message().is_none());
}

#[test]
fn details_are_json() {
    let odd = "q\" b\\ t\t n\n r\r f\u{c} e\u{8} c\u{1f} d\u{7f} ü \u{2028}";
    let detail = logbuffer::villager_json(odd, "d", "1", "2", "3");
    let value: serde_json::Value = serde_json::from_str(&detail).unwrap();
    assert_eq!(value["msg"].as_str(), Some(odd));
    assert_eq!(value["villager"].as_bool(), Some(true));
    assert_eq!(value.to_string(), detail);
}

#[test]
fn the_first_pattern_that_fits_decides() {
    let groups = |names: &[&str]| -> Option<Vec<Option<String>>> {
        Some(names.iter().map(|n| Some(n.to_string())).collect())
    };
    let both = logbuffer::classify("m", groups(&["", "A"]), groups(&["", "B"]), None, None).unwrap();
    assert_eq!(both.event, ActivityEvent::Join);
    assert_eq!(both.player, "A");
    let dead = logbuffer::classify("fell", None, None, None, groups(&["", "C"])).unwrap();
    assert_eq!(dead.detail, Some("fell".to_string()));
    let short = logbuffer::classify("m", None, groups(&[""]), None, None).unwrap();
    assert_eq!(short.player, "");
    assert!(logbuffer::classify("m", None, None, None, None).is_none());
}

#[test]
fn places_of_death_are_read() {
    assert_eq!(logbuffer::death_location_command("Steve"), "data get entity Steve LastDeathLocation");
    let full = logbuffer::death_location(
        "Steve has the following entity data: {pos: [25.0d, 64.5d, -100.0d], dimension: \"minecraft:overworld\"}",
    )
    .unwrap();
    assert_eq!(full.dimension, Some("overworld".to_string()));
    assert_eq!(full.coords, Some("25.0,64.5,-100.0".to_string()));
    let ints = logbuffer::death_location("{pos: [I; 1, -2, 3]}").unwrap();
    assert_eq!(ints.dimension, None);
    assert_eq!(ints.coords, Some("1,-2,3".to_string()));
    let dim = logbuffer::death_location("dimension: \"the_end\"").unwrap();
    assert_eq!(dim.dimension, Some("the_end".to_string()));
    assert_eq!(dim.coords, None);
    assert!(logbuffer::death_location("No entity was found").is_none());
    assert!(logbuffer::locate(None, None).is_none());
}

#[test]
fn rcon_noise_is_known() {
    assert!(docker::is_rcon_noise("Thread RCON Client /127.0.0.1 started"));
    assert!(docker::is_rcon_noise("[RCON Listener #1/INFO]: x"));
    assert!(docker::is_rcon_noise("RCON Client #3"));
    assert!(!docker::is_rcon_noise("RCON running on 0.0.0.0"));
}

#[test]
fn output_is_split_into_lines() {
    assert_eq!(
        stream::console_lines("a\r\n  b \n\nThread RCON Client x\n10%\r20%"),
        vec!["a", "b", "10%", "20%"]
    );
    assert!(stream::console_lines(" \n\r").is_empty());
    assert_eq!(stream::answer_lines("x\r\n y\n\n"), vec!["x", "y"]);
}

#[test]
fn earlier_output_is_read_before_live_output() {
    assert_eq!(StreamPhase::first(Tail::Recent), StreamPhase::History);
    assert_eq!(StreamPhase::first(Tail::Nothing), StreamPhase::Live);
    assert_eq!(Tail::Recent.name(), "500");
    assert_eq!(Tail::Nothing.name(), "0");
    let output = || StreamEvent::Output(b"a\nb\xff".to_vec());
    match stream::stream_logs_to_buffer(StreamPhase::History, output()) {
        StreamAction::TakeHistory(lines) => assert_eq!(lines, vec!["a", "b\u{fffd}"]),
        other => panic!("{:?}", other),
    }
    match stream::stream_logs_to_buffer(StreamPhase::Live, output()) {
        StreamAction::Take(lines) => assert_eq!(lines.len(), 2),
        other => panic!("{:?}", other),
    }
    let failed = || StreamEvent::Failed("gone".to_string());
    assert!(matches!(stream::stream_logs_to_buffer(StreamPhase::History, failed()), StreamAction::Skip));
    match stream::stream_logs_to_buffer(StreamPhase::Live, failed()) {
        StreamAction::Fail(message) => assert_eq!(message, "gone"),
        other => panic!("{:?}", other),
    }
    assert!(matches!(
        stream::stream_logs_to_buffer(StreamPhase::History, StreamEvent::Ended),
        StreamAction::Attach
    ));
    assert!(matches!(
        stream::stream_logs_to_buffer(StreamPhase::Live, StreamEvent::Ended),
        StreamAction::Finish
    ));
    assert!(matches!(
        stream::stream_logs_to_buffer(StreamPhase::Live, StreamEvent::Other),
        StreamAction::Skip
    ));
}

#[test]
fn runs_are_tried_again() {
    let next = |tail: Tail, error: Option<&str>| {
        let n = stream::pump_logs(tail, error);
        (n.end, n.tail, n.wait_secs)
    };
    assert_eq!(next(Tail::Recent, None), (StreamEnd::Stopped, Tail::Recent, 7));
    assert_eq!(
        next(Tail::Recent, Some("404: No such container: x")),
        (StreamEnd::NoContainer, Tail::Recent, 5)
    );
    assert_eq!(
        next(Tail::Nothing, Some("no such container")),
        (StreamEnd::NoContainer, Tail::Nothing, 5)
    );
    assert_eq!(next(Tail::Recent, Some("Timeout error")), (StreamEnd::Idle, Tail::Recent, 0));
    assert_eq!(next(Tail::Recent, Some("it timed out")), (StreamEnd::Idle, Tail::Recent, 0));
    assert_eq!(next(Tail::Recent, Some("connection reset")), (StreamEnd::Reset, Tail::Recent, 2));
    assert_eq!(next(Tail::Recent, Some("hyper error")), (StreamEnd::Reset, Tail::Recent, 2));
    assert_eq!(next(Tail::Recent, Some("odd")), (StreamEnd::Unknown, Tail::Recent, 5));
    assert_eq!(next(Tail::Nothing, None), (StreamEnd::Stopped, Tail::Recent, 7));
    assert_eq!(next(Tail::Nothing, Some("odd")), (StreamEnd::Unknown, Tail::Recent, 5));
}

fn inspected() -> Inspection {
    Inspection {
        id: Some("0123456789abcdef".to_string()),
        running: Some(true),
        state: Some(ContainerState::Running),
        image: Some("itzg/minecraft-server".to_string()),
        started_at: Some("2024-05-01T12:00:00.5Z".to_string()),
    }
}

#[test]
fn status_follows_the_container() {
    // 2024-05-01T13:01:01Z
    let now: i64 = 1_714_568_461;
    let st = docker::get_status(Some(inspected()), now, 500_000_000);
    assert!(st.running);
    assert_eq!(st.status, "running");
    assert_eq!(st.container_id, "0123456789ab");
    assert_eq!(st.image, "itzg/minecraft-server");
    assert_eq!(st.uptime, "1h 1m 1s");
    let early = docker::get_status(Some(inspected()), now, 400_000_000);
    assert_eq!(early.uptime, "1h 1m 0s");
    let mut stopped = inspected();
    stopped.running = Some(false);
    stopped.state = Some(ContainerState::Exited);
    stopped.id = Some("abc".to_string());
    let st = docker::get_status(Some(stopped), now, 0);
    assert!(!st.running);
    assert_eq!(st.status, "exited");
    assert_eq!(st.container_id, "abc");
    assert_eq!(st.uptime, "");
    let mut odd = inspected();
    odd.started_at = Some("yesterday".to_string());
    odd.state = None;
    odd.id = None;
    let st = docker::get_status(Some(odd), now, 0);
    assert_eq!(st.uptime, "");
    assert_eq!(st.status, "unknown");
    assert_eq!(st.container_id, "");
    let none = docker::get_status(None, now, 0);
    assert!(!none.running);
    assert_eq!(none.status, "not found");
    assert_eq!(none.uptime, "");
    let given = docker::status_with(&inspected(), Some(-5));
    assert_eq!(given.uptime, "0s");
}

#[test]
fn states_have_names() {
    let names: Vec<String> = [
        ContainerState::Empty,
        ContainerState::Created,
        ContainerState::Running,
        ContainerState::Paused,
        ContainerState::Restarting,
        ContainerState::Removing,
        ContainerState::Exited,
        ContainerState::Dead,
    ]
    .iter()
    .map(|s| s.name())
    .collect();
    assert_eq!(
        names,
        vec!["empty", "created", "running", "paused", "restarting", "removing", "exited", "dead"]
    );
}

#[test]
fn uptimes_are_written() {
    assert_eq!(docker::format_uptime(-1), "0s");
    assert_eq!(docker::format_uptime(59), "59s");
    assert_eq!(docker::format_uptime(60), "1m 0s");
    assert_eq!(docker::format_uptime(3600), "1h 0m 0s");
    assert_eq!(docker::format_uptime(90_061), "25h 1m 1s");
}

#[test]
fn players_are_read() {
    let two = docker::parse_player_list("There are 2 of a max of 20 players online: Steve, .Alex");
    assert_eq!(two.count, 2);
    assert_eq!(two.max, 20);
    assert_eq!(two.online, vec!["Steve", ".Alex"]);
    let none = docker::parse_player_list("There are 0 of a max 10 players online:");
    assert_eq!((none.count, none.max), (0, 10));
    assert!(none.online.is_empty());
    let huge = docker::parse_player_list("There are 99999999999999999999999 of a max 99999999999999999999999 players online: ,a,");
    assert_eq!((huge.count, huge.max), (0, 20));
    assert_eq!(huge.online, vec!["a"]);
    let odd = docker::parse_player_list("Unknown command");
    assert_eq!((odd.count, odd.max, odd.online.len()), (0, 0, 0));
    assert_eq!(docker::get_players(None).count, 0);
    assert_eq!(docker::get_players(Some("There are 1 of a max of 5 players online: x")).max, 5);
    let direct = docker::players_of(Some(vec![None, Some("3".to_string())]));
    assert_eq!((direct.count, direct.max), (3, 20));
}

#[test]
fn commands_go_through_rcon() {
    assert_eq!(docker::command_line("say hi"), vec!["rcon-cli", "say hi"]);
    assert_eq!(
        docker::command_output(&vec![b"  There are ".to_vec(), b"0 players\n".to_vec()]),
        "There are 0 players"
    );
    assert_eq!(docker::socket_path(None), "/var/run/docker.sock");
    assert_eq!(docker::socket_path(Some("unix:///run/d.sock")), "/run/d.sock");
    assert_eq!(docker::socket_path(Some("tcp://1.2.3.4")), "/var/run/docker.sock");
    assert_eq!(
        docker::socket_path(Some("/run/user/1000/docker.sock")),
        "/run/user/1000/docker.sock"
    );
}

#[test]
fn spans_of_time_agree_with_chrono() {
    let moments: Vec<(i64, u32)> = vec![
        (0, 0),
        (-1, 999_999_999),
        (1_714_568_461, 500_000_000),
        (1_714_568_461, 0),
        (1_714_568_459, 1_500_000_000),
        (1_714_572_059, 1_000_000_000),
        (1_483_228_799, 1_250_000_000),
        (-86_401, 1_000_000_000),
        (8_000_000_000_000, 1),
        (-8_000_000_000_000, 1),
    ];
    let time = |m: (i64, u32)| chrono::DateTime::from_timestamp(m.0, m.1);
    for then in moments.iter().copied() {
        for now in moments.iter().copied() {
            if let (Some(t), Some(n)) = (time(then), time(now)) {
                assert_eq!(docker::elapsed(Some(then), now), Some((n - t).num_seconds()));
            }
        }
    }
    assert_eq!(docker::elapsed(None, (0, 0)), None);
    assert_eq!(docker::elapsed(Some((i64::MIN, 0)), (i64::MAX, 0)), None);
    assert_eq!(docker::elapsed(Some((i64::MAX, 0)), (i64::MIN, 0)), None);
}

#[test]
fn leap_seconds_are_read() {
    let mut leap = inspected();
    leap.started_at = Some("2016-12-31T23:59:60Z".to_string());
    // 2017-01-01T00:00:10Z
    assert_eq!(docker::get_status(Some(leap), 1_483_228_810, 0).uptime, "10s");
}

#[test]
fn lines_of_a_console_are_clean() {
    let mut console = LogBuffer::new(vec![], 0);
    let mut now: u64 = 0;
    for raw in ["  a \u{1b}[0m", "\r\r", "x\r y\t", "\u{7f}", "\u{7} b", ""] {
        console.push(raw, "docker", now);
        console.push_history(raw, "panel", now);
        now += 1;
    }
    let kept = texts(&console);
    assert_eq!(kept, vec!["a [0m", "y", "b"]);
    let again = LogBuffer::new(console.snapshot(), now);
    assert_eq!(texts(&again), kept);
    assert!(console.push_inner("b", "rcon", now, true).is_none());
    assert!(console.push_inner("b", "rcon", now + 2_000_000_000, true).is_some());
}

#[test]
fn chat_is_no_death() {
    let line = |m: &str| format!("[12:00:00] [Server thread/INFO]: {}", m);
    assert!(logbuffer::parse_activity(&line("<Steve> died laughing")).is_none());
    assert_eq!(logbuffer::parse_activity(&line(".Yuki67139 drowned")).unwrap().player, ".Yuki67139");
}
