use minecraft_panel::db;
use minecraft_panel::db::PlayerActivityRow;
use minecraft_panel::host;
use minecraft_panel::net;
use minecraft_panel::setup;
use minecraft_panel::setup::AccountProblem;
use minecraft_panel::setup::AccountState;
use minecraft_panel::setup::AccountStep;
use minecraft_panel::setup::Startup;
use minecraft_panel::setup::TlsConfig;
use minecraft_panel::setup::WizardAbort;
use minecraft_panel::setup::WizardEvent;
use minecraft_panel::setup::WizardState;
use minecraft_panel::setup::WizardStep;

fn line(s: &str) -> WizardEvent<String> {
    WizardEvent::Line(s.to_string())
}

fn run(events: Vec<WizardEvent<String>>) -> WizardStep<WizardState<String>, TlsConfig> {
    let mut state = WizardState::WantHttps;
    let mut last = None;
    for event in events {
        match setup::run_wizard(state, event) {
            WizardStep::Next(s) | WizardStep::Again(s) => {
                state = s;
            }
            other => {
                last = Some(other);
                state = WizardState::WantHttps;
            }
        }
    }
    match last {
        Some(step) => step,
        None => WizardStep::Next(state),
    }
}

#[test]
fn https_is_set_up() {
    let step = run(vec![
        line("maybe\n"),
        line("\n"),
        WizardEvent::CertbotInstalled(true),
        line(" panel.example.com \n"),
        line("me@example.com"),
        line(""),
        line("8443"),
        line("YES"),
        WizardEvent::CertbotDone { success: true, files_exist: true },
    ]);
    match step {
        WizardStep::Done(cfg) => {
            assert!(cfg.enabled);
            assert_eq!(cfg.domain.as_deref(), Some("panel.example.com"));
            assert_eq!(
                cfg.cert.as_deref(),
                Some("/etc/letsencrypt/live/panel.example.com/fullchain.pem")
            );
            assert_eq!(
                cfg.key.as_deref(),
                Some("/etc/letsencrypt/live/panel.example.com/privkey.pem")
            );
            assert_eq!((cfg.http_port, cfg.https_port), (80, 8443));
        }
        other => panic!("{:?}", other),
    }
}

#[test]
fn https_is_declined() {
    for events in [
        vec![line("n")],
        vec![
            line("y"),
            WizardEvent::CertbotInstalled(true),
            line("d"),
            line(""),
            line("x"),
            line("99999"),
            line("No"),
        ],
    ] {
        match run(events) {
            WizardStep::Done(cfg) => {
                assert!(!cfg.enabled);
                assert_eq!((cfg.http_port, cfg.https_port), (80, 443));
                assert!(cfg.domain.is_none() && cfg.cert.is_none() && cfg.key.is_none());
            }
            other => panic!("{:?}", other),
        }
    }
    let plain = TlsConfig::disabled();
    assert!(!plain.enabled);
    assert_eq!((plain.http_port, plain.https_port), (80, 443));
}

#[test]
fn https_setup_is_aborted() {
    let none = run(vec![line("y"), WizardEvent::CertbotInstalled(false)]);
    assert!(matches!(none, WizardStep::Abort(WizardAbort::NoCertbot)));
    let domain = run(vec![line("y"), WizardEvent::CertbotInstalled(true), line("  ")]);
    assert!(matches!(domain, WizardStep::Abort(WizardAbort::NoDomain)));
    let to_certbot = |success: bool| {
        run(vec![
            line("y"),
            WizardEvent::CertbotInstalled(true),
            line("d"),
            line(""),
            line(""),
            line(""),
            line(""),
            WizardEvent::CertbotDone { success, files_exist: false },
        ])
    };
    assert!(matches!(to_certbot(false), WizardStep::Abort(WizardAbort::CertbotFailed)));
    assert!(matches!(to_certbot(true), WizardStep::Abort(WizardAbort::CertNotFound)));
    assert_eq!(
        WizardAbort::CertbotFailed.message("d", 80),
        "certbot failed — check the output above.\nMake sure port 80 is open and the domain resolves to this server."
    );
    assert_eq!(
        WizardAbort::CertNotFound.message("d", 80),
        "Certificate files not found at /etc/letsencrypt/live/d\ncertbot may have placed them under a different name."
    );
    assert_eq!(WizardAbort::NoDomain.message("", 80), "No domain entered — aborting.");
    assert!(WizardAbort::NoCertbot.message("", 80).contains("sudo apt install certbot"));
}

#[test]
fn what_the_wizard_does_not_wait_for_changes_nothing() {
    let step = setup::run_wizard(WizardState::Domain, WizardEvent::CertbotInstalled(true));
    assert!(matches!(step, WizardStep::Again(WizardState::Domain)));
}

#[test]
fn the_wizard_runs_when_it_is_needed() {
    let plain = TlsConfig::disabled();
    let mut tls = TlsConfig::disabled();
    tls.enabled = true;
    tls.cert = Some("c".to_string());
    tls.key = Some("k".to_string());
    assert_eq!(setup::load_or_run_wizard(None, false, false, false), Startup::Wizard);
    assert_eq!(setup::load_or_run_wizard(Some(&plain), false, false, false), Startup::Stored);
    assert_eq!(setup::load_or_run_wizard(Some(&plain), false, false, true), Startup::Wizard);
    assert_eq!(setup::load_or_run_wizard(Some(&tls), true, true, false), Startup::Stored);
    assert_eq!(setup::load_or_run_wizard(Some(&tls), true, false, false), Startup::WizardCertMissing);
    tls.key = None;
    assert_eq!(setup::load_or_run_wizard(Some(&tls), true, true, false), Startup::WizardCertMissing);
    let args = vec!["panel".to_string(), "--reconfigure".to_string()];
    assert!(setup::has_flag(&args, "--reconfigure"));
    assert!(!setup::has_flag(&args, "--cli-setup"));
}

#[test]
fn the_first_account_is_asked_for_when_it_is_needed() {
    assert!(setup::asks_for_account(Startup::Wizard, true, false));
    assert!(setup::asks_for_account(Startup::WizardCertMissing, true, false));
    assert!(setup::asks_for_account(Startup::Stored, true, true));
    assert!(!setup::asks_for_account(Startup::Stored, true, false));
    assert!(!setup::asks_for_account(Startup::Wizard, false, true));
}

#[test]
fn answers_are_understood() {
    assert_eq!(setup::prompt_bool("", false), Some(false));
    assert_eq!(setup::prompt_bool(" Yes\n", false), Some(true));
    assert_eq!(setup::prompt_bool("N", true), Some(false));
    assert_eq!(setup::prompt_bool("nope", true), None);
    assert_eq!(setup::prompt_text("  a b \n"), "a b");
    assert_eq!(setup::prompt_text_default(" \n", "80"), "80");
    assert_eq!(setup::prompt_text_default("81\n", "80"), "81");
}

#[test]
fn certbot_is_asked() {
    assert_eq!(
        setup::certbot_args("d.org", "", 80),
        vec![
            "certonly", "--standalone", "--non-interactive", "--agree-tos", "-d", "d.org",
            "--http-01-port", "80", "--register-unsafely-without-email"
        ]
    );
    let with_mail = setup::certbot_args("d.org", "m@d.org", 8080);
    assert_eq!(with_mail[7..], ["8080", "-m", "m@d.org"]);
    assert_eq!(setup::renewal_flag("/cfg"), "/cfg/cert_renewed");
    assert_eq!(
        setup::renewal_hook("/cfg"),
        "#!/bin/sh\n# Auto-generated by minecraft-panel\n# Touch a file so the panel knows to reload its TLS certificate.\ntouch '/cfg/cert_renewed'\n"
    );
}

fn account(lines: &[&str]) -> (Vec<AccountProblem>, Option<(String, String)>) {
    let mut state = AccountState::Username;
    let mut problems = Vec::new();
    for l in lines {
        match setup::run_account_wizard(state, l) {
            AccountStep::Next(s) => {
                state = s;
            }
            AccountStep::Refused(p, s) => {
                problems.push(p);
                state = s;
            }
            AccountStep::Create { username, password } => {
                return (problems, Some((username, password)));
            }
        }
    }
    (problems, None)
}

#[test]
fn the_first_account_is_asked_for() {
    let (problems, made) = account(&[
        "\n", "a b", "a:b", " ann \n", "short", "12345678", "12345679", "longer password", "longer password\n",
    ]);
    assert_eq!(
        problems,
        vec![
            AccountProblem::EmptyUsername,
            AccountProblem::UsernameChars,
            AccountProblem::UsernameChars,
            AccountProblem::ShortPassword,
            AccountProblem::Mismatch,
        ]
    );
    assert_eq!(made, Some(("ann".to_string(), "longer password".to_string())));
    let said: Vec<String> = problems.iter().map(|p| p.message()).collect();
    assert_eq!(said[0], "Username cannot be empty.");
    assert_eq!(said[1], "Username cannot contain spaces or colons.");
    assert_eq!(said[3], "Password must be at least 8 characters.");
    assert_eq!(said[4], "Passwords do not match.");
    assert_eq!(account(&["ann"]).1, None);
    let (short, none) = account(&["ann", "pässwör", "pässwör"]);
    assert_eq!(short, vec![AccountProblem::ShortPassword, AccountProblem::ShortPassword]);
    assert_eq!(none, None);
    assert!(account(&["ann", "pässwörd", "pässwörd"]).1.is_some());
}

#[test]
fn plain_http_is_redirected() {
    assert_eq!(
        net::redirect_target(Some("panel.org:80"), Some("/x?y=1"), 443),
        "https://panel.org/x?y=1"
    );
    assert_eq!(net::redirect_target(Some("panel.org"), None, 8443), "https://panel.org:8443/");
    assert_eq!(net::redirect_target(None, Some("/"), 443), "https:///");
}

#[test]
fn the_panel_listens_where_it_is_told() {
    let plain = TlsConfig::disabled();
    assert_eq!(net::http_port(&plain, None), 3000);
    assert_eq!(net::http_port(&plain, Some("8080")), 8080);
    assert_eq!(net::http_port(&plain, Some("many")), 3000);
    let mut tls = TlsConfig::disabled();
    tls.enabled = true;
    assert_eq!(net::http_port(&tls, None), 80);
    assert_eq!(net::http_port(&tls, Some("8080")), 8080);
    assert_eq!(net::listen_address(None, 443), "0.0.0.0:443");
    assert_eq!(net::listen_address(Some("127.0.0.1"), 80), "127.0.0.1:80");
}

#[test]
fn the_panel_is_served_as_configured() {
    let plain = TlsConfig::disabled();
    match net::serving(&plain, None, None) {
        net::Serving::Http { address } => assert_eq!(address, "0.0.0.0:3000"),
        other => panic!("{:?}", other),
    }
    match net::serving(&plain, None, Some("8080")) {
        net::Serving::Http { address } => assert_eq!(address, "0.0.0.0:8080"),
        other => panic!("{:?}", other),
    }
    let mut tls = TlsConfig::disabled();
    tls.enabled = true;
    tls.domain = Some("d.org".to_string());
    tls.cert = Some("c".to_string());
    tls.key = Some("k".to_string());
    match net::serving(&tls, Some("127.0.0.1"), None) {
        net::Serving::Https { address, redirect_address, cert, key, domain } => {
            assert_eq!(address, "127.0.0.1:443");
            assert_eq!(redirect_address, "127.0.0.1:80");
            assert_eq!((cert.as_str(), key.as_str(), domain.as_str()), ("c", "k", "d.org"));
        }
        other => panic!("{:?}", other),
    }
}

#[test]
fn memory_is_read() {
    let mem = host::parse_meminfo("MemTotal:       16318412 kB\nMemFree: 1 kB\nMemAvailable:   8159206 kB\n");
    assert_eq!((mem.total, mem.available), (16_318_412, 8_159_206));
    assert_eq!(mem.total_mb(), 15_935);
    assert_eq!(mem.used_mb(), 7_967);
    let odd = host::parse_meminfo("MemTotal: 5\nMemTotal: x\nMemAvailable:");
    assert_eq!((odd.total, odd.available), (5, 0));
    let more = host::parse_meminfo("MemAvailable: 2048");
    assert_eq!((more.total_mb(), more.used_mb()), (0, 0));
    assert_eq!(host::cpu_count("processor\t: 0\nmodel name\nprocessor\t: 1\n"), 2);
    assert_eq!(host::cpu_count(""), 1);
}

#[test]
fn deaths_are_counted() {
    let names: Vec<String> = ["a", "b", "a", "c", "a"].iter().map(|s| s.to_string()).collect();
    let counts: Vec<(String, usize)> =
        db::death_counts(&names).into_iter().map(|c| (c.player, c.count)).collect();
    assert_eq!(
        counts,
        vec![("a".to_string(), 3), ("b".to_string(), 1), ("c".to_string(), 1)]
    );
    assert!(db::death_counts(&vec![]).is_empty());
}

#[test]
fn events_are_picked() {
    let row = |ts: i64, event: &str| PlayerActivityRow {
        ts,
        event: event.to_string(),
        player: "p".to_string(),
        detail: None,
    };
    let rows = vec![row(1, "join"), row(2, "villager_death"), row(3, "leave"), row(4, "villager_death")];
    let picked: Vec<i64> = db::events_of(rows, "villager_death").iter().map(|r| r.ts).collect();
    assert_eq!(picked, vec![2, 4]);
    assert_eq!(db::db_path("/cfg"), "/cfg/panel.db");
    assert_eq!(db::MAX_LOG_ROWS, 2000);
    assert_eq!(db::MAX_ACTIVITY_ROWS, 5000);
}
