//! First-run setup: HTTPS with a certificate from Let's Encrypt, and the first account.
//!
//! Both are dialogues. The panel asks, the answer is one line of text, and the next question
//! or the result follows from the answers so far.
use vstd::prelude::*;

use crate::numbers;
use crate::paths;
use crate::text;
use crate::text::CharClass;

verus! {

// ── Configuration ─────────────────────────────────────────────────────────

/// How the panel is served.
#[derive(Debug)]
pub struct TlsConfig {
    pub enabled: bool,
    pub domain: Option<String>,
    /// Path of the certificate chain.
    pub cert: Option<String>,
    /// Path of the private key.
    pub key: Option<String>,
    /// Port for HTTP: the panel itself, or what redirects to HTTPS.
    pub http_port: u16,
    /// Port for HTTPS.
    pub https_port: u16,
}

/// The value of a [`TlsConfig`].
#[verifier::ext_equal]
pub struct TlsConfigView {
    pub enabled: bool,
    pub domain: Option<Seq<char>>,
    pub cert: Option<Seq<char>>,
    pub key: Option<Seq<char>>,
    pub http_port: u16,
    pub https_port: u16,
}

impl View for TlsConfig {
    type V = TlsConfigView;

    open spec fn view(&self) -> TlsConfigView {
        TlsConfigView {
            enabled: self.enabled,
            domain: text::opt_view(self.domain),
            cert: text::opt_view(self.cert),
            key: text::opt_view(self.key),
            http_port: self.http_port,
            https_port: self.https_port,
        }
    }
}

impl Clone for TlsConfig {
    fn clone(&self) -> (r: Self)
        ensures
            r@ == self@,
    {
        TlsConfig {
            enabled: self.enabled,
            domain: text::copy_opt(&self.domain),
            cert: text::copy_opt(&self.cert),
            key: text::copy_opt(&self.key),
            http_port: self.http_port,
            https_port: self.https_port,
        }
    }
}

/// Plain HTTP on the usual port.
pub open spec fn plain_http() -> TlsConfigView {
    TlsConfigView {
        enabled: false,
        domain: None,
        cert: None,
        key: None,
        http_port: 80,
        https_port: 443,
    }
}

impl TlsConfig {
    /// Plain HTTP on the usual port.
    pub fn disabled() -> (r: TlsConfig)
        ensures
            r@ == plain_http(),
    {
        TlsConfig {
            enabled: false,
            domain: None,
            cert: None,
            key: None,
            http_port: 80,
            https_port: 443,
        }
    }
}

/// What the panel starts with.
#[derive(Debug, Clone, Copy, PartialEq, Eq, Structural)]
pub enum Startup {
    /// The stored configuration.
    Stored,
    /// The dialogue.
    Wizard,
    /// The dialogue, because the files of the certificate are gone.
    WizardCertMissing,
}

/// What the panel starts with.
pub open spec fn startup_of(
    stored: Option<TlsConfigView>,
    cert_exists: bool,
    key_exists: bool,
    reconfigure: bool,
) -> Startup {
    match stored {
        Some(cfg) => if reconfigure {
            Startup::Wizard
        } else if cfg.enabled && !(cfg.cert.is_some() && cert_exists && cfg.key.is_some()
            && key_exists) {
            Startup::WizardCertMissing
        } else {
            Startup::Stored
        },
        None => Startup::Wizard,
    }
}

/// What the panel starts with: the dialogue on the first run, when it is asked for, and when
/// the certificate that is configured is not there.
pub fn load_or_run_wizard(
    stored: Option<&TlsConfig>,
    cert_exists: bool,
    key_exists: bool,
    reconfigure: bool,
) -> (r: Startup)
    ensures
        r == (if reconfigure || stored.is_none() {
            Startup::Wizard
        } else if stored.unwrap().enabled && !(stored.unwrap().cert.is_some() && cert_exists
            && stored.unwrap().key.is_some() && key_exists) {
            Startup::WizardCertMissing
        } else {
            Startup::Stored
        }),
        r == startup_of(
            match stored {
                Some(cfg) => Some(cfg@),
                None => None,
            },
            cert_exists,
            key_exists,
            reconfigure,
        ),
{
    if reconfigure {
        return Startup::Wizard;
    }
    match stored {
        Some(cfg) => {
            if cfg.enabled && !(cfg.cert.is_some() && cert_exists && cfg.key.is_some()
                && key_exists) {
                Startup::WizardCertMissing
            } else {
                Startup::Stored
            }
        },
        None => Startup::Wizard,
    }
}

/// Whether the first account is asked for in a dialogue of its own: as long as there is none,
/// behind the dialogue that the panel started with, or when it is asked for.
pub fn asks_for_account(startup: Startup, needs_setup: bool, asked_for: bool) -> (r: bool)
    ensures
        r == (needs_setup && (asked_for || startup != Startup::Stored)),
{
    needs_setup && (asked_for || startup != Startup::Stored)
}

/// Whether an argument of that name was given on the command line.
pub fn has_flag(args: &Vec<String>, flag: &str) -> (r: bool)
    ensures
        r == text::views(args@).contains(flag@),
{
    text::list_has(args, flag)
}

// ── Answers ───────────────────────────────────────────────────────────────

/// What an answer to a yes-or-no question means; the default where it is empty, and nothing
/// where it is neither.
pub open spec fn yes_no(line: Seq<char>, default: bool) -> Option<bool> {
    let t = text::ascii_lower(text::trimmed(line));
    if t.len() == 0 {
        Some(default)
    } else if t == "y"@ || t == "yes"@ {
        Some(true)
    } else if t == "n"@ || t == "no"@ {
        Some(false)
    } else {
        None
    }
}

/// What an answer to a yes-or-no question means.
pub fn prompt_bool(line: &str, default: bool) -> (r: Option<bool>)
    ensures
        r == yes_no(line@, default),
{
    let t = text::to_ascii_lower(text::trim(line).as_str());
    if t.as_str().is_empty() {
        Some(default)
    } else if text::same(t.as_str(), "y") || text::same(t.as_str(), "yes") {
        Some(true)
    } else if text::same(t.as_str(), "n") || text::same(t.as_str(), "no") {
        Some(false)
    } else {
        None
    }
}

/// An answer without white space around it.
pub fn prompt_text(line: &str) -> (r: String)
    ensures
        r@ == text::trimmed(line@),
{
    text::trim(line)
}

/// An answer, or the default where there is none.
pub open spec fn answer_or(line: Seq<char>, default: Seq<char>) -> Seq<char> {
    if text::trimmed(line).len() == 0 {
        default
    } else {
        text::trimmed(line)
    }
}

/// An answer without white space around it, or the default where nothing is left.
pub fn prompt_text_default(line: &str, default: &str) -> (r: String)
    ensures
        r@ == (if text::trimmed(line@).len() == 0 {
            default@
        } else {
            text::trimmed(line@)
        }),
        r@ == answer_or(line@, default@),
{
    let t = text::trim(line);
    if t.as_str().is_empty() {
        default.to_owned()
    } else {
        t
    }
}

/// The port that an answer names, or the default where it names none.
pub open spec fn port_in(line: Seq<char>, default: u16) -> u16 {
    match numbers::parsed(text::trimmed(line), u16::MAX as nat) {
        Some(n) => n as u16,
        None => default,
    }
}

fn port_answer(line: &str, default: u16) -> (r: u16)
    ensures
        r == port_in(line@, default),
{
    match numbers::parse_number(text::trim(line).as_str(), u16::MAX as u64) {
        Some(n) => n as u16,
        None => default,
    }
}

// ── HTTPS dialogue ────────────────────────────────────────────────────────

/// What a certificate is asked for with. The texts are strings, or their values.
#[derive(Debug)]
pub struct CertPlan<T> {
    pub domain: T,
    pub email: T,
    pub http_port: u16,
    pub https_port: u16,
}

/// Where the dialogue is: what it waits for.
#[derive(Debug)]
pub enum WizardState<T> {
    /// Whether HTTPS is wanted.
    WantHttps,
    /// Whether `certbot` is installed.
    Certbot,
    /// The domain.
    Domain,
    /// The address for notifications, which may be empty.
    Email { domain: T },
    /// The port for HTTP.
    HttpPort { domain: T, email: T },
    /// The port for HTTPS.
    HttpsPort { domain: T, email: T, http_port: u16 },
    /// Whether the certificate is to be obtained now.
    Confirm(CertPlan<T>),
    /// What came of the run of `certbot`.
    Certify(CertPlan<T>),
}

/// What comes in.
#[derive(Debug)]
pub enum WizardEvent<T> {
    /// A line that was typed.
    Line(T),
    /// Whether `certbot` is installed.
    CertbotInstalled(bool),
    /// Whether `certbot` succeeded, and whether the files of the certificate are there.
    CertbotDone { success: bool, files_exist: bool },
}

/// Why the dialogue ends without a configuration.
#[derive(Debug, Clone, Copy, PartialEq, Eq, Structural)]
pub enum WizardAbort {
    /// `certbot` is not installed.
    NoCertbot,
    /// No domain was given.
    NoDomain,
    /// `certbot` failed.
    CertbotFailed,
    /// The certificate is not where it was expected.
    CertNotFound,
}

/// What follows.
#[derive(Debug)]
pub enum WizardStep<S, C> {
    /// The dialogue goes on.
    Next(S),
    /// The answer was none; the question is asked again.
    Again(S),
    /// The dialogue is over, and this is stored.
    Done(C),
    /// The dialogue is over without a result.
    Abort(WizardAbort),
}

impl View for CertPlan<String> {
    type V = CertPlan<Seq<char>>;

    open spec fn view(&self) -> CertPlan<Seq<char>> {
        CertPlan {
            domain: self.domain@,
            email: self.email@,
            http_port: self.http_port,
            https_port: self.https_port,
        }
    }
}

impl View for WizardState<String> {
    type V = WizardState<Seq<char>>;

    open spec fn view(&self) -> WizardState<Seq<char>> {
        match self {
            WizardState::WantHttps => WizardState::WantHttps,
            WizardState::Certbot => WizardState::Certbot,
            WizardState::Domain => WizardState::Domain,
            WizardState::Email { domain } => WizardState::Email { domain: domain@ },
            WizardState::HttpPort { domain, email } => WizardState::HttpPort {
                domain: domain@,
                email: email@,
            },
            WizardState::HttpsPort { domain, email, http_port } => WizardState::HttpsPort {
                domain: domain@,
                email: email@,
                http_port: *http_port,
            },
            WizardState::Confirm(plan) => WizardState::Confirm(plan@),
            WizardState::Certify(plan) => WizardState::Certify(plan@),
        }
    }
}

impl View for WizardEvent<String> {
    type V = WizardEvent<Seq<char>>;

    open spec fn view(&self) -> WizardEvent<Seq<char>> {
        match self {
            WizardEvent::Line(line) => WizardEvent::Line(line@),
            WizardEvent::CertbotInstalled(installed) => WizardEvent::CertbotInstalled(*installed),
            WizardEvent::CertbotDone { success, files_exist } => WizardEvent::CertbotDone {
                success: *success,
                files_exist: *files_exist,
            },
        }
    }
}

impl View for WizardStep<WizardState<String>, TlsConfig> {
    type V = WizardStep<WizardState<Seq<char>>, TlsConfigView>;

    open spec fn view(&self) -> WizardStep<WizardState<Seq<char>>, TlsConfigView> {
        match self {
            WizardStep::Next(state) => WizardStep::Next(state@),
            WizardStep::Again(state) => WizardStep::Again(state@),
            WizardStep::Done(cfg) => WizardStep::Done(cfg@),
            WizardStep::Abort(why) => WizardStep::Abort(*why),
        }
    }
}

/// The directory that `certbot` keeps a certificate in.
pub open spec fn live_dir(domain: Seq<char>) -> Seq<char> {
    "/etc/letsencrypt/live/"@ + domain
}

/// HTTPS with the certificate of the plan.
pub open spec fn with_cert(plan: CertPlan<Seq<char>>) -> TlsConfigView {
    TlsConfigView {
        enabled: true,
        domain: Some(plan.domain),
        cert: Some(live_dir(plan.domain) + "/fullchain.pem"@),
        key: Some(live_dir(plan.domain) + "/privkey.pem"@),
        http_port: plan.http_port,
        https_port: plan.https_port,
    }
}

/// What follows in a state from what comes in. What the state does not wait for changes
/// nothing.
pub open spec fn wizard_step(
    state: WizardState<Seq<char>>,
    event: WizardEvent<Seq<char>>,
) -> WizardStep<WizardState<Seq<char>>, TlsConfigView> {
    match (state, event) {
        (WizardState::WantHttps, WizardEvent::Line(line)) => match yes_no(line, true) {
            Some(true) => WizardStep::Next(WizardState::Certbot),
            Some(false) => WizardStep::Done(plain_http()),
            None => WizardStep::Again(state),
        },
        (WizardState::Certbot, WizardEvent::CertbotInstalled(installed)) => if installed {
            WizardStep::Next(WizardState::Domain)
        } else {
            WizardStep::Abort(WizardAbort::NoCertbot)
        },
        (WizardState::Domain, WizardEvent::Line(line)) => if text::trimmed(line).len() == 0 {
            WizardStep::Abort(WizardAbort::NoDomain)
        } else {
            WizardStep::Next(WizardState::Email { domain: text::trimmed(line) })
        },
        (WizardState::Email { domain }, WizardEvent::Line(line)) => WizardStep::Next(
            WizardState::HttpPort { domain, email: text::trimmed(line) },
        ),
        (WizardState::HttpPort { domain, email }, WizardEvent::Line(line)) => WizardStep::Next(
            WizardState::HttpsPort { domain, email, http_port: port_in(line, 80) },
        ),
        (WizardState::HttpsPort { domain, email, http_port }, WizardEvent::Line(line)) =>
            WizardStep::Next(
            WizardState::Confirm(
                CertPlan { domain, email, http_port, https_port: port_in(line, 443) },
            ),
        ),
        (WizardState::Confirm(plan), WizardEvent::Line(line)) => match yes_no(line, true) {
            Some(true) => WizardStep::Next(WizardState::Certify(plan)),
            Some(false) => WizardStep::Done(plain_http()),
            None => WizardStep::Again(state),
        },
        (WizardState::Certify(plan), WizardEvent::CertbotDone { success, files_exist }) =>
            if !success {
            WizardStep::Abort(WizardAbort::CertbotFailed)
        } else if !files_exist {
            WizardStep::Abort(WizardAbort::CertNotFound)
        } else {
            WizardStep::Done(with_cert(plan))
        },
        _ => WizardStep::Again(state),
    }
}

/// Where `certbot` keeps the certificate and the key of a domain.
pub fn cert_paths(domain: &str) -> (r: (String, String))
    ensures
        r.0@ == live_dir(domain@) + "/fullchain.pem"@,
        r.1@ == live_dir(domain@) + "/privkey.pem"@,
{
    (
        text::cat3("/etc/letsencrypt/live/", domain, "/fullchain.pem"),
        text::cat3("/etc/letsencrypt/live/", domain, "/privkey.pem"),
    )
}

/// What follows in a state of the dialogue from what comes in.
pub fn run_wizard(state: WizardState<String>, event: WizardEvent<String>) -> (r: WizardStep<
    WizardState<String>,
    TlsConfig,
>)
    ensures
        r@ == wizard_step(state@, event@),
{
    match (state, event) {
        (WizardState::WantHttps, WizardEvent::Line(line)) => match prompt_bool(
            line.as_str(),
            true,
        ) {
            Some(true) => WizardStep::Next(WizardState::Certbot),
            Some(false) => WizardStep::Done(TlsConfig::disabled()),
            None => WizardStep::Again(WizardState::WantHttps),
        },
        (WizardState::Certbot, WizardEvent::CertbotInstalled(installed)) => {
            if installed {
                WizardStep::Next(WizardState::Domain)
            } else {
                WizardStep::Abort(WizardAbort::NoCertbot)
            }
        },
        (WizardState::Domain, WizardEvent::Line(line)) => {
            let domain = prompt_text(line.as_str());
            if domain.as_str().is_empty() {
                WizardStep::Abort(WizardAbort::NoDomain)
            } else {
                WizardStep::Next(WizardState::Email { domain })
            }
        },
        (WizardState::Email { domain }, WizardEvent::Line(line)) => {
            let email = prompt_text(line.as_str());
            WizardStep::Next(WizardState::HttpPort { domain, email })
        },
        (WizardState::HttpPort { domain, email }, WizardEvent::Line(line)) => {
            let http_port: u16 = port_answer(line.as_str(), 80);
            WizardStep::Next(WizardState::HttpsPort { domain, email, http_port })
        },
        (WizardState::HttpsPort { domain, email, http_port }, WizardEvent::Line(line)) => {
            let https_port: u16 = port_answer(line.as_str(), 443);
            let plan = CertPlan { domain, email, http_port, https_port };
            WizardStep::Next(WizardState::Confirm(plan))
        },
        (WizardState::Confirm(plan), WizardEvent::Line(line)) => match prompt_bool(
            line.as_str(),
            true,
        ) {
            Some(true) => WizardStep::Next(WizardState::Certify(plan)),
            Some(false) => WizardStep::Done(TlsConfig::disabled()),
            None => WizardStep::Again(WizardState::Confirm(plan)),
        },
        (WizardState::Certify(plan), WizardEvent::CertbotDone { success, files_exist }) => {
            if !success {
                WizardStep::Abort(WizardAbort::CertbotFailed)
            } else if !files_exist {
                WizardStep::Abort(WizardAbort::CertNotFound)
            } else {
                let (cert, key) = cert_paths(plan.domain.as_str());
                WizardStep::Done(
                    TlsConfig {
                        enabled: true,
                        domain: Some(plan.domain),
                        cert: Some(cert),
                        key: Some(key),
                        http_port: plan.http_port,
                        https_port: plan.https_port,
                    },
                )
            }
        },
        (state, _) => WizardStep::Again(state),
    }
}

// ── certbot ───────────────────────────────────────────────────────────────

/// The arguments of `certbot`: it answers the challenge itself, on the port for HTTP.
pub open spec fn certbot_words(
    domain: Seq<char>,
    email: Seq<char>,
    http_port: u16,
) -> Seq<Seq<char>> {
    seq![
        "certonly"@,
        "--standalone"@,
        "--non-interactive"@,
        "--agree-tos"@,
        "-d"@,
        domain,
        "--http-01-port"@,
        numbers::digits(http_port as nat),
    ] + (if email.len() == 0 {
        seq!["--register-unsafely-without-email"@]
    } else {
        seq!["-m"@, email]
    })
}

/// The arguments of `certbot`.
pub fn certbot_args(domain: &str, email: &str, http_port: u16) -> (r: Vec<String>)
    ensures
        text::views(r@) == certbot_words(domain@, email@, http_port),
{
    let mut args = vec![
        "certonly".to_owned(),
        "--standalone".to_owned(),
        "--non-interactive".to_owned(),
        "--agree-tos".to_owned(),
        "-d".to_owned(),
        domain.to_owned(),
        "--http-01-port".to_owned(),
        numbers::decimal(http_port as u64),
    ];
    if email.is_empty() {
        args.push("--register-unsafely-without-email".to_owned());
    } else {
        args.push("-m".to_owned());
        args.push(email.to_owned());
    }
    proof {
        assert(text::views(args@) =~= certbot_words(domain@, email@, http_port));
    }
    args
}

impl WizardAbort {
    /// What is said when the dialogue ends without a result.
    pub open spec fn text(self, domain: Seq<char>, http_port: u16) -> Seq<char> {
        match self {
            WizardAbort::NoCertbot =>
                "✗ certbot not found. Install it first:\n    sudo apt install certbot\n\n  Then re-run the panel to continue setup.\n  (Or answer 'no' to HTTPS to skip for now)"@,
            WizardAbort::NoDomain => "No domain entered — aborting."@,
            WizardAbort::CertbotFailed =>
                "certbot failed — check the output above.\nMake sure port "@ + numbers::digits(
                http_port as nat,
            ) + " is open and the domain resolves to this server."@,
            WizardAbort::CertNotFound => "Certificate files not found at "@ + live_dir(domain)
                + "\ncertbot may have placed them under a different name."@,
        }
    }

    /// What is said when the dialogue ends without a result.
    pub fn message(self, domain: &str, http_port: u16) -> (r: String)
        ensures
            r@ == self.text(domain@, http_port),
    {
        match self {
            WizardAbort::NoCertbot =>
                "✗ certbot not found. Install it first:\n    sudo apt install certbot\n\n  Then re-run the panel to continue setup.\n  (Or answer 'no' to HTTPS to skip for now)".to_owned(),
            WizardAbort::NoDomain => "No domain entered — aborting.".to_owned(),
            WizardAbort::CertbotFailed => text::cat3(
                "certbot failed — check the output above.\nMake sure port ",
                numbers::decimal(http_port as u64).as_str(),
                " is open and the domain resolves to this server.",
            ),
            WizardAbort::CertNotFound => text::cat3(
                "Certificate files not found at ",
                text::cat("/etc/letsencrypt/live/", domain).as_str(),
                "\ncertbot may have placed them under a different name.",
            ),
        }
    }
}

/// The file that is touched when a certificate was renewed.
pub open spec fn renewal_flag_of(config_dir: Seq<char>) -> Seq<char> {
    paths::joined_path(config_dir, "cert_renewed"@)
}

/// The file that is touched when a certificate was renewed.
pub fn renewal_flag(config_dir: &str) -> (r: String)
    ensures
        r@ == renewal_flag_of(config_dir@),
{
    paths::join_path(config_dir, "cert_renewed")
}

/// The script that `certbot` runs after a renewal.
pub open spec fn hook_text(config_dir: Seq<char>) -> Seq<char> {
    "#!/bin/sh\n# Auto-generated by minecraft-panel\n# Touch a file so the panel knows to reload its TLS certificate.\ntouch '"@
        + renewal_flag_of(config_dir) + "'\n"@
}

/// The script that `certbot` runs after a renewal, so that the panel loads the certificate
/// anew.
pub fn renewal_hook(config_dir: &str) -> (r: String)
    ensures
        r@ == "#!/bin/sh\n# Auto-generated by minecraft-panel\n# Touch a file so the panel knows to reload its TLS certificate.\ntouch '"@
            + renewal_flag_of(config_dir@) + "'\n"@,
        r@ == hook_text(config_dir@),
{
    text::cat3(
        "#!/bin/sh\n# Auto-generated by minecraft-panel\n# Touch a file so the panel knows to reload its TLS certificate.\ntouch '",
        renewal_flag(config_dir).as_str(),
        "'\n",
    )
}

// ── Account dialogue ──────────────────────────────────────────────────────

/// Where the dialogue is: what it waits for.
#[derive(Debug)]
pub enum AccountState<T> {
    Username,
    Password { username: T },
    Confirm { username: T, password: T },
}

/// What is wrong with an answer.
#[derive(Debug, Clone, Copy, PartialEq, Eq, Structural)]
pub enum AccountProblem {
    EmptyUsername,
    UsernameChars,
    ShortPassword,
    Mismatch,
}

impl AccountProblem {
    /// What is said of it.
    pub open spec fn text(self) -> Seq<char> {
        match self {
            AccountProblem::EmptyUsername => "Username cannot be empty."@,
            AccountProblem::UsernameChars => "Username cannot contain spaces or colons."@,
            AccountProblem::ShortPassword => "Password must be at least 8 characters."@,
            AccountProblem::Mismatch => "Passwords do not match."@,
        }
    }

    /// What is said of it.
    pub fn message(self) -> (r: String)
        ensures
            r@ == self.text(),
    {
        match self {
            AccountProblem::EmptyUsername => "Username cannot be empty.".to_owned(),
            AccountProblem::UsernameChars => "Username cannot contain spaces or colons.".to_owned(),
            AccountProblem::ShortPassword => "Password must be at least 8 characters.".to_owned(),
            AccountProblem::Mismatch => "Passwords do not match.".to_owned(),
        }
    }
}

/// What follows.
#[derive(Debug)]
pub enum AccountStep<T> {
    /// The dialogue goes on.
    Next(AccountState<T>),
    /// The answer is refused, and the dialogue goes on from there.
    Refused(AccountProblem, AccountState<T>),
    /// The account is created.
    Create { username: T, password: T },
}

impl View for AccountState<String> {
    type V = AccountState<Seq<char>>;

    open spec fn view(&self) -> AccountState<Seq<char>> {
        match self {
            AccountState::Username => AccountState::Username,
            AccountState::Password { username } => AccountState::Password { username: username@ },
            AccountState::Confirm { username, password } => AccountState::Confirm {
                username: username@,
                password: password@,
            },
        }
    }
}

impl View for AccountStep<String> {
    type V = AccountStep<Seq<char>>;

    open spec fn view(&self) -> AccountStep<Seq<char>> {
        match self {
            AccountStep::Next(state) => AccountStep::Next(state@),
            AccountStep::Refused(problem, state) => AccountStep::Refused(*problem, state@),
            AccountStep::Create { username, password } => AccountStep::Create {
                username: username@,
                password: password@,
            },
        }
    }
}

/// What follows in a state of the dialogue from a line.
pub open spec fn account_step(state: AccountState<Seq<char>>, line: Seq<char>) -> AccountStep<
    Seq<char>,
> {
    let t = text::trimmed(line);
    match state {
        AccountState::Username => if t.len() == 0 {
            AccountStep::Refused(AccountProblem::EmptyUsername, state)
        } else if t.contains(':') || t.contains(' ') {
            AccountStep::Refused(AccountProblem::UsernameChars, state)
        } else {
            AccountStep::Next(AccountState::Password { username: t })
        },
        AccountState::Password { username } => if t.len() < 8 {
            AccountStep::Refused(AccountProblem::ShortPassword, state)
        } else {
            AccountStep::Next(AccountState::Confirm { username, password: t })
        },
        AccountState::Confirm { username, password } => if t == password {
            AccountStep::Create { username, password }
        } else {
            AccountStep::Refused(AccountProblem::Mismatch, AccountState::Password { username })
        },
    }
}

/// What follows in a state of the dialogue from a line.
pub fn run_account_wizard(state: AccountState<String>, line: &str) -> (r: AccountStep<String>)
    ensures
        r@ == account_step(state@, line@),
{
    let t = text::trim(line);
    match state {
        AccountState::Username => {
            if t.as_str().is_empty() {
                AccountStep::Refused(AccountProblem::EmptyUsername, AccountState::Username)
            } else if text::has_char(t.as_str(), CharClass::Is(':')) || text::has_char(
                t.as_str(),
                CharClass::Is(' '),
            ) {
                proof {
                    assert(t@.contains(':') || t@.contains(' '));
                }
                AccountStep::Refused(AccountProblem::UsernameChars, AccountState::Username)
            } else {
                proof {
                    assert forall|i: int| 0 <= i < t@.len() implies t@[i] != ':' && t@[i] != ' ' by {
                        assert(!CharClass::Is(':').has(t@[i]));
                        assert(!CharClass::Is(' ').has(t@[i]));
                    }
                }
                AccountStep::Next(AccountState::Password { username: t })
            }
        },
        AccountState::Password { username } => {
            if text::chars_of(t.as_str()).len() < 8 {
                AccountStep::Refused(
                    AccountProblem::ShortPassword,
                    AccountState::Password { username },
                )
            } else {
                AccountStep::Next(AccountState::Confirm { username, password: t })
            }
        },
        AccountState::Confirm { username, password } => {
            if text::same(t.as_str(), password.as_str()) {
                AccountStep::Create { username, password }
            } else {
                AccountStep::Refused(AccountProblem::Mismatch, AccountState::Password { username })
            }
        },
    }
}

// ── Laws ──────────────────────────────────────────────────────────────────

/// Where the dialogue is after all that came in, as long as it goes on.
pub open spec fn wizard_after(
    state: WizardState<Seq<char>>,
    events: Seq<WizardEvent<Seq<char>>>,
) -> Option<WizardState<Seq<char>>>
    decreases events.len(),
{
    if events.len() == 0 {
        Some(state)
    } else {
        match wizard_after(state, events.drop_last()) {
            Some(before) => match wizard_step(before, events.last()) {
                WizardStep::Next(next) => Some(next),
                WizardStep::Again(next) => Some(next),
                _ => None,
            },
            None => None,
        }
    }
}

/// Whether the state has what the answers before it promise: a domain.
spec fn has_domain(state: WizardState<Seq<char>>) -> bool {
    match state {
        WizardState::Email { domain } => domain.len() > 0,
        WizardState::HttpPort { domain, .. } => domain.len() > 0,
        WizardState::HttpsPort { domain, .. } => domain.len() > 0,
        WizardState::Confirm(plan) => plan.domain.len() > 0,
        WizardState::Certify(plan) => plan.domain.len() > 0,
        _ => true,
    }
}

proof fn lemma_has_domain(events: Seq<WizardEvent<Seq<char>>>)
    ensures
        wizard_after(WizardState::WantHttps, events) matches Some(state) ==> has_domain(state),
    decreases events.len(),
{
    if events.len() > 0 {
        lemma_has_domain(events.drop_last());
    }
}

/// However the dialogue goes, what it ends with is plain HTTP, or HTTPS with a domain and with
/// the certificate that `certbot` has just obtained for that domain.
pub proof fn law_wizard_result(
    events: Seq<WizardEvent<Seq<char>>>,
    last: WizardEvent<Seq<char>>,
    cfg: TlsConfigView,
)
    requires
        wizard_after(WizardState::WantHttps, events) matches Some(state) && wizard_step(state, last)
            == WizardStep::<WizardState<Seq<char>>, TlsConfigView>::Done(cfg),
    ensures
        cfg == plain_http() || {
            &&& cfg.enabled
            &&& cfg.domain matches Some(domain) && {
                &&& domain.len() > 0
                &&& cfg.cert == Some(live_dir(domain) + "/fullchain.pem"@)
                &&& cfg.key == Some(live_dir(domain) + "/privkey.pem"@)
                &&& last == WizardEvent::<Seq<char>>::CertbotDone {
                    success: true,
                    files_exist: true,
                }
            }
        },
{
    lemma_has_domain(events);
}

/// Where the account dialogue is after all lines, as long as it goes on.
pub open spec fn account_after(lines: Seq<Seq<char>>) -> Option<AccountState<Seq<char>>>
    decreases lines.len(),
{
    if lines.len() == 0 {
        Some(AccountState::Username)
    } else {
        match account_after(lines.drop_last()) {
            Some(before) => match account_step(before, lines.last()) {
                AccountStep::Next(next) => Some(next),
                AccountStep::Refused(_, next) => Some(next),
                _ => None,
            },
            None => None,
        }
    }
}

/// Whether a name may be given to the first account.
pub open spec fn is_account_name(username: Seq<char>) -> bool {
    username.len() > 0 && !username.contains(':') && !username.contains(' ')
}

spec fn is_checked(state: AccountState<Seq<char>>) -> bool {
    match state {
        AccountState::Username => true,
        AccountState::Password { username } => is_account_name(username),
        AccountState::Confirm { username, password } => is_account_name(username) && password.len()
            >= 8,
    }
}

proof fn lemma_checked(lines: Seq<Seq<char>>)
    ensures
        account_after(lines) matches Some(state) ==> is_checked(state),
    decreases lines.len(),
{
    if lines.len() > 0 {
        lemma_checked(lines.drop_last());
    }
}

/// However the dialogue goes, the account that it creates has a name without spaces and colons
/// and a password of eight characters at least, typed twice.
pub proof fn law_account_result(
    lines: Seq<Seq<char>>,
    last: Seq<char>,
    username: Seq<char>,
    password: Seq<char>,
)
    requires
        account_after(lines) matches Some(state) && account_step(state, last)
            == (AccountStep::<Seq<char>>::Create { username, password }),
    ensures
        is_account_name(username),
        password.len() >= 8,
        text::trimmed(last) == password,
{
    lemma_checked(lines);
}

/// An answer is yes or no in whatever case and whatever white space stands around it; an empty
/// answer is the default, and any other is none.
pub proof fn law_yes_or_no(front: Seq<char>, word: Seq<char>, back: Seq<char>, default: bool)
    requires
        forall|i: int| 0 <= i < front.len() ==> text::is_white(#[trigger] front[i]),
        forall|i: int| 0 <= i < back.len() ==> text::is_white(#[trigger] back[i]),
        word.len() > 0 ==> !text::is_white(word[0]) && !text::is_white(word.last()),
    ensures
        ({
            let answer = yes_no(front + word + back, default);
            let low = text::ascii_lower(word);
            &&& word.len() == 0 ==> answer == Some(default)
            &&& low == "y"@ || low == "yes"@ ==> answer == Some(true)
            &&& low == "n"@ || low == "no"@ ==> answer == Some(false)
            &&& word.len() > 0 && low != "y"@ && low != "yes"@ && low != "n"@ && low != "no"@
                ==> answer.is_none()
        }),
{
    text::law_trim(front, word, back);
    reveal_strlit("y");
    reveal_strlit("yes");
    reveal_strlit("n");
    reveal_strlit("no");
    assert("y"@[0] == 'y' && "yes"@[0] == 'y' && "n"@[0] == 'n' && "no"@[0] == 'n');
}

/// A port that is typed is taken, whatever white space stands around it; the default is taken
/// where nothing is typed, and where the number is too large.
pub proof fn law_typed_port(front: Seq<char>, n: nat, back: Seq<char>, default: u16)
    requires
        forall|i: int| 0 <= i < front.len() ==> text::is_white(#[trigger] front[i]),
        forall|i: int| 0 <= i < back.len() ==> text::is_white(#[trigger] back[i]),
    ensures
        n <= 65535 ==> port_in(front + numbers::digits(n) + back, default) == n,
        n > 65535 ==> port_in(front + numbers::digits(n) + back, default) == default,
        port_in(front + back, default) == default,
{
    let d = numbers::digits(n);
    numbers::law_decimal_reads_back(n, 65535);
    numbers::lemma_digits_plain(n);
    text::law_white_space(d[0]);
    text::law_white_space(d.last());
    assert(d.last() == d[d.len() - 1]);
    text::law_trim(front, d, back);
    text::law_trim(front, Seq::empty(), back);
    assert(front + Seq::<char>::empty() + back =~= front + back);
}

/// Whoever wants HTTPS, gives a domain, an address and two ports and lets the certificate be
/// obtained, gets HTTPS for that domain on those ports, with the certificate that is kept under
/// the name of the domain.
pub proof fn law_https_dialogue(
    yes: Seq<char>,
    domain: Seq<char>,
    email: Seq<char>,
    http: u16,
    https: u16,
    again: Seq<char>,
)
    requires
        yes_no(yes, true) == Some(true),
        yes_no(again, true) == Some(true),
        domain.len() > 0,
        !text::is_white(domain[0]) && !text::is_white(domain.last()),
        email.len() > 0 ==> !text::is_white(email[0]) && !text::is_white(email.last()),
    ensures
        ({
            let plan = CertPlan { domain, email, http_port: http, https_port: https };
            let events = seq![
                WizardEvent::Line(yes),
                WizardEvent::CertbotInstalled(true),
                WizardEvent::Line(domain),
                WizardEvent::Line(email),
                WizardEvent::Line(numbers::digits(http as nat)),
                WizardEvent::Line(numbers::digits(https as nat)),
                WizardEvent::Line(again),
            ];
            &&& wizard_after(WizardState::WantHttps, events) == Some(WizardState::Certify(plan))
            &&& wizard_step(
                WizardState::Certify(plan),
                WizardEvent::CertbotDone { success: true, files_exist: true },
            ) == WizardStep::<WizardState<Seq<char>>, TlsConfigView>::Done(
                TlsConfigView {
                    enabled: true,
                    domain: Some(domain),
                    cert: Some("/etc/letsencrypt/live/"@ + domain + "/fullchain.pem"@),
                    key: Some("/etc/letsencrypt/live/"@ + domain + "/privkey.pem"@),
                    http_port: http,
                    https_port: https,
                },
            )
        }),
{
    let none = Seq::<char>::empty();
    text::law_trim(none, domain, none);
    text::law_trim(none, email, none);
    law_typed_port(none, http as nat, none, 80);
    law_typed_port(none, https as nat, none, 443);
    let (dh, ds) = (numbers::digits(http as nat), numbers::digits(https as nat));
    assert(none + domain + none =~= domain);
    assert(none + email + none =~= email);
    assert(none + dh + none =~= dh);
    assert(none + ds + none =~= ds);
    let plan = CertPlan { domain, email, http_port: http, https_port: https };
    let e1 = seq![WizardEvent::Line(yes)];
    let e2 = e1.push(WizardEvent::CertbotInstalled(true));
    let e3 = e2.push(WizardEvent::Line(domain));
    let e4 = e3.push(WizardEvent::Line(email));
    let e5 = e4.push(WizardEvent::Line(dh));
    let e6 = e5.push(WizardEvent::Line(ds));
    let e7 = e6.push(WizardEvent::Line(again));
    let s0 = WizardState::<Seq<char>>::WantHttps;
    assert(e1.drop_last() =~= Seq::<WizardEvent<Seq<char>>>::empty());
    assert(wizard_after(s0, e1.drop_last()) == Some(s0));
    assert(wizard_after(s0, e1) == Some(WizardState::<Seq<char>>::Certbot));
    assert(e2.drop_last() =~= e1);
    assert(wizard_after(s0, e2) == Some(WizardState::<Seq<char>>::Domain));
    assert(e3.drop_last() =~= e2);
    assert(wizard_after(s0, e3) == Some(WizardState::Email { domain }));
    assert(e4.drop_last() =~= e3);
    assert(wizard_after(s0, e4) == Some(WizardState::HttpPort { domain, email }));
    assert(e5.drop_last() =~= e4);
    assert(wizard_after(s0, e5) == Some(WizardState::HttpsPort { domain, email, http_port: http }));
    assert(e6.drop_last() =~= e5);
    assert(wizard_after(s0, e6) == Some(WizardState::Confirm(plan)));
    assert(e7.drop_last() =~= e6);
    assert(wizard_after(s0, e7) == Some(WizardState::Certify(plan)));
    assert(e7 =~= seq![
        WizardEvent::Line(yes),
        WizardEvent::CertbotInstalled(true),
        WizardEvent::Line(domain),
        WizardEvent::Line(email),
        WizardEvent::Line(dh),
        WizardEvent::Line(ds),
        WizardEvent::Line(again),
    ]);
}

/// Whoever does not want HTTPS, or not the certificate now, gets plain HTTP, and an answer that
/// is neither yes nor no is asked for again. Without `certbot`, without a domain and without the
/// certificate the dialogue ends with nothing.
pub proof fn law_dialogue_ends(
    line: Seq<char>,
    blank: Seq<char>,
    plan: CertPlan<Seq<char>>,
    files_exist: bool,
)
    requires
        forall|i: int| 0 <= i < blank.len() ==> text::is_white(#[trigger] blank[i]),
    ensures
        yes_no(line, true) == Some(false) ==> {
            &&& wizard_step(WizardState::WantHttps, WizardEvent::Line(line)) == WizardStep::<
                WizardState<Seq<char>>,
                TlsConfigView,
            >::Done(plain_http())
            &&& wizard_step(WizardState::Confirm(plan), WizardEvent::Line(line)) == WizardStep::<
                WizardState<Seq<char>>,
                TlsConfigView,
            >::Done(plain_http())
        },
        yes_no(line, true).is_none() ==> {
            &&& wizard_step(WizardState::WantHttps, WizardEvent::Line(line)) == WizardStep::<
                WizardState<Seq<char>>,
                TlsConfigView,
            >::Again(WizardState::WantHttps)
            &&& wizard_step(WizardState::Confirm(plan), WizardEvent::Line(line)) == WizardStep::<
                WizardState<Seq<char>>,
                TlsConfigView,
            >::Again(WizardState::Confirm(plan))
        },
        wizard_step(WizardState::Certbot, WizardEvent::CertbotInstalled(false)) == WizardStep::<
            WizardState<Seq<char>>,
            TlsConfigView,
        >::Abort(WizardAbort::NoCertbot),
        wizard_step(WizardState::Domain, WizardEvent::Line(blank)) == WizardStep::<
            WizardState<Seq<char>>,
            TlsConfigView,
        >::Abort(WizardAbort::NoDomain),
        wizard_step(
            WizardState::Certify(plan),
            WizardEvent::CertbotDone { success: false, files_exist },
        ) == WizardStep::<WizardState<Seq<char>>, TlsConfigView>::Abort(WizardAbort::CertbotFailed),
        wizard_step(
            WizardState::Certify(plan),
            WizardEvent::CertbotDone { success: true, files_exist: false },
        ) == WizardStep::<WizardState<Seq<char>>, TlsConfigView>::Abort(WizardAbort::CertNotFound),
        !plain_http().enabled,
        plain_http().domain.is_none(),
        plain_http().cert.is_none(),
        plain_http().key.is_none(),
        plain_http().http_port == 80,
        plain_http().https_port == 443,
{
    let none = Seq::<char>::empty();
    text::law_trim(blank, none, none);
    assert(blank + none + none =~= blank);
}

/// `certbot` is asked for a certificate of the domain, answers the challenge on the port for
/// HTTP, and is told the address for notifications or that there is none.
pub proof fn law_certbot_is_asked(domain: Seq<char>, email: Seq<char>, http_port: u16)
    ensures
        ({
            let words = certbot_words(domain, email, http_port);
            &&& words.take(4) == seq![
                "certonly"@,
                "--standalone"@,
                "--non-interactive"@,
                "--agree-tos"@,
            ]
            &&& words[4] == "-d"@ && words[5] == domain
            &&& words[6] == "--http-01-port"@ && numbers::parsed(words[7], 65535) == Some(
                http_port as nat,
            )
            &&& email.len() == 0 ==> words.skip(8) == seq!["--register-unsafely-without-email"@]
            &&& email.len() > 0 ==> words.skip(8) == seq!["-m"@, email]
        }),
{
    numbers::law_decimal_reads_back(http_port as nat, 65535);
    let words = certbot_words(domain, email, http_port);
    assert(words.take(4) =~= seq![
        "certonly"@,
        "--standalone"@,
        "--non-interactive"@,
        "--agree-tos"@,
    ]);
    if email.len() == 0 {
        assert(words.skip(8) =~= seq!["--register-unsafely-without-email"@]);
    } else {
        assert(words.skip(8) =~= seq!["-m"@, email]);
    }
}

/// Whoever is told that `certbot` failed is told the port, and whoever is told that the
/// certificate is missing is told where it was expected.
pub proof fn law_aborts_tell(domain: Seq<char>, http_port: u16)
    ensures
        text::has_text(
            WizardAbort::CertbotFailed.text(domain, http_port),
            "Make sure port "@ + numbers::digits(http_port as nat) + " is open"@,
        ),
        text::has_text(
            WizardAbort::CertNotFound.text(domain, http_port),
            "not found at /etc/letsencrypt/live/"@ + domain,
        ),
{
    reveal_strlit("certbot failed — check the output above.\nMake sure port ");
    reveal_strlit(" is open and the domain resolves to this server.");
    reveal_strlit("Make sure port ");
    reveal_strlit(" is open");
    reveal_strlit("Certificate files not found at ");
    reveal_strlit("/etc/letsencrypt/live/");
    reveal_strlit("not found at /etc/letsencrypt/live/");
    let d = numbers::digits(http_port as nat);
    let failed = WizardAbort::CertbotFailed.text(domain, http_port);
    let p = "Make sure port "@ + d + " is open"@;
    let at = "certbot failed — check the output above.\nMake sure port "@.len() - 15;
    assert(failed.subrange(at, at + p.len()) =~= p);
    assert(text::occurs_at(failed, p, at));
    let missing = WizardAbort::CertNotFound.text(domain, http_port);
    let q = "not found at /etc/letsencrypt/live/"@ + domain;
    assert(missing.subrange(18, 18 + q.len() as int) =~= q);
    assert(text::occurs_at(missing, q, 18));
}

/// A name without blanks and colons and a password of eight characters or more, typed twice, make
/// the account of that name and that password.
pub proof fn law_account_dialogue(username: Seq<char>, password: Seq<char>)
    requires
        username.len() > 0,
        !username.contains(' '),
        !username.contains(':'),
        !text::is_white(username[0]) && !text::is_white(username.last()),
        password.len() >= 8,
        !text::is_white(password[0]) && !text::is_white(password.last()),
    ensures
        account_after(seq![username, password]) matches Some(state) && account_step(state, password)
            == (AccountStep::<Seq<char>>::Create { username, password }),
{
    let none = Seq::<char>::empty();
    text::law_trim(none, username, none);
    text::law_trim(none, password, none);
    assert(none + username + none =~= username);
    assert(none + password + none =~= password);
    let one = seq![username];
    let two = seq![username, password];
    assert(one.drop_last() =~= Seq::<Seq<char>>::empty());
    assert(account_after(one.drop_last()) == Some(AccountState::<Seq<char>>::Username));
    assert(account_after(one) == Some(AccountState::Password { username }));
    assert(two.drop_last() =~= one);
    assert(two.last() == password);
    assert(account_after(two) == Some(AccountState::Confirm { username, password }));
}

/// What is wrong is said, and asked for again: an empty name, a blank or a colon in it, a password
/// that is too short. Where the second password is not the first one both are asked for again.
pub proof fn law_account_problems(
    blank: Seq<char>,
    line: Seq<char>,
    username: Seq<char>,
    password: Seq<char>,
)
    requires
        forall|i: int| 0 <= i < blank.len() ==> text::is_white(#[trigger] blank[i]),
        line.len() > 0,
        !text::is_white(line[0]) && !text::is_white(line.last()),
    ensures
        account_step(AccountState::Username, blank) == AccountStep::<Seq<char>>::Refused(
            AccountProblem::EmptyUsername,
            AccountState::Username,
        ),
        line.contains(' ') || line.contains(':') ==> account_step(AccountState::Username, line)
            == AccountStep::<Seq<char>>::Refused(
            AccountProblem::UsernameChars,
            AccountState::Username,
        ),
        line.len() < 8 ==> account_step(AccountState::Password { username }, line)
            == AccountStep::<Seq<char>>::Refused(
            AccountProblem::ShortPassword,
            AccountState::Password { username },
        ),
        line != password ==> account_step(AccountState::Confirm { username, password }, line)
            == AccountStep::<Seq<char>>::Refused(
            AccountProblem::Mismatch,
            AccountState::Password { username },
        ),
        AccountProblem::EmptyUsername.text() == "Username cannot be empty."@,
        AccountProblem::UsernameChars.text() == "Username cannot contain spaces or colons."@,
        AccountProblem::ShortPassword.text() == "Password must be at least 8 characters."@,
        AccountProblem::Mismatch.text() == "Passwords do not match."@,
{
    let none = Seq::<char>::empty();
    text::law_trim(blank, none, none);
    text::law_trim(none, line, none);
    assert(blank + none + none =~= blank);
    assert(none + line + none =~= line);
}

/// The file that tells of a renewal stands in the configuration directory.
pub proof fn law_renewal_flag(config_dir: Seq<char>)
    requires
        config_dir.len() > 0,
        config_dir.last() != '/',
    ensures
        renewal_flag_of(config_dir) == config_dir + "/cert_renewed"@,
{
    reveal_strlit("cert_renewed");
    reveal_strlit("/cert_renewed");
    assert(config_dir + seq!['/'] + "cert_renewed"@ =~= config_dir + "/cert_renewed"@);
}

/// What is typed is taken without white space around it, and the default where nothing is typed.
pub proof fn law_typed_or_default(
    front: Seq<char>,
    typed: Seq<char>,
    back: Seq<char>,
    default: Seq<char>,
)
    requires
        forall|i: int| 0 <= i < front.len() ==> text::is_white(#[trigger] front[i]),
        forall|i: int| 0 <= i < back.len() ==> text::is_white(#[trigger] back[i]),
        typed.len() > 0 ==> !text::is_white(typed[0]) && !text::is_white(typed.last()),
    ensures
        typed.len() > 0 ==> answer_or(front + typed + back, default) == typed,
        typed.len() == 0 ==> answer_or(front + typed + back, default) == default,
{
    text::law_trim(front, typed, back);
}

/// After a renewal the file is touched that tells the panel of it.
pub proof fn law_hook_touches_flag(config_dir: Seq<char>)
    ensures
        text::begins(hook_text(config_dir), "#!/bin/sh\n"@),
        text::ends(hook_text(config_dir), "touch '"@ + renewal_flag_of(config_dir) + "'\n"@),
{
    let head = "#!/bin/sh\n# Auto-generated by minecraft-panel\n# Touch a file so the panel knows to reload its TLS certificate.\ntouch '"@;
    reveal_strlit("#!/bin/sh\n# Auto-generated by minecraft-panel\n# Touch a file so the panel knows to reload its TLS certificate.\ntouch '");
    reveal_strlit("#!/bin/sh\n");
    reveal_strlit("touch '");
    let flag = renewal_flag_of(config_dir);
    let all = hook_text(config_dir);
    let last = "touch '"@ + flag + "'\n"@;
    let n = all.len() as int;
    let m = last.len() as int;
    assert(all.subrange(0, 10) =~= "#!/bin/sh\n"@);
    assert(all.subrange(n - m, n) =~= last);
}

/// The panel begins with the dialogue where nothing is stored or where that is asked for. What is
/// stored counts, unless it is HTTPS and the certificate or its key is not there.
pub proof fn law_startup(cfg: TlsConfigView, cert_exists: bool, key_exists: bool)
    ensures
        startup_of(None, cert_exists, key_exists, false) == Startup::Wizard,
        startup_of(None, cert_exists, key_exists, true) == Startup::Wizard,
        startup_of(Some(cfg), cert_exists, key_exists, true) == Startup::Wizard,
        !cfg.enabled ==> startup_of(Some(cfg), cert_exists, key_exists, false) == Startup::Stored,
        cfg.enabled && cfg.cert.is_some() && cfg.key.is_some() ==> startup_of(
            Some(cfg),
            true,
            true,
            false,
        ) == Startup::Stored,
        cfg.enabled ==> startup_of(Some(cfg), false, key_exists, false)
            == Startup::WizardCertMissing,
        cfg.enabled ==> startup_of(Some(cfg), cert_exists, false, false)
            == Startup::WizardCertMissing,
        cfg.enabled && (cfg.cert.is_none() || cfg.key.is_none()) ==> startup_of(
            Some(cfg),
            cert_exists,
            key_exists,
            false,
        ) == Startup::WizardCertMissing,
{
}

/// Where no port is typed the usual ones are taken: 80 for HTTP and 443 for HTTPS.
pub proof fn law_usual_ports(
    domain: Seq<char>,
    email: Seq<char>,
    http_port: u16,
    blank: Seq<char>,
)
    requires
        forall|i: int| 0 <= i < blank.len() ==> text::is_white(#[trigger] blank[i]),
    ensures
        wizard_step(WizardState::HttpPort { domain, email }, WizardEvent::Line(blank))
            == WizardStep::<WizardState<Seq<char>>, TlsConfigView>::Next(
            WizardState::HttpsPort { domain, email, http_port: 80 },
        ),
        wizard_step(WizardState::HttpsPort { domain, email, http_port }, WizardEvent::Line(blank))
            == WizardStep::<WizardState<Seq<char>>, TlsConfigView>::Next(
            WizardState::Confirm(CertPlan { domain, email, http_port, https_port: 443 }),
        ),
{
    let none = Seq::<char>::empty();
    law_typed_port(blank, 0, none, 80);
    law_typed_port(blank, 0, none, 443);
    assert(blank + none =~= blank);
}

/// A configuration stands for what its fields hold.
pub proof fn law_value_of_tls(cfg: TlsConfig)
    ensures
        cfg@.enabled == cfg.enabled,
        cfg.domain matches Some(s) ==> cfg@.domain == Some(s@),
        cfg.domain.is_none() ==> cfg@.domain.is_none(),
        cfg.cert matches Some(s) ==> cfg@.cert == Some(s@),
        cfg.cert.is_none() ==> cfg@.cert.is_none(),
        cfg.key matches Some(s) ==> cfg@.key == Some(s@),
        cfg.key.is_none() ==> cfg@.key.is_none(),
        cfg@.http_port == cfg.http_port,
        cfg@.https_port == cfg.https_port,
{
}

/// What a certificate is asked for with stands for what its fields hold.
pub proof fn law_value_of_plan(plan: CertPlan<String>)
    ensures
        plan@.domain == plan.domain@,
        plan@.email == plan.email@,
        plan@.http_port == plan.http_port,
        plan@.https_port == plan.https_port,
{
}

/// The states of the dialogue for HTTPS, and what comes in, stand for what they hold.
pub proof fn law_values_of_wizard(state: WizardState<String>, event: WizardEvent<String>)
    ensures
        state matches WizardState::Email { domain } ==> (state@ matches WizardState::Email {
            domain: d,
        } && d == domain@),
        state matches WizardState::HttpPort { domain, email } ==> (
        state@ matches WizardState::HttpPort { domain: d, email: e } && d == domain@ && e
            == email@),
        state matches WizardState::HttpsPort { domain, email, http_port } ==> (
        state@ matches WizardState::HttpsPort { domain: d, email: e, http_port: p } && d == domain@
            && e == email@ && p == http_port),
        state matches WizardState::Confirm(plan) ==> (state@ matches WizardState::Confirm(p) && p
            == plan@),
        state matches WizardState::Certify(plan) ==> (state@ matches WizardState::Certify(p) && p
            == plan@),
        event matches WizardEvent::Line(line) ==> (event@ matches WizardEvent::Line(t) && t
            == line@),
        event matches WizardEvent::CertbotInstalled(on) ==> (
        event@ matches WizardEvent::CertbotInstalled(o) && o == on),
{
}

/// The states and the outcome of the dialogue for the first account stand for what they hold.
pub proof fn law_values_of_account(state: AccountState<String>, step: AccountStep<String>)
    ensures
        state matches AccountState::Password { username } ==> (
        state@ matches AccountState::Password { username: u } && u == username@),
        state matches AccountState::Confirm { username, password } ==> (
        state@ matches AccountState::Confirm { username: u, password: p } && u == username@ && p
            == password@),
        step matches AccountStep::Create { username, password } ==> (
        step@ matches AccountStep::Create { username: u, password: p } && u == username@ && p
            == password@),
{
}

/// Whatever is read as a port without the white space around it is that port, and whatever is not
/// leaves the default.
pub proof fn law_port_is_read(line: Seq<char>, default: u16)
    ensures
        numbers::parsed(text::trimmed(line), 65535) matches Some(n) ==> port_in(line, default) == n,
        numbers::parsed(text::trimmed(line), 65535).is_none() ==> port_in(line, default) == default,
{
}

} // verus!
