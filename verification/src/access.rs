//! What the panel answers to, and who may ask.
//!
//! Every address of the panel is an [`Endpoint`]. Some are open to everybody. All others ask
//! for a user who is logged in, whose role reaches far enough and who may see the server.
use vstd::prelude::*;

use crate::text;
use crate::users;
use crate::users::UserRole;
use crate::users::UserStore;
use crate::users::UserView;

verus! {

// ── Endpoints ─────────────────────────────────────────────────────────────

/// How an endpoint is asked.
#[derive(Debug, Clone, Copy, PartialEq, Eq, Structural)]
pub enum HttpMethod {
    Get,
    Post,
    Put,
    Delete,
}

/// What the panel answers to.
#[derive(Debug, Clone, Copy, PartialEq, Eq, Structural)]
pub enum Endpoint {
    /// Log in.
    Login,
    /// Log out.
    Logout,
    /// Who is logged in. Answers by itself whoever is not.
    Me,
    /// Whether the panel waits to be set up.
    SetupStatus,
    /// Create the first account. Closed once there is one.
    SetupCreate,
    /// A summary of all servers.
    Dashboard,
    /// The servers.
    ServersList,
    /// Create a server.
    ServersCreate,
    /// Delete a server.
    ServersDelete,
    /// The status of a server.
    Status,
    /// The load of a server.
    Stats,
    /// Start a server.
    Start,
    /// Stop a server.
    Stop,
    /// Restart a server.
    Restart,
    /// The console as it goes on.
    Logs,
    /// The lines of the console.
    LogsHistory,
    /// Clear the console.
    LogsClear,
    /// Send a command.
    Command,
    /// Who is on a server.
    Players,
    /// Who joined, left and died.
    ActivityLog,
    /// Clear the activity log.
    ActivityClear,
    /// The deaths of all players.
    Deaths,
    /// The deaths of named mobs.
    DeathsVillagers,
    /// The deaths of one player.
    DeathsPlayer,
    /// List a directory.
    FilesDir,
    /// Read a file.
    FileContent,
    /// Write a file.
    FileWrite,
    /// List the mods.
    Mods,
    /// Install a mod.
    ModInstall,
    /// Enable a mod.
    ModEnable,
    /// Disable a mod.
    ModDisable,
    /// Remove a mod.
    ModRemove,
    /// Read the compose file.
    ConfigGet,
    /// Write the compose file.
    ConfigSet,
    /// Backup configuration and archives.
    BackupGet,
    /// Set up backups.
    BackupSet,
    /// Switch GPU support.
    OpenCl,
    /// List the accounts.
    UsersList,
    /// Create an account.
    UsersCreate,
    /// Change an account.
    UsersUpdate,
    /// Delete an account.
    UsersDelete,
    /// Change a password: anybody their own.
    UsersPassword,
    /// Restrict an account to servers.
    UsersServers,
    /// The status of a server, for everybody.
    PublicStatus,
    /// The load of a server, for everybody.
    PublicStats,
    /// Who is on a server, for everybody.
    PublicPlayers,
    /// How often each player died, for everybody.
    PublicDeaths,
    /// The status page of a server.
    StatusPage,
    /// The icon.
    FaviconIco,
    /// The icon.
    FaviconPng,
    /// The page to log in.
    LoginPage,
    /// The page to set up the panel.
    SetupPage,
    /// The page for viewers.
    ViewerPage,
    /// The page for all servers.
    DashboardPage,
    /// The page for small screens.
    MobilePage,
    /// The page of a server.
    ServerPage,
    /// The first page.
    IndexPage,
}

/// Whom an endpoint is open to.
#[derive(Debug, Clone, Copy, PartialEq, Eq, Structural)]
pub enum Need {
    /// Everybody.
    Nothing,
    /// Users whose role reaches as far as this.
    Role(UserRole),
}

impl Endpoint {
    /// How the endpoint is asked.
    pub open spec fn method_spec(self) -> HttpMethod {
        match self {
            Endpoint::Login
            | Endpoint::Logout
            | Endpoint::SetupCreate
            | Endpoint::ServersCreate
            | Endpoint::Start
            | Endpoint::Stop
            | Endpoint::Restart
            | Endpoint::LogsClear
            | Endpoint::Command
            | Endpoint::ActivityClear
            | Endpoint::FileWrite
            | Endpoint::ModInstall
            | Endpoint::ModEnable
            | Endpoint::ModDisable
            | Endpoint::ModRemove
            | Endpoint::ConfigSet
            | Endpoint::BackupSet
            | Endpoint::OpenCl
            | Endpoint::UsersCreate
            | Endpoint::UsersPassword => HttpMethod::Post,
            Endpoint::ServersDelete
            | Endpoint::UsersDelete => HttpMethod::Delete,
            Endpoint::UsersUpdate
            | Endpoint::UsersServers => HttpMethod::Put,
            _ => HttpMethod::Get,
        }
    }

    /// How the endpoint is asked.
    pub fn method(self) -> (r: HttpMethod)
        ensures
            r == self.method_spec(),
    {
        match self {
            Endpoint::Login
            | Endpoint::Logout
            | Endpoint::SetupCreate
            | Endpoint::ServersCreate
            | Endpoint::Start
            | Endpoint::Stop
            | Endpoint::Restart
            | Endpoint::LogsClear
            | Endpoint::Command
            | Endpoint::ActivityClear
            | Endpoint::FileWrite
            | Endpoint::ModInstall
            | Endpoint::ModEnable
            | Endpoint::ModDisable
            | Endpoint::ModRemove
            | Endpoint::ConfigSet
            | Endpoint::BackupSet
            | Endpoint::OpenCl
            | Endpoint::UsersCreate
            | Endpoint::UsersPassword => HttpMethod::Post,
            Endpoint::ServersDelete
            | Endpoint::UsersDelete => HttpMethod::Delete,
            Endpoint::UsersUpdate
            | Endpoint::UsersServers => HttpMethod::Put,
            _ => HttpMethod::Get,
        }
    }

    /// Where the endpoint is, with a colon before each part that varies.
    pub open spec fn path_text(self) -> Seq<char> {
        match self {
            Endpoint::Login => "/api/auth/login"@,
            Endpoint::Logout => "/api/auth/logout"@,
            Endpoint::Me => "/api/auth/me"@,
            Endpoint::SetupStatus => "/api/setup"@,
            Endpoint::SetupCreate => "/api/setup"@,
            Endpoint::Dashboard => "/api/dashboard"@,
            Endpoint::ServersList => "/api/servers"@,
            Endpoint::ServersCreate => "/api/servers"@,
            Endpoint::ServersDelete => "/api/servers/:id"@,
            Endpoint::Status => "/api/servers/:id/status"@,
            Endpoint::Stats => "/api/servers/:id/stats"@,
            Endpoint::Start => "/api/servers/:id/start"@,
            Endpoint::Stop => "/api/servers/:id/stop"@,
            Endpoint::Restart => "/api/servers/:id/restart"@,
            Endpoint::Logs => "/api/servers/:id/logs"@,
            Endpoint::LogsHistory => "/api/servers/:id/logs/history"@,
            Endpoint::LogsClear => "/api/servers/:id/logs/clear"@,
            Endpoint::Command => "/api/servers/:id/command"@,
            Endpoint::Players => "/api/servers/:id/players"@,
            Endpoint::ActivityLog => "/api/servers/:id/activity"@,
            Endpoint::ActivityClear => "/api/servers/:id/activity/clear"@,
            Endpoint::Deaths => "/api/servers/:id/deaths"@,
            Endpoint::DeathsVillagers => "/api/servers/:id/deaths/villagers"@,
            Endpoint::DeathsPlayer => "/api/servers/:id/deaths/:player"@,
            Endpoint::FilesDir => "/api/servers/:id/files"@,
            Endpoint::FileContent => "/api/servers/:id/files/content"@,
            Endpoint::FileWrite => "/api/servers/:id/files/write"@,
            Endpoint::Mods => "/api/servers/:id/mods"@,
            Endpoint::ModInstall => "/api/servers/:id/mods/install"@,
            Endpoint::ModEnable => "/api/servers/:id/mods/enable"@,
            Endpoint::ModDisable => "/api/servers/:id/mods/disable"@,
            Endpoint::ModRemove => "/api/servers/:id/mods/remove"@,
            Endpoint::ConfigGet => "/api/servers/:id/config"@,
            Endpoint::ConfigSet => "/api/servers/:id/config"@,
            Endpoint::BackupGet => "/api/servers/:id/backup"@,
            Endpoint::BackupSet => "/api/servers/:id/backup"@,
            Endpoint::OpenCl => "/api/servers/:id/opencl"@,
            Endpoint::UsersList => "/api/users"@,
            Endpoint::UsersCreate => "/api/users"@,
            Endpoint::UsersUpdate => "/api/users/:username"@,
            Endpoint::UsersDelete => "/api/users/:username"@,
            Endpoint::UsersPassword => "/api/users/:username/password"@,
            Endpoint::UsersServers => "/api/users/:username/servers"@,
            Endpoint::PublicStatus => "/api/public/:id/status"@,
            Endpoint::PublicStats => "/api/public/:id/stats"@,
            Endpoint::PublicPlayers => "/api/public/:id/players"@,
            Endpoint::PublicDeaths => "/api/public/:id/deaths"@,
            Endpoint::StatusPage => "/s/:id"@,
            Endpoint::FaviconIco => "/favicon.ico"@,
            Endpoint::FaviconPng => "/favicon.png"@,
            Endpoint::LoginPage => "/login"@,
            Endpoint::SetupPage => "/setup"@,
            Endpoint::ViewerPage => "/view"@,
            Endpoint::DashboardPage => "/dashboard"@,
            Endpoint::MobilePage => "/mobile"@,
            Endpoint::ServerPage => "/server/:id"@,
            Endpoint::IndexPage => "/"@,
        }
    }

    /// Where the endpoint is, with a colon before each part that varies.
    pub fn path(self) -> (r: String)
        ensures
            r@ == self.path_text(),
    {
        match self {
            Endpoint::Login => "/api/auth/login".to_owned(),
            Endpoint::Logout => "/api/auth/logout".to_owned(),
            Endpoint::Me => "/api/auth/me".to_owned(),
            Endpoint::SetupStatus => "/api/setup".to_owned(),
            Endpoint::SetupCreate => "/api/setup".to_owned(),
            Endpoint::Dashboard => "/api/dashboard".to_owned(),
            Endpoint::ServersList => "/api/servers".to_owned(),
            Endpoint::ServersCreate => "/api/servers".to_owned(),
            Endpoint::ServersDelete => "/api/servers/:id".to_owned(),
            Endpoint::Status => "/api/servers/:id/status".to_owned(),
            Endpoint::Stats => "/api/servers/:id/stats".to_owned(),
            Endpoint::Start => "/api/servers/:id/start".to_owned(),
            Endpoint::Stop => "/api/servers/:id/stop".to_owned(),
            Endpoint::Restart => "/api/servers/:id/restart".to_owned(),
            Endpoint::Logs => "/api/servers/:id/logs".to_owned(),
            Endpoint::LogsHistory => "/api/servers/:id/logs/history".to_owned(),
            Endpoint::LogsClear => "/api/servers/:id/logs/clear".to_owned(),
            Endpoint::Command => "/api/servers/:id/command".to_owned(),
            Endpoint::Players => "/api/servers/:id/players".to_owned(),
            Endpoint::ActivityLog => "/api/servers/:id/activity".to_owned(),
            Endpoint::ActivityClear => "/api/servers/:id/activity/clear".to_owned(),
            Endpoint::Deaths => "/api/servers/:id/deaths".to_owned(),
            Endpoint::DeathsVillagers => "/api/servers/:id/deaths/villagers".to_owned(),
            Endpoint::DeathsPlayer => "/api/servers/:id/deaths/:player".to_owned(),
            Endpoint::FilesDir => "/api/servers/:id/files".to_owned(),
            Endpoint::FileContent => "/api/servers/:id/files/content".to_owned(),
            Endpoint::FileWrite => "/api/servers/:id/files/write".to_owned(),
            Endpoint::Mods => "/api/servers/:id/mods".to_owned(),
            Endpoint::ModInstall => "/api/servers/:id/mods/install".to_owned(),
            Endpoint::ModEnable => "/api/servers/:id/mods/enable".to_owned(),
            Endpoint::ModDisable => "/api/servers/:id/mods/disable".to_owned(),
            Endpoint::ModRemove => "/api/servers/:id/mods/remove".to_owned(),
            Endpoint::ConfigGet => "/api/servers/:id/config".to_owned(),
            Endpoint::ConfigSet => "/api/servers/:id/config".to_owned(),
            Endpoint::BackupGet => "/api/servers/:id/backup".to_owned(),
            Endpoint::BackupSet => "/api/servers/:id/backup".to_owned(),
            Endpoint::OpenCl => "/api/servers/:id/opencl".to_owned(),
            Endpoint::UsersList => "/api/users".to_owned(),
            Endpoint::UsersCreate => "/api/users".to_owned(),
            Endpoint::UsersUpdate => "/api/users/:username".to_owned(),
            Endpoint::UsersDelete => "/api/users/:username".to_owned(),
            Endpoint::UsersPassword => "/api/users/:username/password".to_owned(),
            Endpoint::UsersServers => "/api/users/:username/servers".to_owned(),
            Endpoint::PublicStatus => "/api/public/:id/status".to_owned(),
            Endpoint::PublicStats => "/api/public/:id/stats".to_owned(),
            Endpoint::PublicPlayers => "/api/public/:id/players".to_owned(),
            Endpoint::PublicDeaths => "/api/public/:id/deaths".to_owned(),
            Endpoint::StatusPage => "/s/:id".to_owned(),
            Endpoint::FaviconIco => "/favicon.ico".to_owned(),
            Endpoint::FaviconPng => "/favicon.png".to_owned(),
            Endpoint::LoginPage => "/login".to_owned(),
            Endpoint::SetupPage => "/setup".to_owned(),
            Endpoint::ViewerPage => "/view".to_owned(),
            Endpoint::DashboardPage => "/dashboard".to_owned(),
            Endpoint::MobilePage => "/mobile".to_owned(),
            Endpoint::ServerPage => "/server/:id".to_owned(),
            Endpoint::IndexPage => "/".to_owned(),
        }
    }

    /// Whom the endpoint is open to.
    pub open spec fn needs(self) -> Need {
        match self {
            Endpoint::Logout
            | Endpoint::Dashboard
            | Endpoint::ServersList
            | Endpoint::Status
            | Endpoint::Stats
            | Endpoint::Logs
            | Endpoint::LogsHistory
            | Endpoint::Players
            | Endpoint::ActivityLog
            | Endpoint::Deaths
            | Endpoint::DeathsVillagers
            | Endpoint::DeathsPlayer
            | Endpoint::UsersPassword => Need::Role(UserRole::Viewer),
            Endpoint::ServersCreate
            | Endpoint::ServersDelete
            | Endpoint::UsersList
            | Endpoint::UsersCreate
            | Endpoint::UsersUpdate
            | Endpoint::UsersDelete
            | Endpoint::UsersServers => Need::Role(UserRole::Admin),
            Endpoint::Start
            | Endpoint::Stop
            | Endpoint::Restart
            | Endpoint::LogsClear
            | Endpoint::Command
            | Endpoint::ActivityClear
            | Endpoint::FilesDir
            | Endpoint::FileContent
            | Endpoint::FileWrite
            | Endpoint::Mods
            | Endpoint::ModInstall
            | Endpoint::ModEnable
            | Endpoint::ModDisable
            | Endpoint::ModRemove
            | Endpoint::ConfigGet
            | Endpoint::ConfigSet
            | Endpoint::BackupGet
            | Endpoint::BackupSet
            | Endpoint::OpenCl => Need::Role(UserRole::Operator),
            _ => Need::Nothing,
        }
    }

    /// Whom the endpoint is open to.
    pub fn need(self) -> (r: Need)
        ensures
            r == self.needs(),
    {
        match self {
            Endpoint::Logout
            | Endpoint::Dashboard
            | Endpoint::ServersList
            | Endpoint::Status
            | Endpoint::Stats
            | Endpoint::Logs
            | Endpoint::LogsHistory
            | Endpoint::Players
            | Endpoint::ActivityLog
            | Endpoint::Deaths
            | Endpoint::DeathsVillagers
            | Endpoint::DeathsPlayer
            | Endpoint::UsersPassword => Need::Role(UserRole::Viewer),
            Endpoint::ServersCreate
            | Endpoint::ServersDelete
            | Endpoint::UsersList
            | Endpoint::UsersCreate
            | Endpoint::UsersUpdate
            | Endpoint::UsersDelete
            | Endpoint::UsersServers => Need::Role(UserRole::Admin),
            Endpoint::Start
            | Endpoint::Stop
            | Endpoint::Restart
            | Endpoint::LogsClear
            | Endpoint::Command
            | Endpoint::ActivityClear
            | Endpoint::FilesDir
            | Endpoint::FileContent
            | Endpoint::FileWrite
            | Endpoint::Mods
            | Endpoint::ModInstall
            | Endpoint::ModEnable
            | Endpoint::ModDisable
            | Endpoint::ModRemove
            | Endpoint::ConfigGet
            | Endpoint::ConfigSet
            | Endpoint::BackupGet
            | Endpoint::BackupSet
            | Endpoint::OpenCl => Need::Role(UserRole::Operator),
            _ => Need::Nothing,
        }
    }

    /// Whether the endpoint manages accounts. These answer whoever is no admin alike, logged in
    /// or not.
    pub open spec fn manages_accounts(self) -> bool {
        match self {
            Endpoint::UsersList
            | Endpoint::UsersCreate
            | Endpoint::UsersUpdate
            | Endpoint::UsersDelete
            | Endpoint::UsersServers => true,
            _ => false,
        }
    }

    fn is_account_management(self) -> (r: bool)
        ensures
            r == self.manages_accounts(),
    {
        match self {
            Endpoint::UsersList
            | Endpoint::UsersCreate
            | Endpoint::UsersUpdate
            | Endpoint::UsersDelete
            | Endpoint::UsersServers => true,
            _ => false,
        }
    }

    /// All endpoints.
    pub open spec fn every() -> Seq<Endpoint> {
        seq![
            Endpoint::Login,
            Endpoint::Logout,
            Endpoint::Me,
            Endpoint::SetupStatus,
            Endpoint::SetupCreate,
            Endpoint::Dashboard,
            Endpoint::ServersList,
            Endpoint::ServersCreate,
            Endpoint::ServersDelete,
            Endpoint::Status,
            Endpoint::Stats,
            Endpoint::Start,
            Endpoint::Stop,
            Endpoint::Restart,
            Endpoint::Logs,
            Endpoint::LogsHistory,
            Endpoint::LogsClear,
            Endpoint::Command,
            Endpoint::Players,
            Endpoint::ActivityLog,
            Endpoint::ActivityClear,
            Endpoint::Deaths,
            Endpoint::DeathsVillagers,
            Endpoint::DeathsPlayer,
            Endpoint::FilesDir,
            Endpoint::FileContent,
            Endpoint::FileWrite,
            Endpoint::Mods,
            Endpoint::ModInstall,
            Endpoint::ModEnable,
            Endpoint::ModDisable,
            Endpoint::ModRemove,
            Endpoint::ConfigGet,
            Endpoint::ConfigSet,
            Endpoint::BackupGet,
            Endpoint::BackupSet,
            Endpoint::OpenCl,
            Endpoint::UsersList,
            Endpoint::UsersCreate,
            Endpoint::UsersUpdate,
            Endpoint::UsersDelete,
            Endpoint::UsersPassword,
            Endpoint::UsersServers,
            Endpoint::PublicStatus,
            Endpoint::PublicStats,
            Endpoint::PublicPlayers,
            Endpoint::PublicDeaths,
            Endpoint::StatusPage,
            Endpoint::FaviconIco,
            Endpoint::FaviconPng,
            Endpoint::LoginPage,
            Endpoint::SetupPage,
            Endpoint::ViewerPage,
            Endpoint::DashboardPage,
            Endpoint::MobilePage,
            Endpoint::ServerPage,
            Endpoint::IndexPage,
        ]
    }

    /// All endpoints.
    pub fn all() -> (r: Vec<Endpoint>)
        ensures
            r@ == Endpoint::every(),
    {
        let all = vec![
            Endpoint::Login,
            Endpoint::Logout,
            Endpoint::Me,
            Endpoint::SetupStatus,
            Endpoint::SetupCreate,
            Endpoint::Dashboard,
            Endpoint::ServersList,
            Endpoint::ServersCreate,
            Endpoint::ServersDelete,
            Endpoint::Status,
            Endpoint::Stats,
            Endpoint::Start,
            Endpoint::Stop,
            Endpoint::Restart,
            Endpoint::Logs,
            Endpoint::LogsHistory,
            Endpoint::LogsClear,
            Endpoint::Command,
            Endpoint::Players,
            Endpoint::ActivityLog,
            Endpoint::ActivityClear,
            Endpoint::Deaths,
            Endpoint::DeathsVillagers,
            Endpoint::DeathsPlayer,
            Endpoint::FilesDir,
            Endpoint::FileContent,
            Endpoint::FileWrite,
            Endpoint::Mods,
            Endpoint::ModInstall,
            Endpoint::ModEnable,
            Endpoint::ModDisable,
            Endpoint::ModRemove,
            Endpoint::ConfigGet,
            Endpoint::ConfigSet,
            Endpoint::BackupGet,
            Endpoint::BackupSet,
            Endpoint::OpenCl,
            Endpoint::UsersList,
            Endpoint::UsersCreate,
            Endpoint::UsersUpdate,
            Endpoint::UsersDelete,
            Endpoint::UsersPassword,
            Endpoint::UsersServers,
            Endpoint::PublicStatus,
            Endpoint::PublicStats,
            Endpoint::PublicPlayers,
            Endpoint::PublicDeaths,
            Endpoint::StatusPage,
            Endpoint::FaviconIco,
            Endpoint::FaviconPng,
            Endpoint::LoginPage,
            Endpoint::SetupPage,
            Endpoint::ViewerPage,
            Endpoint::DashboardPage,
            Endpoint::MobilePage,
            Endpoint::ServerPage,
            Endpoint::IndexPage,
        ];
        proof {
            assert(all@ =~= Endpoint::every());
        }
        all
    }
}

// ── Decision ──────────────────────────────────────────────────────────────

/// What is decided on a request.
#[derive(Debug, Clone, Copy, PartialEq, Eq, Structural)]
pub enum Access {
    Granted,
    /// Nobody is logged in.
    NotLoggedIn,
    /// Whoever is logged in may not.
    Forbidden,
}

/// Whether an account may see a server.
pub open spec fn may_see(u: UserView, server: Seq<char>) -> bool {
    match u.allowed_servers {
        Some(ids) => ids.contains(server),
        None => true,
    }
}

/// The account of whoever asks.
pub open spec fn caller_account(users: Seq<UserView>, caller: Option<Seq<char>>) -> Option<
    UserView,
> {
    match caller {
        Some(name) => users::lookup(users, name),
        None => None,
    }
}

/// What is decided on a request: by whom it is asked, and for which server.
pub open spec fn decision(
    users: Seq<UserView>,
    endpoint: Endpoint,
    caller: Option<Seq<char>>,
    server: Option<Seq<char>>,
) -> Access {
    match endpoint.needs() {
        Need::Nothing => Access::Granted,
        Need::Role(min) => match caller_account(users, caller) {
            None => if endpoint.manages_accounts() {
                Access::Forbidden
            } else {
                Access::NotLoggedIn
            },
            Some(u) => if u.role.rank() < min.rank() {
                Access::Forbidden
            } else if server.is_some() && !may_see(u, server.unwrap()) {
                Access::Forbidden
            } else {
                Access::Granted
            },
        },
    }
}

/// Decides on a request.
pub fn authorize(
    store: &UserStore,
    endpoint: Endpoint,
    caller: Option<&str>,
    server: Option<&str>,
) -> (r: Access)
    ensures
        r == decision(
            store@,
            endpoint,
            text::opt_str_view(caller),
            text::opt_str_view(server),
        ),
{
    let min = match endpoint.need() {
        Need::Nothing => {
            return Access::Granted;
        },
        Need::Role(min) => min,
    };
    let account = match caller {
        Some(name) => store.get(name),
        None => None,
    };
    match account {
        None => {
            if endpoint.is_account_management() {
                Access::Forbidden
            } else {
                Access::NotLoggedIn
            }
        },
        Some(u) => {
            if !u.role.reaches(min) {
                return Access::Forbidden;
            }
            match server {
                Some(id) => match &u.allowed_servers {
                    Some(ids) => if text::list_has(ids, id) {
                        Access::Granted
                    } else {
                        Access::Forbidden
                    },
                    None => Access::Granted,
                },
                None => Access::Granted,
            }
        },
    }
}

// ── Laws ──────────────────────────────────────────────────────────────────

/// Nothing but what is open to everybody is granted to whoever is not logged in.
pub proof fn law_strangers_see_the_open_only(
    users: Seq<UserView>,
    endpoint: Endpoint,
    caller: Option<Seq<char>>,
    server: Option<Seq<char>>,
)
    requires
        caller_account(users, caller).is_none(),
    ensures
        decision(users, endpoint, caller, server) == Access::Granted <==> endpoint.needs()
            == Need::Nothing,
{
}

/// Whoever may ask something may still ask it with a role that reaches further.
pub proof fn law_higher_roles_may_more(
    users: Seq<UserView>,
    more: Seq<UserView>,
    endpoint: Endpoint,
    caller: Option<Seq<char>>,
    server: Option<Seq<char>>,
)
    requires
        caller_account(users, caller) matches Some(u) && caller_account(more, caller) matches Some(v)
            && u.role.rank() <= v.role.rank() && u.allowed_servers == v.allowed_servers,
        decision(users, endpoint, caller, server) == Access::Granted,
    ensures
        decision(more, endpoint, caller, server) == Access::Granted,
{
}

/// An admin who is not restricted to some servers may do everything.
pub proof fn law_admins_may_all(
    users: Seq<UserView>,
    endpoint: Endpoint,
    caller: Option<Seq<char>>,
    server: Option<Seq<char>>,
)
    requires
        caller_account(users, caller) matches Some(u) && u.role == UserRole::Admin
            && u.allowed_servers.is_none(),
    ensures
        decision(users, endpoint, caller, server) == Access::Granted,
{
}

/// Operators neither create nor delete servers, nor do they manage accounts. Viewers change
/// nothing but their own session and password, and see neither files nor settings.
pub proof fn law_roles_are_kept_apart(
    users: Seq<UserView>,
    endpoint: Endpoint,
    caller: Option<Seq<char>>,
    server: Option<Seq<char>>,
)
    requires
        caller_account(users, caller).is_some(),
    ensures
        ({
            let role = caller_account(users, caller).unwrap().role;
            let granted = decision(users, endpoint, caller, server) == Access::Granted;
            &&& (role == UserRole::Operator || role == UserRole::Viewer) && (endpoint
                == Endpoint::ServersCreate || endpoint == Endpoint::ServersDelete
                || endpoint.manages_accounts()) ==> !granted
            &&& role == UserRole::Viewer && endpoint.method_spec() != HttpMethod::Get && granted
                ==> endpoint == Endpoint::Login || endpoint == Endpoint::Logout || endpoint
                == Endpoint::SetupCreate || endpoint == Endpoint::UsersPassword
            &&& role == UserRole::Viewer && (endpoint == Endpoint::FilesDir || endpoint
                == Endpoint::FileContent || endpoint == Endpoint::Mods || endpoint
                == Endpoint::ConfigGet || endpoint == Endpoint::BackupGet) ==> !granted
        }),
{
}

/// Whatever is asked about one server, but for what is open to everybody, is refused to an
/// account that is restricted to other servers, whatever its role.
pub proof fn law_restriction_holds(
    users: Seq<UserView>,
    endpoint: Endpoint,
    caller: Option<Seq<char>>,
    server: Seq<char>,
)
    requires
        caller_account(users, caller) matches Some(u) && !may_see(u, server),
        endpoint.needs() != Need::Nothing,
    ensures
        decision(users, endpoint, caller, Some(server)) == Access::Forbidden,
{
}

/// An operator who may see a server is granted every request on it, to start, stop and restart
/// it, to send commands, to work with its files, mods, settings and backups and to clear its
/// logs, but for the requests that create or delete servers or manage accounts.
pub proof fn law_operators_run_servers(
    users: Seq<UserView>,
    i: int,
    endpoint: Endpoint,
    server: Seq<char>,
)
    requires
        users::unique_names(users),
        0 <= i < users.len(),
        users[i].role == UserRole::Operator,
        users[i].allowed_servers matches Some(ids) ==> ids.contains(server),
    ensures
        decision(users, endpoint, Some(users[i].username), Some(server)) == (if endpoint
            == Endpoint::ServersCreate || endpoint == Endpoint::ServersDelete || endpoint
            == Endpoint::UsersList || endpoint == Endpoint::UsersCreate || endpoint
            == Endpoint::UsersUpdate || endpoint == Endpoint::UsersDelete || endpoint
            == Endpoint::UsersServers {
            Access::Forbidden
        } else {
            Access::Granted
        }),
{
    users::law_lookup(users, users[i].username);
}

/// A viewer who may see a server is granted to look: at its status and load, the console, the
/// players, the activity and the deaths. A viewer also sees the summary and the list of the
/// servers, logs out and changes their own password. All else that is not open to everybody is
/// refused.
pub proof fn law_viewers_look_on(
    users: Seq<UserView>,
    i: int,
    endpoint: Endpoint,
    server: Seq<char>,
)
    requires
        users::unique_names(users),
        0 <= i < users.len(),
        users[i].role == UserRole::Viewer,
        users[i].allowed_servers matches Some(ids) ==> ids.contains(server),
    ensures
        ({
            let d = decision(users, endpoint, Some(users[i].username), Some(server));
            &&& endpoint == Endpoint::Status || endpoint == Endpoint::Stats || endpoint
                == Endpoint::Logs || endpoint == Endpoint::LogsHistory || endpoint
                == Endpoint::Players || endpoint == Endpoint::ActivityLog || endpoint
                == Endpoint::Deaths || endpoint == Endpoint::DeathsVillagers || endpoint
                == Endpoint::DeathsPlayer || endpoint == Endpoint::Dashboard || endpoint
                == Endpoint::ServersList || endpoint == Endpoint::Logout || endpoint
                == Endpoint::UsersPassword ==> d == Access::Granted
            &&& endpoint == Endpoint::Start || endpoint == Endpoint::Stop || endpoint
                == Endpoint::Restart || endpoint == Endpoint::Command || endpoint
                == Endpoint::LogsClear || endpoint == Endpoint::ActivityClear || endpoint
                == Endpoint::FilesDir || endpoint == Endpoint::FileContent || endpoint
                == Endpoint::FileWrite || endpoint == Endpoint::Mods || endpoint
                == Endpoint::ModInstall || endpoint == Endpoint::ModEnable || endpoint
                == Endpoint::ModDisable || endpoint == Endpoint::ModRemove || endpoint
                == Endpoint::ConfigGet || endpoint == Endpoint::ConfigSet || endpoint
                == Endpoint::BackupGet || endpoint == Endpoint::BackupSet || endpoint
                == Endpoint::OpenCl || endpoint == Endpoint::ServersCreate || endpoint
                == Endpoint::ServersDelete || endpoint == Endpoint::UsersList || endpoint
                == Endpoint::UsersCreate || endpoint == Endpoint::UsersUpdate || endpoint
                == Endpoint::UsersDelete || endpoint == Endpoint::UsersServers ==> d
                == Access::Forbidden
        }),
{
    users::law_lookup(users, users[i].username);
}

/// Logging in, asking who is logged in, setting the panel up, the public figures of a server,
/// the pages and the icons are granted to everybody. Whoever is not logged in is granted nothing
/// else: accounts are forbidden to them, and all the rest asks them to log in. A name that no
/// account has is nobody's.
pub proof fn law_open_to_everybody(
    users: Seq<UserView>,
    endpoint: Endpoint,
    caller: Option<Seq<char>>,
    server: Option<Seq<char>>,
)
    requires
        users::unique_names(users),
    ensures
        ({
            let open = endpoint == Endpoint::Login || endpoint == Endpoint::Me || endpoint
                == Endpoint::SetupStatus || endpoint == Endpoint::SetupCreate || endpoint
                == Endpoint::PublicStatus || endpoint == Endpoint::PublicStats || endpoint
                == Endpoint::PublicPlayers || endpoint == Endpoint::PublicDeaths || endpoint
                == Endpoint::StatusPage || endpoint == Endpoint::FaviconIco || endpoint
                == Endpoint::FaviconPng || endpoint == Endpoint::LoginPage || endpoint
                == Endpoint::SetupPage || endpoint == Endpoint::ViewerPage || endpoint
                == Endpoint::DashboardPage || endpoint == Endpoint::MobilePage || endpoint
                == Endpoint::ServerPage || endpoint == Endpoint::IndexPage;
            let accounts = endpoint == Endpoint::UsersList || endpoint == Endpoint::UsersCreate
                || endpoint == Endpoint::UsersUpdate || endpoint == Endpoint::UsersDelete
                || endpoint == Endpoint::UsersServers;
            let d = decision(users, endpoint, caller, server);
            &&& open ==> d == Access::Granted
            &&& !open && (caller.is_none() || forall|i: int|
                0 <= i < users.len() ==> (#[trigger] users[i]).username != caller.unwrap()) ==> d
                == if accounts {
                Access::Forbidden
            } else {
                Access::NotLoggedIn
            }
        }),
{
    match caller {
        Some(name) => {
            users::law_lookup(users, name);
        },
        None => {},
    }
}

proof fn lemma_open_is_elsewhere(endpoint: Endpoint)
    requires
        endpoint.path_text().len() >= 16,
        endpoint.path_text().take(16) == "/api/servers/:id"@,
    ensures
        endpoint.needs() != Need::Nothing,
{
    reveal_strlit("/api/servers/:id");
    reveal_strlit("/api/auth/login");
    reveal_strlit("/api/auth/me");
    reveal_strlit("/api/setup");
    reveal_strlit("/api/public/:id/status");
    reveal_strlit("/api/public/:id/stats");
    reveal_strlit("/api/public/:id/players");
    reveal_strlit("/api/public/:id/deaths");
    reveal_strlit("/s/:id");
    reveal_strlit("/favicon.ico");
    reveal_strlit("/favicon.png");
    reveal_strlit("/login");
    reveal_strlit("/setup");
    reveal_strlit("/view");
    reveal_strlit("/dashboard");
    reveal_strlit("/mobile");
    reveal_strlit("/server/:id");
    reveal_strlit("/");
    assert(endpoint.path_text()[5] == endpoint.path_text().take(16)[5]);
}

/// An account that is restricted to some servers is forbidden whatever is asked below the
/// address of another one, whatever its role. An admin's request that names no server is not
/// touched by the restriction.
pub proof fn law_servers_out_of_sight(
    users: Seq<UserView>,
    i: int,
    endpoint: Endpoint,
    server: Seq<char>,
)
    requires
        users::unique_names(users),
        0 <= i < users.len(),
        users[i].allowed_servers matches Some(ids) && !ids.contains(server),
        endpoint.path_text().len() >= 16,
        endpoint.path_text().take(16) == "/api/servers/:id"@,
    ensures
        decision(users, endpoint, Some(users[i].username), Some(server)) == Access::Forbidden,
        users[i].role == UserRole::Admin ==> decision(
            users,
            endpoint,
            Some(users[i].username),
            None,
        ) == Access::Granted,
{
    users::law_lookup(users, users[i].username);
    lemma_open_is_elsewhere(endpoint);
}

/// An admin who may see a server is granted every request on it.
pub proof fn law_admins_run_all(
    users: Seq<UserView>,
    i: int,
    endpoint: Endpoint,
    server: Seq<char>,
)
    requires
        users::unique_names(users),
        0 <= i < users.len(),
        users[i].role == UserRole::Admin,
        users[i].allowed_servers matches Some(ids) ==> ids.contains(server),
    ensures
        decision(users, endpoint, Some(users[i].username), Some(server)) == Access::Granted,
        decision(users, endpoint, Some(users[i].username), None) == Access::Granted,
{
    users::law_lookup(users, users[i].username);
}

/// Whatever is only looked at is asked by GET. Accounts are changed by PUT, accounts and servers
/// are deleted by DELETE, and all else that changes something is asked by POST.
pub proof fn law_methods(endpoint: Endpoint)
    ensures
        endpoint == Endpoint::ServersDelete || endpoint == Endpoint::UsersDelete <==>
            endpoint.method_spec()
            == HttpMethod::Delete,
        endpoint == Endpoint::UsersUpdate || endpoint == Endpoint::UsersServers <==>
            endpoint.method_spec()
            == HttpMethod::Put,
        endpoint == Endpoint::Login || endpoint == Endpoint::Logout || endpoint ==
            Endpoint::SetupCreate || endpoint == Endpoint::ServersCreate || endpoint ==
            Endpoint::Start || endpoint == Endpoint::Stop || endpoint == Endpoint::Restart ||
            endpoint == Endpoint::LogsClear || endpoint == Endpoint::Command || endpoint ==
            Endpoint::ActivityClear || endpoint == Endpoint::FileWrite || endpoint ==
            Endpoint::ModInstall || endpoint == Endpoint::ModEnable || endpoint ==
            Endpoint::ModDisable || endpoint == Endpoint::ModRemove || endpoint ==
            Endpoint::ConfigSet || endpoint == Endpoint::BackupSet || endpoint == Endpoint::OpenCl
            || endpoint == Endpoint::UsersCreate || endpoint == Endpoint::UsersPassword <==>
            endpoint.method_spec()
            == HttpMethod::Post,
{
}

/// The addresses: what concerns one server stands below its id, what concerns one account below
/// its name, and what everybody may see of a server below the public address of its id.
pub proof fn law_addresses()
    ensures
        Endpoint::Login.path_text() == "/api/auth/login"@,
        Endpoint::Logout.path_text() == "/api/auth/logout"@,
        Endpoint::Me.path_text() == "/api/auth/me"@,
        Endpoint::SetupStatus.path_text() == "/api/setup"@,
        Endpoint::SetupCreate.path_text() == "/api/setup"@,
        Endpoint::Dashboard.path_text() == "/api/dashboard"@,
        Endpoint::ServersList.path_text() == "/api/servers"@,
        Endpoint::ServersCreate.path_text() == "/api/servers"@,
        Endpoint::ServersDelete.path_text() == "/api/servers/:id"@,
        Endpoint::Status.path_text() == "/api/servers/:id/status"@,
        Endpoint::Stats.path_text() == "/api/servers/:id/stats"@,
        Endpoint::Start.path_text() == "/api/servers/:id/start"@,
        Endpoint::Stop.path_text() == "/api/servers/:id/stop"@,
        Endpoint::Restart.path_text() == "/api/servers/:id/restart"@,
        Endpoint::Logs.path_text() == "/api/servers/:id/logs"@,
        Endpoint::LogsHistory.path_text() == "/api/servers/:id/logs/history"@,
        Endpoint::LogsClear.path_text() == "/api/servers/:id/logs/clear"@,
        Endpoint::Command.path_text() == "/api/servers/:id/command"@,
        Endpoint::Players.path_text() == "/api/servers/:id/players"@,
        Endpoint::ActivityLog.path_text() == "/api/servers/:id/activity"@,
        Endpoint::ActivityClear.path_text() == "/api/servers/:id/activity/clear"@,
        Endpoint::Deaths.path_text() == "/api/servers/:id/deaths"@,
        Endpoint::DeathsVillagers.path_text() == "/api/servers/:id/deaths/villagers"@,
        Endpoint::DeathsPlayer.path_text() == "/api/servers/:id/deaths/:player"@,
        Endpoint::FilesDir.path_text() == "/api/servers/:id/files"@,
        Endpoint::FileContent.path_text() == "/api/servers/:id/files/content"@,
        Endpoint::FileWrite.path_text() == "/api/servers/:id/files/write"@,
        Endpoint::Mods.path_text() == "/api/servers/:id/mods"@,
        Endpoint::ModInstall.path_text() == "/api/servers/:id/mods/install"@,
        Endpoint::ModEnable.path_text() == "/api/servers/:id/mods/enable"@,
        Endpoint::ModDisable.path_text() == "/api/servers/:id/mods/disable"@,
        Endpoint::ModRemove.path_text() == "/api/servers/:id/mods/remove"@,
        Endpoint::ConfigGet.path_text() == "/api/servers/:id/config"@,
        Endpoint::ConfigSet.path_text() == "/api/servers/:id/config"@,
        Endpoint::BackupGet.path_text() == "/api/servers/:id/backup"@,
        Endpoint::BackupSet.path_text() == "/api/servers/:id/backup"@,
        Endpoint::OpenCl.path_text() == "/api/servers/:id/opencl"@,
        Endpoint::UsersList.path_text() == "/api/users"@,
        Endpoint::UsersCreate.path_text() == "/api/users"@,
        Endpoint::UsersUpdate.path_text() == "/api/users/:username"@,
        Endpoint::UsersDelete.path_text() == "/api/users/:username"@,
        Endpoint::UsersPassword.path_text() == "/api/users/:username/password"@,
        Endpoint::UsersServers.path_text() == "/api/users/:username/servers"@,
        Endpoint::PublicStatus.path_text() == "/api/public/:id/status"@,
        Endpoint::PublicStats.path_text() == "/api/public/:id/stats"@,
        Endpoint::PublicPlayers.path_text() == "/api/public/:id/players"@,
        Endpoint::PublicDeaths.path_text() == "/api/public/:id/deaths"@,
        Endpoint::StatusPage.path_text() == "/s/:id"@,
        Endpoint::FaviconIco.path_text() == "/favicon.ico"@,
        Endpoint::FaviconPng.path_text() == "/favicon.png"@,
        Endpoint::LoginPage.path_text() == "/login"@,
        Endpoint::SetupPage.path_text() == "/setup"@,
        Endpoint::ViewerPage.path_text() == "/view"@,
        Endpoint::DashboardPage.path_text() == "/dashboard"@,
        Endpoint::MobilePage.path_text() == "/mobile"@,
        Endpoint::ServerPage.path_text() == "/server/:id"@,
        Endpoint::IndexPage.path_text() == "/"@,
{
}

/// A request that names no server is granted by the role alone: what an account is granted is what
/// it would be granted on a server if it were restricted to none.
pub proof fn law_role_alone_without_server(
    users: Seq<UserView>,
    free: Seq<UserView>,
    i: int,
    endpoint: Endpoint,
    server: Seq<char>,
)
    requires
        users::unique_names(users),
        users::unique_names(free),
        0 <= i < users.len(),
        i < free.len(),
        free[i].username == users[i].username,
        free[i].role == users[i].role,
        free[i].allowed_servers.is_none(),
    ensures
        decision(users, endpoint, Some(users[i].username), None) == decision(
            free,
            endpoint,
            Some(users[i].username),
            Some(server),
        ),
{
    users::law_lookup(users, users[i].username);
    users::law_lookup(free, users[i].username);
}

/// The list of all endpoints holds each of them, once.
pub proof fn law_every_endpoint(endpoint: Endpoint)
    ensures
        Endpoint::every().contains(endpoint),
        Endpoint::every().len() == 57,
{
    let k: int = match endpoint {
        Endpoint::Login => 0,
        Endpoint::Logout => 1,
        Endpoint::Me => 2,
        Endpoint::SetupStatus => 3,
        Endpoint::SetupCreate => 4,
        Endpoint::Dashboard => 5,
        Endpoint::ServersList => 6,
        Endpoint::ServersCreate => 7,
        Endpoint::ServersDelete => 8,
        Endpoint::Status => 9,
        Endpoint::Stats => 10,
        Endpoint::Start => 11,
        Endpoint::Stop => 12,
        Endpoint::Restart => 13,
        Endpoint::Logs => 14,
        Endpoint::LogsHistory => 15,
        Endpoint::LogsClear => 16,
        Endpoint::Command => 17,
        Endpoint::Players => 18,
        Endpoint::ActivityLog => 19,
        Endpoint::ActivityClear => 20,
        Endpoint::Deaths => 21,
        Endpoint::DeathsVillagers => 22,
        Endpoint::DeathsPlayer => 23,
        Endpoint::FilesDir => 24,
        Endpoint::FileContent => 25,
        Endpoint::FileWrite => 26,
        Endpoint::Mods => 27,
        Endpoint::ModInstall => 28,
        Endpoint::ModEnable => 29,
        Endpoint::ModDisable => 30,
        Endpoint::ModRemove => 31,
        Endpoint::ConfigGet => 32,
        Endpoint::ConfigSet => 33,
        Endpoint::BackupGet => 34,
        Endpoint::BackupSet => 35,
        Endpoint::OpenCl => 36,
        Endpoint::UsersList => 37,
        Endpoint::UsersCreate => 38,
        Endpoint::UsersUpdate => 39,
        Endpoint::UsersDelete => 40,
        Endpoint::UsersPassword => 41,
        Endpoint::UsersServers => 42,
        Endpoint::PublicStatus => 43,
        Endpoint::PublicStats => 44,
        Endpoint::PublicPlayers => 45,
        Endpoint::PublicDeaths => 46,
        Endpoint::StatusPage => 47,
        Endpoint::FaviconIco => 48,
        Endpoint::FaviconPng => 49,
        Endpoint::LoginPage => 50,
        Endpoint::SetupPage => 51,
        Endpoint::ViewerPage => 52,
        Endpoint::DashboardPage => 53,
        Endpoint::MobilePage => 54,
        Endpoint::ServerPage => 55,
        Endpoint::IndexPage => 56,
    };
    assert(Endpoint::every()[k] == endpoint);
}

} // verus!
