//! What the panel answers to a request.
//!
//! Each function decides one answer from what is known: the accounts, the registry and the
//! request. An answer that is an error has a status and says what is wrong.
use vstd::prelude::*;

use crate::access;
use crate::access::Access;
use crate::docker::ServerStatus;
use crate::files;
use crate::files::ModMove;
use crate::files::PathError;
use crate::json;
use crate::paths;
use crate::registry;
use crate::registry::ComposeAction;
use crate::registry::CreateRequest;
use crate::registry::RegistryError;
use crate::registry::ServerDef;
use crate::registry::ServerDefView;
use crate::registry::ServerRegistry;
use crate::session;
use crate::text;
use crate::text::CharClass;
use crate::users;
use crate::users::UserChange;
use crate::users::UserError;
use crate::users::UserInfo;
use crate::users::UserInfoView;
use crate::users::UserRole;
use crate::users::UserStore;
use crate::users::UserView;

verus! {

// ── Errors ────────────────────────────────────────────────────────────────

/// An answer that is an error.
#[derive(Debug)]
pub struct ApiError {
    /// The HTTP status.
    pub status: u16,
    /// What is wrong, where that is said.
    pub message: Option<String>,
    /// Whether the panel has to be set up first.
    pub setup_required: bool,
}

/// The value of an [`ApiError`].
#[verifier::ext_equal]
pub struct ApiErrorView {
    pub status: u16,
    pub message: Option<Seq<char>>,
    pub setup_required: bool,
}

impl View for ApiError {
    type V = ApiErrorView;

    open spec fn view(&self) -> ApiErrorView {
        ApiErrorView {
            status: self.status,
            message: text::opt_view(self.message),
            setup_required: self.setup_required,
        }
    }
}

/// An error with that status, which says that.
pub open spec fn error(status: u16, message: Seq<char>) -> ApiErrorView {
    ApiErrorView { status, message: Some(message), setup_required: false }
}

impl ApiError {
    /// An error with that status, which says that.
    pub fn new(status: u16, message: String) -> (r: ApiError)
        ensures
            r@ == error(status, message@),
    {
        ApiError { status, message: Some(message), setup_required: false }
    }

    /// Something went wrong.
    pub fn internal(message: String) -> (r: ApiError)
        ensures
            r@ == error(500, message@),
    {
        ApiError::new(500, message)
    }

    /// The registry refused.
    pub fn of_registry(e: &RegistryError) -> (r: ApiError)
        ensures
            r@ == error(500, e.text()),
    {
        ApiError::internal(e.message())
    }

    /// A path was refused.
    pub fn of_path(e: &PathError) -> (r: ApiError)
        ensures
            r@ == error(500, e.text()),
    {
        ApiError::internal(e.message())
    }

    /// A change to the accounts was refused.
    pub fn of_user(e: &UserError) -> (r: ApiError)
        ensures
            r@ == error(400, e.text()),
    {
        ApiError::new(400, e.message())
    }
}

/// The message of an answer in JSON, with a comma behind it, where there is one.
pub open spec fn message_field(message: Option<Seq<char>>) -> Seq<char> {
    match message {
        Some(m) => "\"message\":"@ + json::json_string(m) + ","@,
        None => Seq::empty(),
    }
}

/// An error as it is sent: a JSON object that is not ok.
pub open spec fn error_body(e: ApiErrorView) -> Seq<char> {
    "{"@ + message_field(e.message) + (if e.setup_required {
        "\"ok\":false,\"setup_required\":true}"@
    } else {
        "\"ok\":false}"@
    })
}

/// An answer that is no error as it is sent: a JSON object that is ok.
pub open spec fn done_body(message: Option<Seq<char>>) -> Seq<char> {
    "{"@ + message_field(message) + "\"ok\":true}"@
}

fn push_message(out: &mut String, message: Option<&str>)
    ensures
        final(out)@ == old(out)@ + message_field(text::opt_str_view(message)),
{
    match message {
        Some(m) => {
            out.push_str("\"message\":");
            out.push_str(json::write_string(m).as_str());
            out.push_str(",");
            proof {
                assert(out@ =~= old(out)@ + message_field(Some(m@)));
            }
        },
        None => {
            proof {
                assert(out@ =~= old(out)@ + message_field(None));
            }
        },
    }
}

impl ApiError {
    /// The error as it is sent.
    pub fn body(&self) -> (r: String)
        ensures
            r@ == error_body(self@),
    {
        let mut out = "{".to_owned();
        match &self.message {
            Some(m) => push_message(&mut out, Some(m.as_str())),
            None => push_message(&mut out, None),
        }
        if self.setup_required {
            out.push_str("\"ok\":false,\"setup_required\":true}");
        } else {
            out.push_str("\"ok\":false}");
        }
        out
    }
}

/// An answer that is no error, as it is sent.
pub fn ok_body(message: Option<&str>) -> (r: String)
    ensures
        r@ == done_body(text::opt_str_view(message)),
{
    let mut out = "{".to_owned();
    push_message(&mut out, message);
    out.push_str("\"ok\":true}");
    out
}

/// The answer to a request that is not granted.
pub fn refusal(access: Access) -> (r: Result<(), ApiError>)
    ensures
        match access {
            Access::Granted => r is Ok,
            Access::NotLoggedIn => r matches Err(e) && e@ == error(401, "Not logged in"@),
            Access::Forbidden => r matches Err(e) && e@ == error(403, "Forbidden"@),
        },
{
    match access {
        Access::Granted => Ok(()),
        Access::NotLoggedIn => Err(ApiError::new(401, "Not logged in".to_owned())),
        Access::Forbidden => Err(ApiError::new(403, "Forbidden".to_owned())),
    }
}

// ── Pages ─────────────────────────────────────────────────────────────────

/// Whether a browser calls itself one for small screens.
pub open spec fn says_mobile(user_agent: Seq<char>) -> bool {
    ||| text::has_text(user_agent, "Mobile"@)
    ||| text::has_text(user_agent, "Android"@)
    ||| text::has_text(user_agent, "iPhone"@)
    ||| text::has_text(user_agent, "iPad"@)
}

/// Whether the dashboard is served for small screens.
pub fn serve_dashboard(user_agent: Option<&str>) -> (r: bool)
    ensures
        r == (match user_agent {
            Some(ua) => says_mobile(ua@),
            None => false,
        }),
{
    match user_agent {
        Some(ua) => text::contains(ua, "Mobile") || text::contains(ua, "Android")
            || text::contains(ua, "iPhone") || text::contains(ua, "iPad"),
        None => false,
    }
}

/// The files that may hold the icon; the first that is there is served.
pub fn favicon_names() -> (r: Vec<String>)
    ensures
        text::views(r@) == seq!["favicon.png"@, "favicon.ico"@, "icon.png"@, "icon.ico"@],
{
    let names = vec![
        "favicon.png".to_owned(),
        "favicon.ico".to_owned(),
        "icon.png".to_owned(),
        "icon.ico".to_owned(),
    ];
    proof {
        assert(text::views(names@) =~= seq![
            "favicon.png"@,
            "favicon.ico"@,
            "icon.png"@,
            "icon.ico"@,
        ]);
    }
    names
}

/// The type of an icon by its name.
pub open spec fn icon_type(name: Seq<char>) -> Seq<char> {
    if text::ends(name, ".png"@) {
        "image/png"@
    } else {
        "image/x-icon"@
    }
}

/// The type that an icon is served with.
pub fn favicon_type(name: &str) -> (r: String)
    ensures
        r@ == (if text::ends(name@, ".png"@) {
            "image/png"@
        } else {
            "image/x-icon"@
        }),
        r@ == icon_type(name@),
{
    if text::ends_with(name, ".png") {
        "image/png".to_owned()
    } else {
        "image/x-icon".to_owned()
    }
}

// ── Servers ───────────────────────────────────────────────────────────────

/// The servers that an account may see, in their order.
pub open spec fn visible(all: Seq<ServerDefView>, u: UserView) -> Seq<ServerDefView>
    decreases all.len(),
{
    if all.len() == 0 {
        Seq::empty()
    } else if access::may_see(u, all.last().id) {
        visible(all.drop_last(), u).push(all.last())
    } else {
        visible(all.drop_last(), u)
    }
}

/// The servers that are shown to whoever asks: all, but for accounts that are restricted to
/// some.
pub fn servers_list(store: &UserStore, caller: Option<&str>, all: Vec<ServerDef>) -> (r: Vec<
    ServerDef,
>)
    ensures
        registry::def_views(r@) == (match access::caller_account(
            store@,
            text::opt_str_view(caller),
        ) {
            Some(u) => visible(registry::def_views(all@), u),
            None => registry::def_views(all@),
        }),
{
    let account = match caller {
        Some(name) => store.get(name),
        None => None,
    };
    let u = match account {
        Some(u) => u,
        None => {
            return all;
        },
    };
    let ghost views = registry::def_views(all@);
    let mut out: Vec<ServerDef> = Vec::new();
    let mut i: usize = 0;
    proof {
        assert(views.take(0) =~= Seq::<ServerDefView>::empty());
        assert(registry::def_views(out@) =~= visible(views.take(0), u@));
    }
    while i < all.len()
        invariant
            i <= all.len(),
            views == registry::def_views(all@),
            registry::def_views(out@) == visible(views.take(i as int), u@),
        decreases all.len() - i,
    {
        let ghost before = registry::def_views(out@);
        proof {
            assert(views.take(i + 1).drop_last() =~= views.take(i as int));
            assert(views.take(i + 1).last() == all@[i as int]@);
        }
        let shown = match &u.allowed_servers {
            Some(ids) => text::list_has(ids, all[i].id.as_str()),
            None => true,
        };
        if shown {
            out.push(all[i].clone());
            proof {
                assert(registry::def_views(out@) =~= before.push(all@[i as int]@));
            }
        }
        i += 1;
    }
    proof {
        assert(views.take(i as int) =~= views);
    }
    out
}

/// Whether a new server is started at once.
pub fn starts_now(req: &CreateRequest) -> (r: bool)
    ensures
        r == (req.start_now == Some(true)),
{
    match req.start_now {
        Some(now) => now,
        None => false,
    }
}

/// The definition of a server, or an error where there is none.
pub fn get_server(reg: &ServerRegistry, id: &str) -> (r: Result<ServerDef, ApiError>)
    ensures
        match r {
            Ok(def) => reg@.contains_key(id@) && def@ == reg@[id@],
            Err(e) => !reg@.contains_key(id@) && e@ == error(500, "server not found"@),
        },
{
    match reg.get(id) {
        Some(def) => Ok(def),
        None => Err(ApiError::internal("server not found".to_owned())),
    }
}

/// Whether the load of a server is measured: it runs, and its container is known.
pub fn stats(status: &ServerStatus) -> (r: bool)
    ensures
        r == (status.running && status.container_id@.len() > 0),
{
    status.running && !status.container_id.as_str().is_empty()
}

/// What is done to a server.
#[derive(Debug, Clone, Copy, PartialEq, Eq, Structural)]
pub enum Control {
    Start,
    Stop,
    Restart,
}

/// How it is done: with `docker compose`; then the console is cleared or not, a line is put
/// into it, and the answer says something.
#[derive(Debug)]
pub struct ControlPlan {
    pub action: ComposeAction,
    pub clears_console: bool,
    pub line: String,
    pub message: String,
}

impl Control {
    /// How it is done. A console is cleared when the server begins anew.
    pub fn plan(self) -> (r: ControlPlan)
        ensures
            match self {
                Control::Start => r.action is Up && r.clears_console && r.line@
                    == "[panel] Server starting..."@ && r.message@ == "server starting"@,
                Control::Stop => r.action is Stop && !r.clears_console && r.line@
                    == "[panel] Server stopping..."@ && r.message@ == "server stopping"@,
                Control::Restart => r.action is Restart && r.clears_console && r.line@
                    == "[panel] Server restarting..."@ && r.message@ == "server restarting"@,
            },
    {
        match self {
            Control::Start => ControlPlan {
                action: ComposeAction::Up,
                clears_console: true,
                line: "[panel] Server starting...".to_owned(),
                message: "server starting".to_owned(),
            },
            Control::Stop => ControlPlan {
                action: ComposeAction::Stop,
                clears_console: false,
                line: "[panel] Server stopping...".to_owned(),
                message: "server stopping".to_owned(),
            },
            Control::Restart => ControlPlan {
                action: ComposeAction::Restart,
                clears_console: true,
                line: "[panel] Server restarting...".to_owned(),
                message: "server restarting".to_owned(),
            },
        }
    }
}

/// The error for a console that is to be cleared of a server that is not there.
pub fn logs_clear(reg: &ServerRegistry, id: &str) -> (r: Result<(), ApiError>)
    ensures
        match r {
            Ok(()) => reg@.contains_key(id@),
            Err(e) => !reg@.contains_key(id@) && e@ == error(404, "server not found"@),
        },
{
    match reg.get(id) {
        Some(_) => Ok(()),
        None => Err(ApiError::new(404, "server not found".to_owned())),
    }
}

/// A command for a server.
#[derive(Debug)]
pub struct CommandBody {
    pub command: String,
}

/// What is wrong with a command, if anything.
pub open spec fn command_error(known: bool, command: Seq<char>) -> Option<ApiErrorView> {
    if command.len() == 0 {
        Some(error(500, "command must not be empty"@))
    } else if !known {
        Some(error(500, "server not found"@))
    } else {
        None
    }
}

/// The server that a command is sent to. An empty command is refused before anything else.
pub fn command(reg: &ServerRegistry, id: &str, body: &CommandBody) -> (r: Result<
    ServerDef,
    ApiError,
>)
    ensures
        match r {
            Ok(def) => body.command@.len() > 0 && reg@.contains_key(id@) && def@ == reg@[id@],
            Err(e) => if body.command@.len() == 0 {
                e@ == error(500, "command must not be empty"@)
            } else {
                !reg@.contains_key(id@) && e@ == error(500, "server not found"@)
            },
        },
        command_error(reg@.contains_key(id@), body.command@) == (match r {
            Ok(_) => None,
            Err(e) => Some(e@),
        }),
{
    if body.command.as_str().is_empty() {
        return Err(ApiError::internal("command must not be empty".to_owned()));
    }
    get_server(reg, id)
}

// ── Files ─────────────────────────────────────────────────────────────────

/// The path that is asked for.
#[derive(Debug)]
pub struct PathQuery {
    pub path: Option<String>,
}

/// A file to be written.
#[derive(Debug)]
pub struct FileWriteBody {
    pub path: String,
    pub content: String,
}

/// The path on the host that a path of the browser stands for, where it lies in the data of
/// the server.
pub open spec fn host_path(
    requested: Seq<char>,
    data_path: Seq<char>,
    canonical: Option<Seq<char>>,
) -> Option<Seq<char>> {
    let base = files::base_dir(data_path, canonical);
    let path = files::requested_path(base, files::mapped_path(requested, data_path));
    if files::lies_in(path, base) {
        Some(path)
    } else {
        None
    }
}

/// The path on the host that a path of the browser stands for. The canonical form of the data
/// directory is given where it has one.
pub fn data_file(requested: &str, data_path: &str, canonical: Option<&str>) -> (r: Result<
    String,
    ApiError,
>)
    ensures
        match r {
            Ok(path) => host_path(requested@, data_path@, text::opt_str_view(canonical)) == Some(
                path@,
            ),
            Err(e) => host_path(
                requested@,
                data_path@,
                text::opt_str_view(canonical),
            ).is_none() && e@ == error(500, "path outside data directory"@),
        },
{
    let mapped = files::map_data_path(requested, data_path);
    match files::safe_path(data_path, canonical, mapped.as_str()) {
        Ok(path) => Ok(path),
        Err(e) => Err(ApiError::of_path(&e)),
    }
}

/// The directory that is listed: the data itself, where none is asked for.
pub fn files_dir(query: &PathQuery, data_path: &str, canonical: Option<&str>) -> (r: Result<
    String,
    ApiError,
>)
    ensures
        ({
            let requested = match query.path {
                Some(p) => p@,
                None => "/data"@,
            };
            match r {
                Ok(path) => host_path(requested, data_path@, text::opt_str_view(canonical))
                    == Some(path@),
                Err(e) => host_path(
                    requested,
                    data_path@,
                    text::opt_str_view(canonical),
                ).is_none() && e@ == error(500, "path outside data directory"@),
            }
        }),
{
    match &query.path {
        Some(p) => data_file(p.as_str(), data_path, canonical),
        None => data_file("/data", data_path, canonical),
    }
}

/// The file that is read.
pub fn file_content(query: &PathQuery, data_path: &str, canonical: Option<&str>) -> (r: Result<
    String,
    ApiError,
>)
    ensures
        ({
            let requested = match query.path {
                Some(p) => p@,
                None => Seq::empty(),
            };
            match r {
                Ok(path) => host_path(requested, data_path@, text::opt_str_view(canonical))
                    == Some(path@),
                Err(e) => host_path(
                    requested,
                    data_path@,
                    text::opt_str_view(canonical),
                ).is_none() && e@ == error(500, "path outside data directory"@),
            }
        }),
{
    match &query.path {
        Some(p) => data_file(p.as_str(), data_path, canonical),
        None => {
            let none = String::new();
            proof {
                assert(none@ =~= Seq::<char>::empty());
            }
            data_file(none.as_str(), data_path, canonical)
        },
    }
}

/// The file that is written.
pub fn file_write(body: &FileWriteBody, data_path: &str, canonical: Option<&str>) -> (r: Result<
    String,
    ApiError,
>)
    ensures
        match r {
            Ok(path) => host_path(body.path@, data_path@, text::opt_str_view(canonical)) == Some(
                path@,
            ),
            Err(e) => host_path(
                body.path@,
                data_path@,
                text::opt_str_view(canonical),
            ).is_none() && e@ == error(500, "path outside data directory"@),
        },
{
    data_file(body.path.as_str(), data_path, canonical)
}

// ── Mods ──────────────────────────────────────────────────────────────────

/// A mod by its path.
#[derive(Debug)]
pub struct ModPathBody {
    pub path: String,
}

/// How a mod is enabled: it is moved among the mods.
pub fn mod_enable(body: &ModPathBody, data_path: &str) -> (r: Result<ModMove, ApiError>)
    ensures
        ({
            let path = files::mapped_path(body.path@, data_path@);
            match r {
                Ok(m) => m.from@ == path && files::moved_to(
                    path,
                    files::mods_dir_spec(data_path@),
                ) == Some(m.to@),
                Err(e) => files::moved_to(path, files::mods_dir_spec(data_path@)).is_none() && e@
                    == error(500, "invalid path"@),
            }
        }),
{
    let path = files::map_data_path(body.path.as_str(), data_path);
    match files::enable_mod(path.as_str(), data_path) {
        Ok(m) => Ok(m),
        Err(e) => Err(ApiError::of_path(&e)),
    }
}

/// How a mod is disabled: it is moved among the disabled ones.
pub fn mod_disable(body: &ModPathBody, data_path: &str) -> (r: Result<ModMove, ApiError>)
    ensures
        ({
            let path = files::mapped_path(body.path@, data_path@);
            match r {
                Ok(m) => m.from@ == path && files::moved_to(
                    path,
                    files::disabled_dir_spec(data_path@),
                ) == Some(m.to@),
                Err(e) => files::moved_to(path, files::disabled_dir_spec(data_path@)).is_none()
                    && e@ == error(500, "invalid mod path"@),
            }
        }),
{
    let path = files::map_data_path(body.path.as_str(), data_path);
    match files::disable_mod(path.as_str(), data_path) {
        Ok(m) => Ok(m),
        Err(e) => Err(ApiError::of_path(&e)),
    }
}

/// The file that is removed with a mod.
pub fn mod_remove(body: &ModPathBody, data_path: &str) -> (r: String)
    ensures
        r@ == files::mapped_path(body.path@, data_path@),
{
    files::map_data_path(body.path.as_str(), data_path)
}

/// A mod to be downloaded.
#[derive(Debug)]
pub struct ModInstallBody {
    /// Where it is downloaded from.
    pub url: String,
    /// The name that it gets among the mods.
    pub filename: String,
}

/// How a mod is installed.
#[derive(Debug)]
pub struct InstallPlan {
    /// The directory that has to be there.
    pub mods_dir: String,
    /// The file that the download is written to.
    pub dest: String,
    pub filename: String,
    pub message: String,
}

/// Whether a file name leads out of the directory that it is put in.
pub open spec fn leads_out(name: Seq<char>) -> bool {
    name.contains('/') || name.contains('\\') || text::has_text(name, ".."@)
}

/// The file that a mod is installed as, where its name is one that a mod may have.
pub open spec fn installed_as(filename: Seq<char>, data_path: Seq<char>) -> Option<Seq<char>> {
    let name = text::trimmed(filename);
    if text::ends(name, ".jar"@) && !leads_out(name) {
        Some(files::mods_dir_spec(data_path) + "/"@ + name)
    } else {
        None
    }
}

/// How a mod is installed. Its name has to end in `.jar` and must not lead out of the mods.
pub fn mod_install(body: &ModInstallBody, data_path: &str) -> (r: Result<InstallPlan, ApiError>)
    ensures
        ({
            let name = text::trimmed(body.filename@);
            match r {
                Ok(plan) => {
                    &&& text::ends(name, ".jar"@) && !leads_out(name)
                    &&& plan.filename@ == name
                    &&& plan.mods_dir@ == files::mods_dir_spec(data_path@)
                    &&& plan.dest@ == files::mods_dir_spec(data_path@) + "/"@ + name
                    &&& plan.message@ == "Installed "@ + name
                },
                Err(e) => if !text::ends(name, ".jar"@) {
                    e@ == error(500, "filename must end in .jar"@)
                } else {
                    leads_out(name) && e@ == error(500, "invalid filename"@)
                },
            }
        }),
        match r {
            Ok(plan) => installed_as(body.filename@, data_path@) == Some(plan.dest@),
            Err(_) => installed_as(body.filename@, data_path@).is_none(),
        },
{
    let filename = text::trim(body.filename.as_str());
    if !text::ends_with(filename.as_str(), ".jar") {
        return Err(ApiError::internal("filename must end in .jar".to_owned()));
    }
    let slash = text::has_char(filename.as_str(), CharClass::Is('/'));
    let backslash = text::has_char(filename.as_str(), CharClass::Is('\\'));
    proof {
        let name = filename@;
        if name.contains('/') {
            let i = choose|i: int| 0 <= i < name.len() && name[i] == '/';
            assert(CharClass::Is('/').has(name[i]));
        }
        if name.contains('\\') {
            let i = choose|i: int| 0 <= i < name.len() && name[i] == '\\';
            assert(CharClass::Is('\\').has(name[i]));
        }
        assert(slash == name.contains('/'));
        assert(backslash == name.contains('\\'));
    }
    if slash || backslash || text::contains(filename.as_str(), "..") {
        return Err(ApiError::internal("invalid filename".to_owned()));
    }
    let mods_dir = files::mods_dir(data_path);
    let dest = text::cat3(mods_dir.as_str(), "/", filename.as_str());
    let message = text::cat("Installed ", filename.as_str());
    Ok(InstallPlan { mods_dir, dest, filename, message })
}

/// What is said of a download that was answered with another status than success.
pub open spec fn no_download(status: Seq<char>) -> Seq<char> {
    "download failed: HTTP "@ + status
}

/// The error for a download that was answered with another status than success.
pub fn download_failed(status: &str) -> (r: ApiError)
    ensures
        r@ == error(500, no_download(status@)),
        r@ == error(500, "download failed: HTTP "@ + status@),
{
    ApiError::internal(text::cat("download failed: HTTP ", status))
}

// ── Settings ──────────────────────────────────────────────────────────────

/// A compose file to be written.
#[derive(Debug)]
pub struct ConfigBody {
    pub content: String,
}

/// Whether a server is to have GPU support.
#[derive(Debug)]
pub struct OpenClBody {
    pub enabled: bool,
}

/// What is said when GPU support was switched.
pub fn opencl_message(enabled: bool) -> (r: String)
    ensures
        r@ == (if enabled {
            "OpenCL enabled — stop and restart the server to apply"@
        } else {
            "OpenCL disabled — stop and restart the server to apply"@
        }),
{
    if enabled {
        "OpenCL enabled — stop and restart the server to apply".to_owned()
    } else {
        "OpenCL disabled — stop and restart the server to apply".to_owned()
    }
}

/// What is said when backups were set up.
pub fn backup_message(enabled: bool) -> (r: String)
    ensures
        r@ == (if enabled {
            "Backup sidecar enabled — starting in background"@
        } else {
            "Backup sidecar disabled — stopping in background"@
        }),
{
    if enabled {
        "Backup sidecar enabled — starting in background".to_owned()
    } else {
        "Backup sidecar disabled — stopping in background".to_owned()
    }
}

// ── Session ───────────────────────────────────────────────────────────────

/// The answer to a login.
#[derive(Debug)]
pub struct LoginReply {
    pub username: String,
    pub role: UserRole,
    /// What the browser is told to keep.
    pub cookie: String,
}

/// What is sent to whoever has logged in.
pub open spec fn login_body(username: Seq<char>, role: UserRole) -> Seq<char> {
    "{\"ok\":true,\"role\":"@ + json::json_string(role.text()) + ",\"username\":"@
        + json::json_string(username) + "}"@
}

/// What is sent to whoever has logged in.
pub fn logged_in_body(username: &str, role: UserRole) -> (r: String)
    ensures
        r@ == login_body(username@, role),
{
    let mut out = "{\"ok\":true,\"role\":".to_owned();
    out.push_str(json::write_string(role.to_string().as_str()).as_str());
    out.push_str(",\"username\":");
    out.push_str(json::write_string(username).as_str());
    out.push_str("}");
    out
}

/// What users are sent about themselves.
pub open spec fn me_body_of(info: UserInfoView) -> Seq<char> {
    "{\"allowed_servers\":"@ + (match info.allowed_servers {
        Some(ids) => json::json_list(ids),
        None => "null"@,
    }) + ",\"ok\":true,\"role\":"@ + json::json_string(info.role.text()) + ",\"username\":"@
        + json::json_string(info.username) + "}"@
}

/// What users are sent about themselves.
pub fn me_body(info: &UserInfo) -> (r: String)
    ensures
        r@ == me_body_of(info@),
{
    let mut out = "{\"allowed_servers\":".to_owned();
    match &info.allowed_servers {
        Some(ids) => out.push_str(json::write_list(ids).as_str()),
        None => out.push_str("null"),
    }
    out.push_str(",\"ok\":true,\"role\":");
    out.push_str(json::write_string(info.role.to_string().as_str()).as_str());
    out.push_str(",\"username\":");
    out.push_str(json::write_string(info.username.as_str()).as_str());
    out.push_str("}");
    out
}

/// Logs a user in. Nobody can log in before the panel is set up.
pub fn auth_login(store: &UserStore, username: &str, password: &str) -> (r: Result<
    LoginReply,
    ApiError,
>)
    ensures
        match r {
            Ok(reply) => {
                &&& users::lookup(store@, username@) matches Some(u) && u.password == password@
                    && reply.role == u.role
                &&& reply.username@ == username@
                &&& reply.cookie@ == session::login_cookie(username@)
            },
            Err(e) => if store@.len() == 0 {
                e@ == (ApiErrorView {
                    status: 503,
                    message: Some("Setup required"@),
                    setup_required: true,
                })
            } else {
                &&& !(users::lookup(store@, username@) matches Some(u) && u.password == password@)
                &&& e@ == error(401, "Invalid credentials"@)
            },
        },
        match r {
            Ok(reply) => users::signed_in(store@, username@, password@) == Some(reply.role),
            Err(_) => store@.len() == 0 || users::signed_in(
                store@,
                username@,
                password@,
            ).is_none(),
        },
{
    if store.is_empty() {
        return Err(
            ApiError {
                status: 503,
                message: Some("Setup required".to_owned()),
                setup_required: true,
            },
        );
    }
    match store.authenticate(username, password) {
        Some(role) => Ok(
            LoginReply {
                username: username.to_owned(),
                role,
                cookie: session::session_cookie(username),
            },
        ),
        None => Err(ApiError::new(401, "Invalid credentials".to_owned())),
    }
}

/// What the browser is told when a user logs out.
pub fn auth_logout() -> (r: String)
    ensures
        r@ == session::logout_cookie(),
{
    session::cleared_cookie()
}

/// Who is logged in.
pub fn auth_me(store: &UserStore, cookie: Option<&str>) -> (r: Result<UserInfo, ApiError>)
    ensures
        ({
            let name = match cookie {
                Some(c) => session::user_in(c@),
                None => None,
            };
            match r {
                Ok(info) => access::caller_account(store@, name) matches Some(u) && info@
                    == u.info(),
                Err(e) => if store@.len() == 0 {
                    e@ == (ApiErrorView { status: 401, message: None, setup_required: true })
                } else {
                    access::caller_account(store@, name).is_none() && e@ == error(
                        401,
                        "Not logged in"@,
                    )
                },
            }
        }),
{
    if store.is_empty() {
        return Err(ApiError { status: 401, message: None, setup_required: true });
    }
    let name = session::cookie_user(cookie);
    match &name {
        Some(user) => match store.get(user.as_str()) {
            Some(u) => Ok(UserInfo::from_user(&u)),
            None => Err(ApiError::new(401, "Not logged in".to_owned())),
        },
        None => Err(ApiError::new(401, "Not logged in".to_owned())),
    }
}

// ── Accounts ──────────────────────────────────────────────────────────────

/// Whether whoever asks is an admin.
pub open spec fn asks_admin(users: Seq<UserView>, caller: Option<Seq<char>>) -> bool {
    access::caller_account(users, caller) matches Some(u) && u.role == UserRole::Admin
}

/// The accounts after a change that somebody asks for, where it is made: by an admin, and where it
/// is allowed.
pub open spec fn admin_change(
    users: Seq<UserView>,
    caller: Option<Seq<char>>,
    change: UserChange,
) -> Option<Seq<UserView>> {
    if asks_admin(users, caller) && users::is_allowed(users, change) {
        Some(users::after_change(users, change))
    } else {
        None
    }
}

/// The accounts after a change of a password that somebody asks for, where it is made: by whom it
/// belongs to or by an admin, and where a password is given.
pub open spec fn password_change(
    users: Seq<UserView>,
    caller: Option<Seq<char>>,
    username: Seq<char>,
    password: Option<Seq<char>>,
) -> Option<Seq<UserView>> {
    let change = UserChange::Update { username, new_password: password, new_role: None };
    if (caller == Some(username) || asks_admin(users, caller)) && password.is_some()
        && users::is_allowed(users, change) {
        Some(users::after_change(users, change))
    } else {
        None
    }
}

/// Whether whoever asks is an admin.
pub fn is_admin(store: &UserStore, caller: Option<&str>) -> (r: bool)
    ensures
        r == asks_admin(store@, text::opt_str_view(caller)),
{
    match caller {
        Some(name) => match store.role_of(name) {
            Some(role) => role == UserRole::Admin,
            None => false,
        },
        None => false,
    }
}

/// All accounts, for admins.
pub fn users_list(store: &UserStore, caller: Option<&str>) -> (r: Result<Vec<UserInfo>, ApiError>)
    ensures
        match r {
            Ok(list) => asks_admin(store@, text::opt_str_view(caller)) && list@.map_values(
                |i: UserInfo| i@,
            ) == store@.map_values(|u: UserView| u.info()),
            Err(e) => !asks_admin(store@, text::opt_str_view(caller)) && e@ == error(
                403,
                "Forbidden"@,
            ),
        },
{
    if !is_admin(store, caller) {
        return Err(ApiError::new(403, "Forbidden".to_owned()));
    }
    Ok(store.list())
}

/// An account to be created.
#[derive(Debug)]
pub struct CreateUserBody {
    pub username: String,
    pub password: String,
    pub role: String,
}

/// The role of a new account: an admin, unless one of the other roles is named.
pub open spec fn new_role(name: Seq<char>) -> UserRole {
    match users::named_role(name) {
        Some(role) => role,
        None => UserRole::Admin,
    }
}

/// Creates an account, for admins.
pub fn users_create(store: &mut UserStore, caller: Option<&str>, body: &CreateUserBody) -> (r:
    Result<(), ApiError>)
    ensures
        ({
            let before = old(store)@;
            let complete = body.username@.len() > 0 && body.password@.len() > 0;
            match r {
                Ok(()) => {
                    &&& asks_admin(before, text::opt_str_view(caller))
                    &&& complete && !users::has_user(before, body.username@)
                    &&& final(store)@ == before.push(
                        UserView {
                            username: body.username@,
                            password: body.password@,
                            role: new_role(body.role@),
                            allowed_servers: None,
                        },
                    )
                },
                Err(e) => {
                    &&& final(store)@ == before
                    &&& if !asks_admin(before, text::opt_str_view(caller)) {
                        e@ == error(403, "Forbidden"@)
                    } else if !complete {
                        e@ == error(400, "username and password must not be empty"@)
                    } else {
                        users::has_user(before, body.username@) && e@ == error(
                            400,
                            "user '"@ + body.username@ + "' already exists"@,
                        )
                    }
                },
            }
        }),
        match r {
            Ok(()) => admin_change(
                old(store)@,
                text::opt_str_view(caller),
                UserChange::Create {
                    username: body.username@,
                    password: body.password@,
                    role: new_role(body.role@),
                },
            ) == Some(final(store)@),
            Err(_) => admin_change(
                old(store)@,
                text::opt_str_view(caller),
                UserChange::Create {
                    username: body.username@,
                    password: body.password@,
                    role: new_role(body.role@),
                },
            ).is_none() && final(store)@ == old(store)@,
        },
{
    if !is_admin(store, caller) {
        return Err(ApiError::new(403, "Forbidden".to_owned()));
    }
    let role = match UserRole::from_str(body.role.as_str()) {
        Ok(role) => role,
        Err(_) => UserRole::Admin,
    };
    match store.create(body.username.as_str(), body.password.as_str(), role) {
        Ok(()) => Ok(()),
        Err(e) => Err(ApiError::of_user(&e)),
    }
}

/// Changes to an account.
#[derive(Debug)]
pub struct UpdateUserBody {
    pub password: Option<String>,
    pub role: Option<String>,
}

/// The role that is named; nothing else changes a role.
pub open spec fn changed_role(name: Option<Seq<char>>) -> Option<UserRole> {
    match name {
        Some(s) => users::named_role(s),
        None => None,
    }
}

/// Whether an update of an account succeeds: the account is there, its password would not be
/// empty, and the only admin stays one.
pub open spec fn can_update(
    users: Seq<UserView>,
    username: Seq<char>,
    password: Option<Seq<char>>,
    role: Option<UserRole>,
) -> bool {
    users::is_allowed(
        users,
        UserChange::Update { username, new_password: password, new_role: role },
    )
}

/// The accounts after an update of one.
pub open spec fn after_update(
    users: Seq<UserView>,
    username: Seq<char>,
    password: Option<Seq<char>>,
    role: Option<UserRole>,
) -> Seq<UserView> {
    let at = users::place_of(users, username);
    users.update(at, users::updated(users[at], password, role))
}

/// The error for an update that does not succeed.
pub open spec fn update_error(
    users: Seq<UserView>,
    username: Seq<char>,
    password: Option<Seq<char>>,
) -> ApiErrorView {
    if !users::has_user(users, username) {
        error(400, "user not found"@)
    } else if password matches Some(p) && p.len() == 0 {
        error(400, "password must not be empty"@)
    } else {
        error(400, "cannot change the role of the last admin account"@)
    }
}

/// Changes an account, for admins. The only admin stays one.
pub fn users_update(
    store: &mut UserStore,
    caller: Option<&str>,
    username: &str,
    body: &UpdateUserBody,
) -> (r: Result<(), ApiError>)
    ensures
        ({
            let before = old(store)@;
            let password = text::opt_view(body.password);
            let role = changed_role(text::opt_view(body.role));
            match r {
                Ok(()) => {
                    &&& asks_admin(before, text::opt_str_view(caller))
                    &&& can_update(before, username@, password, role)
                    &&& final(store)@ == after_update(before, username@, password, role)
                },
                Err(e) => {
                    &&& final(store)@ == before
                    &&& if !asks_admin(before, text::opt_str_view(caller)) {
                        e@ == error(403, "Forbidden"@)
                    } else {
                        !can_update(before, username@, password, role) && e@ == update_error(
                            before,
                            username@,
                            password,
                        )
                    }
                },
            }
        }),
        match r {
            Ok(()) => admin_change(
                old(store)@,
                text::opt_str_view(caller),
                UserChange::Update {
                    username: username@,
                    new_password: text::opt_view(body.password),
                    new_role: changed_role(text::opt_view(body.role)),
                },
            ) == Some(final(store)@),
            Err(_) => admin_change(
                old(store)@,
                text::opt_str_view(caller),
                UserChange::Update {
                    username: username@,
                    new_password: text::opt_view(body.password),
                    new_role: changed_role(text::opt_view(body.role)),
                },
            ).is_none() && final(store)@ == old(store)@,
        },
{
    if !is_admin(store, caller) {
        return Err(ApiError::new(403, "Forbidden".to_owned()));
    }
    let role = match &body.role {
        Some(name) => match UserRole::from_str(name.as_str()) {
            Ok(role) => Some(role),
            Err(_) => None,
        },
        None => None,
    };
    let password = match &body.password {
        Some(p) => Some(p.as_str()),
        None => None,
    };
    match store.update(username, password, role) {
        Ok(()) => Ok(()),
        Err(e) => Err(ApiError::of_user(&e)),
    }
}

/// Changes a password: users change their own, admins that of anybody.
pub fn users_change_password(
    store: &mut UserStore,
    caller: Option<&str>,
    username: &str,
    password: Option<&str>,
) -> (r: Result<(), ApiError>)
    ensures
        ({
            let before = old(store)@;
            let asked_by = text::opt_str_view(caller);
            let may = asked_by == Some(username@) || asks_admin(before, asked_by);
            match r {
                Ok(()) => {
                    &&& may && users::has_user(before, username@)
                    &&& password matches Some(p) && p@.len() > 0 && final(store)@ == after_update(
                        before,
                        username@,
                        Some(p@),
                        None,
                    )
                },
                Err(e) => {
                    &&& final(store)@ == before
                    &&& if asked_by.is_none() {
                        e@ == error(401, "Not logged in"@)
                    } else if !may {
                        e@ == error(403, "Forbidden"@)
                    } else if !(password matches Some(p) && p@.len() > 0) {
                        e@ == error(400, "Password required"@)
                    } else {
                        !users::has_user(before, username@) && e@ == error(
                            400,
                            "user not found"@,
                        )
                    }
                },
            }
        }),
        match r {
            Ok(()) => password_change(
                old(store)@,
                text::opt_str_view(caller),
                username@,
                text::opt_str_view(password),
            ) == Some(final(store)@),
            Err(_) => password_change(
                old(store)@,
                text::opt_str_view(caller),
                username@,
                text::opt_str_view(password),
            ).is_none() && final(store)@ == old(store)@,
        },
{
    let name = match caller {
        Some(name) => name,
        None => {
            return Err(ApiError::new(401, "Not logged in".to_owned()));
        },
    };
    if !text::same(name, username) && !is_admin(store, caller) {
        return Err(ApiError::new(403, "Forbidden".to_owned()));
    }
    let new_password = match password {
        Some(p) => {
            if p.is_empty() {
                return Err(ApiError::new(400, "Password required".to_owned()));
            }
            p
        },
        None => {
            return Err(ApiError::new(400, "Password required".to_owned()));
        },
    };
    match store.update(username, Some(new_password), None) {
        Ok(()) => Ok(()),
        Err(e) => Err(ApiError::of_user(&e)),
    }
}

/// Deletes an account, for admins. The last admin stays.
pub fn users_delete(store: &mut UserStore, caller: Option<&str>, username: &str) -> (r: Result<
    (),
    ApiError,
>)
    ensures
        ({
            let before = old(store)@;
            let is_last = users::lookup(before, username@) matches Some(u) && u.role
                == UserRole::Admin && users::admins(before) <= 1;
            match r {
                Ok(()) => {
                    &&& asks_admin(before, text::opt_str_view(caller))
                    &&& users::has_user(before, username@) && !is_last
                    &&& final(store)@ == before.remove(users::place_of(before, username@))
                },
                Err(e) => {
                    &&& final(store)@ == before
                    &&& if !asks_admin(before, text::opt_str_view(caller)) {
                        e@ == error(403, "Forbidden"@)
                    } else if !users::has_user(before, username@) {
                        e@ == error(400, "user not found"@)
                    } else {
                        is_last && e@ == error(400, "cannot delete the last admin account"@)
                    }
                },
            }
        }),
        match r {
            Ok(()) => admin_change(
                old(store)@,
                text::opt_str_view(caller),
                UserChange::Delete { username: username@ },
            ) == Some(final(store)@),
            Err(_) => admin_change(
                old(store)@,
                text::opt_str_view(caller),
                UserChange::Delete { username: username@ },
            ).is_none() && final(store)@ == old(store)@,
        },
{
    if !is_admin(store, caller) {
        return Err(ApiError::new(403, "Forbidden".to_owned()));
    }
    match store.delete(username) {
        Ok(()) => Ok(()),
        Err(e) => Err(ApiError::of_user(&e)),
    }
}

/// The servers that an account is to be restricted to, as they were sent.
#[derive(Debug)]
pub enum ServerIds {
    /// A list; what is no text in it is left out.
    Items(Vec<Option<String>>),
    /// All servers.
    All,
    /// Something else.
    Invalid,
}

/// The texts of a list, in their order.
pub open spec fn texts_in(items: Seq<Option<String>>) -> Seq<Seq<char>>
    decreases items.len(),
{
    if items.len() == 0 {
        Seq::empty()
    } else {
        match items.last() {
            Some(s) => texts_in(items.drop_last()).push(s@),
            None => texts_in(items.drop_last()),
        }
    }
}

fn keep_texts(items: &Vec<Option<String>>) -> (r: Vec<String>)
    ensures
        text::views(r@) == texts_in(items@),
{
    let mut out: Vec<String> = Vec::new();
    let mut i: usize = 0;
    proof {
        assert(items@.take(0) =~= Seq::<Option<String>>::empty());
        assert(text::views(out@) =~= texts_in(items@.take(0)));
    }
    while i < items.len()
        invariant
            i <= items.len(),
            text::views(out@) == texts_in(items@.take(i as int)),
        decreases items.len() - i,
    {
        let ghost before = text::views(out@);
        proof {
            assert(items@.take(i + 1).drop_last() =~= items@.take(i as int));
            assert(items@.take(i + 1).last() == items@[i as int]);
        }
        match &items[i] {
            Some(s) => {
                out.push(s.clone());
                proof {
                    assert(text::views(out@) =~= before.push(s@));
                }
            },
            None => {},
        }
        i += 1;
    }
    proof {
        assert(items@.take(i as int) =~= items@);
    }
    out
}

/// The servers that an account is restricted to; nothing where it may see all.
pub open spec fn wanted_ids(ids: ServerIds) -> Option<Seq<Seq<char>>> {
    match ids {
        ServerIds::Items(items) => Some(texts_in(items@)),
        _ => None,
    }
}

/// Restricts an account to some servers, for admins.
pub fn users_set_servers(
    store: &mut UserStore,
    caller: Option<&str>,
    username: &str,
    ids: ServerIds,
) -> (r: Result<(), ApiError>)
    ensures
        ({
            let before = old(store)@;
            match r {
                Ok(()) => {
                    &&& asks_admin(before, text::opt_str_view(caller))
                    &&& !(ids is Invalid)
                    &&& users::lookup(before, username@) matches Some(u) && final(store)@
                        == before.update(
                        users::place_of(before, username@),
                        UserView { allowed_servers: wanted_ids(ids), ..u },
                    )
                },
                Err(e) => {
                    &&& final(store)@ == before
                    &&& if !asks_admin(before, text::opt_str_view(caller)) {
                        e@ == error(403, "Forbidden"@)
                    } else if ids is Invalid {
                        e@ == error(400, "server_ids must be an array or null"@)
                    } else {
                        !users::has_user(before, username@) && e@ == error(
                            400,
                            "user not found"@,
                        )
                    }
                },
            }
        }),
        match r {
            Ok(()) => admin_change(
                old(store)@,
                text::opt_str_view(caller),
                UserChange::Restrict { username: username@, ids: wanted_ids(ids) },
            ) == Some(final(store)@),
            Err(_) => final(store)@ == old(store)@ && (ids is Invalid || admin_change(
                old(store)@,
                text::opt_str_view(caller),
                UserChange::Restrict { username: username@, ids: wanted_ids(ids) },
            ).is_none()),
        },
{
    if !is_admin(store, caller) {
        return Err(ApiError::new(403, "Forbidden".to_owned()));
    }
    let list = match &ids {
        ServerIds::Items(items) => Some(keep_texts(items)),
        ServerIds::All => None,
        ServerIds::Invalid => {
            return Err(ApiError::new(400, "server_ids must be an array or null".to_owned()));
        },
    };
    match store.set_allowed_servers(username, list) {
        Ok(()) => Ok(()),
        Err(e) => Err(ApiError::of_user(&e)),
    }
}

// ── Setup ─────────────────────────────────────────────────────────────────

/// Whether the panel waits to be set up.
pub fn setup_status(store: &UserStore) -> (r: bool)
    ensures
        r == (store@.len() == 0),
{
    store.is_empty()
}

/// The first account.
#[derive(Debug)]
pub struct SetupBody {
    pub username: String,
    pub password: String,
}

/// The answer to a setup: the account that was created, and what the browser is told to keep.
#[derive(Debug)]
pub struct SetupReply {
    pub username: String,
    pub cookie: String,
}

/// What is wrong with a setup, if anything.
pub open spec fn setup_error(
    users: Seq<UserView>,
    username: Seq<char>,
    password: Seq<char>,
) -> Option<ApiErrorView> {
    let name = text::trimmed(username);
    let pass = text::trimmed(password);
    if users.len() > 0 {
        Some(error(403, "Setup already completed"@))
    } else if name.len() == 0 || pass.len() == 0 {
        Some(error(400, "Username and password are required"@))
    } else if pass.len() < 8 {
        Some(error(400, "Password must be at least 8 characters"@))
    } else {
        None
    }
}

/// The first account that a setup creates.
pub open spec fn first_admin(username: Seq<char>, password: Seq<char>) -> UserView {
    UserView {
        username: text::trimmed(username),
        password: text::trimmed(password),
        role: UserRole::Admin,
        allowed_servers: None,
    }
}

/// Creates the first account, an admin, and logs it in. Once there is any account this is
/// closed.
pub fn setup_create(store: &mut UserStore, body: &SetupBody) -> (r: Result<SetupReply, ApiError>)
    ensures
        match r {
            Ok(reply) => {
                &&& setup_error(old(store)@, body.username@, body.password@).is_none()
                &&& final(store)@ == seq![first_admin(body.username@, body.password@)]
                &&& reply.username@ == text::trimmed(body.username@)
                &&& reply.cookie@ == session::login_cookie(text::trimmed(body.username@))
            },
            Err(e) => final(store)@ == old(store)@ && setup_error(
                old(store)@,
                body.username@,
                body.password@,
            ) == Some(e@),
        },
{
    if !store.is_empty() {
        return Err(ApiError::new(403, "Setup already completed".to_owned()));
    }
    let username = text::trim(body.username.as_str());
    let password = text::trim(body.password.as_str());
    if username.as_str().is_empty() || password.as_str().is_empty() {
        return Err(ApiError::new(400, "Username and password are required".to_owned()));
    }
    if text::chars_of(password.as_str()).len() < 8 {
        return Err(ApiError::new(400, "Password must be at least 8 characters".to_owned()));
    }
    proof {
        if users::has_user(store@, username@) {
            let i = users::place_of(store@, username@);
            assert(users::is_at(store@, username@, i));
        }
    }
    match store.create(username.as_str(), password.as_str(), UserRole::Admin) {
        Ok(()) => {
            proof {
                assert(store@ =~= seq![first_admin(body.username@, body.password@)]);
            }
            let cookie = session::session_cookie(username.as_str());
            Ok(SetupReply { username, cookie })
        },
        Err(e) => Err(ApiError::of_user(&e)),
    }
}

// ── Dashboard ─────────────────────────────────────────────────────────────

/// What was found out about a server: its status, unless that took too long, and how many
/// players are on it, where that was asked and answered.
#[derive(Debug)]
pub struct ServerProbe {
    pub id: String,
    pub name: String,
    pub port: u16,
    pub status: Option<ServerStatus>,
    pub players: Option<usize>,
}

/// A server in the summary.
#[derive(Debug)]
pub struct ServerRow {
    pub id: String,
    pub name: String,
    pub port: u16,
    pub running: bool,
    pub status: String,
    pub uptime: String,
}

/// The summary of all servers.
#[derive(Debug)]
pub struct Summary {
    pub servers: Vec<ServerRow>,
    pub total: usize,
    pub online: u32,
    pub players: u32,
}

/// Whether the server was found running.
pub open spec fn runs(probe: ServerProbe) -> bool {
    probe.status matches Some(st) && st.running
}

/// How many servers were found running.
pub open spec fn online_count(probes: Seq<ServerProbe>) -> nat
    decreases probes.len(),
{
    if probes.len() == 0 {
        0
    } else {
        online_count(probes.drop_last()) + (if runs(probes.last()) {
            1nat
        } else {
            0
        })
    }
}

/// How many players are on the servers that were found running.
pub open spec fn player_count(probes: Seq<ServerProbe>) -> nat
    decreases probes.len(),
{
    if probes.len() == 0 {
        0
    } else {
        player_count(probes.drop_last()) + players_on(probes.last())
    }
}

/// How many players are on the server, where it was found running.
pub open spec fn players_on(probe: ServerProbe) -> nat {
    if runs(probe) {
        match probe.players {
            Some(n) => (n as u32) as nat,
            None => 0,
        }
    } else {
        0
    }
}

/// Whether the row shows what was found out.
pub open spec fn shows(row: ServerRow, probe: ServerProbe) -> bool {
    &&& row.id@ == probe.id@
    &&& row.name@ == probe.name@
    &&& row.port == probe.port
    &&& row.running == runs(probe)
    &&& row.status@ == (match probe.status {
        Some(st) => st.status@,
        None => Seq::empty(),
    })
    &&& row.uptime@ == (match probe.status {
        Some(st) => st.uptime@,
        None => Seq::empty(),
    })
}

proof fn lemma_player_count(probes: Seq<ServerProbe>, i: int)
    requires
        0 <= i <= probes.len(),
    ensures
        player_count(probes.take(i)) <= player_count(probes),
    decreases probes.len() - i,
{
    if i == probes.len() {
        assert(probes.take(i) =~= probes);
    } else {
        lemma_player_count(probes, i + 1);
        assert(probes.take(i + 1).drop_last() =~= probes.take(i));
    }
}

/// The summary of all servers, by what was found out about each.
pub fn dashboard(probes: &Vec<ServerProbe>) -> (r: Summary)
    requires
        probes@.len() <= u32::MAX,
        player_count(probes@) <= u32::MAX,
    ensures
        r.servers@.len() == probes@.len(),
        forall|i: int| 0 <= i < probes@.len() ==> shows(#[trigger] r.servers@[i], probes@[i]),
        r.total == probes@.len(),
        r.online == online_count(probes@),
        r.players == player_count(probes@),
{
    let mut servers: Vec<ServerRow> = Vec::new();
    let mut online: u32 = 0;
    let mut players: u32 = 0;
    let mut i: usize = 0;
    while i < probes.len()
        invariant
            i <= probes.len(),
            probes@.len() <= u32::MAX,
            player_count(probes@) <= u32::MAX,
            servers@.len() == i,
            forall|k: int| 0 <= k < i ==> shows(#[trigger] servers@[k], probes@[k]),
            online == online_count(probes@.take(i as int)),
            online <= i,
            players == player_count(probes@.take(i as int)),
        decreases probes.len() - i,
    {
        let probe = &probes[i];
        proof {
            assert(probes@.take(i + 1).drop_last() =~= probes@.take(i as int));
            assert(probes@.take(i + 1).last() == probes@[i as int]);
            lemma_player_count(probes@, i + 1);
        }
        let status = match &probe.status {
            Some(st) => st.clone(),
            None => ServerStatus::default(),
        };
        if status.running {
            online += 1;
            match probe.players {
                Some(n) => {
                    players += n as u32;
                },
                None => {},
            }
        }
        let row = ServerRow {
            id: probe.id.clone(),
            name: probe.name.clone(),
            port: probe.port,
            running: status.running,
            status: status.status,
            uptime: status.uptime,
        };
        servers.push(row);
        i += 1;
    }
    proof {
        assert(probes@.take(i as int) =~= probes@);
    }
    Summary { servers, total: probes.len(), online, players }
}

// ── Laws ──────────────────────────────────────────────────────────────────

/// Setup is closed once it was done: whatever is sent, the second setup is refused. The account
/// that it created is an admin who can log in with what was typed.
pub proof fn law_setup_closes(
    users: Seq<UserView>,
    username: Seq<char>,
    password: Seq<char>,
    other_name: Seq<char>,
    other_password: Seq<char>,
)
    requires
        setup_error(users, username, password).is_none(),
    ensures
        ({
            let after = seq![first_admin(username, password)];
            &&& setup_error(after, other_name, other_password) == Some(
                error(403, "Setup already completed"@),
            )
            &&& users::lookup(after, text::trimmed(username)) == Some(
                first_admin(username, password),
            )
            &&& users::admins(after) == 1
            &&& asks_admin(after, Some(text::trimmed(username)))
        }),
{
    let u = first_admin(username, password);
    let after = seq![u];
    assert(users::is_at(after, u.username, 0));
    let i = users::place_of(after, u.username);
    assert(users::is_at(after, u.username, i));
    assert(after.drop_last() =~= Seq::<UserView>::empty());
    assert(users::admins(Seq::<UserView>::empty()) == 0);
}

/// Once there is an admin, setup is refused for good, whatever becomes of the accounts.
pub proof fn law_setup_is_refused_for_good(
    users: Seq<UserView>,
    changes: Seq<UserChange>,
    username: Seq<char>,
    password: Seq<char>,
)
    requires
        users::admins(users) >= 1,
    ensures
        setup_error(users::after_changes(users, changes), username, password) == Some(
            error(403, "Setup already completed"@),
        ),
{
    users::law_setup_stays_closed(users, changes);
}

/// After a change of password the account has the new password, and its role and its servers
/// as before.
pub proof fn law_new_password_counts(users: Seq<UserView>, username: Seq<char>, password: Seq<char>)
    requires
        users::unique_names(users),
        users::has_user(users, username),
    ensures
        users::lookup(after_update(users, username, Some(password), None), username) == Some(
            UserView { password, ..users[users::place_of(users, username)] },
        ),
{
    let at = users::place_of(users, username);
    assert(users::is_at(users, username, at));
    assert(username.push('x').len() != username.len());
    users::law_changed_is_found(
        users,
        username,
        UserView { password, ..users[at] },
        username.push('x'),
    );
}

/// Whoever is restricted to some servers is shown those only, and all of those that there are.
pub proof fn law_visible_servers(all: Seq<ServerDefView>, u: UserView, def: ServerDefView)
    ensures
        visible(all, u).contains(def) <==> all.contains(def) && access::may_see(u, def.id),
    decreases all.len(),
{
    if all.len() > 0 {
        let init = all.drop_last();
        let last = all.last();
        law_visible_servers(init, u, def);
        let before = visible(init, u);
        assert(all[all.len() - 1] == last);
        if all.contains(def) {
            let k = choose|k: int| 0 <= k < all.len() && all[k] == def;
            if k < init.len() {
                assert(init[k] == def);
            }
        }
        if init.contains(def) {
            let k = choose|k: int| 0 <= k < init.len() && init[k] == def;
            assert(all[k] == def);
        }
        if access::may_see(u, last.id) {
            let after = before.push(last);
            assert(after[after.len() - 1] == last);
            if before.contains(def) {
                let k = choose|k: int| 0 <= k < before.len() && before[k] == def;
                assert(after[k] == def);
            }
            if after.contains(def) {
                let k = choose|k: int| 0 <= k < after.len() && after[k] == def;
                if k < before.len() {
                    assert(before[k] == def);
                }
            }
        }
    }
}

/// The servers of two lists put together hold the players of the one and of the other, and of
/// them as many run as in each list.
pub proof fn law_players_add_up(a: Seq<ServerProbe>, b: Seq<ServerProbe>)
    ensures
        player_count(a + b) == player_count(a) + player_count(b),
        online_count(a + b) == online_count(a) + online_count(b),
    decreases b.len(),
{
    if b.len() == 0 {
        assert(a + b =~= a);
    } else {
        law_players_add_up(a, b.drop_last());
        assert((a + b).drop_last() =~= a + b.drop_last());
        assert((a + b).last() == b.last());
    }
}

/// A single server that runs counts as one that runs, with the number of players that was
/// answered for it. One that does not run, or that nothing is known of, counts for nothing, and
/// so does no server at all.
pub proof fn law_one_server_counts(probe: ServerProbe)
    ensures
        player_count(Seq::empty()) == 0,
        online_count(Seq::empty()) == 0,
        probe.status matches Some(st) ==> {
            &&& st.running ==> online_count(seq![probe]) == 1
            &&& st.running && probe.players.is_some() && probe.players.unwrap() <= u32::MAX
                ==> player_count(seq![probe]) == probe.players.unwrap()
            &&& st.running && probe.players.is_none() ==> player_count(seq![probe]) == 0
            &&& !st.running ==> online_count(seq![probe]) == 0 && player_count(seq![probe]) == 0
        },
        probe.status.is_none() ==> online_count(seq![probe]) == 0 && player_count(seq![probe]) == 0,
{
    assert(seq![probe].drop_last() =~= Seq::<ServerProbe>::empty());
    assert(player_count(seq![probe].drop_last()) == 0);
    assert(online_count(seq![probe].drop_last()) == 0);
}

/// The sums do not depend on the order in which the servers stand, and never get smaller by a
/// server that is added.
pub proof fn law_sums_grow(a: Seq<ServerProbe>, b: Seq<ServerProbe>, probe: ServerProbe)
    ensures
        player_count(a + b) == player_count(b + a),
        online_count(a + b) == online_count(b + a),
        player_count(a) <= player_count(a.push(probe)),
        online_count(a) <= online_count(a.push(probe)) <= a.len() + 1,
        online_count(a) <= a.len(),
    decreases a.len(),
{
    law_players_add_up(a, b);
    law_players_add_up(b, a);
    assert(a.push(probe).drop_last() =~= a);
    if a.len() > 0 {
        law_sums_grow(a.drop_last(), b, a.last());
        assert(a.drop_last().push(a.last()) =~= a);
    }
}

proof fn lemma_body(field: Seq<char>, tail: Seq<char>)
    ensures
        text::begins("{"@ + field + tail, "{"@),
        text::ends("{"@ + field + tail, tail),
        text::has_text("{"@ + field + tail, field),
{
    let none = Seq::<char>::empty();
    assert(text::begins("{"@ + field + tail, "{"@)) by {
        assert("{"@ + field + tail =~= "{"@ + (field + tail));
        text::lemma_stands(none, "{"@, field + tail);
    }
    text::lemma_stands("{"@ + field, tail, none);
    text::lemma_stands("{"@, field, tail);
}

/// Every answer is a JSON object that says whether it is ok: an error never is, and whatever
/// succeeded is. A message is told as it is, and an error that asks for a setup says so.
pub proof fn law_answers_say_ok(e: ApiErrorView, message: Option<Seq<char>>)
    ensures
        text::begins(error_body(e), "{"@),
        !e.setup_required ==> text::ends(error_body(e), "\"ok\":false}"@),
        e.setup_required ==> text::ends(error_body(e), "\"ok\":false,\"setup_required\":true}"@),
        text::begins(done_body(message), "{"@),
        text::ends(done_body(message), "\"ok\":true}"@),
        e.message matches Some(m) ==> text::has_text(
            error_body(e),
            "\"message\":"@ + json::json_string(m) + ","@,
        ),
        message matches Some(m) ==> text::has_text(
            done_body(message),
            "\"message\":"@ + json::json_string(m) + ","@,
        ),
        e.message.is_none() && !e.setup_required ==> error_body(e) == "{"@ + "\"ok\":false}"@,
        message.is_none() ==> done_body(message) == "{"@ + "\"ok\":true}"@,
{
    let tail = if e.setup_required {
        "\"ok\":false,\"setup_required\":true}"@
    } else {
        "\"ok\":false}"@
    };
    let none = Seq::<char>::empty();
    lemma_body(message_field(e.message), tail);
    lemma_body(message_field(message), "\"ok\":true}"@);
    assert("{"@ + none + tail =~= "{"@ + tail);
    assert("{"@ + none + "\"ok\":true}"@ =~= "{"@ + "\"ok\":true}"@);
}

proof fn lemma_user_leads()
    ensures
        text::ends("{\"ok\":true,\"role\":"@, "\"role\":"@),
        text::has_text("{\"ok\":true,\"role\":"@, "\"ok\":true"@),
        text::ends(",\"ok\":true,\"role\":"@, "\"role\":"@),
        text::has_text(",\"ok\":true,\"role\":"@, "\"ok\":true"@),
        text::ends(",\"username\":"@, "\"username\":"@),
        text::ends("{\"allowed_servers\":"@, "\"allowed_servers\":"@),
        "\"allowed_servers\":"@ + "null"@ == "\"allowed_servers\":null"@,
{
    reveal_strlit("{\"ok\":true,\"role\":");
    reveal_strlit(",\"ok\":true,\"role\":");
    reveal_strlit("\"role\":");
    reveal_strlit("\"ok\":true");
    assert("{\"ok\":true,\"role\":"@.subrange(11, 18) =~= "\"role\":"@);
    assert("{\"ok\":true,\"role\":"@.subrange(1, 10) =~= "\"ok\":true"@);
    assert(text::occurs_at("{\"ok\":true,\"role\":"@, "\"ok\":true"@, 1));
    assert(",\"ok\":true,\"role\":"@.subrange(11, 18) =~= "\"role\":"@);
    assert(",\"ok\":true,\"role\":"@.subrange(1, 10) =~= "\"ok\":true"@);
    assert(text::occurs_at(",\"ok\":true,\"role\":"@, "\"ok\":true"@, 1));
    reveal_strlit(",\"username\":");
    reveal_strlit("\"username\":");
    assert(",\"username\":"@.subrange(1, 12) =~= "\"username\":"@);
    reveal_strlit("{\"allowed_servers\":");
    reveal_strlit("\"allowed_servers\":");
    reveal_strlit("\"allowed_servers\":null");
    reveal_strlit("null");
    assert("{\"allowed_servers\":"@.subrange(1, 19) =~= "\"allowed_servers\":"@);
    assert("\"allowed_servers\":"@ + "null"@ =~= "\"allowed_servers\":null"@);
}

proof fn lemma_login_body(username: Seq<char>, role: UserRole)
    ensures
        text::has_text(login_body(username, role), "\"ok\":true"@),
        text::has_text(
            login_body(username, role),
            "\"username\":"@ + json::json_string(username),
        ),
        text::has_text(
            login_body(username, role),
            "\"role\":"@ + json::json_string(role.text()),
        ),
{
    let none = Seq::<char>::empty();
    let jr = json::json_string(role.text());
    let ju = json::json_string(username);
    let (lr, lu) = ("{\"ok\":true,\"role\":"@, ",\"username\":"@);
    let t1 = lr + jr;
    let t2 = t1 + lu + ju;
    assert(login_body(username, role) == t2 + "}"@);
    lemma_user_leads();
    assert(none + lr + jr =~= t1);
    text::lemma_field_stands(none, lr, "\"role\":"@, jr);
    text::lemma_field_stands(t1, lu, "\"username\":"@, ju);
    text::lemma_still_stands(none, lr, jr, "\"ok\":true"@);
    text::lemma_still_stands(none, t1, lu, "\"ok\":true"@);
    text::lemma_still_stands(none, t1 + lu, ju, "\"ok\":true"@);
    text::lemma_still_stands(none, t1, lu, "\"role\":"@ + jr);
    text::lemma_still_stands(none, t1 + lu, ju, "\"role\":"@ + jr);
    text::lemma_still_stands(none, t2, "}"@, "\"ok\":true"@);
    text::lemma_still_stands(none, t2, "}"@, "\"role\":"@ + jr);
    text::lemma_still_stands(none, t2, "}"@, "\"username\":"@ + ju);
}

proof fn lemma_me_body(info: UserInfoView)
    ensures
        ({
            let me = me_body_of(info);
            &&& text::has_text(me, "\"ok\":true"@)
            &&& text::has_text(me, "\"username\":"@ + json::json_string(info.username))
            &&& text::has_text(me, "\"role\":"@ + json::json_string(info.role.text()))
            &&& info.allowed_servers matches Some(ids) ==> text::has_text(
                me,
                "\"allowed_servers\":"@ + json::json_list(ids),
            )
            &&& info.allowed_servers.is_none() ==> text::has_text(me, "\"allowed_servers\":null"@)
        }),
{
    let none = Seq::<char>::empty();
    let ids = match info.allowed_servers {
        Some(ids) => json::json_list(ids),
        None => "null"@,
    };
    let jr = json::json_string(info.role.text());
    let ju = json::json_string(info.username);
    let (la, lr, lu) = ("{\"allowed_servers\":"@, ",\"ok\":true,\"role\":"@, ",\"username\":"@);
    let t1 = la + ids;
    let t2 = t1 + lr + jr;
    let t3 = t2 + lu + ju;
    assert(me_body_of(info) == t3 + "}"@);
    lemma_user_leads();
    let pa = "\"allowed_servers\":"@ + ids;
    assert(none + la + ids =~= t1);
    text::lemma_field_stands(none, la, "\"allowed_servers\":"@, ids);
    text::lemma_field_stands(t1, lr, "\"role\":"@, jr);
    text::lemma_field_stands(t2, lu, "\"username\":"@, ju);
    text::lemma_still_stands(t1, lr, jr, "\"ok\":true"@);
    text::lemma_still_stands(none, t1, lr, pa);
    text::lemma_still_stands(none, t1 + lr, jr, pa);
    text::lemma_still_stands(none, t2, lu, pa);
    text::lemma_still_stands(none, t2 + lu, ju, pa);
    text::lemma_still_stands(none, t2, lu, "\"ok\":true"@);
    text::lemma_still_stands(none, t2 + lu, ju, "\"ok\":true"@);
    text::lemma_still_stands(none, t2, lu, "\"role\":"@ + jr);
    text::lemma_still_stands(none, t2 + lu, ju, "\"role\":"@ + jr);
    text::lemma_still_stands(none, t3, "}"@, pa);
    text::lemma_still_stands(none, t3, "}"@, "\"ok\":true"@);
    text::lemma_still_stands(none, t3, "}"@, "\"role\":"@ + jr);
    text::lemma_still_stands(none, t3, "}"@, "\"username\":"@ + ju);
}

/// Whoever logs in is told their name and their role, and whoever asks who they are is told also
/// which servers they are restricted to, if to any.
pub proof fn law_answers_name_the_user(username: Seq<char>, role: UserRole, info: UserInfoView)
    ensures
        ({
            let body = login_body(username, role);
            let me = me_body_of(info);
            &&& text::has_text(body, "\"ok\":true"@)
            &&& text::has_text(body, "\"username\":"@ + json::json_string(username))
            &&& role == UserRole::Admin ==> text::has_text(
                body,
                "\"role\":"@ + json::json_string("admin"@),
            )
            &&& role == UserRole::Operator ==> text::has_text(
                body,
                "\"role\":"@ + json::json_string("operator"@),
            )
            &&& role == UserRole::Viewer ==> text::has_text(
                body,
                "\"role\":"@ + json::json_string("viewer"@),
            )
            &&& text::has_text(me, "\"ok\":true"@)
            &&& text::has_text(me, "\"username\":"@ + json::json_string(info.username))
            &&& text::has_text(me, "\"role\":"@ + json::json_string(info.role.text()))
            &&& info.allowed_servers matches Some(ids) ==> text::has_text(
                me,
                "\"allowed_servers\":"@ + json::json_list(ids),
            )
            &&& info.allowed_servers.is_none() ==> text::has_text(me, "\"allowed_servers\":null"@)
        }),
{
    lemma_login_body(username, role);
    lemma_me_body(info);
}

/// A browser that calls itself mobile, or by the name of a telephone or tablet, anywhere in what
/// it says of itself, is served the page for small screens, and no other is.
pub proof fn law_small_screens(a: Seq<char>, b: Seq<char>, other: Seq<char>)
    requires
        !text::has_text(other, "Mobile"@),
        !text::has_text(other, "Android"@),
        !text::has_text(other, "iPhone"@),
        !text::has_text(other, "iPad"@),
    ensures
        says_mobile(a + "Mobile"@ + b),
        says_mobile(a + "Android"@ + b),
        says_mobile(a + "iPhone"@ + b),
        says_mobile(a + "iPad"@ + b),
        !says_mobile(other),
{
    text::lemma_stands(a, "Mobile"@, b);
    text::lemma_stands(a, "Android"@, b);
    text::lemma_stands(a, "iPhone"@, b);
    text::lemma_stands(a, "iPad"@, b);
}

/// What is shown of two lists of servers put together is what is shown of each, in their order.
/// Of one server an account without restrictions is shown it, and any other account where it is
/// among its servers.
pub proof fn law_visible_by_server(
    a: Seq<ServerDefView>,
    b: Seq<ServerDefView>,
    def: ServerDefView,
    u: UserView,
)
    ensures
        visible(a + b, u) == visible(a, u) + visible(b, u),
        u.allowed_servers.is_none() ==> visible(a, u) == a,
        u.allowed_servers matches Some(ids) ==> visible(seq![def], u) == if ids.contains(def.id) {
            seq![def]
        } else {
            Seq::empty()
        },
    decreases b.len() + a.len(),
{
    assert(seq![def].drop_last() =~= Seq::<ServerDefView>::empty());
    assert(seq![def].last() == def);
    assert(visible(seq![def].drop_last(), u) =~= Seq::<ServerDefView>::empty());
    assert(Seq::<ServerDefView>::empty().push(def) =~= seq![def]);
    if b.len() == 0 {
        assert(a + b =~= a);
        assert(visible(a, u) + visible(b, u) =~= visible(a, u));
    } else {
        law_visible_by_server(a, b.drop_last(), def, u);
        assert((a + b).drop_last() =~= a + b.drop_last());
        assert((a + b).last() == b.last());
        assert(visible(a + b, u) =~= visible(a, u) + visible(b, u));
    }
    if a.len() == 0 {
        assert(visible(a, u) =~= a);
    } else {
        law_visible_by_server(a.drop_last(), Seq::empty(), def, u);
        assert(a.drop_last().push(a.last()) =~= a);
    }
}

/// A file name leads out of its directory by a slash, a backslash or two dots side by side, and
/// by nothing else.
pub proof fn law_leading_out(name: Seq<char>)
    ensures
        leads_out(name) <==> exists|i: int| 0 <= i < name.len() && {
            ||| #[trigger] name[i] == '/'
            ||| name[i] == '\\'
            ||| name[i] == '.' && i + 1 < name.len() && name[i + 1] == '.'
        },
{
    reveal_strlit("..");
    if text::has_text(name, ".."@) {
        let at = choose|at: int| text::occurs_at(name, ".."@, at);
        assert(name.subrange(at, at + 2)[0] == '.');
        assert(name.subrange(at, at + 2)[1] == '.');
        assert(name[at] == '.' && name[at + 1] == '.');
    }
    if exists|i: int| 0 <= i < name.len() && {
        ||| #[trigger] name[i] == '/'
        ||| name[i] == '\\'
        ||| name[i] == '.' && i + 1 < name.len() && name[i + 1] == '.'
    } {
        let i = choose|i: int| 0 <= i < name.len() && {
            ||| #[trigger] name[i] == '/'
            ||| name[i] == '\\'
            ||| name[i] == '.' && i + 1 < name.len() && name[i + 1] == '.'
        };
        if name[i] == '.' {
            assert(name.subrange(i, i + 2) =~= ".."@);
            assert(text::occurs_at(name, ".."@, i));
        } else {
            assert(name.contains(name[i]));
        }
    }
}

/// A new account gets the role that is named, and where no role is named it is an admin. A role
/// is changed to the one that is named, and not at all where none is.
pub proof fn law_roles_by_name(name: Seq<char>)
    ensures
        new_role("admin"@) == UserRole::Admin,
        new_role("operator"@) == UserRole::Operator,
        new_role("viewer"@) == UserRole::Viewer,
        name != "operator"@ && name != "viewer"@ ==> new_role(name) == UserRole::Admin,
        changed_role(Some("admin"@)) == Some(UserRole::Admin),
        changed_role(Some("operator"@)) == Some(UserRole::Operator),
        changed_role(Some("viewer"@)) == Some(UserRole::Viewer),
        name != "admin"@ && name != "operator"@ && name != "viewer"@ ==> changed_role(
            Some(name),
        ).is_none(),
        changed_role(None).is_none(),
{
    users::law_role_names(UserRole::Admin);
    users::law_role_names(UserRole::Operator);
    users::law_role_names(UserRole::Viewer);
}

/// An update of an account sets what is given and keeps what is not; the other accounts stay as
/// they are.
pub proof fn law_update_sets_what_is_given(
    users: Seq<UserView>,
    i: int,
    password: Option<Seq<char>>,
    role: Option<UserRole>,
    j: int,
)
    requires
        users::unique_names(users),
        0 <= i < users.len(),
        0 <= j < users.len(),
        i != j,
    ensures
        ({
            let after = after_update(users, users[i].username, password, role);
            &&& after.len() == users.len()
            &&& after[j] == users[j]
            &&& after[i].username == users[i].username
            &&& after[i].allowed_servers == users[i].allowed_servers
            &&& password matches Some(p) ==> after[i].password == p
            &&& password.is_none() ==> after[i].password == users[i].password
            &&& role matches Some(r) ==> after[i].role == r
            &&& role.is_none() ==> after[i].role == users[i].role
        }),
{
    users::law_place(users, i);
}

/// An update succeeds for an account that is there, unless it would leave an empty password or
/// take the role of the only admin; what is wrong is said in that order.
pub proof fn law_update_is_refused(
    users: Seq<UserView>,
    i: int,
    password: Option<Seq<char>>,
    role: Option<UserRole>,
    name: Seq<char>,
)
    requires
        users::unique_names(users),
        0 <= i < users.len(),
        forall|k: int| 0 <= k < users.len() ==> (#[trigger] users[k]).username != name,
    ensures
        ({
            let who = users[i].username;
            let empty = password matches Some(p) && p.len() == 0;
            let unseats = users[i].role == UserRole::Admin && users::admins(users) <= 1 && (
            role matches Some(r) && r != UserRole::Admin);
            &&& can_update(users, who, password, role) <==> !empty && !unseats
            &&& empty ==> update_error(users, who, password) == error(
                400,
                "password must not be empty"@,
            )
            &&& !empty ==> update_error(users, who, password) == error(
                400,
                "cannot change the role of the last admin account"@,
            )
            &&& !can_update(users, name, password, role)
            &&& update_error(users, name, password) == error(400, "user not found"@)
        }),
{
    users::law_place(users, i);
    users::law_lookup(users, name);
}

/// A setup is wrong where there is an account already, where the name or the password is blank,
/// and where the password is shorter than eight characters without the white space around it;
/// otherwise nothing is wrong. The account that it creates is an admin of all servers, with the
/// name and the password as they were typed but for white space around them.
pub proof fn law_setup_is_checked(
    users: Seq<UserView>,
    name: Seq<char>,
    password: Seq<char>,
    front: Seq<char>,
    back: Seq<char>,
)
    requires
        forall|i: int| 0 <= i < front.len() ==> text::is_white(#[trigger] front[i]),
        forall|i: int| 0 <= i < back.len() ==> text::is_white(#[trigger] back[i]),
        name.len() > 0 ==> !text::is_white(name[0]) && !text::is_white(name.last()),
        password.len() > 0 ==> !text::is_white(password[0]) && !text::is_white(password.last()),
    ensures
        ({
            let wrong = setup_error(users, front + name + back, front + password + back);
            let u = first_admin(front + name + back, front + password + back);
            &&& users.len() > 0 ==> wrong == Some(error(403, "Setup already completed"@))
            &&& users.len() == 0 && (name.len() == 0 || password.len() == 0) ==> wrong == Some(
                error(400, "Username and password are required"@),
            )
            &&& users.len() == 0 && name.len() > 0 && 0 < password.len() < 8 ==> wrong == Some(
                error(400, "Password must be at least 8 characters"@),
            )
            &&& users.len() == 0 && name.len() > 0 && password.len() >= 8 ==> wrong.is_none()
            &&& u.username == name
            &&& u.password == password
            &&& u.role == UserRole::Admin
            &&& u.allowed_servers.is_none()
        }),
{
    text::law_trim(front, name, back);
    text::law_trim(front, password, back);
}

/// An error has the status and the message that it is made with, and asks for no setup.
pub proof fn law_errors_say(status: u16, message: Seq<char>)
    ensures
        error(status, message).status == status,
        error(status, message).message == Some(message),
        !error(status, message).setup_required,
{
}

/// The texts of two lists put together are those of each, in their order; of one entry it is its
/// text, if it has one. A list restricts an account to its texts, and nothing else restricts it.
pub proof fn law_restriction_lists(
    a: Seq<Option<String>>,
    b: Seq<Option<String>>,
    s: String,
    ids: ServerIds,
)
    ensures
        texts_in(a + b) == texts_in(a) + texts_in(b),
        texts_in(seq![Some(s)]) == seq![s@],
        texts_in(seq![None]) == Seq::<Seq<char>>::empty(),
        ids matches ServerIds::Items(items) ==> wanted_ids(ids) == Some(texts_in(items@)),
        !(ids is Items) ==> wanted_ids(ids).is_none(),
    decreases b.len(),
{
    let none = Seq::<Option<String>>::empty();
    assert(seq![Some(s)].drop_last() =~= none);
    assert(seq![None::<String>].drop_last() =~= none);
    assert(texts_in(none) =~= Seq::<Seq<char>>::empty());
    assert(seq![Some(s)].last() == Some(s));
    assert(seq![None::<String>].last() == None::<String>);
    assert(texts_in(seq![Some(s)]) =~= seq![s@]);
    assert(texts_in(seq![None::<String>]) =~= Seq::<Seq<char>>::empty());
    if b.len() == 0 {
        assert(a + b =~= a);
        assert(texts_in(a) + texts_in(b) =~= texts_in(a));
    } else {
        law_restriction_lists(a, b.drop_last(), s, ids);
        assert((a + b).drop_last() =~= a + b.drop_last());
        assert((a + b).last() == b.last());
        assert(texts_in(a + b) =~= texts_in(a) + texts_in(b));
    }
}

/// Whoever asks is an admin where the account of that name has that role, and nobody else is.
pub proof fn law_who_is_admin(users: Seq<UserView>, i: int, name: Seq<char>)
    requires
        users::unique_names(users),
        0 <= i < users.len(),
        forall|k: int| 0 <= k < users.len() ==> (#[trigger] users[k]).username != name,
    ensures
        asks_admin(users, Some(users[i].username)) <==> users[i].role == UserRole::Admin,
        !asks_admin(users, Some(name)),
        !asks_admin(users, None),
{
    users::law_lookup(users, name);
}

/// A path below `/data` is the file of that name in the data directory of the server, as the file
/// system names it where that was asked; a path that climbs out of it is refused.
pub proof fn law_files_of_the_server(base: Seq<char>, name: Seq<char>, other: Seq<char>)
    requires
        base == paths::normalized(base),
        paths::is_rooted(base),
        paths::components(base).len() > 1,
        paths::is_name(name),
        paths::is_name(other),
        other != paths::components(base).last(),
    ensures
        host_path("/data/"@ + name, base, Some(base)) matches Some(path) && paths::components(path)
            == paths::components(base).push(name),
        host_path("/data/"@ + name, base, None) == host_path("/data/"@ + name, base, Some(base)),
        host_path("/data/../"@ + other, base, Some(base)).is_none(),
{
    files::law_data_name_reached(base, name);
    files::law_neighbour_is_out_of_reach(base, other);
}

/// An icon is a PNG image where its name says so, and otherwise an icon of the older sort.
pub proof fn law_icon_types(stem: Seq<char>, other: Seq<char>)
    requires
        !text::ends(other, ".png"@),
    ensures
        icon_type(stem + ".png"@) == "image/png"@,
        icon_type(other) == "image/x-icon"@,
{
    text::lemma_stands(stem, ".png"@, Seq::empty());
}

/// A mod goes among the mods of the server under the name that it was given, but for white space
/// around it. A name of another ending is refused, and so is one with a slash, a backslash or two
/// dots side by side in it.
pub proof fn law_mods_are_installed(
    front: Seq<char>,
    name: Seq<char>,
    back: Seq<char>,
    data_path: Seq<char>,
)
    requires
        forall|i: int| 0 <= i < front.len() ==> text::is_white(#[trigger] front[i]),
        forall|i: int| 0 <= i < back.len() ==> text::is_white(#[trigger] back[i]),
        name.len() > 0 ==> !text::is_white(name[0]) && !text::is_white(name.last()),
    ensures
        ({
            let dest = installed_as(front + name + back, data_path);
            let out = exists|i: int| 0 <= i < name.len() && {
                ||| #[trigger] name[i] == '/'
                ||| name[i] == '\\'
                ||| name[i] == '.' && i + 1 < name.len() && name[i + 1] == '.'
            };
            &&& text::ends(name, ".jar"@) && !out ==> dest == Some(data_path + "/mods/"@ + name)
            &&& !text::ends(name, ".jar"@) || out ==> dest.is_none()
        }),
{
    text::law_trim(front, name, back);
    law_leading_out(name);
    reveal_strlit("/mods");
    reveal_strlit("/mods/");
    reveal_strlit("/");
    assert(files::mods_dir_spec(data_path) + "/"@ + name =~= data_path + "/mods/"@ + name);
}

/// A row of the summary shows the server that it is about: its id, its name and its port, whether
/// it runs, and the state and the time that were found out, if any were.
pub proof fn law_rows_show(row: ServerRow, probe: ServerProbe)
    requires
        shows(row, probe),
    ensures
        row.id@ == probe.id@,
        row.name@ == probe.name@,
        row.port == probe.port,
        probe.status matches Some(st) ==> row.running == st.running && row.status@ == st.status@
            && row.uptime@ == st.uptime@,
        probe.status.is_none() ==> !row.running && row.status@.len() == 0 && row.uptime@.len() == 0,
{
}

/// The data directory is taken as the file system names it, and by its normal form where that was
/// not asked.
pub proof fn law_data_directory(data_path: Seq<char>, canonical: Seq<char>)
    ensures
        files::base_dir(data_path, Some(canonical)) == canonical,
        files::base_dir(data_path, None) == paths::normalized(data_path),
{
}

/// The data directory itself is reached as `/data`.
pub proof fn law_data_is_reached(base: Seq<char>)
    requires
        base == paths::normalized(base),
        paths::is_rooted(base),
    ensures
        host_path("/data"@, base, Some(base)) == Some(base),
        host_path("/data"@, base, None) == Some(base),
{
    let comps = paths::components(base);
    assert(comps.take(comps.len() as int) =~= comps);
}

/// Accounts are changed by admins only, and then as the accounts have it: whoever is no admin, and
/// whoever is not known, changes none.
pub proof fn law_admins_change_accounts(
    users: Seq<UserView>,
    i: int,
    change: UserChange,
    name: Seq<char>,
)
    requires
        users::unique_names(users),
        0 <= i < users.len(),
        forall|k: int| 0 <= k < users.len() ==> (#[trigger] users[k]).username != name,
    ensures
        ({
            let after = admin_change(users, Some(users[i].username), change);
            &&& users[i].role != UserRole::Admin ==> after.is_none()
            &&& users[i].role == UserRole::Admin && users::is_allowed(users, change) ==> after
                == Some(users::after_change(users, change))
            &&& users[i].role == UserRole::Admin && !users::is_allowed(users, change)
                ==> after.is_none()
        }),
        admin_change(users, None, change).is_none(),
        admin_change(users, Some(name), change).is_none(),
{
    users::law_lookup(users, name);
}

/// Anybody changes their own password, and an admin that of anybody; nobody else does. The
/// password is the one that is given, and nothing else of any account changes. Without a password
/// nothing is changed.
pub proof fn law_own_password(users: Seq<UserView>, i: int, j: int, password: Seq<char>)
    requires
        users::unique_names(users),
        0 <= i < users.len(),
        0 <= j < users.len(),
        password.len() > 0,
    ensures
        ({
            let who = Some(users[i].username);
            let after = password_change(users, who, users[j].username, Some(password));
            &&& i == j || users[i].role == UserRole::Admin ==> after == Some(
                users.update(j, UserView { password, ..users[j] }),
            )
            &&& i != j && users[i].role != UserRole::Admin ==> after.is_none()
            &&& password_change(users, who, users[j].username, None).is_none()
            &&& password_change(users, who, users[j].username, Some(Seq::empty())).is_none()
            &&& password_change(users, None, users[j].username, Some(password)).is_none()
        }),
{
    users::law_lookup(users, users[i].username);
    users::law_place(users, j);
    if i < j {
        assert(users[i].username != users[j].username);
    } else if j < i {
        assert(users[j].username != users[i].username);
    }
}

/// Any command that is not empty is sent to a server that is there. An empty one is refused first,
/// and then a server that is not there.
pub proof fn law_commands_are_sent(known: bool, command: Seq<char>)
    ensures
        command.len() > 0 && known ==> command_error(known, command).is_none(),
        command.len() == 0 ==> command_error(known, command) == Some(
            error(500, "command must not be empty"@),
        ),
        command.len() > 0 && !known ==> command_error(known, command) == Some(
            error(500, "server not found"@),
        ),
{
}

/// An error stands for what its fields hold.
pub proof fn law_value_of_error(e: ApiError)
    ensures
        e@.status == e.status,
        e.message matches Some(s) ==> e@.message == Some(s@),
        e.message.is_none() ==> e@.message.is_none(),
        e@.setup_required == e.setup_required,
{
}

/// A path is served where it lies in the data directory and is refused where it does not; what is
/// served is the path itself in its normal form.
pub proof fn law_paths_are_served(
    requested: Seq<char>,
    data_path: Seq<char>,
    canonical: Option<Seq<char>>,
    names: Seq<Seq<char>>,
)
    ensures
        ({
            let base = files::base_dir(data_path, canonical);
            let path = files::requested_path(base, files::mapped_path(requested, data_path));
            &&& files::lies_in(path, base) ==> host_path(requested, data_path, canonical) == Some(
                path,
            )
            &&& !files::lies_in(path, base) ==> host_path(requested, data_path, canonical).is_none()
        }),
        data_path == paths::normalized(data_path) && paths::is_rooted(data_path) && names.len() > 0
            && (forall|i: int| 0 <= i < names.len() ==> paths::is_name(#[trigger] names[i])) ==> (
        host_path("/data/"@ + text::joined(names, seq!['/']), data_path, None) matches Some(path)
            && paths::components(path) == paths::components(data_path) + names),
{
    if data_path == paths::normalized(data_path) && paths::is_rooted(data_path) && names.len() > 0
        && (forall|i: int| 0 <= i < names.len() ==> paths::is_name(#[trigger] names[i])) {
        files::law_data_path_reached(data_path, names);
    }
}

/// Whoever is told of a failed download is told the status of the answer.
pub proof fn law_failed_download(status: Seq<char>)
    ensures
        text::begins(no_download(status), "download failed: HTTP "@),
        text::ends(no_download(status), status),
{
    let none = Seq::<char>::empty();
    text::lemma_stands(none, "download failed: HTTP "@, status);
    text::lemma_stands("download failed: HTTP "@, status, none);
}

} // verus!
