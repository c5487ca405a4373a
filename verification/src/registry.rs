//! The registry of servers.
//!
//! Each server has a directory of its own below `servers/` in the configuration directory,
//! named `{name}-{id}`:
//!
//! - `server.json`: what is kept of the server, a [`ServerDef`];
//! - `docker-compose.yml`: its compose file, which may be edited;
//! - `data/`: mounted into the container as `/data`.
//!
//! The registry decides what is written where. Whoever holds it writes the files and then
//! hands the changed definition back.
use vstd::prelude::*;

use crate::backup;
use crate::backup::BackupConfig;
use crate::backup::BackupConfigView;
use crate::compose;
use crate::numbers;
use crate::paths;
use crate::text;
use crate::text::CharClass;

verus! {

// ── Definitions ───────────────────────────────────────────────────────────

/// What is kept of a server on disk.
#[derive(Debug)]
pub struct ServerDef {
    pub id: String,
    pub name: String,
    pub container_name: String,
    pub data_path: String,
    pub compose_file: String,
    pub port: u16,
    /// The time of creation, in the form of RFC 3339.
    pub created_at: String,
    /// Whether the server has GPU support by the `gpu.sh` entry point.
    pub opencl_enabled: bool,
    /// How its backups are made, once that was set.
    pub backup_config: Option<BackupConfig>,
}

/// The value of a [`ServerDef`].
#[verifier::ext_equal]
pub struct ServerDefView {
    pub id: Seq<char>,
    pub name: Seq<char>,
    pub container_name: Seq<char>,
    pub data_path: Seq<char>,
    pub compose_file: Seq<char>,
    pub port: u16,
    pub created_at: Seq<char>,
    pub opencl_enabled: bool,
    pub backup_config: Option<BackupConfigView>,
}

impl View for ServerDef {
    type V = ServerDefView;

    open spec fn view(&self) -> ServerDefView {
        ServerDefView {
            id: self.id@,
            name: self.name@,
            container_name: self.container_name@,
            data_path: self.data_path@,
            compose_file: self.compose_file@,
            port: self.port,
            created_at: self.created_at@,
            opencl_enabled: self.opencl_enabled,
            backup_config: match self.backup_config {
                Some(cfg) => Some(cfg@),
                None => None,
            },
        }
    }
}

impl Clone for ServerDef {
    fn clone(&self) -> (r: Self)
        ensures
            r@ == self@,
    {
        ServerDef {
            id: self.id.clone(),
            name: self.name.clone(),
            container_name: self.container_name.clone(),
            data_path: self.data_path.clone(),
            compose_file: self.compose_file.clone(),
            port: self.port,
            created_at: self.created_at.clone(),
            opencl_enabled: self.opencl_enabled,
            backup_config: match &self.backup_config {
                Some(cfg) => Some(cfg.clone()),
                None => None,
            },
        }
    }
}

/// What a server is created from.
#[derive(Debug)]
pub struct CreateRequest {
    pub name: String,
    pub port: Option<u16>,
    pub server_type: Option<String>,
    pub version: Option<String>,
    pub memory: Option<String>,
    /// Whether the server is started as soon as it is there.
    pub start_now: Option<bool>,
    /// Whether the server gets GPU support.
    pub opencl_enabled: Option<bool>,
}

/// The value of a [`CreateRequest`].
#[verifier::ext_equal]
pub struct CreateRequestView {
    pub name: Seq<char>,
    pub port: Option<u16>,
    pub server_type: Option<Seq<char>>,
    pub version: Option<Seq<char>>,
    pub memory: Option<Seq<char>>,
    pub start_now: Option<bool>,
    pub opencl_enabled: Option<bool>,
}

impl View for CreateRequest {
    type V = CreateRequestView;

    open spec fn view(&self) -> CreateRequestView {
        CreateRequestView {
            name: self.name@,
            port: self.port,
            server_type: text::opt_view(self.server_type),
            version: text::opt_view(self.version),
            memory: text::opt_view(self.memory),
            start_now: self.start_now,
            opencl_enabled: self.opencl_enabled,
        }
    }
}

/// Why the registry refuses.
#[derive(Debug)]
pub enum RegistryError {
    /// A server was to be created without a name.
    NameRequired,
    /// There is no server of that id.
    NotFound,
    /// The compose file is at the root, or has no path at all.
    InvalidComposePath(String),
}

impl RegistryError {
    /// What the error says.
    pub open spec fn text(self) -> Seq<char> {
        match self {
            RegistryError::NameRequired => "name is required"@,
            RegistryError::NotFound => "server not found"@,
            RegistryError::InvalidComposePath(path) => "invalid compose file path: "@ + path@,
        }
    }

    /// What the error says.
    pub fn message(&self) -> (r: String)
        ensures
            r@ == self.text(),
    {
        match self {
            RegistryError::NameRequired => "name is required".to_owned(),
            RegistryError::NotFound => "server not found".to_owned(),
            RegistryError::InvalidComposePath(path) => {
                text::cat("invalid compose file path: ", path.as_str())
            },
        }
    }
}

// ── Names and ids ─────────────────────────────────────────────────────────

/// Whether the character is kept in a slug as it is.
pub open spec fn is_slug_char(c: char) -> bool {
    ('a' <= c <= 'z') || ('0' <= c <= '9')
}

/// The name with letters and digits in lower case, a hyphen for each run of blanks, hyphens
/// and underscores, and without any other character.
pub open spec fn hyphenated(name: Seq<char>) -> Seq<char>
    decreases name.len(),
{
    if name.len() == 0 {
        Seq::empty()
    } else {
        let before = hyphenated(name.drop_last());
        let c = name.last();
        if is_slug_char(c) {
            before.push(c)
        } else if 'A' <= c <= 'Z' {
            before.push(text::ascii_lower_char(c))
        } else if c == ' ' || c == '-' || c == '_' {
            if before.len() > 0 && before.last() == '-' {
                before
            } else {
                before.push('-')
            }
        } else {
            before
        }
    }
}

/// The name as compose files and directories have it: twenty characters of it at most.
pub open spec fn slug(name: Seq<char>) -> Seq<char> {
    let t = text::trim_class(hyphenated(name), CharClass::Is('-'));
    if t.len() > 20 {
        t.take(20)
    } else {
        t
    }
}

proof fn lemma_hyphenated(name: Seq<char>)
    ensures
        forall|i: int|
            0 <= i < hyphenated(name).len() ==> is_slug_char(#[trigger] hyphenated(name)[i])
                || hyphenated(name)[i] == '-',
        forall|i: int, j: int|
            0 <= i < hyphenated(name).len() && j == i + 1 && j < hyphenated(name).len()
                ==> #[trigger] hyphenated(name)[i] != '-' || #[trigger] hyphenated(name)[j] != '-',
    decreases name.len(),
{
    if name.len() > 0 {
        lemma_hyphenated(name.drop_last());
        let before = hyphenated(name.drop_last());
        let h = hyphenated(name);
        let c = name.last();
        if 'A' <= c <= 'Z' {
            assert(is_slug_char(text::ascii_lower_char(c)));
        }
        assert forall|i: int| 0 <= i < h.len() implies is_slug_char(#[trigger] h[i]) || h[i]
            == '-' by {
            if i < before.len() {
                assert(h[i] == before[i]);
            }
        }
        assert forall|i: int, j: int|
            0 <= i < h.len() && j == i + 1 && j < h.len() implies #[trigger] h[i] != '-'
            || #[trigger] h[j] != '-' by {
            assert(h[i] == before[i]);
            if j < before.len() {
                assert(h[j] == before[j]);
            }
        }
    }
}

/// A slug holds lower-case letters, digits and hyphens only, twenty at most; it does not begin
/// with a hyphen, and no two hyphens stand side by side.
pub proof fn law_slug(name: Seq<char>)
    ensures
        slug(name).len() <= 20,
        forall|i: int|
            0 <= i < slug(name).len() ==> is_slug_char(#[trigger] slug(name)[i]) || slug(name)[i]
                == '-',
        slug(name).len() > 0 ==> slug(name)[0] != '-',
        forall|i: int, j: int|
            0 <= i < slug(name).len() && j == i + 1 && j < slug(name).len() ==> #[trigger] slug(
                name,
            )[i] != '-' || #[trigger] slug(name)[j] != '-',
{
    lemma_hyphenated(name);
    let h = hyphenated(name);
    let (from, to) = text::lemma_trim_range(h, CharClass::Is('-'));
    assert(forall|i: int| 0 <= i < slug(name).len() ==> #[trigger] slug(name)[i] == h[from + i]);
}

/// The name as compose files and directories have it.
pub fn sanitize(name: &str) -> (r: String)
    ensures
        r@ == slug(name@),
{
    let v = text::chars_of(name);
    let mut out: Vec<char> = Vec::new();
    let mut i: usize = 0;
    while i < v.len()
        invariant
            i <= v.len(),
            v@ == name@,
            out@ == hyphenated(name@.take(i as int)),
        decreases v.len() - i,
    {
        let c = v[i];
        proof {
            assert(name@.take(i + 1).drop_last() =~= name@.take(i as int));
            assert(name@.take(i + 1).last() == c);
        }
        if ('a' <= c && c <= 'z') || ('0' <= c && c <= '9') {
            out.push(c);
        } else if 'A' <= c && c <= 'Z' {
            out.push(text::lower_char(c));
        } else if c == ' ' || c == '-' || c == '_' {
            if out.len() == 0 || out[out.len() - 1] != '-' {
                out.push('-');
            }
        }
        i += 1;
    }
    proof {
        assert(name@.take(i as int) =~= name@);
        assert(out@.subrange(0, out@.len() as int) =~= out@);
    }
    let whole = text::string_of(&out, 0, out.len());
    let t = text::trim_class_of(whole.as_str(), CharClass::Is('-'));
    let w = text::chars_of(t.as_str());
    if w.len() > 20 {
        proof {
            assert(w@.subrange(0, 20) =~= w@.take(20));
        }
        text::string_of(&w, 0, 20)
    } else {
        t
    }
}

/// `rand::Rng::gen::<u32>` on `rand::thread_rng`: a random number, of which nothing is claimed.
#[verifier::external_body]
fn random_u32() -> (r: u32) {
    rand::Rng::gen::<u32>(&mut rand::thread_rng())
}

/// The id of eight hexadecimal digits that a number stands for.
pub fn id_of(n: u32) -> (r: String)
    ensures
        r@ == numbers::hex_digits(n as nat, 8),
{
    numbers::hex8(n)
}

/// A new id: eight hexadecimal digits of a random number.
pub fn rand_id() -> (r: String)
    ensures
        exists|n: u32| r@ == #[trigger] numbers::hex_digits(n as nat, 8),
{
    let n: u32 = random_u32();
    id_of(n)
}

// ── Paths ─────────────────────────────────────────────────────────────────

/// The directory of the servers in a configuration directory.
pub open spec fn servers_dir_of(config_dir: Seq<char>) -> Seq<char> {
    paths::joined_path(config_dir, "servers"@)
}

/// The path itself where it is absolute, or else below the directory.
pub open spec fn made_absolute(path: Seq<char>, dir: Seq<char>) -> Seq<char> {
    if paths::is_rooted(path) {
        path
    } else {
        paths::joined_path(dir, path)
    }
}

/// The definition with absolute paths.
pub open spec fn with_absolute_paths(def: ServerDefView, dir: Seq<char>) -> ServerDefView {
    ServerDefView {
        compose_file: made_absolute(def.compose_file, dir),
        data_path: made_absolute(def.data_path, dir),
        ..def
    }
}

fn make_absolute(path: &str, dir: &str) -> (r: String)
    ensures
        r@ == made_absolute(path@, dir@),
{
    if paths::is_absolute(path) {
        path.to_owned()
    } else {
        paths::join_path(dir, path)
    }
}

/// Makes the relative paths of a definition absolute, below the directory of the servers.
pub fn fix_paths(def: ServerDef, servers_dir: &str) -> (r: ServerDef)
    ensures
        r@ == with_absolute_paths(def@, servers_dir@),
{
    let mut def = def;
    def.compose_file = make_absolute(def.compose_file.as_str(), servers_dir);
    def.data_path = make_absolute(def.data_path.as_str(), servers_dir);
    def
}

/// Where `server.json` stands: beside the compose file.
pub open spec fn json_path_of(def: ServerDefView) -> Option<Seq<char>> {
    match paths::parent(def.compose_file) {
        Some(dir) => Some(paths::joined_path(dir, "server.json"@)),
        None => None,
    }
}

fn json_path(def: &ServerDef) -> (r: String)
    requires
        paths::parent(def.compose_file@).is_some(),
    ensures
        Some(r@) == json_path_of(def@),
{
    match paths::parent_of(def.compose_file.as_str()) {
        Some(dir) => paths::join_path(dir.as_str(), "server.json"),
        None => String::new(),
    }
}

// ── docker compose ────────────────────────────────────────────────────────

/// What `docker compose` is asked to do with a server.
#[derive(Debug, Clone, Copy)]
pub enum ComposeAction {
    /// Create and start what the compose file names.
    Up,
    /// Stop the containers.
    Stop,
    /// Restart the containers.
    Restart,
    /// Start the backup sidecar and leave the server running.
    StartSidecar,
    /// Stop the backup sidecar, which the compose file no longer names.
    StopSidecar,
}

impl ComposeAction {
    /// The arguments behind `docker compose`.
    pub open spec fn words(self) -> Seq<Seq<char>> {
        match self {
            ComposeAction::Up => seq!["up"@, "-d"@, "--remove-orphans"@],
            ComposeAction::Stop => seq!["stop"@],
            ComposeAction::Restart => seq!["restart"@],
            ComposeAction::StartSidecar => seq!["up"@, "-d"@],
            ComposeAction::StopSidecar => seq!["up"@, "-d"@, "--remove-orphans"@],
        }
    }

    /// The arguments behind `docker compose`.
    pub fn args(self) -> (r: Vec<String>)
        ensures
            text::views(r@) == self.words(),
    {
        let args = match self {
            ComposeAction::Up => {
                vec!["up".to_owned(), "-d".to_owned(), "--remove-orphans".to_owned()]
            },
            ComposeAction::Stop => vec!["stop".to_owned()],
            ComposeAction::Restart => vec!["restart".to_owned()],
            ComposeAction::StartSidecar => vec!["up".to_owned(), "-d".to_owned()],
            ComposeAction::StopSidecar => {
                vec!["up".to_owned(), "-d".to_owned(), "--remove-orphans".to_owned()]
            },
        };
        proof {
            assert(text::views(args@) =~= self.words());
        }
        args
    }

    /// What applies a changed backup configuration to the containers.
    pub fn for_backup(enabled: bool) -> (r: ComposeAction)
        ensures
            r == (if enabled {
                ComposeAction::StartSidecar
            } else {
                ComposeAction::StopSidecar
            }),
    {
        if enabled {
            ComposeAction::StartSidecar
        } else {
            ComposeAction::StopSidecar
        }
    }

    /// What is said when `docker compose` fails.
    pub open spec fn failed(self, stderr: Seq<char>, stdout: Seq<char>) -> Seq<char> {
        "docker compose "@ + text::joined(self.words(), " "@) + " failed:\n"@ + text::trimmed(
            stderr,
        ) + "\n"@ + text::trimmed(stdout)
    }

    /// What is said when `docker compose` fails: the arguments and what it printed.
    pub fn failure(self, stderr: &str, stdout: &str) -> (r: String)
        ensures
            r@ == "docker compose "@ + text::joined(self.words(), " "@) + " failed:\n"@
                + text::trimmed(stderr@) + "\n"@ + text::trimmed(stdout@),
            r@ == self.failed(stderr@, stdout@),
    {
        let mut out = text::cat3(
            "docker compose ",
            text::join(&self.args(), " ").as_str(),
            " failed:\n",
        );
        out.push_str(text::trim(stderr).as_str());
        out.push_str("\n");
        out.push_str(text::trim(stdout).as_str());
        out
    }
}

/// The directory that `docker compose` runs in for a compose file.
pub fn compose_dir(compose_file: &str) -> (r: Result<String, RegistryError>)
    ensures
        match r {
            Ok(dir) => paths::parent(compose_file@) == Some(dir@),
            Err(e) => paths::parent(compose_file@).is_none()
                && (e matches RegistryError::InvalidComposePath(path) && path@ == compose_file@),
        },
{
    match paths::parent_of(compose_file) {
        Some(dir) => Ok(dir),
        None => Err(RegistryError::InvalidComposePath(compose_file.to_owned())),
    }
}

// ── Plans ─────────────────────────────────────────────────────────────────

/// The files of a new server.
#[derive(Debug)]
pub struct CreatePlan {
    pub def: ServerDef,
    /// The server's data, to be made with the directories above it.
    pub data_dir: String,
    /// Where the definition is written.
    pub json_path: String,
    /// Where [`compose::GPU_SH`] is written, executable.
    pub gpu_sh_path: String,
    /// What is written to the compose file.
    pub compose: String,
}

/// The definition of a new server.
pub open spec fn created_def(
    config_dir: Seq<char>,
    req: CreateRequestView,
    id: Seq<char>,
    created_at: Seq<char>,
) -> ServerDefView {
    let dir = created_dir(config_dir, req.name, id);
    ServerDefView {
        id,
        name: req.name,
        container_name: dir_name_of(req.name, id),
        data_path: paths::joined_path(dir, "data"@),
        compose_file: paths::joined_path(dir, "docker-compose.yml"@),
        port: match req.port {
            Some(port) => port,
            None => 25565,
        },
        created_at,
        opencl_enabled: req.opencl_enabled == Some(true),
        backup_config: None,
    }
}

/// The name of a server's directory and container.
pub open spec fn dir_name_of(name: Seq<char>, id: Seq<char>) -> Seq<char> {
    slug(name) + "-"@ + id
}

/// The directory of a new server.
pub open spec fn created_dir(config_dir: Seq<char>, name: Seq<char>, id: Seq<char>) -> Seq<char> {
    paths::joined_path(servers_dir_of(config_dir), dir_name_of(name, id))
}

/// Whether the plan is that for a new server of that id.
pub open spec fn plans_creation(
    plan: CreatePlan,
    config_dir: Seq<char>,
    req: CreateRequestView,
    id: Seq<char>,
    created_at: Seq<char>,
) -> bool {
    let dir = created_dir(config_dir, req.name, id);
    &&& plan.def@ == created_def(config_dir, req, id, created_at)
    &&& plan.data_dir@ == paths::joined_path(dir, "data"@)
    &&& plan.json_path@ == paths::joined_path(dir, "server.json"@)
    &&& plan.gpu_sh_path@ == paths::joined_path(paths::joined_path(dir, "data"@), "gpu.sh"@)
    &&& plan.compose@ == compose::compose_text(plan.def@, req)
}

/// What is written to switch GPU support.
#[derive(Debug)]
pub struct OpenClPlan {
    pub def: ServerDef,
    /// Where the definition is written.
    pub json_path: String,
    /// What is written to the compose file, where that is still the template.
    pub compose: Option<String>,
    /// Where [`compose::GPU_SH`] has to be, executable.
    pub gpu_sh_path: Option<String>,
}

/// Where the script for the GPU has to be, if anywhere.
pub open spec fn gpu_script_of(def: ServerDefView) -> Option<Seq<char>> {
    if def.opencl_enabled {
        Some(paths::joined_path(def.data_path, "gpu.sh"@))
    } else {
        None
    }
}

/// What is written to set up backups.
#[derive(Debug)]
pub struct BackupPlan {
    pub def: ServerDef,
    /// Where the definition is written.
    pub json_path: String,
    /// The directory that has to be there.
    pub backup_dir: Option<String>,
    /// What is written to the compose file.
    pub compose: String,
}

/// The configuration with the directory that belongs to the server.
pub open spec fn canonical_config(
    def: ServerDefView,
    cfg: BackupConfigView,
) -> BackupConfigView {
    BackupConfigView { backup_dir: backup::backup_dir_of(def), ..cfg }
}

/// The definition with that backup configuration.
pub open spec fn with_backup(def: ServerDefView, cfg: BackupConfigView) -> ServerDefView {
    ServerDefView { backup_config: Some(canonical_config(def, cfg)), ..def }
}

/// The backup configuration that a server has, by default where it was never set.
pub open spec fn effective_config(def: ServerDefView) -> BackupConfigView {
    match def.backup_config {
        Some(cfg) => cfg,
        None => backup::default_config(def),
    }
}

// ── Registry ──────────────────────────────────────────────────────────────

/// The values of a list of definitions.
pub open spec fn def_views(list: Seq<ServerDef>) -> Seq<ServerDefView> {
    list.map_values(|d: ServerDef| d@)
}

/// The definitions by their ids; of two with one id the later counts.
pub open spec fn by_id(list: Seq<ServerDefView>) -> Map<Seq<char>, ServerDefView>
    decreases list.len(),
{
    if list.len() == 0 {
        Map::empty()
    } else {
        by_id(list.drop_last()).insert(list.last().id, list.last())
    }
}

/// Whether no two definitions have one id.
pub open spec fn unique_ids(list: Seq<ServerDefView>) -> bool {
    forall|i: int, j: int|
        0 <= i < j < list.len() ==> #[trigger] list[i].id != #[trigger] list[j].id
}

/// The definitions with another id, in their order.
spec fn others(list: Seq<ServerDefView>, id: Seq<char>) -> Seq<ServerDefView>
    decreases list.len(),
{
    if list.len() == 0 {
        Seq::empty()
    } else if list.last().id == id {
        others(list.drop_last(), id)
    } else {
        others(list.drop_last(), id).push(list.last())
    }
}

proof fn lemma_others(list: Seq<ServerDefView>, id: Seq<char>)
    ensures
        by_id(others(list, id)) == by_id(list).remove(id),
        unique_ids(list) ==> unique_ids(others(list, id)),
        forall|i: int|
            0 <= i < others(list, id).len() ==> (#[trigger] others(list, id)[i]).id != id
                && list.contains(others(list, id)[i]),
    decreases list.len(),
{
    if list.len() == 0 {
        assert(by_id(others(list, id)) =~= by_id(list).remove(id));
    } else {
        let init = list.drop_last();
        lemma_others(init, id);
        let rest = others(init, id);
        assert(by_id(others(list, id)) =~= by_id(list).remove(id)) by {
            if list.last().id != id {
                assert(rest.push(list.last()).drop_last() =~= rest);
            }
        }
        assert forall|i: int| 0 <= i < others(list, id).len() implies (#[trigger] others(
            list,
            id,
        )[i]).id != id && list.contains(others(list, id)[i]) by {
            if i < rest.len() {
                assert(others(list, id)[i] == rest[i]);
                let k = choose|k: int| 0 <= k < init.len() && init[k] == rest[i];
                assert(list[k] == rest[i]);
            } else {
                assert(list[list.len() - 1] == list.last());
            }
        }
        if unique_ids(list) {
            assert forall|i: int, j: int| 0 <= i < j < init.len() implies #[trigger] init[i].id
                != #[trigger] init[j].id by {
                assert(list[i].id != list[j].id);
            }
            assert(unique_ids(rest));
            assert forall|i: int, j: int| 0 <= i < j < others(list, id).len() implies #[trigger] others(
                list,
                id,
            )[i].id != #[trigger] others(list, id)[j].id by {
                if j < rest.len() {
                    assert(rest[i].id != rest[j].id);
                } else {
                    assert(others(list, id)[i] == rest[i]);
                    let k = choose|k: int| 0 <= k < init.len() && init[k] == rest[i];
                    assert(list[k].id != list[list.len() - 1].id);
                }
            }
        }
    }
}

proof fn lemma_by_id(list: Seq<ServerDefView>)
    requires
        unique_ids(list),
    ensures
        forall|i: int|
            0 <= i < list.len() ==> by_id(list).contains_key(#[trigger] list[i].id)
                && by_id(list)[list[i].id] == list[i],
        forall|id: Seq<char>| #[trigger]
            by_id(list).contains_key(id) ==> by_id(list)[id].id == id && list.contains(
                by_id(list)[id],
            ),
    decreases list.len(),
{
    if list.len() > 0 {
        let init = list.drop_last();
        assert forall|i: int, j: int| 0 <= i < j < init.len() implies #[trigger] init[i].id
            != #[trigger] init[j].id by {
            assert(list[i].id != list[j].id);
        }
        lemma_by_id(init);
        assert forall|i: int| 0 <= i < list.len() implies by_id(list).contains_key(
            #[trigger] list[i].id,
        ) && by_id(list)[list[i].id] == list[i] by {
            if i < init.len() {
                assert(init[i] == list[i]);
                assert(list[i].id != list[list.len() - 1].id);
            }
        }
        assert forall|id: Seq<char>| #[trigger] by_id(list).contains_key(id) implies by_id(
            list,
        )[id].id == id && list.contains(by_id(list)[id]) by {
            if id == list.last().id {
                assert(list[list.len() - 1] == list.last());
            } else {
                assert(by_id(init).contains_key(id));
                let k = choose|k: int| 0 <= k < init.len() && init[k] == by_id(init)[id];
                assert(list[k] == by_id(list)[id]);
            }
        }
    }
}

/// Whether the list holds each definition once.
pub open spec fn lists(list: Seq<ServerDefView>, all: Map<Seq<char>, ServerDefView>) -> bool {
    &&& unique_ids(list)
    &&& forall|i: int|
        0 <= i < list.len() ==> all.contains_key((#[trigger] list[i]).id) && all[list[i].id]
            == list[i]
    &&& forall|id: Seq<char>| #[trigger] all.contains_key(id) ==> list.contains(all[id])
}

/// The definitions of all servers, by their ids.
pub struct ServerRegistry {
    servers: Vec<ServerDef>,
    config_dir: String,
}

impl View for ServerRegistry {
    type V = Map<Seq<char>, ServerDefView>;

    closed spec fn view(&self) -> Map<Seq<char>, ServerDefView> {
        by_id(def_views(self.servers@))
    }
}

impl ServerRegistry {
    #[verifier::type_invariant]
    spec fn inv(self) -> bool {
        unique_ids(def_views(self.servers@))
    }

    /// The configuration directory.
    pub closed spec fn config(self) -> Seq<char> {
        self.config_dir@
    }

    /// A registry without servers.
    pub fn new(config_dir: String) -> (r: ServerRegistry)
        ensures
            r@ == Map::<Seq<char>, ServerDefView>::empty(),
            r.config() == config_dir@,
    {
        let servers: Vec<ServerDef> = Vec::new();
        proof {
            assert(def_views(servers@) =~= Seq::<ServerDefView>::empty());
        }
        ServerRegistry { servers, config_dir }
    }

    /// The registry of the definitions that were found in the configuration directory. Their
    /// relative paths are taken to be below the directory of the servers.
    pub fn load(config_dir: String, found: Vec<ServerDef>) -> (r: ServerRegistry)
        ensures
            r@ == by_id(
                def_views(found@).map_values(
                    |d: ServerDefView| with_absolute_paths(d, servers_dir_of(config_dir@)),
                ),
            ),
            r.config() == config_dir@,
    {
        let dir = paths::join_path(config_dir.as_str(), "servers");
        let ghost fixed = def_views(found@).map_values(
            |d: ServerDefView| with_absolute_paths(d, servers_dir_of(config_dir@)),
        );
        let ghost config = config_dir@;
        let mut reg = ServerRegistry::new(config_dir);
        let mut i: usize = 0;
        proof {
            assert(fixed.take(0) =~= Seq::<ServerDefView>::empty());
        }
        while i < found.len()
            invariant
                i <= found.len(),
                fixed == def_views(found@).map_values(
                    |d: ServerDefView| with_absolute_paths(d, servers_dir_of(config)),
                ),
                dir@ == servers_dir_of(config),
                reg@ == by_id(fixed.take(i as int)),
                reg.config() == config,
            decreases found.len() - i,
        {
            let def = fix_paths(found[i].clone(), dir.as_str());
            proof {
                assert(fixed.take(i + 1).drop_last() =~= fixed.take(i as int));
                assert(fixed.take(i + 1).last() == def@);
            }
            reg.insert(def);
            i += 1;
        }
        proof {
            assert(fixed.take(i as int) =~= fixed);
        }
        reg
    }

    /// The definitions of all servers, each once.
    pub fn list(&self) -> (r: Vec<ServerDef>)
        ensures
            lists(def_views(r@), self@),
    {
        proof {
            use_type_invariant(self);
            lemma_by_id(def_views(self.servers@));
        }
        let mut out: Vec<ServerDef> = Vec::new();
        let mut i: usize = 0;
        while i < self.servers.len()
            invariant
                i <= self.servers.len(),
                def_views(out@) == def_views(self.servers@).take(i as int),
            decreases self.servers.len() - i,
        {
            let ghost before = def_views(out@);
            out.push(self.servers[i].clone());
            proof {
                assert(def_views(out@) =~= before.push(self.servers@[i as int]@));
                assert(def_views(out@) =~= def_views(self.servers@).take(i + 1));
            }
            i += 1;
        }
        proof {
            assert(def_views(self.servers@).take(i as int) =~= def_views(self.servers@));
        }
        out
    }

    /// The definition of a server.
    pub fn get(&self, id: &str) -> (r: Option<ServerDef>)
        ensures
            match r {
                Some(def) => self@.contains_key(id@) && def@ == self@[id@] && def@.id == id@,
                None => !self@.contains_key(id@),
            },
    {
        proof {
            use_type_invariant(self);
            lemma_by_id(def_views(self.servers@));
        }
        let ghost all = def_views(self.servers@);
        let mut i: usize = 0;
        while i < self.servers.len()
            invariant
                i <= self.servers.len(),
                all == def_views(self.servers@),
                self@ == by_id(all),
                forall|k: int| 0 <= k < all.len() ==> by_id(all).contains_key(#[trigger] all[k].id)
                    && by_id(all)[all[k].id] == all[k],
                forall|k: int| 0 <= k < i ==> (#[trigger] all[k]).id != id@,
            decreases self.servers.len() - i,
        {
            if text::same(self.servers[i].id.as_str(), id) {
                proof {
                    assert(all[i as int].id == id@);
                }
                return Some(self.servers[i].clone());
            }
            proof {
                assert(all[i as int] == self.servers@[i as int]@);
            }
            i += 1;
        }
        proof {
            if self@.contains_key(id@) {
                let k = choose|k: int| 0 <= k < all.len() && all[k] == by_id(all)[id@];
                assert(all[k].id != id@);
            }
        }
        None
    }

    fn without(&self, id: &str) -> (r: Vec<ServerDef>)
        ensures
            def_views(r@) == others(def_views(self.servers@), id@),
    {
        let ghost all = def_views(self.servers@);
        let mut out: Vec<ServerDef> = Vec::new();
        let mut i: usize = 0;
        proof {
            assert(all.take(0) =~= Seq::<ServerDefView>::empty());
            assert(def_views(out@) =~= others(all.take(0), id@));
        }
        while i < self.servers.len()
            invariant
                i <= self.servers.len(),
                all == def_views(self.servers@),
                def_views(out@) == others(all.take(i as int), id@),
            decreases self.servers.len() - i,
        {
            let ghost before = def_views(out@);
            proof {
                assert(all.take(i + 1).drop_last() =~= all.take(i as int));
                assert(all.take(i + 1).last() == self.servers@[i as int]@);
            }
            if !text::same(self.servers[i].id.as_str(), id) {
                out.push(self.servers[i].clone());
                proof {
                    assert(def_views(out@) =~= before.push(self.servers@[i as int]@));
                }
            }
            i += 1;
        }
        proof {
            assert(all.take(i as int) =~= all);
        }
        out
    }

    /// Enters a definition, in place of any other with its id.
    pub fn insert(&mut self, def: ServerDef)
        ensures
            final(self)@ == old(self)@.insert(def@.id, def@),
            final(self).config() == old(self).config(),
    {
        let mut servers = self.without(def.id.as_str());
        let ghost all = def_views(self.servers@);
        let ghost rest = def_views(servers@);
        let ghost view = def@;
        proof {
            use_type_invariant(&*self);
            lemma_others(all, def@.id);
        }
        servers.push(def);
        proof {
            assert(def_views(servers@) =~= rest.push(view));
            assert(rest.push(view).drop_last() =~= rest);
            assert(by_id(def_views(servers@)) =~= by_id(all).insert(view.id, view));
            assert forall|i: int, j: int| 0 <= i < j < rest.push(
                view,
            ).len() implies #[trigger] rest.push(view)[i].id != #[trigger] rest.push(view)[j].id by {
                if j < rest.len() {
                    assert(rest[i].id != rest[j].id);
                } else {
                    assert(rest[i].id != view.id);
                }
            }
        }
        self.servers = servers;
    }

    /// Takes a server out, and gives its directory: that of its compose file, where it has one.
    pub fn delete(&mut self, id: &str) -> (r: Result<Option<String>, RegistryError>)
        ensures
            final(self)@ == old(self)@.remove(id@),
            final(self).config() == old(self).config(),
            match r {
                Ok(dir) => old(self)@.contains_key(id@) && text::opt_view(dir) == paths::parent(
                    old(self)@[id@].compose_file,
                ),
                Err(e) => !old(self)@.contains_key(id@) && e == RegistryError::NotFound,
            },
    {
        match self.get(id) {
            Some(def) => {
                let servers = self.without(id);
                proof {
                    use_type_invariant(&*self);
                    lemma_others(def_views(self.servers@), id@);
                }
                self.servers = servers;
                Ok(paths::parent_of(def.compose_file.as_str()))
            },
            None => {
                proof {
                    assert(self@.remove(id@) =~= self@);
                }
                Err(RegistryError::NotFound)
            },
        }
    }

    /// The plan for a new server with a random id.
    pub fn create(&self, req: &CreateRequest, created_at: String) -> (r: Result<
        CreatePlan,
        RegistryError,
    >)
        ensures
            match r {
                Ok(plan) => text::trimmed(req.name@).len() > 0 && exists|n: u32|
                    plans_creation(
                        plan,
                        self.config(),
                        req@,
                        #[trigger] numbers::hex_digits(n as nat, 8),
                        created_at@,
                    ),
                Err(e) => text::trimmed(req.name@).len() == 0 && e == RegistryError::NameRequired,
            },
    {
        let id = rand_id();
        self.create_with_id(req, id, created_at)
    }

    /// The plan for a new server with that id.
    pub fn create_with_id(&self, req: &CreateRequest, id: String, created_at: String) -> (r: Result<
        CreatePlan,
        RegistryError,
    >)
        ensures
            match r {
                Ok(plan) => text::trimmed(req.name@).len() > 0 && plans_creation(
                    plan,
                    self.config(),
                    req@,
                    id@,
                    created_at@,
                ),
                Err(e) => text::trimmed(req.name@).len() == 0 && e == RegistryError::NameRequired,
            },
    {
        if text::trim(req.name.as_str()).as_str().is_empty() {
            return Err(RegistryError::NameRequired);
        }
        let dir_name = text::cat3(sanitize(req.name.as_str()).as_str(), "-", id.as_str());
        let servers_dir = paths::join_path(self.config_dir.as_str(), "servers");
        let dir = paths::join_path(servers_dir.as_str(), dir_name.as_str());
        let data_dir = paths::join_path(dir.as_str(), "data");
        let json_path = paths::join_path(dir.as_str(), "server.json");
        let gpu_sh_path = paths::join_path(data_dir.as_str(), "gpu.sh");
        let def = ServerDef {
            id,
            name: req.name.clone(),
            container_name: dir_name,
            data_path: data_dir.clone(),
            compose_file: paths::join_path(dir.as_str(), "docker-compose.yml"),
            port: match req.port {
                Some(port) => port,
                None => 25565,
            },
            created_at,
            opencl_enabled: match req.opencl_enabled {
                Some(on) => on,
                None => false,
            },
            backup_config: None,
        };
        let compose = compose::generate_compose(&def, req);
        Ok(CreatePlan { def, data_dir, json_path, gpu_sh_path, compose })
    }

    /// Where the compose file of a server stands.
    pub fn compose_file(&self, id: &str) -> (r: Result<String, RegistryError>)
        ensures
            match r {
                Ok(path) => self@.contains_key(id@) && path@ == self@[id@].compose_file,
                Err(e) => !self@.contains_key(id@) && e == RegistryError::NotFound,
            },
    {
        match self.get(id) {
            Some(def) => Ok(def.compose_file),
            None => Err(RegistryError::NotFound),
        }
    }

    /// The plan to switch the GPU support of a server, given what its compose file holds. A
    /// compose file that no longer looks like the template is left alone.
    pub fn set_opencl(&self, id: &str, enabled: bool, current: &str) -> (r: Result<
        OpenClPlan,
        RegistryError,
    >)
        requires
            self@.contains_key(id@) ==> paths::parent(self@[id@].compose_file).is_some(),
        ensures
            match r {
                Ok(plan) => {
                    let def = ServerDefView { opencl_enabled: enabled, ..self@[id@] };
                    &&& self@.contains_key(id@)
                    &&& plan.def@ == def
                    &&& Some(plan.json_path@) == json_path_of(def)
                    &&& text::opt_view(plan.compose) == (if compose::is_template(current@) {
                        Some(compose::compose_again(def, current@))
                    } else {
                        None
                    })
                    &&& text::opt_view(plan.gpu_sh_path) == (if enabled {
                        Some(paths::joined_path(def.data_path, "gpu.sh"@))
                    } else {
                        None
                    })
                    &&& text::opt_view(plan.gpu_sh_path) == gpu_script_of(def)
                },
                Err(e) => !self@.contains_key(id@) && e == RegistryError::NotFound,
            },
    {
        match self.get(id) {
            Some(found) => {
                let mut def = found;
                def.opencl_enabled = enabled;
                let json_path = json_path(&def);
                let compose = compose::regenerate_compose(&def, current);
                let gpu_sh_path = if enabled {
                    Some(paths::join_path(def.data_path.as_str(), "gpu.sh"))
                } else {
                    None
                };
                Ok(OpenClPlan { def, json_path, compose, gpu_sh_path })
            },
            None => Err(RegistryError::NotFound),
        }
    }

    /// The plan to set up the backups of a server, given what its compose file holds. The
    /// directory of the archives is always the one that belongs to the server.
    pub fn set_backup(&self, id: &str, cfg: BackupConfig, current: &str) -> (r: Result<
        BackupPlan,
        RegistryError,
    >)
        requires
            self@.contains_key(id@) ==> paths::parent(self@[id@].compose_file).is_some(),
        ensures
            match r {
                Ok(plan) => {
                    let def = self@[id@];
                    &&& self@.contains_key(id@)
                    &&& plan.def@ == with_backup(def, cfg@)
                    &&& Some(plan.json_path@) == json_path_of(def)
                    &&& text::opt_view(plan.backup_dir) == (if cfg.enabled {
                        Some(backup::backup_dir_of(def))
                    } else {
                        None
                    })
                    &&& plan.compose@ == backup::with_sidecar(
                        current@,
                        def,
                        canonical_config(def, cfg@),
                    )
                },
                Err(e) => !self@.contains_key(id@) && e == RegistryError::NotFound,
            },
    {
        match self.get(id) {
            Some(found) => {
                let mut def = found;
                let mut cfg = cfg;
                cfg.backup_dir = backup::server_backup_dir(&def);
                let backup_dir = if cfg.enabled {
                    Some(cfg.backup_dir.clone())
                } else {
                    None
                };
                let compose = backup::apply_backup(current, &def, &cfg);
                let json_path = json_path(&def);
                def.backup_config = Some(cfg);
                Ok(BackupPlan { def, json_path, backup_dir, compose })
            },
            None => Err(RegistryError::NotFound),
        }
    }

    /// The backup configuration of a server, by default where it was never set.
    pub fn get_backup_config(&self, id: &str) -> (r: Result<BackupConfig, RegistryError>)
        ensures
            match r {
                Ok(cfg) => self@.contains_key(id@) && cfg@ == effective_config(self@[id@]),
                Err(e) => !self@.contains_key(id@) && e == RegistryError::NotFound,
            },
    {
        match self.get(id) {
            Some(def) => match &def.backup_config {
                Some(cfg) => Ok(cfg.clone()),
                None => Ok(BackupConfig::default_for(&def)),
            },
            None => Err(RegistryError::NotFound),
        }
    }
}

// ── Laws ──────────────────────────────────────────────────────────────────

/// Definitions whose ids differ are all found by their ids, and nothing else is.
pub proof fn law_loaded_are_found(list: Seq<ServerDefView>)
    requires
        unique_ids(list),
    ensures
        lists(list, by_id(list)),
{
    lemma_by_id(list);
}

/// What was set as the backup configuration of a server is what the server then has, but for
/// the directory, which is always the one beside its own compose file.
pub proof fn law_backup_reads_back(def: ServerDefView, cfg: BackupConfigView)
    ensures
        effective_config(with_backup(def, cfg)) == canonical_config(def, cfg),
        effective_config(with_backup(def, cfg)).backup_dir == backup::backup_dir_of(
            with_backup(def, cfg),
        ),
        effective_config(ServerDefView { backup_config: None, ..def }).backup_dir
            == backup::backup_dir_of(def),
{
}

/// However the backups of a server are set up twice, the compose file ends up as if the second
/// configuration alone had been applied to it, and the server has that configuration. The
/// directory is the one that belongs to the server, whatever was asked for.
pub proof fn law_backup_set_again(
    compose: Seq<char>,
    def: ServerDefView,
    first: BackupConfigView,
    second: BackupConfigView,
)
    requires
        !text::has_text(compose, backup::marker()),
    ensures
        ({
            let then = with_backup(def, first);
            let once = backup::with_sidecar(compose, def, canonical_config(def, first));
            let twice = backup::with_sidecar(once, then, canonical_config(then, second));
            &&& twice == (if second.enabled {
                compose + backup::sidecar_block(def, canonical_config(def, second))
            } else {
                compose
            })
            &&& effective_config(with_backup(then, second)) == canonical_config(def, second)
        }),
{
    let then = with_backup(def, first);
    let cfg = canonical_config(def, second);
    assert(canonical_config(then, second) == cfg);
    assert(backup::sidecar_lines(then, cfg) =~= backup::sidecar_lines(def, cfg));
    backup::law_update_replaces(compose, def, canonical_config(def, first), cfg);
    backup::law_strip_twice(compose);
    assert(backup::stripped(compose) == compose);
}

/// With an absolute directory of the servers all paths come out absolute, and to make them so
/// again changes nothing.
pub proof fn law_paths_are_absolute(def: ServerDefView, dir: Seq<char>)
    requires
        paths::is_rooted(dir),
    ensures
        paths::is_rooted(with_absolute_paths(def, dir).compose_file),
        paths::is_rooted(with_absolute_paths(def, dir).data_path),
        with_absolute_paths(with_absolute_paths(def, dir), dir) == with_absolute_paths(def, dir),
{
}

/// All files of a new server stand in one directory, and that directory is found again from
/// the definition: the archives are kept in it, `server.json` is written to it, and to delete
/// the server is to remove it.
pub proof fn law_created_layout(
    config_dir: Seq<char>,
    req: CreateRequestView,
    id: Seq<char>,
    created_at: Seq<char>,
)
    requires
        !id.contains('/'),
    ensures
        ({
            let dir = created_dir(config_dir, req.name, id);
            let def = created_def(config_dir, req, id, created_at);
            &&& paths::parent(def.compose_file) == Some(dir)
            &&& paths::parent(def.data_path) == Some(dir)
            &&& json_path_of(def) == Some(paths::joined_path(dir, "server.json"@))
            &&& backup::backup_dir_of(def) == dir + "/backups"@
        }),
{
    reveal_strlit("servers");
    reveal_strlit("data");
    reveal_strlit("docker-compose.yml");
    reveal_strlit("-");
    law_slug(req.name);
    let servers = servers_dir_of(config_dir);
    assert(servers.last() == 's');
    let name = dir_name_of(req.name, id);
    let s = slug(req.name);
    assert(name[s.len() as int] == '-');
    assert(paths::is_name(name)) by {
        assert forall|i: int| 0 <= i < name.len() implies name[i] != '/' by {
            if i < s.len() {
                assert(name[i] == s[i]);
            } else if i > s.len() {
                assert(name[i] == id[i - s.len() - 1]);
                assert(id.contains(id[i - s.len() - 1]));
            }
        }
        assert(name != paths::dot());
        assert(name != paths::dot_dot());
    }
    paths::lemma_segments_below(servers, name);
    let dir = created_dir(config_dir, req.name, id);
    assert(paths::is_name("data"@));
    assert(paths::is_name("docker-compose.yml"@));
    paths::lemma_parent_below(dir, "data"@);
    paths::lemma_parent_below(dir, "docker-compose.yml"@);
}

/// A random id is eight lower-case hexadecimal digits.
pub proof fn law_id_shape(n: u32)
    ensures
        numbers::hex_digits(n as nat, 8).len() == 8,
        forall|i: int|
            0 <= i < 8 ==> {
                let c = #[trigger] numbers::hex_digits(n as nat, 8)[i];
                ('0' <= c <= '9') || ('a' <= c <= 'f')
            },
        !numbers::hex_digits(n as nat, 8).contains('/'),
{
    numbers::lemma_hex_digits(n as nat, 8);
}

proof fn lemma_hyphenated_behind(a: Seq<char>, b: Seq<char>, rest: Seq<char>)
    requires
        hyphenated(a) == hyphenated(b),
    ensures
        hyphenated(a + rest) == hyphenated(b + rest),
    decreases rest.len(),
{
    if rest.len() == 0 {
        assert(a + rest =~= a);
        assert(b + rest =~= b);
    } else {
        lemma_hyphenated_behind(a, b, rest.drop_last());
        assert((a + rest).drop_last() =~= a + rest.drop_last());
        assert((b + rest).drop_last() =~= b + rest.drop_last());
        assert((a + rest).last() == rest.last());
        assert((b + rest).last() == rest.last());
    }
}

proof fn lemma_hyphenated_plain(before: Seq<char>, s: Seq<char>)
    requires
        forall|i: int|
            0 <= i < s.len() ==> 'a' <= (#[trigger] s[i]) <= 'z' || '0' <= s[i] <= '9',
    ensures
        hyphenated(before + s) == hyphenated(before) + s,
    decreases s.len(),
{
    if s.len() == 0 {
        assert(before + s =~= before);
        assert(hyphenated(before) + s =~= hyphenated(before));
    } else {
        let init = s.drop_last();
        assert forall|i: int| 0 <= i < init.len() implies 'a' <= (#[trigger] init[i]) <= 'z' || '0'
            <= init[i] <= '9' by {
            assert(init[i] == s[i]);
        }
        lemma_hyphenated_plain(before, init);
        assert(s.last() == s[s.len() - 1]);
        assert((before + s).drop_last() =~= before + init);
        assert((before + s).last() == s.last());
        assert(hyphenated(before + s) =~= hyphenated(before) + s);
    }
}

/// Whether the text is a word of lower-case letters and digits.
pub open spec fn is_plain_word(a: Seq<char>) -> bool {
    a.len() > 0 && forall|i: int|
        0 <= i < a.len() ==> 'a' <= (#[trigger] a[i]) <= 'z' || '0' <= a[i] <= '9'
}

proof fn lemma_trim_hyphens(front: Seq<char>, inner: Seq<char>, back: Seq<char>)
    requires
        front == Seq::<char>::empty() || front == seq!['-'],
        back == Seq::<char>::empty() || back == seq!['-'],
        inner.len() > 0,
        inner[0] != '-',
        inner.last() != '-',
    ensures
        text::trim_class(front + inner + back, CharClass::Is('-')) == inner,
{
    text::law_trim_class(front, inner, back, CharClass::Is('-'));
}

proof fn lemma_word(a: Seq<char>)
    requires
        is_plain_word(a),
    ensures
        hyphenated(a) == a,
        a[0] != '-',
        a.last() != '-',
{
    let none = Seq::<char>::empty();
    assert(hyphenated(none) =~= none);
    lemma_hyphenated_plain(none, a);
    assert(none + a =~= a);
    assert(a.last() == a[a.len() - 1]);
}

proof fn lemma_separator(a: Seq<char>, sep: char)
    requires
        sep == ' ' || sep == '-' || sep == '_',
        hyphenated(a).len() == 0 || hyphenated(a).last() != '-',
    ensures
        hyphenated(a + seq![sep]) == hyphenated(a) + seq!['-'],
{
    lemma_pushed(a, sep);
    assert(hyphenated(a).push('-') =~= hyphenated(a) + seq!['-']);
}

/// A word of lower-case letters and digits is its own slug, cut to twenty characters. A blank, a
/// hyphen or an underscore at either end of it goes.
pub proof fn law_slug_of_word(a: Seq<char>, sep: char)
    requires
        is_plain_word(a),
        sep == ' ' || sep == '-' || sep == '_',
    ensures
        a.len() <= 20 ==> slug(a) == a,
        a.len() > 20 ==> slug(a) == a.take(20),
        slug(seq![sep] + a) == slug(a),
        slug(a + seq![sep]) == slug(a),
{
    let none = Seq::<char>::empty();
    lemma_word(a);
    assert(text::trim_class(hyphenated(a), CharClass::Is('-')) == a) by {
        lemma_trim_hyphens(none, a, none);
        assert(none + a + none =~= a);
    }
    assert(text::trim_class(hyphenated(a + seq![sep]), CharClass::Is('-')) == a) by {
        lemma_separator(a, sep);
        lemma_trim_hyphens(none, a, seq!['-']);
        assert(none + a + seq!['-'] =~= a + seq!['-']);
    }
    assert(text::trim_class(hyphenated(seq![sep] + a), CharClass::Is('-')) == a) by {
        assert(hyphenated(none) =~= none);
        lemma_separator(none, sep);
        assert(none + seq![sep] =~= seq![sep]);
        assert(none + seq!['-'] =~= seq!['-']);
        lemma_hyphenated_plain(seq![sep], a);
        lemma_trim_hyphens(seq!['-'], a, none);
        assert(seq!['-'] + a + none =~= seq!['-'] + a);
    }
}

/// Two words with a blank, a hyphen or an underscore between them are joined by a hyphen, and cut
/// to twenty characters.
pub proof fn law_slug_of_words(a: Seq<char>, sep: char, b: Seq<char>)
    requires
        is_plain_word(a),
        is_plain_word(b),
        sep == ' ' || sep == '-' || sep == '_',
    ensures
        a.len() + b.len() < 20 ==> slug(a + seq![sep] + b) == a + seq!['-'] + b,
        a.len() + b.len() >= 20 ==> slug(a + seq![sep] + b) == (a + seq!['-'] + b).take(20),
{
    let none = Seq::<char>::empty();
    lemma_word(a);
    lemma_word(b);
    lemma_separator(a, sep);
    lemma_hyphenated_plain(a + seq![sep], b);
    let both = a + seq!['-'] + b;
    assert(hyphenated(a + seq![sep] + b) == both);
    assert(both[0] == a[0]);
    assert(both.last() == b.last());
    lemma_trim_hyphens(none, both, none);
    assert(none + both + none =~= both);
}

/// Case does not count in a slug; blanks, hyphens and underscores count the same, two of them
/// side by side as one; and any other character that is no letter or digit counts for nothing.
pub proof fn law_slug_ignores(a: Seq<char>, upper: char, sep: char, other: char, b: Seq<char>)
    requires
        'A' <= upper <= 'Z',
        sep == ' ' || sep == '-' || sep == '_',
        !('a' <= other <= 'z') && !('A' <= other <= 'Z') && !('0' <= other <= '9') && other != ' '
            && other != '-' && other != '_',
    ensures
        slug(a + seq![upper] + b) == slug(a + seq![((upper as u8) + 32) as char] + b),
        slug(a + seq![sep] + b) == slug(a + seq!['-'] + b),
        slug(a + seq![sep, sep] + b) == slug(a + seq![sep] + b),
        slug(a + seq![other] + b) == slug(a + b),
{
    let lower = ((upper as u8) + 32) as char;
    lemma_pushed(a, upper);
    lemma_pushed(a, lower);
    assert('a' <= lower <= 'z');
    assert(text::ascii_lower_char(upper) == lower);
    lemma_hyphenated_behind(a + seq![upper], a + seq![lower], b);
    lemma_pushed(a, sep);
    lemma_pushed(a, '-');
    lemma_hyphenated_behind(a + seq![sep], a + seq!['-'], b);
    let twice = a + seq![sep, sep];
    assert(twice.drop_last() =~= a + seq![sep]);
    assert(twice.last() == sep);
    assert(hyphenated(a + seq![sep]).last() == '-');
    assert(hyphenated(twice) == hyphenated(a + seq![sep]));
    lemma_hyphenated_behind(twice, a + seq![sep], b);
    lemma_pushed(a, other);
    lemma_hyphenated_behind(a + seq![other], a, b);
}

proof fn lemma_pushed(a: Seq<char>, c: char)
    ensures
        (a + seq![c]).drop_last() == a,
        (a + seq![c]).last() == c,
        (a + seq![c]).len() > 0,
{
    assert((a + seq![c]).drop_last() =~= a);
}

/// A new server has the name, the id and the time that it was asked for with, the port that was
/// asked for or else 25565, GPU support where that was asked for, and no backups. Its container
/// and its directory are named after it and its id, and its data and its compose file stand in
/// that directory.
pub proof fn law_created_as_asked(
    config_dir: Seq<char>,
    req: CreateRequestView,
    id: Seq<char>,
    created_at: Seq<char>,
)
    requires
        config_dir.len() > 0,
        config_dir.last() != '/',
        !id.contains('/'),
    ensures
        ({
            let def = created_def(config_dir, req, id, created_at);
            let name = slug(req.name) + seq!['-'] + id;
            &&& def.id == id
            &&& def.name == req.name
            &&& def.created_at == created_at
            &&& req.port matches Some(port) ==> def.port == port
            &&& req.port.is_none() ==> def.port == 25565
            &&& def.opencl_enabled <==> req.opencl_enabled == Some(true)
            &&& def.backup_config.is_none()
            &&& def.container_name == name
            &&& def.data_path == config_dir + "/servers/"@ + name + "/data"@
            &&& def.compose_file == config_dir + "/servers/"@ + name + "/docker-compose.yml"@
        }),
{
    reveal_strlit("servers");
    reveal_strlit("/servers/");
    reveal_strlit("data");
    reveal_strlit("/data");
    reveal_strlit("docker-compose.yml");
    reveal_strlit("/docker-compose.yml");
    reveal_strlit("-");
    let def = created_def(config_dir, req, id, created_at);
    let s = slug(req.name);
    let name = s + seq!['-'] + id;
    assert("-"@ =~= seq!['-']);
    law_slug(req.name);
    assert(name[0] != '/') by {
        if s.len() > 0 {
            assert(name[0] == s[0]);
            assert(is_slug_char(s[0]) || s[0] == '-');
        } else {
            assert(name[0] == '-');
        }
    }
    if id.len() > 0 {
        assert(id.contains(id[id.len() - 1]));
        assert(name.last() == id[id.len() - 1]);
    } else {
        assert(name.last() == '-');
    }
    let servers = config_dir + seq!['/'] + "servers"@;
    assert(servers_dir_of(config_dir) == servers);
    assert(servers.last() == 's');
    let dir = servers + seq!['/'] + name;
    assert(created_dir(config_dir, req.name, id) == dir);
    assert(dir.last() == name.last());
    assert(def.data_path =~= config_dir + "/servers/"@ + name + "/data"@);
    assert(def.compose_file =~= config_dir + "/servers/"@ + name + "/docker-compose.yml"@);
}

/// A relative path is meant below the directory of the servers, and an absolute one as it is.
/// Nothing but the two paths of a definition changes.
pub proof fn law_paths_below_servers(def: ServerDefView, dir: Seq<char>, path: Seq<char>)
    requires
        dir.len() > 0,
        dir.last() != '/',
    ensures
        path.len() > 0 && path[0] == '/' ==> made_absolute(path, dir) == path,
        path.len() == 0 || path[0] != '/' ==> made_absolute(path, dir) == dir + seq!['/'] + path,
        ({
            let fixed = with_absolute_paths(def, dir);
            &&& fixed.compose_file == made_absolute(def.compose_file, dir)
            &&& fixed.data_path == made_absolute(def.data_path, dir)
            &&& fixed.id == def.id
            &&& fixed.name == def.name
            &&& fixed.container_name == def.container_name
            &&& fixed.port == def.port
            &&& fixed.created_at == def.created_at
            &&& fixed.opencl_enabled == def.opencl_enabled
            &&& fixed.backup_config == def.backup_config
        }),
{
}

/// The definition of a server stands beside its compose file.
pub proof fn law_definition_beside(def: ServerDefView, dir: Seq<char>, name: Seq<char>)
    requires
        dir.len() > 0,
        dir.last() != '/',
        paths::is_name(paths::segments(dir).last()),
        paths::is_name(name),
        def.compose_file == dir + seq!['/'] + name,
    ensures
        json_path_of(def) == Some(dir + "/server.json"@),
{
    reveal_strlit("/server.json");
    reveal_strlit("server.json");
    paths::law_parent(dir, name);
    assert(dir + seq!['/'] + "server.json"@ =~= dir + "/server.json"@);
}

/// What `docker compose` is asked: to start a server is to bring up what its compose file names
/// and to remove what it no longer names, and so is to stop its sidecar; to start the sidecar
/// removes nothing.
pub proof fn law_compose_words()
    ensures
        ComposeAction::Up.words() == seq!["up"@, "-d"@, "--remove-orphans"@],
        ComposeAction::Stop.words() == seq!["stop"@],
        ComposeAction::Restart.words() == seq!["restart"@],
        ComposeAction::StartSidecar.words() == seq!["up"@, "-d"@],
        ComposeAction::StopSidecar.words() == seq!["up"@, "-d"@, "--remove-orphans"@],
{
}

/// Of the definitions that are loaded one more is found by its id, and all others as before; a
/// later one takes the place of an earlier one with its id.
pub proof fn law_found_by_id(list: Seq<ServerDefView>, def: ServerDefView, other: Seq<char>)
    ensures
        by_id(list.push(def)).contains_key(def.id),
        by_id(list.push(def))[def.id] == def,
        other != def.id ==> {
            &&& by_id(list.push(def)).contains_key(other) <==> by_id(list).contains_key(other)
            &&& by_id(list.push(def))[other] == by_id(list)[other]
        },
        !by_id(Seq::empty()).contains_key(other),
{
    assert(list.push(def).drop_last() =~= list);
    assert(list.push(def).last() == def);
}

/// A server has the backups that were set up for it, in its own directory, and otherwise those
/// that a server begins with. Nothing else of its definition changes.
pub proof fn law_backups_as_set(def: ServerDefView, cfg: BackupConfigView)
    ensures
        ({
            let after = with_backup(def, cfg);
            let has = effective_config(after);
            &&& has.enabled == cfg.enabled
            &&& has.cron == cfg.cron
            &&& has.keep_count == cfg.keep_count
            &&& has.rcon_password == cfg.rcon_password
            &&& has.backup_dir == backup::backup_dir_of(def)
            &&& ServerDefView { backup_config: def.backup_config, ..after } == def
        }),
        def.backup_config matches Some(set) ==> effective_config(def) == set,
        def.backup_config.is_none() ==> effective_config(def) == backup::default_config(def),
{
}

/// The errors of the registry say what is wrong.
pub proof fn law_registry_errors(path: String)
    ensures
        RegistryError::NameRequired.text() == "name is required"@,
        RegistryError::NotFound.text() == "server not found"@,
        text::ends(RegistryError::InvalidComposePath(path).text(), path@),
{
    text::lemma_stands("invalid compose file path: "@, path@, Seq::empty());
}

/// What is written for a new server: its definition to where that definition is looked for, its
/// compose file as the definition and the request have it, and the script for the GPU into its
/// data.
pub proof fn law_plan_of_creation(
    plan: CreatePlan,
    config_dir: Seq<char>,
    req: CreateRequestView,
    id: Seq<char>,
    created_at: Seq<char>,
)
    requires
        config_dir.len() > 0,
        config_dir.last() != '/',
        !id.contains('/'),
        plans_creation(plan, config_dir, req, id, created_at),
    ensures
        Some(plan.json_path@) == json_path_of(plan.def@),
        plan.data_dir@ == plan.def@.data_path,
        plan.gpu_sh_path@ == plan.def@.data_path + "/gpu.sh"@,
        plan.compose@ == compose::compose_text(plan.def@, req),
        plan.def@.id == id,
        plan.def@.name == req.name,
{
    reveal_strlit("gpu.sh");
    reveal_strlit("/gpu.sh");
    reveal_strlit("/data");
    law_created_layout(config_dir, req, id, created_at);
    law_created_as_asked(config_dir, req, id, created_at);
    let data = plan.def@.data_path;
    assert(data.last() == 'a');
    assert(data + seq!['/'] + "gpu.sh"@ =~= data + "/gpu.sh"@);
}

/// A list of all servers holds each that there is under its id, once, and no other.
pub proof fn law_listed_once(
    list: Seq<ServerDefView>,
    all: Map<Seq<char>, ServerDefView>,
    id: Seq<char>,
)
    requires
        lists(list, all),
    ensures
        all.contains_key(id) ==> list.contains(all[id]),
        !all.contains_key(id) ==> forall|i: int| 0 <= i < list.len() ==> (#[trigger] list[i]).id
            != id,
        forall|i: int, j: int|
            0 <= i < j < list.len() ==> (#[trigger] list[i]).id != (#[trigger] list[j]).id,
{
}

/// What `docker compose` printed is told when it fails, errors first, without white space around
/// either; and so is what it was asked.
pub proof fn law_failure_tells(action: ComposeAction, stderr: Seq<char>, stdout: Seq<char>)
    ensures
        text::begins(action.failed(stderr, stdout), "docker compose "@),
        text::has_text(
            action.failed(stderr, stdout),
            "docker compose "@ + text::joined(action.words(), " "@) + " failed:\n"@,
        ),
        text::ends(
            action.failed(stderr, stdout),
            text::trimmed(stderr) + "\n"@ + text::trimmed(stdout),
        ),
{
    let none = Seq::<char>::empty();
    let start = "docker compose "@;
    let rest = text::joined(action.words(), " "@) + " failed:\n"@;
    let head = "docker compose "@ + text::joined(action.words(), " "@) + " failed:\n"@;
    let tail = text::trimmed(stderr) + "\n"@ + text::trimmed(stdout);
    let all = action.failed(stderr, stdout);
    assert(text::begins(all, start)) by {
        assert(all =~= start + (rest + tail));
        text::lemma_stands(none, start, rest + tail);
    }
    assert(text::has_text(all, head)) by {
        assert(all =~= none + head + tail);
        text::lemma_stands(none, head, tail);
    }
    assert(text::ends(all, tail)) by {
        assert(all =~= head + tail);
        text::lemma_stands(head, tail, none);
    }
}

/// A definition stands for what its fields hold.
pub proof fn law_value_of_def(def: ServerDef)
    ensures
        def@.id == def.id@,
        def@.name == def.name@,
        def@.container_name == def.container_name@,
        def@.data_path == def.data_path@,
        def@.compose_file == def.compose_file@,
        def@.port == def.port,
        def@.created_at == def.created_at@,
        def@.opencl_enabled == def.opencl_enabled,
        def.backup_config matches Some(s) ==> def@.backup_config == Some(s@),
        def.backup_config.is_none() ==> def@.backup_config.is_none(),
{
}

/// A request stands for what its fields hold.
pub proof fn law_value_of_request(req: CreateRequest)
    ensures
        req@.name == req.name@,
        req@.port == req.port,
        req.server_type matches Some(s) ==> req@.server_type == Some(s@),
        req.server_type.is_none() ==> req@.server_type.is_none(),
        req.version matches Some(s) ==> req@.version == Some(s@),
        req.version.is_none() ==> req@.version.is_none(),
        req.memory matches Some(s) ==> req@.memory == Some(s@),
        req.memory.is_none() ==> req@.memory.is_none(),
        req@.start_now == req.start_now,
        req@.opencl_enabled == req.opencl_enabled,
{
}

/// A list of definitions stands for what they hold, one by one.
pub proof fn law_def_views(list: Seq<ServerDef>, i: int)
    requires
        0 <= i < list.len(),
    ensures
        def_views(list).len() == list.len(),
        def_views(list)[i] == list[i]@,
{
}

/// A server with GPU support has the script for it in its data, and a server without has none.
pub proof fn law_gpu_script_of(def: ServerDefView)
    requires
        def.data_path.len() > 0,
        def.data_path.last() != '/',
    ensures
        def.opencl_enabled ==> gpu_script_of(def) == Some(def.data_path + "/gpu.sh"@),
        !def.opencl_enabled ==> gpu_script_of(def).is_none(),
{
    reveal_strlit("gpu.sh");
    reveal_strlit("/gpu.sh");
    assert(def.data_path + seq!['/'] + "gpu.sh"@ =~= def.data_path + "/gpu.sh"@);
}

} // verus!
