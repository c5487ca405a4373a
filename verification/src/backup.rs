//! Backups: an `itzg/mc-backup` sidecar per server, and the archives it leaves.
//!
//! The sidecar is a service of the server's own compose file. It reads the server's data
//! and writes compressed archives to a directory of the server's own. Switching backups on
//! appends the service to the compose file; switching them off takes it out again. The
//! Minecraft server itself keeps running.
use vstd::prelude::*;

use crate::compose;
use crate::numbers;
use crate::paths;
use crate::registry;
use crate::registry::CreateRequestView;
use crate::registry::ServerDef;
use crate::registry::ServerDefView;
use crate::text;

verus! {

// ── Configuration ─────────────────────────────────────────────────────────

/// How the backups of a server are made.
#[derive(Debug)]
pub struct BackupConfig {
    /// Whether the sidecar is enabled for this server.
    pub enabled: bool,
    /// Cron expression of the schedule.
    pub cron: String,
    /// How many archives are kept.
    pub keep_count: u32,
    /// Directory on the host that the archives are written to.
    pub backup_dir: String,
    /// RCON password, the one that the Minecraft container has.
    pub rcon_password: String,
}

/// The value of a [`BackupConfig`].
pub struct BackupConfigView {
    pub enabled: bool,
    pub cron: Seq<char>,
    pub keep_count: u32,
    pub backup_dir: Seq<char>,
    pub rcon_password: Seq<char>,
}

impl View for BackupConfig {
    type V = BackupConfigView;

    open spec fn view(&self) -> BackupConfigView {
        BackupConfigView {
            enabled: self.enabled,
            cron: self.cron@,
            keep_count: self.keep_count,
            backup_dir: self.backup_dir@,
            rcon_password: self.rcon_password@,
        }
    }
}

impl Clone for BackupConfig {
    fn clone(&self) -> (r: Self)
        ensures
            r@ == self@,
    {
        BackupConfig {
            enabled: self.enabled,
            cron: self.cron.clone(),
            keep_count: self.keep_count,
            backup_dir: self.backup_dir.clone(),
            rcon_password: self.rcon_password.clone(),
        }
    }
}

/// The configuration of a server whose backups were never set up.
pub open spec fn default_config(def: ServerDefView) -> BackupConfigView {
    BackupConfigView {
        enabled: false,
        cron: "0 */2 * * *"@,
        keep_count: 10,
        backup_dir: backup_dir_of(def),
        rcon_password: "changeme"@,
    }
}

impl BackupConfig {
    /// The configuration of a server whose backups were never set up.
    pub fn default_for(def: &ServerDef) -> (r: BackupConfig)
        ensures
            r@ == default_config(def@),
    {
        BackupConfig {
            enabled: false,
            cron: "0 */2 * * *".to_owned(),
            keep_count: 10,
            backup_dir: server_backup_dir(def),
            rcon_password: "changeme".to_owned(),
        }
    }
}

/// The backup directory of a server: beside its own compose file.
pub open spec fn backup_dir_of(def: ServerDefView) -> Seq<char> {
    match paths::parent(def.compose_file) {
        Some(dir) => dir + "/backups"@,
        None => "./backups"@,
    }
}

/// The backup directory of a server, always derived from the path of the server's own
/// compose file.
pub fn server_backup_dir(def: &ServerDef) -> (r: String)
    ensures
        r@ == backup_dir_of(def@),
{
    match paths::parent_of(def.compose_file.as_str()) {
        Some(dir) => text::cat(dir.as_str(), "/backups"),
        None => "./backups".to_owned(),
    }
}

// ── Compose snippet ───────────────────────────────────────────────────────

/// The name of the compose service of a server.
pub fn sanitize_svc(s: &str) -> (r: String)
    ensures
        r@ == registry::slug(s@),
{
    registry::sanitize(s)
}

/// The compose service of a server, from its container name.
pub fn mc_svc_name(container_name: &str) -> (r: String)
    ensures
        r@ == registry::slug(container_name@),
{
    sanitize_svc(container_name)
}

/// The compose service that a sidecar is named after, from the container name.
pub fn backup_svc_name(container_name: &str) -> (r: String)
    ensures
        r@ == registry::slug(container_name@),
{
    sanitize_svc(container_name)
}

/// The lines of the sidecar's service in the compose file.
pub open spec fn sidecar_lines(def: ServerDefView, cfg: BackupConfigView) -> Seq<Seq<char>> {
    let svc = registry::slug(def.name);
    let name = svc + "-backup"@;
    seq![
        "  # ── mc-backup sidecar ───────────────────────────────────────────────"@,
        "  "@ + name + ":"@,
        "    image: itzg/mc-backup"@,
        "    container_name: "@ + name,
        "    restart: unless-stopped"@,
        "    depends_on:"@,
        "      - "@ + svc,
        "    environment:"@,
        "      BACKUP_METHOD: tar"@,
        "      INITIAL_DELAY: \"15\""@,
        "      BACKUP_INTERVAL: \""@ + cfg.cron + "\""@,
        "      PRUNE_BACKUPS_DAYS: \"0\""@,
        "      BACKUP_NAME: world"@,
        "      EXCLUDES: \"*.jar,cache,logs\""@,
        "      TAR_COMPRESS_METHOD: gzip"@,
        "      BACKUP_ON_STARTUP: \"true\""@,
        "      PRUNE_BACKUP_COUNT: \""@ + numbers::digits(cfg.keep_count as nat) + "\""@,
        "      RCON_HOST: "@ + svc,
        "      RCON_PORT: \"25575\""@,
        "      RCON_PASSWORD: \""@ + cfg.rcon_password + "\""@,
        "      SERVER_PORT: \"25565\""@,
        "    volumes:"@,
        "      - "@ + def.data_path + ":/data:ro"@,
        "      - "@ + cfg.backup_dir + ":/backups"@,
    ]
}

/// The text that is appended to a compose file for the sidecar: an empty line's break and
/// the lines of the service.
pub open spec fn sidecar_block(def: ServerDefView, cfg: BackupConfigView) -> Seq<char> {
    seq!['\n'] + text::unlines(sidecar_lines(def, cfg))
}

/// The text that is appended to a compose file for the sidecar. It depends on the service
/// that the compose file runs the server as.
pub fn backup_service_block(def: &ServerDef, cfg: &BackupConfig) -> (r: String)
    ensures
        r@ == sidecar_block(def@, cfg@),
{
    let svc = sanitize_svc(def.name.as_str());
    let name = text::cat(svc.as_str(), "-backup");
    let lines = vec![
        "  # ── mc-backup sidecar ───────────────────────────────────────────────".to_owned(),
        text::cat3("  ", name.as_str(), ":"),
        "    image: itzg/mc-backup".to_owned(),
        text::cat("    container_name: ", name.as_str()),
        "    restart: unless-stopped".to_owned(),
        "    depends_on:".to_owned(),
        text::cat("      - ", svc.as_str()),
        "    environment:".to_owned(),
        "      BACKUP_METHOD: tar".to_owned(),
        "      INITIAL_DELAY: \"15\"".to_owned(),
        text::cat3("      BACKUP_INTERVAL: \"", cfg.cron.as_str(), "\""),
        "      PRUNE_BACKUPS_DAYS: \"0\"".to_owned(),
        "      BACKUP_NAME: world".to_owned(),
        "      EXCLUDES: \"*.jar,cache,logs\"".to_owned(),
        "      TAR_COMPRESS_METHOD: gzip".to_owned(),
        "      BACKUP_ON_STARTUP: \"true\"".to_owned(),
        text::cat3(
            "      PRUNE_BACKUP_COUNT: \"",
            numbers::decimal(cfg.keep_count as u64).as_str(),
            "\"",
        ),
        text::cat("      RCON_HOST: ", svc.as_str()),
        "      RCON_PORT: \"25575\"".to_owned(),
        text::cat3("      RCON_PASSWORD: \"", cfg.rcon_password.as_str(), "\""),
        "      SERVER_PORT: \"25565\"".to_owned(),
        "    volumes:".to_owned(),
        text::cat3("      - ", def.data_path.as_str(), ":/data:ro"),
        text::cat3("      - ", cfg.backup_dir.as_str(), ":/backups"),
    ];
    proof {
        assert(text::views(lines@) =~= sidecar_lines(def@, cfg@));
        reveal_strlit("\n");
        assert("\n"@ =~= seq!['\n']);
    }
    text::cat("\n", text::unlines_of(&lines).as_str())
}

/// What the sidecar's block begins with in a compose file.
pub open spec fn marker() -> Seq<char> {
    "\n  # ── mc-backup sidecar"@
}

/// Where the next line begins.
pub open spec fn next_line(s: Seq<char>, i: int) -> int
    decreases s.len() - i,
{
    if i >= s.len() {
        s.len() as int
    } else if s[i] == '\n' {
        i + 1
    } else {
        next_line(s, i + 1)
    }
}

/// Whether a line begins there that is no part of a service's block: it is not empty, and it is
/// indented by two blanks or less.
pub open spec fn is_outer_at(s: Seq<char>, i: int) -> bool {
    &&& 0 <= i < s.len()
    &&& i == 0 || s[i - 1] == '\n'
    &&& s[i] != '\n'
    &&& !(i + 2 < s.len() && s[i] == ' ' && s[i + 1] == ' ' && s[i + 2] == ' ')
}

/// What the last line of a sidecar's block ends with.
pub open spec fn closing() -> Seq<char> {
    ":/backups\n"@
}

/// Whether the sidecar's block whose marker stands at `at` ends before `i`: a line begins there
/// that is no part of a service's block, and the closing line of the sidecar came before it or
/// does not come at all. What was configured may hold anything, line breaks too, so text that
/// ends as the block does is taken for the block to its very end.
pub open spec fn ends_block(s: Seq<char>, at: int, i: int) -> bool {
    &&& is_outer_at(s, i)
    &&& !text::ends(s, closing())
    &&& text::has_text(s.subrange(at, i), closing()) || !text::has_text(s.skip(i), closing())
}

/// Where the sidecar's block whose marker stands at `at` ends, from `i` on.
pub open spec fn end_from(s: Seq<char>, at: int, i: int) -> int
    decreases s.len() - i,
{
    if i >= s.len() {
        s.len() as int
    } else if ends_block(s, at, i) {
        i
    } else {
        end_from(s, at, i + 1)
    }
}

/// Where the sidecar's block ends whose marker stands there: behind the line of the marker, the
/// line with the name of the service, and the lines that belong to the service.
pub open spec fn block_end(s: Seq<char>, at: int) -> int {
    end_from(s, at, next_line(s, next_line(s, at + 1)))
}

/// The line that a marker begins, without the line break before it.
pub open spec fn marker_line() -> Seq<char> {
    "  # ── mc-backup sidecar"@
}

/// Where the sidecar's block ends whose marker stands there, and those that follow right behind
/// it.
pub open spec fn blocks_end(s: Seq<char>, at: int) -> int
    decreases s.len() - at,
{
    let end = block_end(s, at);
    if 0 <= at < s.len() && text::occurs_at(s, marker_line(), end) {
        proof {
            lemma_block_end(s, at);
        }
        blocks_end(s, end - 1)
    } else {
        end
    }
}

/// Where the sidecar's block begins whose marker stands there: with the line break that the
/// marker begins with, unless that break is needed to end the line before it.
pub open spec fn block_start(s: Seq<char>, at: int) -> int {
    if at == 0 || s[at - 1] == '\n' || blocks_end(s, at) == s.len() {
        at
    } else {
        at + 1
    }
}

/// The compose file without the first sidecar's block and those right behind it.
pub open spec fn without_block(compose: Seq<char>) -> Seq<char> {
    let at = text::first_index(compose, marker());
    compose.take(block_start(compose, at)) + compose.skip(blocks_end(compose, at))
}

/// The compose file without any sidecar's block. Whatever else it holds stays: all that stands
/// before the block, and what stands behind it, unless that ends as the block itself does and so
/// cannot be told from it.
pub open spec fn stripped(compose: Seq<char>) -> Seq<char>
    decreases compose.len(),
{
    if text::has_text(compose, marker()) {
        proof {
            lemma_block_bounds(compose);
        }
        stripped(without_block(compose))
    } else {
        compose
    }
}

proof fn lemma_next_line(s: Seq<char>, i: int)
    requires
        0 <= i <= s.len(),
    ensures
        i <= next_line(s, i) <= s.len(),
        i < s.len() ==> i < next_line(s, i),
    decreases s.len() - i,
{
    if i < s.len() && s[i] != '\n' {
        lemma_next_line(s, i + 1);
    }
}

proof fn lemma_end_from(s: Seq<char>, at: int, i: int)
    requires
        0 <= i <= s.len(),
    ensures
        i <= end_from(s, at, i) <= s.len(),
        end_from(s, at, i) < s.len() ==> ends_block(s, at, end_from(s, at, i)),
    decreases s.len() - i,
{
    if i < s.len() && !ends_block(s, at, i) {
        lemma_end_from(s, at, i + 1);
    }
}

/// A sidecar's block ends within the text, behind its marker.
pub proof fn lemma_block_end(s: Seq<char>, at: int)
    requires
        0 <= at < s.len(),
    ensures
        at + 1 <= block_end(s, at) <= s.len(),
        at + 1 < s.len() ==> at + 1 < block_end(s, at),
        block_end(s, at) < s.len() ==> is_outer_at(s, block_end(s, at)),
        text::occurs_at(s, marker_line(), block_end(s, at)) ==> block_end(s, at) < s.len(),
{
    reveal_strlit("  # ── mc-backup sidecar");
    lemma_next_line(s, at + 1);
    lemma_next_line(s, next_line(s, at + 1));
    lemma_end_from(s, at, next_line(s, next_line(s, at + 1)));
}

proof fn lemma_blocks_end(s: Seq<char>, at: int)
    requires
        0 <= at < s.len(),
    ensures
        at + 1 <= blocks_end(s, at) <= s.len(),
        at + 1 < s.len() ==> at + 1 < blocks_end(s, at),
        blocks_end(s, at) < s.len() ==> is_outer_at(s, blocks_end(s, at)),
        !text::occurs_at(s, marker_line(), blocks_end(s, at)),
    decreases s.len() - at,
{
    lemma_block_end(s, at);
    if text::occurs_at(s, marker_line(), block_end(s, at)) {
        lemma_blocks_end(s, block_end(s, at) - 1);
    }
}

/// A sidecar's block lies within the compose file, and to cut it out leaves less.
pub proof fn lemma_block_bounds(s: Seq<char>)
    requires
        text::has_text(s, marker()),
    ensures
        ({
            let at = text::first_index(s, marker());
            &&& text::first_at(s, marker(), at)
            &&& 0 <= at <= block_start(s, at) < blocks_end(s, at) <= s.len()
            &&& at + 1 < s.len()
            &&& s[at] == '\n'
        }),
        without_block(s).len() < s.len(),
{
    reveal_strlit("\n  # ── mc-backup sidecar");
    text::lemma_first_index_found(s, marker());
    let at = text::first_index(s, marker());
    assert(s.subrange(at, at + marker().len())[0] == s[at]);
    lemma_blocks_end(s, at);
}

fn line_behind(v: &Vec<char>, i: usize) -> (r: usize)
    requires
        i <= v.len(),
    ensures
        r == next_line(v@, i as int),
        r <= v.len(),
{
    let mut j: usize = i;
    while j < v.len() && v[j] != '\n'
        invariant
            i <= j <= v.len(),
            next_line(v@, i as int) == next_line(v@, j as int),
        decreases v.len() - j,
    {
        j += 1;
    }
    if j < v.len() {
        j + 1
    } else {
        j
    }
}

fn is_end(v: &Vec<char>, at: usize, i: usize) -> (r: bool)
    requires
        at <= i < v.len(),
        !text::ends(v@, closing()),
    ensures
        r == ends_block(v@, at as int, i as int),
{
    let begins = i == 0 || v[i - 1] == '\n';
    let indented = v.len() - i > 2 && v[i] == ' ' && v[i + 1] == ' ' && v[i + 2] == ' ';
    if !begins || v[i] == '\n' || indented {
        return false;
    }
    proof {
        assert(v@.subrange(i as int, v@.len() as int) =~= v@.skip(i as int));
    }
    text::contains(text::string_of(v, at, i).as_str(), ":/backups\n") || !text::contains(
        text::string_of(v, i, v.len()).as_str(),
        ":/backups\n",
    )
}

fn find_block_end(v: &Vec<char>, at: usize) -> (r: usize)
    requires
        at < v.len(),
    ensures
        r == block_end(v@, at as int),
        r <= v.len(),
{
    let from = line_behind(v, line_behind(v, at + 1));
    proof {
        lemma_next_line(v@, at + 1);
        lemma_next_line(v@, next_line(v@, at + 1));
    }
    let closed = text::ends_with(text::string_of(v, 0, v.len()).as_str(), ":/backups\n");
    proof {
        assert(v@.subrange(0, v@.len() as int) =~= v@);
    }
    let mut j: usize = from;
    while j < v.len()
        invariant
            at < from <= j <= v.len(),
            from == next_line(v@, next_line(v@, at + 1)),
            closed == text::ends(v@, closing()),
            end_from(v@, at as int, from as int) == end_from(v@, at as int, j as int),
        decreases v.len() - j,
    {
        if !closed && is_end(v, at, j) {
            return j;
        }
        j += 1;
    }
    j
}

fn find_blocks_end(v: &Vec<char>, at: usize, line: &Vec<char>) -> (r: usize)
    requires
        at < v.len(),
        line@ == marker_line(),
    ensures
        r == blocks_end(v@, at as int),
        r <= v.len(),
    decreases v.len() - at,
{
    let end = find_block_end(v, at);
    proof {
        lemma_block_end(v@, at as int);
    }
    if text::matches_at(v, line, end) {
        find_blocks_end(v, end - 1, line)
    } else {
        end
    }
}

fn cut_block(compose: &str, at: usize) -> (r: String)
    requires
        text::first_at(compose@, marker(), at as int),
    ensures
        r@ == without_block(compose@),
{
    let v = text::chars_of(compose);
    proof {
        text::lemma_first_index(compose@, marker(), at as int);
        lemma_block_bounds(compose@);
    }
    let end = find_blocks_end(&v, at, &text::chars_of("  # ── mc-backup sidecar"));
    let start: usize = if at == 0 || v[at - 1] == '\n' || end == v.len() {
        at
    } else {
        at + 1
    };
    proof {
        assert(v@.subrange(0, start as int) =~= compose@.take(start as int));
        assert(v@.subrange(end as int, v@.len() as int) =~= compose@.skip(end as int));
    }
    let before = text::string_of(&v, 0, start);
    let behind = text::string_of(&v, end, v.len());
    text::cat(before.as_str(), behind.as_str())
}

/// Strips the sidecar's block from a compose file. All that stands before it stays in front.
pub fn strip_backup_block(compose: &str) -> (r: String)
    ensures
        r@ == stripped(compose@),
        !text::has_text(r@, marker()),
        r@ == compose@ <==> !text::has_text(compose@, marker()),
        text::has_text(compose@, marker()) ==> text::begins(
            r@,
            compose@.take(text::first_index(compose@, marker())),
        ),
{
    proof {
        law_strip_twice(compose@);
        law_text_before_stays(compose@);
    }
    let mut out = compose.to_owned();
    loop
        invariant
            stripped(out@) == stripped(compose@),
            !text::has_text(stripped(compose@), marker()),
            stripped(compose@) == compose@ <==> !text::has_text(compose@, marker()),
            text::has_text(compose@, marker()) ==> text::begins(
                stripped(compose@),
                compose@.take(text::first_index(compose@, marker())),
            ),
        decreases out@.len(),
    {
        match text::before_first(out.as_str(), "\n  # ── mc-backup sidecar") {
            Some(before) => {
                let at: usize = text::chars_of(before.as_str()).len();
                proof {
                    text::lemma_first_index(out@, marker(), at as int);
                    lemma_block_bounds(out@);
                }
                out = cut_block(out.as_str(), at);
            },
            None => {
                return out;
            },
        }
    }
}

/// The compose file with the sidecar as configured, and with no other sidecar.
pub open spec fn with_sidecar(
    compose: Seq<char>,
    def: ServerDefView,
    cfg: BackupConfigView,
) -> Seq<char> {
    if cfg.enabled {
        stripped(compose) + sidecar_block(def, cfg)
    } else {
        stripped(compose)
    }
}

/// The compose file with the sidecar as configured, and with no other sidecar.
pub fn apply_backup(compose: &str, def: &ServerDef, cfg: &BackupConfig) -> (r: String)
    ensures
        r@ == with_sidecar(compose@, def@, cfg@),
{
    let bare = strip_backup_block(compose);
    if cfg.enabled {
        text::cat(bare.as_str(), backup_service_block(def, cfg).as_str())
    } else {
        bare
    }
}

// ── Laws of the compose file ──────────────────────────────────────────────

proof fn lemma_shifted_line(p: Seq<char>, t: Seq<char>, i: int)
    requires
        0 <= i <= t.len(),
    ensures
        next_line(p + t, p.len() + i) == p.len() + next_line(t, i),
    decreases t.len() - i,
{
    if i < t.len() {
        assert((p + t)[p.len() + i] == t[i]);
        if t[i] != '\n' {
            lemma_shifted_line(p, t, i + 1);
        }
    }
}

proof fn lemma_line_within(b: Seq<char>, rest: Seq<char>, i: int)
    requires
        b.len() > 0,
        b.last() == '\n',
        0 <= i < b.len(),
    ensures
        next_line(b + rest, i) == next_line(b, i),
        i < next_line(b, i) <= b.len(),
    decreases b.len() - i,
{
    assert((b + rest)[i] == b[i]);
    if b[i] != '\n' {
        lemma_line_within(b, rest, i + 1);
    }
}

proof fn lemma_same_outer(p: Seq<char>, b: Seq<char>, rest: Seq<char>, i: int)
    requires
        b.len() > 0,
        b.last() == '\n',
        1 <= i < b.len(),
    ensures
        is_outer_at(p + b + rest, p.len() + i) == is_outer_at(b, i),
{
    let s = p + b + rest;
    let n = p.len() as int;
    assert(s[n + i - 1] == b[i - 1]);
    assert(s[n + i] == b[i]);
    assert(s[n + b.len() - 1] == '\n');
    if i + 2 < b.len() {
        assert(s[n + i + 1] == b[i + 1]);
        assert(s[n + i + 2] == b[i + 2]);
    }
}

proof fn lemma_end_at(s: Seq<char>, at: int, i: int, end: int)
    requires
        0 <= i <= end <= s.len(),
        forall|j: int| i <= j < end ==> !ends_block(s, at, j),
        end == s.len() || ends_block(s, at, end),
    ensures
        end_from(s, at, i) == end,
    decreases end - i,
{
    if i < end {
        lemma_end_at(s, at, i + 1, end);
    }
}

/// Whether a line break in what was configured makes the sidecar's block look as if it were
/// over: its closing line seems to come, and then a line that is no part of a service's block.
pub open spec fn closes_early(def: ServerDefView, cfg: BackupConfigView) -> bool {
    let block = sidecar_block(def, cfg);
    exists|i: int|
        next_line(block, next_line(block, 1)) <= i && #[trigger] is_outer_at(block, i)
            && text::has_text(block.take(i), closing())
}

/// Two parts of a compose file, the second one on a line of its own.
pub open spec fn put_below(compose: Seq<char>, rest: Seq<char>) -> Seq<char> {
    if rest.len() == 0 || compose.len() == 0 || compose.last() == '\n' {
        compose + rest
    } else {
        compose + seq!['\n'] + rest
    }
}

proof fn lemma_block_head(def: ServerDefView, cfg: BackupConfigView)
    ensures
        ({
            let block = sidecar_block(def, cfg);
            let first = sidecar_lines(def, cfg)[0];
            &&& block.subrange(0, marker().len() as int) == marker()
            &&& 1 < marker().len() <= first.len() + 1
            &&& marker()[0] == '\n'
            &&& forall|i: int| 0 < i < marker().len() ==> #[trigger] marker()[i] != '\n'
            &&& block.len() > first.len() + 2
            &&& block[0] == '\n'
            &&& block.last() == '\n'
            &&& next_line(block, 1) == first.len() + 2
            &&& text::ends(block, closing())
            &&& closing().len() == 10
            &&& closing()[9] == '\n'
            &&& forall|i: int| 0 <= i < 9 ==> #[trigger] closing()[i] != '\n'
        }),
{
    reveal_strlit("\n  # ── mc-backup sidecar");
    reveal_strlit("  # ── mc-backup sidecar ───────────────────────────────────────────────");
    let block = sidecar_block(def, cfg);
    let m = marker().len() as int;
    let lines = sidecar_lines(def, cfg);
    let first = lines[0];
    let rest = lines.skip(1);
    text::lemma_unlines_concat(seq![first], rest);
    assert(seq![first] + rest =~= lines);
    assert(seq![first].drop_last() =~= Seq::<Seq<char>>::empty());
    assert(text::unlines(seq![first].drop_last()) =~= Seq::<char>::empty());
    assert(text::unlines(seq![first]) =~= first.push('\n'));
    assert(text::unlines(lines) == first.push('\n') + text::unlines(rest));
    text::lemma_unlines_first(rest);
    assert forall|i: int| 0 <= i < first.len() implies block[i + 1] == first[i] by {}
    assert(block.subrange(0, m) =~= marker()) by {
        assert forall|i: int| 0 <= i < m implies block[i] == marker()[i] by {
            if i > 0 {
                assert(block[i - 1 + 1] == first[i - 1]);
            }
        }
    }
    assert(block[first.len() as int + 1] == '\n');
    assert forall|k: int| 1 <= k < first.len() + 1 implies block[k] != '\n' by {
        assert(block[k - 1 + 1] == first[k - 1]);
    }
    lemma_line_break(block, 1, first.len() as int + 1);
    assert(text::unlines(lines).last() == '\n');
    lemma_closing(def, cfg);
}

proof fn lemma_closing(def: ServerDefView, cfg: BackupConfigView)
    ensures
        text::ends(sidecar_block(def, cfg), closing()),
        closing().len() == 10,
        closing()[9] == '\n',
        forall|i: int| 0 <= i < 9 ==> #[trigger] closing()[i] != '\n',
{
    reveal_strlit(":/backups\n");
    reveal_strlit(":/backups");
    let lines = sidecar_lines(def, cfg);
    let last = lines.last();
    let block = sidecar_block(def, cfg);
    let n = block.len() as int;
    assert(last == "      - "@ + cfg.backup_dir + ":/backups"@);
    assert(text::unlines(lines) == text::unlines(lines.drop_last()) + last.push('\n'));
    assert(block.subrange(n - 10, n) =~= closing());
}

proof fn lemma_line_break(s: Seq<char>, i: int, j: int)
    requires
        0 <= i <= j < s.len(),
        s[j] == '\n',
        forall|k: int| i <= k < j ==> s[k] != '\n',
    ensures
        next_line(s, i) == j + 1,
    decreases j - i,
{
    if i < j {
        lemma_line_break(s, i + 1, j);
    }
}

spec fn is_inner_line(line: Seq<char>) -> bool {
    line.len() > 2 && line[0] == ' ' && line[1] == ' ' && line[2] == ' ' && !line.contains('\n')
}

proof fn lemma_inner_line(a: Seq<char>, b: Seq<char>, c: Seq<char>)
    requires
        is_inner_line(a),
        !b.contains('\n'),
        !c.contains('\n'),
    ensures
        is_inner_line(a + b),
        is_inner_line(a + b + c),
{
    let whole = a + b + c;
    assert forall|i: int| 0 <= i < whole.len() implies whole[i] != '\n' by {
        if i < a.len() {
            assert(a.contains(a[i]));
        } else if i < a.len() + b.len() {
            assert(b.contains(b[i - a.len()]));
        } else {
            assert(c.contains(c[i - a.len() - b.len()]));
        }
    }
    assert forall|i: int| 0 <= i < (a + b).len() implies (a + b)[i] != '\n' by {
        assert(whole[i] == (a + b)[i]);
    }
}

/// Whether three blanks stand wherever a line begins.
spec fn is_indented(t: Seq<char>) -> bool {
    forall|j: int|
        #![trigger t[j]]
        0 <= j < t.len() && (j == 0 || t[j - 1] == '\n') ==> j + 2 < t.len() && t[j] == ' '
            && t[j + 1] == ' ' && t[j + 2] == ' '
}

proof fn lemma_indented(lines: Seq<Seq<char>>)
    requires
        forall|k: int| 0 <= k < lines.len() ==> is_inner_line(#[trigger] lines[k]),
    ensures
        is_indented(text::unlines(lines)),
    decreases lines.len(),
{
    if lines.len() > 0 {
        let init = lines.drop_last();
        assert forall|k: int| 0 <= k < init.len() implies is_inner_line(#[trigger] init[k]) by {
            assert(init[k] == lines[k]);
        }
        lemma_indented(init);
        let before = text::unlines(init);
        let last = lines[lines.len() - 1];
        let t = text::unlines(lines);
        let n = before.len() as int;
        assert(is_inner_line(last));
        assert(t == before + last.push('\n'));
        assert forall|j: int|
            #![trigger t[j]]
            0 <= j < t.len() && (j == 0 || t[j - 1] == '\n') implies j + 2 < t.len() && t[j] == ' '
            && t[j + 1] == ' ' && t[j + 2] == ' ' by {
            if j < n {
                assert(t[j] == before[j]);
                if j > 0 {
                    assert(t[j - 1] == before[j - 1]);
                }
                assert(t[j + 1] == before[j + 1]);
                assert(t[j + 2] == before[j + 2]);
            } else if j == n {
                assert(t[n] == last[0]);
                assert(t[n + 1] == last[1]);
                assert(t[n + 2] == last[2]);
            } else {
                assert(t[j - 1] == last.push('\n')[j - 1 - n]);
                assert(last.contains(last[j - 1 - n]));
            }
        }
    }
}

proof fn lemma_inner_texts()
    ensures
        is_inner_line("    image: itzg/mc-backup"@),
        is_inner_line("    container_name: "@),
        is_inner_line("    restart: unless-stopped"@),
        is_inner_line("    depends_on:"@),
        is_inner_line("      - "@),
        is_inner_line("    environment:"@),
        is_inner_line("      BACKUP_METHOD: tar"@),
        is_inner_line("      INITIAL_DELAY: \"15\""@),
        is_inner_line("      BACKUP_INTERVAL: \""@),
        is_inner_line("      PRUNE_BACKUPS_DAYS: \"0\""@),
{
    reveal_strlit("    image: itzg/mc-backup");
    reveal_strlit("    container_name: ");
    reveal_strlit("    restart: unless-stopped");
    reveal_strlit("    depends_on:");
    reveal_strlit("      - ");
    reveal_strlit("    environment:");
    reveal_strlit("      BACKUP_METHOD: tar");
    reveal_strlit("      INITIAL_DELAY: \"15\"");
    reveal_strlit("      BACKUP_INTERVAL: \"");
    reveal_strlit("      PRUNE_BACKUPS_DAYS: \"0\"");
}

proof fn lemma_more_inner_texts()
    ensures
        is_inner_line("      BACKUP_NAME: world"@),
        is_inner_line("      EXCLUDES: \"*.jar,cache,logs\""@),
        is_inner_line("      TAR_COMPRESS_METHOD: gzip"@),
        is_inner_line("      BACKUP_ON_STARTUP: \"true\""@),
        is_inner_line("      PRUNE_BACKUP_COUNT: \""@),
        is_inner_line("      RCON_HOST: "@),
        is_inner_line("      RCON_PORT: \"25575\""@),
        is_inner_line("      RCON_PASSWORD: \""@),
        is_inner_line("      SERVER_PORT: \"25565\""@),
        is_inner_line("    volumes:"@),
{
    reveal_strlit("      BACKUP_NAME: world");
    reveal_strlit("      EXCLUDES: \"*.jar,cache,logs\"");
    reveal_strlit("      TAR_COMPRESS_METHOD: gzip");
    reveal_strlit("      BACKUP_ON_STARTUP: \"true\"");
    reveal_strlit("      PRUNE_BACKUP_COUNT: \"");
    reveal_strlit("      RCON_HOST: ");
    reveal_strlit("      RCON_PORT: \"25575\"");
    reveal_strlit("      RCON_PASSWORD: \"");
    reveal_strlit("      SERVER_PORT: \"25565\"");
    reveal_strlit("    volumes:");
}

proof fn lemma_sidecar_lines(def: ServerDefView, cfg: BackupConfigView)
    requires
        !def.data_path.contains('\n'),
        !cfg.cron.contains('\n'),
        !cfg.rcon_password.contains('\n'),
        !cfg.backup_dir.contains('\n'),
    ensures
        forall|k: int| 2 <= k < 24 ==> is_inner_line(#[trigger] sidecar_lines(def, cfg)[k]),
{
    reveal_strlit("\"");
    reveal_strlit("-backup");
    reveal_strlit(":/data:ro");
    reveal_strlit(":/backups");
    lemma_inner_texts();
    lemma_more_inner_texts();
    let svc = registry::slug(def.name);
    registry::law_slug(def.name);
    assert forall|i: int| 0 <= i < svc.len() implies svc[i] != '\n' by {
        assert(registry::is_slug_char(svc[i]) || svc[i] == '-');
    }
    let name = svc + "-backup"@;
    assert forall|i: int| 0 <= i < name.len() implies name[i] != '\n' by {
        if i < svc.len() {
            assert(name[i] == svc[i]);
        } else {
            assert(name[i] == "-backup"@[i - svc.len()]);
        }
    }
    let count = numbers::digits(cfg.keep_count as nat);
    numbers::lemma_digits_plain(cfg.keep_count as nat);
    let quote = "\""@;
    let none = Seq::<char>::empty();
    lemma_inner_line("    container_name: "@, name, none);
    lemma_inner_line("      - "@, svc, none);
    lemma_inner_line("      BACKUP_INTERVAL: \""@, cfg.cron, quote);
    lemma_inner_line("      PRUNE_BACKUP_COUNT: \""@, count, quote);
    lemma_inner_line("      RCON_HOST: "@, svc, none);
    lemma_inner_line("      RCON_PASSWORD: \""@, cfg.rcon_password, quote);
    lemma_inner_line("      - "@, def.data_path, ":/data:ro"@);
    lemma_inner_line("      - "@, cfg.backup_dir, ":/backups"@);
}

proof fn lemma_one_block(first: Seq<char>, name: Seq<char>, inner_lines: Seq<Seq<char>>)
    requires
        !first.contains('\n'),
        !name.contains('\n'),
        forall|k: int| 0 <= k < inner_lines.len() ==> is_inner_line(#[trigger] inner_lines[k]),
    ensures
        ({
            let block = seq!['\n'] + text::unlines(seq![first, name] + inner_lines);
            forall|j: int|
                next_line(block, next_line(block, 1)) <= j < block.len() ==> !is_outer_at(block, j)
        }),
{
    let two = seq![first, name];
    let inner = text::unlines(inner_lines);
    let block = seq!['\n'] + text::unlines(two + inner_lines);
    let head = seq!['\n'] + first.push('\n') + name.push('\n');
    lemma_indented(inner_lines);
    text::lemma_unlines_concat(two, inner_lines);
    assert(text::unlines(two) =~= first.push('\n') + name.push('\n')) by {
        assert(two.drop_last() =~= seq![first]);
        assert(seq![first].drop_last() =~= Seq::<Seq<char>>::empty());
        assert(text::unlines(Seq::<Seq<char>>::empty()) =~= Seq::<char>::empty());
        assert(text::unlines(seq![first]) =~= first.push('\n'));
    }
    assert(block =~= head + inner);
    let k1 = first.len() as int + 2;
    let h = head.len() as int;
    assert(next_line(block, 1) == k1) by {
        assert forall|i: int| 1 <= i < k1 - 1 implies block[i] != '\n' by {
            assert(block[i] == first[i - 1]);
            assert(first.contains(first[i - 1]));
        }
        assert(block[k1 - 1] == '\n');
        lemma_line_break(block, 1, k1 - 1);
    }
    assert(next_line(block, k1) == h) by {
        assert forall|i: int| k1 <= i < h - 1 implies block[i] != '\n' by {
            assert(block[i] == name[i - k1]);
            assert(name.contains(name[i - k1]));
        }
        assert(block[h - 1] == '\n');
        lemma_line_break(block, k1, h - 1);
    }
    assert forall|j: int| h <= j < block.len() implies !is_outer_at(block, j) by {
        let t = j - h;
        assert(block[j] == inner[t]);
        if t > 0 {
            assert(block[j - 1] == inner[t - 1]);
        }
        if t + 2 < inner.len() {
            assert(block[j + 1] == inner[t + 1]);
            assert(block[j + 2] == inner[t + 2]);
        }
    }
}

proof fn lemma_sidecar_head(def: ServerDefView, cfg: BackupConfigView)
    ensures
        !sidecar_lines(def, cfg)[0].contains('\n'),
        !sidecar_lines(def, cfg)[1].contains('\n'),
{
    reveal_strlit("  # ── mc-backup sidecar ───────────────────────────────────────────────");
    reveal_strlit("  ");
    reveal_strlit("-backup");
    reveal_strlit(":");
    let svc = registry::slug(def.name);
    registry::law_slug(def.name);
    let line = "  "@ + (svc + "-backup"@) + ":"@;
    assert(sidecar_lines(def, cfg)[1] == line);
    assert forall|i: int| 0 <= i < line.len() implies line[i] != '\n' by {
        if 2 <= i < 2 + svc.len() {
            assert(line[i] == svc[i - 2]);
        }
    }
}

/// As long as no line break stands in what was configured, the sidecar's block does not look as
/// if it were over before it is.
pub proof fn law_sidecar_closes_once(def: ServerDefView, cfg: BackupConfigView)
    requires
        !def.data_path.contains('\n'),
        !cfg.cron.contains('\n'),
        !cfg.rcon_password.contains('\n'),
        !cfg.backup_dir.contains('\n'),
    ensures
        !closes_early(def, cfg),
{
    let lines = sidecar_lines(def, cfg);
    let inner_lines = lines.skip(2);
    lemma_sidecar_lines(def, cfg);
    lemma_sidecar_head(def, cfg);
    assert(lines.len() == 24);
    assert forall|k: int| 0 <= k < inner_lines.len() implies is_inner_line(
        #[trigger] inner_lines[k],
    ) by {
        assert(inner_lines[k] == lines[k + 2]);
    }
    lemma_one_block(lines[0], lines[1], inner_lines);
    assert(seq![lines[0], lines[1]] + inner_lines =~= lines);
}

/// A stripped compose file holds no sidecar, and to strip it again changes nothing.
pub proof fn law_strip_twice(compose: Seq<char>)
    ensures
        !text::has_text(stripped(compose), marker()),
        stripped(stripped(compose)) == stripped(compose),
    decreases compose.len(),
{
    if text::has_text(compose, marker()) {
        lemma_block_bounds(compose);
        law_strip_twice(without_block(compose));
    }
}

/// Where the sidecars of a compose file stand together, to strip it is to cut them out.
pub proof fn law_strip_cuts_the_block(compose: Seq<char>)
    requires
        text::has_text(compose, marker()),
        !text::has_text(without_block(compose), marker()),
    ensures
        ({
            let at = text::first_index(compose, marker());
            stripped(compose) == compose.take(block_start(compose, at)) + compose.skip(
                blocks_end(compose, at),
            )
        }),
{
    lemma_block_bounds(compose);
    assert(stripped(without_block(compose)) == without_block(compose));
}

proof fn lemma_next_marker(s: Seq<char>)
    requires
        text::has_text(s, marker()),
        text::has_text(without_block(s), marker()),
    ensures
        text::first_index(without_block(s), marker()) >= block_start(
            s,
            text::first_index(s, marker()),
        ),
{
    lemma_block_bounds(s);
    lemma_block_bounds(without_block(s));
    let at = text::first_index(s, marker());
    let start = block_start(s, at);
    let end = blocks_end(s, at);
    let after = without_block(s);
    let i = text::first_index(after, marker());
    let m = marker().len() as int;
    lemma_blocks_end(s, at);
    reveal_strlit("\n  # ── mc-backup sidecar");
    reveal_strlit("  # ── mc-backup sidecar");
    assert(after.subrange(i, i + m) == marker());
    if i < start {
        if i + m <= start {
            assert(s.subrange(i, i + m) =~= after.subrange(i, i + m));
            assert(text::occurs_at(s, marker(), i));
        } else {
            assert(after[start - 1] == s[start - 1]);
            assert(after[start - 1] == '\n');
            assert(after.subrange(i, i + m)[start - 1 - i] == '\n');
            assert(i == start - 1);
            assert(s.subrange(end, end + m - 1) =~= marker_line()) by {
                assert forall|k: int| 0 <= k < m - 1 implies s[end + k] == marker_line()[k] by {
                    assert(after[start + k] == s[end + k]);
                    assert(after.subrange(i, i + m)[k + 1] == after[start + k]);
                    assert(marker()[k + 1] == marker_line()[k]);
                }
            }
            assert(text::occurs_at(s, marker_line(), end));
        }
    }
}

/// All that stands before the first sidecar stays in front, and only a compose file without a
/// sidecar comes out unchanged.
pub proof fn law_text_before_stays(compose: Seq<char>)
    ensures
        text::has_text(compose, marker()) ==> text::begins(
            stripped(compose),
            compose.take(text::first_index(compose, marker())),
        ),
        stripped(compose) == compose <==> !text::has_text(compose, marker()),
    decreases compose.len(),
{
    law_strip_twice(compose);
    if text::has_text(compose, marker()) {
        lemma_block_bounds(compose);
        let at = text::first_index(compose, marker());
        let after = without_block(compose);
        let out = stripped(compose);
        assert(after.take(at) =~= compose.take(at));
        if text::has_text(after, marker()) {
            lemma_next_marker(compose);
            lemma_block_bounds(after);
            law_text_before_stays(after);
            let i = text::first_index(after, marker());
            assert(out.subrange(0, i) == after.take(i));
            assert(out.subrange(0, at) =~= out.subrange(0, i).take(at));
            assert(after.take(i).take(at) =~= after.take(at));
        } else {
            assert(stripped(after) == after);
            assert(out == after);
            assert(out.subrange(0, at) =~= after.take(at));
        }
    }
}

proof fn lemma_first_marker(
    compose: Seq<char>,
    def: ServerDefView,
    cfg: BackupConfigView,
    rest: Seq<char>,
)
    requires
        !text::has_text(compose, marker()),
    ensures
        ({
            let whole = compose + sidecar_block(def, cfg) + rest;
            &&& text::has_text(whole, marker())
            &&& text::first_index(whole, marker()) == compose.len()
        }),
{
    let block = sidecar_block(def, cfg);
    let whole = compose + block + rest;
    let n = compose.len() as int;
    let m = marker().len() as int;
    lemma_block_head(def, cfg);
    assert(whole.subrange(n, n + m) =~= block.subrange(0, m));
    assert(text::occurs_at(whole, marker(), n));
    assert forall|i: int| 0 <= i < n implies !text::occurs_at(whole, marker(), i) by {
        if text::occurs_at(whole, marker(), i) {
            if i + m <= n {
                assert(whole.subrange(i, i + m) =~= compose.subrange(i, i + m));
                assert(text::occurs_at(compose, marker(), i));
            } else {
                let k = n - i;
                assert(whole.subrange(i, i + m)[k] == block[0]);
                assert(marker()[k] != '\n');
            }
        }
    }
    text::lemma_first_index(whole, marker(), n);
}

/// Disabling gives back what enabling was applied to: a compose file without a sidecar comes
/// out of the two unchanged, whatever was configured.
pub proof fn law_disable_undoes_enable(
    compose: Seq<char>,
    def: ServerDefView,
    cfg: BackupConfigView,
)
    requires
        !text::has_text(compose, marker()),
    ensures
        stripped(compose + sidecar_block(def, cfg)) == compose,
{
    let block = sidecar_block(def, cfg);
    let whole = compose + block;
    let n = compose.len() as int;
    lemma_block_head(def, cfg);
    lemma_first_marker(compose, def, cfg, Seq::empty());
    assert(compose + block + Seq::<char>::empty() =~= whole);
    lemma_block_bounds(whole);
    let e = whole.len() as int;
    assert(whole.subrange(e - 10, e) =~= block.subrange(block.len() - 10, block.len() as int));
    assert(text::ends(whole, closing()));
    lemma_next_line(whole, n + 1);
    lemma_next_line(whole, next_line(whole, n + 1));
    lemma_end_at(whole, n, next_line(whole, next_line(whole, n + 1)), e);
    lemma_block_end(whole, n);
    assert(blocks_end(whole, n) == e);
    assert(without_block(whole) =~= compose);
    assert(stripped(compose) == compose);
}

proof fn lemma_rest_decides(b: Seq<char>, rest: Seq<char>)
    requires
        b.len() >= 10,
        b.last() == '\n',
        rest.len() > 0,
        closing().len() == 10,
        forall|i: int| 0 <= i < 9 ==> #[trigger] closing()[i] != '\n',
    ensures
        text::ends(b + rest, closing()) == text::ends(rest, closing()),
{
    let s = b + rest;
    let n = s.len() as int;
    if rest.len() >= 10 {
        assert(s.subrange(n - 10, n) =~= rest.subrange(rest.len() - 10, rest.len() as int));
    } else if text::ends(s, closing()) {
        let k = b.len() - 1 - (n - 10);
        assert(s.subrange(n - 10, n)[k] == s[b.len() - 1]);
        assert(closing()[k] != '\n');
    }
}

proof fn lemma_end_of_block(
    compose: Seq<char>,
    def: ServerDefView,
    cfg: BackupConfigView,
    rest: Seq<char>,
)
    requires
        !closes_early(def, cfg),
        is_outer_at(rest, 0),
        !text::ends(rest, closing()),
    ensures
        ({
            let block = sidecar_block(def, cfg);
            block_end(compose + block + rest, compose.len() as int) == compose.len() + block.len()
        }),
{
    let block = sidecar_block(def, cfg);
    let tail = block + rest;
    let whole = compose + block + rest;
    let n = compose.len() as int;
    let b = block.len() as int;
    let k1 = sidecar_lines(def, cfg)[0].len() as int + 2;
    let k2 = next_line(block, k1);
    lemma_block_head(def, cfg);
    lemma_line_within(block, rest, 1);
    lemma_line_within(block, rest, k1);
    assert(whole =~= compose + tail);
    lemma_shifted_line(compose, tail, 1);
    lemma_shifted_line(compose, tail, k1);
    assert(next_line(whole, next_line(whole, n + 1)) == n + k2);
    lemma_rest_decides(compose + block, rest);
    assert(!text::ends(whole, closing()));
    assert forall|j: int| n + k2 <= j < n + b implies !ends_block(whole, n, j) by {
        let i = j - n;
        lemma_same_outer(compose, block, rest, i);
        if is_outer_at(block, i) {
            assert(whole.subrange(n, j) =~= block.take(i));
            assert(!text::has_text(block.take(i), closing()));
            assert(i <= b - 10) by {
                if i > b - 10 {
                    assert(block.subrange(b - 10, b)[i - 1 - (b - 10)] == block[i - 1]);
                    assert(closing()[i - 1 - (b - 10)] != '\n');
                }
            }
            let behind = whole.skip(j);
            assert(behind.subrange(b - 10 - i, b - i) =~= block.subrange(b - 10, b));
            assert(text::occurs_at(behind, closing(), b - 10 - i));
        }
    }
    assert(ends_block(whole, n, n + b)) by {
        assert(whole[n + b - 1] == block.last());
        assert(whole[n + b] == rest[0]);
        if n + b + 2 < whole.len() {
            assert(whole[n + b + 1] == rest[1]);
            assert(whole[n + b + 2] == rest[2]);
        }
        assert(whole.subrange(n, n + b) =~= block);
        assert(text::occurs_at(block, closing(), b - 10));
    }
    lemma_end_at(whole, n, n + k2, n + b);
}

/// A sidecar's block with more text behind it that ends as the block does is, to the letter, the
/// block of another configuration: nothing in a compose file tells the two apart.
pub proof fn law_same_ending_is_the_block(
    def: ServerDefView,
    cfg: BackupConfigView,
    more: Seq<char>,
)
    ensures
        sidecar_block(def, cfg) + more + closing() == sidecar_block(
            def,
            BackupConfigView { backup_dir: cfg.backup_dir + closing() + more, ..cfg },
        ),
{
    reveal_strlit(":/backups\n");
    reveal_strlit(":/backups");
    let other = BackupConfigView { backup_dir: cfg.backup_dir + closing() + more, ..cfg };
    let (lines, others) = (sidecar_lines(def, cfg), sidecar_lines(def, other));
    let (last, other_last) = (lines.last(), others.last());
    assert(lines.drop_last() =~= others.drop_last());
    assert(last.push('\n') =~= "      - "@ + cfg.backup_dir + closing());
    assert(other_last.push('\n') =~= "      - "@ + other.backup_dir + closing());
    assert(text::unlines(lines) == text::unlines(lines.drop_last()) + last.push('\n'));
    assert(text::unlines(others) == text::unlines(lines.drop_last()) + other_last.push('\n'));
    assert(sidecar_block(def, cfg) + more + closing() =~= sidecar_block(def, other));
}

/// Only the sidecar's block is taken out: what stands before it and behind it stays as it would
/// be without the sidecar. What stands behind it begins with a line of its own, and does not end
/// as the block does.
pub proof fn law_others_stay(
    compose: Seq<char>,
    def: ServerDefView,
    cfg: BackupConfigView,
    rest: Seq<char>,
)
    requires
        !text::has_text(compose, marker()),
        !closes_early(def, cfg),
        is_outer_at(rest, 0),
        !text::begins(rest, marker_line()),
        !text::ends(rest, closing()),
    ensures
        stripped(compose + sidecar_block(def, cfg) + rest) == stripped(put_below(compose, rest)),
        !text::has_text(put_below(compose, rest), marker()) ==> stripped(
            compose + sidecar_block(def, cfg) + rest,
        ) == put_below(compose, rest),
{
    let block = sidecar_block(def, cfg);
    let whole = compose + block + rest;
    let n = compose.len() as int;
    let e = n + block.len();
    lemma_block_head(def, cfg);
    lemma_first_marker(compose, def, cfg, rest);
    lemma_block_bounds(whole);
    lemma_end_of_block(compose, def, cfg, rest);
    let m = marker_line().len() as int;
    if text::occurs_at(whole, marker_line(), e) {
        assert(rest.subrange(0, m) =~= whole.subrange(e, e + m));
    }
    assert(blocks_end(whole, n) == e);
    if n > 0 {
        assert(whole[n - 1] == compose.last());
    }
    assert(whole[n] == '\n');
    assert(without_block(whole) =~= put_below(compose, rest));
    if !text::has_text(put_below(compose, rest), marker()) {
        assert(stripped(put_below(compose, rest)) == put_below(compose, rest));
    }
}

/// Whatever was configured before, the compose file that an update leaves is the one that the
/// update alone would leave: blocks do not pile up.
pub proof fn law_update_replaces(
    compose: Seq<char>,
    def: ServerDefView,
    first: BackupConfigView,
    second: BackupConfigView,
)
    ensures
        with_sidecar(with_sidecar(compose, def, first), def, second) == with_sidecar(
            compose,
            def,
            second,
        ),
{
    law_strip_twice(compose);
    if first.enabled {
        law_disable_undoes_enable(stripped(compose), def, first);
    }
}

/// The sidecar depends on, and connects to, the service that the compose file of the server
/// defines.
pub proof fn law_sidecar_names_the_service(
    def: ServerDefView,
    req: CreateRequestView,
    cfg: BackupConfigView,
)
    ensures
        ({
            let svc = registry::slug(def.name);
            &&& compose::compose_lines(def, req)[1] == "  "@ + svc + ":"@
            &&& sidecar_lines(def, cfg)[6] == "      - "@ + svc
            &&& sidecar_lines(def, cfg)[17] == "      RCON_HOST: "@ + svc
        }),
{
}

/// Only the sidecar goes: all that stands before it stays, and so does what stands behind it from
/// the next line on that is indented by two blanks at most, such as another service or another
/// section. The next line stays a line of its own. A file without a sidecar stays as it is.
pub proof fn law_other_services_stay(
    compose: Seq<char>,
    def: ServerDefView,
    cfg: BackupConfigView,
    rest: Seq<char>,
    kept: Seq<char>,
)
    requires
        !def.data_path.contains('\n'),
        !cfg.cron.contains('\n'),
        !cfg.rcon_password.contains('\n'),
        !cfg.backup_dir.contains('\n'),
        rest.len() > 0,
        rest[0] != '\n',
        !text::begins(rest, "   "@),
        !text::begins(rest, "  # ── mc-backup sidecar"@),
        !text::ends(rest, ":/backups\n"@),
        kept == compose + rest && (compose.len() == 0 || compose.last() == '\n') || kept == compose
            + seq!['\n'] + rest && compose.len() > 0 && compose.last() != '\n',
        !text::has_text(compose, "\n  # ── mc-backup sidecar"@),
        !text::has_text(kept, "\n  # ── mc-backup sidecar"@),
    ensures
        stripped(compose + sidecar_block(def, cfg) + rest) == kept,
        stripped(compose) == compose,
        !text::has_text(stripped(rest), "\n  # ── mc-backup sidecar"@),
{
    law_sidecar_closes_once(def, cfg);
    law_strip_twice(rest);
    reveal_strlit("   ");
    assert(is_outer_at(rest, 0)) by {
        if 2 < rest.len() && rest[0] == ' ' && rest[1] == ' ' && rest[2] == ' ' {
            assert(rest.subrange(0, 3) =~= "   "@);
        }
    }
    law_others_stay(compose, def, cfg, rest);
}

proof fn lemma_block_lines(def: ServerDefView, cfg: BackupConfigView)
    ensures
        sidecar_block(def, cfg) == text::unlines(
            seq![Seq::<char>::empty()] + sidecar_lines(def, cfg),
        ),
{
    let one = seq![Seq::<char>::empty()];
    text::lemma_unlines_concat(one, sidecar_lines(def, cfg));
    assert(one.drop_last() =~= Seq::<Seq<char>>::empty());
    assert(text::unlines(one.drop_last()) =~= Seq::<char>::empty());
    assert(text::unlines(one) =~= seq!['\n']);
}

proof fn lemma_lines_before_count(def: ServerDefView, cfg: BackupConfigView, k: int)
    requires
        !cfg.cron.contains('\n'),
        0 <= k < 16,
    ensures
        compose::passes(sidecar_lines(def, cfg)[k], "PRUNE_BACKUP_COUNT"@),
{
    let key = "PRUNE_BACKUP_COUNT"@;
    reveal_strlit("PRUNE_BACKUP_COUNT");
    reveal_strlit("\"");
    reveal_strlit("-backup");
    let line = sidecar_lines(def, cfg)[k];
    let svc = registry::slug(def.name);
    let name = svc + "-backup"@;
    registry::law_slug(def.name);
    assert forall|i: int| 0 <= i < svc.len() implies svc[i] != '\n' && svc[i] != 'P' && !text::is_white(
        svc[i],
    ) by {
        assert(registry::is_slug_char(svc[i]) || svc[i] == '-');
    }
    assert forall|i: int| 0 <= i < name.len() implies name[i] != '\n' && name[i] != 'P'
        && !text::is_white(name[i]) by {
        if i < svc.len() {
            assert(name[i] == svc[i]);
        } else {
            assert(name[i] == "-backup"@[i - svc.len()]);
        }
    }
    if k == 0 {
        reveal_strlit("  # ── mc-backup sidecar ───────────────────────────────────────────────");
        compose::lemma_other_line(line, 2, key);
    } else if k == 1 {
        reveal_strlit("  ");
        reveal_strlit(":");
        assert(line[2] == name[0]);
        compose::lemma_other_line(line, 2, key);
        assert forall|i: int| 0 <= i < line.len() implies line[i] != '\n' by {
            if 2 <= i < 2 + name.len() {
                assert(line[i] == name[i - 2]);
            }
        }
    } else if k < 11 {
        lemma_inner_texts();
        if k == 3 {
            lemma_inner_line("    container_name: "@, name, Seq::empty());
            reveal_strlit("    container_name: ");
            assert(line[4] == 'c');
            compose::lemma_other_line(line, 4, key);
        } else if k == 6 {
            lemma_inner_line("      - "@, svc, Seq::empty());
            reveal_strlit("      - ");
            assert(line[6] == '-');
            compose::lemma_other_line(line, 6, key);
        } else if k == 10 {
            lemma_inner_line("      BACKUP_INTERVAL: \""@, cfg.cron, "\""@);
            reveal_strlit("      BACKUP_INTERVAL: \"");
            assert(line[6] == 'B');
            compose::lemma_other_line(line, 6, key);
        } else {
            reveal_strlit("    image: itzg/mc-backup");
            reveal_strlit("    restart: unless-stopped");
            reveal_strlit("    depends_on:");
            reveal_strlit("    environment:");
            reveal_strlit("      BACKUP_METHOD: tar");
            reveal_strlit("      INITIAL_DELAY: \"15\"");
            if k == 8 || k == 9 {
                compose::lemma_other_line(line, 6, key);
            } else {
                compose::lemma_other_line(line, 4, key);
            }
        }
    } else if k == 11 {
        reveal_strlit("      PRUNE_BACKUPS_DAYS: \"0\"");
        let n = line.len() as int;
        text::lemma_trim_around(line, text::CharClass::White, 6, n);
        let t = text::trimmed(line);
        assert(t == line.subrange(6, n));
        if text::begins(t, key) {
            assert(t.subrange(0, 18)[12] == key[12]);
        }
    } else {
        lemma_more_inner_texts();
        reveal_strlit("      BACKUP_NAME: world");
        reveal_strlit("      EXCLUDES: \"*.jar,cache,logs\"");
        reveal_strlit("      TAR_COMPRESS_METHOD: gzip");
        reveal_strlit("      BACKUP_ON_STARTUP: \"true\"");
        compose::lemma_other_line(line, 6, key);
    }
}

/// The number of archives that the sidecar keeps is the one that was configured: it is read back
/// from the block of the sidecar as that number.
pub proof fn law_kept_count_reads_back(def: ServerDefView, cfg: BackupConfigView)
    requires
        !cfg.cron.contains('\n'),
    ensures
        compose::env_of(sidecar_block(def, cfg), "PRUNE_BACKUP_COUNT"@) matches Some(v)
            && numbers::parsed(v, u32::MAX as nat) == Some(cfg.keep_count as nat),
{
    let key = "PRUNE_BACKUP_COUNT"@;
    reveal_strlit("PRUNE_BACKUP_COUNT");
    let d = numbers::digits(cfg.keep_count as nat);
    numbers::law_decimal_reads_back(cfg.keep_count as nat, u32::MAX as nat);
    compose::lemma_digits_are_plain(cfg.keep_count as nat);
    lemma_block_lines(def, cfg);
    let lines = seq![Seq::<char>::empty()] + sidecar_lines(def, cfg);
    let front = lines.take(17);
    assert forall|k: int| 0 <= k < front.len() implies compose::passes(#[trigger] front[k], key) by {
        if k == 0 {
            text::lemma_trim_all(front[0], text::CharClass::White);
        } else {
            lemma_lines_before_count(def, cfg, k - 1);
        }
    }
    assert(compose::env_line(key, d) =~= lines[17]) by {
        reveal_strlit("      ");
        reveal_strlit(": \"");
        reveal_strlit("\"");
        reveal_strlit("      PRUNE_BACKUP_COUNT: \"");
    }
    assert(lines =~= front.push(compose::env_line(key, d)) + lines.skip(18));
    compose::lemma_found(front, key, d, lines.skip(18));
}

/// Two configurations that keep different numbers of archives have different sidecars.
pub proof fn law_kept_counts_differ(
    def: ServerDefView,
    cfg: BackupConfigView,
    other: BackupConfigView,
)
    requires
        cfg.keep_count != other.keep_count,
        !cfg.cron.contains('\n'),
        !other.cron.contains('\n'),
    ensures
        sidecar_block(def, cfg) != sidecar_block(def, other),
{
    law_kept_count_reads_back(def, cfg);
    law_kept_count_reads_back(def, other);
}

/// Whether a sidecar of that service is told to keep so many archives.
pub open spec fn keeps(block: Seq<char>, svc: Seq<char>, count: Seq<char>) -> bool {
    text::has_lines(
        block,
        seq![
            "      BACKUP_ON_STARTUP: \"true\""@,
            "      PRUNE_BACKUP_COUNT: \""@ + count + "\""@,
            "      RCON_HOST: "@ + svc,
        ],
    )
}

/// Whatever the schedule holds, the block of the sidecar has a line that sets the number of
/// archives, and that number is the one that was configured.
pub proof fn law_kept_count_is_set(def: ServerDefView, cfg: BackupConfigView)
    ensures
        exists|count: Seq<char>| #[trigger]
            keeps(sidecar_block(def, cfg), registry::slug(def.name), count) && numbers::parsed(
                count,
                u32::MAX as nat,
            ) == Some(cfg.keep_count as nat),
{
    let count = numbers::digits(cfg.keep_count as nat);
    numbers::law_decimal_reads_back(cfg.keep_count as nat, u32::MAX as nat);
    lemma_block_lines(def, cfg);
    let lines = seq![Seq::<char>::empty()] + sidecar_lines(def, cfg);
    text::lemma_has_lines(lines, 16, 19);
    assert(lines.subrange(16, 19) =~= seq![
        "      BACKUP_ON_STARTUP: \"true\""@,
        "      PRUNE_BACKUP_COUNT: \""@ + count + "\""@,
        "      RCON_HOST: "@ + registry::slug(def.name),
    ]);
    assert(keeps(sidecar_block(def, cfg), registry::slug(def.name), count));
}

/// The block of the sidecar names it after the server, runs the backup image, waits for the
/// server and follows the schedule; it signs on to the server's console with the configured
/// password; and it reads the data directory of the server, without writing to it, and writes to
/// the configured directory. The block ends there.
pub proof fn law_sidecar_is_as_configured(def: ServerDefView, cfg: BackupConfigView)
    ensures
        text::has_lines(
            sidecar_block(def, cfg),
            seq![
                "  "@ + (registry::slug(def.name) + "-backup"@) + ":"@,
                "    image: itzg/mc-backup"@,
                "    container_name: "@ + (registry::slug(def.name) + "-backup"@),
                "    restart: unless-stopped"@,
                "    depends_on:"@,
                "      - "@ + registry::slug(def.name),
                "    environment:"@,
                "      BACKUP_METHOD: tar"@,
                "      INITIAL_DELAY: \"15\""@,
                "      BACKUP_INTERVAL: \""@ + cfg.cron + "\""@,
                "      PRUNE_BACKUPS_DAYS: \"0\""@,
                "      BACKUP_NAME: world"@,
                "      EXCLUDES: \"*.jar,cache,logs\""@,
                "      TAR_COMPRESS_METHOD: gzip"@,
                "      BACKUP_ON_STARTUP: \"true\""@,
            ],
        ),
        text::has_lines(
            sidecar_block(def, cfg),
            seq![
                "      RCON_HOST: "@ + registry::slug(def.name),
                "      RCON_PORT: \"25575\""@,
                "      RCON_PASSWORD: \""@ + cfg.rcon_password + "\""@,
                "      SERVER_PORT: \"25565\""@,
                "    volumes:"@,
                "      - "@ + def.data_path + ":/data:ro"@,
                "      - "@ + cfg.backup_dir + ":/backups"@,
            ],
        ),
        text::ends(
            sidecar_block(def, cfg),
            text::unlines(
                seq![
                    "    volumes:"@,
                    "      - "@ + def.data_path + ":/data:ro"@,
                    "      - "@ + cfg.backup_dir + ":/backups"@,
                ],
            ),
        ),
        text::begins(sidecar_block(def, cfg), "\n  # ── mc-backup sidecar"@),
{
    lemma_block_head(def, cfg);
    lemma_block_lines(def, cfg);
    let lines = seq![Seq::<char>::empty()] + sidecar_lines(def, cfg);
    text::lemma_has_lines(lines, 2, 17);
    assert(lines.subrange(2, 17) =~= seq![
        "  "@ + (registry::slug(def.name) + "-backup"@) + ":"@,
        "    image: itzg/mc-backup"@,
        "    container_name: "@ + (registry::slug(def.name) + "-backup"@),
        "    restart: unless-stopped"@,
        "    depends_on:"@,
        "      - "@ + registry::slug(def.name),
        "    environment:"@,
        "      BACKUP_METHOD: tar"@,
        "      INITIAL_DELAY: \"15\""@,
        "      BACKUP_INTERVAL: \""@ + cfg.cron + "\""@,
        "      PRUNE_BACKUPS_DAYS: \"0\""@,
        "      BACKUP_NAME: world"@,
        "      EXCLUDES: \"*.jar,cache,logs\""@,
        "      TAR_COMPRESS_METHOD: gzip"@,
        "      BACKUP_ON_STARTUP: \"true\""@,
    ]);
    text::lemma_has_lines(lines, 18, 25);
    assert(lines.subrange(18, 25) =~= seq![
        "      RCON_HOST: "@ + registry::slug(def.name),
        "      RCON_PORT: \"25575\""@,
        "      RCON_PASSWORD: \""@ + cfg.rcon_password + "\""@,
        "      SERVER_PORT: \"25565\""@,
        "    volumes:"@,
        "      - "@ + def.data_path + ":/data:ro"@,
        "      - "@ + cfg.backup_dir + ":/backups"@,
    ]);
    let last = seq![
        "    volumes:"@,
        "      - "@ + def.data_path + ":/data:ro"@,
        "      - "@ + cfg.backup_dir + ":/backups"@,
    ];
    assert(lines =~= lines.take(22) + last);
    text::lemma_unlines_concat(lines.take(22), last);
    let whole = text::unlines(lines);
    let part = text::unlines(last);
    assert(whole.subrange(whole.len() - part.len(), whole.len() as int) =~= part);
}

/// Whether the sidecar is there is all that switching backups on and off changes: the file with
/// backups is the one without, followed by the block of the sidecar. A file that has no sidecar
/// is left as it is where backups are off.
pub proof fn law_enable_appends(compose: Seq<char>, def: ServerDefView, cfg: BackupConfigView)
    ensures
        with_sidecar(compose, def, BackupConfigView { enabled: true, ..cfg }) == with_sidecar(
            compose,
            def,
            BackupConfigView { enabled: false, ..cfg },
        ) + sidecar_block(def, cfg),
        !text::has_text(compose, "\n  # ── mc-backup sidecar"@) ==> with_sidecar(
            compose,
            def,
            BackupConfigView { enabled: false, ..cfg },
        ) == compose,
{
    assert(sidecar_lines(def, BackupConfigView { enabled: true, ..cfg }) == sidecar_lines(
        def,
        cfg,
    ));
}

/// Backups that were never set up are off. They would run every second hour, keep ten archives
/// and use the password that a new server has.
pub proof fn law_backups_begin_off(def: ServerDefView)
    ensures
        !default_config(def).enabled,
        default_config(def).cron == "0 */2 * * *"@,
        default_config(def).keep_count == 10,
        default_config(def).rcon_password == "changeme"@,
        default_config(def).backup_dir == backup_dir_of(def),
{
}

/// The archives of a server go beside its compose file: into `backups` in the directory that the
/// file stands in.
pub proof fn law_archives_go_beside(def: ServerDefView, dir: Seq<char>, name: Seq<char>)
    requires
        def.compose_file == dir + seq!['/'] + name,
        dir.len() > 0,
        dir.last() != '/',
        paths::is_name(paths::segments(dir).last()),
        paths::is_name(name),
    ensures
        backup_dir_of(def) == dir + "/backups"@,
{
    paths::lemma_segments_below(dir, name);
    paths::lemma_parent_below(dir, name);
}

// ── Archive listing ───────────────────────────────────────────────────────

/// An archive as it is listed.
#[derive(Debug)]
pub struct BackupFile {
    pub name: String,
    pub size_bytes: u64,
    pub modified: String,
}

/// The value of a [`BackupFile`].
pub struct BackupFileView {
    pub name: Seq<char>,
    pub size_bytes: u64,
    pub modified: Seq<char>,
}

impl View for BackupFile {
    type V = BackupFileView;

    open spec fn view(&self) -> BackupFileView {
        BackupFileView {
            name: self.name@,
            size_bytes: self.size_bytes,
            modified: self.modified@,
        }
    }
}

/// A directory entry: its name, and its size and its time of change in seconds since 1970
/// where they are known.
#[derive(Debug)]
pub struct DirEntryInfo {
    pub name: String,
    pub size: Option<u64>,
    pub modified_secs: Option<u64>,
}

/// The value of a [`DirEntryInfo`].
pub struct DirEntryView {
    pub name: Seq<char>,
    pub size: Option<u64>,
    pub modified_secs: Option<u64>,
}

impl View for DirEntryInfo {
    type V = DirEntryView;

    open spec fn view(&self) -> DirEntryView {
        DirEntryView { name: self.name@, size: self.size, modified_secs: self.modified_secs }
    }
}

/// A time in seconds since 1970 as `days-hours:minutes:seconds` with a fixed number of digits.
pub open spec fn unix_ts(secs: nat) -> Seq<char> {
    numbers::padded(secs / 86400, 10) + "-"@ + numbers::padded((secs / 3600) % 24, 2) + ":"@
        + numbers::padded((secs / 60) % 60, 2) + ":"@ + numbers::padded(secs % 60, 2)
}

/// A time in seconds since 1970 as text that sorts by time.
pub fn format_unix_ts(secs: u64) -> (r: String)
    ensures
        r@ == unix_ts(secs as nat),
{
    let mut out = numbers::decimal_padded(secs / 86400, 10);
    out.push_str("-");
    out.push_str(numbers::decimal_padded((secs / 3600) % 24, 2).as_str());
    out.push_str(":");
    out.push_str(numbers::decimal_padded((secs / 60) % 60, 2).as_str());
    out.push_str(":");
    out.push_str(numbers::decimal_padded(secs % 60, 2).as_str());
    out
}

/// Whether the name is that of a backup archive.
pub open spec fn is_archive(name: Seq<char>) -> bool {
    text::ends(name, ".tar.gz"@) || text::ends(name, ".tgz"@) || text::ends(name, ".zip"@)
}

/// The entry as it is listed.
pub open spec fn listed(entry: DirEntryView) -> BackupFileView {
    BackupFileView {
        name: entry.name,
        size_bytes: match entry.size {
            Some(n) => n,
            None => 0,
        },
        modified: match entry.modified_secs {
            Some(secs) => unix_ts(secs as nat),
            None => "unknown"@,
        },
    }
}

/// The archives among the entries, in their order.
pub open spec fn archives(entries: Seq<DirEntryView>) -> Seq<BackupFileView>
    decreases entries.len(),
{
    if entries.len() == 0 {
        Seq::empty()
    } else if is_archive(entries.last().name) {
        archives(entries.drop_last()).push(listed(entries.last()))
    } else {
        archives(entries.drop_last())
    }
}

/// Where a file is put into a list that has the newest first: behind all that are as new.
pub open spec fn place(files: Seq<BackupFileView>, modified: Seq<char>) -> int
    decreases files.len(),
{
    if files.len() > 0 && text::text_less(files.last().modified, modified) {
        place(files.drop_last(), modified)
    } else {
        files.len() as int
    }
}

/// The files with the newest first; files of the same time keep their order.
pub open spec fn newest_first(files: Seq<BackupFileView>) -> Seq<BackupFileView>
    decreases files.len(),
{
    if files.len() == 0 {
        files
    } else {
        let before = newest_first(files.drop_last());
        before.insert(place(before, files.last().modified), files.last())
    }
}

/// The values of the entries.
pub open spec fn entry_views(entries: Seq<DirEntryInfo>) -> Seq<DirEntryView> {
    entries.map_values(|e: DirEntryInfo| e@)
}

/// The values of the files.
pub open spec fn file_views(files: Seq<BackupFile>) -> Seq<BackupFileView> {
    files.map_values(|f: BackupFile| f@)
}

/// The backup archives in a directory, newest first, from the entries of the directory.
pub fn list_backups(entries: &Vec<DirEntryInfo>) -> (r: Vec<BackupFile>)
    ensures
        file_views(r@) == newest_first(archives(entry_views(entries@))),
{
    let mut out: Vec<BackupFile> = Vec::new();
    let mut i: usize = 0;
    let ghost all = entry_views(entries@);
    proof {
        assert(all.take(0) =~= Seq::<DirEntryView>::empty());
        assert(file_views(out@) =~= newest_first(archives(all.take(0))));
    }
    while i < entries.len()
        invariant
            all == entry_views(entries@),
            i <= entries.len(),
            file_views(out@) == newest_first(archives(all.take(i as int))),
        decreases entries.len() - i,
    {
        proof {
            assert(all.take(i + 1).drop_last() =~= all.take(i as int));
            assert(all.take(i + 1).last() == entries@[i as int]@);
        }
        let name = entries[i].name.as_str();
        if text::ends_with(name, ".tar.gz") || text::ends_with(name, ".tgz") || text::ends_with(
            name,
            ".zip",
        ) {
            let file = BackupFile {
                name: entries[i].name.clone(),
                size_bytes: match entries[i].size {
                    Some(n) => n,
                    None => 0,
                },
                modified: match entries[i].modified_secs {
                    Some(secs) => format_unix_ts(secs),
                    None => "unknown".to_owned(),
                },
            };
            let ghost before = file_views(out@);
            let ghost found = archives(all.take(i as int));
            let mut at: usize = out.len();
            proof {
                assert(before.take(at as int) =~= before);
            }
            while at > 0 && text::less(out[at - 1].modified.as_str(), file.modified.as_str())
                invariant
                    at <= out.len(),
                    before == file_views(out@),
                    place(before.take(at as int), file.modified@) == place(before, file.modified@),
                decreases at,
            {
                proof {
                    assert(before.take(at as int).drop_last() =~= before.take(at - 1));
                    assert(before.take(at as int).last() == out@[at - 1]@);
                }
                at -= 1;
            }
            proof {
                if at > 0 {
                    assert(before.take(at as int).last() == out@[at - 1]@);
                }
                assert(place(before, file.modified@) == at);
                assert(archives(all.take(i + 1)).drop_last() =~= found);
            }
            let ghost fv = file@;
            out.insert(at, file);
            proof {
                assert(file_views(out@) =~= before.insert(at as int, fv));
            }
        }
        i += 1;
    }
    proof {
        assert(all.take(i as int) =~= all);
    }
    out
}

// ── Laws of the listing ───────────────────────────────────────────────────

proof fn lemma_field_less(
    p: Seq<char>,
    a: nat,
    b: nat,
    width: nat,
    x: Seq<char>,
    y: Seq<char>,
)
    requires
        width > 0,
        a < b < numbers::ten_to(width),
    ensures
        text::text_less(p + numbers::padded(a, width) + x, p + numbers::padded(b, width) + y),
{
    let f = numbers::padded(a, width);
    let g = numbers::padded(b, width);
    numbers::lemma_padded_less(a, b, width, x, y);
    text::lemma_less_behind(p, f + x, g + y);
    assert(p + f + x =~= p + (f + x));
    assert(p + g + y =~= p + (g + y));
}

proof fn lemma_grouped(
    d: Seq<char>,
    dash: Seq<char>,
    h: Seq<char>,
    c: Seq<char>,
    m: Seq<char>,
    s: Seq<char>,
)
    ensures
        d + dash + h + c + m + c + s == Seq::<char>::empty() + d + (dash + h + c + m + c + s),
        d + dash + h + c + m + c + s == (d + dash) + h + (c + m + c + s),
        d + dash + h + c + m + c + s == (d + dash + h + c) + m + (c + s),
        d + dash + h + c + m + c + s == (d + dash + h + c + m + c) + s + Seq::<char>::empty(),
{
    assert(d + dash + h + c + m + c + s =~= Seq::<char>::empty() + d + (dash + h + c + m + c
        + s));
    assert(d + dash + h + c + m + c + s =~= (d + dash) + h + (c + m + c + s));
    assert(d + dash + h + c + m + c + s =~= (d + dash + h + c) + m + (c + s));
    assert(d + dash + h + c + m + c + s =~= (d + dash + h + c + m + c) + s
        + Seq::<char>::empty());
}

proof fn lemma_clock(a: nat)
    ensures
        a == (a / 86400) * 86400 + ((a / 3600) % 24) * 3600 + ((a / 60) % 60) * 60 + a % 60,
{
    let m = a / 60;
    let h = m / 60;
    assert(a / 3600 == h);
    assert(a / 86400 == h / 24);
}

/// Times sort as text as they do as times, as long as the days have ten digits at most.
pub proof fn law_timestamps_sort(a: nat, b: nat)
    requires
        a < b,
        b / 86400 < 10_000_000_000,
    ensures
        text::text_less(unix_ts(a), unix_ts(b)),
{
    assert(numbers::ten_to(10) == 10_000_000_000) by {
        reveal_with_fuel(numbers::ten_to, 11);
    }
    assert(numbers::ten_to(2) == 100) by {
        reveal_with_fuel(numbers::ten_to, 3);
    }
    let (d1, h1, m1, s1) = (a / 86400, (a / 3600) % 24, (a / 60) % 60, a % 60);
    let (d2, h2, m2, s2) = (b / 86400, (b / 3600) % 24, (b / 60) % 60, b % 60);
    lemma_clock(a);
    lemma_clock(b);
    let e = Seq::<char>::empty();
    let dash = "-"@;
    let c = ":"@;
    let (day1, hour1, min1, sec1) = (
        numbers::padded(d1, 10),
        numbers::padded(h1, 2),
        numbers::padded(m1, 2),
        numbers::padded(s1, 2),
    );
    let (day2, hour2, min2, sec2) = (
        numbers::padded(d2, 10),
        numbers::padded(h2, 2),
        numbers::padded(m2, 2),
        numbers::padded(s2, 2),
    );
    lemma_grouped(day1, dash, hour1, c, min1, sec1);
    lemma_grouped(day2, dash, hour2, c, min2, sec2);
    if d1 < d2 {
        lemma_field_less(
            e,
            d1,
            d2,
            10,
            dash + hour1 + c + min1 + c + sec1,
            dash + hour2 + c + min2 + c + sec2,
        );
    } else if h1 < h2 {
        lemma_field_less(
            day1 + dash,
            h1,
            h2,
            2,
            c + min1 + c + sec1,
            c + min2 + c + sec2,
        );
    } else if m1 < m2 {
        lemma_field_less(day1 + dash + hour1 + c, m1, m2, 2, c + sec1, c + sec2);
    } else {
        lemma_field_less(day1 + dash + hour1 + c + min1 + c, s1, s2, 2, e, e);
    }
}

/// Whether no file comes behind one that is older.
pub open spec fn is_newest_first(files: Seq<BackupFileView>) -> bool {
    forall|i: int, j: int|
        0 <= i < j < files.len() ==> !text::text_less(
            #[trigger] files[i].modified,
            #[trigger] files[j].modified,
        )
}

proof fn lemma_place(files: Seq<BackupFileView>, modified: Seq<char>)
    requires
        is_newest_first(files),
    ensures
        0 <= place(files, modified) <= files.len(),
        forall|i: int|
            0 <= i < place(files, modified) ==> !text::text_less(
                #[trigger] files[i].modified,
                modified,
            ),
        forall|i: int|
            place(files, modified) <= i < files.len() ==> text::text_less(
                #[trigger] files[i].modified,
                modified,
            ),
    decreases files.len(),
{
    if files.len() > 0 {
        let last = files.last().modified;
        let init = files.drop_last();
        assert forall|i: int, j: int| 0 <= i < j < init.len() implies !text::text_less(
            #[trigger] init[i].modified,
            #[trigger] init[j].modified,
        ) by {
            assert(init[i] == files[i] && init[j] == files[j]);
        }
        lemma_place(init, modified);
        if text::text_less(last, modified) {
            assert forall|i: int| 0 <= i < place(files, modified) implies !text::text_less(
                #[trigger] files[i].modified,
                modified,
            ) by {
                assert(files[i] == init[i]);
            }
            assert forall|i: int| place(files, modified) <= i < files.len() implies text::text_less(
                #[trigger] files[i].modified,
                modified,
            ) by {
                if i < init.len() {
                    assert(files[i] == init[i]);
                }
            }
        } else {
            assert forall|i: int| 0 <= i < files.len() implies !text::text_less(
                #[trigger] files[i].modified,
                modified,
            ) by {
                if i < files.len() - 1 && text::text_less(files[i].modified, modified) {
                    assert(files[files.len() - 1].modified == last);
                    text::lemma_less_total(last, modified);
                    if last != modified {
                        text::lemma_less_trans(files[i].modified, modified, last);
                    }
                }
            }
        }
    }
}

/// A listing has the newest files first, and holds each file that it was made from as often
/// as it was given.
pub proof fn law_newest_first(files: Seq<BackupFileView>)
    ensures
        is_newest_first(newest_first(files)),
        newest_first(files).to_multiset() == files.to_multiset(),
    decreases files.len(),
{
    if files.len() > 0 {
        let init = files.drop_last();
        let file = files.last();
        law_newest_first(init);
        let before = newest_first(init);
        let at = place(before, file.modified);
        lemma_place(before, file.modified);
        let after = newest_first(files);
        assert forall|i: int, j: int| 0 <= i < j < after.len() implies !text::text_less(
            #[trigger] after[i].modified,
            #[trigger] after[j].modified,
        ) by {
            let bi = if i < at {
                i
            } else {
                i - 1
            };
            let bj = if j < at {
                j
            } else {
                j - 1
            };
            if i == at {
                assert(after[j] == before[bj]);
                if text::text_less(file.modified, before[bj].modified) {
                    text::lemma_less_trans(
                        file.modified,
                        before[bj].modified,
                        file.modified,
                    );
                    text::lemma_less_total(file.modified, file.modified);
                }
            } else if j == at {
                assert(after[i] == before[bi]);
            } else {
                assert(after[i] == before[bi] && after[j] == before[bj]);
            }
        }
        broadcast use vstd::seq_lib::group_to_multiset_ensures;

        before.to_multiset_ensures();
        vstd::seq_lib::to_multiset_insert(before, at, file);
        assert(init.push(file) =~= files);
        assert(after.to_multiset() =~= files.to_multiset());
    } else {
        assert(newest_first(files) =~= files);
    }
}

/// The archives of two directories listed together are those of each; an entry counts as an
/// archive exactly where its name ends as one, and is listed with its own name, its size and its
/// time of change.
pub proof fn law_archives_are_listed(
    a: Seq<DirEntryView>,
    b: Seq<DirEntryView>,
    entry: DirEntryView,
)
    ensures
        archives(a + b) == archives(a) + archives(b),
        archives(seq![entry]).len() == if text::ends(entry.name, ".tar.gz"@) || text::ends(
            entry.name,
            ".tgz"@,
        ) || text::ends(entry.name, ".zip"@) {
            1nat
        } else {
            0
        },
        archives(seq![entry]).len() == 1 ==> {
            let file = archives(seq![entry])[0];
            &&& file.name == entry.name
            &&& entry.size matches Some(n) ==> file.size_bytes == n
            &&& entry.size.is_none() ==> file.size_bytes == 0
            &&& entry.modified_secs matches Some(secs) ==> file.modified == unix_ts(secs as nat)
            &&& entry.modified_secs.is_none() ==> file.modified == "unknown"@
        },
    decreases b.len(),
{
    assert(seq![entry].drop_last() =~= Seq::<DirEntryView>::empty());
    assert(archives(seq![entry].drop_last()) =~= Seq::<BackupFileView>::empty());
    if b.len() == 0 {
        assert(a + b =~= a);
        assert(archives(a) + archives(b) =~= archives(a));
    } else {
        law_archives_are_listed(a, b.drop_last(), entry);
        assert((a + b).drop_last() =~= a + b.drop_last());
        assert((a + b).last() == b.last());
        assert(archives(a + b) =~= archives(a) + archives(b));
    }
}

/// A time tells the days since 1970, and the hours, minutes and seconds of the day, each in two
/// digits; together they are the seconds that it was made from.
pub proof fn law_time_reads_back(secs: nat)
    ensures
        ({
            let t = unix_ts(secs);
            let n = t.len() as int;
            let days = numbers::digits_value(t.take(n - 9));
            let hours = numbers::digits_value(t.subrange(n - 8, n - 6));
            let minutes = numbers::digits_value(t.subrange(n - 5, n - 3));
            let seconds = numbers::digits_value(t.subrange(n - 2, n));
            &&& n >= 19
            &&& t[n - 9] == '-' && t[n - 6] == ':' && t[n - 3] == ':'
            &&& hours < 24 && minutes < 60 && seconds < 60
            &&& secs == 86400 * days + 3600 * hours + 60 * minutes + seconds
        }),
{
    reveal_strlit("-");
    reveal_strlit(":");
    let (d, h, m, s) = (secs / 86400, (secs / 3600) % 24, (secs / 60) % 60, secs % 60);
    numbers::law_padded_reads_back(d, 10);
    lemma_two_digits(h);
    lemma_two_digits(m);
    lemma_two_digits(s);
    lemma_clock(secs);
    let t = unix_ts(secs);
    let n = t.len() as int;
    assert(t.take(n - 9) =~= numbers::padded(d, 10));
    assert(t.subrange(n - 8, n - 6) =~= numbers::padded(h, 2));
    assert(t.subrange(n - 5, n - 3) =~= numbers::padded(m, 2));
    assert(t.subrange(n - 2, n) =~= numbers::padded(s, 2));
    assert(numbers::digits_value(t.take(n - 9)) == d);
    assert(numbers::digits_value(t.subrange(n - 8, n - 6)) == h);
    assert(numbers::digits_value(t.subrange(n - 5, n - 3)) == m);
    assert(numbers::digits_value(t.subrange(n - 2, n)) == s);
    assert(h < 24 && m < 60 && s < 60);
    assert(secs == 86400 * d + 3600 * h + 60 * m + s);
}

proof fn lemma_two_digits(n: nat)
    requires
        n < 100,
    ensures
        numbers::digits_value(numbers::padded(n, 2)) == n,
        numbers::padded(n, 2).len() == 2,
{
    numbers::law_padded_reads_back(n, 2);
    assert(numbers::digits(n).len() <= 2) by {
        if n >= 10 {
            assert(numbers::digits(n / 10).len() == 1);
        }
    }
}

/// The files of that time, in their order.
pub open spec fn of_time(files: Seq<BackupFileView>, time: Seq<char>) -> Seq<BackupFileView>
    decreases files.len(),
{
    if files.len() == 0 {
        Seq::empty()
    } else if files.last().modified == time {
        of_time(files.drop_last(), time).push(files.last())
    } else {
        of_time(files.drop_last(), time)
    }
}

proof fn lemma_of_time(a: Seq<BackupFileView>, b: Seq<BackupFileView>, time: Seq<char>)
    ensures
        of_time(a + b, time) == of_time(a, time) + of_time(b, time),
        (forall|i: int| 0 <= i < b.len() ==> (#[trigger] b[i]).modified != time) ==> of_time(b, time)
            == Seq::<BackupFileView>::empty(),
    decreases b.len(),
{
    if b.len() == 0 {
        assert(a + b =~= a);
        assert(of_time(b, time) =~= Seq::<BackupFileView>::empty());
        assert(of_time(a, time) + of_time(b, time) =~= of_time(a, time));
    } else {
        let init = b.drop_last();
        lemma_of_time(a, init, time);
        assert((a + b).drop_last() =~= a + init);
        assert((a + b).last() == b.last());
        assert(of_time(a + b, time) =~= of_time(a, time) + of_time(b, time));
        if forall|i: int| 0 <= i < b.len() ==> (#[trigger] b[i]).modified != time {
            assert forall|i: int| 0 <= i < init.len() implies (#[trigger] init[i]).modified
                != time by {
                assert(init[i] == b[i]);
            }
            assert(b[b.len() - 1].modified != time);
        }
    }
}

proof fn lemma_put_in_order(
    before: Seq<BackupFileView>,
    file: BackupFileView,
    at: int,
    time: Seq<char>,
)
    requires
        0 <= at <= before.len(),
        forall|i: int| at <= i < before.len() ==> (#[trigger] before[i]).modified != file.modified,
    ensures
        of_time(before.insert(at, file), time) == of_time(before, time) + of_time(seq![file], time),
{
    let front = before.take(at);
    let back = before.skip(at);
    let one = seq![file];
    let none = Seq::<BackupFileView>::empty();
    assert(before =~= front + back);
    assert(before.insert(at, file) =~= front + one + back);
    lemma_of_time(front, back, time);
    lemma_of_time(front + one, back, time);
    lemma_of_time(front, one, time);
    let (l, o, r) = (of_time(front, time), of_time(one, time), of_time(back, time));
    assert(of_time(before.insert(at, file), time) == l + o + r);
    assert(of_time(before, time) == l + r);
    if file.modified == time {
        assert forall|i: int| 0 <= i < back.len() implies (#[trigger] back[i]).modified != time by {
            assert(back[i] == before[at + i]);
        }
        assert(r == none);
        assert(l + o + none =~= l + none + o);
    } else {
        assert forall|i: int| 0 <= i < one.len() implies (#[trigger] one[i]).modified != time by {
            assert(one[i] == file);
        }
        assert(o == none);
        assert(l + none + r =~= l + r + none);
    }
}

/// Archives of the same time stay in the order in which the directory gave them.
pub proof fn law_same_time_keeps_order(files: Seq<BackupFileView>, time: Seq<char>)
    ensures
        of_time(newest_first(files), time) == of_time(files, time),
    decreases files.len(),
{
    if files.len() > 0 {
        let init = files.drop_last();
        let file = files.last();
        let before = newest_first(init);
        let at = place(before, file.modified);
        law_same_time_keeps_order(init, time);
        assert(is_newest_first(before)) by {
            law_newest_first(init);
        }
        lemma_place(before, file.modified);
        assert forall|i: int| at <= i < before.len() implies (#[trigger] before[i]).modified
            != file.modified by {
            assert(text::text_less(before[i].modified, file.modified));
            text::lemma_less_total(file.modified, file.modified);
        }
        lemma_put_in_order(before, file, at, time);
        assert(newest_first(files) == before.insert(at, file));
        assert(files =~= init + seq![file]);
        lemma_of_time(init, seq![file], time);
    }
}

/// A configuration stands for what its fields hold.
pub proof fn law_value_of_config(cfg: BackupConfig)
    ensures
        cfg@.enabled == cfg.enabled,
        cfg@.cron == cfg.cron@,
        cfg@.keep_count == cfg.keep_count,
        cfg@.backup_dir == cfg.backup_dir@,
        cfg@.rcon_password == cfg.rcon_password@,
{
}

/// A listed archive stands for what its fields hold.
pub proof fn law_value_of_file(file: BackupFile)
    ensures
        file@.name == file.name@,
        file@.size_bytes == file.size_bytes,
        file@.modified == file.modified@,
{
}

/// A directory entry stands for what its fields hold.
pub proof fn law_value_of_entry(entry: DirEntryInfo)
    ensures
        entry@.name == entry.name@,
        entry@.size == entry.size,
        entry@.modified_secs == entry.modified_secs,
{
}

/// The entries of a directory and the archives of a listing stand for what they hold, one by one.
pub proof fn law_entry_views(entries: Seq<DirEntryInfo>, i: int, files: Seq<BackupFile>, j: int)
    requires
        0 <= i < entries.len(),
        0 <= j < files.len(),
    ensures
        entry_views(entries).len() == entries.len(),
        entry_views(entries)[i] == entries[i]@,
        file_views(files).len() == files.len(),
        file_views(files)[j] == files[j]@,
{
}

} // verus!
