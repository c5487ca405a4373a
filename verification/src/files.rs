//! Files of a server: which paths a request may reach, which files are text, and where
//! mods are moved when they are switched on and off.
use vstd::prelude::*;

use crate::paths;
use crate::text;
use crate::text::CharClass;

verus! {

// ── Types ─────────────────────────────────────────────────────────────────

/// One entry of a directory.
#[derive(Debug)]
pub struct FileEntry {
    pub name: String,
    pub is_dir: bool,
    pub size: u64,
}

/// A directory and its entries.
#[derive(Debug)]
pub struct DirListing {
    pub path: String,
    pub entries: Vec<FileEntry>,
}

/// A file as the editor shows it; a binary file comes without content.
#[derive(Debug)]
pub struct FileContent {
    pub path: String,
    pub content: String,
    pub binary: bool,
}

/// Why a path is refused.
#[derive(Clone, Copy, Debug, PartialEq, Eq, Structural)]
pub enum PathError {
    /// The path leads out of the data directory.
    Outside,
    /// The path does not end in the name of a mod.
    InvalidModPath,
    /// The path does not end in a name.
    InvalidPath,
}

/// A file that moves from one path to another.
#[derive(Debug)]
pub struct ModMove {
    pub from: String,
    pub to: String,
}

impl PathError {
    /// What the caller is told.
    pub open spec fn text(self) -> Seq<char> {
        match self {
            PathError::Outside => "path outside data directory"@,
            PathError::InvalidModPath => "invalid mod path"@,
            PathError::InvalidPath => "invalid path"@,
        }
    }

    /// What the caller is told.
    pub fn message(&self) -> (r: String)
        ensures
            r@ == self.text(),
    {
        match self {
            PathError::Outside => "path outside data directory".to_owned(),
            PathError::InvalidModPath => "invalid mod path".to_owned(),
            PathError::InvalidPath => "invalid path".to_owned(),
        }
    }
}

// ── Text file detection ───────────────────────────────────────────────────

/// The extensions of files that are opened as text.
pub open spec fn text_exts() -> Seq<Seq<char>> {
    seq![
        "properties"@, "json"@, "yml"@, "yaml"@, "txt"@, "conf"@, "cfg"@, "toml"@, "ini"@, "xml"@,
        "sh"@, "md"@, "env"@, "log"@, "csv"@,
    ]
}

/// What follows the last dot of a name in lower case; all of the name where it has no dot.
pub open spec fn extension(name: Seq<char>) -> Seq<char> {
    text::split_at_class(text::ascii_lower(name), CharClass::Is('.')).last()
}

/// Whether the name is that of a text file.
pub open spec fn is_text_name(name: Seq<char>) -> bool {
    text_exts().contains(extension(name))
}

/// Whether the last component of the path is the name of a text file.
pub open spec fn is_text_path_spec(path: Seq<char>) -> bool {
    is_text_name(
        match paths::file_name(path) {
            Some(name) => name,
            None => Seq::empty(),
        },
    )
}

/// The extensions of files that are opened as text.
fn text_ext_list() -> (r: Vec<String>)
    ensures
        text::views(r@) == text_exts(),
{
    let r = vec![
        "properties".to_owned(), "json".to_owned(), "yml".to_owned(), "yaml".to_owned(),
        "txt".to_owned(), "conf".to_owned(), "cfg".to_owned(), "toml".to_owned(), "ini".to_owned(),
        "xml".to_owned(), "sh".to_owned(), "md".to_owned(), "env".to_owned(), "log".to_owned(),
        "csv".to_owned(),
    ];
    proof {
        assert(text::views(r@) =~= text_exts());
    }
    r
}

/// Whether the name is that of a text file. Case is ignored: no letter outside ASCII has one
/// of these extensions' letters as its lower case.
pub fn is_text_file(name: &str) -> (r: bool)
    ensures
        r == is_text_name(name@),
{
    let lower = text::to_ascii_lower(name);
    let parts = text::split(lower.as_str(), CharClass::Is('.'));
    proof {
        text::lemma_split_some(lower@, CharClass::Is('.'));
        assert(text::views(parts@).last() == parts@.last()@);
    }
    text::list_has(&text_ext_list(), parts[parts.len() - 1].as_str())
}

/// Whether the file at the path is opened as text.
pub fn is_text_path(path: &str) -> (r: bool)
    ensures
        r == is_text_path_spec(path@),
{
    proof {
        reveal_strlit("");
        assert(""@ =~= Seq::<char>::empty());
    }
    match paths::file_name_of(path) {
        Some(name) => is_text_file(name.as_str()),
        None => is_text_file(""),
    }
}

/// What the editor shows of a file.
pub open spec fn shown_content(path: Seq<char>, content: Seq<char>) -> Seq<char> {
    if is_text_path_spec(path) {
        content
    } else {
        Seq::empty()
    }
}

/// The file at the path as the editor shows it, `content` being what was read of it.
/// A file that is not text is shown without content.
pub fn read_file(path: &str, content: String) -> (r: FileContent)
    ensures
        r.path@ == path@,
        r.binary == !is_text_path_spec(path@),
        r.content@ == if is_text_path_spec(path@) {
            content@
        } else {
            Seq::empty()
        },
        r.content@ == shown_content(path@, content@),
{
    if is_text_path(path) {
        FileContent { path: path.to_owned(), content, binary: false }
    } else {
        FileContent { path: path.to_owned(), content: String::new(), binary: true }
    }
}

// ── Path traversal protection ─────────────────────────────────────────────

/// The directory that requests are held to: the path that the file system gives for it, or
/// its normal form where the file system gives none.
pub open spec fn base_dir(data_path: Seq<char>, canonical: Option<Seq<char>>) -> Seq<char> {
    match canonical {
        Some(path) => path,
        None => paths::normalized(data_path),
    }
}

/// The normal form of the requested path, seen from the base directory.
pub open spec fn requested_path(base: Seq<char>, requested: Seq<char>) -> Seq<char> {
    paths::normalized(paths::joined_path(base, requested))
}

/// Whether the first path is the second or lies below it.
pub open spec fn lies_in(path: Seq<char>, base: Seq<char>) -> bool {
    paths::begins_with(paths::components(path), paths::components(base))
}

/// The path of the data directory that requests are held to.
pub fn canonicalize_or_clean(path: &str, canonical: Option<&str>) -> (r: String)
    ensures
        r@ == base_dir(path@, text::opt_str_view(canonical)),
{
    match canonical {
        Some(found) => found.to_owned(),
        None => normalize_path(path),
    }
}

/// The path without `.`, `..` and repeated slashes.
pub fn normalize_path(path: &str) -> (r: String)
    ensures
        r@ == paths::normalized(path@),
        paths::components(r@) == paths::resolved(paths::components(path@)),
        paths::is_normal(paths::components(r@)),
{
    proof {
        paths::lemma_normalized(path@);
    }
    paths::path_of(&paths::resolve(&paths::components_of(path)))
}

/// The path that a request reaches, where it lies in the data directory. `canonical` is the
/// data directory as the file system names it, links followed, where it could be asked.
pub fn safe_path(data_path: &str, canonical: Option<&str>, requested: &str) -> (r: Result<
    String,
    PathError,
>)
    ensures
        match r {
            Ok(path) => {
                &&& path@ == requested_path(base_dir(data_path@, text::opt_str_view(canonical)), requested@)
                &&& lies_in(path@, base_dir(data_path@, text::opt_str_view(canonical)))
                &&& paths::is_normal(paths::components(path@))
            },
            Err(e) => {
                &&& e == PathError::Outside
                &&& !lies_in(
                    requested_path(base_dir(data_path@, text::opt_str_view(canonical)), requested@),
                    base_dir(data_path@, text::opt_str_view(canonical)),
                )
            },
        },
{
    let base = canonicalize_or_clean(data_path, canonical);
    let clean = normalize_path(paths::join_path(base.as_str(), requested).as_str());
    if paths::list_begins_with(&paths::components_of(clean.as_str()), &paths::components_of(base.as_str())) {
        Ok(clean)
    } else {
        Err(PathError::Outside)
    }
}

/// The host path of a path that the front end writes below `/data`.
pub open spec fn mapped_path(p: Seq<char>, data_path: Seq<char>) -> Seq<char> {
    if p == "/data"@ {
        data_path
    } else if text::begins(p, "/data/"@) {
        data_path + "/"@ + p.skip("/data/"@.len() as int)
    } else {
        p
    }
}

/// Translates a path that the front end writes below `/data` to the real host path.
pub fn map_data_path(p: &str, data_path: &str) -> (r: String)
    ensures
        r@ == mapped_path(p@, data_path@),
{
    if text::same(p, "/data") {
        data_path.to_owned()
    } else {
        match text::strip_prefix(p, "/data/") {
            Some(rest) => text::cat3(data_path, "/", rest.as_str()),
            None => p.to_owned(),
        }
    }
}

// ── Mod management ────────────────────────────────────────────────────────

/// The directory of the mods of a server.
pub open spec fn mods_dir_spec(data_path: Seq<char>) -> Seq<char> {
    data_path + "/mods"@
}

/// The directory of the mods that are switched off.
pub open spec fn disabled_dir_spec(data_path: Seq<char>) -> Seq<char> {
    data_path + "/mods/disabled"@
}

/// The directory of the mods of a server.
pub fn mods_dir(data_path: &str) -> (r: String)
    ensures
        r@ == mods_dir_spec(data_path@),
{
    text::cat(data_path, "/mods")
}

/// The directory of the mods that are switched off.
pub fn disabled_dir(data_path: &str) -> (r: String)
    ensures
        r@ == disabled_dir_spec(data_path@),
{
    text::cat(data_path, "/mods/disabled")
}

/// Where a file is moved to when it is put into a directory under its own name.
pub open spec fn moved_to(path: Seq<char>, dir: Seq<char>) -> Option<Seq<char>> {
    match paths::file_name(path) {
        Some(name) => Some(dir + "/"@ + name),
        None => None,
    }
}

/// The move that switches a mod off: into the directory for such mods, under its own name.
pub fn disable_mod(mod_path: &str, data_path: &str) -> (r: Result<ModMove, PathError>)
    ensures
        match r {
            Ok(m) => m.from@ == mod_path@ && moved_to(mod_path@, disabled_dir_spec(data_path@))
                == Some(m.to@),
            Err(e) => moved_to(mod_path@, disabled_dir_spec(data_path@)).is_none() && e
                == PathError::InvalidModPath,
        },
{
    match paths::file_name_of(mod_path) {
        Some(name) => Ok(
            ModMove {
                from: mod_path.to_owned(),
                to: text::cat3(disabled_dir(data_path).as_str(), "/", name.as_str()),
            },
        ),
        None => Err(PathError::InvalidModPath),
    }
}

/// The move that switches a mod on: into the directory of the mods, under its own name.
pub fn enable_mod(mod_path: &str, data_path: &str) -> (r: Result<ModMove, PathError>)
    ensures
        match r {
            Ok(m) => m.from@ == mod_path@ && moved_to(mod_path@, mods_dir_spec(data_path@)) == Some(
                m.to@,
            ),
            Err(e) => moved_to(mod_path@, mods_dir_spec(data_path@)).is_none() && e
                == PathError::InvalidPath,
        },
{
    match paths::file_name_of(mod_path) {
        Some(name) => Ok(
            ModMove {
                from: mod_path.to_owned(),
                to: text::cat3(mods_dir(data_path).as_str(), "/", name.as_str()),
            },
        ),
        None => Err(PathError::InvalidPath),
    }
}

// ── Laws ──────────────────────────────────────────────────────────────────

proof fn lemma_normal_take(comps: Seq<Seq<char>>, n: int)
    requires
        paths::is_normal(comps),
        0 <= n <= comps.len(),
    ensures
        paths::is_normal(comps.take(n)),
{
    assert forall|k: int| 0 <= k < n implies {
        ||| k == 0 && #[trigger] comps.take(n)[k] == paths::root()
        ||| paths::is_name(comps.take(n)[k])
    } by {
        assert(comps.take(n)[k] == comps[k]);
    }
}

proof fn lemma_path_text_prefix(comps: Seq<Seq<char>>, n: int)
    requires
        paths::is_normal(comps),
        0 <= n <= comps.len(),
    ensures
        text::begins(paths::path_text(comps), paths::path_text(comps.take(n))),
        n == comps.len() || n == 0 || paths::path_text(comps.take(n)).last() == '/' || paths::path_text(
            comps,
        )[paths::path_text(comps.take(n)).len() as int] == '/',
        n < comps.len() ==> paths::path_text(comps.take(n)).len() < paths::path_text(comps).len(),
    decreases comps.len() - n,
{
    let text = paths::path_text(comps);
    if n == comps.len() {
        assert(comps.take(n) =~= comps);
        assert(text.subrange(0, text.len() as int) =~= text);
    } else {
        let init = comps.drop_last();
        lemma_normal_take(comps, comps.len() - 1);
        assert(comps.take(comps.len() - 1) =~= init);
        lemma_path_text_prefix(init, n);
        assert(init.take(n) =~= comps.take(n));
        paths::lemma_path_text_components(init);
        let before = paths::path_text(init);
        let part = paths::path_text(comps.take(n));
        let last = comps.last();
        assert(comps[comps.len() - 1] == last);
        assert(last.len() > 0);
        if init.len() > 0 {
            assert(paths::is_name(last));
            assert(last.contains(last[0]));
            assert(text::begins(text, before)) by {
                assert(text.subrange(0, before.len() as int) =~= before);
            }
            assert(text.subrange(0, part.len() as int) =~= before.subrange(0, part.len() as int));
            if n == init.len() {
                assert(part =~= before);
            } else {
                assert(text[part.len() as int] == before[part.len() as int]);
            }
        } else {
            assert(part =~= Seq::<char>::empty());
            assert(text.subrange(0, 0) =~= part);
        }
    }
}

/// A path that is handed out for a request stays in the data directory: its text is that of
/// the directory, or goes on from it after a slash, and no component leads upwards again.
/// The directory's path is one in normal form that is not empty, as file systems give it.
pub proof fn law_safe_path_below(base: Seq<char>, requested: Seq<char>)
    requires
        base == paths::normalized(base),
        base.len() > 0,
        lies_in(requested_path(base, requested), base),
    ensures
        text::begins(requested_path(base, requested), base),
        requested_path(base, requested) == base || base.last() == '/' || requested_path(
            base,
            requested,
        )[base.len() as int] == '/',
        paths::is_normal(paths::components(requested_path(base, requested))),
{
    let path = requested_path(base, requested);
    paths::lemma_normalized(base);
    paths::lemma_normalized(paths::joined_path(base, requested));
    let comps = paths::components(path);
    let n = paths::components(base).len() as int;
    assert(comps.take(n) == paths::components(base));
    assert(path == paths::path_text(comps));
    assert(base == paths::path_text(paths::components(base)));
    lemma_path_text_prefix(comps, n);
    if n == comps.len() {
        assert(comps.take(n) =~= comps);
    }
    if n == 0 {
        assert(paths::components(base) =~= Seq::<Seq<char>>::empty());
    }
}

proof fn lemma_resolved_fixed(comps: Seq<Seq<char>>)
    requires
        paths::is_normal(comps),
    ensures
        paths::resolved(comps) == comps,
    decreases comps.len(),
{
    if comps.len() > 0 {
        lemma_normal_take(comps, comps.len() - 1);
        assert(comps.take(comps.len() - 1) =~= comps.drop_last());
        lemma_resolved_fixed(comps.drop_last());
        assert(comps[comps.len() - 1] == comps.last());
        assert(paths::root()[0] == '/');
        assert(paths::dot()[0] == '.');
        assert(paths::dot_dot()[0] == '.');
        assert(comps.drop_last().push(comps.last()) =~= comps);
    } else {
        assert(comps =~= Seq::<Seq<char>>::empty());
    }
}

/// An ordinary request is served: a name below `/data` reaches the file of that name in the
/// data directory.
pub proof fn law_data_name_reached(base: Seq<char>, name: Seq<char>)
    requires
        base == paths::normalized(base),
        paths::is_rooted(base),
        paths::is_name(name),
    ensures
        lies_in(requested_path(base, mapped_path("/data/"@ + name, base)), base),
        paths::components(requested_path(base, mapped_path("/data/"@ + name, base))) == paths::components(
            base,
        ).push(name),
{
    let asked = "/data/"@ + name;
    reveal_strlit("/data/");
    reveal_strlit("/data");
    reveal_strlit("/");
    assert(asked.len() > "/data"@.len());
    assert(asked.subrange(0, "/data/"@.len() as int) =~= "/data/"@);
    assert(asked.skip("/data/"@.len() as int) =~= name);
    let mapped = mapped_path(asked, base);
    assert(mapped =~= base.push('/') + name);
    let class = CharClass::Is('/');
    assert forall|i: int| 0 <= i < name.len() implies !class.has(#[trigger] name[i]) by {
        assert(name.contains(name[i]));
    }
    text::lemma_split_one(name, class);
    text::lemma_split_around(base, '/', name, class);
    text::lemma_split_some(base, class);
    assert(paths::segments(mapped) =~= paths::segments(base).push(name));
    assert(paths::segments(mapped).drop_last() =~= paths::segments(base));
    let comps = paths::components(base).push(name);
    assert(mapped[0] == base[0]);
    assert(paths::components(mapped) =~= comps);
    paths::lemma_normalized(base);
    assert forall|k: int| 0 <= k < comps.len() implies {
        ||| k == 0 && #[trigger] comps[k] == paths::root()
        ||| paths::is_name(comps[k])
    } by {
        if k < paths::components(base).len() {
            assert(comps[k] == paths::components(base)[k]);
        }
    }
    lemma_resolved_fixed(comps);
    paths::lemma_normalized(mapped);
    assert(comps.take(paths::components(base).len() as int) =~= paths::components(base));
}

proof fn lemma_moved_name(dir: Seq<char>, name: Seq<char>)
    requires
        dir.len() > 0,
        dir.last() != '/',
        paths::is_name(name),
    ensures
        paths::file_name(dir + "/"@ + name) == Some(name),
{
    reveal_strlit("/");
    assert("/"@ =~= seq!['/']);
    paths::lemma_segments_below(dir, name);
    let segs = paths::segments(dir + "/"@ + name);
    text::lemma_split_some(dir, CharClass::Is('/'));
    assert(segs.last() == name);
    assert(paths::drop_skipped(segs) == segs);
}

/// A mod that is disabled and enabled again is back where it was.
pub proof fn law_enable_undoes_disable(data_path: Seq<char>, name: Seq<char>)
    requires
        paths::is_name(name),
    ensures
        ({
            let path = mods_dir_spec(data_path) + "/"@ + name;
            &&& moved_to(path, disabled_dir_spec(data_path)) == Some(
                disabled_dir_spec(data_path) + "/"@ + name,
            )
            &&& moved_to(
                disabled_dir_spec(data_path) + "/"@ + name,
                mods_dir_spec(data_path),
            ) == Some(path)
        }),
{
    reveal_strlit("/mods");
    reveal_strlit("/mods/disabled");
    assert(mods_dir_spec(data_path).last() == 's');
    assert(disabled_dir_spec(data_path).last() == 'd');
    lemma_moved_name(mods_dir_spec(data_path), name);
    lemma_moved_name(disabled_dir_spec(data_path), name);
}

/// A file is text by what follows the last dot of its name, in whatever case; where there is no
/// dot, by all of its name.
pub proof fn law_text_by_extension(stem: Seq<char>, ext: Seq<char>)
    requires
        !ext.contains('.'),
    ensures
        ({
            let low = text::ascii_lower(ext);
            let known = low == "properties"@ || low == "json"@ || low == "yml"@ || low == "yaml"@
                || low == "txt"@ || low == "conf"@ || low == "cfg"@ || low == "toml"@ || low
                == "ini"@ || low == "xml"@ || low == "sh"@ || low == "md"@ || low == "env"@ || low
                == "log"@ || low == "csv"@;
            &&& is_text_name(stem + seq!['.'] + ext) <==> known
            &&& is_text_name(ext) <==> known
        }),
{
    let class = CharClass::Is('.');
    let low = text::ascii_lower(ext);
    let name = stem + seq!['.'] + ext;
    assert forall|i: int| 0 <= i < low.len() implies !class.has(#[trigger] low[i]) by {
        assert(ext.contains(ext[i]));
        text::law_lower_case(ext[i]);
    }
    text::law_lower_case('.');
    text::lemma_split_one(low, class);
    text::lemma_split_around(text::ascii_lower(stem), '.', low, class);
    assert(text::ascii_lower(name) =~= text::ascii_lower(stem).push('.') + low);
    assert(extension(name) == low);
    assert(extension(ext) == low);
    let exts = text_exts();
    if exts.contains(low) {
        let k = choose|k: int| 0 <= k < exts.len() && exts[k] == low;
        assert(exts[k] == low);
    }
    assert(exts[0] == "properties"@ && exts[1] == "json"@ && exts[2] == "yml"@ && exts[3]
        == "yaml"@ && exts[4] == "txt"@ && exts[5] == "conf"@ && exts[6] == "cfg"@ && exts[7]
        == "toml"@ && exts[8] == "ini"@ && exts[9] == "xml"@ && exts[10] == "sh"@ && exts[11]
        == "md"@ && exts[12] == "env"@ && exts[13] == "log"@ && exts[14] == "csv"@);
}

/// What a request writes below `/data` is meant below the data directory of the server, and
/// whatever else it writes is taken as it is.
pub proof fn law_data_is_the_directory(rest: Seq<char>, data_path: Seq<char>, other: Seq<char>)
    requires
        !text::begins(other, "/data/"@),
        other != "/data"@,
    ensures
        mapped_path("/data"@, data_path) == data_path,
        mapped_path("/data/"@ + rest, data_path) == data_path + seq!['/'] + rest,
        mapped_path(other, data_path) == other,
{
    reveal_strlit("/data");
    reveal_strlit("/data/");
    reveal_strlit("/");
    let p = "/data/"@ + rest;
    assert(p.len() > "/data"@.len());
    assert(p.subrange(0, "/data/"@.len() as int) =~= "/data/"@);
    assert(p.skip("/data/"@.len() as int) =~= rest);
    assert("/"@ =~= seq!['/']);
}

/// A mod is moved by its own name, wherever it stands, and a path that ends in `..` is no mod.
pub proof fn law_moved_by_name(from: Seq<char>, name: Seq<char>, dir: Seq<char>)
    requires
        paths::is_name(name),
    ensures
        moved_to(from + seq!['/'] + name, dir) == Some(dir + seq!['/'] + name),
        moved_to(from + seq!['/', '.', '.'], dir).is_none(),
        mods_dir_spec(dir) == dir + "/mods"@,
        disabled_dir_spec(dir) == dir + "/mods/disabled"@,
{
    paths::law_file_name(from, name);
    reveal_strlit("/");
    assert("/"@ =~= seq!['/']);
}

/// A request that climbs out of the data directory is refused: the neighbour of the directory is
/// not reached from it.
pub proof fn law_neighbour_is_out_of_reach(base: Seq<char>, name: Seq<char>)
    requires
        base == paths::normalized(base),
        paths::is_rooted(base),
        paths::components(base).len() > 1,
        paths::is_name(name),
        name != paths::components(base).last(),
    ensures
        !lies_in(requested_path(base, mapped_path("/data/../"@ + name, base)), base),
        !lies_in(requested_path(base, "../"@ + name), base),
{
    reveal_strlit("/data/../");
    reveal_strlit("/data/");
    reveal_strlit("/data");
    reveal_strlit("../");
    let asked = "/data/../"@ + name;
    let path = base + seq!['/', '.', '.', '/'] + name;
    let comps = paths::components(base);
    law_data_is_the_directory("../"@ + name, base, Seq::empty());
    assert(asked =~= "/data/"@ + ("../"@ + name));
    assert(base + seq!['/'] + ("../"@ + name) =~= path);
    paths::lemma_normalized(base);
    paths::lemma_normalized(path);
    lemma_resolved_fixed(comps);
    paths::law_up_and_down(base, name);
    assert(path[0] == base[0]);
    assert(comps[comps.len() - 1] == comps.last());
    assert(paths::is_name(comps.last()));
    let last = comps.last();
    assert(base == paths::path_text(comps));
    assert(base.last() == last.last());
    assert(last.contains(last[last.len() - 1]));
    assert(("../"@ + name)[0] == '.');
    let reached = comps.drop_last().push(name);
    assert(reached[comps.len() - 1] == name);
    assert(!paths::begins_with(reached, comps)) by {
        assert(reached.take(comps.len() as int) =~= reached);
    }
}

/// A file is text by its own name, wherever it stands.
pub proof fn law_text_by_name(dir: Seq<char>, name: Seq<char>)
    requires
        paths::is_name(name),
    ensures
        is_text_path_spec(dir + seq!['/'] + name) == is_text_name(name),
        is_text_path_spec(name) == is_text_name(name),
{
    paths::law_file_name(dir, name);
}

/// A text file is shown as it is, from its first character to its last, and of any other file
/// nothing is shown.
pub proof fn law_text_is_shown(dir: Seq<char>, name: Seq<char>, content: Seq<char>)
    requires
        paths::is_name(name),
    ensures
        is_text_name(name) ==> shown_content(dir + seq!['/'] + name, content) == content,
        !is_text_name(name) ==> shown_content(dir + seq!['/'] + name, content).len() == 0,
{
    law_text_by_name(dir, name);
}

proof fn lemma_names_below(base: Seq<char>, names: Seq<Seq<char>>)
    requires
        base.len() > 0,
        names.len() > 0,
        forall|i: int| 0 <= i < names.len() ==> paths::is_name(#[trigger] names[i]),
    ensures
        paths::components(base + seq!['/'] + text::joined(names, seq!['/'])) == paths::components(
            base,
        ) + names,
    decreases names.len(),
{
    let slash = seq!['/'];
    let last = names.last();
    assert(names[names.len() - 1] == last);
    let root = seq!['/'];
    if names.len() == 1 {
        assert(text::joined(names, slash) == names[0]);
        paths::law_name_below(base, last, root);
        assert(paths::components(base).push(last) =~= paths::components(base) + names);
    } else {
        let init = names.drop_last();
        assert forall|i: int| 0 <= i < init.len() implies paths::is_name(#[trigger] init[i]) by {
            assert(init[i] == names[i]);
        }
        lemma_names_below(base, init);
        let above = base + slash + text::joined(init, slash);
        paths::law_name_below(above, last, root);
        assert(base + slash + text::joined(names, slash) =~= above + slash + last);
        assert((paths::components(base) + init).push(last) =~= paths::components(base) + names);
    }
}

/// A path of names below `/data`, however long it is, reaches the file of that path in the data
/// directory.
pub proof fn law_data_path_reached(base: Seq<char>, names: Seq<Seq<char>>)
    requires
        base == paths::normalized(base),
        paths::is_rooted(base),
        names.len() > 0,
        forall|i: int| 0 <= i < names.len() ==> paths::is_name(#[trigger] names[i]),
    ensures
        ({
            let asked = "/data/"@ + text::joined(names, seq!['/']);
            let path = requested_path(base, mapped_path(asked, base));
            &&& lies_in(path, base)
            &&& paths::components(path) == paths::components(base) + names
        }),
{
    let rest = text::joined(names, seq!['/']);
    reveal_strlit("/data/");
    reveal_strlit("/data");
    law_data_is_the_directory(rest, base, Seq::empty());
    lemma_names_below(base, names);
    let mapped = base + seq!['/'] + rest;
    assert(mapped[0] == base[0]);
    let front = paths::components(base);
    let comps = front + names;
    paths::lemma_normalized(base);
    assert forall|k: int| 0 <= k < comps.len() implies {
        ||| k == 0 && #[trigger] comps[k] == paths::root()
        ||| paths::is_name(comps[k])
    } by {
        if k < front.len() {
            assert(comps[k] == front[k]);
        } else {
            assert(comps[k] == names[k - front.len()]);
        }
    }
    lemma_resolved_fixed(comps);
    paths::lemma_normalized(mapped);
    assert(comps.take(front.len() as int) =~= front);
}

/// What a request reaches is the normal form of its path as seen from the data directory, and it
/// lies in a directory where it goes on from all the components of that directory.
pub proof fn law_reach(base: Seq<char>, requested: Seq<char>, path: Seq<char>)
    ensures
        requested_path(base, requested) == paths::normalized(paths::joined_path(base, requested)),
        lies_in(path, base) <==> exists|rest: Seq<Seq<char>>|
            paths::components(path) == #[trigger] (paths::components(base) + rest),
{
    let (all, front) = (paths::components(path), paths::components(base));
    let n = front.len() as int;
    if lies_in(path, base) {
        assert(all =~= front + all.skip(n));
    }
    if exists|rest: Seq<Seq<char>>| all == #[trigger] (front + rest) {
        let rest = choose|rest: Seq<Seq<char>>| all == #[trigger] (front + rest);
        assert((front + rest).take(n) =~= front);
    }
}

} // verus!
