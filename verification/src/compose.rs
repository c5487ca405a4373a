//! The compose file of a server: the template that it is made from, and what is read back
//! from one that is there.
use vstd::prelude::*;

use crate::numbers;
use crate::registry;
use crate::registry::CreateRequest;
use crate::registry::CreateRequestView;
use crate::registry::ServerDef;
use crate::registry::ServerDefView;
use crate::text;
use crate::text::CharClass;

verus! {

/// The script `gpu.sh`, which prepares a container for OpenCL before the server starts.
pub const GPU_SH: &'static str = r#"#!/bin/sh
# Install OpenCL support for NVIDIA GPUs
apt-get update && apt-get install -y \
    ocl-icd-libopencl1 \
    opencl-headers \
    clinfo \
    && rm -rf /var/lib/apt/lists/*

mkdir -p /etc/OpenCL/vendors && \
    echo "libnvidia-opencl.so.1" > /etc/OpenCL/vendors/nvidia.icd
"#;

// ── Template ──────────────────────────────────────────────────────────────

/// The text, or the default where there is none.
pub open spec fn or_default(s: Option<Seq<char>>, default: Seq<char>) -> Seq<char> {
    match s {
        Some(t) => t,
        None => default,
    }
}

/// The lines before the GPU settings.
pub open spec fn head_lines(def: ServerDefView) -> Seq<Seq<char>> {
    seq![
        "services:"@,
        "  "@ + registry::slug(def.name) + ":"@,
        "    image: itzg/minecraft-server"@,
        "    container_name: "@ + def.container_name,
    ]
}

/// The lines that give the container the GPU and run `gpu.sh` before the server.
pub open spec fn gpu_lines(opencl: bool) -> Seq<Seq<char>> {
    if opencl {
        seq![
            "    runtime: nvidia"@,
            "    entrypoint: [\"/bin/bash\", \"-c\", \"bash /data/gpu.sh && exec /start\"]"@,
            "    deploy:"@,
            "      resources:"@,
            "        reservations:"@,
            "          devices:"@,
            "            - driver: nvidia"@,
            "              count: 1"@,
            "              capabilities: [gpu]"@,
        ]
    } else {
        Seq::empty()
    }
}

/// The line of an environment variable with its value in quotes.
pub open spec fn env_line(key: Seq<char>, value: Seq<char>) -> Seq<char> {
    "      "@ + key + ": \""@ + value + "\""@
}

/// The lines of the environment that every server has.
pub open spec fn env_lines(def: ServerDefView, req: CreateRequestView) -> Seq<Seq<char>> {
    seq![
        "    stdin_open: true"@,
        "    environment:"@,
        "      EULA: \"true\""@,
        env_line("TYPE"@, or_default(req.server_type, "FABRIC"@)),
        env_line("VERSION"@, or_default(req.version, "LATEST"@)),
        env_line("MAX_MEMORY"@, or_default(req.memory, "2G"@)),
        "      ENABLE_RCON: \"true\""@,
        "      RCON_PASSWORD: \"changeme\""@,
        "      DIFFICULTY: \"normal\""@,
        "      MODE: \"survival\""@,
        "      MOTD: \"A Minecraft Server\""@,
        "      AUTOPAUSE_ENABLED: \"false\""@,
        "      MAX_TICK_TIME: \"-1\""@,
        env_line("SERVER_PORT"@, numbers::digits(def.port as nat)),
    ]
}

/// The lines of the environment that the GPU needs.
pub open spec fn nvidia_lines(opencl: bool) -> Seq<Seq<char>> {
    if opencl {
        seq![
            "      NVIDIA_VISIBLE_DEVICES: all"@,
            "      NVIDIA_DRIVER_CAPABILITIES: compute,utility,graphics,video"@,
        ]
    } else {
        Seq::empty()
    }
}

/// The lines of ports and volumes.
pub open spec fn tail_lines(def: ServerDefView) -> Seq<Seq<char>> {
    let port = numbers::digits(def.port as nat);
    seq![
        "    ports:"@,
        "      - \""@ + port + ":"@ + port + "\""@,
        "    volumes:"@,
        "      - "@ + def.data_path + ":/data"@,
        "    restart: unless-stopped"@,
    ]
}

/// The lines of the compose file of a server.
pub open spec fn compose_lines(def: ServerDefView, req: CreateRequestView) -> Seq<Seq<char>> {
    let opencl = req.opencl_enabled == Some(true);
    head_lines(def) + gpu_lines(opencl) + env_lines(def, req) + nvidia_lines(opencl) + tail_lines(
        def,
    )
}

/// The compose file of a server.
pub open spec fn compose_text(def: ServerDefView, req: CreateRequestView) -> Seq<char> {
    text::unlines(compose_lines(def, req))
}

fn gpu_block(opencl: bool) -> (r: Vec<String>)
    ensures
        text::views(r@) == gpu_lines(opencl),
{
    if opencl {
        let lines = vec![
            "    runtime: nvidia".to_owned(),
            "    entrypoint: [\"/bin/bash\", \"-c\", \"bash /data/gpu.sh && exec /start\"]".to_owned(),
            "    deploy:".to_owned(),
            "      resources:".to_owned(),
            "        reservations:".to_owned(),
            "          devices:".to_owned(),
            "            - driver: nvidia".to_owned(),
            "              count: 1".to_owned(),
            "              capabilities: [gpu]".to_owned(),
        ];
        proof {
            assert(text::views(lines@) =~= gpu_lines(opencl));
        }
        lines
    } else {
        let lines: Vec<String> = Vec::new();
        proof {
            assert(text::views(lines@) =~= gpu_lines(opencl));
        }
        lines
    }
}

fn nvidia_block(opencl: bool) -> (r: Vec<String>)
    ensures
        text::views(r@) == nvidia_lines(opencl),
{
    if opencl {
        let lines = vec![
            "      NVIDIA_VISIBLE_DEVICES: all".to_owned(),
            "      NVIDIA_DRIVER_CAPABILITIES: compute,utility,graphics,video".to_owned(),
        ];
        proof {
            assert(text::views(lines@) =~= nvidia_lines(opencl));
        }
        lines
    } else {
        let lines: Vec<String> = Vec::new();
        proof {
            assert(text::views(lines@) =~= nvidia_lines(opencl));
        }
        lines
    }
}

fn env_entry(key: &str, value: &str) -> (r: String)
    ensures
        r@ == env_line(key@, value@),
{
    let mut out = text::cat3("      ", key, ": \"");
    out.push_str(value);
    out.push_str("\"");
    out
}

fn value_or(s: &Option<String>, default: &str) -> (r: String)
    ensures
        r@ == or_default(text::opt_view(*s), default@),
{
    match s {
        Some(t) => t.clone(),
        None => default.to_owned(),
    }
}

fn env_block(def: &ServerDef, req: &CreateRequest) -> (r: Vec<String>)
    ensures
        text::views(r@) == env_lines(def@, req@),
{
    let lines = vec![
        "    stdin_open: true".to_owned(),
        "    environment:".to_owned(),
        "      EULA: \"true\"".to_owned(),
        env_entry("TYPE", value_or(&req.server_type, "FABRIC").as_str()),
        env_entry("VERSION", value_or(&req.version, "LATEST").as_str()),
        env_entry("MAX_MEMORY", value_or(&req.memory, "2G").as_str()),
        "      ENABLE_RCON: \"true\"".to_owned(),
        "      RCON_PASSWORD: \"changeme\"".to_owned(),
        "      DIFFICULTY: \"normal\"".to_owned(),
        "      MODE: \"survival\"".to_owned(),
        "      MOTD: \"A Minecraft Server\"".to_owned(),
        "      AUTOPAUSE_ENABLED: \"false\"".to_owned(),
        "      MAX_TICK_TIME: \"-1\"".to_owned(),
        env_entry("SERVER_PORT", numbers::decimal(def.port as u64).as_str()),
    ];
    proof {
        assert(text::views(lines@) =~= env_lines(def@, req@));
    }
    lines
}

/// The compose file of a server, as it is written when the server is created.
pub fn generate_compose(def: &ServerDef, req: &CreateRequest) -> (r: String)
    ensures
        r@ == compose_text(def@, req@),
{
    let opencl = match req.opencl_enabled {
        Some(on) => on,
        None => false,
    };
    let svc = registry::sanitize(def.name.as_str());
    let port = numbers::decimal(def.port as u64);
    let head = vec![
        "services:".to_owned(),
        text::cat3("  ", svc.as_str(), ":"),
        "    image: itzg/minecraft-server".to_owned(),
        text::cat("    container_name: ", def.container_name.as_str()),
    ];
    let gpu = gpu_block(opencl);
    let env = env_block(def, req);
    let nvidia = nvidia_block(opencl);
    let mut ports = text::cat3("      - \"", port.as_str(), ":");
    ports.push_str(port.as_str());
    ports.push_str("\"");
    let tail = vec![
        "    ports:".to_owned(),
        ports,
        "    volumes:".to_owned(),
        text::cat3("      - ", def.data_path.as_str(), ":/data"),
        "    restart: unless-stopped".to_owned(),
    ];
    proof {
        assert(text::views(head@) =~= head_lines(def@));
        assert(text::views(tail@) =~= tail_lines(def@));
        let a = head_lines(def@);
        let b = a + gpu_lines(opencl);
        let c = b + env_lines(def@, req@);
        let d = c + nvidia_lines(opencl);
        text::lemma_unlines_concat(a, gpu_lines(opencl));
        text::lemma_unlines_concat(b, env_lines(def@, req@));
        text::lemma_unlines_concat(c, nvidia_lines(opencl));
        text::lemma_unlines_concat(d, tail_lines(def@));
    }
    let mut out = text::unlines_of(&head);
    out.push_str(text::unlines_of(&gpu).as_str());
    out.push_str(text::unlines_of(&env).as_str());
    out.push_str(text::unlines_of(&nvidia).as_str());
    out.push_str(text::unlines_of(&tail).as_str());
    out
}

// ── Reading back ──────────────────────────────────────────────────────────

/// The value that a line gives to the key: what follows the key, without the separators
/// before it and the quotes around it. A line that leaves nothing gives no value.
pub open spec fn env_value(line: Seq<char>, key: Seq<char>) -> Option<Seq<char>> {
    let t = text::trimmed(line);
    if text::begins(t, key) {
        let rest = text::trim_start(t.skip(key.len() as int), CharClass::Assign);
        let value = text::trim_class(rest, CharClass::Is('"'));
        if value.len() > 0 {
            Some(value)
        } else {
            None
        }
    } else {
        None
    }
}

/// The value that the first line with one gives to the key.
pub open spec fn first_value(lines: Seq<Seq<char>>, key: Seq<char>) -> Option<Seq<char>>
    decreases lines.len(),
{
    if lines.len() == 0 {
        None
    } else {
        match env_value(lines[0], key) {
            Some(v) => Some(v),
            None => first_value(lines.drop_first(), key),
        }
    }
}

/// The value of an environment variable in a compose file.
pub open spec fn env_of(compose: Seq<char>, key: Seq<char>) -> Option<Seq<char>> {
    first_value(text::split_at_class(compose, CharClass::Is('\n')), key)
}

fn line_value(line: &str, key: &str) -> (r: Option<String>)
    ensures
        text::opt_view(r) == env_value(line@, key@),
{
    let t = text::trim(line);
    match text::strip_prefix(t.as_str(), key) {
        Some(rest) => {
            let value = text::trim_class_of(
                text::trim_start_of(rest.as_str(), CharClass::Assign).as_str(),
                CharClass::Is('"'),
            );
            if value.as_str().is_empty() {
                None
            } else {
                Some(value)
            }
        },
        None => None,
    }
}

/// The value of an environment variable in a compose file.
pub fn extract_env(compose: &str, key: &str) -> (r: Option<String>)
    ensures
        text::opt_view(r) == env_of(compose@, key@),
{
    let lines = text::split(compose, CharClass::Is('\n'));
    let ghost all = text::views(lines@);
    let mut i: usize = 0;
    proof {
        assert(all.skip(0) =~= all);
    }
    while i < lines.len()
        invariant
            i <= lines.len(),
            all == text::views(lines@),
            all == text::split_at_class(compose@, CharClass::Is('\n')),
            first_value(all, key@) == first_value(all.skip(i as int), key@),
        decreases lines.len() - i,
    {
        proof {
            assert(all.skip(i as int)[0] == lines@[i as int]@);
            assert(all.skip(i as int).drop_first() =~= all.skip(i + 1));
        }
        let value = line_value(lines[i].as_str(), key);
        if value.is_some() {
            return value;
        }
        i += 1;
    }
    None
}

/// The request that a server would be created with again: its type, version and memory as
/// the compose file has them.
pub open spec fn request_again(def: ServerDefView, existing: Seq<char>) -> CreateRequestView {
    CreateRequestView {
        name: def.name,
        port: Some(def.port),
        server_type: Some(or_default(env_of(existing, "TYPE"@), "FABRIC"@)),
        version: Some(or_default(env_of(existing, "VERSION"@), "LATEST"@)),
        memory: Some(or_default(env_of(existing, "MAX_MEMORY"@), "2G"@)),
        start_now: None,
        opencl_enabled: Some(def.opencl_enabled),
    }
}

/// The compose file of a server made anew, with the type, version and memory of the file that
/// is there.
pub open spec fn compose_again(def: ServerDefView, existing: Seq<char>) -> Seq<char> {
    compose_text(def, request_again(def, existing))
}

/// The compose file of a server made anew, with the type, version and memory of the file that
/// is there.
pub fn regenerate_compose_for_def(def: &ServerDef, existing: &str) -> (r: String)
    ensures
        r@ == compose_again(def@, existing@),
{
    let req = CreateRequest {
        name: def.name.clone(),
        port: Some(def.port),
        server_type: Some(value_or(&extract_env(existing, "TYPE"), "FABRIC")),
        version: Some(value_or(&extract_env(existing, "VERSION"), "LATEST")),
        memory: Some(value_or(&extract_env(existing, "MAX_MEMORY"), "2G")),
        start_now: None,
        opencl_enabled: Some(def.opencl_enabled),
    };
    generate_compose(def, &req)
}

/// Whether a compose file still looks like one made from the template.
pub open spec fn is_template(compose: Seq<char>) -> bool {
    text::has_text(compose, "AUTOPAUSE_ENABLED"@)
}

/// The compose file made anew, where the one that is there looks like the template. Any other
/// file is left alone.
pub fn regenerate_compose(def: &ServerDef, current: &str) -> (r: Option<String>)
    ensures
        match r {
            Some(compose) => is_template(current@) && compose@ == compose_again(def@, current@),
            None => !is_template(current@),
        },
{
    if text::contains(current, "AUTOPAUSE_ENABLED") {
        Some(regenerate_compose_for_def(def, current))
    } else {
        None
    }
}

// ── Laws ──────────────────────────────────────────────────────────────────

/// Whether a value can be read back from the quotes that it was written in: it is not empty,
/// keeps to one line, and is not cut where separators and quotes are taken off.
pub open spec fn is_plain_value(v: Seq<char>) -> bool {
    &&& v.len() > 0
    &&& !v.contains('\n')
    &&& !CharClass::Assign.has(v[0])
    &&& v.last() != '"'
}

/// A line whose first character is not that of the name gives no value.
pub proof fn lemma_other_line(line: Seq<char>, n: int, key: Seq<char>)
    requires
        0 <= n < line.len(),
        forall|i: int| 0 <= i < n ==> #[trigger] line[i] == ' ',
        !text::is_white(line[n]),
        key.len() > 0,
        line[n] != key[0],
    ensures
        env_value(line, key).is_none(),
{
    text::lemma_trim_first(line, CharClass::White, n);
    let t = text::trimmed(line);
    if text::begins(t, key) {
        assert(t.subrange(0, key.len() as int)[0] == key[0]);
    }
}

/// The line of a variable gives its value.
pub proof fn lemma_env_line(key: Seq<char>, v: Seq<char>)
    requires
        key.len() > 0,
        !text::is_white(key[0]),
        is_plain_value(v),
    ensures
        env_value(env_line(key, v), key) == Some(v),
{
    reveal_strlit("      ");
    reveal_strlit(": \"");
    reveal_strlit("\"");
    let line = env_line(key, v);
    let n = line.len() as int;
    let m = key.len() as int;
    assert(line[6] == key[0]);
    assert(line[n - 1] == '"');
    text::lemma_trim_around(line, CharClass::White, 6, n);
    let t = line.subrange(6, n);
    assert(text::trimmed(line) == t);
    assert(t.subrange(0, m) =~= key);
    let rest = t.skip(m);
    assert(rest[0] == ':' && rest[1] == ' ' && rest[2] == '"');
    assert(rest[3] == v[0]);
    text::lemma_trim_start_at(rest, CharClass::Assign, 3);
    let quoted = rest.skip(3);
    assert(quoted =~= v.push('"'));
    text::lemma_trim_around(quoted, CharClass::Is('"'), 0, v.len() as int);
    assert(quoted.subrange(0, v.len() as int) =~= v);
}

proof fn lemma_first_value_behind(front: Seq<Seq<char>>, rest: Seq<Seq<char>>, key: Seq<char>)
    requires
        forall|k: int| 0 <= k < front.len() ==> env_value(#[trigger] front[k], key).is_none(),
    ensures
        first_value(front + rest, key) == first_value(rest, key),
    decreases front.len(),
{
    if front.len() == 0 {
        assert(front + rest =~= rest);
    } else {
        let tail = front.drop_first();
        assert forall|k: int| 0 <= k < tail.len() implies env_value(
            #[trigger] tail[k],
            key,
        ).is_none() by {
            assert(tail[k] == front[k + 1]);
        }
        lemma_first_value_behind(tail, rest, key);
        assert((front + rest).drop_first() =~= tail + rest);
        assert((front + rest)[0] == front[0]);
        assert(env_value(front[0], key).is_none());
    }
}

/// Whether a key begins with a letter that no line before the values begins with.
spec fn is_value_key(key: Seq<char>) -> bool {
    key.len() > 0 && (key[0] == 'T' || key[0] == 'V' || key[0] == 'M' || key[0] == 'S')
}

/// Whether a line gives the variable no value.
pub open spec fn passes(line: Seq<char>, key: Seq<char>) -> bool {
    !line.contains('\n') && env_value(line, key).is_none()
}

proof fn lemma_head_passes(def: ServerDefView, key: Seq<char>)
    requires
        is_value_key(key),
        !def.container_name.contains('\n'),
    ensures
        forall|k: int| 0 <= k < 4 ==> passes(#[trigger] head_lines(def)[k], key),
{
    reveal_strlit("services:");
    reveal_strlit("  ");
    reveal_strlit(":");
    reveal_strlit("    image: itzg/minecraft-server");
    reveal_strlit("    container_name: ");
    let lines = head_lines(def);
    registry::law_slug(def.name);
    let s = registry::slug(def.name);
    assert(passes(lines[0], key)) by {
        lemma_other_line(lines[0], 0, key);
    }
    assert(passes(lines[1], key)) by {
        if s.len() > 0 {
            assert(lines[1][2] == s[0]);
            assert(registry::is_slug_char(s[0]));
            lemma_other_line(lines[1], 2, key);
        } else {
            assert(lines[1][2] == ':');
            lemma_other_line(lines[1], 2, key);
        }
        assert forall|i: int| 0 <= i < lines[1].len() implies lines[1][i] != '\n' by {
            if 2 <= i < 2 + s.len() {
                assert(lines[1][i] == s[i - 2]);
            }
        }
    }
    assert(passes(lines[2], key)) by {
        lemma_other_line(lines[2], 4, key);
    }
    assert(passes(lines[3], key)) by {
        assert(lines[3][4] == 'c');
        lemma_other_line(lines[3], 4, key);
        assert forall|i: int| 0 <= i < lines[3].len() implies lines[3][i] != '\n' by {
            if 20 <= i {
                assert(lines[3][i] == def.container_name[i - 20]);
                assert(def.container_name.contains(def.container_name[i - 20]));
            }
        }
    }
}

proof fn lemma_gpu_passes(opencl: bool, key: Seq<char>)
    requires
        is_value_key(key),
    ensures
        forall|k: int|
            0 <= k < gpu_lines(opencl).len() ==> passes(#[trigger] gpu_lines(opencl)[k], key),
{
    if opencl {
        let lines = gpu_lines(opencl);
        assert(passes(lines[0], key)) by {
            reveal_strlit("    runtime: nvidia");
            lemma_other_line(lines[0], 4, key);
        }
        assert(passes(lines[1], key)) by {
            reveal_strlit(
                "    entrypoint: [\"/bin/bash\", \"-c\", \"bash /data/gpu.sh && exec /start\"]",
            );
            lemma_other_line(lines[1], 4, key);
        }
        assert(passes(lines[2], key)) by {
            reveal_strlit("    deploy:");
            lemma_other_line(lines[2], 4, key);
        }
        assert(passes(lines[3], key)) by {
            reveal_strlit("      resources:");
            lemma_other_line(lines[3], 6, key);
        }
        assert(passes(lines[4], key)) by {
            reveal_strlit("        reservations:");
            lemma_other_line(lines[4], 8, key);
        }
        assert(passes(lines[5], key)) by {
            reveal_strlit("          devices:");
            lemma_other_line(lines[5], 10, key);
        }
        assert(passes(lines[6], key)) by {
            reveal_strlit("            - driver: nvidia");
            lemma_other_line(lines[6], 12, key);
        }
        assert(passes(lines[7], key)) by {
            reveal_strlit("              count: 1");
            lemma_other_line(lines[7], 14, key);
        }
        assert(passes(lines[8], key)) by {
            reveal_strlit("              capabilities: [gpu]");
            lemma_other_line(lines[8], 14, key);
        }
    }
}

proof fn lemma_env_passes(def: ServerDefView, req: CreateRequestView, key: Seq<char>)
    requires
        is_value_key(key),
    ensures
        forall|k: int| 0 <= k < 3 ==> passes(#[trigger] env_lines(def, req)[k], key),
{
    let lines = env_lines(def, req);
    assert(passes(lines[0], key)) by {
        reveal_strlit("    stdin_open: true");
        lemma_other_line(lines[0], 4, key);
    }
    assert(passes(lines[1], key)) by {
        reveal_strlit("    environment:");
        lemma_other_line(lines[1], 4, key);
    }
    assert(passes(lines[2], key)) by {
        reveal_strlit("      EULA: \"true\"");
        lemma_other_line(lines[2], 6, key);
    }
}

/// The line of a variable keeps to one line, and gives no value to a variable with another first
/// letter.
pub proof fn lemma_value_line(name: Seq<char>, v: Seq<char>, key: Seq<char>)
    requires
        name.len() > 0,
        !text::is_white(name[0]),
        !name.contains('\n'),
        !v.contains('\n'),
    ensures
        !env_line(name, v).contains('\n'),
        key.len() > 0 && key[0] != name[0] ==> passes(env_line(name, v), key),
{
    reveal_strlit("      ");
    reveal_strlit(": \"");
    reveal_strlit("\"");
    let line = env_line(name, v);
    assert(line[6] == name[0]);
    let m = name.len() as int;
    assert forall|i: int| 0 <= i < line.len() implies line[i] != '\n' by {
        if 6 <= i < 6 + m {
            assert(line[i] == name[i - 6]);
            assert(name.contains(name[i - 6]));
        } else if 9 + m <= i < line.len() - 1 {
            assert(line[i] == v[i - 9 - m]);
            assert(v.contains(v[i - 9 - m]));
        }
    }
    if key.len() > 0 && key[0] != name[0] {
        lemma_other_line(line, 6, key);
    }
}

/// A value is found behind lines that give none.
pub proof fn lemma_found(
    front: Seq<Seq<char>>,
    name: Seq<char>,
    v: Seq<char>,
    rest: Seq<Seq<char>>,
)
    requires
        forall|k: int| 0 <= k < front.len() ==> passes(#[trigger] front[k], name),
        name.len() > 0,
        !text::is_white(name[0]),
        !name.contains('\n'),
        is_plain_value(v),
    ensures
        env_of(text::unlines(front.push(env_line(name, v)) + rest), name) == Some(v),
{
    let line = env_line(name, v);
    let lines = front.push(line);
    lemma_value_line(name, v, name);
    assert forall|k: int| 0 <= k < lines.len() implies !(#[trigger] lines[k]).contains('\n') by {
        if k < front.len() {
            assert(passes(front[k], name));
        }
    }
    text::lemma_unlines_concat(lines, rest);
    text::lemma_split_unlines(lines, text::unlines(rest));
    let more = text::split_at_class(text::unlines(rest), CharClass::Is('\n'));
    assert(lines + more =~= front + (seq![line] + more));
    assert forall|k: int| 0 <= k < front.len() implies env_value(
        #[trigger] front[k],
        name,
    ).is_none() by {
        assert(passes(front[k], name));
    }
    lemma_first_value_behind(front, seq![line] + more, name);
    assert((seq![line] + more)[0] == line);
    lemma_env_line(name, v);
}

/// Type, version and memory are read back from a compose file as they were written to it.
pub proof fn law_values_read_back(def: ServerDefView, req: CreateRequestView)
    requires
        !def.container_name.contains('\n'),
        is_plain_value(or_default(req.server_type, "FABRIC"@)),
        is_plain_value(or_default(req.version, "LATEST"@)),
        is_plain_value(or_default(req.memory, "2G"@)),
    ensures
        env_of(compose_text(def, req), "TYPE"@) == Some(or_default(req.server_type, "FABRIC"@)),
        env_of(compose_text(def, req), "VERSION"@) == Some(or_default(req.version, "LATEST"@)),
        env_of(compose_text(def, req), "MAX_MEMORY"@) == Some(or_default(req.memory, "2G"@)),
{
    reveal_strlit("TYPE");
    reveal_strlit("VERSION");
    reveal_strlit("MAX_MEMORY");
    let opencl = req.opencl_enabled == Some(true);
    let (t, v, m) = (
        or_default(req.server_type, "FABRIC"@),
        or_default(req.version, "LATEST"@),
        or_default(req.memory, "2G"@),
    );
    let all = compose_lines(def, req);
    let n = 7 + gpu_lines(opencl).len() as int;
    assert forall|key: Seq<char>, k: int|
        is_value_key(key) && 0 <= k < n implies #[trigger] passes(all[k], key) by {
        lemma_head_passes(def, key);
        lemma_gpu_passes(opencl, key);
        lemma_env_passes(def, req, key);
        if k < 4 {
            assert(all[k] == head_lines(def)[k]);
        } else if k < n - 3 {
            assert(all[k] == gpu_lines(opencl)[k - 4]);
        } else {
            assert(all[k] == env_lines(def, req)[k - n + 3]);
        }
    }
    lemma_three_values(all, n, t, v, m);
}

proof fn lemma_three_values(
    all: Seq<Seq<char>>,
    n: int,
    t: Seq<char>,
    v: Seq<char>,
    m: Seq<char>,
)
    requires
        0 <= n,
        n + 3 <= all.len(),
        forall|key: Seq<char>, k: int|
            is_value_key(key) && 0 <= k < n ==> #[trigger] passes(all[k], key),
        all[n] == env_line("TYPE"@, t),
        all[n + 1] == env_line("VERSION"@, v),
        all[n + 2] == env_line("MAX_MEMORY"@, m),
        is_plain_value(t),
        is_plain_value(v),
        is_plain_value(m),
    ensures
        env_of(text::unlines(all), "TYPE"@) == Some(t),
        env_of(text::unlines(all), "VERSION"@) == Some(v),
        env_of(text::unlines(all), "MAX_MEMORY"@) == Some(m),
{
    reveal_strlit("TYPE");
    reveal_strlit("VERSION");
    reveal_strlit("MAX_MEMORY");
    lemma_value_line("TYPE"@, t, "VERSION"@);
    lemma_value_line("TYPE"@, t, "MAX_MEMORY"@);
    lemma_value_line("VERSION"@, v, "MAX_MEMORY"@);
    assert(is_value_key("TYPE"@) && is_value_key("VERSION"@) && is_value_key("MAX_MEMORY"@));
    assert(all =~= all.take(n).push(all[n]) + all.skip(n + 1));
    lemma_found(all.take(n), "TYPE"@, t, all.skip(n + 1));
    assert(all =~= all.take(n + 1).push(all[n + 1]) + all.skip(n + 2));
    lemma_found(all.take(n + 1), "VERSION"@, v, all.skip(n + 2));
    assert(all =~= all.take(n + 2).push(all[n + 2]) + all.skip(n + 3));
    lemma_found(all.take(n + 2), "MAX_MEMORY"@, m, all.skip(n + 3));
}

/// A compose file made anew keeps the type, version and memory of the one that it replaces,
/// and is otherwise that of the definition as it now is.
pub proof fn law_again_keeps_values(
    def: ServerDefView,
    req: CreateRequestView,
    later: ServerDefView,
)
    requires
        !def.container_name.contains('\n'),
        is_plain_value(or_default(req.server_type, "FABRIC"@)),
        is_plain_value(or_default(req.version, "LATEST"@)),
        is_plain_value(or_default(req.memory, "2G"@)),
    ensures
        compose_again(later, compose_text(def, req)) == compose_text(
            later,
            CreateRequestView { opencl_enabled: Some(later.opencl_enabled), ..req },
        ),
{
    law_values_read_back(def, req);
    let again = request_again(later, compose_text(def, req));
    let kept = CreateRequestView { opencl_enabled: Some(later.opencl_enabled), ..req };
    assert(compose_lines(later, again) == compose_lines(later, kept));
}

/// A compose file that is made anew with GPU support and then without is as it was before.
pub proof fn law_gpu_support_is_undone(def: ServerDefView, req: CreateRequestView)
    requires
        !def.container_name.contains('\n'),
        is_plain_value(or_default(req.server_type, "FABRIC"@)),
        is_plain_value(or_default(req.version, "LATEST"@)),
        is_plain_value(or_default(req.memory, "2G"@)),
        req.opencl_enabled != Some(true),
    ensures
        ({
            let with = ServerDefView { opencl_enabled: true, ..def };
            let without = ServerDefView { opencl_enabled: false, ..def };
            let before = compose_text(def, req);
            compose_again(without, compose_again(with, before)) == before
        }),
{
    let with = ServerDefView { opencl_enabled: true, ..def };
    let without = ServerDefView { opencl_enabled: false, ..def };
    let gpu = CreateRequestView { opencl_enabled: Some(true), ..req };
    law_again_keeps_values(def, req, with);
    law_again_keeps_values(with, gpu, without);
    assert(compose_lines(without, CreateRequestView { opencl_enabled: Some(false), ..gpu })
        == compose_lines(def, req));
}

/// Every compose file made from the template is known as one.
pub proof fn law_template_is_known(def: ServerDefView, req: CreateRequestView)
    ensures
        is_template(compose_text(def, req)),
{
    reveal_strlit("      AUTOPAUSE_ENABLED: \"false\"");
    reveal_strlit("AUTOPAUSE_ENABLED");
    let opencl = req.opencl_enabled == Some(true);
    let lines = compose_lines(def, req);
    let k = 4 + gpu_lines(opencl).len() as int + 11;
    let line = "      AUTOPAUSE_ENABLED: \"false\""@;
    assert(lines[k] == env_lines(def, req)[11]);
    assert(line.subrange(6, 23) =~= "AUTOPAUSE_ENABLED"@);
    assert(text::occurs_at(line, "AUTOPAUSE_ENABLED"@, 6));
    text::lemma_unlines_has(lines, k, "AUTOPAUSE_ENABLED"@);
}

/// Whether a compose file publishes a port of the host for one of the container: the mapping is
/// the one entry between the heads of the ports and of the volumes.
pub open spec fn publishes(compose: Seq<char>, host: Seq<char>, inner: Seq<char>) -> bool {
    text::has_lines(
        compose,
        seq!["    ports:"@, "      - \""@ + host + ":"@ + inner + "\""@, "    volumes:"@],
    )
}

/// Whether a compose file gives an environment variable that value, in quotes.
pub open spec fn gives(compose: Seq<char>, key: Seq<char>, value: Seq<char>) -> bool {
    text::has_lines(compose, seq!["      "@ + key + ": \""@ + value + "\""@])
}

/// A server is reached by the port of its definition: the host publishes that port, forwards it
/// to the same port of the container, and the server is told to listen on it. All three numbers
/// are written so that they read back as the port, and nothing else is published.
pub proof fn law_port_is_published(def: ServerDefView, req: CreateRequestView)
    ensures
        exists|host: Seq<char>, inner: Seq<char>| #[trigger]
            publishes(compose_text(def, req), host, inner) && numbers::parsed(host, 65535) == Some(
                def.port as nat,
            ) && numbers::parsed(inner, 65535) == Some(def.port as nat),
        exists|value: Seq<char>| #[trigger]
            gives(compose_text(def, req), "SERVER_PORT"@, value) && numbers::parsed(value, 65535)
                == Some(def.port as nat),
{
    let d = numbers::digits(def.port as nat);
    numbers::law_decimal_reads_back(def.port as nat, 65535);
    let lines = compose_lines(def, req);
    let n = lines.len() as int;
    text::lemma_has_lines(lines, n - 5, n - 2);
    assert(lines[n - 5] == tail_lines(def)[0]);
    assert(lines[n - 4] == tail_lines(def)[1]);
    assert(lines[n - 3] == tail_lines(def)[2]);
    assert(lines.subrange(n - 5, n - 2) =~= seq![
        "    ports:"@,
        "      - \""@ + d + ":"@ + d + "\""@,
        "    volumes:"@,
    ]);
    assert(publishes(compose_text(def, req), d, d));
    let k = 17 + gpu_lines(req.opencl_enabled == Some(true)).len() as int;
    text::lemma_has_lines(lines, k, k + 1);
    assert(lines[k] == env_lines(def, req)[13]);
    assert(lines.subrange(k, k + 1) =~= seq![env_line("SERVER_PORT"@, d)]);
    assert(gives(compose_text(def, req), "SERVER_PORT"@, d));
}

/// The port that a server listens on is read back from its compose file, whatever else stands
/// there; so the files of definitions with two ports are two.
pub proof fn law_port_reads_back(def: ServerDefView, req: CreateRequestView)
    requires
        !def.container_name.contains('\n'),
        !or_default(req.server_type, "FABRIC"@).contains('\n'),
        !or_default(req.version, "LATEST"@).contains('\n'),
        !or_default(req.memory, "2G"@).contains('\n'),
    ensures
        env_of(compose_text(def, req), "SERVER_PORT"@) matches Some(v) && numbers::parsed(v, 65535)
            == Some(def.port as nat),
{
    reveal_strlit("SERVER_PORT");
    reveal_strlit("TYPE");
    reveal_strlit("VERSION");
    reveal_strlit("MAX_MEMORY");
    let key = "SERVER_PORT"@;
    let d = numbers::digits(def.port as nat);
    numbers::law_decimal_reads_back(def.port as nat, 65535);
    let opencl = req.opencl_enabled == Some(true);
    let all = compose_lines(def, req);
    let env = env_lines(def, req);
    let n = 7 + gpu_lines(opencl).len() as int;
    lemma_head_passes(def, key);
    lemma_gpu_passes(opencl, key);
    lemma_env_passes(def, req, key);
    lemma_value_line("TYPE"@, or_default(req.server_type, "FABRIC"@), key);
    lemma_value_line("VERSION"@, or_default(req.version, "LATEST"@), key);
    lemma_value_line("MAX_MEMORY"@, or_default(req.memory, "2G"@), key);
    assert(passes(env[6], key)) by {
        reveal_strlit("      ENABLE_RCON: \"true\"");
        lemma_other_line(env[6], 6, key);
    }
    assert(passes(env[7], key)) by {
        reveal_strlit("      RCON_PASSWORD: \"changeme\"");
        lemma_other_line(env[7], 6, key);
    }
    assert(passes(env[8], key)) by {
        reveal_strlit("      DIFFICULTY: \"normal\"");
        lemma_other_line(env[8], 6, key);
    }
    assert(passes(env[9], key)) by {
        reveal_strlit("      MODE: \"survival\"");
        lemma_other_line(env[9], 6, key);
    }
    assert(passes(env[10], key)) by {
        reveal_strlit("      MOTD: \"A Minecraft Server\"");
        lemma_other_line(env[10], 6, key);
    }
    assert(passes(env[11], key)) by {
        reveal_strlit("      AUTOPAUSE_ENABLED: \"false\"");
        lemma_other_line(env[11], 6, key);
    }
    assert(passes(env[12], key)) by {
        reveal_strlit("      MAX_TICK_TIME: \"-1\"");
        lemma_other_line(env[12], 6, key);
    }
    let front = all.take(n + 10);
    assert forall|k: int| 0 <= k < front.len() implies passes(#[trigger] front[k], key) by {
        if k < 4 {
            assert(all[k] == head_lines(def)[k]);
        } else if k < n - 3 {
            assert(all[k] == gpu_lines(opencl)[k - 4]);
        } else {
            assert(all[k] == env[k - n + 3]);
        }
    }
    assert(all[n + 10] == env[13]);
    assert(all =~= front.push(env_line(key, d)) + all.skip(n + 11));
    lemma_digits_are_plain(def.port as nat);
    lemma_found(front, key, d, all.skip(n + 11));
}

/// A number can be read back from the quotes that it was written in.
pub proof fn lemma_digits_are_plain(n: nat)
    ensures
        is_plain_value(numbers::digits(n)),
{
    numbers::law_decimal_reads_back(n, n);
    let d = numbers::digits(n);
    assert(d.last() == d[d.len() - 1]);
}

/// The head of a compose file names the service after the server and the container as the
/// definition does, and runs the server image. The GPU settings follow if they were asked for,
/// and only then.
pub proof fn law_service_is_named(def: ServerDefView, req: CreateRequestView)
    ensures
        req.opencl_enabled != Some(true) ==> text::has_lines(
            compose_text(def, req),
            seq![
                "services:"@,
                "  "@ + registry::slug(def.name) + ":"@,
                "    image: itzg/minecraft-server"@,
                "    container_name: "@ + def.container_name,
                "    stdin_open: true"@,
                "    environment:"@,
            ],
        ),
        req.opencl_enabled == Some(true) ==> text::has_lines(
            compose_text(def, req),
            seq![
                "services:"@,
                "  "@ + registry::slug(def.name) + ":"@,
                "    image: itzg/minecraft-server"@,
                "    container_name: "@ + def.container_name,
                "    runtime: nvidia"@,
                "    entrypoint: [\"/bin/bash\", \"-c\", \"bash /data/gpu.sh && exec /start\"]"@,
                "    deploy:"@,
                "      resources:"@,
                "        reservations:"@,
                "          devices:"@,
                "            - driver: nvidia"@,
                "              count: 1"@,
                "              capabilities: [gpu]"@,
                "    stdin_open: true"@,
                "    environment:"@,
            ],
        ),
{
    let lines = compose_lines(def, req);
    let opencl = req.opencl_enabled == Some(true);
    let n = 6 + gpu_lines(opencl).len() as int;
    text::lemma_has_lines(lines, 0, n);
    if opencl {
        assert(lines.subrange(0, n) =~= seq![
            "services:"@,
            "  "@ + registry::slug(def.name) + ":"@,
            "    image: itzg/minecraft-server"@,
            "    container_name: "@ + def.container_name,
            "    runtime: nvidia"@,
            "    entrypoint: [\"/bin/bash\", \"-c\", \"bash /data/gpu.sh && exec /start\"]"@,
            "    deploy:"@,
            "      resources:"@,
            "        reservations:"@,
            "          devices:"@,
            "            - driver: nvidia"@,
            "              count: 1"@,
            "              capabilities: [gpu]"@,
            "    stdin_open: true"@,
            "    environment:"@,
        ]);
    } else {
        assert(lines.subrange(0, n) =~= seq![
            "services:"@,
            "  "@ + registry::slug(def.name) + ":"@,
            "    image: itzg/minecraft-server"@,
            "    container_name: "@ + def.container_name,
            "    stdin_open: true"@,
            "    environment:"@,
        ]);
    }
}

/// The environment of a server: type, version and memory as they were asked for, and otherwise
/// Fabric, the latest version and two gigabytes; the console by RCON is on.
pub proof fn law_environment_is_as_asked(
    def: ServerDefView,
    req: CreateRequestView,
    server_type: Seq<char>,
    version: Seq<char>,
    memory: Seq<char>,
)
    requires
        req.server_type == Some(server_type) || req.server_type.is_none() && server_type
            == "FABRIC"@,
        req.version == Some(version) || req.version.is_none() && version == "LATEST"@,
        req.memory == Some(memory) || req.memory.is_none() && memory == "2G"@,
    ensures
        text::has_lines(
            compose_text(def, req),
            seq![
                "    environment:"@,
                "      EULA: \"true\""@,
                "      "@ + "TYPE"@ + ": \""@ + server_type + "\""@,
                "      "@ + "VERSION"@ + ": \""@ + version + "\""@,
                "      "@ + "MAX_MEMORY"@ + ": \""@ + memory + "\""@,
                "      ENABLE_RCON: \"true\""@,
                "      RCON_PASSWORD: \"changeme\""@,
                "      DIFFICULTY: \"normal\""@,
                "      MODE: \"survival\""@,
                "      MOTD: \"A Minecraft Server\""@,
                "      AUTOPAUSE_ENABLED: \"false\""@,
                "      MAX_TICK_TIME: \"-1\""@,
            ],
        ),
{
    let lines = compose_lines(def, req);
    let n = 5 + gpu_lines(req.opencl_enabled == Some(true)).len() as int;
    text::lemma_has_lines(lines, n, n + 12);
    assert(lines.subrange(n, n + 12) =~= env_lines(def, req).subrange(1, 13));
    assert(lines.subrange(n, n + 12) =~= seq![
        "    environment:"@,
        "      EULA: \"true\""@,
        "      "@ + "TYPE"@ + ": \""@ + server_type + "\""@,
        "      "@ + "VERSION"@ + ": \""@ + version + "\""@,
        "      "@ + "MAX_MEMORY"@ + ": \""@ + memory + "\""@,
        "      ENABLE_RCON: \"true\""@,
        "      RCON_PASSWORD: \"changeme\""@,
        "      DIFFICULTY: \"normal\""@,
        "      MODE: \"survival\""@,
        "      MOTD: \"A Minecraft Server\""@,
        "      AUTOPAUSE_ENABLED: \"false\""@,
        "      MAX_TICK_TIME: \"-1\""@,
    ]);
}

/// A compose file ends with the volume: the data directory of the server is mounted at `/data`,
/// and the server is started again unless it was stopped. Where the GPU was asked for, the lines
/// that make it seen stand before the ports; otherwise the ports follow at once.
pub proof fn law_data_is_mounted(def: ServerDefView, req: CreateRequestView)
    ensures
        text::ends(
            compose_text(def, req),
            text::unlines(
                seq![
                    "    volumes:"@,
                    "      - "@ + def.data_path + ":/data"@,
                    "    restart: unless-stopped"@,
                ],
            ),
        ),
        req.opencl_enabled == Some(true) ==> text::has_lines(
            compose_text(def, req),
            seq![
                "      NVIDIA_VISIBLE_DEVICES: all"@,
                "      NVIDIA_DRIVER_CAPABILITIES: compute,utility,graphics,video"@,
                "    ports:"@,
            ],
        ),
        req.opencl_enabled != Some(true) ==> text::has_lines(
            compose_text(def, req),
            seq![
                "      "@ + "SERVER_PORT"@ + ": \""@ + numbers::digits(def.port as nat) + "\""@,
                "    ports:"@,
            ],
        ),
{
    let lines = compose_lines(def, req);
    let n = lines.len() as int;
    let last = seq![
        "    volumes:"@,
        "      - "@ + def.data_path + ":/data"@,
        "    restart: unless-stopped"@,
    ];
    assert(lines.skip(n - 3) =~= last);
    assert(lines =~= lines.take(n - 3) + last);
    text::lemma_unlines_concat(lines.take(n - 3), last);
    let whole = text::unlines(lines);
    let part = text::unlines(last);
    assert(whole.subrange(whole.len() - part.len(), whole.len() as int) =~= part);
    if req.opencl_enabled == Some(true) {
        text::lemma_has_lines(lines, n - 7, n - 4);
        assert(lines.subrange(n - 7, n - 4) =~= seq![
            "      NVIDIA_VISIBLE_DEVICES: all"@,
            "      NVIDIA_DRIVER_CAPABILITIES: compute,utility,graphics,video"@,
            "    ports:"@,
        ]);
    } else {
        text::lemma_has_lines(lines, n - 6, n - 4);
        assert(lines.subrange(n - 6, n - 4) =~= seq![
            "      "@ + "SERVER_PORT"@ + ": \""@ + numbers::digits(def.port as nat) + "\""@,
            "    ports:"@,
        ]);
    }
}

/// The first line that gives a value counts; the lines behind it are looked at only where it
/// gives none. An empty file gives no value.
pub proof fn law_first_value_counts(line: Seq<char>, rest: Seq<char>, key: Seq<char>)
    requires
        !line.contains('\n'),
        key.len() > 0,
    ensures
        env_of(line + seq!['\n'] + rest, key) == (match env_of(line, key) {
            Some(v) => Some(v),
            None => env_of(rest, key),
        }),
        env_of(Seq::empty(), key).is_none(),
{
    let nl = CharClass::Is('\n');
    assert forall|i: int| 0 <= i < line.len() implies !nl.has(#[trigger] line[i]) by {
        assert(line.contains(line[i]));
    }
    text::lemma_split_around(line, '\n', rest, nl);
    assert(line.push('\n') + rest =~= line + seq!['\n'] + rest);
    text::lemma_split_one(line, nl);
    text::lemma_split_one(Seq::empty(), nl);
    let one = text::split_at_class(line, nl);
    let more = text::split_at_class(rest, nl);
    let all = text::split_at_class(line + seq!['\n'] + rest, nl);
    assert(one.drop_first() =~= Seq::<Seq<char>>::empty());
    assert(first_value(one.drop_first(), key).is_none());
    assert(all.drop_first() =~= more);
    let none = text::split_at_class(Seq::<char>::empty(), nl);
    assert(none.drop_first() =~= Seq::<Seq<char>>::empty());
    assert(first_value(none.drop_first(), key).is_none());
    text::lemma_trim_all(Seq::<char>::empty(), CharClass::White);
}

/// A line that gives a variable a value reads as that value, however far it is indented, whether
/// a colon or an equals sign stands between, and with or without quotes. A line that begins with
/// anything else than the name of the variable gives no value.
pub proof fn law_line_gives_value(indent: nat, key: Seq<char>, sign: char, v: Seq<char>)
    requires
        key.len() > 0,
        !text::is_white(key[0]),
        !key.contains('\n'),
        sign == ':' || sign == '=',
        v.len() > 0,
        !v.contains('\n'),
        v[0] != ' ' && v[0] != ':' && v[0] != '=' && v[0] != '"',
        !text::is_white(v.last()) && v.last() != '"',
    ensures
        env_of(Seq::new(indent, |i: int| ' ') + key + seq![sign, ' '] + v, key) == Some(v),
        env_of(Seq::new(indent, |i: int| ' ') + key + seq![sign, '"'] + v + seq!['"'], key) == Some(
            v,
        ),
{
    let pad = Seq::new(indent, |i: int| ' ');
    let nl = CharClass::Is('\n');
    let plain = pad + key + seq![sign, ' '] + v;
    let quoted = pad + key + seq![sign, '"'] + v + seq!['"'];
    let m = key.len() as int;
    let p = indent as int;
    assert forall|i: int| 0 <= i < plain.len() implies !nl.has(#[trigger] plain[i]) by {
        if p <= i < p + m {
            assert(key.contains(key[i - p]));
        } else if p + m + 2 <= i {
            assert(v.contains(v[i - p - m - 2]));
        }
    }
    assert forall|i: int| 0 <= i < quoted.len() implies !nl.has(#[trigger] quoted[i]) by {
        if p <= i < p + m {
            assert(key.contains(key[i - p]));
        } else if p + m + 2 <= i < quoted.len() - 1 {
            assert(v.contains(v[i - p - m - 2]));
        }
    }
    text::lemma_split_one(plain, nl);
    text::lemma_split_one(quoted, nl);
    assert(plain.subrange(p, p + m) =~= key);
    assert(plain.subrange(p + m + 2, plain.len() as int) =~= v);
    assert(quoted.subrange(p, p + m) =~= key);
    assert(quoted.subrange(p + m + 2, quoted.len() - 1) =~= v);
    lemma_value_of(plain, p, key, v, plain.len() as int);
    lemma_value_of(quoted, p, key, v, quoted.len() - 1);
}

proof fn lemma_value_of(line: Seq<char>, p: int, key: Seq<char>, v: Seq<char>, end: int)
    requires
        p >= 0,
        key.len() > 0,
        !text::is_white(key[0]),
        v.len() > 0,
        !CharClass::Assign.has(v[0]),
        !text::is_white(v.last()) && v.last() != '"' && v[0] != '"',
        end == p + key.len() + 2 + v.len(),
        end == line.len() || end + 1 == line.len() && line[end] == '"',
        forall|i: int| 0 <= i < p ==> text::is_white(#[trigger] line[i]),
        line.subrange(p, p + key.len()) == key,
        CharClass::Assign.has(line[p + key.len()]),
        CharClass::Assign.has(line[p + key.len() + 1]),
        line.subrange(p + key.len() + 2, end) == v,
    ensures
        env_value(line, key) == Some(v),
{
    let n = line.len() as int;
    let m = key.len() as int;
    assert(line[p] == line.subrange(p, p + m)[0]);
    let tail = line.subrange(p + m + 2, end);
    assert(tail[tail.len() - 1] == line[end - 1]);
    assert(!text::is_white(line[n - 1]));
    text::lemma_trim_around(line, CharClass::White, p, n);
    let t = line.subrange(p, n);
    assert(text::trimmed(line) == t);
    assert(t.subrange(0, m) =~= key);
    let rest = t.skip(m);
    assert(rest[0] == line[p + m] && rest[1] == line[p + m + 1]);
    assert(rest[2] == tail[0]);
    text::lemma_trim_start_at(rest, CharClass::Assign, 2);
    let left = rest.skip(2);
    assert(left.subrange(0, v.len() as int) =~= v);
    assert(left[0] == v[0]);
    assert(left[v.len() - 1] == v.last());
    text::lemma_trim_around(left, CharClass::Is('"'), 0, v.len() as int);
}

/// Only a line that holds the name of a variable gives it a value.
pub proof fn law_other_lines_give_none(line: Seq<char>, key: Seq<char>)
    requires
        !line.contains('\n'),
        !text::has_text(line, key),
    ensures
        env_of(line, key).is_none(),
{
    let nl = CharClass::Is('\n');
    assert forall|i: int| 0 <= i < line.len() implies !nl.has(#[trigger] line[i]) by {
        assert(line.contains(line[i]));
    }
    text::lemma_split_one(line, nl);
    let one = text::split_at_class(line, nl);
    assert(one.drop_first() =~= Seq::<Seq<char>>::empty());
    assert(first_value(one.drop_first(), key).is_none());
    let t = text::trimmed(line);
    if text::begins(t, key) {
        let range = text::lemma_trim_range(line, CharClass::White);
        let a = range.0;
        assert(t.subrange(0, key.len() as int) == key);
        assert(line.subrange(a, a + key.len()) =~= t.subrange(0, key.len() as int));
        assert(text::occurs_at(line, key, a));
    }
}

/// A file is taken for one made from the template exactly where it speaks of the setting that
/// only the template writes, and where it gives none of type, version and memory, the new file
/// has Fabric, the latest version and two gigabytes.
pub proof fn law_again_falls_back(def: ServerDefView, existing: Seq<char>, req: CreateRequestView)
    requires
        env_of(existing, "TYPE"@).is_none(),
        env_of(existing, "VERSION"@).is_none(),
        env_of(existing, "MAX_MEMORY"@).is_none(),
        req.server_type == Some("FABRIC"@),
        req.version == Some("LATEST"@),
        req.memory == Some("2G"@),
        req.opencl_enabled == Some(def.opencl_enabled),
    ensures
        compose_again(def, existing) == compose_text(def, req),
        is_template(existing) <==> text::has_text(existing, "AUTOPAUSE_ENABLED"@),
{
    assert(compose_lines(def, request_again(def, existing)) == compose_lines(def, req));
}

/// The script for the GPU installs what OpenCL needs and names the driver of the GPU to it.
pub proof fn law_gpu_script()
    ensures
        GPU_SH@ == r#"#!/bin/sh
# Install OpenCL support for NVIDIA GPUs
apt-get update && apt-get install -y \
    ocl-icd-libopencl1 \
    opencl-headers \
    clinfo \
    && rm -rf /var/lib/apt/lists/*

mkdir -p /etc/OpenCL/vendors && \
    echo "libnvidia-opencl.so.1" > /etc/OpenCL/vendors/nvidia.icd
"#@,
{
}

} // verus!
