use minecraft_panel::backup;
use minecraft_panel::backup::BackupConfig;
use minecraft_panel::backup::DirEntryInfo;
use minecraft_panel::compose;
use minecraft_panel::registry;
use minecraft_panel::registry::ComposeAction;
use minecraft_panel::registry::CreateRequest;
use minecraft_panel::registry::RegistryError;
use minecraft_panel::registry::ServerDef;
use minecraft_panel::registry::ServerRegistry;

fn request(name: &str) -> CreateRequest {
    CreateRequest {
        name: name.to_string(),
        port: None,
        server_type: None,
        version: None,
        memory: None,
        start_now: None,
        opencl_enabled: None,
    }
}

fn definition(id: &str) -> ServerDef {
    ServerDef {
        id: id.to_string(),
        name: "My Server".to_string(),
        container_name: format!("my-server-{}", id),
        data_path: format!("/cfg/servers/my-server-{}/data", id),
        compose_file: format!("/cfg/servers/my-server-{}/docker-compose.yml", id),
        port: 25566,
        created_at: "2024-05-01T12:00:00Z".to_string(),
        opencl_enabled: false,
        backup_config: None,
    }
}

fn backups(enabled: bool) -> BackupConfig {
    BackupConfig {
        enabled,
        cron: "0 4 * * *".to_string(),
        keep_count: 3,
        backup_dir: "/somewhere/else".to_string(),
        rcon_password: "secret".to_string(),
    }
}

#[test]
fn names_become_slugs() {
    assert_eq!(registry::sanitize("My Server"), "my-server");
    assert_eq!(registry::sanitize("  a__b -- c  "), "a-b-c");
    assert_eq!(registry::sanitize("Überwelt #1!"), "berwelt-1");
    assert_eq!(registry::sanitize("---"), "");
    assert_eq!(registry::sanitize("abcdefghijklmnopqrstuvwxyz"), "abcdefghijklmnopqrst");
    assert_eq!(registry::sanitize("abcdefghijklmnopqrs tuv"), "abcdefghijklmnopqrs-");
    assert_eq!(backup::sanitize_svc("My Server"), "my-server");
    assert_eq!(backup::mc_svc_name("My_Server"), "my-server");
    assert_eq!(backup::backup_svc_name("A  B"), "a-b");
}

#[test]
fn ids_are_eight_hex_digits() {
    assert_eq!(registry::id_of(0x0a1b2c3d), "0a1b2c3d");
    let mut seen: Vec<String> = Vec::new();
    for _ in 0..32 {
        let id = registry::rand_id();
        assert_eq!(id.len(), 8);
        assert!(id.chars().all(|c| c.is_ascii_digit() || ('a'..='f').contains(&c)));
        seen.push(id);
    }
    seen.sort();
    seen.dedup();
    assert!(seen.len() > 1);
}

const PLAIN: &str = "services:\n  my-server:\n    image: itzg/minecraft-server\n    container_name: my-server-0a1b2c3d\n    stdin_open: true\n    environment:\n      EULA: \"true\"\n      TYPE: \"FABRIC\"\n      VERSION: \"LATEST\"\n      MAX_MEMORY: \"2G\"\n      ENABLE_RCON: \"true\"\n      RCON_PASSWORD: \"changeme\"\n      DIFFICULTY: \"normal\"\n      MODE: \"survival\"\n      MOTD: \"A Minecraft Server\"\n      AUTOPAUSE_ENABLED: \"false\"\n      MAX_TICK_TIME: \"-1\"\n      SERVER_PORT: \"25566\"\n    ports:\n      - \"25566:25566\"\n    volumes:\n      - /cfg/servers/my-server-0a1b2c3d/data:/data\n    restart: unless-stopped\n";

const GPU: &str = "services:\n  my-server:\n    image: itzg/minecraft-server\n    container_name: my-server-0a1b2c3d\n    runtime: nvidia\n    entrypoint: [\"/bin/bash\", \"-c\", \"bash /data/gpu.sh && exec /start\"]\n    deploy:\n      resources:\n        reservations:\n          devices:\n            - driver: nvidia\n              count: 1\n              capabilities: [gpu]\n    stdin_open: true\n    environment:\n      EULA: \"true\"\n      TYPE: \"PAPER\"\n      VERSION: \"1.20.4\"\n      MAX_MEMORY: \"6G\"\n      ENABLE_RCON: \"true\"\n      RCON_PASSWORD: \"changeme\"\n      DIFFICULTY: \"normal\"\n      MODE: \"survival\"\n      MOTD: \"A Minecraft Server\"\n      AUTOPAUSE_ENABLED: \"false\"\n      MAX_TICK_TIME: \"-1\"\n      SERVER_PORT: \"25566\"\n      NVIDIA_VISIBLE_DEVICES: all\n      NVIDIA_DRIVER_CAPABILITIES: compute,utility,graphics,video\n    ports:\n      - \"25566:25566\"\n    volumes:\n      - /cfg/servers/my-server-0a1b2c3d/data:/data\n    restart: unless-stopped\n";

#[test]
fn compose_files_follow_the_template() {
    let def = definition("0a1b2c3d");
    assert_eq!(compose::generate_compose(&def, &request("My Server")), PLAIN);
    let mut req = request("My Server");
    req.server_type = Some("PAPER".to_string());
    req.version = Some("1.20.4".to_string());
    req.memory = Some("6G".to_string());
    req.opencl_enabled = Some(true);
    assert_eq!(compose::generate_compose(&def, &req), GPU);
}

#[test]
fn values_are_read_from_a_compose_file() {
    assert_eq!(compose::extract_env(GPU, "TYPE"), Some("PAPER".to_string()));
    assert_eq!(compose::extract_env(GPU, "VERSION"), Some("1.20.4".to_string()));
    assert_eq!(compose::extract_env(GPU, "MAX_MEMORY"), Some("6G".to_string()));
    assert_eq!(compose::extract_env(GPU, "ABSENT"), None);
    assert_eq!(compose::extract_env("  TYPE = \"A B\"\r\n", "TYPE"), Some("A B".to_string()));
    assert_eq!(compose::extract_env("TYPE:\nTYPE: X", "TYPE"), Some("X".to_string()));
    assert_eq!(compose::extract_env("TYPE_X: 1", "TYPE"), Some("_X: 1".to_string()));
    assert_eq!(compose::extract_env("", "TYPE"), None);
}

#[test]
fn compose_files_made_anew_keep_their_values() {
    let mut def = definition("0a1b2c3d");
    def.opencl_enabled = true;
    let with_values = GPU.replace("    runtime: nvidia\n", "");
    assert_eq!(compose::regenerate_compose_for_def(&def, &with_values), GPU);
    assert_eq!(compose::regenerate_compose(&def, &with_values), Some(GPU.to_string()));
    assert_eq!(compose::regenerate_compose(&def, "services: {}\n"), None);
    def.opencl_enabled = false;
    assert_eq!(compose::regenerate_compose_for_def(&def, "AUTOPAUSE_ENABLED"), PLAIN);
}

const SIDECAR: &str = "\n  # ── mc-backup sidecar ───────────────────────────────────────────────\n  my-server-backup:\n    image: itzg/mc-backup\n    container_name: my-server-backup\n    restart: unless-stopped\n    depends_on:\n      - my-server\n    environment:\n      BACKUP_METHOD: tar\n      INITIAL_DELAY: \"15\"\n      BACKUP_INTERVAL: \"0 4 * * *\"\n      PRUNE_BACKUPS_DAYS: \"0\"\n      BACKUP_NAME: world\n      EXCLUDES: \"*.jar,cache,logs\"\n      TAR_COMPRESS_METHOD: gzip\n      BACKUP_ON_STARTUP: \"true\"\n      PRUNE_BACKUP_COUNT: \"3\"\n      RCON_HOST: my-server\n      RCON_PORT: \"25575\"\n      RCON_PASSWORD: \"secret\"\n      SERVER_PORT: \"25565\"\n    volumes:\n      - /cfg/servers/my-server-0a1b2c3d/data:/data:ro\n      - /somewhere/else:/backups\n";

#[test]
fn sidecars_are_put_in_and_taken_out() {
    let def = definition("0a1b2c3d");
    assert_eq!(backup::backup_service_block(&def, &backups(true)), SIDECAR);
    let with = backup::apply_backup(PLAIN, &def, &backups(true));
    assert_eq!(with, format!("{}{}", PLAIN, SIDECAR));
    assert_eq!(backup::strip_backup_block(&with), PLAIN);
    assert_eq!(backup::strip_backup_block(PLAIN), PLAIN);
    assert_eq!(backup::apply_backup(&with, &def, &backups(false)), PLAIN);
    let mut other = backups(true);
    other.keep_count = 9;
    let once = backup::apply_backup(PLAIN, &def, &other);
    assert_eq!(backup::apply_backup(&with, &def, &other), once);
    assert!(once.contains("PRUNE_BACKUP_COUNT: \"9\""));
    assert!(PLAIN.contains("\n  my-server:\n"));
}

#[test]
fn only_the_sidecar_is_taken_out() {
    let def = definition("0a1b2c3d");
    let block = backup::backup_service_block(&def, &backups(true));
    let mc = "services:\n  mc:\n    image: a\n";
    let web = "  web:\n    image: nginx\n";
    let strip = |parts: &[&str]| backup::strip_backup_block(&parts.concat());
    assert_eq!(strip(&[mc, &block, web]), format!("{}{}", mc, web));
    assert_eq!(strip(&[mc, &block, "volumes:\n  v:\n"]), format!("{}volumes:\n  v:\n", mc));
    assert_eq!(strip(&[mc, &block, "    labels: x\n", web]), format!("{}{}", mc, web));
    assert_eq!(strip(&[mc, &block, "\n", web]), format!("{}{}", mc, web));
    assert_eq!(strip(&[mc, &block, &block, web]), format!("{}{}", mc, web));
    assert_eq!(strip(&["a: b", &block, web]), format!("a: b\n{}", web));
    assert_eq!(strip(&["a: b", &block]), "a: b");
    assert_eq!(strip(&[mc, &block, &block]), mc);
    let volumes = "volumes:\n  v:\n";
    assert_eq!(strip(&[mc, &block, web, &block, volumes]), [mc, web, volumes].concat());
    assert_eq!(
        strip(&["a\n\n  # ── mc-backup sidecar\n  x:\n  # ── mc-backup sidecar\n  y:\n"]),
        "a\n"
    );
    let mounts = "  restore:\n    volumes:\n      - ./b:/backups\n";
    assert_eq!(strip(&[mc, &block, mounts, web]), format!("{}{}{}", mc, mounts, web));
    let moved = backup::apply_backup(&[mc, &block, web].concat(), &def, &backups(true));
    assert_eq!(moved, [mc, web, &block].concat());
}

#[test]
fn line_breaks_do_not_end_the_sidecar() {
    let mut def = definition("0a1b2c3d");
    let mc = "services:\n  mc:\n    image: a\n";
    let web = "  web:\n    image: nginx\n";
    for odd in ["a\nb", "x:/backups\ny:\n", "\n  # ── mc-backup sidecar\n  z:\nq"] {
        let mut configured: Vec<BackupConfig> = (0..3).map(|_| backups(true)).collect();
        configured[0].cron = odd.to_string();
        configured[1].rcon_password = odd.to_string();
        configured[2].backup_dir = odd.to_string();
        for cfg in &configured {
            let with = backup::apply_backup(mc, &def, cfg);
            assert_eq!(backup::strip_backup_block(&with), mc);
            assert_eq!(backup::apply_backup(&with, &def, &backups(false)), mc);
        }
        def.data_path = odd.to_string();
        let with = backup::apply_backup(mc, &def, &backups(true));
        assert_eq!(backup::strip_backup_block(&with), mc);
        def = definition("0a1b2c3d");
    }
    let mut broken = backups(true);
    broken.cron = "a\nb".to_string();
    let block = backup::backup_service_block(&def, &broken);
    assert_eq!(backup::strip_backup_block(&[mc, &block, web].concat()), [mc, web].concat());
}

#[test]
fn backup_defaults_belong_to_the_server() {
    let def = definition("0a1b2c3d");
    assert_eq!(backup::server_backup_dir(&def), "/cfg/servers/my-server-0a1b2c3d/backups");
    let cfg = BackupConfig::default_for(&def);
    assert!(!cfg.enabled);
    assert_eq!(cfg.cron, "0 */2 * * *");
    assert_eq!(cfg.keep_count, 10);
    assert_eq!(cfg.backup_dir, "/cfg/servers/my-server-0a1b2c3d/backups");
    assert_eq!(cfg.rcon_password, "changeme");
    let mut rootless = definition("0a1b2c3d");
    rootless.compose_file = "/".to_string();
    assert_eq!(backup::server_backup_dir(&rootless), "./backups");
    rootless.compose_file = "docker-compose.yml".to_string();
    assert_eq!(backup::server_backup_dir(&rootless), "/backups");
}

#[test]
fn archives_are_listed_newest_first() {
    let entry = |name: &str, size: Option<u64>, at: Option<u64>| DirEntryInfo {
        name: name.to_string(),
        size,
        modified_secs: at,
    };
    let entries = vec![
        entry("old.tar.gz", Some(5), Some(1_000)),
        entry("notes.txt", Some(1), Some(9_000)),
        entry("new.tgz", Some(7), Some(90_061)),
        entry("lost.zip", None, None),
    ];
    let list = backup::list_backups(&entries);
    let names: Vec<&str> = list.iter().map(|f| f.name.as_str()).collect();
    assert_eq!(names, vec!["lost.zip", "new.tgz", "old.tar.gz"]);
    assert_eq!(list[0].modified, "unknown");
    assert_eq!(list[0].size_bytes, 0);
    assert_eq!(list[1].modified, "0000000001-01:01:01");
    assert_eq!(list[2].size_bytes, 5);
}

#[test]
fn timestamps_sort_by_time() {
    assert_eq!(backup::format_unix_ts(0), "0000000000-00:00:00");
    assert_eq!(backup::format_unix_ts(86_399), "0000000000-23:59:59");
    let times = [0u64, 59, 60, 3599, 3600, 86_399, 86_400, 1_700_000_000, 1_700_000_001];
    for pair in times.windows(2) {
        assert!(backup::format_unix_ts(pair[0]) < backup::format_unix_ts(pair[1]));
    }
}

#[test]
fn created_servers_have_one_directory() {
    let reg = ServerRegistry::new("/cfg".to_string());
    let mut req = request("My Server");
    req.port = Some(25566);
    let plan = reg
        .create_with_id(&req, "0a1b2c3d".to_string(), "2024-05-01T12:00:00Z".to_string())
        .unwrap();
    assert_eq!(plan.def.id, "0a1b2c3d");
    assert_eq!(plan.def.name, "My Server");
    assert_eq!(plan.def.container_name, "my-server-0a1b2c3d");
    assert_eq!(plan.def.data_path, "/cfg/servers/my-server-0a1b2c3d/data");
    assert_eq!(plan.def.compose_file, "/cfg/servers/my-server-0a1b2c3d/docker-compose.yml");
    assert_eq!(plan.def.port, 25566);
    assert!(!plan.def.opencl_enabled);
    assert!(plan.def.backup_config.is_none());
    assert_eq!(plan.data_dir, "/cfg/servers/my-server-0a1b2c3d/data");
    assert_eq!(plan.json_path, "/cfg/servers/my-server-0a1b2c3d/server.json");
    assert_eq!(plan.gpu_sh_path, "/cfg/servers/my-server-0a1b2c3d/data/gpu.sh");
    assert_eq!(plan.compose, PLAIN);
    assert!(compose::GPU_SH.starts_with("#!/bin/sh\n"));
    let default_port = reg.create_with_id(&request("x"), "1".to_string(), String::new()).unwrap();
    assert_eq!(default_port.def.port, 25565);
}

#[test]
fn created_servers_get_random_ids() {
    let reg = ServerRegistry::new("/cfg".to_string());
    let plan = reg.create(&request("x"), String::new()).unwrap();
    assert_eq!(plan.def.id.len(), 8);
    assert_eq!(plan.def.container_name, format!("x-{}", plan.def.id));
    let refused = reg.create(&request(" \t"), String::new()).unwrap_err();
    assert!(matches!(refused, RegistryError::NameRequired));
    assert_eq!(refused.message(), "name is required");
}

#[test]
fn registry_gives_back_what_was_entered() {
    let mut reg = ServerRegistry::new("/cfg".to_string());
    assert!(reg.get("a").is_none());
    reg.insert(definition("a"));
    reg.insert(definition("b"));
    assert_eq!(reg.list().len(), 2);
    let mut changed = definition("a");
    changed.port = 1;
    reg.insert(changed);
    assert_eq!(reg.list().len(), 2);
    assert_eq!(reg.get("a").unwrap().port, 1);
    assert_eq!(reg.get("b").unwrap().port, 25566);
    assert_eq!(reg.compose_file("b").unwrap(), "/cfg/servers/my-server-b/docker-compose.yml");
    let dir = reg.delete("a").unwrap();
    assert_eq!(dir, Some("/cfg/servers/my-server-a".to_string()));
    assert!(reg.get("a").is_none());
    assert!(reg.get("b").is_some());
    let again = reg.delete("a").unwrap_err();
    assert!(matches!(again, RegistryError::NotFound));
    assert_eq!(again.message(), "server not found");
    assert_eq!(reg.compose_file("a").unwrap_err().message(), "server not found");
}

#[test]
fn loaded_definitions_get_absolute_paths() {
    let mut old = definition("a");
    old.compose_file = "my-server-a/docker-compose.yml".to_string();
    old.data_path = "my-server-a/data".to_string();
    let mut twice = definition("b");
    twice.port = 9;
    let reg = ServerRegistry::load(
        "/cfg".to_string(),
        vec![old, definition("b"), twice],
    );
    let a = reg.get("a").unwrap();
    assert_eq!(a.compose_file, "/cfg/servers/my-server-a/docker-compose.yml");
    assert_eq!(a.data_path, "/cfg/servers/my-server-a/data");
    assert_eq!(reg.get("b").unwrap().port, 9);
    assert_eq!(reg.list().len(), 2);
    let fixed = registry::fix_paths(definition("c"), "/other");
    assert_eq!(fixed.data_path, "/cfg/servers/my-server-c/data");
}

#[test]
fn gpu_support_is_switched() {
    let mut reg = ServerRegistry::new("/cfg".to_string());
    reg.insert(definition("0a1b2c3d"));
    let on = reg.set_opencl("0a1b2c3d", true, PLAIN).unwrap();
    assert!(on.def.opencl_enabled);
    assert_eq!(on.json_path, "/cfg/servers/my-server-0a1b2c3d/server.json");
    assert_eq!(on.gpu_sh_path, Some("/cfg/servers/my-server-0a1b2c3d/data/gpu.sh".to_string()));
    let on_compose = on.compose.unwrap();
    assert!(on_compose.contains("runtime: nvidia"));
    reg.insert(on.def);
    let off = reg.set_opencl("0a1b2c3d", false, &on_compose).unwrap();
    assert_eq!(off.compose, Some(PLAIN.to_string()));
    assert_eq!(off.gpu_sh_path, None);
    let edited = reg.set_opencl("0a1b2c3d", true, "services: {}").unwrap();
    assert_eq!(edited.compose, None);
    assert_eq!(reg.set_opencl("none", true, "").unwrap_err().message(), "server not found");
}

#[test]
fn backup_settings_are_read_back() {
    let mut reg = ServerRegistry::new("/cfg".to_string());
    reg.insert(definition("0a1b2c3d"));
    assert!(!reg.get_backup_config("0a1b2c3d").unwrap().enabled);
    let plan = reg.set_backup("0a1b2c3d", backups(true), PLAIN).unwrap();
    let dir = "/cfg/servers/my-server-0a1b2c3d/backups".to_string();
    assert_eq!(plan.backup_dir, Some(dir.clone()));
    assert_eq!(plan.json_path, "/cfg/servers/my-server-0a1b2c3d/server.json");
    assert_eq!(plan.compose, format!("{}{}", PLAIN, SIDECAR.replace("/somewhere/else", &dir)));
    let compose_with = plan.compose.clone();
    reg.insert(plan.def);
    let cfg = reg.get_backup_config("0a1b2c3d").unwrap();
    assert!(cfg.enabled);
    assert_eq!(cfg.backup_dir, dir);
    assert_eq!(cfg.keep_count, 3);
    let off = reg.set_backup("0a1b2c3d", backups(false), &compose_with).unwrap();
    assert_eq!(off.backup_dir, None);
    assert_eq!(off.compose, PLAIN);
    assert!(reg.set_backup("none", backups(true), "").is_err());
    assert_eq!(reg.get_backup_config("none").unwrap_err().message(), "server not found");
}

#[test]
fn compose_is_run_in_the_directory_of_its_file() {
    assert_eq!(registry::compose_dir("/a/b/docker-compose.yml").unwrap(), "/a/b");
    let refused = registry::compose_dir("/").unwrap_err();
    assert_eq!(refused.message(), "invalid compose file path: /");
    assert_eq!(ComposeAction::Up.args(), vec!["up", "-d", "--remove-orphans"]);
    assert_eq!(ComposeAction::Stop.args(), vec!["stop"]);
    assert_eq!(ComposeAction::Restart.args(), vec!["restart"]);
    assert_eq!(ComposeAction::for_backup(true).args(), vec!["up", "-d"]);
    assert_eq!(ComposeAction::for_backup(false).args(), vec!["up", "-d", "--remove-orphans"]);
    assert_eq!(
        ComposeAction::Up.failure(" no daemon\n", "\nout "),
        "docker compose up -d --remove-orphans failed:\nno daemon\nout"
    );
}
