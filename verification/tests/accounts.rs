use minecraft_panel::access;
use minecraft_panel::access::Access;
use minecraft_panel::access::Endpoint;
use minecraft_panel::access::HttpMethod;
use minecraft_panel::access::Need;
use minecraft_panel::handlers;
use minecraft_panel::handlers::ApiError;
use minecraft_panel::handlers::CommandBody;
use minecraft_panel::handlers::Control;
use minecraft_panel::handlers::CreateUserBody;
use minecraft_panel::handlers::FileWriteBody;
use minecraft_panel::handlers::ModInstallBody;
use minecraft_panel::handlers::ModPathBody;
use minecraft_panel::handlers::PathQuery;
use minecraft_panel::handlers::ServerIds;
use minecraft_panel::handlers::ServerProbe;
use minecraft_panel::handlers::SetupBody;
use minecraft_panel::handlers::UpdateUserBody;
use minecraft_panel::docker::ServerStatus;
use minecraft_panel::registry::CreateRequest;
use minecraft_panel::registry::ServerDef;
use minecraft_panel::registry::ServerRegistry;
use minecraft_panel::session;
use minecraft_panel::users::User;
use minecraft_panel::users::UserError;
use minecraft_panel::users::UserInfo;
use minecraft_panel::users::UserRole;
use minecraft_panel::users::UserRow;
use minecraft_panel::users::UserStore;

fn user(name: &str, role: UserRole, servers: Option<Vec<&str>>) -> User {
    User {
        username: name.to_string(),
        password: format!("pw-{}", name),
        role,
        allowed_servers: servers.map(|v| v.iter().map(|s| s.to_string()).collect()),
    }
}

fn store() -> UserStore {
    UserStore::new(vec![
        user("ann", UserRole::Admin, None),
        user("oli", UserRole::Operator, Some(vec!["s1"])),
        user("vera", UserRole::Viewer, None),
    ])
}

fn said(e: ApiError) -> (u16, String) {
    (e.status, e.message.unwrap_or_default())
}

#[test]
fn roles_have_names() {
    for role in [UserRole::Admin, UserRole::Operator, UserRole::Viewer] {
        assert_eq!(UserRole::from_str(&role.to_string()), Ok(role));
    }
    assert_eq!(UserRole::Operator.to_string(), "operator");
    assert_eq!(UserRole::from_str("Admin"), Err(()));
    assert!(UserRole::Admin.reaches(UserRole::Operator));
    assert!(!UserRole::Viewer.reaches(UserRole::Operator));
}

#[test]
fn accounts_are_created_once() {
    let mut s = UserStore::new(vec![]);
    assert!(s.is_empty());
    assert!(s.needs_setup());
    assert!(s.create("ann", "secret", UserRole::Viewer).is_ok());
    assert!(!s.needs_setup());
    let twice = s.create("ann", "other", UserRole::Admin).unwrap_err();
    assert_eq!(twice.message(), "user 'ann' already exists");
    assert!(matches!(s.create("", "x", UserRole::Admin), Err(UserError::EmptyAccount)));
    let empty = s.create("bob", "", UserRole::Admin).unwrap_err();
    assert_eq!(empty.message(), "username and password must not be empty");
    assert_eq!(s.authenticate("ann", "secret"), Some(UserRole::Viewer));
    assert_eq!(s.authenticate("ann", "other"), None);
    assert_eq!(s.authenticate("bob", ""), None);
    assert_eq!(s.list().len(), 1);
}

#[test]
fn stored_names_are_taken_once() {
    let mut other = user("ann", UserRole::Viewer, None);
    other.password = "x".to_string();
    let s = UserStore::new(vec![user("ann", UserRole::Admin, None), other]);
    assert_eq!(s.list().len(), 1);
    assert_eq!(s.role_of("ann"), Some(UserRole::Admin));
    assert_eq!(s.get("ann").unwrap().password, "pw-ann");
    assert!(s.get("bob").is_none());
}

#[test]
fn the_last_admin_stays() {
    let mut s = store();
    let refused = s.delete("ann").unwrap_err();
    assert_eq!(refused.message(), "cannot delete the last admin account");
    assert!(s.update("oli", None, Some(UserRole::Admin)).is_ok());
    assert!(s.delete("ann").is_ok());
    assert_eq!(s.role_of("ann"), None);
    assert!(matches!(s.delete("oli"), Err(UserError::LastAdmin)));
    assert!(s.delete("vera").is_ok());
    assert_eq!(s.delete("vera").unwrap_err().message(), "user not found");
}

#[test]
fn setup_stays_closed() {
    let mut s = UserStore::new(vec![]);
    assert!(s.create("ann", "p", UserRole::Admin).is_ok());
    for role in [UserRole::Viewer, UserRole::Operator] {
        assert!(matches!(s.update("ann", Some("q"), Some(role)), Err(UserError::OnlyAdmin)));
    }
    assert!(matches!(s.update("ann", Some(""), Some(UserRole::Viewer)), Err(UserError::EmptyPassword)));
    assert!(s.authenticate("ann", "p").is_some());
    assert!(matches!(s.delete("ann"), Err(UserError::LastAdmin)));
    assert!(s.update("ann", Some("q"), Some(UserRole::Admin)).is_ok());
    assert!(s.create("bob", "p", UserRole::Admin).is_ok());
    assert!(s.update("ann", None, Some(UserRole::Viewer)).is_ok());
    assert!(s.delete("ann").is_ok());
    assert!(s.update("bob", None, Some(UserRole::Viewer)).is_err());
    assert!(!s.needs_setup());
    assert_eq!(UserError::OnlyAdmin.message(), "cannot change the role of the last admin account");
    let demote = UpdateUserBody { password: None, role: Some("viewer".to_string()) };
    assert_eq!(
        said(handlers::users_update(&mut s, Some("bob"), "bob", &demote).unwrap_err()),
        (400, "cannot change the role of the last admin account".to_string())
    );
}

#[test]
fn passwords_are_counted_in_characters() {
    let mut s = UserStore::new(vec![]);
    let body = |password: &str| SetupBody {
        username: "admin".to_string(),
        password: password.to_string(),
    };
    assert_eq!(
        said(handlers::setup_create(&mut s, &body("pässwör")).unwrap_err()),
        (400, "Password must be at least 8 characters".to_string())
    );
    assert!(s.is_empty());
    assert!(handlers::setup_create(&mut s, &body("üüüü")).is_err());
    assert!(handlers::setup_create(&mut s, &body("pässwörd")).is_ok());
}

#[test]
fn accounts_are_changed_in_place() {
    let mut s = store();
    assert!(s.update("oli", Some("new"), None).is_ok());
    assert_eq!(s.authenticate("oli", "new"), Some(UserRole::Operator));
    assert_eq!(s.authenticate("oli", "pw-oli"), None);
    assert_eq!(s.authenticate("ann", "pw-ann"), Some(UserRole::Admin));
    assert_eq!(s.update("oli", Some(""), None).unwrap_err().message(), "password must not be empty");
    assert_eq!(s.update("eve", None, None).unwrap_err().message(), "user not found");
    let names: Vec<String> = s.list().into_iter().map(|u| u.username).collect();
    assert_eq!(names, vec!["ann", "oli", "vera"]);
    assert_eq!(s.allowed_servers("oli"), Some(vec!["s1".to_string()]));
    assert!(s.set_allowed_servers("oli", Some(vec!["s2".to_string()])).is_ok());
    assert_eq!(s.allowed_servers("oli"), Some(vec!["s2".to_string()]));
    assert!(s.set_allowed_servers("oli", None).is_ok());
    assert_eq!(s.allowed_servers("oli"), None);
    assert!(s.set_allowed_servers("eve", None).is_err());
}

#[test]
fn the_first_admin_is_bootstrapped() {
    let mut s = UserStore::new(vec![]);
    assert!(s.bootstrap("ann", "secret").is_ok());
    assert_eq!(s.role_of("ann"), Some(UserRole::Admin));
    let again = s.bootstrap("ann", "secret").unwrap_err();
    assert_eq!(again.message(), "creating initial admin account");
}

#[test]
fn shown_accounts_have_no_password() {
    let info = UserInfo::from_user(&user("oli", UserRole::Operator, Some(vec!["s1"])));
    assert!(!format!("{:?}", info).contains("pw-"));
    assert_eq!(info.username, "oli");
    assert_eq!(info.allowed_servers, Some(vec!["s1".to_string()]));
}

#[test]
fn rows_stand_for_the_accounts_they_were_made_from() {
    for u in [
        user("ann", UserRole::Admin, None),
        user("a\"b", UserRole::Operator, Some(vec![])),
        user("c", UserRole::Viewer, Some(vec!["x", "y\\\"z", "ü\n"])),
    ] {
        let row = u.to_row();
        let back = User::from_row(row);
        assert_eq!(back.username, u.username);
        assert_eq!(back.password, u.password);
        assert_eq!(back.role, u.role);
        assert_eq!(back.allowed_servers, u.allowed_servers);
    }
    let row = user("c", UserRole::Viewer, Some(vec!["x", "y"])).to_row();
    assert_eq!(row.role, "viewer");
    assert_eq!(row.allowed_servers, Some("[\"x\",\"y\"]".to_string()));
    let odd = User::from_row(UserRow {
        username: "d".to_string(),
        password: "p".to_string(),
        role: "king".to_string(),
        allowed_servers: Some("not json".to_string()),
    });
    assert_eq!(odd.role, UserRole::Viewer);
    assert_eq!(odd.allowed_servers, None);
}

#[test]
fn cookies_name_who_logged_in() {
    for name in ["ann", "a b;c", "ü%", "=", "%41"] {
        let cookie = session::session_cookie(name);
        let pair = cookie.split(';').next().unwrap();
        assert_eq!(session::cookie_user(Some(pair)), Some(name.to_string()));
        let among = format!("theme=dark; {}; other=1", pair);
        assert_eq!(session::cookie_user(Some(&among)), Some(name.to_string()));
    }
    assert_eq!(
        session::session_cookie("a b"),
        "mcpanel_user=a%20b; Path=/; Max-Age=604800; HttpOnly; SameSite=Strict"
    );
    assert_eq!(
        handlers::auth_logout(),
        "mcpanel_user=; Path=/; Max-Age=0; HttpOnly; SameSite=Strict"
    );
    assert_eq!(session::cookie_user(Some("mcpanel_user=")), None);
    assert_eq!(session::cookie_user(Some("mcpanel_user=; mcpanel_user=x")), Some("x".to_string()));
    assert_eq!(session::cookie_user(Some("mcpanel_user=%ff; mcpanel_user=x")), None);
    assert_eq!(session::cookie_user(Some("mcpanel_user=a%2")), Some("a%2".to_string()));
    assert_eq!(session::cookie_user(Some("xmcpanel_user=a")), None);
    assert_eq!(session::cookie_user(None), None);
}

#[test]
fn endpoints_are_distinct() {
    let all = Endpoint::all();
    for (i, a) in all.iter().enumerate() {
        assert!(a.path().starts_with('/'));
        for b in &all[i + 1..] {
            assert!(a.method() != b.method() || a.path() != b.path(), "{:?} {:?}", a, b);
            assert_ne!(a, b);
        }
    }
    assert_eq!(all.len(), 57);
    assert_eq!(Endpoint::ServersDelete.method(), HttpMethod::Delete);
    assert_eq!(Endpoint::ServersDelete.path(), "/api/servers/:id");
    assert_eq!(Endpoint::UsersUpdate.method(), HttpMethod::Put);
    assert_eq!(Endpoint::Login.need(), Need::Nothing);
    assert_eq!(Endpoint::Command.need(), Need::Role(UserRole::Operator));
}

#[test]
fn requests_are_granted_by_role() {
    let s = store();
    let ask = |e: Endpoint, who: Option<&str>, server: Option<&str>| access::authorize(&s, e, who, server);
    assert_eq!(ask(Endpoint::PublicStatus, None, Some("s1")), Access::Granted);
    assert_eq!(ask(Endpoint::Status, None, Some("s1")), Access::NotLoggedIn);
    assert_eq!(ask(Endpoint::Status, Some("eve"), Some("s1")), Access::NotLoggedIn);
    assert_eq!(ask(Endpoint::Status, Some("vera"), Some("s1")), Access::Granted);
    assert_eq!(ask(Endpoint::Start, Some("vera"), Some("s1")), Access::Forbidden);
    assert_eq!(ask(Endpoint::Start, Some("oli"), Some("s1")), Access::Granted);
    assert_eq!(ask(Endpoint::Start, Some("oli"), Some("s2")), Access::Forbidden);
    assert_eq!(ask(Endpoint::Status, Some("oli"), Some("s2")), Access::Forbidden);
    assert_eq!(ask(Endpoint::ServersCreate, Some("oli"), None), Access::Forbidden);
    assert_eq!(ask(Endpoint::ServersCreate, Some("ann"), None), Access::Granted);
    assert_eq!(ask(Endpoint::UsersList, None, None), Access::Forbidden);
    assert_eq!(ask(Endpoint::UsersList, Some("oli"), None), Access::Forbidden);
    for e in Endpoint::all() {
        assert_eq!(ask(e, Some("ann"), Some("s9")), Access::Granted);
    }
    assert!(handlers::refusal(Access::Granted).is_ok());
    assert_eq!(
        said(handlers::refusal(Access::NotLoggedIn).unwrap_err()),
        (401, "Not logged in".to_string())
    );
    assert_eq!(
        said(handlers::refusal(Access::Forbidden).unwrap_err()),
        (403, "Forbidden".to_string())
    );
}

#[test]
fn logins_are_answered() {
    let s = store();
    let ok = handlers::auth_login(&s, "oli", "pw-oli").unwrap();
    assert_eq!(ok.username, "oli");
    assert_eq!(ok.role, UserRole::Operator);
    assert!(ok.cookie.starts_with("mcpanel_user=oli;"));
    assert_eq!(
        said(handlers::auth_login(&s, "oli", "no").unwrap_err()),
        (401, "Invalid credentials".to_string())
    );
    let early = handlers::auth_login(&UserStore::new(vec![]), "oli", "pw-oli").unwrap_err();
    assert!(early.setup_required);
    assert_eq!(said(early), (503, "Setup required".to_string()));
}

#[test]
fn answers_are_sent_as_json() {
    let plain = ApiError::internal("a \"b\"".to_string());
    assert_eq!(plain.body(), "{\"message\":\"a \\\"b\\\"\",\"ok\":false}");
    let early = handlers::auth_login(&UserStore::new(vec![]), "x", "y").unwrap_err();
    assert_eq!(early.body(), "{\"message\":\"Setup required\",\"ok\":false,\"setup_required\":true}");
    let unsaid = handlers::auth_me(&UserStore::new(vec![]), None).unwrap_err();
    assert_eq!(unsaid.body(), "{\"ok\":false,\"setup_required\":true}");
    assert_eq!(handlers::ok_body(None), "{\"ok\":true}");
    assert_eq!(handlers::ok_body(Some("done")), "{\"message\":\"done\",\"ok\":true}");
    assert_eq!(
        handlers::logged_in_body("a\\b", UserRole::Viewer),
        "{\"ok\":true,\"role\":\"viewer\",\"username\":\"a\\\\b\"}"
    );
    let me = UserInfo::from_user(&user("oli", UserRole::Operator, Some(vec!["s1", "s2"])));
    assert_eq!(
        handlers::me_body(&me),
        "{\"allowed_servers\":[\"s1\",\"s2\"],\"ok\":true,\"role\":\"operator\",\"username\":\"oli\"}"
    );
    let all = UserInfo::from_user(&user("ann", UserRole::Admin, None));
    assert!(handlers::me_body(&all).starts_with("{\"allowed_servers\":null,"));
    for body in [plain.body(), handlers::ok_body(Some("\u{1}")), handlers::me_body(&me)] {
        let value: serde_json::Value = serde_json::from_str(&body).unwrap();
        assert_eq!(value.to_string(), body);
    }
    assert_eq!(handlers::favicon_names().len(), 4);
}

#[test]
fn users_learn_who_they_are() {
    let s = store();
    let me = handlers::auth_me(&s, Some("mcpanel_user=oli")).unwrap();
    assert_eq!(me.username, "oli");
    assert_eq!(me.role, UserRole::Operator);
    assert_eq!(me.allowed_servers, Some(vec!["s1".to_string()]));
    assert_eq!(
        said(handlers::auth_me(&s, Some("mcpanel_user=eve")).unwrap_err()),
        (401, "Not logged in".to_string())
    );
    assert_eq!(said(handlers::auth_me(&s, None).unwrap_err()).0, 401);
    let early = handlers::auth_me(&UserStore::new(vec![]), None).unwrap_err();
    assert!(early.setup_required);
    assert_eq!(early.status, 401);
    assert_eq!(early.message, None);
}

#[test]
fn admins_manage_accounts() {
    let mut s = store();
    let body = |name: &str, role: &str| CreateUserBody {
        username: name.to_string(),
        password: "12345678".to_string(),
        role: role.to_string(),
    };
    assert_eq!(
        said(handlers::users_create(&mut s, Some("oli"), &body("x", "viewer")).unwrap_err()),
        (403, "Forbidden".to_string())
    );
    assert!(handlers::users_create(&mut s, Some("ann"), &body("v", "viewer")).is_ok());
    assert!(handlers::users_create(&mut s, Some("ann"), &body("o", "operator")).is_ok());
    assert!(handlers::users_create(&mut s, Some("ann"), &body("a", "king")).is_ok());
    assert_eq!(s.role_of("v"), Some(UserRole::Viewer));
    assert_eq!(s.role_of("o"), Some(UserRole::Operator));
    assert_eq!(s.role_of("a"), Some(UserRole::Admin));
    assert_eq!(
        said(handlers::users_create(&mut s, Some("ann"), &body("a", "viewer")).unwrap_err()),
        (400, "user 'a' already exists".to_string())
    );
    assert_eq!(handlers::users_list(&s, Some("ann")).unwrap().len(), 6);
    assert_eq!(handlers::users_list(&s, None).unwrap_err().status, 403);
    let change = |password: Option<&str>, role: Option<&str>| UpdateUserBody {
        password: password.map(|p| p.to_string()),
        role: role.map(|r| r.to_string()),
    };
    assert!(handlers::users_update(&mut s, Some("ann"), "v", &change(None, Some("operator"))).is_ok());
    assert_eq!(s.role_of("v"), Some(UserRole::Operator));
    assert!(handlers::users_update(&mut s, Some("ann"), "v", &change(Some("pw"), Some("king"))).is_ok());
    assert_eq!(s.authenticate("v", "pw"), Some(UserRole::Operator));
    assert_eq!(
        said(handlers::users_update(&mut s, Some("ann"), "v", &change(Some(""), None)).unwrap_err()),
        (400, "password must not be empty".to_string())
    );
    assert_eq!(
        said(handlers::users_update(&mut s, Some("ann"), "none", &change(None, None)).unwrap_err()),
        (400, "user not found".to_string())
    );
    assert_eq!(
        handlers::users_update(&mut s, None, "v", &change(None, None)).unwrap_err().status,
        403
    );
    assert!(handlers::users_delete(&mut s, Some("ann"), "a").is_ok());
    assert_eq!(
        said(handlers::users_delete(&mut s, Some("ann"), "ann").unwrap_err()),
        (400, "cannot delete the last admin account".to_string())
    );
    assert_eq!(
        said(handlers::users_delete(&mut s, Some("ann"), "a").unwrap_err()),
        (400, "user not found".to_string())
    );
    assert_eq!(handlers::users_delete(&mut s, Some("v"), "o").unwrap_err().status, 403);
    assert!(handlers::is_admin(&s, Some("ann")));
    assert!(!handlers::is_admin(&s, Some("v")));
}

#[test]
fn passwords_are_changed_by_their_owners() {
    let mut s = store();
    assert_eq!(
        said(handlers::users_change_password(&mut s, None, "oli", Some("n")).unwrap_err()),
        (401, "Not logged in".to_string())
    );
    assert_eq!(
        said(handlers::users_change_password(&mut s, Some("vera"), "oli", Some("n")).unwrap_err()),
        (403, "Forbidden".to_string())
    );
    assert_eq!(
        said(handlers::users_change_password(&mut s, Some("oli"), "oli", Some("")).unwrap_err()),
        (400, "Password required".to_string())
    );
    assert_eq!(
        said(handlers::users_change_password(&mut s, Some("oli"), "oli", None).unwrap_err()),
        (400, "Password required".to_string())
    );
    assert_eq!(
        said(handlers::users_change_password(&mut s, Some("eve"), "eve", Some("n")).unwrap_err()),
        (400, "user not found".to_string())
    );
    assert!(handlers::users_change_password(&mut s, Some("oli"), "oli", Some("n1")).is_ok());
    assert_eq!(s.authenticate("oli", "n1"), Some(UserRole::Operator));
    assert!(handlers::users_change_password(&mut s, Some("ann"), "vera", Some("n2")).is_ok());
    assert_eq!(s.authenticate("vera", "n2"), Some(UserRole::Viewer));
}

#[test]
fn accounts_are_restricted_to_servers() {
    let mut s = store();
    let items = || ServerIds::Items(vec![Some("s1".to_string()), None, Some("s3".to_string())]);
    assert_eq!(handlers::users_set_servers(&mut s, Some("oli"), "vera", items()).unwrap_err().status, 403);
    assert_eq!(
        said(handlers::users_set_servers(&mut s, Some("ann"), "vera", ServerIds::Invalid).unwrap_err()),
        (400, "server_ids must be an array or null".to_string())
    );
    assert_eq!(
        said(handlers::users_set_servers(&mut s, Some("ann"), "eve", items()).unwrap_err()),
        (400, "user not found".to_string())
    );
    assert!(handlers::users_set_servers(&mut s, Some("ann"), "vera", items()).is_ok());
    assert_eq!(s.allowed_servers("vera"), Some(vec!["s1".to_string(), "s3".to_string()]));
    let all = || vec![server("s1"), server("s2"), server("s3")];
    let ids = |who: Option<&str>, s: &UserStore| -> Vec<String> {
        handlers::servers_list(s, who, all()).into_iter().map(|d| d.id).collect()
    };
    assert_eq!(ids(Some("vera"), &s), vec!["s1", "s3"]);
    assert_eq!(ids(Some("oli"), &s), vec!["s1"]);
    assert_eq!(ids(Some("ann"), &s).len(), 3);
    assert!(handlers::users_set_servers(&mut s, Some("ann"), "vera", ServerIds::All).is_ok());
    assert_eq!(ids(Some("vera"), &s).len(), 3);
}

#[test]
fn setup_happens_once() {
    let mut s = UserStore::new(vec![]);
    let body = |name: &str, password: &str| SetupBody {
        username: name.to_string(),
        password: password.to_string(),
    };
    assert!(handlers::setup_status(&s));
    assert_eq!(
        said(handlers::setup_create(&mut s, &body(" ", "12345678")).unwrap_err()),
        (400, "Username and password are required".to_string())
    );
    assert_eq!(
        said(handlers::setup_create(&mut s, &body("ann", "1234567 ")).unwrap_err()),
        (400, "Password must be at least 8 characters".to_string())
    );
    let ok = handlers::setup_create(&mut s, &body(" ann ", " 12345678 ")).unwrap();
    assert_eq!(ok.username, "ann");
    assert_eq!(session::cookie_user(ok.cookie.split(';').next()), Some("ann".to_string()));
    assert_eq!(s.authenticate("ann", "12345678"), Some(UserRole::Admin));
    assert!(!handlers::setup_status(&s));
    assert_eq!(
        said(handlers::setup_create(&mut s, &body("eve", "12345678")).unwrap_err()),
        (403, "Setup already completed".to_string())
    );
}

fn server(id: &str) -> ServerDef {
    ServerDef {
        id: id.to_string(),
        name: format!("Server {}", id),
        container_name: id.to_string(),
        data_path: "/srv/d".to_string(),
        compose_file: "/srv/docker-compose.yml".to_string(),
        port: 25565,
        created_at: String::new(),
        opencl_enabled: false,
        backup_config: None,
    }
}

#[test]
fn servers_are_found_or_not() {
    let mut reg = ServerRegistry::new("/cfg".to_string());
    reg.insert(server("s1"));
    assert_eq!(handlers::get_server(&reg, "s1").unwrap().name, "Server s1");
    assert_eq!(said(handlers::get_server(&reg, "x").unwrap_err()), (500, "server not found".to_string()));
    assert!(handlers::logs_clear(&reg, "s1").is_ok());
    assert_eq!(said(handlers::logs_clear(&reg, "x").unwrap_err()), (404, "server not found".to_string()));
    let body = |c: &str| CommandBody { command: c.to_string() };
    assert!(handlers::command(&reg, "s1", &body("list")).is_ok());
    assert_eq!(
        said(handlers::command(&reg, "x", &body("")).unwrap_err()),
        (500, "command must not be empty".to_string())
    );
    assert_eq!(
        said(handlers::command(&reg, "x", &body("list")).unwrap_err()),
        (500, "server not found".to_string())
    );
}

#[test]
fn controls_have_plans() {
    let start = Control::Start.plan();
    assert_eq!(start.action.args()[0], "up");
    assert!(start.clears_console);
    assert_eq!(start.line, "[panel] Server starting...");
    assert_eq!(start.message, "server starting");
    let stop = Control::Stop.plan();
    assert_eq!(stop.action.args(), vec!["stop"]);
    assert!(!stop.clears_console);
    assert_eq!(stop.message, "server stopping");
    let restart = Control::Restart.plan();
    assert_eq!(restart.action.args(), vec!["restart"]);
    assert!(restart.clears_console);
    assert_eq!(restart.line, "[panel] Server restarting...");
    let mut req = CreateRequest {
        name: "x".to_string(),
        port: None,
        server_type: None,
        version: None,
        memory: None,
        start_now: None,
        opencl_enabled: None,
    };
    assert!(!handlers::starts_now(&req));
    req.start_now = Some(true);
    assert!(handlers::starts_now(&req));
}

#[test]
fn files_stay_in_the_data_directory() {
    let query = |p: Option<&str>| PathQuery { path: p.map(|s| s.to_string()) };
    assert_eq!(handlers::files_dir(&query(None), "/srv/d", None).unwrap(), "/srv/d");
    assert_eq!(handlers::files_dir(&query(Some("/data/w")), "/srv/d", None).unwrap(), "/srv/d/w");
    assert_eq!(handlers::file_content(&query(None), "/srv/d", None).unwrap(), "/srv/d");
    assert_eq!(
        said(handlers::file_content(&query(Some("/data/../../x")), "/srv/d", None).unwrap_err()),
        (500, "path outside data directory".to_string())
    );
    let body = FileWriteBody { path: "/data/a.txt".to_string(), content: "x".to_string() };
    assert_eq!(handlers::file_write(&body, "/link", Some("/link")).unwrap(), "/link/a.txt");
    assert!(handlers::file_write(&body, "/link", Some("/real")).is_err());
}

#[test]
fn mods_are_handled() {
    let body = |p: &str| ModPathBody { path: p.to_string() };
    let off = handlers::mod_disable(&body("/data/mods/a.jar"), "/srv/d").unwrap();
    assert_eq!((off.from.as_str(), off.to.as_str()), ("/srv/d/mods/a.jar", "/srv/d/mods/disabled/a.jar"));
    let on = handlers::mod_enable(&body("/data/mods/disabled/a.jar"), "/srv/d").unwrap();
    assert_eq!(on.to, "/srv/d/mods/a.jar");
    assert_eq!(said(handlers::mod_enable(&body("/"), "/srv/d").unwrap_err()), (500, "invalid path".to_string()));
    assert_eq!(
        said(handlers::mod_disable(&body(".."), "/srv/d").unwrap_err()),
        (500, "invalid mod path".to_string())
    );
    assert_eq!(handlers::mod_remove(&body("/data/mods/a.jar"), "/srv/d"), "/srv/d/mods/a.jar");
    let install = |name: &str| {
        handlers::mod_install(
            &ModInstallBody { url: "https://x".to_string(), filename: name.to_string() },
            "/srv/d",
        )
    };
    let plan = install(" fabric-api.jar ").unwrap();
    assert_eq!(plan.mods_dir, "/srv/d/mods");
    assert_eq!(plan.dest, "/srv/d/mods/fabric-api.jar");
    assert_eq!(plan.filename, "fabric-api.jar");
    assert_eq!(plan.message, "Installed fabric-api.jar");
    assert_eq!(said(install("x.zip").unwrap_err()).1, "filename must end in .jar");
    for name in ["a/b.jar", "a\\b.jar", "..jar", "a...jar"] {
        assert_eq!(said(install(name).unwrap_err()), (500, "invalid filename".to_string()));
    }
    assert_eq!(said(handlers::download_failed("404 Not Found")).1, "download failed: HTTP 404 Not Found");
}

#[test]
fn pages_follow_the_browser() {
    assert!(handlers::serve_dashboard(Some("Mozilla/5.0 (iPhone; CPU)")));
    assert!(handlers::serve_dashboard(Some("X Android 14")));
    assert!(!handlers::serve_dashboard(Some("Mozilla/5.0 (X11; Linux)")));
    assert!(!handlers::serve_dashboard(None));
    assert_eq!(handlers::favicon_type("favicon.png"), "image/png");
    assert_eq!(handlers::favicon_type("favicon.ico"), "image/x-icon");
    assert!(handlers::opencl_message(true).starts_with("OpenCL enabled"));
    assert!(handlers::backup_message(false).starts_with("Backup sidecar disabled"));
}

#[test]
fn the_dashboard_adds_up() {
    let probe = |id: &str, status: Option<(bool, &str)>, players: Option<usize>| ServerProbe {
        id: id.to_string(),
        name: format!("n{}", id),
        port: 1,
        status: status.map(|(running, uptime)| ServerStatus {
            running,
            status: "s".to_string(),
            container_id: "c".to_string(),
            image: String::new(),
            uptime: uptime.to_string(),
        }),
        players,
    };
    let sum = handlers::dashboard(&vec![
        probe("1", Some((true, "5s")), Some(3)),
        probe("2", Some((true, "6s")), None),
        probe("3", Some((false, "")), Some(9)),
        probe("4", None, Some(9)),
    ]);
    assert_eq!((sum.total, sum.online, sum.players), (4, 2, 3));
    assert_eq!(sum.servers[0].uptime, "5s");
    assert!(sum.servers[1].running);
    assert!(!sum.servers[3].running);
    assert_eq!(sum.servers[3].status, "");
    assert_eq!(sum.servers[3].name, "n4");
    let running = ServerStatus {
        running: true,
        status: String::new(),
        container_id: "c".to_string(),
        image: String::new(),
        uptime: String::new(),
    };
    assert!(handlers::stats(&running));
    assert!(!handlers::stats(&ServerStatus::default()));
}
