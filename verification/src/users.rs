//! User accounts.
//!
//! There are three roles. An admin may do everything, an operator manages servers, a viewer
//! looks on. An account may be restricted to some servers. As long as there is no account the
//! panel waits to be set up; once the first admin is there, setup is closed for good.
use vstd::prelude::*;

use crate::json;
use crate::text;

verus! {

// ── Roles ─────────────────────────────────────────────────────────────────

/// What an account may do.
#[derive(Debug, Clone, Copy, PartialEq, Eq, Structural)]
pub enum UserRole {
    Admin,
    Operator,
    Viewer,
}

impl UserRole {
    /// The name of the role.
    pub open spec fn text(self) -> Seq<char> {
        match self {
            UserRole::Admin => "admin"@,
            UserRole::Operator => "operator"@,
            UserRole::Viewer => "viewer"@,
        }
    }

    /// How far the role reaches.
    pub open spec fn rank(self) -> int {
        match self {
            UserRole::Admin => 2,
            UserRole::Operator => 1,
            UserRole::Viewer => 0,
        }
    }

    /// The name of the role.
    pub fn to_string(&self) -> (r: String)
        ensures
            r@ == self.text(),
    {
        match self {
            UserRole::Admin => "admin".to_owned(),
            UserRole::Operator => "operator".to_owned(),
            UserRole::Viewer => "viewer".to_owned(),
        }
    }

    /// The role of that name.
    pub fn from_str(s: &str) -> (r: Result<UserRole, ()>)
        ensures
            r == (match named_role(s@) {
                Some(role) => Ok::<UserRole, ()>(role),
                None => Err::<UserRole, ()>(()),
            }),
    {
        if text::same(s, "admin") {
            Ok(UserRole::Admin)
        } else if text::same(s, "operator") {
            Ok(UserRole::Operator)
        } else if text::same(s, "viewer") {
            Ok(UserRole::Viewer)
        } else {
            Err(())
        }
    }

    /// Whether the role reaches as far as another.
    pub fn reaches(self, min: UserRole) -> (r: bool)
        ensures
            r == (self.rank() >= min.rank()),
    {
        match min {
            UserRole::Viewer => true,
            UserRole::Operator => match self {
                UserRole::Viewer => false,
                _ => true,
            },
            UserRole::Admin => match self {
                UserRole::Admin => true,
                _ => false,
            },
        }
    }
}

/// The role of that name.
pub open spec fn named_role(s: Seq<char>) -> Option<UserRole> {
    if s == "admin"@ {
        Some(UserRole::Admin)
    } else if s == "operator"@ {
        Some(UserRole::Operator)
    } else if s == "viewer"@ {
        Some(UserRole::Viewer)
    } else {
        None
    }
}

/// The name of a role names that role.
pub proof fn law_role_names(role: UserRole)
    ensures
        named_role(role.text()) == Some(role),
{
    reveal_strlit("admin");
    reveal_strlit("operator");
    reveal_strlit("viewer");
    assert("operator"@.len() != "admin"@.len());
    assert("viewer"@.len() != "admin"@.len());
    assert("viewer"@.len() != "operator"@.len());
}

// ── Accounts ──────────────────────────────────────────────────────────────

/// An account.
#[derive(Debug)]
pub struct User {
    pub username: String,
    pub password: String,
    pub role: UserRole,
    /// The ids of the servers that the account is restricted to; all servers where there is no
    /// list.
    pub allowed_servers: Option<Vec<String>>,
}

/// The value of a [`User`].
#[verifier::ext_equal]
pub struct UserView {
    pub username: Seq<char>,
    pub password: Seq<char>,
    pub role: UserRole,
    pub allowed_servers: Option<Seq<Seq<char>>>,
}

impl View for User {
    type V = UserView;

    open spec fn view(&self) -> UserView {
        UserView {
            username: self.username@,
            password: self.password@,
            role: self.role,
            allowed_servers: text::opt_views(self.allowed_servers),
        }
    }
}

impl Clone for User {
    fn clone(&self) -> (r: Self)
        ensures
            r@ == self@,
    {
        User {
            username: self.username.clone(),
            password: self.password.clone(),
            role: self.role,
            allowed_servers: text::copy_opt_strings(&self.allowed_servers),
        }
    }
}

/// What is shown of an account: all but the password.
#[derive(Debug)]
pub struct UserInfo {
    pub username: String,
    pub role: UserRole,
    pub allowed_servers: Option<Vec<String>>,
}

/// The value of a [`UserInfo`].
#[verifier::ext_equal]
pub struct UserInfoView {
    pub username: Seq<char>,
    pub role: UserRole,
    pub allowed_servers: Option<Seq<Seq<char>>>,
}

impl View for UserInfo {
    type V = UserInfoView;

    open spec fn view(&self) -> UserInfoView {
        UserInfoView {
            username: self.username@,
            role: self.role,
            allowed_servers: text::opt_views(self.allowed_servers),
        }
    }
}

impl UserView {
    /// What is shown of the account.
    pub open spec fn info(self) -> UserInfoView {
        UserInfoView {
            username: self.username,
            role: self.role,
            allowed_servers: self.allowed_servers,
        }
    }
}

impl UserInfo {
    /// What is shown of the account.
    pub fn from_user(u: &User) -> (r: UserInfo)
        ensures
            r@ == u@.info(),
    {
        UserInfo {
            username: u.username.clone(),
            role: u.role,
            allowed_servers: text::copy_opt_strings(&u.allowed_servers),
        }
    }
}

// ── Stored accounts ───────────────────────────────────────────────────────

/// An account as the database keeps it.
#[derive(Debug)]
pub struct UserRow {
    pub username: String,
    pub password: String,
    /// The name of the role.
    pub role: String,
    /// A JSON list of server ids, if there is one.
    pub allowed_servers: Option<String>,
}

/// The account that a row stands for. A role that is none counts as the least, and a list that
/// is none as no list.
pub open spec fn stored_user(row: UserRow) -> UserView {
    UserView {
        username: row.username@,
        password: row.password@,
        role: match named_role(row.role@) {
            Some(role) => role,
            None => UserRole::Viewer,
        },
        allowed_servers: match row.allowed_servers {
            Some(s) => json::json_list_read(s@),
            None => None,
        },
    }
}

impl User {
    /// The account that a row stands for.
    pub fn from_row(row: UserRow) -> (r: User)
        ensures
            r@ == stored_user(row),
    {
        let role = match UserRole::from_str(row.role.as_str()) {
            Ok(role) => role,
            Err(_) => UserRole::Viewer,
        };
        let allowed_servers = match &row.allowed_servers {
            Some(s) => json::read_list(s.as_str()),
            None => None,
        };
        User { username: row.username, password: row.password, role, allowed_servers }
    }

    /// The row that an account is stored as. The row stands for the account that it was made
    /// from.
    pub fn to_row(&self) -> (r: UserRow)
        ensures
            r.username@ == self@.username,
            r.password@ == self@.password,
            r.role@ == self@.role.text(),
            text::opt_view(r.allowed_servers) == (match self@.allowed_servers {
                Some(list) => Some(json::json_list(list)),
                None => None,
            }),
            stored_user(r) == self@,
    {
        proof {
            law_role_names(self.role);
        }
        UserRow {
            username: self.username.clone(),
            password: self.password.clone(),
            role: self.role.to_string(),
            allowed_servers: match &self.allowed_servers {
                Some(list) => Some(json::write_list(list)),
                None => None,
            },
        }
    }
}

// ── Errors ────────────────────────────────────────────────────────────────

/// Why a change to the accounts is refused.
#[derive(Debug)]
pub enum UserError {
    /// A name or a password is empty.
    EmptyAccount,
    /// There is an account of that name.
    Exists(String),
    /// There is no account of that name.
    NotFound,
    /// The account is the only admin, who cannot be deleted.
    LastAdmin,
    /// The account is the only admin, who has to stay one.
    OnlyAdmin,
    /// A password is empty.
    EmptyPassword,
    /// The first account could not be created.
    InitialAdmin,
}

impl UserError {
    /// What the error says.
    pub open spec fn text(self) -> Seq<char> {
        match self {
            UserError::EmptyAccount => "username and password must not be empty"@,
            UserError::Exists(name) => "user '"@ + name@ + "' already exists"@,
            UserError::NotFound => "user not found"@,
            UserError::LastAdmin => "cannot delete the last admin account"@,
            UserError::OnlyAdmin => "cannot change the role of the last admin account"@,
            UserError::EmptyPassword => "password must not be empty"@,
            UserError::InitialAdmin => "creating initial admin account"@,
        }
    }

    /// What the error says.
    pub fn message(&self) -> (r: String)
        ensures
            r@ == self.text(),
    {
        match self {
            UserError::EmptyAccount => "username and password must not be empty".to_owned(),
            UserError::Exists(name) => text::cat3("user '", name.as_str(), "' already exists"),
            UserError::NotFound => "user not found".to_owned(),
            UserError::LastAdmin => "cannot delete the last admin account".to_owned(),
            UserError::OnlyAdmin => "cannot change the role of the last admin account".to_owned(),
            UserError::EmptyPassword => "password must not be empty".to_owned(),
            UserError::InitialAdmin => "creating initial admin account".to_owned(),
        }
    }
}

// ── Store ─────────────────────────────────────────────────────────────────

/// The values of a list of accounts.
pub open spec fn user_views(list: Seq<User>) -> Seq<UserView> {
    list.map_values(|u: User| u@)
}

/// Whether no two accounts have one name.
pub open spec fn unique_names(users: Seq<UserView>) -> bool {
    forall|i: int, j: int|
        0 <= i < j < users.len() ==> #[trigger] users[i].username != #[trigger] users[j].username
}

/// Whether an account of that name stands there.
pub open spec fn is_at(users: Seq<UserView>, name: Seq<char>, i: int) -> bool {
    0 <= i < users.len() && users[i].username == name
}

/// Whether there is an account of that name.
pub open spec fn has_user(users: Seq<UserView>, name: Seq<char>) -> bool {
    exists|i: int| is_at(users, name, i)
}

/// Where the account of that name stands.
pub open spec fn place_of(users: Seq<UserView>, name: Seq<char>) -> int {
    choose|i: int| is_at(users, name, i)
}

/// The account of that name.
pub open spec fn lookup(users: Seq<UserView>, name: Seq<char>) -> Option<UserView> {
    if has_user(users, name) {
        Some(users[place_of(users, name)])
    } else {
        None
    }
}

/// The role of whoever gives that name and that password, where both are right.
pub open spec fn signed_in(
    users: Seq<UserView>,
    name: Seq<char>,
    password: Seq<char>,
) -> Option<UserRole> {
    match lookup(users, name) {
        Some(u) => if u.password == password {
            Some(u.role)
        } else {
            None
        },
        None => None,
    }
}

/// How many admins there are.
pub open spec fn admins(users: Seq<UserView>) -> nat
    decreases users.len(),
{
    if users.len() == 0 {
        0
    } else {
        admins(users.drop_last()) + (if users.last().role == UserRole::Admin {
            1nat
        } else {
            0
        })
    }
}

/// The accounts without those whose name came before.
pub open spec fn distinct(users: Seq<UserView>) -> Seq<UserView>
    decreases users.len(),
{
    if users.len() == 0 {
        Seq::empty()
    } else {
        let before = distinct(users.drop_last());
        if has_user(before, users.last().username) {
            before
        } else {
            before.push(users.last())
        }
    }
}

/// The account after an update.
pub open spec fn updated(
    u: UserView,
    password: Option<Seq<char>>,
    role: Option<UserRole>,
) -> UserView {
    UserView {
        password: match password {
            Some(p) => p,
            None => u.password,
        },
        role: match role {
            Some(r) => r,
            None => u.role,
        },
        ..u
    }
}

/// Whether to give an account that role is to take it from the only admin.
pub open spec fn unseats_last_admin(
    users: Seq<UserView>,
    name: Seq<char>,
    role: Option<UserRole>,
) -> bool {
    &&& lookup(users, name) matches Some(u) && u.role == UserRole::Admin
    &&& admins(users) <= 1
    &&& role matches Some(r) && r != UserRole::Admin
}

/// A change to the accounts that is asked for.
pub enum UserChange {
    Create { username: Seq<char>, password: Seq<char>, role: UserRole },
    Update { username: Seq<char>, new_password: Option<Seq<char>>, new_role: Option<UserRole> },
    Delete { username: Seq<char> },
    Restrict { username: Seq<char>, ids: Option<Seq<Seq<char>>> },
}

/// Whether the change is allowed.
pub open spec fn is_allowed(users: Seq<UserView>, change: UserChange) -> bool {
    match change {
        UserChange::Create { username, password, .. } => username.len() > 0 && password.len() > 0
            && !has_user(users, username),
        UserChange::Update { username, new_password, new_role } => has_user(users, username) && !(
        new_password matches Some(p) && p.len() == 0) && !unseats_last_admin(
            users,
            username,
            new_role,
        ),
        UserChange::Delete { username } => lookup(users, username) matches Some(u) && !(u.role
            == UserRole::Admin && admins(users) <= 1),
        UserChange::Restrict { username, .. } => has_user(users, username),
    }
}

/// The accounts after a change; one that is not allowed changes nothing.
pub open spec fn after_change(users: Seq<UserView>, change: UserChange) -> Seq<UserView> {
    if !is_allowed(users, change) {
        users
    } else {
        match change {
            UserChange::Create { username, password, role } => users.push(
                UserView { username, password, role, allowed_servers: None },
            ),
            UserChange::Update { username, new_password, new_role } => {
                let at = place_of(users, username);
                users.update(at, updated(users[at], new_password, new_role))
            },
            UserChange::Delete { username } => users.remove(place_of(users, username)),
            UserChange::Restrict { username, ids } => {
                let at = place_of(users, username);
                users.update(at, UserView { allowed_servers: ids, ..users[at] })
            },
        }
    }
}

/// The accounts after one change after the other.
pub open spec fn after_changes(users: Seq<UserView>, changes: Seq<UserChange>) -> Seq<UserView>
    decreases changes.len(),
{
    if changes.len() == 0 {
        users
    } else {
        after_change(after_changes(users, changes.drop_last()), changes.last())
    }
}

proof fn lemma_place(users: Seq<UserView>, name: Seq<char>, i: int)
    requires
        unique_names(users),
        is_at(users, name, i),
    ensures
        has_user(users, name),
        place_of(users, name) == i,
        lookup(users, name) == Some(users[i]),
{
    let j = place_of(users, name);
    assert(is_at(users, name, j));
    if i < j {
        assert(users[i].username != users[j].username);
    } else if j < i {
        assert(users[j].username != users[i].username);
    }
}

proof fn lemma_replaced(users: Seq<UserView>, i: int, u: UserView)
    requires
        unique_names(users),
        0 <= i < users.len(),
        u.username == users[i].username,
    ensures
        unique_names(users.update(i, u)),
{
    let after = users.update(i, u);
    assert forall|a: int, b: int| 0 <= a < b < after.len() implies #[trigger] after[a].username
        != #[trigger] after[b].username by {
        assert(after[a].username == users[a].username);
        assert(after[b].username == users[b].username);
    }
}

/// The accounts.
pub struct UserStore {
    users: Vec<User>,
}

impl View for UserStore {
    type V = Seq<UserView>;

    closed spec fn view(&self) -> Seq<UserView> {
        user_views(self.users@)
    }
}

impl UserStore {
    #[verifier::type_invariant]
    spec fn inv(self) -> bool {
        unique_names(user_views(self.users@))
    }

    /// The accounts that were stored. Of two with one name the first counts.
    pub fn new(stored: Vec<User>) -> (r: UserStore)
        ensures
            r@ == distinct(user_views(stored@)),
            unique_names(r@),
    {
        let ghost all = user_views(stored@);
        let mut users: Vec<User> = Vec::new();
        let mut i: usize = 0;
        proof {
            assert(all.take(0) =~= Seq::<UserView>::empty());
            assert(user_views(users@) =~= distinct(all.take(0)));
        }
        while i < stored.len()
            invariant
                i <= stored.len(),
                all == user_views(stored@),
                user_views(users@) == distinct(all.take(i as int)),
                unique_names(user_views(users@)),
            decreases stored.len() - i,
        {
            let ghost before = user_views(users@);
            proof {
                assert(all.take(i + 1).drop_last() =~= all.take(i as int));
                assert(all.take(i + 1).last() == stored@[i as int]@);
            }
            if find(&users, stored[i].username.as_str()).is_none() {
                users.push(stored[i].clone());
                proof {
                    let u = stored@[i as int]@;
                    assert(user_views(users@) =~= before.push(u));
                    assert forall|a: int, b: int| 0 <= a < b < before.push(
                        u,
                    ).len() implies #[trigger] before.push(u)[a].username != #[trigger] before.push(
                        u,
                    )[b].username by {
                        if b == before.len() {
                            assert(!is_at(before, u.username, a));
                        }
                    }
                }
            }
            i += 1;
        }
        proof {
            assert(all.take(i as int) =~= all);
        }
        UserStore { users }
    }

    /// Whether there is no account yet, and the panel waits to be set up.
    pub fn needs_setup(&self) -> (r: bool)
        ensures
            r == (self@.len() == 0),
    {
        self.users.len() == 0
    }

    /// Whether there is no account.
    pub fn is_empty(&self) -> (r: bool)
        ensures
            r == (self@.len() == 0),
    {
        self.users.len() == 0
    }

    /// The account of that name.
    pub fn get(&self, username: &str) -> (r: Option<User>)
        ensures
            unique_names(self@),
            match r {
                Some(u) => lookup(self@, username@) == Some(u@) && u@.username == username@,
                None => lookup(self@, username@).is_none(),
            },
    {
        proof {
            use_type_invariant(self);
        }
        match find(&self.users, username) {
            Some(i) => {
                proof {
                    lemma_place(self@, username@, i as int);
                }
                Some(self.users[i].clone())
            },
            None => None,
        }
    }

    /// The role of an account, where name and password are right.
    pub fn authenticate(&self, username: &str, password: &str) -> (r: Option<UserRole>)
        ensures
            r == (match lookup(self@, username@) {
                Some(u) => if u.password == password@ {
                    Some(u.role)
                } else {
                    None
                },
                None => None,
            }),
            r == signed_in(self@, username@, password@),
    {
        match self.get(username) {
            Some(u) => if text::same(u.password.as_str(), password) {
                Some(u.role)
            } else {
                None
            },
            None => None,
        }
    }

    /// All accounts, as they are shown.
    pub fn list(&self) -> (r: Vec<UserInfo>)
        ensures
            r@.map_values(|i: UserInfo| i@) == self@.map_values(|u: UserView| u.info()),
    {
        let ghost all = self@.map_values(|u: UserView| u.info());
        let mut out: Vec<UserInfo> = Vec::new();
        let mut i: usize = 0;
        while i < self.users.len()
            invariant
                i <= self.users.len(),
                all == self@.map_values(|u: UserView| u.info()),
                out@.map_values(|i: UserInfo| i@) == all.take(i as int),
            decreases self.users.len() - i,
        {
            let ghost before = out@.map_values(|i: UserInfo| i@);
            out.push(UserInfo::from_user(&self.users[i]));
            proof {
                assert(out@.map_values(|i: UserInfo| i@) =~= before.push(
                    self.users@[i as int]@.info(),
                ));
                assert(out@.map_values(|i: UserInfo| i@) =~= all.take(i + 1));
            }
            i += 1;
        }
        proof {
            assert(all.take(i as int) =~= all);
        }
        out
    }

    /// Adds an account.
    pub fn create(&mut self, username: &str, password: &str, role: UserRole) -> (r: Result<
        (),
        UserError,
    >)
        ensures
            unique_names(final(self)@),
            final(self)@ == after_change(
                old(self)@,
                UserChange::Create { username: username@, password: password@, role },
            ),
            match r {
                Ok(()) => {
                    &&& username@.len() > 0 && password@.len() > 0
                    &&& !has_user(old(self)@, username@)
                    &&& final(self)@ == old(self)@.push(
                        UserView {
                            username: username@,
                            password: password@,
                            role,
                            allowed_servers: None,
                        },
                    )
                },
                Err(e) => {
                    &&& final(self)@ == old(self)@
                    &&& if username@.len() == 0 || password@.len() == 0 {
                        e is EmptyAccount
                    } else {
                        has_user(old(self)@, username@) && (e matches UserError::Exists(name)
                            && name@ == username@)
                    }
                },
            },
    {
        proof {
            use_type_invariant(&*self);
        }
        if username.is_empty() || password.is_empty() {
            return Err(UserError::EmptyAccount);
        }
        if find(&self.users, username).is_some() {
            return Err(UserError::Exists(username.to_owned()));
        }
        let ghost before = self@;
        let user = User {
            username: username.to_owned(),
            password: password.to_owned(),
            role,
            allowed_servers: None,
        };
        let ghost u = user@;
        let mut users = copy_users(&self.users);
        users.push(user);
        proof {
            assert(user_views(users@) =~= before.push(u));
            assert forall|a: int, b: int| 0 <= a < b < before.push(
                u,
            ).len() implies #[trigger] before.push(u)[a].username != #[trigger] before.push(
                u,
            )[b].username by {
                if b == before.len() {
                    assert(!is_at(before, u.username, a));
                }
            }
        }
        self.users = users;
        Ok(())
    }

    fn admin_count(&self) -> (r: usize)
        ensures
            r == admins(self@),
    {
        let ghost all = self@;
        let mut n: usize = 0;
        let mut i: usize = 0;
        while i < self.users.len()
            invariant
                i <= self.users.len(),
                all == user_views(self.users@),
                n == admins(all.take(i as int)),
                n <= i,
            decreases self.users.len() - i,
        {
            proof {
                assert(all.take(i + 1).drop_last() =~= all.take(i as int));
                assert(all.take(i + 1).last() == self.users@[i as int]@);
            }
            if self.users[i].role == UserRole::Admin {
                n += 1;
            }
            i += 1;
        }
        proof {
            assert(all.take(i as int) =~= all);
        }
        n
    }

    /// Removes an account, but not the last admin.
    pub fn delete(&mut self, username: &str) -> (r: Result<(), UserError>)
        ensures
            unique_names(final(self)@),
            final(self)@ == after_change(old(self)@, UserChange::Delete { username: username@ }),
            match r {
                Ok(()) => {
                    &&& lookup(old(self)@, username@) matches Some(u) && !(u.role == UserRole::Admin
                        && admins(old(self)@) <= 1)
                    &&& final(self)@ == old(self)@.remove(place_of(old(self)@, username@))
                    &&& !has_user(final(self)@, username@)
                },
                Err(e) => {
                    &&& final(self)@ == old(self)@
                    &&& match lookup(old(self)@, username@) {
                        Some(u) => u.role == UserRole::Admin && admins(old(self)@) <= 1
                            && e is LastAdmin,
                        None => e is NotFound,
                    }
                },
            },
    {
        proof {
            use_type_invariant(&*self);
        }
        match find(&self.users, username) {
            None => Err(UserError::NotFound),
            Some(i) => {
                let ghost before = self@;
                proof {
                    lemma_place(before, username@, i as int);
                }
                if self.users[i].role == UserRole::Admin && self.admin_count() <= 1 {
                    return Err(UserError::LastAdmin);
                }
                let mut users = copy_users(&self.users);
                let _ = users.remove(i);
                proof {
                    let after = before.remove(i as int);
                    assert(user_views(users@) =~= after);
                    assert forall|k: int| 0 <= k < after.len() implies #[trigger] after[k]
                        == before[if k < i {
                        k
                    } else {
                        k + 1
                    }] by {}
                    assert forall|a: int, b: int|
                        0 <= a < b < after.len() implies #[trigger] after[a].username
                        != #[trigger] after[b].username by {
                        let (x, y) = (
                            if a < i {
                                a
                            } else {
                                a + 1
                            },
                            if b < i {
                                b
                            } else {
                                b + 1
                            },
                        );
                        assert(before[x].username != before[y].username);
                    }
                    assert forall|k: int| !is_at(after, username@, k) by {
                        if is_at(after, username@, k) {
                            let x = if k < i {
                                k
                            } else {
                                k + 1
                            };
                            assert(is_at(before, username@, x));
                            lemma_place(before, username@, x);
                        }
                    }
                }
                self.users = users;
                Ok(())
            },
        }
    }

    fn replace(&mut self, i: usize, user: User)
        requires
            i < old(self)@.len(),
            user@.username == old(self)@[i as int].username,
        ensures
            final(self)@ == old(self)@.update(i as int, user@),
    {
        proof {
            use_type_invariant(&*self);
        }
        let ghost before = self@;
        let ghost u = user@;
        let mut users = copy_users(&self.users);
        users.set(i, user);
        proof {
            assert(user_views(users@) =~= before.update(i as int, u));
            lemma_replaced(before, i as int, u);
        }
        self.users = users;
    }

    /// Changes the password of an account, its role, or both. The only admin stays one.
    pub fn update(&mut self, username: &str, password: Option<&str>, role: Option<UserRole>) -> (r:
        Result<(), UserError>)
        ensures
            unique_names(final(self)@),
            final(self)@ == after_change(
                old(self)@,
                UserChange::Update {
                    username: username@,
                    new_password: text::opt_str_view(password),
                    new_role: role,
                },
            ),
            match r {
                Ok(()) => {
                    &&& lookup(old(self)@, username@) matches Some(u) && final(self)@ == old(
                        self,
                    )@.update(
                        place_of(old(self)@, username@),
                        updated(u, text::opt_str_view(password), role),
                    )
                    &&& password matches Some(p) ==> p@.len() > 0
                    &&& !unseats_last_admin(old(self)@, username@, role)
                },
                Err(e) => {
                    &&& final(self)@ == old(self)@
                    &&& if lookup(old(self)@, username@).is_none() {
                        e is NotFound
                    } else if password matches Some(p) && p@.len() == 0 {
                        e is EmptyPassword
                    } else {
                        unseats_last_admin(old(self)@, username@, role) && e is OnlyAdmin
                    }
                },
            },
    {
        proof {
            use_type_invariant(&*self);
        }
        match find(&self.users, username) {
            None => Err(UserError::NotFound),
            Some(i) => {
                proof {
                    lemma_place(self@, username@, i as int);
                }
                let mut user = self.users[i].clone();
                match password {
                    Some(p) => {
                        if p.is_empty() {
                            return Err(UserError::EmptyPassword);
                        }
                        user.password = p.to_owned();
                    },
                    None => {},
                }
                match role {
                    Some(r) => {
                        if user.role == UserRole::Admin && r != UserRole::Admin
                            && self.admin_count() <= 1 {
                            return Err(UserError::OnlyAdmin);
                        }
                        user.role = r;
                    },
                    None => {},
                }
                self.replace(i, user);
                Ok(())
            },
        }
    }

    /// The role of an account.
    pub fn role_of(&self, username: &str) -> (r: Option<UserRole>)
        ensures
            r == (match lookup(self@, username@) {
                Some(u) => Some(u.role),
                None => None,
            }),
    {
        match self.get(username) {
            Some(u) => Some(u.role),
            None => None,
        }
    }

    /// The ids of the servers that an account is restricted to. There is no list for an account
    /// that may see all, and none for an account that is not there.
    pub fn allowed_servers(&self, username: &str) -> (r: Option<Vec<String>>)
        ensures
            text::opt_views(r) == (match lookup(self@, username@) {
                Some(u) => u.allowed_servers,
                None => None,
            }),
    {
        match self.get(username) {
            Some(u) => u.allowed_servers,
            None => None,
        }
    }

    /// Restricts an account to some servers, or to none in particular.
    pub fn set_allowed_servers(&mut self, username: &str, ids: Option<Vec<String>>) -> (r: Result<
        (),
        UserError,
    >)
        ensures
            unique_names(final(self)@),
            final(self)@ == after_change(
                old(self)@,
                UserChange::Restrict { username: username@, ids: text::opt_views(ids) },
            ),
            match r {
                Ok(()) => lookup(old(self)@, username@) matches Some(u) && final(self)@ == old(
                    self,
                )@.update(
                    place_of(old(self)@, username@),
                    UserView { allowed_servers: text::opt_views(ids), ..u },
                ),
                Err(e) => final(self)@ == old(self)@ && lookup(
                    old(self)@,
                    username@,
                ).is_none() && e is NotFound,
            },
    {
        proof {
            use_type_invariant(&*self);
        }
        match find(&self.users, username) {
            None => Err(UserError::NotFound),
            Some(i) => {
                proof {
                    lemma_place(self@, username@, i as int);
                }
                let mut user = self.users[i].clone();
                user.allowed_servers = ids;
                self.replace(i, user);
                Ok(())
            },
        }
    }

    /// Creates the first account, an admin.
    pub fn bootstrap(&mut self, username: &str, password: &str) -> (r: Result<(), UserError>)
        ensures
            unique_names(final(self)@),
            final(self)@ == after_change(
                old(self)@,
                UserChange::Create {
                    username: username@,
                    password: password@,
                    role: UserRole::Admin,
                },
            ),
            match r {
                Ok(()) => {
                    &&& username@.len() > 0 && password@.len() > 0
                    &&& !has_user(old(self)@, username@)
                    &&& final(self)@ == old(self)@.push(
                        UserView {
                            username: username@,
                            password: password@,
                            role: UserRole::Admin,
                            allowed_servers: None,
                        },
                    )
                },
                Err(e) => {
                    &&& final(self)@ == old(self)@
                    &&& username@.len() == 0 || password@.len() == 0 || has_user(
                        old(self)@,
                        username@,
                    )
                    &&& e is InitialAdmin
                },
            },
    {
        match self.create(username, password, UserRole::Admin) {
            Ok(()) => Ok(()),
            Err(_) => Err(UserError::InitialAdmin),
        }
    }
}

fn find(users: &Vec<User>, username: &str) -> (r: Option<usize>)
    ensures
        match r {
            Some(i) => is_at(user_views(users@), username@, i as int),
            None => !has_user(user_views(users@), username@),
        },
{
    let ghost all = user_views(users@);
    let mut i: usize = 0;
    while i < users.len()
        invariant
            i <= users.len(),
            all == user_views(users@),
            forall|k: int| 0 <= k < i ==> !is_at(all, username@, k),
        decreases users.len() - i,
    {
        if text::same(users[i].username.as_str(), username) {
            return Some(i);
        }
        i += 1;
    }
    None
}

fn copy_users(users: &Vec<User>) -> (r: Vec<User>)
    ensures
        user_views(r@) == user_views(users@),
{
    let mut out: Vec<User> = Vec::new();
    let mut i: usize = 0;
    while i < users.len()
        invariant
            i <= users.len(),
            user_views(out@) == user_views(users@).take(i as int),
        decreases users.len() - i,
    {
        let ghost before = user_views(out@);
        out.push(users[i].clone());
        proof {
            assert(user_views(out@) =~= before.push(users@[i as int]@));
            assert(user_views(out@) =~= user_views(users@).take(i + 1));
        }
        i += 1;
    }
    proof {
        assert(user_views(users@).take(i as int) =~= user_views(users@));
    }
    out
}

// ── Laws ──────────────────────────────────────────────────────────────────

/// Stored accounts whose names differ are all taken as they are.
pub proof fn law_stored_accounts_stay(users: Seq<UserView>)
    requires
        unique_names(users),
    ensures
        distinct(users) == users,
    decreases users.len(),
{
    if users.len() > 0 {
        let init = users.drop_last();
        assert forall|a: int, b: int| 0 <= a < b < init.len() implies #[trigger] init[a].username
            != #[trigger] init[b].username by {
            assert(users[a].username != users[b].username);
        }
        law_stored_accounts_stay(init);
        let last = users.last();
        if has_user(init, last.username) {
            let k = place_of(init, last.username);
            assert(is_at(init, last.username, k));
            assert(users[k].username != users[users.len() - 1].username);
        }
        assert(init.push(last) =~= users);
    } else {
        assert(distinct(users) =~= users);
    }
}

/// A new account is found under its name, and no other account is touched.
pub proof fn law_created_is_found(users: Seq<UserView>, u: UserView, other: Seq<char>)
    requires
        unique_names(users),
        !has_user(users, u.username),
        other != u.username,
    ensures
        unique_names(users.push(u)),
        lookup(users.push(u), u.username) == Some(u),
        lookup(users.push(u), other) == lookup(users, other),
{
    let after = users.push(u);
    assert forall|a: int, b: int| 0 <= a < b < after.len() implies #[trigger] after[a].username
        != #[trigger] after[b].username by {
        if b == users.len() {
            assert(!is_at(users, u.username, a));
        } else {
            assert(users[a].username != users[b].username);
        }
    }
    lemma_place(after, u.username, users.len() as int);
    if has_user(users, other) {
        let i = place_of(users, other);
        assert(is_at(after, other, i));
        lemma_place(after, other, i);
    } else if has_user(after, other) {
        let i = place_of(after, other);
        assert(is_at(users, other, i));
    }
}

/// A changed account is found as it was changed, and no other account is touched.
pub proof fn law_changed_is_found(
    users: Seq<UserView>,
    name: Seq<char>,
    u: UserView,
    other: Seq<char>,
)
    requires
        unique_names(users),
        has_user(users, name),
        u.username == name,
        other != name,
    ensures
        unique_names(users.update(place_of(users, name), u)),
        lookup(users.update(place_of(users, name), u), name) == Some(u),
        lookup(users.update(place_of(users, name), u), other) == lookup(users, other),
{
    let i = place_of(users, name);
    assert(is_at(users, name, i));
    let after = users.update(i, u);
    lemma_replaced(users, i, u);
    assert(is_at(after, name, i));
    lemma_place(after, name, i);
    if has_user(users, other) {
        let j = place_of(users, other);
        assert(is_at(users, other, j));
        assert(is_at(after, other, j));
        lemma_place(after, other, j);
    } else if has_user(after, other) {
        let j = place_of(after, other);
        assert(is_at(after, other, j));
        assert(is_at(users, other, j));
    }
}

/// To remove an account touches no other account.
pub proof fn law_removed_is_gone(users: Seq<UserView>, name: Seq<char>, other: Seq<char>)
    requires
        unique_names(users),
        has_user(users, name),
        other != name,
    ensures
        lookup(users.remove(place_of(users, name)), other) == lookup(users, other),
        lookup(users.remove(place_of(users, name)), name).is_none(),
        unique_names(users.remove(place_of(users, name))),
{
    let i = place_of(users, name);
    assert(is_at(users, name, i));
    let after = users.remove(i);
    assert forall|k: int| 0 <= k < after.len() implies #[trigger] after[k] == users[if k < i {
        k
    } else {
        k + 1
    }] by {}
    assert forall|a: int, b: int| 0 <= a < b < after.len() implies #[trigger] after[a].username
        != #[trigger] after[b].username by {
        let (x, y) = (
            if a < i {
                a
            } else {
                a + 1
            },
            if b < i {
                b
            } else {
                b + 1
            },
        );
        assert(users[x].username != users[y].username);
    }
    if has_user(users, other) {
        let j = place_of(users, other);
        assert(is_at(users, other, j));
        let k = if j < i {
            j
        } else {
            j - 1
        };
        assert(is_at(after, other, k));
        lemma_place(after, other, k);
    } else if has_user(after, other) {
        let k = place_of(after, other);
        assert(is_at(after, other, k));
        assert(is_at(users, other, if k < i {
            k
        } else {
            k + 1
        }));
    }
    if has_user(after, name) {
        let k = place_of(after, name);
        assert(is_at(after, name, k));
        let x = if k < i {
            k
        } else {
            k + 1
        };
        assert(is_at(users, name, x));
        lemma_place(users, name, x);
    }
}

spec fn counts(u: UserView) -> int {
    if u.role == UserRole::Admin {
        1
    } else {
        0
    }
}

proof fn lemma_admins_remove(users: Seq<UserView>, i: int)
    requires
        0 <= i < users.len(),
    ensures
        admins(users.remove(i)) == admins(users) - counts(users[i]),
    decreases users.len(),
{
    if i == users.len() - 1 {
        assert(users.remove(i) =~= users.drop_last());
    } else {
        lemma_admins_remove(users.drop_last(), i);
        assert(users.remove(i).drop_last() =~= users.drop_last().remove(i));
        assert(users.remove(i).last() == users.last());
    }
}

proof fn lemma_admins_update(users: Seq<UserView>, i: int, u: UserView)
    requires
        0 <= i < users.len(),
    ensures
        admins(users.update(i, u)) == admins(users) - counts(users[i]) + counts(u),
    decreases users.len(),
{
    if i == users.len() - 1 {
        assert(users.update(i, u).drop_last() =~= users.drop_last());
    } else {
        lemma_admins_update(users.drop_last(), i, u);
        assert(users.update(i, u).drop_last() =~= users.drop_last().update(i, u));
        assert(users.update(i, u).last() == users.last());
    }
}

/// As long as there is an admin, every change leaves one.
pub proof fn law_admin_outlives_change(users: Seq<UserView>, change: UserChange)
    requires
        admins(users) >= 1,
    ensures
        admins(after_change(users, change)) >= 1,
        after_change(users, change).len() > 0,
{
    if is_allowed(users, change) {
        match change {
            UserChange::Create { username, password, role } => {
                let u = UserView { username, password, role, allowed_servers: None };
                assert(users.push(u).drop_last() =~= users);
            },
            UserChange::Update { username, new_password, new_role } => {
                let i = place_of(users, username);
                assert(is_at(users, username, i));
                lemma_admins_update(users, i, updated(users[i], new_password, new_role));
            },
            UserChange::Delete { username } => {
                let i = place_of(users, username);
                assert(is_at(users, username, i));
                lemma_admins_remove(users, i);
            },
            UserChange::Restrict { username, ids } => {
                let i = place_of(users, username);
                assert(is_at(users, username, i));
                lemma_admins_update(users, i, UserView { allowed_servers: ids, ..users[i] });
            },
        }
    }
}

/// Once there is an admin, one is there for good, whatever is created, changed, deleted or
/// restricted: the panel is never open to be set up again.
pub proof fn law_setup_stays_closed(users: Seq<UserView>, changes: Seq<UserChange>)
    requires
        admins(users) >= 1,
    ensures
        admins(after_changes(users, changes)) >= 1,
        after_changes(users, changes).len() > 0,
    decreases changes.len(),
{
    if changes.len() > 0 {
        law_setup_stays_closed(users, changes.drop_last());
        law_admin_outlives_change(after_changes(users, changes.drop_last()), changes.last());
    } else {
        assert(users.len() > 0);
    }
}

/// An admin who was created counts: from then on the panel is closed to setup.
pub proof fn law_created_admin_closes_setup(
    users: Seq<UserView>,
    username: Seq<char>,
    password: Seq<char>,
    changes: Seq<UserChange>,
)
    requires
        is_allowed(users, UserChange::Create { username, password, role: UserRole::Admin }),
    ensures
        ({
            let first = UserChange::Create { username, password, role: UserRole::Admin };
            let after = after_changes(after_change(users, first), changes);
            admins(after) >= 1 && after.len() > 0
        }),
{
    let first = UserChange::Create { username, password, role: UserRole::Admin };
    let u = UserView { username, password, role: UserRole::Admin, allowed_servers: None };
    assert(users.push(u).drop_last() =~= users);
    law_setup_stays_closed(after_change(users, first), changes);
}

/// What was set as the servers of an account is what the account then has; its role and its
/// password stay.
pub proof fn law_allowed_servers_read_back(
    users: Seq<UserView>,
    name: Seq<char>,
    ids: Option<Seq<Seq<char>>>,
)
    requires
        unique_names(users),
        has_user(users, name),
    ensures
        ({
            let u = users[place_of(users, name)];
            let after = users.update(
                place_of(users, name),
                UserView { allowed_servers: ids, ..u },
            );
            lookup(after, name) == Some(UserView { allowed_servers: ids, ..u })
        }),
{
    let i = place_of(users, name);
    assert(is_at(users, name, i));
    let u = UserView { allowed_servers: ids, ..users[i] };
    lemma_replaced(users, i, u);
    assert(is_at(users.update(i, u), name, i));
    lemma_place(users.update(i, u), name, i);
}

/// An account is found by its name and by no other: where no two accounts share a name, the
/// lookup of a name gives the account that has it, and nothing where none has it.
pub proof fn law_lookup(users: Seq<UserView>, name: Seq<char>)
    requires
        unique_names(users),
    ensures
        forall|i: int|
            0 <= i < users.len() ==> lookup(users, (#[trigger] users[i]).username) == Some(users[i]),
        (forall|i: int| 0 <= i < users.len() ==> (#[trigger] users[i]).username != name)
            ==> lookup(users, name).is_none(),
{
    assert forall|i: int| 0 <= i < users.len() implies lookup(
        users,
        (#[trigger] users[i]).username,
    ) == Some(users[i]) by {
        assert(is_at(users, users[i].username, i));
        lemma_place(users, users[i].username, i);
    }
    if has_user(users, name) {
        let j = place_of(users, name);
        assert(is_at(users, name, j));
        assert(users[j].username == name);
    }
}

/// The admins of two lists of accounts put together are those of each list, and one account is
/// one admin or none by its role.
pub proof fn law_admins_add_up(a: Seq<UserView>, b: Seq<UserView>, u: UserView)
    ensures
        admins(a + b) == admins(a) + admins(b),
        admins(seq![u]) == if u.role == UserRole::Admin {
            1nat
        } else {
            0
        },
    decreases b.len(),
{
    assert(seq![u].drop_last() =~= Seq::<UserView>::empty());
    assert(admins(seq![u].drop_last()) == 0);
    if b.len() == 0 {
        assert(a + b =~= a);
    } else {
        law_admins_add_up(a, b.drop_last(), u);
        assert((a + b).drop_last() =~= a + b.drop_last());
        assert((a + b).last() == b.last());
    }
}

/// An admin ranks before an operator and an operator before a viewer.
pub proof fn law_roles_are_ranked()
    ensures
        UserRole::Admin.rank() > UserRole::Operator.rank(),
        UserRole::Operator.rank() > UserRole::Viewer.rank(),
{
}

/// Where no two accounts share a name, an account is found at its own place.
pub proof fn law_place(users: Seq<UserView>, i: int)
    requires
        unique_names(users),
        0 <= i < users.len(),
    ensures
        has_user(users, users[i].username),
        place_of(users, users[i].username) == i,
{
    assert(is_at(users, users[i].username, i));
    lemma_place(users, users[i].username, i);
}

/// An account can be created under a name that none has, where neither name nor password is
/// empty. It is there then, with that password and that role, and sees all servers; the others
/// stay as they are.
pub proof fn law_creating(
    users: Seq<UserView>,
    username: Seq<char>,
    password: Seq<char>,
    role: UserRole,
)
    requires
        unique_names(users),
    ensures
        ({
            let change = UserChange::Create { username, password, role };
            let after = after_change(users, change);
            let free = forall|i: int|
                0 <= i < users.len() ==> (#[trigger] users[i]).username != username;
            &&& is_allowed(users, change) <==> username.len() > 0 && password.len() > 0 && free
            &&& is_allowed(users, change) ==> {
                &&& after.len() == users.len() + 1
                &&& after.take(users.len() as int) == users
                &&& after.last().username == username
                &&& after.last().password == password
                &&& after.last().role == role
                &&& after.last().allowed_servers.is_none()
            }
            &&& !is_allowed(users, change) ==> after == users
        }),
{
    let change = UserChange::Create { username, password, role };
    law_lookup(users, username);
    if has_user(users, username) {
        let j = place_of(users, username);
        assert(is_at(users, username, j));
        assert(users[j].username == username);
    }
    if exists|i: int| 0 <= i < users.len() && (#[trigger] users[i]).username == username {
        let i = choose|i: int| 0 <= i < users.len() && (#[trigger] users[i]).username == username;
        assert(is_at(users, username, i));
    }
    assert(after_change(users, change).take(users.len() as int) =~= users);
}

/// An account can be deleted unless it is the only admin. It is gone then, and the others stay as
/// they are, in their order.
pub proof fn law_deleting(users: Seq<UserView>, i: int, name: Seq<char>)
    requires
        unique_names(users),
        0 <= i < users.len(),
        forall|k: int| 0 <= k < users.len() ==> (#[trigger] users[k]).username != name,
    ensures
        ({
            let change = UserChange::Delete { username: users[i].username };
            &&& is_allowed(users, change) <==> users[i].role != UserRole::Admin || admins(users) > 1
            &&& is_allowed(users, change) ==> after_change(users, change) == users.take(i)
                + users.skip(i + 1)
            &&& !is_allowed(users, change) ==> after_change(users, change) == users
            &&& !is_allowed(users, UserChange::Delete { username: name })
        }),
{
    law_place(users, i);
    law_lookup(users, name);
    let change = UserChange::Delete { username: users[i].username };
    assert(users.remove(i) =~= users.take(i) + users.skip(i + 1));
}

/// An account is restricted to the servers that are given, or to none; nothing else of it
/// changes, and no other account does.
pub proof fn law_restricting(
    users: Seq<UserView>,
    i: int,
    ids: Option<Seq<Seq<char>>>,
    j: int,
    name: Seq<char>,
)
    requires
        unique_names(users),
        0 <= i < users.len(),
        0 <= j < users.len(),
        i != j,
        forall|k: int| 0 <= k < users.len() ==> (#[trigger] users[k]).username != name,
    ensures
        ({
            let change = UserChange::Restrict { username: users[i].username, ids };
            let after = after_change(users, change);
            &&& is_allowed(users, change)
            &&& after.len() == users.len()
            &&& after[j] == users[j]
            &&& after[i].allowed_servers == ids
            &&& after[i].username == users[i].username
            &&& after[i].password == users[i].password
            &&& after[i].role == users[i].role
            &&& !is_allowed(users, UserChange::Restrict { username: name, ids })
        }),
{
    law_place(users, i);
    law_lookup(users, name);
}

/// A stored account has the name and the password of its row and the role that the row names; a
/// row that names none is a viewer's, and a row without a list of servers restricts nobody.
pub proof fn law_rows_stand_for_accounts(row: UserRow)
    ensures
        stored_user(row).username == row.username@,
        stored_user(row).password == row.password@,
        row.role@ == "admin"@ ==> stored_user(row).role == UserRole::Admin,
        row.role@ == "operator"@ ==> stored_user(row).role == UserRole::Operator,
        row.role@ != "admin"@ && row.role@ != "operator"@ ==> stored_user(row).role
            == UserRole::Viewer,
        row.allowed_servers.is_none() ==> stored_user(row).allowed_servers.is_none(),
        row.allowed_servers matches Some(s) ==> stored_user(row).allowed_servers
            == json::json_list_read(s@),
{
    law_role_names(UserRole::Admin);
    law_role_names(UserRole::Operator);
}

/// What is shown of an account is its name, its role and its servers.
pub proof fn law_shown_of_account(u: UserView)
    ensures
        u.info().username == u.username,
        u.info().role == u.role,
        u.info().allowed_servers == u.allowed_servers,
{
}

/// Of stored accounts that share a name the first counts.
pub proof fn law_first_of_a_name_counts(users: Seq<UserView>, i: int)
    requires
        0 <= i < users.len(),
        forall|j: int| 0 <= j < i ==> (#[trigger] users[j]).username != users[i].username,
    ensures
        distinct(users).contains(users[i]),
        forall|k: int| 0 <= k < distinct(users).len() ==> users.contains(#[trigger] distinct(users)[k]),
        unique_names(distinct(users)),
    decreases users.len(),
{
    let init = users.drop_last();
    let before = distinct(init);
    let after = distinct(users);
    lemma_distinct(users);
    if i < init.len() {
        assert(init[i] == users[i]);
        assert forall|j: int| 0 <= j < i implies (#[trigger] init[j]).username != init[i].username by {
            assert(init[j] == users[j]);
        }
        law_first_of_a_name_counts(init, i);
        let k = choose|k: int| 0 <= k < before.len() && before[k] == users[i];
        assert(after[k] == users[i]);
    } else {
        lemma_distinct(init);
        if has_user(before, users[i].username) {
            let k = place_of(before, users[i].username);
            assert(is_at(before, users[i].username, k));
            assert(init.contains(before[k]));
            let j = choose|j: int| 0 <= j < init.len() && init[j] == before[k];
            assert(users[j].username == users[i].username);
        }
        assert(after[after.len() - 1] == users[i]);
    }
}

proof fn lemma_distinct(users: Seq<UserView>)
    ensures
        forall|k: int| 0 <= k < distinct(users).len() ==> users.contains(#[trigger] distinct(users)[k]),
        unique_names(distinct(users)),
    decreases users.len(),
{
    if users.len() > 0 {
        let init = users.drop_last();
        let before = distinct(init);
        let after = distinct(users);
        lemma_distinct(init);
        assert(users[users.len() - 1] == users.last());
        assert forall|k: int| 0 <= k < after.len() implies users.contains(#[trigger] after[k]) by {
            if k < before.len() {
                assert(after[k] == before[k]);
                let j = choose|j: int| 0 <= j < init.len() && init[j] == before[k];
                assert(users[j] == before[k]);
            }
        }
        if !has_user(before, users.last().username) {
            assert forall|a: int, b: int| 0 <= a < b < after.len() implies #[trigger] after[a].username
                != #[trigger] after[b].username by {
                assert(after[a] == before[a]);
                if b == before.len() {
                    assert(!is_at(before, users.last().username, a));
                } else {
                    assert(after[b] == before[b]);
                }
            }
        }
    }
}

/// An account is opened by its own password and by no other, with its own role; a name that no
/// account has is opened by none.
pub proof fn law_password_opens(
    users: Seq<UserView>,
    i: int,
    password: Seq<char>,
    name: Seq<char>,
)
    requires
        unique_names(users),
        0 <= i < users.len(),
        forall|k: int| 0 <= k < users.len() ==> (#[trigger] users[k]).username != name,
    ensures
        signed_in(users, users[i].username, users[i].password) == Some(users[i].role),
        password != users[i].password ==> signed_in(users, users[i].username, password).is_none(),
        signed_in(users, name, password).is_none(),
{
    law_lookup(users, name);
}

/// Whoever is created can sign in with the password that was given, and after a change of the
/// password with the new one only.
pub proof fn law_new_accounts_sign_in(
    users: Seq<UserView>,
    username: Seq<char>,
    password: Seq<char>,
    role: UserRole,
    second: Seq<char>,
    other: Seq<char>,
)
    requires
        unique_names(users),
        is_allowed(users, UserChange::Create { username, password, role }),
        second.len() > 0,
        other != second,
    ensures
        ({
            let made = after_change(users, UserChange::Create { username, password, role });
            let changed = after_change(
                made,
                UserChange::Update { username, new_password: Some(second), new_role: None },
            );
            &&& signed_in(made, username, password) == Some(role)
            &&& signed_in(changed, username, second) == Some(role)
            &&& signed_in(changed, username, other).is_none()
        }),
{
    let change = UserChange::Create { username, password, role };
    let made = after_change(users, change);
    let n = users.len() as int;
    let u = made[n];
    assert(u.username == username);
    assert(unique_names(made)) by {
        assert forall|i: int, j: int| 0 <= i < j < made.len() implies #[trigger] made[i].username
            != #[trigger] made[j].username by {
            assert(made[i] == users[i]);
            if j == n {
                assert(!is_at(users, username, i));
            } else {
                assert(made[j] == users[j]);
                assert(users[i].username != users[j].username);
            }
        }
    }
    law_lookup(made, username);
    law_place(made, n);
    let update = UserChange::Update { username, new_password: Some(second), new_role: None };
    assert(is_allowed(made, update));
    let changed = after_change(made, update);
    assert(changed == made.update(n, updated(u, Some(second), None)));
    assert(unique_names(changed)) by {
        assert forall|i: int, j: int|
            0 <= i < j < changed.len() implies #[trigger] changed[i].username
            != #[trigger] changed[j].username by {
            assert(changed[i].username == made[i].username);
            assert(changed[j].username == made[j].username);
        }
    }
    law_lookup(changed, username);
    assert(changed[n].username == username);
}

/// An account stands for what its fields hold.
pub proof fn law_value_of_user(u: User)
    ensures
        u@.username == u.username@,
        u@.password == u.password@,
        u@.role == u.role,
        u@.allowed_servers == text::opt_views(u.allowed_servers),
{
}

/// What is shown of an account stands for what its fields hold.
pub proof fn law_value_of_info(info: UserInfo)
    ensures
        info@.username == info.username@,
        info@.role == info.role,
        info@.allowed_servers == text::opt_views(info.allowed_servers),
{
}

} // verus!
