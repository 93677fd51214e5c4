//! Users, roles and the permissions each role grants, and the user store
//! that the user commands edit.

use vstd::prelude::*;
use crate::text::{lowercase, to_lower, str_eq, owned};
use argon2::password_hash::rand_core::OsRng;
use argon2::password_hash::{PasswordHash, PasswordHasher, PasswordVerifier, SaltString};
use argon2::Argon2;

verus! {

/// User role for access control.
#[derive(Debug, Clone, Copy, PartialEq, Eq, Hash, Structural)]
pub enum Role {
    /// Full access.
    Admin,
    /// Service control and read access.
    Operator,
    /// Read-only access.
    Viewer,
}

/// Why a role name was refused.
#[derive(Debug, Clone, PartialEq, Eq)]
pub struct InvalidRole {
    pub name: String,
}

impl Role {
    /// Every role may read.
    pub fn can_read(&self) -> (r: bool)
        ensures
            r,
    {
        match self {
            Role::Admin | Role::Operator | Role::Viewer => true,
        }
    }

    /// The role may start, stop and restart services.
    pub open spec fn controls_services(self) -> bool {
        self == Role::Admin || self == Role::Operator
    }

    /// The role may change the configuration.
    pub open spec fn configures(self) -> bool {
        self == Role::Admin
    }

    /// The role may add, change and remove users.
    pub open spec fn manages_users(self) -> bool {
        self == Role::Admin
    }

    /// Admins and operators may control services.
    pub fn can_control_services(&self) -> (r: bool)
        ensures
            r == self.controls_services(),
    {
        match self {
            Role::Admin | Role::Operator => true,
            Role::Viewer => false,
        }
    }

    /// Only admins may change the configuration.
    pub fn can_configure(&self) -> (r: bool)
        ensures
            r == self.configures(),
    {
        match self {
            Role::Admin => true,
            _ => false,
        }
    }

    /// Only admins may manage users.
    pub fn can_manage_users(&self) -> (r: bool)
        ensures
            r == self.manages_users(),
    {
        match self {
            Role::Admin => true,
            _ => false,
        }
    }

    /// The lower-case name of the role, as it is displayed and stored.
    pub open spec fn name_spec(self) -> Seq<char> {
        match self {
            Role::Admin => "admin"@,
            Role::Operator => "operator"@,
            Role::Viewer => "viewer"@,
        }
    }

    /// The lower-case name of the role, as it is displayed and stored.
    pub fn as_str(&self) -> (r: &'static str)
        ensures
            r@ == self.name_spec(),
    {
        match self {
            Role::Admin => "admin",
            Role::Operator => "operator",
            Role::Viewer => "viewer",
        }
    }

    /// The role named by `s`, whatever its letter case.
    pub open spec fn parse_spec(s: Seq<char>) -> Option<Role> {
        let l = lowercase(s);
        if l == "admin"@ {
            Some(Role::Admin)
        } else if l == "operator"@ {
            Some(Role::Operator)
        } else if l == "viewer"@ {
            Some(Role::Viewer)
        } else {
            None
        }
    }

    /// Parses a role name, ignoring letter case.
    pub fn from_str(s: &str) -> (r: Result<Role, InvalidRole>)
        ensures
            r matches Ok(role) ==> Role::parse_spec(s@) == Some(role),
            r matches Err(e) ==> Role::parse_spec(s@) is None && e.name@ == s@,
    {
        let l = to_lower(s);
        if str_eq(l.as_str(), "admin") {
            Ok(Role::Admin)
        } else if str_eq(l.as_str(), "operator") {
            Ok(Role::Operator)
        } else if str_eq(l.as_str(), "viewer") {
            Ok(Role::Viewer)
        } else {
            Err(InvalidRole { name: owned(s) })
        }
    }
}

/// A user account.
#[derive(Debug)]
pub struct User {
    pub username: String,
    pub password_hash: String,
    /// The roles the user holds; a repeated role counts once.
    pub roles: Vec<Role>,
    pub enabled: bool,
    pub force_password_change: bool,
}

/// A copy of a list of roles.
pub fn copy_roles(roles: &Vec<Role>) -> (r: Vec<Role>)
    ensures
        r@ == roles@,
{
    let mut out: Vec<Role> = Vec::new();
    let mut i: usize = 0;
    while i < roles.len()
        invariant
            i <= roles.len(),
            out@ == roles@.take(i as int),
        decreases roles.len() - i,
    {
        out.push(roles[i]);
        assert(roles@.take(i + 1) == roles@.take(i as int).push(roles@[i as int]));
        i += 1;
    }
    assert(roles@.take(roles.len() as int) == roles@);
    out
}

/// What a user account holds, as plain values.
pub struct UserView {
    pub username: Seq<char>,
    pub password_hash: Seq<char>,
    pub roles: Seq<Role>,
    pub enabled: bool,
    pub force_password_change: bool,
}

impl View for User {
    type V = UserView;

    open spec fn view(&self) -> UserView {
        UserView {
            username: self.username@,
            password_hash: self.password_hash@,
            roles: self.roles@,
            enabled: self.enabled,
            force_password_change: self.force_password_change,
        }
    }
}

impl User {
    /// A new account: enabled, with no forced password change.
    pub fn new(username: String, password_hash: String, roles: Vec<Role>) -> (r: User)
        ensures
            r@ == (UserView {
                username: username@,
                password_hash: password_hash@,
                roles: roles@,
                enabled: true,
                force_password_change: false,
            }),
    {
        User { username, password_hash, roles, enabled: true, force_password_change: false }
    }

    /// The set of roles the user holds.
    pub open spec fn role_set(&self) -> Set<Role> {
        self.roles@.to_set()
    }

    /// Whether the user holds `role`.
    pub fn has_role(&self, role: &Role) -> (r: bool)
        ensures
            r == self.role_set().contains(*role),
    {
        let mut i: usize = 0;
        while i < self.roles.len()
            invariant
                i <= self.roles.len(),
                forall|k: int| 0 <= k < i ==> self.roles@[k] != *role,
            decreases self.roles.len() - i,
        {
            if self.roles[i] == *role {
                assert(self.roles@.contains(*role));
                return true;
            }
            i += 1;
        }
        assert(!self.roles@.contains(*role));
        false
    }

    /// Whether the user holds at least one of `roles`.
    pub fn has_any_role(&self, roles: &[Role]) -> (r: bool)
        ensures
            r == exists|k: int| 0 <= k < roles.len() && self.role_set().contains(#[trigger] roles@[k]),
    {
        let mut i: usize = 0;
        while i < roles.len()
            invariant
                i <= roles.len(),
                forall|k: int| 0 <= k < i ==> !self.role_set().contains(#[trigger] roles@[k]),
            decreases roles.len() - i,
        {
            if self.has_role(&roles[i]) {
                return true;
            }
            i += 1;
        }
        false
    }

    /// Whether the user holds the admin role.
    pub fn is_admin(&self) -> (r: bool)
        ensures
            r == self.role_set().contains(Role::Admin),
    {
        self.has_role(&Role::Admin)
    }

    /// A copy of the account.
    pub fn duplicate(&self) -> (r: User)
        ensures
            r@ == self@,
    {
        User {
            username: self.username.clone(),
            password_hash: self.password_hash.clone(),
            roles: copy_roles(&self.roles),
            enabled: self.enabled,
            force_password_change: self.force_password_change,
        }
    }
}

/// Why a change to the user list was refused.
#[derive(Debug, Clone, PartialEq, Eq)]
pub enum UserError {
    /// A user with this name exists already.
    AlreadyExists(String),
    /// No user has this name.
    NotFound(String),
    /// The password could not be hashed.
    Hashing,
}

/// Some user in `users` is called `name`.
pub open spec fn has_user(users: Seq<UserView>, name: Seq<char>) -> bool {
    exists|k: int| 0 <= k < users.len() && (#[trigger] users[k]).username == name
}

/// `k` is the first index of a user called `name`.
pub open spec fn is_first_user(users: Seq<UserView>, name: Seq<char>, k: int) -> bool {
    &&& 0 <= k < users.len()
    &&& users[k].username == name
    &&& forall|j: int| 0 <= j < k ==> (#[trigger] users[j]).username != name
}

/// `u` with its password hash replaced.
pub open spec fn with_password(u: UserView, h: Seq<char>) -> UserView {
    UserView { password_hash: h, ..u }
}

/// `u` enabled or disabled.
pub open spec fn with_enabled(u: UserView, enabled: bool) -> UserView {
    UserView { enabled, ..u }
}

/// `u` without a forced password change.
pub open spec fn with_force_cleared(u: UserView) -> UserView {
    UserView { force_password_change: false, ..u }
}

/// The users that are not called `name`, in their order.
pub open spec fn without_user(users: Seq<UserView>, name: Seq<char>) -> Seq<UserView> {
    users.filter(|u: UserView| u.username != name)
}

/// The views of a list of accounts.
pub open spec fn user_views(users: Seq<User>) -> Seq<UserView> {
    users.map_values(|u: User| u@)
}

/// The users file: the accounts under `users`.
#[derive(Debug)]
pub struct UsersFile {
    pub users: Vec<User>,
}

/// The list of user accounts that the user commands read and change.
pub struct UserManager {
    users: Vec<User>,
}

impl UserManager {
    /// The accounts, in their stored order.
    pub closed spec fn view_users(&self) -> Seq<UserView> {
        user_views(self.users@)
    }

    /// A store holding `users`, as read from the users file.
    pub fn new(users: Vec<User>) -> (r: UserManager)
        ensures
            r.view_users() == user_views(users@),
    {
        UserManager { users }
    }

    /// The accounts, for writing back to the users file.
    pub fn users(&self) -> (r: &Vec<User>)
        ensures
            user_views(r@) == self.view_users(),
    {
        &self.users
    }

    /// The index of the first user called `name`.
    fn position(&self, name: &str) -> (r: Option<usize>)
        ensures
            r matches Some(k) ==> is_first_user(self.view_users(), name@, k as int),
            r is None ==> !has_user(self.view_users(), name@),
    {
        let mut i: usize = 0;
        while i < self.users.len()
            invariant
                i <= self.users.len(),
                forall|j: int| 0 <= j < i ==> (#[trigger] self.users@[j]).username@ != name@,
            decreases self.users.len() - i,
        {
            if str_eq(self.users[i].username.as_str(), name) {
                return Some(i);
            }
            i += 1;
        }
        None
    }

    /// The first user called `username`.
    pub fn get_user(&self, username: &str) -> (r: Option<User>)
        ensures
            r matches Some(u) ==> exists|k: int|
                is_first_user(self.view_users(), username@, k) && u@ == self.view_users()[k],
            r is None <==> !has_user(self.view_users(), username@),
    {
        match self.position(username) {
            Some(k) => Some(self.users[k].duplicate()),
            None => None,
        }
    }

    /// Adds `user`, unless a user of that name exists already.
    pub fn add_user(&mut self, user: User) -> (r: Result<(), UserError>)
        ensures
            r is Ok <==> !has_user(old(self).view_users(), user.username@),
            r is Ok ==> final(self).view_users() == old(self).view_users().push(user@),
            r matches Err(UserError::AlreadyExists(n)) ==> n@ == user.username@,
            r is Err ==> (r matches Err(UserError::AlreadyExists(_))),
            r is Err ==> final(self).view_users() == old(self).view_users(),
    {
        match self.position(user.username.as_str()) {
            Some(_) => Err(UserError::AlreadyExists(user.username)),
            None => {
                let ghost before = self.users@;
                self.users.push(user);
                proof {
                    assert(user_views(self.users@) =~= user_views(before).push(user@));
                }
                Ok(())
            },
        }
    }

    /// Removes every user called `username`; fails when there is none.
    pub fn remove_user(&mut self, username: &str) -> (r: Result<(), UserError>)
        ensures
            r is Ok <==> has_user(old(self).view_users(), username@),
            final(self).view_users() == without_user(old(self).view_users(), username@),
            r matches Err(UserError::NotFound(n)) ==> n@ == username@,
            r is Err ==> (r matches Err(UserError::NotFound(_))),
    {
        let ghost before = self.view_users();
        let mut kept: Vec<User> = Vec::new();
        let mut removed = false;
        let mut i: usize = 0;
        while i < self.users.len()
            invariant
                before == user_views(self.users@),
                i <= before.len(),
                user_views(kept@) == without_user(before.take(i as int), username@),
                removed == has_user(before.take(i as int), username@),
            decreases before.len() - i,
        {
            let ghost pre = before.take(i as int);
            let ghost post = before.take(i + 1);
            proof {
                reveal(Seq::filter);
                assert(post.drop_last() == pre);
                assert(post.last() == before[i as int]);
                assert forall|k: int| 0 <= k < i implies post[k] == pre[k] by {}
            }
            if str_eq(self.users[i].username.as_str(), username) {
                removed = true;
                proof {
                    assert(post[i as int].username == username@);
                }
            } else {
                let ghost kb = kept@;
                kept.push(self.users[i].duplicate());
                proof {
                    assert(user_views(kept@) =~= user_views(kb).push(before[i as int]));
                    if has_user(post, username@) {
                        let k = choose|k: int|
                            0 <= k < post.len() && (#[trigger] post[k]).username == username@;
                        assert(pre[k] == post[k]);
                    }
                }
            }
            proof {
                if has_user(pre, username@) {
                    let k = choose|k: int|
                        0 <= k < pre.len() && (#[trigger] pre[k]).username == username@;
                    assert(post[k] == pre[k]);
                }
            }
            i += 1;
        }
        proof {
            assert(before.take(before.len() as int) == before);
        }
        self.users = kept;
        if removed {
            Ok(())
        } else {
            Err(UserError::NotFound(owned(username)))
        }
    }

    /// Replaces the first user called `username` with `updated_user`.
    pub fn update_user(&mut self, username: &str, updated_user: User) -> (r: Result<
        (),
        UserError,
    >)
        ensures
            r is Ok <==> has_user(old(self).view_users(), username@),
            r is Ok ==> exists|k: int|
                is_first_user(old(self).view_users(), username@, k) && final(self).view_users()
                    == #[trigger] old(self).view_users().update(k, updated_user@),
            r matches Err(UserError::NotFound(n)) ==> n@ == username@,
            r is Err ==> (r matches Err(UserError::NotFound(_))),
            r is Err ==> final(self).view_users() == old(self).view_users(),
    {
        match self.position(username) {
            Some(k) => {
                let ghost before = self.users@;
                let ghost uv = updated_user@;
                self.users.set(k, updated_user);
                proof {
                    assert(user_views(self.users@) =~= user_views(before).update(k as int, uv));
                }
                Ok(())
            },
            None => Err(UserError::NotFound(owned(username))),
        }
    }

    /// Sets the password hash of the first user called `username`.
    pub fn update_password(&mut self, username: &str, password_hash: String) -> (r: Result<
        (),
        UserError,
    >)
        ensures
            r is Ok <==> has_user(old(self).view_users(), username@),
            r is Ok ==> exists|k: int|
                is_first_user(old(self).view_users(), username@, k) && final(self).view_users()
                    == #[trigger] old(self).view_users().update(
                    k,
                    with_password(old(self).view_users()[k], password_hash@),
                ),
            r matches Err(UserError::NotFound(n)) ==> n@ == username@,
            r is Err ==> (r matches Err(UserError::NotFound(_))),
            r is Err ==> final(self).view_users() == old(self).view_users(),
    {
        match self.position(username) {
            Some(k) => {
                let ghost ph = password_hash@;
                let u = &self.users[k];
                let changed = User {
                    username: u.username.clone(),
                    password_hash,
                    roles: copy_roles(&u.roles),
                    enabled: u.enabled,
                    force_password_change: u.force_password_change,
                };
                let ghost before = self.users@;
                let ghost cv = changed@;
                self.users.set(k, changed);
                proof {
                    assert(cv == with_password(user_views(before)[k as int], ph));
                    assert(user_views(self.users@) =~= user_views(before).update(k as int, cv));
                }
                Ok(())
            },
            None => Err(UserError::NotFound(owned(username))),
        }
    }

    /// Enables or disables the first user called `username`.
    pub fn set_user_enabled(&mut self, username: &str, enabled: bool) -> (r: Result<
        (),
        UserError,
    >)
        ensures
            r is Ok <==> has_user(old(self).view_users(), username@),
            r is Ok ==> exists|k: int|
                is_first_user(old(self).view_users(), username@, k) && final(self).view_users()
                    == #[trigger] old(self).view_users().update(
                    k,
                    with_enabled(old(self).view_users()[k], enabled),
                ),
            r matches Err(UserError::NotFound(n)) ==> n@ == username@,
            r is Err ==> (r matches Err(UserError::NotFound(_))),
            r is Err ==> final(self).view_users() == old(self).view_users(),
    {
        match self.position(username) {
            Some(k) => {
                let u = &self.users[k];
                let changed = User {
                    username: u.username.clone(),
                    password_hash: u.password_hash.clone(),
                    roles: copy_roles(&u.roles),
                    enabled,
                    force_password_change: u.force_password_change,
                };
                let ghost before = self.users@;
                let ghost cv = changed@;
                self.users.set(k, changed);
                proof {
                    assert(cv == with_enabled(user_views(before)[k as int], enabled));
                    assert(user_views(self.users@) =~= user_views(before).update(k as int, cv));
                }
                Ok(())
            },
            None => Err(UserError::NotFound(owned(username))),
        }
    }

    /// Clears the forced password change of the first user called `username`.
    pub fn clear_force_password_change(&mut self, username: &str) -> (r: Result<(), UserError>)
        ensures
            r is Ok <==> has_user(old(self).view_users(), username@),
            r is Ok ==> exists|k: int|
                is_first_user(old(self).view_users(), username@, k) && final(self).view_users()
                    == #[trigger] old(self).view_users().update(
                    k,
                    with_force_cleared(old(self).view_users()[k]),
                ),
            r matches Err(UserError::NotFound(n)) ==> n@ == username@,
            r is Err ==> (r matches Err(UserError::NotFound(_))),
            r is Err ==> final(self).view_users() == old(self).view_users(),
    {
        match self.position(username) {
            Some(k) => {
                let u = &self.users[k];
                let changed = User {
                    username: u.username.clone(),
                    password_hash: u.password_hash.clone(),
                    roles: copy_roles(&u.roles),
                    enabled: u.enabled,
                    force_password_change: false,
                };
                let ghost before = self.users@;
                let ghost cv = changed@;
                self.users.set(k, changed);
                proof {
                    assert(cv == with_force_cleared(user_views(before)[k as int]));
                    assert(user_views(self.users@) =~= user_views(before).update(k as int, cv));
                }
                Ok(())
            },
            None => Err(UserError::NotFound(owned(username))),
        }
    }

    /// Creates the account `admin` with the admin role and a forced password
    /// change when no account exists; answers whether it did.
    pub fn ensure_default_admin(&mut self, password: &str) -> (r: Result<bool, UserError>)
        ensures
            old(self).view_users().len() > 0 ==> r == Ok::<bool, UserError>(false)
                && final(self).view_users() == old(self).view_users(),
            old(self).view_users().len() == 0 && r is Ok ==> r == Ok::<bool, UserError>(true)
                && final(self).view_users().len() == 1 && final(self).view_users()[0].username
                == "admin"@ && final(self).view_users()[0].roles == seq![Role::Admin]
                && final(self).view_users()[0].enabled && final(self).view_users()[0].force_password_change
                && argon2_verdict(password@, final(self).view_users()[0].password_hash) == Some(true),
            r is Err ==> r == Err::<bool, UserError>(UserError::Hashing) && final(self).view_users()
                == old(self).view_users(),
    {
        if self.has_users() {
            return Ok(false);
        }
        let password_hash = match hash_password(password) {
            Ok(h) => h,
            Err(_) => return Err(UserError::Hashing),
        };
        let mut roles: Vec<Role> = Vec::new();
        roles.push(Role::Admin);
        let admin = User {
            username: owned("admin"),
            password_hash,
            roles,
            enabled: true,
            force_password_change: true,
        };
        let ghost av = admin@;
        let ghost before = self.users@;
        self.users.push(admin);
        proof {
            assert(user_views(self.users@) =~= seq![av]);
        }
        Ok(true)
    }

    /// Whether any account exists.
    pub fn has_users(&self) -> (r: bool)
        ensures
            r == (self.view_users().len() > 0),
    {
        self.users.len() > 0
    }
}

/// Why a password could not be hashed or checked.
#[derive(Debug, Clone, PartialEq, Eq)]
pub enum PasswordError {
    /// Hashing failed.
    Hashing,
    /// The stored hash is not in the PHC string format.
    InvalidHash,
}

/// What argon2 answers for `password` against `hash`: `None` when `hash` is
/// not a PHC string, else whether the password matches it.
pub uninterp spec fn argon2_verdict(password: Seq<char>, hash: Seq<char>) -> Option<bool>;

/// Hashes `password` with Argon2id (default parameters) and a fresh random
/// salt from the operating system, through `SaltString::generate` and
/// `Argon2::hash_password`. The hash itself depends on the random salt and
/// is not stated; what is stated is that checking the same password against
/// it (`verify_password`) answers yes, as argon2 recomputes the hash with
/// the salt and parameters that the PHC string carries.
#[verifier::external_body]
pub fn hash_password(password: &str) -> (r: Result<String, PasswordError>)
    ensures
        r matches Ok(h) ==> argon2_verdict(password@, h@) == Some(true),
{
    let salt = SaltString::generate(&mut OsRng);
    match Argon2::default().hash_password(password.as_bytes(), &salt) {
        Ok(h) => Ok(h.to_string()),
        Err(_) => Err(PasswordError::Hashing),
    }
}

/// Checks `password` against a stored hash with `PasswordHash::new` and
/// `Argon2::verify_password`; the answer is named `argon2_verdict`, a function
/// of the two texts alone.
#[verifier::external_body]
pub fn verify_password(password: &str, password_hash: &str) -> (r: Result<bool, PasswordError>)
    ensures
        argon2_verdict(password@, password_hash@) == (match r {
            Ok(b) => Some(b),
            Err(_) => None,
        }),
        r is Err ==> (r matches Err(PasswordError::InvalidHash)),
{
    match PasswordHash::new(password_hash) {
        Ok(parsed) => Ok(Argon2::default().verify_password(password.as_bytes(), &parsed).is_ok()),
        Err(_) => Err(PasswordError::InvalidHash),
    }
}


/// The roles form a ladder: whoever may manage users may change the
/// configuration, whoever may change the configuration may control
/// services; an admin may do everything, a viewer only read.
pub proof fn law_role_ladder(role: Role)
    ensures
        role.manages_users() ==> role.configures(),
        role.configures() ==> role.controls_services(),
        Role::Admin.manages_users() && Role::Admin.configures() && Role::Admin.controls_services(),
        !Role::Viewer.controls_services() && !Role::Viewer.configures() && !Role::Viewer.manages_users(),
        Role::Operator.controls_services() && !Role::Operator.configures(),
{
}

/// A user that was added is the one found under its name.
pub proof fn law_added_user_found(users: Seq<UserView>, user: UserView)
    requires
        !has_user(users, user.username),
    ensures
        is_first_user(users.push(user), user.username, users.len() as int),
        users.push(user)[users.len() as int] == user,
{
    assert forall|j: int| 0 <= j < users.len() implies (#[trigger] users.push(user)[j]).username != user.username by {
        assert(users.push(user)[j] == users[j]);
    }
}

/// After a user is removed, no user of that name is left, and every other
/// user stays.
pub proof fn law_removed_user_gone(users: Seq<UserView>, name: Seq<char>)
    ensures
        !has_user(without_user(users, name), name),
        forall|u: UserView| u.username != name ==> (#[trigger] users.contains(u) <==> without_user(users, name).contains(u)),
{
    lemma_without_user(users, name);
}

proof fn lemma_without_user(users: Seq<UserView>, name: Seq<char>)
    ensures
        !has_user(without_user(users, name), name),
        forall|u: UserView| u.username != name ==> (#[trigger] users.contains(u) <==> without_user(users, name).contains(u)),
    decreases users.len(),
{
    reveal(Seq::filter);
    if users.len() > 0 {
        let d = users.drop_last();
        lemma_without_user(d, name);
        let w = without_user(users, name);
        let wd = without_user(d, name);
        assert(w == (if users.last().username != name { wd.push(users.last()) } else { wd }));
        if has_user(w, name) {
            let k = choose|k: int| 0 <= k < w.len() && (#[trigger] w[k]).username == name;
            if k < wd.len() {
                assert(w[k] == wd[k]);
            }
        }
        assert forall|u: UserView| u.username != name implies (#[trigger] users.contains(u) <==> w.contains(u)) by {
            if users.contains(u) {
                let i = choose|i: int| 0 <= i < users.len() && users[i] == u;
                if i < d.len() {
                    assert(d[i] == u);
                    assert(wd.contains(u));
                    let m = choose|m: int| 0 <= m < wd.len() && wd[m] == u;
                    assert(w[m] == u);
                } else {
                    assert(w[w.len() - 1] == u);
                }
            }
            if w.contains(u) {
                let i = choose|i: int| 0 <= i < w.len() && w[i] == u;
                if i < wd.len() {
                    assert(wd[i] == u);
                    assert(d.contains(u));
                    let m = choose|m: int| 0 <= m < d.len() && d[m] == u;
                    assert(users[m] == u);
                } else {
                    assert(users[users.len() - 1] == u);
                }
            }
        }
    }
}
} // verus!
