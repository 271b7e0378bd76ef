//! Plain records shared with the host's other components: settings, task
//! history, quick actions, users, sessions, login bookkeeping, task
//! progress messages and network counters; and the password and lockout
//! rules the host applies to its own interface.

use vstd::prelude::*;
use vstd::string::StrSliceExecFns;
use crate::logging::eq_ignore_ascii;

verus! {

/// One key/value row of the host's settings table.
#[derive(Debug, Clone)]
pub struct Setting {
    pub key: String,
    pub value: String,
}

/// One run of a script, as recorded for the task history view.
#[derive(Debug, Clone)]
pub struct TaskHistory {
    pub id: String,
    pub script_name: String,
    pub started_at: String,
    pub finished_at: Option<String>,
    pub exit_code: Option<i32>,
    pub output: Option<String>,
}

/// A configured one-click script action.
#[derive(Debug, Clone)]
pub struct QuickAction {
    pub id: String,
    pub name: String,
    pub script_path: String,
    pub icon: Option<String>,
    pub display_order: i32,
}

/// Role of an authenticated user.
#[derive(Debug, Clone, Copy, PartialEq, Eq, Structural)]
pub enum UserRole {
    Admin,
    Client,
}

impl UserRole {
    /// The role's stored name.
    pub open spec fn spec_as_str(&self) -> Seq<char> {
        match self {
            UserRole::Admin => "admin"@,
            UserRole::Client => "client"@,
        }
    }

    /// The role's stored name.
    pub fn as_str(&self) -> (r: &'static str)
        ensures
            r@ == self.spec_as_str(),
    {
        match self {
            UserRole::Admin => "admin",
            UserRole::Client => "client",
        }
    }

    /// The role named by `s`, compared case-insensitively.
    pub open spec fn spec_parse_role(s: Seq<char>) -> Option<UserRole> {
        if eq_ignore_ascii(s, "admin"@) {
            Some(UserRole::Admin)
        } else if eq_ignore_ascii(s, "client"@) {
            Some(UserRole::Client)
        } else {
            None
        }
    }

    /// Parse a role name, ignoring ASCII case.
    pub fn parse_role(s: &str) -> (r: Option<UserRole>)
        ensures
            r == Self::spec_parse_role(s@),
    {
        if crate::logging::eq_ignore_case(s, "admin") {
            Some(UserRole::Admin)
        } else if crate::logging::eq_ignore_case(s, "client") {
            Some(UserRole::Client)
        } else {
            None
        }
    }
}

/// A stored user account.
#[derive(Debug, Clone)]
pub struct User {
    pub id: String,
    pub username: String,
    pub password_hash: String,
    pub display_name: Option<String>,
    pub role: UserRole,
    pub is_active: bool,
    pub created_at: String,
}

/// A login session.
#[derive(Debug, Clone)]
pub struct Session {
    pub id: String,
    pub user_id: Option<String>,
    pub user_role: UserRole,
    pub username: String,
    pub created_at: String,
    pub expires_at: String,
}

/// One recorded login attempt, for audit and rate limiting.
#[derive(Debug, Clone)]
pub struct LoginAttempt {
    pub id: String,
    pub username: String,
    pub ip_address: Option<String>,
    pub success: bool,
    pub failure_reason: Option<String>,
    pub attempted_at: String,
}

/// A task progress message streamed to a watching client.
#[derive(Debug, Clone)]
pub struct TaskMessage {
    pub kind: String,
    pub task_id: Option<String>,
    pub data: Option<String>,
    pub code: Option<i32>,
}

/// Traffic counters of one network interface.
#[derive(Debug, Clone)]
pub struct NetworkInterface {
    pub name: String,
    pub received: u64,
    pub transmitted: u64,
}

/// The authenticated caller of a request.
#[derive(Debug, Clone)]
pub struct AuthUser {
    pub user_id: Option<String>,
    pub username: String,
    pub role: UserRole,
}

impl AuthUser {
    /// Whether the caller holds the admin role.
    pub fn is_admin(&self) -> (r: bool)
        ensures
            r == (self.role == UserRole::Admin),
    {
        match self.role {
            UserRole::Admin => true,
            UserRole::Client => false,
        }
    }
}

/// An authenticated caller known to hold the admin role.
#[derive(Debug, Clone)]
pub struct AdminUser(pub AuthUser);

/// Minimum password length in characters.
pub const MIN_PASSWORD_LENGTH: usize = 8;

/// Session lifetime in days.
pub const SESSION_DURATION_DAYS: i64 = 7;

/// Whether the character counts as Unicode uppercase.  Depends on the
/// character alone.
pub uninterp spec fn char_upper(c: char) -> bool;

/// Whether the character counts as Unicode lowercase.  Depends on the
/// character alone.
pub uninterp spec fn char_lower(c: char) -> bool;

/// Whether the character counts as Unicode numeric.  Depends on the
/// character alone.
pub uninterp spec fn char_numeric(c: char) -> bool;

/// Whether the character counts as Unicode alphanumeric.  Depends on the
/// character alone.
pub uninterp spec fn char_alnum(c: char) -> bool;

/// Relies on `char::is_uppercase`.
#[verifier::external_body]
fn is_uppercase_char(c: char) -> (r: bool)
    ensures
        r == char_upper(c),
{
    c.is_uppercase()
}

/// Relies on `char::is_lowercase`.
#[verifier::external_body]
fn is_lowercase_char(c: char) -> (r: bool)
    ensures
        r == char_lower(c),
{
    c.is_lowercase()
}

/// Relies on `char::is_numeric`.
#[verifier::external_body]
fn is_numeric_char(c: char) -> (r: bool)
    ensures
        r == char_numeric(c),
{
    c.is_numeric()
}

/// Relies on `char::is_alphanumeric`.
#[verifier::external_body]
fn is_alphanumeric_char(c: char) -> (r: bool)
    ensures
        r == char_alnum(c),
{
    c.is_alphanumeric()
}

/// A password the host accepts: at least eight characters, with an
/// uppercase letter, a lowercase letter, a digit, and a non-alphanumeric
/// character.
pub open spec fn spec_password_ok(s: Seq<char>) -> bool {
    &&& s.len() >= MIN_PASSWORD_LENGTH
    &&& exists|i: int| 0 <= i < s.len() && char_upper(#[trigger] s[i])
    &&& exists|i: int| 0 <= i < s.len() && char_lower(#[trigger] s[i])
    &&& exists|i: int| 0 <= i < s.len() && char_numeric(#[trigger] s[i])
    &&& exists|i: int| 0 <= i < s.len() && !char_alnum(#[trigger] s[i])
}

/// Check password strength: accepts exactly the passwords of
/// [`spec_password_ok`], naming the violated rule otherwise.
pub fn validate_password(password: &str) -> (r: Result<(), &'static str>)
    ensures
        r is Ok <==> spec_password_ok(password@),
        password@.len() < MIN_PASSWORD_LENGTH ==> (r matches Err(m) && m@
            == "Password must be at least 8 characters long"@),
{
    let n = password.unicode_len();
    if n < MIN_PASSWORD_LENGTH {
        return Err("Password must be at least 8 characters long");
    }
    let mut has_upper = false;
    let mut has_lower = false;
    let mut has_number = false;
    let mut has_special = false;
    let mut i: usize = 0;
    while i < n
        invariant
            i <= n,
            n == password@.len(),
            has_upper == exists|j: int| 0 <= j < i && char_upper(#[trigger] password@[j]),
            has_lower == exists|j: int| 0 <= j < i && char_lower(#[trigger] password@[j]),
            has_number == exists|j: int| 0 <= j < i && char_numeric(#[trigger] password@[j]),
            has_special == exists|j: int| 0 <= j < i && !char_alnum(#[trigger] password@[j]),
        decreases n - i,
    {
        let c = password.get_char(i);
        if is_uppercase_char(c) {
            has_upper = true;
        }
        if is_lowercase_char(c) {
            has_lower = true;
        }
        if is_numeric_char(c) {
            has_number = true;
        }
        if !is_alphanumeric_char(c) {
            has_special = true;
        }
        i = i + 1;
    }
    if !has_upper || !has_lower || !has_number || !has_special {
        return Err("Password must contain uppercase, lowercase, number, and special character");
    }
    Ok(())
}

/// Lockout minutes after `failed_attempts` recent failures: none below
/// three failures, then 1, 3, 10, and from twelve failures on 30 minutes.
pub open spec fn spec_lockout(failed_attempts: i32) -> Option<i64> {
    if failed_attempts >= 12 {
        Some(30)
    } else if failed_attempts >= 9 {
        Some(10)
    } else if failed_attempts >= 6 {
        Some(3)
    } else if failed_attempts >= 3 {
        Some(1)
    } else {
        None
    }
}

/// Lockout duration for a count of recent failed logins.
pub fn get_lockout_duration(failed_attempts: i32) -> (r: Option<i64>)
    ensures
        r == spec_lockout(failed_attempts),
{
    if failed_attempts >= 12 {
        Some(30)
    } else if failed_attempts >= 9 {
        Some(10)
    } else if failed_attempts >= 6 {
        Some(3)
    } else if failed_attempts >= 3 {
        Some(1)
    } else {
        None
    }
}

/// Default page size of the log read interface.
pub fn default_page_size() -> (r: usize)
    ensures
        r == 100,
{
    100
}

} // verus!
