//! Audit events: what security-relevant action happened, by whom, from where.

use vstd::prelude::*;
use crate::security::IpAddress;
use crate::text::{opt_view, owned};

verus! {

/// Kinds of audited action.
#[derive(Debug, Clone, Copy, PartialEq, Eq, Structural)]
pub enum AuditEventType {
    LoginSuccess,
    LoginFailed,
    Logout,
    IpBlocked,
    PermissionDenied,
    UserCreated,
    UserDeleted,
    UserModified,
    PasswordChanged,
    ConfigChanged,
    ServiceStarted,
    ServiceStopped,
    ServiceRestarted,
}

/// The snake-case name of an event type, as written in the log.
pub open spec fn event_name(t: AuditEventType) -> Seq<char> {
    match t {
        AuditEventType::LoginSuccess => "login_success"@,
        AuditEventType::LoginFailed => "login_failed"@,
        AuditEventType::Logout => "logout"@,
        AuditEventType::IpBlocked => "ip_blocked"@,
        AuditEventType::PermissionDenied => "permission_denied"@,
        AuditEventType::UserCreated => "user_created"@,
        AuditEventType::UserDeleted => "user_deleted"@,
        AuditEventType::UserModified => "user_modified"@,
        AuditEventType::PasswordChanged => "password_changed"@,
        AuditEventType::ConfigChanged => "config_changed"@,
        AuditEventType::ServiceStarted => "service_started"@,
        AuditEventType::ServiceStopped => "service_stopped"@,
        AuditEventType::ServiceRestarted => "service_restarted"@,
    }
}

impl AuditEventType {
    /// The snake-case name of the event type.
    pub fn as_str(&self) -> (r: &'static str)
        ensures
            r@ == event_name(*self),
    {
        match self {
            AuditEventType::LoginSuccess => "login_success",
            AuditEventType::LoginFailed => "login_failed",
            AuditEventType::Logout => "logout",
            AuditEventType::IpBlocked => "ip_blocked",
            AuditEventType::PermissionDenied => "permission_denied",
            AuditEventType::UserCreated => "user_created",
            AuditEventType::UserDeleted => "user_deleted",
            AuditEventType::UserModified => "user_modified",
            AuditEventType::PasswordChanged => "password_changed",
            AuditEventType::ConfigChanged => "config_changed",
            AuditEventType::ServiceStarted => "service_started",
            AuditEventType::ServiceStopped => "service_stopped",
            AuditEventType::ServiceRestarted => "service_restarted",
        }
    }
}

/// The current time, in microseconds since the Unix epoch
/// (`chrono::Utc::now().timestamp_micros()`). Nothing is stated of it: it is the clock's.
#[verifier::external_body]
pub(crate) fn now_micros() -> (r: i64) {
    chrono::Utc::now().timestamp_micros()
}

/// One audited action.
#[derive(Debug)]
pub struct AuditEvent {
    /// When, in microseconds since the Unix epoch.
    pub timestamp: i64,
    pub event: AuditEventType,
    pub username: Option<String>,
    pub ip: Option<IpAddress>,
    pub resource: Option<String>,
    pub reason: Option<String>,
    pub success: bool,
}

/// An audit event without its time, as plain values.
pub struct AuditEventView {
    pub event: AuditEventType,
    pub username: Option<Seq<char>>,
    pub ip: Option<IpAddress>,
    pub resource: Option<Seq<char>>,
    pub reason: Option<Seq<char>>,
    pub success: bool,
}

impl View for AuditEvent {
    type V = AuditEventView;

    open spec fn view(&self) -> AuditEventView {
        AuditEventView {
            event: self.event,
            username: opt_view(self.username),
            ip: self.ip,
            resource: opt_view(self.resource),
            reason: opt_view(self.reason),
            success: self.success,
        }
    }
}

impl AuditEvent {
    /// A successful event of type `event`, stamped with the current time, with no details.
    pub fn new(event: AuditEventType) -> (r: AuditEvent)
        ensures
            r@ == (AuditEventView {
                event,
                username: None,
                ip: None,
                resource: None,
                reason: None,
                success: true,
            }),
    {
        AuditEvent {
            timestamp: now_micros(),
            event,
            username: None,
            ip: None,
            resource: None,
            reason: None,
            success: true,
        }
    }

    pub fn with_username(self, username: String) -> (r: AuditEvent)
        ensures
            r@ == (AuditEventView { username: Some(username@), ..self@ }),
            r.timestamp == self.timestamp,
    {
        let mut e = self;
        e.username = Some(username);
        e
    }

    pub fn with_ip(self, ip: IpAddress) -> (r: AuditEvent)
        ensures
            r@ == (AuditEventView { ip: Some(ip), ..self@ }),
            r.timestamp == self.timestamp,
    {
        let mut e = self;
        e.ip = Some(ip);
        e
    }

    pub fn with_resource(self, resource: String) -> (r: AuditEvent)
        ensures
            r@ == (AuditEventView { resource: Some(resource@), ..self@ }),
            r.timestamp == self.timestamp,
    {
        let mut e = self;
        e.resource = Some(resource);
        e
    }

    pub fn with_reason(self, reason: String) -> (r: AuditEvent)
        ensures
            r@ == (AuditEventView { reason: Some(reason@), ..self@ }),
            r.timestamp == self.timestamp,
    {
        let mut e = self;
        e.reason = Some(reason);
        e
    }

    pub fn with_success(self, success: bool) -> (r: AuditEvent)
        ensures
            r@ == (AuditEventView { success, ..self@ }),
            r.timestamp == self.timestamp,
    {
        let mut e = self;
        e.success = success;
        e
    }
}

/// Decides what goes into the audit log, kept in the file `log_path`.
/// Each `log_*` method gives the event to append, or `None` when auditing is off.
#[derive(Debug)]
pub struct AuditLogger {
    log_path: String,
    enabled: bool,
}

/// An event as the `log_*` methods build it.
pub open spec fn audit_entry(
    event: AuditEventType,
    username: Option<Seq<char>>,
    ip: Option<IpAddress>,
    resource: Option<Seq<char>>,
    reason: Option<Seq<char>>,
    success: bool,
) -> AuditEventView {
    AuditEventView { event, username, ip, resource, reason, success }
}

impl AuditLogger {
    pub closed spec fn enabled_spec(&self) -> bool {
        self.enabled
    }

    pub closed spec fn log_path_spec(&self) -> Seq<char> {
        self.log_path@
    }

    /// A logger that writes to `audit.log` in `config_dir`.
    pub fn new(config_dir: &str) -> (r: AuditLogger)
        ensures
            r.enabled_spec(),
            r.log_path_spec() == config_dir@ + "/audit.log"@,
    {
        let mut p: Vec<char> = crate::text::chars_of(config_dir);
        crate::text::push_str(&mut p, "/audit.log");
        AuditLogger { log_path: crate::text::string_of(&p), enabled: true }
    }

    /// A logger that records nothing.
    pub fn new_disabled() -> (r: AuditLogger)
        ensures
            !r.enabled_spec(),
            r.log_path_spec() == Seq::<char>::empty(),
    {
        AuditLogger { log_path: String::new(), enabled: false }
    }

    /// Whether events are recorded.
    pub fn is_enabled(&self) -> (r: bool)
        ensures
            r == self.enabled_spec(),
    {
        self.enabled
    }

    /// The file the events go to.
    pub fn log_path(&self) -> (r: &str)
        ensures
            r@ == self.log_path_spec(),
    {
        self.log_path.as_str()
    }

    /// The event to record, when auditing is on.
    pub fn log(&self, event: AuditEvent) -> (r: Option<AuditEvent>)
        ensures
            r is Some <==> self.enabled_spec(),
            r matches Some(e) ==> e@ == event@ && e.timestamp == event.timestamp,
    {
        if !self.enabled {
            return None;
        }
        Some(event)
    }

    pub fn log_login_success(&self, username: &str, ip: IpAddress) -> (r: Option<AuditEvent>)
        ensures
            r is Some <==> self.enabled_spec(),
            r matches Some(e) ==> e@ == audit_entry(
                AuditEventType::LoginSuccess,
                Some(username@),
                Some(ip),
                None,
                None,
                true,
            ),
    {
        self.log(
            AuditEvent::new(AuditEventType::LoginSuccess).with_username(owned(username)).with_ip(
                ip,
            ).with_success(true),
        )
    }

    pub fn log_login_failed(&self, username: &str, ip: IpAddress, reason: &str) -> (r: Option<
        AuditEvent,
    >)
        ensures
            r is Some <==> self.enabled_spec(),
            r matches Some(e) ==> e@ == audit_entry(
                AuditEventType::LoginFailed,
                Some(username@),
                Some(ip),
                None,
                Some(reason@),
                false,
            ),
    {
        self.log(
            AuditEvent::new(AuditEventType::LoginFailed).with_username(owned(username)).with_ip(
                ip,
            ).with_reason(owned(reason)).with_success(false),
        )
    }

    pub fn log_logout(&self, username: &str, ip: IpAddress) -> (r: Option<AuditEvent>)
        ensures
            r is Some <==> self.enabled_spec(),
            r matches Some(e) ==> e@ == audit_entry(
                AuditEventType::Logout,
                Some(username@),
                Some(ip),
                None,
                None,
                true,
            ),
    {
        self.log(
            AuditEvent::new(AuditEventType::Logout).with_username(owned(username)).with_ip(
                ip,
            ).with_success(true),
        )
    }

    pub fn log_ip_blocked(&self, ip: IpAddress, reason: &str) -> (r: Option<AuditEvent>)
        ensures
            r is Some <==> self.enabled_spec(),
            r matches Some(e) ==> e@ == audit_entry(
                AuditEventType::IpBlocked,
                None,
                Some(ip),
                None,
                Some(reason@),
                false,
            ),
    {
        self.log(
            AuditEvent::new(AuditEventType::IpBlocked).with_ip(ip).with_reason(
                owned(reason),
            ).with_success(false),
        )
    }

    pub fn log_permission_denied(&self, username: &str, resource: &str, reason: &str) -> (r: Option<
        AuditEvent,
    >)
        ensures
            r is Some <==> self.enabled_spec(),
            r matches Some(e) ==> e@ == audit_entry(
                AuditEventType::PermissionDenied,
                Some(username@),
                None,
                Some(resource@),
                Some(reason@),
                false,
            ),
    {
        self.log(
            AuditEvent::new(AuditEventType::PermissionDenied).with_username(
                owned(username),
            ).with_resource(owned(resource)).with_reason(owned(reason)).with_success(false),
        )
    }

    pub fn log_user_created(&self, admin_username: &str, new_username: &str) -> (r: Option<
        AuditEvent,
    >)
        ensures
            r is Some <==> self.enabled_spec(),
            r matches Some(e) ==> e@ == audit_entry(
                AuditEventType::UserCreated,
                Some(admin_username@),
                None,
                Some(new_username@),
                None,
                true,
            ),
    {
        self.log(
            AuditEvent::new(AuditEventType::UserCreated).with_username(
                owned(admin_username),
            ).with_resource(owned(new_username)).with_success(true),
        )
    }

    pub fn log_user_deleted(&self, admin_username: &str, deleted_username: &str) -> (r: Option<
        AuditEvent,
    >)
        ensures
            r is Some <==> self.enabled_spec(),
            r matches Some(e) ==> e@ == audit_entry(
                AuditEventType::UserDeleted,
                Some(admin_username@),
                None,
                Some(deleted_username@),
                None,
                true,
            ),
    {
        self.log(
            AuditEvent::new(AuditEventType::UserDeleted).with_username(
                owned(admin_username),
            ).with_resource(owned(deleted_username)).with_success(true),
        )
    }

    pub fn log_password_changed(&self, username: &str, changed_by: &str) -> (r: Option<AuditEvent>)
        ensures
            r is Some <==> self.enabled_spec(),
            r matches Some(e) ==> e@ == audit_entry(
                AuditEventType::PasswordChanged,
                Some(changed_by@),
                None,
                Some(username@),
                None,
                true,
            ),
    {
        self.log(
            AuditEvent::new(AuditEventType::PasswordChanged).with_username(
                owned(changed_by),
            ).with_resource(owned(username)).with_success(true),
        )
    }

    pub fn log_config_changed(&self, username: &str, config_key: &str) -> (r: Option<AuditEvent>)
        ensures
            r is Some <==> self.enabled_spec(),
            r matches Some(e) ==> e@ == audit_entry(
                AuditEventType::ConfigChanged,
                Some(username@),
                None,
                Some(config_key@),
                None,
                true,
            ),
    {
        self.log(
            AuditEvent::new(AuditEventType::ConfigChanged).with_username(
                owned(username),
            ).with_resource(owned(config_key)).with_success(true),
        )
    }

    pub fn log_service_action(
        &self,
        event_type: AuditEventType,
        username: &str,
        service_name: &str,
    ) -> (r: Option<AuditEvent>)
        ensures
            r is Some <==> self.enabled_spec(),
            r matches Some(e) ==> e@ == audit_entry(
                event_type,
                Some(username@),
                None,
                Some(service_name@),
                None,
                true,
            ),
    {
        self.log(
            AuditEvent::new(event_type).with_username(owned(username)).with_resource(
                owned(service_name),
            ).with_success(true),
        )
    }
}

/// The last `limit` lines of the log, newest first.
pub open spec fn newest_lines(lines: Seq<Seq<char>>, limit: nat) -> Seq<Seq<char>> {
    let n = if limit < lines.len() {
        limit as int
    } else {
        lines.len() as int
    };
    Seq::new(n as nat, |k: int| lines[lines.len() - 1 - k])
}

/// The last `limit` lines of the audit log, newest first; the events are
/// read from these lines, and a line that holds no event still counts.
pub fn recent_lines(lines: &Vec<String>, limit: usize) -> (r: Vec<String>)
    ensures
        crate::text::string_views(r@) == newest_lines(crate::text::string_views(lines@), limit as nat),
{
    let n = lines.len();
    let mut out: Vec<String> = Vec::new();
    let mut k: usize = 0;
    while k < limit && k < n
        invariant
            n == lines@.len(),
            k <= n,
            k <= limit,
            out@.len() == k,
            forall|a: int| 0 <= a < k ==> (#[trigger] out@[a])@ == lines@[n - 1 - a]@,
        decreases n - k,
    {
        out.push(lines[n - 1 - k].clone());
        k += 1;
    }
    proof {
        assert(crate::text::string_views(out@) =~= newest_lines(
            crate::text::string_views(lines@),
            limit as nat,
        ));
    }
    out
}

} // verus!
