//! Database security: the audit trail of security events kept in memory,
//! and the masking of sensitive values before they are shown.
use vstd::prelude::*;

use crate::address::utf8_len;
use crate::text::{chars_of, contains, decimal_signed, i64_to_string, lowercase, owned, str_contains, string_of, to_lowercase};

verus! {

/// Number of security events kept in memory.
pub const AUDIT_LOG_CAPACITY: usize = 1000;

/// Database security settings.
pub struct DatabaseSecurityConfig {
    pub enabled: bool,
    pub encryption_enabled: bool,
    pub encryption_key_alias: String,
    pub audit_enabled: bool,
    pub access_control_enabled: bool,
    pub data_masking_enabled: bool,
    pub retention_days: i32,
}

impl Default for DatabaseSecurityConfig {
    /// Everything off; keys under `database_master_key`; 90 days retention.
    fn default() -> (r: DatabaseSecurityConfig)
        ensures
            !r.enabled,
            !r.encryption_enabled,
            r.encryption_key_alias@ == "database_master_key"@,
            !r.audit_enabled,
            !r.access_control_enabled,
            !r.data_masking_enabled,
            r.retention_days == 90,
    {
        DatabaseSecurityConfig {
            enabled: false,
            encryption_enabled: false,
            encryption_key_alias: owned("database_master_key"),
            audit_enabled: false,
            access_control_enabled: false,
            data_masking_enabled: false,
            retention_days: 90,
        }
    }
}

/// A security-relevant database event.
pub enum DatabaseSecurityEvent {
    DataAccess { user: String, table: String, operation: String, row_count: Option<u64>, success: bool },
    SchemaChange { user: String, operation: String, object_type: String, object_name: String },
    PrivilegeChange { admin_user: String, target_user: String, privilege: String, granted: bool },
    EncryptionOperation { operation: String, table: String, success: bool },
    SecurityViolation { user: String, violation_type: String, details: String, severity: String },
}

impl DatabaseSecurityEvent {
    /// An exact copy.
    pub fn copy(&self) -> (r: DatabaseSecurityEvent)
        ensures
            r == *self,
    {
        match self {
            DatabaseSecurityEvent::DataAccess { user, table, operation, row_count, success } => {
                DatabaseSecurityEvent::DataAccess {
                    user: user.clone(),
                    table: table.clone(),
                    operation: operation.clone(),
                    row_count: *row_count,
                    success: *success,
                }
            },
            DatabaseSecurityEvent::SchemaChange { user, operation, object_type, object_name } => {
                DatabaseSecurityEvent::SchemaChange {
                    user: user.clone(),
                    operation: operation.clone(),
                    object_type: object_type.clone(),
                    object_name: object_name.clone(),
                }
            },
            DatabaseSecurityEvent::PrivilegeChange { admin_user, target_user, privilege, granted } => {
                DatabaseSecurityEvent::PrivilegeChange {
                    admin_user: admin_user.clone(),
                    target_user: target_user.clone(),
                    privilege: privilege.clone(),
                    granted: *granted,
                }
            },
            DatabaseSecurityEvent::EncryptionOperation { operation, table, success } => {
                DatabaseSecurityEvent::EncryptionOperation {
                    operation: operation.clone(),
                    table: table.clone(),
                    success: *success,
                }
            },
            DatabaseSecurityEvent::SecurityViolation { user, violation_type, details, severity } => {
                DatabaseSecurityEvent::SecurityViolation {
                    user: user.clone(),
                    violation_type: violation_type.clone(),
                    details: details.clone(),
                    severity: severity.clone(),
                }
            },
        }
    }
}

// ── Masking ──────────────────────────────────────────────────────────────────

/// The number of leading characters whose UTF-8 encoding takes `n` bytes;
/// meaningful when byte `n` starts a character.
pub open spec fn chars_in_bytes(s: Seq<char>, n: nat) -> int {
    choose|k: int| 0 <= k <= s.len() && utf8_len(s.take(k)) == n
}

/// Byte `n` of the encoding of `s` is at a character boundary.
pub open spec fn byte_boundary(s: Seq<char>, n: nat) -> bool {
    exists|k: int| 0 <= k <= s.len() && utf8_len(s.take(k)) == n
}

/// The masked form of a value, by UTF-8 bytes: up to 4 bytes become as many
/// `*`; a longer value keeps its first and last 2 bytes around `***`.
pub open spec fn masked(s: Seq<char>) -> Seq<char> {
    let n = utf8_len(s);
    if n <= 4 {
        Seq::new(n, |i: int| '*')
    } else {
        s.take(chars_in_bytes(s, 2)) + "***"@ + s.skip(chars_in_bytes(s, (n - 2) as nat))
    }
}

/// Masking can cut the value at bytes 2 and `len - 2`.
pub open spec fn maskable(s: Seq<char>) -> bool {
    utf8_len(s) <= 4 || (byte_boundary(s, 2) && byte_boundary(s, (utf8_len(s) - 2) as nat))
}

/// The UTF-8 length of a prefix grows with the prefix.
proof fn lemma_utf8_prefix_grows(s: Seq<char>, a: int, b: int)
    requires
        0 <= a < b <= s.len(),
    ensures
        utf8_len(s.take(a)) < utf8_len(s.take(b)),
    decreases b - a,
{
    assert(s.take(b).drop_last() =~= s.take(b - 1));
    assert(s.take(b).last() == s[b - 1]);
    if a < b - 1 {
        lemma_utf8_prefix_grows(s, a, b - 1);
    }
}

/// The prefix of `s` that spans `n` bytes, found by walking the characters.
fn prefix_chars(s: &Vec<char>, n: usize) -> (k: usize)
    requires
        byte_boundary(s@, n as nat),
    ensures
        k == chars_in_bytes(s@, n as nat),
        k <= s@.len(),
        utf8_len(s@.take(k as int)) == n,
{
    let ghost w = choose|k: int| 0 <= k <= s@.len() && utf8_len(s@.take(k)) == n;
    let len: usize = s.len();
    let mut k: usize = 0;
    let mut acc: usize = 0;
    proof {
        assert(s@.take(0) =~= Seq::<char>::empty());
    }
    while acc < n
        invariant
            0 <= w <= s@.len(),
            s@.len() == len,
            utf8_len(s@.take(w)) == n,
            k <= w,
            acc == utf8_len(s@.take(k as int)),
            acc <= n,
        decreases w - k,
    {
        proof {
            if k == w {
                assert(false);
            }
            assert(s@.take(k + 1).drop_last() =~= s@.take(k as int));
            assert(s@.take(k + 1).last() == s@[k as int]);
            if k + 1 < w {
                lemma_utf8_prefix_grows(s@, k + 1, w);
            }
        }
        acc = acc + crate::address::char_utf8_width(s[k]);
        k = k + 1;
    }
    proof {
        if k < w {
            lemma_utf8_prefix_grows(s@, k as int, w);
        }
        let c = chars_in_bytes(s@, n as nat);
        if c < k {
            lemma_utf8_prefix_grows(s@, c, k as int);
        } else if c > k {
            lemma_utf8_prefix_grows(s@, k as int, c);
        }
    }
    k
}

fn utf8_count(s: &Vec<char>) -> (n: usize)
    requires
        utf8_len(s@) <= usize::MAX,
    ensures
        n == utf8_len(s@),
{
    let mut k: usize = 0;
    let mut acc: usize = 0;
    proof {
        assert(s@.take(0) =~= Seq::<char>::empty());
    }
    while k < s.len()
        invariant
            k <= s@.len(),
            acc == utf8_len(s@.take(k as int)),
            utf8_len(s@) <= usize::MAX,
        decreases s@.len() - k,
    {
        proof {
            assert(s@.take(k + 1).drop_last() =~= s@.take(k as int));
            assert(s@.take(k + 1).last() == s@[k as int]);
            if k + 1 < s@.len() {
                lemma_utf8_prefix_grows(s@, k + 1, s@.len() as int);
            }
            assert(s@.take(s@.len() as int) =~= s@);
        }
        acc = acc + crate::address::char_utf8_width(s[k]);
        k = k + 1;
    }
    proof {
        assert(s@.take(s@.len() as int) =~= s@);
    }
    acc
}

/// The UTF-8 length of `s`, or `None` when it does not fit in a `usize`.
fn utf8_count_checked(s: &Vec<char>) -> (r: Option<usize>)
    ensures
        match r {
            Some(n) => n == utf8_len(s@),
            None => utf8_len(s@) > usize::MAX,
        },
{
    let mut k: usize = 0;
    let mut acc: usize = 0;
    proof {
        assert(s@.take(0) =~= Seq::<char>::empty());
    }
    while k < s.len()
        invariant
            k <= s@.len(),
            acc == utf8_len(s@.take(k as int)),
        decreases s@.len() - k,
    {
        proof {
            assert(s@.take(k + 1).drop_last() =~= s@.take(k as int));
            assert(s@.take(k + 1).last() == s@[k as int]);
            assert(s@.take(s@.len() as int) =~= s@);
        }
        let w = crate::address::char_utf8_width(s[k]);
        if acc > usize::MAX - w {
            proof {
                if k + 1 < s@.len() {
                    lemma_utf8_prefix_grows(s@, k + 1, s@.len() as int);
                }
            }
            return None;
        }
        acc = acc + w;
        k = k + 1;
    }
    proof {
        assert(s@.take(s@.len() as int) =~= s@);
    }
    Some(acc)
}

/// Whether byte `n` of the encoding of `s` is at a character boundary.
fn is_byte_boundary(s: &Vec<char>, n: usize) -> (r: bool)
    requires
        utf8_len(s@) <= usize::MAX,
    ensures
        r == byte_boundary(s@, n as nat),
{
    let mut k: usize = 0;
    let mut acc: usize = 0;
    proof {
        assert(s@.take(0) =~= Seq::<char>::empty());
    }
    while k < s.len() && acc < n
        invariant
            k <= s@.len(),
            acc == utf8_len(s@.take(k as int)),
            utf8_len(s@) <= usize::MAX,
            forall|j: int| 0 <= j < k ==> #[trigger] utf8_len(s@.take(j)) < n,
        decreases s@.len() - k,
    {
        proof {
            assert(s@.take(k + 1).drop_last() =~= s@.take(k as int));
            assert(s@.take(k + 1).last() == s@[k as int]);
            assert(s@.take(s@.len() as int) =~= s@);
            if k + 1 < s@.len() {
                lemma_utf8_prefix_grows(s@, k + 1, s@.len() as int);
            }
        }
        acc = acc + crate::address::char_utf8_width(s[k]);
        k = k + 1;
    }
    proof {
        if acc == n {
            assert(0 <= k <= s@.len() && utf8_len(s@.take(k as int)) == n);
        } else {
            assert forall|j: int| 0 <= j <= s@.len() implies #[trigger] utf8_len(s@.take(j)) != n by {
                if j > k {
                    lemma_utf8_prefix_grows(s@, k as int, j);
                }
            }
        }
    }
    acc == n
}

/// The field names whose values are masked, matched as substrings of the
/// lower-cased field name.
pub open spec fn sensitive_words() -> Seq<Seq<char>> {
    seq![
        "password"@,
        "api_key"@,
        "secret"@,
        "token"@,
        "private_key"@,
        "credit_card"@,
        "ssn"@,
        "social_security"@,
        "phone"@,
        "email"@,
    ]
}

/// A field whose lower-cased name holds a sensitive word.
pub open spec fn sensitive_field(field: Seq<char>) -> bool {
    exists|i: int| 0 <= i < sensitive_words().len() && contains(lowercase(field), #[trigger] sensitive_words()[i])
}

/// The security manager of the database.
pub struct DatabaseSecurityManager {
    pub config: DatabaseSecurityConfig,
    /// Recent security events, oldest first.
    pub audit_log: Vec<DatabaseSecurityEvent>,
    /// Encryption keys by alias.
    pub encryption_keys: Vec<(String, Vec<u8>)>,
}

impl DatabaseSecurityManager {
    /// The audit log holds at most its capacity.
    pub open spec fn wf(&self) -> bool {
        self.audit_log@.len() <= AUDIT_LOG_CAPACITY
    }

    pub fn new(config: DatabaseSecurityConfig) -> (r: DatabaseSecurityManager)
        ensures
            r.wf(),
            r.config == config,
            r.audit_log@.len() == 0,
            r.encryption_keys@.len() == 0,
    {
        DatabaseSecurityManager { config, audit_log: Vec::new(), encryption_keys: Vec::new() }
    }

    /// Masks a sensitive value.
    pub fn mask_value(&self, value: &str) -> (r: String)
        requires
            maskable(value@),
            utf8_len(value@) <= usize::MAX,
        ensures
            r@ == masked(value@),
    {
        let c = chars_of(value);
        let n = utf8_count(&c);
        if n <= 4 {
            let mut out: Vec<char> = Vec::new();
            let mut i: usize = 0;
            while i < n
                invariant
                    i <= n,
                    out@ == Seq::new(i as nat, |j: int| '*'),
                decreases n - i,
            {
                out.push('*');
                proof {
                    assert(out@ =~= Seq::new((i + 1) as nat, |j: int| '*'));
                }
                i = i + 1;
            }
            return string_of(out.as_slice());
        }
        let a = prefix_chars(&c, 2);
        let b = prefix_chars(&c, n - 2);
        proof {
            assert(a <= b) by {
                if b < a {
                    lemma_utf8_prefix_grows(c@, b as int, a as int);
                }
            }
        }
        let head = crate::text::slice_range(c.as_slice(), 0, a);
        let tail = crate::text::slice_range(c.as_slice(), b, c.len());
        let mut out = string_of(head.as_slice());
        out.append("***");
        let t = string_of(tail.as_slice());
        out.append(t.as_str());
        proof {
            assert(head@ =~= value@.take(a as int));
            assert(tail@ =~= value@.skip(b as int));
        }
        out
    }

    /// Whether the lower-cased field name holds a sensitive word.
    fn field_is_sensitive(field_name: &str) -> (r: bool)
        ensures
            r == sensitive_field(field_name@),
    {
        let words: [&str; 10] = [
            "password",
            "api_key",
            "secret",
            "token",
            "private_key",
            "credit_card",
            "ssn",
            "social_security",
            "phone",
            "email",
        ];
        let field_lower = to_lowercase(field_name);
        let mut i: usize = 0;
        proof {
            reveal_strlit("password");
            reveal_strlit("api_key");
            reveal_strlit("secret");
            reveal_strlit("token");
            reveal_strlit("private_key");
            reveal_strlit("credit_card");
            reveal_strlit("ssn");
            reveal_strlit("social_security");
            reveal_strlit("phone");
            reveal_strlit("email");
        }
        while i < 10
            invariant
                i <= 10,
                field_lower@ == lowercase(field_name@),
                forall|j: int| 0 <= j < 10 ==> (#[trigger] words@[j])@ == sensitive_words()[j],
                forall|j: int| 0 <= j < i ==> !contains(lowercase(field_name@), #[trigger] sensitive_words()[j]),
            decreases 10 - i,
        {
            if crate::text::str_contains(field_lower.as_str(), words[i]) {
                assert(contains(lowercase(field_name@), sensitive_words()[i as int]));
                return true;
            }
            i = i + 1;
        }
        false
    }

    /// The value as shown: masked when masking is on and the field is
    /// sensitive, else unchanged.
    pub fn apply_data_masking(&self, value: &str, field_name: &str) -> (r: String)
        requires
            self.config.data_masking_enabled && sensitive_field(field_name@) ==> maskable(value@) && utf8_len(
                value@,
            ) <= usize::MAX,
        ensures
            r@ == (if self.config.data_masking_enabled && sensitive_field(field_name@) {
                masked(value@)
            } else {
                value@
            }),
    {
        if self.config.data_masking_enabled && Self::field_is_sensitive(field_name) {
            self.mask_value(value)
        } else {
            owned(value)
        }
    }

    /// `apply_data_masking` for any value: `None`, in place of cutting a
    /// character, when the value is to be masked but byte 2 or byte
    /// `len - 2` of it falls inside a character.
    pub fn try_apply_data_masking(&self, value: &str, field_name: &str) -> (r: Option<String>)
        ensures
            (self.config.data_masking_enabled && sensitive_field(field_name@)) ==> (r is Some <==> (maskable(
                value@,
            ) && utf8_len(value@) <= usize::MAX)),
            !(self.config.data_masking_enabled && sensitive_field(field_name@)) ==> r is Some,
            r matches Some(s) ==> s@ == (if self.config.data_masking_enabled && sensitive_field(field_name@) {
                masked(value@)
            } else {
                value@
            }),
    {
        if !(self.config.data_masking_enabled && Self::field_is_sensitive(field_name)) {
            return Some(owned(value));
        }
        let c = chars_of(value);
        let n = match utf8_count_checked(&c) {
            Some(n) => n,
            None => {
                return None;
            },
        };
        if n > 4 && !(is_byte_boundary(&c, 2) && is_byte_boundary(&c, n - 2)) {
            return None;
        }
        Some(self.mask_value(value))
    }

    /// Whether a user whose roles grant `permissions` may perform
    /// `operation`: always when access control is off; otherwise when some
    /// role grants all privileges or names the operation.
    pub fn check_table_access(&self, permissions: &Vec<String>, operation: &str) -> (r: bool)
        ensures
            r == (!self.config.access_control_enabled || exists|i: int|
                0 <= i < permissions@.len() && (contains(#[trigger] permissions@[i]@, "ALL_PRIVILEGES"@) || contains(
                    permissions@[i]@,
                    operation@,
                ))),
    {
        if !self.config.access_control_enabled {
            return true;
        }
        let mut i: usize = 0;
        while i < permissions.len()
            invariant
                i <= permissions@.len(),
                forall|j: int| 0 <= j < i ==> !(contains(#[trigger] permissions@[j]@, "ALL_PRIVILEGES"@) || contains(
                    permissions@[j]@,
                    operation@,
                )),
            decreases permissions@.len() - i,
        {
            if str_contains(permissions[i].as_str(), "ALL_PRIVILEGES") || str_contains(permissions[i].as_str(), operation) {
                return true;
            }
            i = i + 1;
        }
        false
    }

    /// Whether database accesses are written to the audit log.
    pub fn audits_access(&self) -> (r: bool)
        ensures
            r == self.config.audit_enabled,
    {
        self.config.audit_enabled
    }

    /// Records a security violation among the recent events.
    pub fn log_security_violation(
        &mut self,
        user_id: &str,
        violation_type: &str,
        severity: &str,
        details: &str,
    )
        requires
            old(self).wf(),
        ensures
            final(self).wf(),
            final(self).config == old(self).config,
            final(self).audit_log@.len() == if old(self).audit_log@.len() < AUDIT_LOG_CAPACITY {
                old(self).audit_log@.len() + 1
            } else {
                old(self).audit_log@.len() + 0
            },
            final(self).audit_log@.drop_last() == if old(self).audit_log@.len() < AUDIT_LOG_CAPACITY {
                old(self).audit_log@
            } else {
                old(self).audit_log@.drop_first()
            },
            final(self).audit_log@.last() matches DatabaseSecurityEvent::SecurityViolation {
                user,
                violation_type: vt,
                details: d,
                severity: sv,
            } && user@ == user_id@ && vt@ == violation_type@ && d@ == details@ && sv@ == severity@,
    {
        let event = DatabaseSecurityEvent::SecurityViolation {
            user: owned(user_id),
            violation_type: owned(violation_type),
            details: owned(details),
            severity: owned(severity),
        };
        let ghost ev = event;
        self.log_security_event(event);
        proof {
            let old_log = old(self).audit_log@;
            if old_log.len() < AUDIT_LOG_CAPACITY {
                assert(self.audit_log@ == old_log.push(ev));
                assert(self.audit_log@.drop_last() =~= old_log);
            } else {
                assert(self.audit_log@ == old_log.push(ev).drop_first());
                assert(self.audit_log@.drop_last() =~= old_log.drop_first());
            }
        }
    }

    /// Records a security event, dropping the oldest beyond the capacity.
    pub fn log_security_event(&mut self, event: DatabaseSecurityEvent)
        requires
            old(self).wf(),
        ensures
            final(self).wf(),
            final(self).audit_log@ == logged(old(self).audit_log@, event),
            final(self).config == old(self).config,
            final(self).encryption_keys == old(self).encryption_keys,
    {
        self.audit_log.push(event);
        if self.audit_log.len() > AUDIT_LOG_CAPACITY {
            let ghost before = self.audit_log@;
            let _dropped = self.audit_log.remove(0);
            proof {
                assert(self.audit_log@ =~= before.drop_first());
            }
        }
    }

    /// The newest `limit` events, newest first.
    pub fn get_recent_events(&self, limit: usize) -> (r: Vec<DatabaseSecurityEvent>)
        ensures
            r@.len() == (if limit < self.audit_log@.len() { limit as int } else { self.audit_log@.len() as int }),
            forall|i: int| 0 <= i < r@.len() ==> #[trigger] r@[i] == self.audit_log@[self.audit_log@.len() - 1 - i],
    {
        let mut out: Vec<DatabaseSecurityEvent> = Vec::new();
        let n = self.audit_log.len();
        let mut i: usize = 0;
        while i < n && i < limit
            invariant
                n == self.audit_log@.len(),
                i <= n,
                i <= limit,
                out@.len() == i,
                forall|k: int| 0 <= k < i ==> #[trigger] out@[k] == self.audit_log@[n - 1 - k],
            decreases n - i,
        {
            out.push(self.audit_log[n - 1 - i].copy());
            i = i + 1;
        }
        out
    }
}


// ── Statements for the graph store ───────────────────────────────────────────

/// A value bound to a statement parameter.
#[derive(Debug, PartialEq, Eq)]
pub enum DbValue {
    Str(String),
    Int(i64),
    Bool(bool),
}

/// The abstract value of a bound value.
pub enum DbValueView {
    Str(Seq<char>),
    Int(i64),
    Bool(bool),
}

impl View for DbValue {
    type V = DbValueView;

    open spec fn view(&self) -> DbValueView {
        match self {
            DbValue::Str(s) => DbValueView::Str(s@),
            DbValue::Int(i) => DbValueView::Int(*i),
            DbValue::Bool(b) => DbValueView::Bool(*b),
        }
    }
}

/// A statement to run on the graph store, with its named parameters.
pub struct DbStatement {
    pub query: &'static str,
    pub params: Vec<(&'static str, DbValue)>,
}

/// The abstract value of a statement.
pub struct DbStatementView {
    pub query: Seq<char>,
    pub params: Seq<(Seq<char>, DbValueView)>,
}

impl View for DbStatement {
    type V = DbStatementView;

    open spec fn view(&self) -> DbStatementView {
        DbStatementView {
            query: self.query@,
            params: self.params@.map_values(|p: (&'static str, DbValue)| (p.0@, p.1@)),
        }
    }
}

/// A statement without parameters.
pub open spec fn bare(query: &'static str) -> DbStatementView {
    DbStatementView { query: query@, params: Seq::empty() }
}

pub open spec fn str_param(name: &'static str, value: Seq<char>) -> (Seq<char>, DbValueView) {
    (name@, DbValueView::Str(value))
}

pub open spec fn int_param(name: &'static str, value: i64) -> (Seq<char>, DbValueView) {
    (name@, DbValueView::Int(value))
}

/// The audit tables: database accesses, schema changes, violations and
/// encryption metadata.
pub open spec fn security_tables() -> Seq<DbStatementView> {
    seq![
        bare(AUDIT_TABLE),
        bare(SCHEMA_AUDIT_TABLE),
        bare(VIOLATION_TABLE),
        bare(ENCRYPTION_TABLE),
    ]
}

pub const AUDIT_TABLE: &'static str = "CREATE NODE TABLE IF NOT EXISTS DatabaseAuditLog(id STRING, timestamp_ns INT64, user_id STRING, session_id STRING, operation STRING, table_name STRING, row_count INT64, success BOOL, error_message STRING, client_ip STRING, PRIMARY KEY (id))";

pub const SCHEMA_AUDIT_TABLE: &'static str = "CREATE NODE TABLE IF NOT EXISTS SchemaAuditLog(id STRING, timestamp_ns INT64, user_id STRING, operation STRING, object_type STRING, object_name STRING, sql_statement STRING, success BOOL, PRIMARY KEY (id))";

pub const VIOLATION_TABLE: &'static str = "CREATE NODE TABLE IF NOT EXISTS SecurityViolationLog(id STRING, timestamp_ns INT64, user_id STRING, violation_type STRING, severity STRING, details STRING, client_ip STRING, resolved BOOL, resolved_at_ns INT64, PRIMARY KEY (id))";

pub const ENCRYPTION_TABLE: &'static str = "CREATE NODE TABLE IF NOT EXISTS EncryptionMetadata(id STRING, table_name STRING, column_name STRING, encryption_algorithm STRING, key_id STRING, encrypted_at_ns INT64, PRIMARY KEY (id))";

pub const ROLE_TABLE: &'static str = "CREATE NODE TABLE IF NOT EXISTS DatabaseRole(id STRING, role_name STRING, permissions STRING, created_at_ns INT64, PRIMARY KEY (id))";

pub const ROLE_ASSIGNMENT_TABLE: &'static str = "CREATE NODE TABLE IF NOT EXISTS UserRoleAssignment(id STRING, user_id STRING, role_id STRING, granted_at_ns INT64, granted_by STRING, expires_at_ns INT64, PRIMARY KEY (id))";

pub const MERGE_ROLE: &'static str = "MERGE (dr:DatabaseRole {role_name: $role_name}) SET dr.permissions = $permissions, dr.created_at_ns = $timestamp_ns";

pub const MERGE_ENCRYPTION: &'static str = "MERGE (em:EncryptionMetadata {id: $metadata_id}) SET em.table_name = $table_name, em.column_name = $column_name, em.encryption_algorithm = $algorithm, em.key_id = $key_id, em.encrypted_at_ns = $timestamp_ns";

pub const CREATE_AUDIT: &'static str = "CREATE (dal:DatabaseAuditLog { id: $audit_id, timestamp_ns: $timestamp_ns, user_id: $user_id, session_id: $session_id, operation: $operation, table_name: $table_name, row_count: $row_count, success: $success, error_message: $error_message, client_ip: $client_ip })";

pub const CREATE_VIOLATION: &'static str = "CREATE (svl:SecurityViolationLog { id: $violation_id, timestamp_ns: $timestamp_ns, user_id: $user_id, violation_type: $violation_type, severity: $severity, details: $details, client_ip: $client_ip, resolved: false })";

pub const DELETE_OLD_AUDIT: &'static str = "MATCH (dal:DatabaseAuditLog) WHERE dal.timestamp_ns < $cutoff_ns DELETE dal";

pub const DELETE_OLD_VIOLATIONS: &'static str = "MATCH (svl:SecurityViolationLog) WHERE svl.timestamp_ns < $cutoff_ns DELETE svl";

fn bare_statement(query: &'static str) -> (r: DbStatement)
    ensures
        r@ == bare(query),
{
    let r = DbStatement { query, params: Vec::new() };
    assert(r@.params =~= Seq::<(Seq<char>, DbValueView)>::empty());
    r
}

/// The statements that create the audit tables.
pub fn security_table_statements() -> (r: Vec<DbStatement>)
    ensures
        r@.map_values(|s: DbStatement| s@) == security_tables(),
{
    let mut v: Vec<DbStatement> = Vec::new();
    v.push(bare_statement(AUDIT_TABLE));
    v.push(bare_statement(SCHEMA_AUDIT_TABLE));
    v.push(bare_statement(VIOLATION_TABLE));
    v.push(bare_statement(ENCRYPTION_TABLE));
    assert(v@.map_values(|s: DbStatement| s@) =~= security_tables());
    v
}

/// The tables whose contents are encrypted.
pub open spec fn sensitive_table_names() -> Seq<Seq<char>> {
    seq![
        "Device"@,
        "UserContent"@,
        "SessionContent"@,
        "ConfigItem"@,
        "SecurityPosture"@,
        "SecurityIncident"@,
        "Vulnerability"@,
    ]
}

pub fn sensitive_tables() -> (r: Vec<&'static str>)
    ensures
        r@.map_values(|t: &'static str| t@) == sensitive_table_names(),
{
    let mut v: Vec<&'static str> = Vec::new();
    v.push("Device");
    v.push("UserContent");
    v.push("SessionContent");
    v.push("ConfigItem");
    v.push("SecurityPosture");
    v.push("SecurityIncident");
    v.push("Vulnerability");
    assert(v@.map_values(|t: &'static str| t@) =~= sensitive_table_names());
    v
}

/// The metadata record of `table`, encrypted as a whole with AES-256-GCM
/// under the key `key_alias` at `now_ns`.
pub open spec fn encryption_metadata(table: Seq<char>, key_alias: Seq<char>, now_ns: i64) -> DbStatementView {
    DbStatementView {
        query: MERGE_ENCRYPTION@,
        params: seq![
            str_param("metadata_id", table + "-all"@),
            str_param("table_name", table),
            str_param("column_name", "*"@),
            str_param("algorithm", "AES-256-GCM"@),
            str_param("key_id", key_alias),
            int_param("timestamp_ns", now_ns),
        ],
    }
}

fn str_value(name: &'static str, value: String) -> (r: (&'static str, DbValue))
    ensures
        (r.0@, r.1@) == str_param(name, value@),
{
    (name, DbValue::Str(value))
}

fn int_value(name: &'static str, value: i64) -> (r: (&'static str, DbValue))
    ensures
        (r.0@, r.1@) == int_param(name, value),
{
    (name, DbValue::Int(value))
}

pub fn encryption_metadata_statement(table: &str, key_alias: &str, now_ns: i64) -> (r: DbStatement)
    ensures
        r@ == encryption_metadata(table@, key_alias@, now_ns),
{
    let mut params: Vec<(&'static str, DbValue)> = Vec::new();
    let mut id = owned(table);
    id.append("-all");
    params.push(str_value("metadata_id", id));
    params.push(str_value("table_name", owned(table)));
    params.push(str_value("column_name", owned("*")));
    params.push(str_value("algorithm", owned("AES-256-GCM")));
    params.push(str_value("key_id", owned(key_alias)));
    params.push(int_value("timestamp_ns", now_ns));
    let r = DbStatement { query: MERGE_ENCRYPTION, params };
    assert(r@.params =~= encryption_metadata(table@, key_alias@, now_ns).params);
    r
}

/// The default roles and their permissions.
pub open spec fn default_roles() -> Seq<(Seq<char>, Seq<char>)> {
    seq![
        ("admin"@, "ALL_PRIVILEGES"@),
        ("operator"@, "READ,WRITE,EXECUTE"@),
        ("viewer"@, "READ"@),
        ("security_analyst"@, "READ_SECURITY,WRITE_SECURITY"@),
    ]
}

pub open spec fn role_statement(role: (Seq<char>, Seq<char>), now_ns: i64) -> DbStatementView {
    DbStatementView {
        query: MERGE_ROLE@,
        params: seq![str_param("role_name", role.0), str_param("permissions", role.1), int_param("timestamp_ns", now_ns)],
    }
}

/// The role tables, then one record per default role.
pub open spec fn access_controls(now_ns: i64) -> Seq<DbStatementView> {
    seq![bare(ROLE_TABLE), bare(ROLE_ASSIGNMENT_TABLE)] + default_roles().map_values(
        |role: (Seq<char>, Seq<char>)| role_statement(role, now_ns),
    )
}

fn role_record(role: &'static str, permissions: &'static str, now_ns: i64) -> (r: DbStatement)
    ensures
        r@ == role_statement((role@, permissions@), now_ns),
{
    let mut params: Vec<(&'static str, DbValue)> = Vec::new();
    params.push(str_value("role_name", owned(role)));
    params.push(str_value("permissions", owned(permissions)));
    params.push(int_value("timestamp_ns", now_ns));
    let r = DbStatement { query: MERGE_ROLE, params };
    assert(r@.params =~= role_statement((role@, permissions@), now_ns).params);
    r
}

pub fn access_control_statements(now_ns: i64) -> (r: Vec<DbStatement>)
    ensures
        r@.map_values(|s: DbStatement| s@) == access_controls(now_ns),
{
    let mut v: Vec<DbStatement> = Vec::new();
    v.push(bare_statement(ROLE_TABLE));
    v.push(bare_statement(ROLE_ASSIGNMENT_TABLE));
    v.push(role_record("admin", "ALL_PRIVILEGES", now_ns));
    v.push(role_record("operator", "READ,WRITE,EXECUTE", now_ns));
    v.push(role_record("viewer", "READ", now_ns));
    v.push(role_record("security_analyst", "READ_SECURITY,WRITE_SECURITY", now_ns));
    assert(v@.map_values(|s: DbStatement| s@) =~= access_controls(now_ns));
    v
}

/// The newest events of `log`, at most the capacity of the audit log.
pub open spec fn capped(log: Seq<DatabaseSecurityEvent>) -> Seq<DatabaseSecurityEvent> {
    if log.len() <= AUDIT_LOG_CAPACITY {
        log
    } else {
        log.skip(log.len() - AUDIT_LOG_CAPACITY)
    }
}

/// `evs` records, in order, the encryption of each of `tables`.
pub open spec fn encryption_events(evs: Seq<DatabaseSecurityEvent>, tables: Seq<Seq<char>>) -> bool {
    &&& evs.len() == tables.len()
    &&& forall|i: int|
        0 <= i < evs.len() ==> (#[trigger] evs[i] matches DatabaseSecurityEvent::EncryptionOperation {
            operation,
            table,
            success,
        } && operation@ == "enable_table_encryption"@ && table@ == tables[i] && success)
}

/// Recording one event after a capped log keeps it the capped log of all.
proof fn lemma_capped_push(log: Seq<DatabaseSecurityEvent>, e: DatabaseSecurityEvent)
    ensures
        capped(log).len() <= AUDIT_LOG_CAPACITY,
        (if capped(log).len() < AUDIT_LOG_CAPACITY {
            capped(log).push(e)
        } else {
            capped(log).push(e).drop_first()
        }) == capped(log.push(e)),
{
    let c = capped(log);
    if log.len() < AUDIT_LOG_CAPACITY {
    } else if log.len() == AUDIT_LOG_CAPACITY {
        assert(c.push(e).drop_first() =~= log.push(e).skip(1));
    } else {
        assert(c.push(e).drop_first() =~= log.push(e).skip(log.len() + 1 - AUDIT_LOG_CAPACITY));
    }
}

/// The audit log after recording `e` as `log_security_event` does.
pub open spec fn logged(log: Seq<DatabaseSecurityEvent>, e: DatabaseSecurityEvent) -> Seq<DatabaseSecurityEvent> {
    if log.len() < AUDIT_LOG_CAPACITY {
        log.push(e)
    } else {
        log.push(e).drop_first()
    }
}

/// The audit log after recording each of `evs` in turn.
pub open spec fn logged_all(log: Seq<DatabaseSecurityEvent>, evs: Seq<DatabaseSecurityEvent>) -> Seq<DatabaseSecurityEvent>
    decreases evs.len(),
{
    if evs.len() == 0 {
        log
    } else {
        logged(logged_all(log, evs.drop_last()), evs.last())
    }
}

/// However many events are recorded, the audit log holds the newest of all
/// of them, in order, and never more than its capacity.
pub proof fn lemma_audit_log_capped(log: Seq<DatabaseSecurityEvent>, evs: Seq<DatabaseSecurityEvent>)
    requires
        log.len() <= AUDIT_LOG_CAPACITY,
    ensures
        logged_all(log, evs) == capped(log + evs),
        logged_all(log, evs).len() <= AUDIT_LOG_CAPACITY,
    decreases evs.len(),
{
    if evs.len() == 0 {
        assert(log + evs =~= log);
    } else {
        lemma_audit_log_capped(log, evs.drop_last());
        lemma_capped_push(log + evs.drop_last(), evs.last());
        assert((log + evs.drop_last()).push(evs.last()) =~= log + evs);
    }
}

/// The statements that set up database security, in order: the audit
/// tables; when encryption is on, the metadata of each sensitive table;
/// when access control is on, the role tables and the default roles.
pub open spec fn setup_statements(config: DatabaseSecurityConfig, now_ns: i64) -> Seq<DbStatementView> {
    security_tables() + (if config.encryption_enabled {
        sensitive_table_names().map_values(|t: Seq<char>| encryption_metadata(t, config.encryption_key_alias@, now_ns))
    } else {
        Seq::empty()
    }) + (if config.access_control_enabled {
        access_controls(now_ns)
    } else {
        Seq::empty()
    })
}

/// The record of one database access.
pub open spec fn access_record(
    user_id: Seq<char>,
    session_id: Seq<char>,
    operation: Seq<char>,
    table_name: Seq<char>,
    row_count: Option<u64>,
    success: bool,
    error_message: Option<Seq<char>>,
    client_ip: Seq<char>,
    now_ns: i64,
) -> DbStatementView {
    DbStatementView {
        query: CREATE_AUDIT@,
        params: seq![
            str_param("audit_id", "audit-"@ + decimal_signed(now_ns as int) + "-"@ + user_id),
            int_param("timestamp_ns", now_ns),
            str_param("user_id", user_id),
            str_param("session_id", session_id),
            str_param("operation", operation),
            str_param("table_name", table_name),
            int_param(
                "row_count",
                match row_count {
                    Some(n) => n as i64,
                    None => 0,
                },
            ),
            ("success"@, DbValueView::Bool(success)),
            str_param(
                "error_message",
                match error_message {
                    Some(m) => m,
                    None => Seq::empty(),
                },
            ),
            str_param("client_ip", client_ip),
        ],
    }
}

/// The record of one security violation, unresolved.
pub open spec fn violation_record(
    user_id: Seq<char>,
    violation_type: Seq<char>,
    severity: Seq<char>,
    details: Seq<char>,
    client_ip: Seq<char>,
    now_ns: i64,
) -> DbStatementView {
    DbStatementView {
        query: CREATE_VIOLATION@,
        params: seq![
            str_param("violation_id", "violation-"@ + decimal_signed(now_ns as int) + "-"@ + user_id),
            int_param("timestamp_ns", now_ns),
            str_param("user_id", user_id),
            str_param("violation_type", violation_type),
            str_param("severity", severity),
            str_param("details", details),
            str_param("client_ip", client_ip),
        ],
    }
}

/// The deletions of audit and violation records older than `cutoff_ns`.
pub open spec fn cleanup_records(cutoff_ns: i64) -> Seq<DbStatementView> {
    seq![
        DbStatementView { query: DELETE_OLD_AUDIT@, params: seq![int_param("cutoff_ns", cutoff_ns)] },
        DbStatementView { query: DELETE_OLD_VIOLATIONS@, params: seq![int_param("cutoff_ns", cutoff_ns)] },
    ]
}

/// The statement that records a security violation.
pub fn violation_statement(
    user_id: &str,
    violation_type: &str,
    severity: &str,
    details: &str,
    client_ip: &str,
    now_ns: i64,
) -> (r: DbStatement)
    ensures
        r@ == violation_record(user_id@, violation_type@, severity@, details@, client_ip@, now_ns),
{
    let mut params: Vec<(&'static str, DbValue)> = Vec::new();
    params.push(str_value("violation_id", violation_id(now_ns, user_id)));
    params.push(int_value("timestamp_ns", now_ns));
    params.push(str_value("user_id", owned(user_id)));
    params.push(str_value("violation_type", owned(violation_type)));
    params.push(str_value("severity", owned(severity)));
    params.push(str_value("details", owned(details)));
    params.push(str_value("client_ip", owned(client_ip)));
    let r = DbStatement { query: CREATE_VIOLATION, params };
    assert(r@.params =~= violation_record(user_id@, violation_type@, severity@, details@, client_ip@, now_ns).params);
    r
}

fn cleanup_statement(query: &'static str, cutoff_ns: i64) -> (r: DbStatement)
    ensures
        r@ == (DbStatementView { query: query@, params: seq![int_param("cutoff_ns", cutoff_ns)] }),
{
    let mut params: Vec<(&'static str, DbValue)> = Vec::new();
    params.push(int_value("cutoff_ns", cutoff_ns));
    let r = DbStatement { query, params };
    assert(r@.params =~= seq![int_param("cutoff_ns", cutoff_ns)]);
    r
}

impl DatabaseSecurityManager {
    /// Sets up database security at `now_ns`: nothing when it is off;
    /// otherwise the statements to run, in order, and one encryption event
    /// per sensitive table in the audit log when encryption is on.
    pub fn initialize(&mut self, now_ns: i64) -> (r: Vec<DbStatement>)
        requires
            old(self).wf(),
        ensures
            final(self).wf(),
            final(self).config == old(self).config,
            final(self).encryption_keys == old(self).encryption_keys,
            !old(self).config.enabled ==> r@.len() == 0 && final(self).audit_log == old(self).audit_log,
            old(self).config.enabled ==> r@.map_values(|s: DbStatement| s@) == setup_statements(old(self).config, now_ns),
            !(old(self).config.enabled && old(self).config.encryption_enabled) ==> final(self).audit_log == old(self).audit_log,
            old(self).config.enabled && old(self).config.encryption_enabled ==> exists|evs: Seq<DatabaseSecurityEvent>|
                encryption_events(evs, sensitive_table_names()) && final(self).audit_log@ == capped(old(self).audit_log@ + evs),
    {
        let mut out: Vec<DbStatement> = Vec::new();
        if !self.config.enabled {
            return out;
        }
        let tables = security_table_statements();
        let mut tables = tables;
        out.append(&mut tables);
        let ghost before = self.audit_log@;
        let ghost mut evs: Seq<DatabaseSecurityEvent> = Seq::empty();
        let ghost prefix = out@.map_values(|s: DbStatement| s@);
        if self.config.encryption_enabled {
            let names = sensitive_tables();
            let mut i: usize = 0;
            while i < names.len()
                invariant
                    self.wf(),
                    self.config == old(self).config,
                    self.encryption_keys == old(self).encryption_keys,
                    self.config.enabled && self.config.encryption_enabled,
                    names@.map_values(|t: &'static str| t@) == sensitive_table_names(),
                    before == old(self).audit_log@,
                    before.len() <= AUDIT_LOG_CAPACITY,
                    prefix == security_tables(),
                    i <= names@.len(),
                    out@.map_values(|s: DbStatement| s@) == prefix + sensitive_table_names().take(i as int).map_values(
                        |t: Seq<char>| encryption_metadata(t, self.config.encryption_key_alias@, now_ns),
                    ),
                    encryption_events(evs, sensitive_table_names().take(i as int)),
                    self.audit_log@ == capped(before + evs),
                decreases names@.len() - i,
            {
                let table = names[i];
                let event = DatabaseSecurityEvent::EncryptionOperation {
                    operation: owned("enable_table_encryption"),
                    table: owned(table),
                    success: true,
                };
                let ghost ev = event;
                proof {
                    lemma_capped_push(before + evs, ev);
                    assert((before + evs).push(ev) =~= before + evs.push(ev));
                }
                self.log_security_event(event);
                let stmt = encryption_metadata_statement(table, self.config.encryption_key_alias.as_str(), now_ns);
                let ghost out_before = out@;
                out.push(stmt);
                proof {
                    let names_v = sensitive_table_names();
                    assert(names_v[i as int] == table@);
                    assert(names_v.take(i + 1) =~= names_v.take(i as int).push(table@));
                    assert(out@ =~= out_before.push(stmt));
                    assert(out@.map_values(|s: DbStatement| s@) =~= out_before.map_values(|s: DbStatement| s@).push(stmt@));
                    assert(names_v.take(i + 1).map_values(
                        |t: Seq<char>| encryption_metadata(t, self.config.encryption_key_alias@, now_ns),
                    ) =~= names_v.take(i as int).map_values(
                        |t: Seq<char>| encryption_metadata(t, self.config.encryption_key_alias@, now_ns),
                    ).push(encryption_metadata(table@, self.config.encryption_key_alias@, now_ns)));
                    evs = evs.push(ev);
                    assert(encryption_events(evs, names_v.take(i + 1))) by {
                        assert forall|k: int| 0 <= k < evs.len() implies (#[trigger] evs[k] matches DatabaseSecurityEvent::EncryptionOperation {
                            operation,
                            table,
                            success,
                        } && operation@ == "enable_table_encryption"@ && table@ == names_v.take(i + 1)[k] && success) by {
                            if k < i {
                                assert(evs[k] == evs.drop_last()[k]);
                                assert(names_v.take(i + 1)[k] == names_v.take(i as int)[k]);
                            }
                        }
                    }
                }
                i = i + 1;
            }
            proof {
                assert(sensitive_table_names().take(7) =~= sensitive_table_names());
            }
        }
        let ghost mid = out@.map_values(|s: DbStatement| s@);
        if self.config.access_control_enabled {
            let mut acl = access_control_statements(now_ns);
            let ghost acl_v = acl@;
            let ghost out_v = out@;
            out.append(&mut acl);
            proof {
                assert(out@ =~= out_v + acl_v);
                assert(out@.map_values(|s: DbStatement| s@) =~= mid + acl_v.map_values(|s: DbStatement| s@));
            }
        }
        proof {
            if self.config.encryption_enabled {
                assert(mid =~= security_tables() + sensitive_table_names().map_values(
                    |t: Seq<char>| encryption_metadata(t, self.config.encryption_key_alias@, now_ns),
                ));
            } else {
                assert(mid =~= security_tables() + Seq::<DbStatementView>::empty());
            }
            if !self.config.access_control_enabled {
                assert(out@.map_values(|s: DbStatement| s@) =~= mid + Seq::<DbStatementView>::empty());
            }
            if !self.config.encryption_enabled {
                assert(capped(before) =~= before);
            }
        }
        out
    }

    /// The record of a database access, when accesses are audited.
    pub fn log_database_access(
        &self,
        user_id: &str,
        session_id: &str,
        operation: &str,
        table_name: &str,
        row_count: Option<u64>,
        success: bool,
        error_message: Option<&str>,
        client_ip: &str,
        now_ns: i64,
    ) -> (r: Option<DbStatement>)
        ensures
            !self.config.audit_enabled ==> r is None,
            self.config.audit_enabled ==> (r matches Some(s) && s@ == access_record(
                user_id@,
                session_id@,
                operation@,
                table_name@,
                row_count,
                success,
                match error_message {
                    Some(m) => Some(m@),
                    None => None,
                },
                client_ip@,
                now_ns,
            )),
    {
        if !self.config.audit_enabled {
            return None;
        }
        let rows: i64 = match row_count {
            Some(n) => n as i64,
            None => 0,
        };
        let error = match error_message {
            Some(m) => owned(m),
            None => String::new(),
        };
        let mut params: Vec<(&'static str, DbValue)> = Vec::new();
        params.push(str_value("audit_id", audit_id(now_ns, user_id)));
        params.push(int_value("timestamp_ns", now_ns));
        params.push(str_value("user_id", owned(user_id)));
        params.push(str_value("session_id", owned(session_id)));
        params.push(str_value("operation", owned(operation)));
        params.push(str_value("table_name", owned(table_name)));
        params.push(int_value("row_count", rows));
        params.push(("success", DbValue::Bool(success)));
        params.push(str_value("error_message", error));
        params.push(str_value("client_ip", owned(client_ip)));
        let r = DbStatement { query: CREATE_AUDIT, params };
        proof {
            assert(r@.params =~= access_record(
                user_id@,
                session_id@,
                operation@,
                table_name@,
                row_count,
                success,
                match error_message {
                    Some(m) => Some(m@),
                    None => None,
                },
                client_ip@,
                now_ns,
            ).params);
        }
        Some(r)
    }

    /// The deletions of audit and violation records older than the
    /// retention period before `now_ns`.
    pub fn cleanup_old_logs(&self, now_ns: i64) -> (r: Vec<DbStatement>)
        requires
            i64::MIN <= now_ns - self.config.retention_days * 86_400_000_000_000 <= i64::MAX,
        ensures
            r@.map_values(|s: DbStatement| s@) == cleanup_records(
                (now_ns - self.config.retention_days * 86_400_000_000_000) as i64,
            ),
    {
        let cutoff = audit_cutoff_ns(now_ns, self.config.retention_days);
        let mut v: Vec<DbStatement> = Vec::new();
        v.push(cleanup_statement(DELETE_OLD_AUDIT, cutoff));
        v.push(cleanup_statement(DELETE_OLD_VIOLATIONS, cutoff));
        assert(v@.map_values(|s: DbStatement| s@) =~= cleanup_records(cutoff));
        v
    }
}

/// Installs the process-wide manager in `slot`; fails when one is installed.
pub fn initialize_database_security(
    slot: &mut Option<DatabaseSecurityManager>,
    config: DatabaseSecurityConfig,
) -> (r: Result<(), String>)
    ensures
        r is Ok <==> (*old(slot)) is None,
        r is Ok ==> (*final(slot) matches Some(m) && m.config == config && m.audit_log@.len() == 0 && m.wf()),
        r matches Err(e) ==> e@ == "Database security manager already initialized"@ && *final(slot) == *old(slot),
{
    if slot.is_some() {
        return Err(owned("Database security manager already initialized"));
    }
    *slot = Some(DatabaseSecurityManager::new(config));
    Ok(())
}

/// The process-wide manager, when installed.
pub fn get_database_security_manager(slot: &Option<DatabaseSecurityManager>) -> (r: Option<&DatabaseSecurityManager>)
    ensures
        match r {
            Some(m) => *slot == Some(*m),
            None => slot is None,
        },
{
    match slot {
        Some(m) => Some(m),
        None => None,
    }
}

/// The id of an audit record written at `now_ns` for `user_id`.
pub fn audit_id(now_ns: i64, user_id: &str) -> (r: String)
    ensures
        r@ == "audit-"@ + decimal_signed(now_ns as int) + "-"@ + user_id@,
{
    let mut r = owned("audit-");
    r.append(i64_to_string(now_ns).as_str());
    r.append("-");
    r.append(user_id);
    r
}

/// The id of a violation record written at `now_ns` for `user_id`.
pub fn violation_id(now_ns: i64, user_id: &str) -> (r: String)
    ensures
        r@ == "violation-"@ + decimal_signed(now_ns as int) + "-"@ + user_id@,
{
    let mut r = owned("violation-");
    r.append(i64_to_string(now_ns).as_str());
    r.append("-");
    r.append(user_id);
    r
}

/// The time before which audit records are deleted: `retention_days` days
/// before `now_ns`.
pub fn audit_cutoff_ns(now_ns: i64, retention_days: i32) -> (r: i64)
    requires
        i64::MIN <= now_ns - retention_days * 86_400_000_000_000 <= i64::MAX,
    ensures
        r == now_ns - retention_days * 86_400_000_000_000,
{
    let span: i128 = (retention_days as i128) * 86_400_000_000_000;
    (now_ns as i128 - span) as i64
}

} // verus!
