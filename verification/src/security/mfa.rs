//! Second factors: TOTP secrets and their enrolment link, backup codes, and
//! the challenges a user answers with a one-time code.
//!
//! Sending a code by SMS or e-mail belongs to the caller. Times are
//! nanoseconds since the Unix epoch unless named seconds.
use vstd::prelude::*;

use rand::Rng;

use crate::keyed::{find_keyed, has_key, keys_unique, lemma_keyed_absent, lemma_keyed_at, lemma_keyed_push, lemma_keyed_remove, lemma_keyed_update};
use crate::order::{lemma_filter_pairwise, pairwise};
use crate::registry::{copy_opt, copy_strings};
use crate::security::settings::{MfaConfig, MfaMethod, UserMfaSettings};
use crate::text::{concat, is_digit, owned, str_eq, string_of};

verus! {

/// The RFC 4648 base32 alphabet.
pub open spec fn base32_alphabet() -> Seq<char> {
    "ABCDEFGHIJKLMNOPQRSTUVWXYZ234567"@
}

/// Byte `i` of `data`, zero past its end.
pub open spec fn byte_or_zero(data: Seq<u8>, i: int) -> int {
    if 0 <= i < data.len() { data[i] as int } else { 0 }
}

/// The 40-bit value of the five bytes from position `at` (zeros past the end).
pub open spec fn group_value(data: Seq<u8>, at: int) -> int {
    byte_or_zero(data, at) * 0x1_0000_0000 + byte_or_zero(data, at + 1) * 0x100_0000 + byte_or_zero(data, at + 2)
        * 0x1_0000 + byte_or_zero(data, at + 3) * 0x100 + byte_or_zero(data, at + 4)
}

/// The eight characters of the group of five bytes from `at`: its 40 bits in
/// five-bit pieces, most significant first.
pub open spec fn base32_group(data: Seq<u8>, at: int) -> Seq<char> {
    let v = group_value(data, at);
    Seq::new(8, |k: int| base32_alphabet()[(v / pow32(7 - k)) % 32])
}

/// 32 to the power `e`.
pub open spec fn pow32(e: int) -> int
    decreases e,
{
    if e <= 0 { 1 } else { 32 * pow32(e - 1) }
}

/// Base32 of every group of five bytes, the last one filled with zeros.
pub open spec fn base32_groups(data: Seq<u8>, groups: nat) -> Seq<char>
    decreases groups,
{
    if groups == 0 {
        Seq::empty()
    } else {
        base32_groups(data, (groups - 1) as nat) + base32_group(data, 5 * (groups - 1))
    }
}

/// The padded RFC 4648 base32 text of `data`: each group of five bytes as
/// eight characters, and, when the last group is short, its characters past
/// the encoded bits replaced by `=` (6, 4, 3 or 1 of them for 1 to 4 bytes).
pub open spec fn base32_padded(data: Seq<u8>) -> Seq<char> {
    let groups = ((data.len() + 4) / 5) as nat;
    let full = base32_groups(data, groups);
    let rem = data.len() % 5;
    let extra = if rem == 0 { 0 } else { 8 - (rem * 8 + 4) / 5 };
    full.take(full.len() - extra) + Seq::new(extra as nat, |i: int| '=')
}

/// The UTF-8 encoding of one character.
pub open spec fn utf8_of(c: char) -> Seq<u8> {
    let v = c as int;
    if v < 0x80 {
        seq![v as u8]
    } else if v < 0x800 {
        seq![(0xC0 + v / 64) as u8, (0x80 + v % 64) as u8]
    } else if v < 0x10000 {
        seq![(0xE0 + v / 4096) as u8, (0x80 + (v / 64) % 64) as u8, (0x80 + v % 64) as u8]
    } else {
        seq![(0xF0 + v / 262144) as u8, (0x80 + (v / 4096) % 64) as u8, (0x80 + (v / 64) % 64) as u8, (0x80 + v % 64) as u8]
    }
}

/// The UTF-8 encoding of a text.
pub open spec fn utf8_bytes(s: Seq<char>) -> Seq<u8>
    decreases s.len(),
{
    if s.len() == 0 {
        Seq::empty()
    } else {
        utf8_bytes(s.drop_last()) + utf8_of(s.last())
    }
}

/// A byte left as it is: an ASCII letter or digit, or one of `-._~`.
pub open spec fn url_safe(b: u8) -> bool {
    (48 <= b <= 57) || (65 <= b <= 90) || (97 <= b <= 122) || b == 45 || b == 46 || b == 95 || b == 126
}

/// An upper-case hexadecimal digit.
pub open spec fn hex_digit(d: int) -> char {
    if d < 10 { (48 + d) as char } else { (55 + d) as char }
}

/// A byte as it stands in URL-encoded text: itself when safe, else `%` and
/// its two upper-case hexadecimal digits.
pub open spec fn url_byte(b: u8) -> Seq<char> {
    if url_safe(b) {
        seq![b as char]
    } else {
        seq!['%', hex_digit((b / 16) as int), hex_digit((b % 16) as int)]
    }
}

/// URL encoding of some bytes, byte by byte.
pub open spec fn url_bytes(bs: Seq<u8>) -> Seq<char>
    decreases bs.len(),
{
    if bs.len() == 0 {
        Seq::empty()
    } else {
        url_bytes(bs.drop_last()) + url_byte(bs.last())
    }
}

/// What `urlencoding::encode` returns for a text: its UTF-8 bytes, each
/// safe byte kept and every other percent-encoded.
pub open spec fn url_encoded(s: Seq<char>) -> Seq<char> {
    url_bytes(utf8_bytes(s))
}

/// What `totp_lite::totp_custom::<Sha1>` returns for the UTF-8 bytes of a
/// secret, a time step, a number of digits and a time in Unix seconds.
pub uninterp spec fn totp_code(secret: Seq<char>, step: u64, digits: u32, time: u64) -> Seq<char>;

/// The digits of a one-time code.
pub const TOTP_DIGITS: u32 = 6;

/// The bytes of a new TOTP secret.
pub const TOTP_SECRET_BYTES: usize = 20;

/// `base32::encode(Alphabet::RFC4648 { padding: true }, data)`: the padded
/// RFC 4648 base32 text of the bytes, as `base32_padded` spells it out.
#[verifier::external_body]
fn base32_encode(data: &[u8]) -> (r: String)
    ensures
        r@ == base32_padded(data@),
{
    base32::encode(base32::Alphabet::RFC4648 { padding: true }, data)
}

/// `urlencoding::encode`: every UTF-8 byte percent-encoded (upper-case hex)
/// except ASCII letters, digits and `-_.~`, as `url_encoded` spells it out.
#[verifier::external_body]
fn url_encode(s: &str) -> (r: String)
    ensures
        r@ == url_encoded(s@),
{
    urlencoding::encode(s).into_owned()
}

/// `totp_lite::totp_custom::<Sha1>(step, digits, secret bytes, time)`: the
/// one-time code of the secret at `time`. The contract names the result; a
/// zero step would divide by zero, and more than 19 digits would overflow
/// `10^digits` in a `u64`.
#[verifier::external_body]
fn totp_sha1(secret: &str, step: u64, digits: u32, time: u64) -> (r: String)
    requires
        step > 0,
        digits <= 19,
    ensures
        r@ == totp_code(secret@, step, digits, time),
{
    totp_lite::totp_custom::<totp_lite::Sha1>(step, digits, secret.as_bytes(), time)
}

/// `Rng::fill` on the thread's generator: `n` random bytes.
#[verifier::external_body]
fn random_secret_bytes(n: usize) -> (r: Vec<u8>)
    ensures
        r@.len() == n,
{
    let mut bytes = vec![0u8; n];
    rand::thread_rng().fill(bytes.as_mut_slice());
    bytes
}

/// `Rng::gen_range(0..10)` on the thread's generator: a random digit.
#[verifier::external_body]
fn random_digit() -> (d: u32)
    ensures
        d < 10,
{
    rand::thread_rng().gen_range(0..10u32)
}

/// A text of `n` decimal digits.
pub open spec fn digit_code(c: Seq<char>, n: nat) -> bool {
    c.len() == n && forall|i: int| 0 <= i < n ==> is_digit(#[trigger] c[i])
}

/// A backup code: four pairs of digits joined by `-`.
pub open spec fn backup_code_shape(c: Seq<char>) -> bool {
    &&& c.len() == 11
    &&& c[2] == '-' && c[5] == '-' && c[8] == '-'
    &&& forall|i: int| 0 <= i < 11 && i != 2 && i != 5 && i != 8 ==> is_digit(#[trigger] c[i])
}

fn digit_char(d: u32) -> (c: char)
    requires
        d < 10,
    ensures
        is_digit(c),
{
    let v: u8 = (48 + d) as u8;
    v as char
}

/// A text of `n` random digits.
fn random_digits(n: usize) -> (r: Vec<char>)
    ensures
        digit_code(r@, n as nat),
{
    let mut r: Vec<char> = Vec::new();
    let mut i: usize = 0;
    while i < n
        invariant
            i <= n,
            digit_code(r@, i as nat),
        decreases n - i,
    {
        r.push(digit_char(random_digit()));
        i = i + 1;
    }
    r
}

/// A random six-digit code sent by SMS or e-mail.
pub fn generate_message_code() -> (r: String)
    ensures
        digit_code(r@, 6),
{
    let d = random_digits(6);
    string_of(d.as_slice())
}

/// A random backup code.
fn backup_code() -> (r: String)
    ensures
        backup_code_shape(r@),
{
    let d = random_digits(8);
    let mut c: Vec<char> = Vec::new();
    c.push(d[0]);
    c.push(d[1]);
    c.push('-');
    c.push(d[2]);
    c.push(d[3]);
    c.push('-');
    c.push(d[4]);
    c.push(d[5]);
    c.push('-');
    c.push(d[6]);
    c.push(d[7]);
    string_of(c.as_slice())
}

/// A challenge waiting for its code.
pub struct MfaChallenge {
    pub user_id: String,
    pub challenge_id: String,
    pub method: MfaMethod,
    /// The code sent, for SMS and e-mail.
    pub code: Option<String>,
    pub expires_at: u64,
    pub attempts: u32,
    pub max_attempts: u32,
}

/// Why a second-factor request was refused.
#[derive(Debug, Clone, Copy, PartialEq, Eq, Structural)]
pub enum MfaError {
    UserNotFound,
    ChallengeNotFound,
    NoPhoneNumber,
    NoEmailAddress,
}

/// How long a challenge stays open: five minutes.
pub const CHALLENGE_TTL_NS: u64 = 300_000_000_000;

/// How many answers a challenge takes.
pub const MAX_ATTEMPTS: u32 = 3;

pub open spec fn user_key() -> spec_fn(UserMfaSettings) -> Seq<char> {
    |u: UserMfaSettings| u.user_id@
}

pub open spec fn challenge_key() -> spec_fn(MfaChallenge) -> Seq<char> {
    |c: MfaChallenge| c.challenge_id@
}

/// The enrolment link of an authenticator app.
pub open spec fn totp_url(issuer: Seq<char>, user: Seq<char>, secret: Seq<char>) -> Seq<char> {
    "otpauth://totp/"@ + url_encoded(issuer) + ":"@ + url_encoded(user) + "?secret="@ + secret + "&issuer="@
        + url_encoded(issuer)
}

/// `m` with `x` added unless it is there.
pub open spec fn with_method(m: Seq<MfaMethod>, x: MfaMethod) -> Seq<MfaMethod> {
    if m.contains(x) {
        m
    } else {
        m.push(x)
    }
}

/// The methods a manager offers: TOTP, SMS, e-mail, backup codes, each when
/// enabled, in that order.
pub open spec fn offered_methods(c: MfaConfig) -> Seq<MfaMethod> {
    let a = if c.totp_enabled { seq![MfaMethod::Totp] } else { Seq::empty() };
    let b = if c.sms_enabled { a.push(MfaMethod::Sms) } else { a };
    let d = if c.email_enabled { b.push(MfaMethod::Email) } else { b };
    if c.backup_codes_enabled { d.push(MfaMethod::BackupCode) } else { d }
}

impl UserMfaSettings {
    /// A copy with the same contents.
    pub fn copy(&self) -> (r: UserMfaSettings)
        ensures
            r.user_id == self.user_id,
            r.totp_secret == self.totp_secret,
            r.phone_number == self.phone_number,
            r.email_address == self.email_address,
            r.backup_codes@ == self.backup_codes@,
            r.enabled_methods@ == self.enabled_methods@,
            r.last_used == self.last_used,
    {
        let mut methods: Vec<MfaMethod> = Vec::new();
        let mut i: usize = 0;
        while i < self.enabled_methods.len()
            invariant
                i <= self.enabled_methods@.len(),
                methods@ == self.enabled_methods@.subrange(0, i as int),
            decreases self.enabled_methods@.len() - i,
        {
            methods.push(self.enabled_methods[i]);
            assert(self.enabled_methods@.subrange(0, i + 1) =~= self.enabled_methods@.subrange(0, i as int).push(
                self.enabled_methods@[i as int],
            ));
            i = i + 1;
        }
        assert(self.enabled_methods@.subrange(0, self.enabled_methods@.len() as int) =~= self.enabled_methods@);
        UserMfaSettings {
            user_id: self.user_id.clone(),
            totp_secret: copy_opt(&self.totp_secret),
            phone_number: copy_opt(&self.phone_number),
            email_address: copy_opt(&self.email_address),
            backup_codes: copy_strings(&self.backup_codes),
            enabled_methods: methods,
            last_used: self.last_used,
        }
    }
}

fn has_method(m: &Vec<MfaMethod>, x: MfaMethod) -> (r: bool)
    ensures
        r == m@.contains(x),
{
    let mut i: usize = 0;
    while i < m.len()
        invariant
            i <= m@.len(),
            forall|j: int| 0 <= j < i ==> m@[j] != x,
        decreases m@.len() - i,
    {
        if m[i] == x {
            return true;
        }
        i = i + 1;
    }
    false
}

fn add_method(m: &mut Vec<MfaMethod>, x: MfaMethod)
    ensures
        final(m)@ == with_method(old(m)@, x),
{
    if !has_method(m, x) {
        m.push(x);
    }
}

/// The second factors of the users and the open challenges.
pub struct MfaManager {
    pub config: MfaConfig,
    pub user_settings: Vec<UserMfaSettings>,
    pub active_challenges: Vec<MfaChallenge>,
}

impl MfaManager {
    /// One settings record per user and one challenge per id.
    pub open spec fn wf(&self) -> bool {
        &&& keys_unique(self.user_settings@, user_key())
        &&& keys_unique(self.active_challenges@, challenge_key())
    }

    /// The settings of `user`.
    pub open spec fn settings(&self, user: Seq<char>) -> Option<UserMfaSettings> {
        find_keyed(self.user_settings@, user_key(), user)
    }

    /// The challenge with id `id`.
    pub open spec fn challenge(&self, id: Seq<char>) -> Option<MfaChallenge> {
        find_keyed(self.active_challenges@, challenge_key(), id)
    }

    pub fn new(config: MfaConfig) -> (r: MfaManager)
        ensures
            r.wf(),
            r.config == config,
            r.user_settings@.len() == 0,
            r.active_challenges@.len() == 0,
    {
        MfaManager { config, user_settings: Vec::new(), active_challenges: Vec::new() }
    }

    fn find_user(&self, user_id: &str) -> (r: Option<usize>)
        requires
            keys_unique(self.user_settings@, user_key()),
        ensures
            match r {
                Some(i) => i < self.user_settings@.len() && self.user_settings@[i as int].user_id@ == user_id@
                    && self.settings(user_id@) == Some(self.user_settings@[i as int]),
                None => self.settings(user_id@) is None && !has_key(self.user_settings@, user_key(), user_id@),
            },
    {
        let mut i: usize = 0;
        while i < self.user_settings.len()
            invariant
                keys_unique(self.user_settings@, user_key()),
                i <= self.user_settings@.len(),
                forall|j: int| 0 <= j < i ==> (user_key())(#[trigger] self.user_settings@[j]) != user_id@,
            decreases self.user_settings@.len() - i,
        {
            if str_eq(self.user_settings[i].user_id.as_str(), user_id) {
                proof {
                    lemma_keyed_at(self.user_settings@, user_key(), i as int);
                }
                return Some(i);
            }
            i = i + 1;
        }
        proof {
            lemma_keyed_absent(self.user_settings@, user_key(), user_id@);
        }
        None
    }

    fn find_challenge(&self, id: &str) -> (r: Option<usize>)
        requires
            keys_unique(self.active_challenges@, challenge_key()),
        ensures
            match r {
                Some(i) => i < self.active_challenges@.len() && self.active_challenges@[i as int].challenge_id@ == id@
                    && self.challenge(id@) == Some(self.active_challenges@[i as int]),
                None => self.challenge(id@) is None && !has_key(self.active_challenges@, challenge_key(), id@),
            },
    {
        let mut i: usize = 0;
        while i < self.active_challenges.len()
            invariant
                keys_unique(self.active_challenges@, challenge_key()),
                i <= self.active_challenges@.len(),
                forall|j: int| 0 <= j < i ==> (challenge_key())(#[trigger] self.active_challenges@[j]) != id@,
            decreases self.active_challenges@.len() - i,
        {
            if str_eq(self.active_challenges[i].challenge_id.as_str(), id) {
                proof {
                    lemma_keyed_at(self.active_challenges@, challenge_key(), i as int);
                }
                return Some(i);
            }
            i = i + 1;
        }
        proof {
            lemma_keyed_absent(self.active_challenges@, challenge_key(), id@);
        }
        None
    }

    /// Puts `u` in the table under its user, replacing that user's settings.
    fn put_settings(&mut self, u: UserMfaSettings)
        requires
            old(self).wf(),
        ensures
            final(self).wf(),
            final(self).settings(u.user_id@) == Some(u),
            forall|k: Seq<char>| k != u.user_id@ ==> #[trigger] final(self).settings(k) == old(self).settings(k),
            final(self).config == old(self).config,
            final(self).active_challenges == old(self).active_challenges,
    {
        let ghost before = self.user_settings@;
        let ghost uv = u;
        match self.find_user(u.user_id.as_str()) {
            Some(i) => {
                self.user_settings.set(i, u);
                proof {
                    lemma_keyed_update(before, user_key(), i as int, uv);
                }
            },
            None => {
                self.user_settings.push(u);
                proof {
                    lemma_keyed_push(before, user_key(), uv);
                }
            },
        }
    }

    /// Stores a user's settings, replacing what the user had.
    pub fn update_user_settings(&mut self, settings: UserMfaSettings)
        requires
            old(self).wf(),
        ensures
            final(self).wf(),
            final(self).settings(settings.user_id@) == Some(settings),
            forall|k: Seq<char>| k != settings.user_id@ ==> #[trigger] final(self).settings(k) == old(self).settings(k),
            final(self).config == old(self).config,
            final(self).active_challenges == old(self).active_challenges,
    {
        self.put_settings(settings);
    }

    /// The settings of `user_id`.
    pub fn get_user_settings(&self, user_id: &str) -> (r: Option<&UserMfaSettings>)
        requires
            self.wf(),
        ensures
            match r {
                Some(u) => self.settings(user_id@) == Some(*u),
                None => self.settings(user_id@) is None,
            },
    {
        match self.find_user(user_id) {
            Some(i) => Some(&self.user_settings[i]),
            None => None,
        }
    }

    /// Whether `user_id` has any second factor enabled.
    pub fn is_mfa_enabled_for_user(&self, user_id: &str) -> (r: bool)
        requires
            self.wf(),
        ensures
            r == match self.settings(user_id@) {
                Some(u) => u.enabled_methods@.len() > 0,
                None => false,
            },
    {
        match self.find_user(user_id) {
            Some(i) => self.user_settings[i].enabled_methods.len() > 0,
            None => false,
        }
    }

    /// The methods the manager offers.
    pub fn get_enabled_methods(&self) -> (r: Vec<MfaMethod>)
        ensures
            r@ == offered_methods(self.config),
    {
        let mut m: Vec<MfaMethod> = Vec::new();
        if self.config.totp_enabled {
            m.push(MfaMethod::Totp);
        }
        if self.config.sms_enabled {
            m.push(MfaMethod::Sms);
        }
        if self.config.email_enabled {
            m.push(MfaMethod::Email);
        }
        if self.config.backup_codes_enabled {
            m.push(MfaMethod::BackupCode);
        }
        assert(m@ =~= offered_methods(self.config));
        m
    }

    /// A new random TOTP secret for `user_id`, stored in the user's settings
    /// (made empty first when the user has none), with TOTP enabled.
    pub fn generate_totp_secret(&mut self, user_id: &str) -> (r: String)
        requires
            old(self).wf(),
        ensures
            final(self).wf(),
            final(self).config == old(self).config,
            final(self).active_challenges == old(self).active_challenges,
            exists|b: Seq<u8>| b.len() == 20 && r@ == base32_padded(b),
            final(self).settings(user_id@) is Some,
            ({
                let u = final(self).settings(user_id@).unwrap();
                &&& u.user_id@ == user_id@
                &&& u.totp_secret is Some && u.totp_secret.unwrap()@ == r@
                &&& match old(self).settings(user_id@) {
                    Some(o) => {
                        &&& u.phone_number == o.phone_number && u.email_address == o.email_address
                        &&& u.backup_codes@ == o.backup_codes@ && u.last_used == o.last_used
                        &&& u.enabled_methods@ == with_method(o.enabled_methods@, MfaMethod::Totp)
                    },
                    None => {
                        &&& u.phone_number is None && u.email_address is None
                        &&& u.backup_codes@.len() == 0 && u.last_used is None
                        &&& u.enabled_methods@ == seq![MfaMethod::Totp]
                    },
                }
            }),
            forall|k: Seq<char>| k != user_id@ ==> #[trigger] final(self).settings(k) == old(self).settings(k),
    {
        let bytes = random_secret_bytes(TOTP_SECRET_BYTES);
        let secret = base32_encode(bytes.as_slice());
        let mut u = match self.find_user(user_id) {
            Some(i) => self.user_settings[i].copy(),
            None => UserMfaSettings {
                user_id: owned(user_id),
                totp_secret: None,
                phone_number: None,
                email_address: None,
                backup_codes: Vec::new(),
                enabled_methods: Vec::new(),
                last_used: None,
            },
        };
        u.totp_secret = Some(secret.clone());
        add_method(&mut u.enabled_methods, MfaMethod::Totp);
        proof {
            assert(with_method(Seq::<MfaMethod>::empty(), MfaMethod::Totp) =~= seq![MfaMethod::Totp]);
        }
        self.put_settings(u);
        secret
    }

    /// The enrolment link of an authenticator app for `user_id`, who must
    /// have settings.
    pub fn generate_totp_qr_code(&self, user_id: &str, secret: &str) -> (r: Result<String, MfaError>)
        requires
            self.wf(),
        ensures
            self.settings(user_id@) is None ==> r == Err::<String, MfaError>(MfaError::UserNotFound),
            self.settings(user_id@) is Some ==> r is Ok && r->Ok_0@ == totp_url(self.config.issuer@, user_id@, secret@),
    {
        if self.find_user(user_id).is_none() {
            return Err(MfaError::UserNotFound);
        }
        let issuer = url_encode(self.config.issuer.as_str());
        let mut url = concat("otpauth://totp/", issuer.as_str());
        url.append(":");
        url.append(url_encode(user_id).as_str());
        url.append("?secret=");
        url.append(secret);
        url.append("&issuer=");
        url.append(issuer.as_str());
        Ok(url)
    }

    /// Ten new random backup codes; a user with settings has them replace
    /// the old ones, with backup codes enabled.
    pub fn generate_backup_codes(&mut self, user_id: &str) -> (r: Vec<String>)
        requires
            old(self).wf(),
        ensures
            final(self).wf(),
            final(self).config == old(self).config,
            final(self).active_challenges == old(self).active_challenges,
            r@.len() == 10,
            forall|i: int| 0 <= i < 10 ==> backup_code_shape(#[trigger] r@[i]@),
            match old(self).settings(user_id@) {
                None => final(self).user_settings == old(self).user_settings,
                Some(o) => final(self).settings(user_id@) is Some && ({
                    let u = final(self).settings(user_id@).unwrap();
                    &&& u.backup_codes@ == r@
                    &&& u.enabled_methods@ == with_method(o.enabled_methods@, MfaMethod::BackupCode)
                    &&& u.user_id == o.user_id && u.totp_secret == o.totp_secret
                    &&& u.phone_number == o.phone_number && u.email_address == o.email_address
                    &&& u.last_used == o.last_used
                }) && forall|k: Seq<char>| k != user_id@ ==> #[trigger] final(self).settings(k) == old(self).settings(k),
            },
    {
        let mut codes: Vec<String> = Vec::new();
        let mut i: usize = 0;
        while i < 10
            invariant
                i <= 10,
                codes@.len() == i,
                forall|j: int| 0 <= j < i ==> backup_code_shape(#[trigger] codes@[j]@),
            decreases 10 - i,
        {
            codes.push(backup_code());
            i = i + 1;
        }
        match self.find_user(user_id) {
            Some(i) => {
                let mut u = self.user_settings[i].copy();
                u.backup_codes = copy_strings(&codes);
                add_method(&mut u.enabled_methods, MfaMethod::BackupCode);
                self.put_settings(u);
            },
            None => {},
        }
        codes
    }

    /// Puts `c` in the table under its id, replacing the challenge of that id.
    fn put_challenge(&mut self, c: MfaChallenge)
        requires
            old(self).wf(),
        ensures
            final(self).wf(),
            final(self).challenge(c.challenge_id@) == Some(c),
            forall|k: Seq<char>| k != c.challenge_id@ ==> #[trigger] final(self).challenge(k) == old(self).challenge(k),
            final(self).config == old(self).config,
            final(self).user_settings == old(self).user_settings,
    {
        let ghost before = self.active_challenges@;
        let ghost cv = c;
        match self.find_challenge(c.challenge_id.as_str()) {
            Some(i) => {
                self.active_challenges.set(i, c);
                proof {
                    lemma_keyed_update(before, challenge_key(), i as int, cv);
                }
            },
            None => {
                self.active_challenges.push(c);
                proof {
                    lemma_keyed_push(before, challenge_key(), cv);
                }
            },
        }
    }

    /// Opens a challenge for `user_id` by `method` at `now`, with id
    /// `mfa-`, the user and `unique`. An SMS or e-mail challenge carries a
    /// new random six-digit code, which the caller sends to the user's phone
    /// or address; it needs the user's settings with that destination.
    pub fn create_challenge(&mut self, user_id: &str, method: MfaMethod, unique: &str, now: u64) -> (r: Result<String, MfaError>)
        requires
            old(self).wf(),
        ensures
            final(self).wf(),
            final(self).config == old(self).config,
            final(self).user_settings == old(self).user_settings,
            (method == MfaMethod::Sms || method == MfaMethod::Email) && old(self).settings(user_id@) is None ==> r
                == Err::<String, MfaError>(MfaError::UserNotFound),
            method == MfaMethod::Sms && old(self).settings(user_id@) is Some && old(self).settings(user_id@).unwrap().phone_number
                is None ==> r == Err::<String, MfaError>(MfaError::NoPhoneNumber),
            method == MfaMethod::Email && old(self).settings(user_id@) is Some && old(self).settings(
                user_id@,
            ).unwrap().email_address is None ==> r == Err::<String, MfaError>(MfaError::NoEmailAddress),
            r is Err ==> final(self).active_challenges == old(self).active_challenges,
            match r {
                Ok(id) => {
                    &&& id@ == "mfa-"@ + user_id@ + "-"@ + unique@
                    &&& final(self).challenge(id@) is Some
                    &&& ({
                        let c = final(self).challenge(id@).unwrap();
                        &&& c.user_id@ == user_id@ && c.challenge_id@ == id@ && c.method == method
                        &&& c.expires_at == if now <= u64::MAX - CHALLENGE_TTL_NS { (now + CHALLENGE_TTL_NS) as u64 } else { u64::MAX }
                        &&& c.attempts == 0 && c.max_attempts == MAX_ATTEMPTS
                        &&& if method == MfaMethod::Sms || method == MfaMethod::Email {
                            c.code is Some && digit_code(c.code.unwrap()@, 6)
                        } else {
                            c.code is None
                        }
                    })
                    &&& forall|k: Seq<char>| k != id@ ==> #[trigger] final(self).challenge(k) == old(self).challenge(k)
                },
                Err(_) => true,
            },
            r is Ok <== match method {
                MfaMethod::Sms => old(self).settings(user_id@) is Some && old(self).settings(user_id@).unwrap().phone_number is Some,
                MfaMethod::Email => old(self).settings(user_id@) is Some && old(self).settings(
                    user_id@,
                ).unwrap().email_address is Some,
                _ => true,
            },
    {
        let mut id = concat("mfa-", user_id);
        id.append("-");
        id.append(unique);
        let code = match method {
            MfaMethod::Sms | MfaMethod::Email => {
                let code = generate_message_code();
                match self.find_user(user_id) {
                    None => {
                        return Err(MfaError::UserNotFound);
                    },
                    Some(i) => {
                        if method == MfaMethod::Sms && self.user_settings[i].phone_number.is_none() {
                            return Err(MfaError::NoPhoneNumber);
                        }
                        if method == MfaMethod::Email && self.user_settings[i].email_address.is_none() {
                            return Err(MfaError::NoEmailAddress);
                        }
                    },
                }
                Some(code)
            },
            _ => None,
        };
        let c = MfaChallenge {
            user_id: owned(user_id),
            challenge_id: id.clone(),
            method,
            code,
            expires_at: now.saturating_add(CHALLENGE_TTL_NS),
            attempts: 0,
            max_attempts: MAX_ATTEMPTS,
        };
        self.put_challenge(c);
        Ok(id)
    }

    /// The challenge with id `challenge_id`.
    pub fn get_challenge(&self, challenge_id: &str) -> (r: Option<&MfaChallenge>)
        requires
            self.wf(),
        ensures
            match r {
                Some(c) => self.challenge(challenge_id@) == Some(*c),
                None => self.challenge(challenge_id@) is None,
            },
    {
        match self.find_challenge(challenge_id) {
            Some(i) => Some(&self.active_challenges[i]),
            None => None,
        }
    }

    fn remove_challenge_at(&mut self, i: usize)
        requires
            old(self).wf(),
            i < old(self).active_challenges@.len(),
        ensures
            final(self).wf(),
            final(self).config == old(self).config,
            final(self).user_settings == old(self).user_settings,
            final(self).challenge(old(self).active_challenges@[i as int].challenge_id@) is None,
            forall|k: Seq<char>| k != old(self).active_challenges@[i as int].challenge_id@ ==> #[trigger] final(self).challenge(k) == old(self).challenge(k),
    {
        proof {
            lemma_keyed_remove(self.active_challenges@, challenge_key(), i as int);
        }
        self.active_challenges.remove(i);
    }

    /// Answers challenge `challenge_id` with `provided` at `now` (`now_secs`
    /// in Unix seconds). An expired challenge, or one out of attempts, is
    /// dropped and refused. Otherwise the attempt is counted and the code
    /// checked: a TOTP code against the user's secret, an SMS or e-mail code
    /// against the one sent, a backup code against the user's unused ones
    /// (and used up). A right answer closes the challenge and records the
    /// method as the user's last.
    pub fn verify_challenge(&mut self, challenge_id: &str, provided: &str, now_secs: u64, now: u64) -> (r: Result<
        bool,
        MfaError,
    >)
        requires
            old(self).wf(),
            old(self).config.totp_window > 0,
        ensures
            final(self).wf(),
            final(self).config == old(self).config,
            match old(self).challenge(challenge_id@) {
                None => r == Err::<bool, MfaError>(MfaError::ChallengeNotFound) && *final(self) == *old(self),
                Some(c) => if c.expires_at < now || c.attempts >= c.max_attempts {
                    &&& r == Ok::<bool, MfaError>(false)
                    &&& final(self).challenge(challenge_id@) is None
                    &&& forall|k: Seq<char>| k != challenge_id@ ==> #[trigger] final(self).challenge(k) == old(self).challenge(k)
                    &&& final(self).user_settings == old(self).user_settings
                } else if c.method == MfaMethod::Totp && old(self).settings(c.user_id@) is None {
                    &&& r == Err::<bool, MfaError>(MfaError::UserNotFound)
                    &&& final(self).challenge(challenge_id@) == Some(MfaChallenge { attempts: (c.attempts + 1) as u32, ..c })
                    &&& forall|k: Seq<char>| k != challenge_id@ ==> #[trigger] final(self).challenge(k) == old(self).challenge(k)
                    &&& final(self).user_settings == old(self).user_settings
                } else {
                    let valid = answer_valid(c, old(self).settings(c.user_id@), provided@, old(self).config.totp_window, now_secs);
                    &&& r == Ok::<bool, MfaError>(valid)
                    &&& forall|k: Seq<char>| k != challenge_id@ ==> #[trigger] final(self).challenge(k) == old(self).challenge(k)
                    &&& if valid {
                        &&& final(self).challenge(challenge_id@) is None
                        &&& match old(self).settings(c.user_id@) {
                            Some(o) => final(self).settings(c.user_id@) is Some && after_answer(
                                final(self).settings(c.user_id@).unwrap(),
                                o,
                                c.method,
                                provided@,
                            ),
                            None => final(self).user_settings == old(self).user_settings,
                        }
                        &&& forall|k: Seq<char>| k != c.user_id@ ==> #[trigger] final(self).settings(k) == old(self).settings(k)
                    } else {
                        &&& final(self).challenge(challenge_id@) == Some(MfaChallenge { attempts: (c.attempts + 1) as u32, ..c })
                        &&& final(self).user_settings == old(self).user_settings
                    }
                },
            },
    {
        let i = match self.find_challenge(challenge_id) {
            Some(i) => i,
            None => {
                return Err(MfaError::ChallengeNotFound);
            },
        };
        if self.active_challenges[i].expires_at < now || self.active_challenges[i].attempts
            >= self.active_challenges[i].max_attempts {
            self.remove_challenge_at(i);
            return Ok(false);
        }
        let c = &self.active_challenges[i];
        let counted = MfaChallenge {
            user_id: c.user_id.clone(),
            challenge_id: c.challenge_id.clone(),
            method: c.method,
            code: copy_opt(&c.code),
            expires_at: c.expires_at,
            attempts: c.attempts + 1,
            max_attempts: c.max_attempts,
        };
        let user = c.user_id.clone();
        let method = c.method;
        let ghost before = *self;
        self.put_challenge(counted);
        let ghost mid1 = *self;
        let valid = match method {
            MfaMethod::Totp => {
                match self.find_user(user.as_str()) {
                    None => {
                        return Err(MfaError::UserNotFound);
                    },
                    Some(u) => match &self.user_settings[u].totp_secret {
                        Some(secret) => {
                            let expected = totp_sha1(secret.as_str(), self.config.totp_window, TOTP_DIGITS, now_secs);
                            str_eq(expected.as_str(), provided)
                        },
                        None => false,
                    },
                }
            },
            MfaMethod::Sms | MfaMethod::Email => {
                let j = self.find_challenge(challenge_id).unwrap();
                match &self.active_challenges[j].code {
                    Some(code) => str_eq(code.as_str(), provided),
                    None => false,
                }
            },
            MfaMethod::BackupCode => {
                match self.find_user(user.as_str()) {
                    None => false,
                    Some(u) => first_code(&self.user_settings[u].backup_codes, provided).is_some(),
                }
            },
        };
        if valid {
            let j = self.find_challenge(challenge_id).unwrap();
            self.remove_challenge_at(j);
            let ghost mid2 = *self;
            assert forall|k: Seq<char>| k != challenge_id@ implies #[trigger] self.challenge(k) == old(self).challenge(k) by {
                assert(mid1.challenge(k) == old(self).challenge(k));
            }
            match self.find_user(user.as_str()) {
                Some(u) => {
                    let mut settings = self.user_settings[u].copy();
                    if method == MfaMethod::BackupCode {
                        let pos = first_code(&settings.backup_codes, provided).unwrap();
                        settings.backup_codes.remove(pos);
                    }
                    settings.last_used = Some(method);
                    self.put_settings(settings);
                    assert forall|k: Seq<char>| k != challenge_id@ implies #[trigger] self.challenge(k) == old(self).challenge(k) by {
                        assert(mid2.challenge(k) == old(self).challenge(k));
                    }
                    assert forall|k: Seq<char>| k != user@ implies #[trigger] self.settings(k) == old(self).settings(k) by {
                        assert(mid2.settings(k) == old(self).settings(k));
                    }
                },
                None => {},
            }
        }
        assert(valid == answer_valid(before.challenge(challenge_id@).unwrap(), before.settings(user@), provided@, self.config.totp_window, now_secs));
        Ok(valid)
    }

    /// Drops the challenges that have expired at `now`.
    pub fn cleanup_expired_challenges(&mut self, now: u64)
        requires
            old(self).wf(),
        ensures
            final(self).wf(),
            final(self).config == old(self).config,
            final(self).user_settings == old(self).user_settings,
            final(self).active_challenges@ == old(self).active_challenges@.filter(|c: MfaChallenge| c.expires_at > now),
    {
        let ghost f = |c: MfaChallenge| c.expires_at > now;
        let mut kept: Vec<MfaChallenge> = Vec::new();
        let mut i: usize = 0;
        while i < self.active_challenges.len()
            invariant
                f == |c: MfaChallenge| c.expires_at > now,
                i <= self.active_challenges@.len(),
                kept@ == self.active_challenges@.subrange(0, i as int).filter(f),
            decreases self.active_challenges@.len() - i,
        {
            proof {
                assert(self.active_challenges@.subrange(0, i + 1) =~= self.active_challenges@.subrange(0, i as int).push(
                    self.active_challenges@[i as int],
                ));
                self.active_challenges@.subrange(0, i as int).lemma_filter_push(self.active_challenges@[i as int], f);
            }
            let c = &self.active_challenges[i];
            if c.expires_at > now {
                kept.push(
                    MfaChallenge {
                        user_id: c.user_id.clone(),
                        challenge_id: c.challenge_id.clone(),
                        method: c.method,
                        code: copy_opt(&c.code),
                        expires_at: c.expires_at,
                        attempts: c.attempts,
                        max_attempts: c.max_attempts,
                    },
                );
            }
            i = i + 1;
        }
        proof {
            assert(self.active_challenges@.subrange(0, self.active_challenges@.len() as int) =~= self.active_challenges@);
            let rel = |a: MfaChallenge, b: MfaChallenge| a.challenge_id@ != b.challenge_id@;
            assert(pairwise(self.active_challenges@, rel));
            lemma_filter_pairwise(self.active_challenges@, f, rel);
            assert forall|a: int, b: int| 0 <= a < b < kept@.len() implies (challenge_key())(#[trigger] kept@[a]) != (
            challenge_key())(#[trigger] kept@[b]) by {
                assert(rel(kept@[a], kept@[b]));
            }
        }
        self.active_challenges = kept;
    }
}

/// The first position of `code` among `codes`.
pub open spec fn first_code_index(codes: Seq<String>, code: Seq<char>) -> Option<int>
    decreases codes.len(),
{
    if codes.len() == 0 {
        None
    } else if codes[0]@ == code {
        Some(0)
    } else {
        match first_code_index(codes.drop_first(), code) {
            Some(i) => Some(i + 1),
            None => None,
        }
    }
}

proof fn lemma_first_code_index(codes: Seq<String>, code: Seq<char>)
    ensures
        match first_code_index(codes, code) {
            Some(i) => 0 <= i < codes.len() && codes[i]@ == code && forall|j: int| 0 <= j < i ==> codes[j]@ != code,
            None => forall|j: int| 0 <= j < codes.len() ==> codes[j]@ != code,
        },
    decreases codes.len(),
{
    if codes.len() > 0 {
        lemma_first_code_index(codes.drop_first(), code);
        assert forall|j: int| 0 < j < codes.len() implies codes[j] == codes.drop_first()[j - 1] by {}
    }
}

fn first_code(codes: &Vec<String>, code: &str) -> (r: Option<usize>)
    ensures
        match r {
            Some(i) => first_code_index(codes@, code@) == Some(i as int) && i < codes@.len(),
            None => first_code_index(codes@, code@) is None,
        },
{
    proof {
        lemma_first_code_index(codes@, code@);
    }
    let mut i: usize = 0;
    while i < codes.len()
        invariant
            i <= codes@.len(),
            forall|j: int| 0 <= j < i ==> codes@[j]@ != code@,
            match first_code_index(codes@, code@) {
                Some(k) => 0 <= k < codes@.len() && codes@[k]@ == code@ && forall|j: int| 0 <= j < k ==> codes@[j]@ != code@,
                None => forall|j: int| 0 <= j < codes@.len() ==> codes@[j]@ != code@,
            },
        decreases codes@.len() - i,
    {
        if str_eq(codes[i].as_str(), code) {
            return Some(i);
        }
        i = i + 1;
    }
    None
}

/// Whether `provided` answers challenge `c`, given the user's settings.
pub open spec fn answer_valid(
    c: MfaChallenge,
    u: Option<UserMfaSettings>,
    provided: Seq<char>,
    step: u64,
    now_secs: u64,
) -> bool {
    match c.method {
        MfaMethod::Totp => match u {
            Some(s) => match s.totp_secret {
                Some(secret) => totp_code(secret@, step, TOTP_DIGITS, now_secs) == provided,
                None => false,
            },
            None => false,
        },
        MfaMethod::Sms | MfaMethod::Email => match c.code {
            Some(k) => k@ == provided,
            None => false,
        },
        MfaMethod::BackupCode => match u {
            Some(s) => first_code_index(s.backup_codes@, provided) is Some,
            None => false,
        },
    }
}

/// `n` is the user's settings `o` after a right answer by `method`: the
/// method is the last used, and a backup code is used up.
pub open spec fn after_answer(n: UserMfaSettings, o: UserMfaSettings, method: MfaMethod, provided: Seq<char>) -> bool {
    &&& n.user_id == o.user_id
    &&& n.totp_secret == o.totp_secret
    &&& n.phone_number == o.phone_number
    &&& n.email_address == o.email_address
    &&& n.enabled_methods@ == o.enabled_methods@
    &&& n.last_used == Some(method)
    &&& n.backup_codes@ == if method == MfaMethod::BackupCode {
        o.backup_codes@.remove(first_code_index(o.backup_codes@, provided).unwrap())
    } else {
        o.backup_codes@
    }
}


// ── Laws ─────────────────────────────────────────────────────────────────────

/// A backup code works once: after it answered a challenge, a code that the
/// user held once is no longer among the user's codes.
pub proof fn lemma_backup_code_single_use(n: UserMfaSettings, o: UserMfaSettings, code: Seq<char>)
    requires
        first_code_index(o.backup_codes@, code) is Some,
        forall|i: int, j: int|
            0 <= i < j < o.backup_codes@.len() ==> !(o.backup_codes@[i]@ == code && o.backup_codes@[j]@ == code),
        after_answer(n, o, MfaMethod::BackupCode, code),
    ensures
        first_code_index(n.backup_codes@, code) is None,
{
    lemma_first_code_index(o.backup_codes@, code);
    let k = first_code_index(o.backup_codes@, code).unwrap();
    let rest = o.backup_codes@.remove(k);
    assert(n.backup_codes@ == rest);
    assert forall|j: int| 0 <= j < rest.len() implies rest[j]@ != code by {
        if j < k {
            assert(rest[j] == o.backup_codes@[j]);
        } else {
            assert(rest[j] == o.backup_codes@[j + 1]);
        }
    }
    lemma_first_code_index(rest, code);
}

} // verus!
