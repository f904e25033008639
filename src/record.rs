//! One credential entry of the vault.
use crate::cipher::fill_from_os;
use crate::store::VaultError;
use vstd::prelude::*;

verus! {

/// What a record holds, as mathematical values.
pub ghost struct PasswordView {
    pub id: Seq<char>,
    pub title: Seq<char>,
    pub username: Seq<char>,
    pub password: Seq<char>,
    pub url: Option<Seq<char>>,
    pub notes: Option<Seq<char>>,
    pub created_at: u64,
    pub updated_at: u64,
}

/// A stored credential: identity, the secret itself and its timestamps
/// (seconds since the Unix epoch).
#[derive(Clone, Debug)]
pub struct Password {
    pub id: String,
    pub title: String,
    pub username: String,
    pub password: String,
    pub url: Option<String>,
    pub notes: Option<String>,
    pub created_at: u64,
    pub updated_at: u64,
}

impl View for Password {
    type V = PasswordView;

    open spec fn view(&self) -> PasswordView {
        PasswordView {
            id: self.id@,
            title: self.title@,
            username: self.username@,
            password: self.password@,
            url: self.url.deep_view(),
            notes: self.notes.deep_view(),
            created_at: self.created_at,
            updated_at: self.updated_at,
        }
    }
}

impl PasswordView {
    /// A record is never updated before it was created.
    pub open spec fn wf(self) -> bool {
        self.created_at <= self.updated_at
    }

    /// The time stamp that an update at `now` leaves: `now`, unless the
    /// clock reads earlier than the record's own stamps, which it then
    /// keeps (never before its creation, never moving back).
    pub open spec fn stamp_at(self, now: u64) -> u64 {
        if now >= self.updated_at && now >= self.created_at {
            now
        } else if self.updated_at >= self.created_at {
            self.updated_at
        } else {
            self.created_at
        }
    }
}

/// A lowercase hexadecimal digit.
pub open spec fn is_hex_digit(c: char) -> bool {
    ('0' <= c <= '9') || ('a' <= c <= 'f')
}

/// The hyphenated text form of a UUID: 36 characters, hyphens at 8, 13,
/// 18 and 23, lowercase hexadecimal digits elsewhere, and the version
/// digit `4` at 14.
pub open spec fn is_uuid_v4_text(s: Seq<char>) -> bool {
    &&& s.len() == 36
    &&& forall|i: int|
        0 <= i < 36 ==> if i == 8 || i == 13 || i == 18 || i == 23 {
            s[i] == '-'
        } else {
            is_hex_digit(#[trigger] s[i])
        }
    &&& s[14] == '4'
}

/// Relies on `uuid::Builder::from_random_bytes` and the hyphenated,
/// lowercase text form of the version 4 UUID it builds.
#[verifier::external_body]
fn uuid_text(random_bytes: &[u8]) -> (r: String)
    requires
        random_bytes@.len() == 16,
    ensures
        is_uuid_v4_text(r@),
{
    let mut bytes = [0u8; 16];
    bytes.copy_from_slice(random_bytes);
    uuid::Builder::from_random_bytes(bytes).into_uuid().to_string()
}

/// Relies on `std::time::SystemTime::now`: seconds since the Unix epoch, or
/// 0 where the clock stands before it.
#[verifier::external_body]
fn now_secs() -> (r: u64) {
    match std::time::SystemTime::now().duration_since(std::time::UNIX_EPOCH) {
        Ok(d) => d.as_secs(),
        Err(_) => 0,
    }
}

pub(crate) fn clone_opt(s: &Option<String>) -> (r: Option<String>)
    ensures
        r.deep_view() == s.deep_view(),
{
    match s {
        Some(v) => Some(v.clone()),
        None => None,
    }
}

impl Password {
    /// A new record with a fresh random identifier (a version 4 UUID),
    /// created and updated now; fails only where the system has no
    /// randomness to give.
    pub fn new(
        title: String,
        username: String,
        password: String,
        url: Option<String>,
        notes: Option<String>,
    ) -> (r: Result<Password, VaultError>)
        ensures
            r matches Err(e) ==> e == VaultError::RandomnessUnavailable,
            r matches Ok(p) ==> {
                &&& is_uuid_v4_text(p@.id)
                &&& p@.title == title@
                &&& p@.username == username@
                &&& p@.password == password@
                &&& p@.url == url.deep_view()
                &&& p@.notes == notes.deep_view()
                &&& p@.created_at == p@.updated_at
                &&& p@.wf()
            },
    {
        let mut random_bytes: Vec<u8> = vec![0u8; 16];
        if !fill_from_os(&mut random_bytes) {
            return Err(VaultError::RandomnessUnavailable);
        }
        let id = uuid_text(random_bytes.as_slice());
        let now = now_secs();
        Ok(Password { id, title, username, password, url, notes, created_at: now, updated_at: now })
    }

    /// Overwrites every mutable field and stamps the record as updated at
    /// `now` (or at its creation time, should `now` lie before it).
    pub fn apply_update(
        &mut self,
        title: String,
        username: String,
        password: String,
        url: Option<String>,
        notes: Option<String>,
        now: u64,
    )
        ensures
            final(self)@ == (PasswordView {
                title: title@,
                username: username@,
                password: password@,
                url: url.deep_view(),
                notes: notes.deep_view(),
                updated_at: old(self)@.stamp_at(now),
                ..old(self)@
            }),
            final(self)@.wf(),
            final(self)@.updated_at >= old(self)@.updated_at,
            now > old(self)@.updated_at ==> final(self)@.updated_at > old(self)@.updated_at,
    {
        let stamp = if now >= self.updated_at && now >= self.created_at {
            now
        } else if self.updated_at >= self.created_at {
            self.updated_at
        } else {
            self.created_at
        };
        self.title = title;
        self.username = username;
        self.password = password;
        self.url = url;
        self.notes = notes;
        self.updated_at = stamp;
    }

    /// Overwrites every mutable field and stamps the record as updated now.
    pub fn update(
        &mut self,
        title: String,
        username: String,
        password: String,
        url: Option<String>,
        notes: Option<String>,
    )
        ensures
            final(self)@.id == old(self)@.id,
            final(self)@.created_at == old(self)@.created_at,
            final(self)@.title == title@,
            final(self)@.username == username@,
            final(self)@.password == password@,
            final(self)@.url == url.deep_view(),
            final(self)@.notes == notes.deep_view(),
            final(self)@.wf(),
            final(self)@.updated_at >= old(self)@.updated_at,
    {
        let now = now_secs();
        self.apply_update(title, username, password, url, notes, now);
    }

    /// A copy of the record that equals it field by field.
    pub fn duplicate(&self) -> (r: Password)
        ensures
            r@ == self@,
    {
        Password {
            id: self.id.clone(),
            title: self.title.clone(),
            username: self.username.clone(),
            password: self.password.clone(),
            url: clone_opt(&self.url),
            notes: clone_opt(&self.notes),
            created_at: self.created_at,
            updated_at: self.updated_at,
        }
    }
}

} // verus!
