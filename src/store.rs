//! The vault store: its lock state, the layout of the vault file, and the
//! load-modify-save protocol that every operation on the records goes
//! through.
//!
//! The store never touches the disk. Each operation takes the vault
//! file's current text (`None` where there is no file yet) and, where it
//! changes the records, returns the complete new text for the caller to
//! write back in one piece.
//!
//! The vault file is two parts on one line break: the base64 salt that the
//! key was derived with, then the sealed blob of the whole record set in
//! JSON.
use crate::cipher::{
    base64_encode, base64_of, decoded, decrypt_outcome, derived_key, is_base64_char, is_sealing,
    sealable_len, CipherError, Crypto, CryptoView, SALT_LEN,
};
use crate::record::{clone_opt, Password, PasswordView};
use crate::record_set::{
    find_by_id, found, has_id, index_of, opt_view, position_of, records_view, remove_id, search,
    search_result, without_id,
};
use vstd::prelude::*;
use vstd::utf8::encode_utf8;
use vstd::string::{StrSliceExecFns, StringExecFns};

verus! {

/// Why a vault operation failed.
#[derive(Clone, Copy, Debug, PartialEq, Eq, Structural)]
pub enum VaultError {
    /// The vault is locked: unlock it first.
    VaultLocked,
    /// The stored data does not authenticate under the key: a wrong master
    /// password, or tampered data (the two are not told apart).
    WrongMasterPassword,
    /// The key is right but the stored data cannot be read.
    CorruptData,
    /// No record has the id.
    NotFound,
    /// Reading or writing the vault file failed.
    IoFailure,
    /// A generated password was asked for with a length out of bounds.
    InvalidLength,
    /// Sealing the records failed.
    EncryptionFailed,
    /// The system's random source gave nothing, or gave an identifier
    /// that is already in use.
    RandomnessUnavailable,
}

/// One record as it is serialised: id, title, username, password, URL,
/// notes, creation and update time.
pub type Row = (String, String, String, String, Option<String>, Option<String>, u64, u64);

/// The view of a `Row`.
pub type RowView = (
    Seq<char>,
    Seq<char>,
    Seq<char>,
    Seq<char>,
    Option<Seq<char>>,
    Option<Seq<char>>,
    u64,
    u64,
);

#[verifier::external_type_specification]
#[verifier::external_body]
pub struct ExJsonError(serde_json::Error);

/// The JSON text of a sequence of rows, as `serde_json::to_string` writes it.
pub uninterp spec fn json_of_rows(rows: Seq<RowView>) -> Seq<char>;

/// The rows that `serde_json::from_str` reads from a text, if it reads any.
pub uninterp spec fn rows_in_json(text: Seq<char>) -> Option<Seq<RowView>>;

pub open spec fn row_view(r: Row) -> RowView {
    (r.0@, r.1@, r.2@, r.3@, r.4.deep_view(), r.5.deep_view(), r.6, r.7)
}

pub open spec fn rows_view(v: Seq<Row>) -> Seq<RowView> {
    v.map_values(|r: Row| row_view(r))
}

pub open spec fn row_of(p: PasswordView) -> RowView {
    (p.id, p.title, p.username, p.password, p.url, p.notes, p.created_at, p.updated_at)
}

pub open spec fn record_of(r: RowView) -> PasswordView {
    PasswordView {
        id: r.0,
        title: r.1,
        username: r.2,
        password: r.3,
        url: r.4,
        notes: r.5,
        created_at: r.6,
        updated_at: r.7,
    }
}

/// The JSON text that a record set is serialised to.
pub open spec fn json_text_of(s: Seq<PasswordView>) -> Seq<char> {
    json_of_rows(s.map_values(|p: PasswordView| row_of(p)))
}

/// Relies on `serde_json::to_string`, which fails only for a value whose
/// `Serialize` fails or for a map with keys that are not strings; neither
/// occurs among strings, options and integers.
#[verifier::external_body]
fn rows_to_json(rows: &Vec<Row>) -> (r: Result<String, serde_json::Error>)
    ensures
        r is Ok,
        r matches Ok(s) ==> s@ == json_of_rows(rows_view(rows@)),
{
    serde_json::to_string(rows)
}

/// Relies on `serde_json::from_str`, which reads back what `to_string`
/// wrote.
#[verifier::external_body]
fn rows_from_json(text: &str) -> (r: Result<Vec<Row>, serde_json::Error>)
    ensures
        r is Ok <==> rows_in_json(text@) is Some,
        r matches Ok(v) ==> rows_in_json(text@) == Some(rows_view(v@)),
        forall|rows: Seq<RowView>| #[trigger] json_of_rows(rows) == text@ ==> r is Ok && rows_view(r->Ok_0@) == rows,
{
    serde_json::from_str(text)
}

/// The rows that a record set is serialised as.
fn rows_from(records: &Vec<Password>) -> (r: Vec<Row>)
    ensures
        rows_view(r@) == records_view(records@).map_values(|p: PasswordView| row_of(p)),
{
    let mut out: Vec<Row> = Vec::new();
    let mut i: usize = 0;
    while i < records.len()
        invariant
            i <= records.len(),
            rows_view(out@) == records_view(records@).take(i as int).map_values(
                |p: PasswordView| row_of(p),
            ),
        decreases records.len() - i,
    {
        let p = &records[i];
        let row: Row = (
            p.id.clone(),
            p.title.clone(),
            p.username.clone(),
            p.password.clone(),
            clone_opt(&p.url),
            clone_opt(&p.notes),
            p.created_at,
            p.updated_at,
        );
        assert(row_view(row) == row_of(records@[i as int]@));
        let ghost before = out@;
        out.push(row);
        assert(rows_view(out@) == rows_view(before).push(row_view(row)));
        i += 1;
        assert(rows_view(out@) =~= records_view(records@).take(i as int).map_values(
            |p: PasswordView| row_of(p),
        ));
    }
    assert(records_view(records@).take(records.len() as int) == records_view(records@));
    out
}

/// The record set that rows read back as.
fn records_from(rows: Vec<Row>) -> (r: Vec<Password>)
    ensures
        records_view(r@) == rows_view(rows@).map_values(|x: RowView| record_of(x)),
{
    let ghost all = rows_view(rows@);
    let mut rest = rows;
    let mut out: Vec<Password> = Vec::new();
    while rest.len() > 0
        invariant
            all == records_view(out@).map_values(|p: PasswordView| row_of(p)) + rows_view(rest@),
            records_view(out@) == all.take(out@.len() as int).map_values(|x: RowView| record_of(x)),
            out@.len() + rest@.len() == all.len(),
        decreases rest.len(),
    {
        let row = rest.remove(0);
        let (id, title, username, password, url, notes, created_at, updated_at) = row;
        out.push(Password { id, title, username, password, url, notes, created_at, updated_at });
        assert(records_view(out@) == all.take(out@.len() as int).map_values(|x: RowView| record_of(x)));
        assert(all == records_view(out@).map_values(|p: PasswordView| row_of(p)) + rows_view(rest@));
    }
    assert(all.take(out@.len() as int) == all);
    out
}

/// Serialising a record set and reading the rows back gives it again.
proof fn lemma_rows_round_trip(s: Seq<PasswordView>)
    ensures
        s.map_values(|p: PasswordView| row_of(p)).map_values(|x: RowView| record_of(x)) == s,
{
    assert(s.map_values(|p: PasswordView| row_of(p)).map_values(|x: RowView| record_of(x)) =~= s);
}

/// No line break in the text.
pub open spec fn no_newline(s: Seq<char>) -> bool {
    forall|i: int| 0 <= i < s.len() ==> s[i] != '\n'
}

/// `i` is the index of the first line break in `t`.
pub open spec fn is_first_newline(t: Seq<char>, i: int) -> bool {
    0 <= i < t.len() && t[i] == '\n' && no_newline(t.take(i))
}

/// A vault file's text cut at its first line break: the salt part and the
/// blob part.
pub open spec fn store_parts(t: Seq<char>) -> Option<(Seq<char>, Seq<char>)> {
    if exists|i: int| is_first_newline(t, i) {
        let i = choose|i: int| is_first_newline(t, i);
        Some((t.take(i), t.skip(i + 1)))
    } else {
        None
    }
}

/// The vault file's text for a salt and a sealed blob.
pub open spec fn store_text(salt: Seq<u8>, blob: Seq<char>) -> Seq<char> {
    base64_of(salt) + seq!['\n'] + blob
}

/// `t` is a vault file that holds the record set `s` sealed under `key`,
/// with `salt` in front.
pub open spec fn stores_with(key: Seq<u8>, salt: Seq<u8>, t: Seq<char>, s: Seq<PasswordView>) -> bool {
    &&& no_newline(base64_of(salt))
    &&& exists|blob: Seq<char>| #[trigger] store_text(salt, blob) == t && is_sealing(key, blob, json_text_of(s))
}

/// `t` is a vault file that holds the record set `s` sealed under `key`.
pub open spec fn stores(key: Seq<u8>, t: Seq<char>, s: Seq<PasswordView>) -> bool {
    exists|salt: Seq<u8>| #[trigger] stores_with(key, salt, t, s)
}

/// The salt that a vault file's text begins with, if it holds one of the
/// right length.
pub open spec fn salt_in_store(t: Seq<char>) -> Option<Seq<u8>> {
    match store_parts(t) {
        Some((head, _)) => match decoded(head) {
            Some(salt) => if salt.len() == SALT_LEN {
                Some(salt)
            } else {
                None
            },
            None => None,
        },
        None => None,
    }
}

/// Every record of `s` was updated no earlier than it was created.
pub open spec fn all_wf(s: Seq<PasswordView>) -> bool {
    forall|i: int| 0 <= i < s.len() ==> #[trigger] s[i].wf()
}

/// Whether every record's time stamps are in order.
fn stamps_in_order(records: &Vec<Password>) -> (r: bool)
    ensures
        r == all_wf(records_view(records@)),
{
    let mut i: usize = 0;
    while i < records.len()
        invariant
            i <= records.len(),
            forall|j: int| 0 <= j < i ==> #[trigger] records_view(records@)[j].wf(),
        decreases records.len() - i,
    {
        if records[i].created_at > records[i].updated_at {
            assert(!records_view(records@)[i as int].wf());
            return false;
        }
        i += 1;
    }
    true
}

/// What reading the records from a vault file's text under `key` comes to;
/// no file, or an empty one, holds no records.
pub open spec fn read_outcome(key: Seq<u8>, stored: Option<Seq<char>>) -> Result<Seq<PasswordView>, VaultError> {
    match stored {
        None => Ok(Seq::empty()),
        Some(t) => if t.len() == 0 {
            Ok(Seq::empty())
        } else {
            match store_parts(t) {
                None => Err(VaultError::CorruptData),
                Some((_, blob)) => match decrypt_outcome(key, blob) {
                    Err(CipherError::AuthenticationFailed) => Err(VaultError::WrongMasterPassword),
                    Err(_) => Err(VaultError::CorruptData),
                    Ok(plain) => match rows_in_json(plain) {
                        None => Err(VaultError::CorruptData),
                        Some(rows) => if all_wf(rows.map_values(|x: RowView| record_of(x))) {
                            Ok(rows.map_values(|x: RowView| record_of(x)))
                        } else {
                            Err(VaultError::CorruptData)
                        },
                    },
                },
            }
        },
    }
}

/// What loading the records comes to in a given lock state.
pub open spec fn load_outcome(state: Option<CryptoView>, stored: Option<Seq<char>>) -> Result<Seq<PasswordView>, VaultError> {
    match state {
        None => Err(VaultError::VaultLocked),
        Some(c) => read_outcome(c.key, stored),
    }
}

/// The view of an optional text.
pub open spec fn opt_text(o: Option<&str>) -> Option<Seq<char>> {
    match o {
        Some(s) => Some(s@),
        None => None,
    }
}

/// The view of a result that carries records.
pub open spec fn records_result(r: Result<Vec<Password>, VaultError>) -> Result<Seq<PasswordView>, VaultError> {
    match r {
        Ok(v) => Ok(records_view(v@)),
        Err(e) => Err(e),
    }
}

/// The first line break is unique.
proof fn lemma_first_newline_unique(t: Seq<char>, i: int, j: int)
    requires
        is_first_newline(t, i),
        is_first_newline(t, j),
    ensures
        i == j,
{
    if i < j {
        assert(t.take(j)[i] == t[i]);
    } else if j < i {
        assert(t.take(i)[j] == t[j]);
    }
}

/// A file built from a salt without line breaks cuts back into its parts.
proof fn lemma_store_parts(salt: Seq<u8>, blob: Seq<char>)
    requires
        no_newline(base64_of(salt)),
    ensures
        store_parts(store_text(salt, blob)) == Some((base64_of(salt), blob)),
{
    let head = base64_of(salt);
    let t = store_text(salt, blob);
    assert(t.take(head.len() as int) == head);
    assert(is_first_newline(t, head.len() as int));
    let i = choose|i: int| is_first_newline(t, i);
    lemma_first_newline_unique(t, i, head.len() as int);
    assert(t.skip(head.len() as int + 1) == blob);
}

/// Cuts a vault file's text at its first line break.
fn split_store(t: &str) -> (r: Option<(&str, &str)>)
    ensures
        r matches Some((head, blob)) ==> store_parts(t@) == Some((head@, blob@)),
        r is None ==> store_parts(t@) is None,
{
    let n = t.unicode_len();
    let mut i: usize = 0;
    while i < n
        invariant
            n == t@.len(),
            i <= n,
            no_newline(t@.take(i as int)),
        decreases n - i,
    {
        if t.get_char(i) == '\n' {
            proof {
                assert(is_first_newline(t@, i as int));
                let k = choose|k: int| is_first_newline(t@, k);
                lemma_first_newline_unique(t@, k, i as int);
            }
            return Some((t.substring_char(0, i), t.substring_char(i + 1, n)));
        }
        i += 1;
        assert(t@.take(i as int) == t@.take(i - 1).push(t@[i - 1]));
    }
    proof {
        assert(t@.take(n as int) == t@);
        if exists|k: int| is_first_newline(t@, k) {
            let k = choose|k: int| is_first_newline(t@, k);
            assert(t@.take(n as int)[k] == t@[k]);
        }
    }
    None
}

/// The salt at the head of a vault file's text, if it holds one of the
/// right length.
fn stored_salt(t: &str) -> (r: Option<Vec<u8>>)
    ensures
        r matches Some(v) ==> salt_in_store(t@) == Some(v@),
        r is None <==> salt_in_store(t@) is None,
        forall|salt: Seq<u8>, blob: Seq<char>|
            no_newline(base64_of(salt)) && salt.len() == SALT_LEN && #[trigger] store_text(salt, blob)
                == t@ ==> (r matches Some(v) && v@ == salt),
{
    proof {
        assert forall|salt: Seq<u8>, blob: Seq<char>|
            no_newline(base64_of(salt)) && #[trigger] store_text(salt, blob) == t@ implies store_parts(
            t@,
        ) == Some((base64_of(salt), blob)) by {
            lemma_store_parts(salt, blob);
        }
    }
    match split_store(t) {
        None => None,
        Some((head, _)) => match crate::cipher::base64_decode(head) {
            Ok(salt) => {
                assert(decoded(head@) == Some(salt@));
                if salt.len() == SALT_LEN {
                    Some(salt)
                } else {
                    None
                }
            },
            Err(_) => {
                assert(decoded(head@) is None);
                None
            },
        },
    }
}

/// The salt that a vault file, if there is one, begins with.
pub open spec fn salt_of_file(stored: Option<Seq<char>>) -> Option<Seq<u8>> {
    match stored {
        Some(t) => salt_in_store(t),
        None => None,
    }
}

/// The blob of a vault file that holds a record set is a sealing of that
/// set's JSON text.
proof fn lemma_stored_blob(key: Seq<u8>, t: Seq<char>, s: Seq<PasswordView>)
    requires
        stores(key, t, s),
    ensures
        t.len() > 0,
        (store_parts(t) matches Some((_, blob)) && is_sealing(key, blob, json_text_of(s))),
{
    let salt = choose|salt: Seq<u8>| #[trigger] stores_with(key, salt, t, s);
    let b = choose|b: Seq<char>| #[trigger] store_text(salt, b) == t && is_sealing(key, b, json_text_of(s));
    lemma_store_parts(salt, b);
    assert(t[base64_of(salt).len() as int] == '\n');
}

/// The vault: its lock state, and the protocol by which every operation
/// loads the whole record set, changes it and seals it again.
///
/// Unlocking derives the key and does not check the password: a wrong one
/// shows on the first load of an existing vault, as
/// `VaultError::WrongMasterPassword`.
pub struct Storage {
    crypto: Option<Crypto>,
}

impl View for Storage {
    type V = Option<CryptoView>;

    closed spec fn view(&self) -> Option<CryptoView> {
        match self.crypto {
            Some(c) => Some(c@),
            None => None,
        }
    }
}

impl Storage {
    pub closed spec fn wf(&self) -> bool {
        match self.crypto {
            Some(c) => c.wf() && c@.salt.len() == SALT_LEN,
            None => true,
        }
    }

    /// A locked vault.
    pub fn new() -> (r: Storage)
        ensures
            r.wf(),
            r@ is None,
    {
        Storage { crypto: None }
    }

    /// Derives the key from `master_password`, with the salt of the vault
    /// file `stored` where it holds one and a fresh random salt otherwise,
    /// and unlocks the vault with it; any earlier key is dropped. Fails
    /// only where a fresh salt is needed and the system has no randomness.
    pub fn unlock(&mut self, master_password: &str, stored: Option<&str>) -> (r: Result<(), VaultError>)
        requires
            old(self).wf(),
        ensures
            final(self).wf(),
            r is Ok ==> (final(self)@ matches Some(c) && c.key == derived_key(master_password@, c.salt)
                && c.salt.len() == SALT_LEN),
            r is Ok && salt_of_file(opt_text(stored)) is Some ==> final(self)@->0.salt == salt_of_file(
                opt_text(stored),
            )->0,
            salt_of_file(opt_text(stored)) is Some ==> r is Ok,
            forall|salt: Seq<u8>, blob: Seq<char>|
                stored is Some && no_newline(base64_of(salt)) && salt.len() == SALT_LEN
                    && #[trigger] store_text(salt, blob) == stored->0@ ==> (r is Ok
                    && final(self)@->0.salt == salt),
            r is Err ==> r == Err::<(), VaultError>(VaultError::EncryptionFailed) && final(self)@ == old(
                self,
            )@,
    {
        let salt = match stored {
            Some(t) => stored_salt(t),
            None => None,
        };
        let crypto = match salt {
            Some(salt) => Crypto::with_salt(master_password, salt.as_slice()),
            None => match Crypto::new(master_password) {
                Ok(c) => c,
                Err(_) => return Err(VaultError::EncryptionFailed),
            },
        };
        self.crypto = Some(crypto);
        Ok(())
    }

    /// Whether the vault holds a key.
    pub fn is_unlocked(&self) -> (r: bool)
        ensures
            r == self@ is Some,
    {
        self.crypto.is_some()
    }

    /// Drops the key.
    pub fn lock(&mut self)
        ensures
            final(self).wf(),
            final(self)@ is None,
    {
        self.crypto = None;
    }

    /// Reads the record set from the vault file's text (`None` where there
    /// is no file). A file that the same key sealed reads back as the
    /// record set it was sealed from; a record updated before it was
    /// created makes the data corrupt.
    pub fn load_passwords(&self, stored: Option<&str>) -> (r: Result<Vec<Password>, VaultError>)
        requires
            self.wf(),
        ensures
            records_result(r) == load_outcome(self@, opt_text(stored)),
            self@ is Some && stored is Some ==> forall|s: Seq<PasswordView>|
                #[trigger] stores(self@->0.key, stored->0@, s) && all_wf(s) ==> records_result(r) == Ok::<
                    Seq<PasswordView>,
                    VaultError,
                >(s),
    {
        let c = match &self.crypto {
            None => return Err(VaultError::VaultLocked),
            Some(c) => c,
        };
        let ghost key = c@.key;
        let t = match stored {
            None => {
                let none: Vec<Password> = Vec::new();
                assert(records_view(none@) =~= Seq::<PasswordView>::empty());
                return Ok(none);
            },
            Some(t) => t,
        };
        if t.is_empty() {
            proof {
                assert forall|s: Seq<PasswordView>| !#[trigger] stores(key, t@, s) by {
                    if stores(key, t@, s) {
                        lemma_stored_blob(key, t@, s);
                    }
                }
            }
            let none: Vec<Password> = Vec::new();
            assert(records_view(none@) =~= Seq::<PasswordView>::empty());
            return Ok(none);
        }
        let (_, blob) = match split_store(t) {
            None => {
                proof {
                    assert forall|s: Seq<PasswordView>| !#[trigger] stores(key, t@, s) by {
                        if stores(key, t@, s) {
                            lemma_stored_blob(key, t@, s);
                        }
                    }
                }
                return Err(VaultError::CorruptData);
            },
            Some(parts) => parts,
        };
        proof {
            assert forall|s: Seq<PasswordView>| #[trigger] stores(key, t@, s) implies is_sealing(
                key,
                blob@,
                json_text_of(s),
            ) by {
                lemma_stored_blob(key, t@, s);
            }
        }
        let plain = match c.decrypt(blob) {
            Ok(p) => p,
            Err(CipherError::AuthenticationFailed) => return Err(VaultError::WrongMasterPassword),
            Err(_) => return Err(VaultError::CorruptData),
        };
        let rows = match rows_from_json(plain.as_str()) {
            Ok(rows) => rows,
            Err(_) => return Err(VaultError::CorruptData),
        };
        let records = records_from(rows);
        if !stamps_in_order(&records) {
            proof {
                assert forall|s: Seq<PasswordView>| #[trigger] stores(key, t@, s) implies !all_wf(s) by {
                    assert(plain@ == json_text_of(s));
                    lemma_rows_round_trip(s);
                }
            }
            return Err(VaultError::CorruptData);
        }
        proof {
            assert forall|s: Seq<PasswordView>| #[trigger] stores(key, t@, s) implies records_view(
                records@,
            ) == s by {
                assert(plain@ == json_text_of(s));
                lemma_rows_round_trip(s);
            }
        }
        Ok(records)
    }

    /// Seals the whole record set and returns the vault file's new text:
    /// the salt, a line break, and the sealed blob.
    pub fn save_passwords(&self, records: &Vec<Password>) -> (r: Result<String, VaultError>)
        requires
            self.wf(),
        ensures
            self@ is None ==> r == Err::<String, VaultError>(VaultError::VaultLocked),
            self@ matches Some(c) ==> (r matches Ok(t) ==> stores_with(
                c.key,
                c.salt,
                t@,
                records_view(records@),
            )),
            self@ is Some ==> (r matches Err(e) ==> e == VaultError::EncryptionFailed),
            !sealable_len(encode_utf8(json_text_of(records_view(records@))).len() as int) ==> r is Err,
    {
        let c = match &self.crypto {
            None => return Err(VaultError::VaultLocked),
            Some(c) => c,
        };
        let rows = rows_from(records);
        let json = match rows_to_json(&rows) {
            Ok(j) => j,
            Err(_) => return Err(VaultError::EncryptionFailed),
        };
        assert(json@ == json_text_of(records_view(records@)));
        let blob = match c.encrypt(json.as_str()) {
            Ok(b) => b,
            Err(_) => return Err(VaultError::EncryptionFailed),
        };
        let mut text = base64_encode(c.salt());
        let ghost head = text@;
        proof {
            reveal_strlit("\n");
        }
        text.append("\n");
        text.append(blob.as_str());
        proof {
            assert(no_newline(head)) by {
                assert forall|i: int| 0 <= i < head.len() implies head[i] != '\n' by {
                    assert(is_base64_char(head[i]));
                }
            }
            assert(store_text(c@.salt, blob@) == text@);
        }
        Ok(text)
    }

    /// Builds a new record from the fields (a fresh id, both time stamps
    /// now), appends it to the record set and seals the set again; returns
    /// the stored record and the vault file's new text. A fresh id that is
    /// already stored is refused.
    pub fn add_password(
        &self,
        stored: Option<&str>,
        title: String,
        username: String,
        password: String,
        url: Option<String>,
        notes: Option<String>,
    ) -> (r: Result<(Password, String), VaultError>)
        requires
            self.wf(),
        ensures
            match load_outcome(self@, opt_text(stored)) {
                Err(e) => r == Err::<(Password, String), VaultError>(e),
                Ok(s) => match r {
                    Ok((p, t)) => {
                        &&& !has_id(s, p@.id)
                        &&& p@.title == title@
                        &&& p@.username == username@
                        &&& p@.password == password@
                        &&& p@.url == url.deep_view()
                        &&& p@.notes == notes.deep_view()
                        &&& p@.created_at == p@.updated_at
                        &&& stores_with(self@->0.key, self@->0.salt, t@, s.push(p@))
                    },
                    Err(e) => e == VaultError::EncryptionFailed || e
                        == VaultError::RandomnessUnavailable,
                },
            },
    {
        let records = match self.load_passwords(stored) {
            Ok(v) => v,
            Err(e) => return Err(e),
        };
        let record = match Password::new(title, username, password, url, notes) {
            Ok(p) => p,
            Err(e) => return Err(e),
        };
        self.append_record(records, record)
    }

    /// Appends `record` to `records` and seals the set; returns the stored
    /// record and the vault file's new text. A record whose id is already
    /// in the set is refused with `VaultError::RandomnessUnavailable`, as a
    /// fresh id that repeats one in use shows a failed random source.
    pub fn append_record(&self, records: Vec<Password>, record: Password) -> (r: Result<(Password, String), VaultError>)
        requires
            self.wf(),
            self@ is Some,
        ensures
            has_id(records_view(records@), record@.id) <==> r == Err::<(Password, String), VaultError>(
                VaultError::RandomnessUnavailable,
            ),
            !has_id(records_view(records@), record@.id) ==> match r {
                Ok((p, t)) => p@ == record@ && stores_with(
                    self@->0.key,
                    self@->0.salt,
                    t@,
                    records_view(records@).push(record@),
                ),
                Err(e) => e == VaultError::EncryptionFailed,
            },
    {
        let ghost s = records_view(records@);
        proof {
            crate::record_set::lemma_position(s, record@.id);
        }
        if index_of(&records, record.id.as_str()).is_some() {
            return Err(VaultError::RandomnessUnavailable);
        }
        let mut records = records;
        let added = record.duplicate();
        records.push(record);
        assert(records_view(records@) == s.push(added@));
        match self.save_passwords(&records) {
            Ok(t) => Ok((added, t)),
            Err(e) => Err(e),
        }
    }

    /// The whole record set, in stored order.
    pub fn get_all_passwords(&self, stored: Option<&str>) -> (r: Result<Vec<Password>, VaultError>)
        requires
            self.wf(),
        ensures
            records_result(r) == load_outcome(self@, opt_text(stored)),
    {
        self.load_passwords(stored)
    }

    /// The first record with `id`, if any.
    pub fn get_password(&self, stored: Option<&str>, id: &str) -> (r: Result<Option<Password>, VaultError>)
        requires
            self.wf(),
        ensures
            match load_outcome(self@, opt_text(stored)) {
                Err(e) => r == Err::<Option<Password>, VaultError>(e),
                Ok(s) => r matches Ok(o) && opt_view(o) == found(s, id@),
            },
    {
        let records = match self.load_passwords(stored) {
            Ok(v) => v,
            Err(e) => return Err(e),
        };
        Ok(find_by_id(&records, id))
    }

    /// Overwrites the mutable fields of the first record with `id` and
    /// stamps it as updated now; returns the new record and the vault
    /// file's new text.
    pub fn update_password(
        &self,
        stored: Option<&str>,
        id: &str,
        title: String,
        username: String,
        password: String,
        url: Option<String>,
        notes: Option<String>,
    ) -> (r: Result<(Password, String), VaultError>)
        requires
            self.wf(),
        ensures
            match load_outcome(self@, opt_text(stored)) {
                Err(e) => r == Err::<(Password, String), VaultError>(e),
                Ok(s) => if position_of(s, id@) < 0 {
                    r == Err::<(Password, String), VaultError>(VaultError::NotFound)
                } else {
                    let k = position_of(s, id@);
                    match r {
                        Ok((p, t)) => {
                            &&& p@.id == s[k].id
                            &&& p@.created_at == s[k].created_at
                            &&& p@.updated_at >= s[k].updated_at
                            &&& p@.title == title@
                            &&& p@.username == username@
                            &&& p@.password == password@
                            &&& p@.url == url.deep_view()
                            &&& p@.notes == notes.deep_view()
                            &&& p@.wf()
                            &&& stores_with(self@->0.key, self@->0.salt, t@, s.update(k, p@))
                        },
                        Err(e) => e == VaultError::EncryptionFailed,
                    }
                },
            },
    {
        let mut records = match self.load_passwords(stored) {
            Ok(v) => v,
            Err(e) => return Err(e),
        };
        let ghost s = records_view(records@);
        proof {
            crate::record_set::lemma_position(s, id@);
        }
        let k = match index_of(&records, id) {
            Some(k) => k,
            None => return Err(VaultError::NotFound),
        };
        let mut entry = records.remove(k);
        entry.update(title, username, password, url, notes);
        let updated = entry.duplicate();
        records.insert(k, entry);
        assert(records_view(records@) =~= s.update(k as int, updated@));
        match self.save_passwords(&records) {
            Ok(t) => Ok((updated, t)),
            Err(e) => Err(e),
        }
    }

    /// Removes every record with `id` (none is no error) and returns the
    /// vault file's new text.
    pub fn delete_password(&self, stored: Option<&str>, id: &str) -> (r: Result<String, VaultError>)
        requires
            self.wf(),
        ensures
            match load_outcome(self@, opt_text(stored)) {
                Err(e) => r == Err::<String, VaultError>(e),
                Ok(s) => match r {
                    Ok(t) => stores_with(self@->0.key, self@->0.salt, t@, without_id(s, id@)),
                    Err(e) => e == VaultError::EncryptionFailed,
                },
            },
    {
        let records = match self.load_passwords(stored) {
            Ok(v) => v,
            Err(e) => return Err(e),
        };
        let kept = remove_id(&records, id);
        self.save_passwords(&kept)
    }

    /// The records whose title, username or URL holds `query`, case
    /// ignored, in stored order.
    pub fn search_passwords(&self, stored: Option<&str>, query: &str) -> (r: Result<Vec<Password>, VaultError>)
        requires
            self.wf(),
        ensures
            match load_outcome(self@, opt_text(stored)) {
                Err(e) => r == Err::<Vec<Password>, VaultError>(e),
                Ok(s) => r matches Ok(v) && records_view(v@) == search_result(s, query@),
            },
    {
        let records = match self.load_passwords(stored) {
            Ok(v) => v,
            Err(e) => return Err(e),
        };
        Ok(search(&records, query))
    }
}

} // verus!
