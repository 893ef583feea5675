//! The authentication engine the front end consults before a request may
//! reach the core: a table of users with argon2-encoded password hashes,
//! and the session cookies handed out on successful logins.

use vstd::prelude::*;

use rand::Rng;

verus! {

/// The encoded hash stored for `user`, if any: the first matching entry of
/// the credentials table at or after index `i`.
pub open spec fn lookup_from(
    users: Seq<(String, String)>,
    user: Seq<char>,
    i: int,
) -> Option<Seq<char>>
    decreases users.len() - i,
{
    if i < 0 || i >= users.len() {
        None
    } else if users[i].0@ == user {
        Some(users[i].1@)
    } else {
        lookup_from(users, user, i + 1)
    }
}

/// The encoded hash stored for `user`, if any.
pub open spec fn lookup(users: Seq<(String, String)>, user: Seq<char>) -> Option<Seq<char>> {
    lookup_from(users, user, 0)
}

/// Whether `c` is among the session cookies handed out so far.
pub open spec fn has_cookie(allowed: Seq<String>, c: Seq<char>) -> bool {
    exists|i: int| 0 <= i < allowed.len() && (#[trigger] allowed[i])@ == c
}

/// What argon2 password verification returns for an encoded hash and a
/// password: whether they match, or nothing when the encoded string is not
/// a well-formed argon2 hash. Deterministic in its arguments.
pub uninterp spec fn argon2_outcome(hash: Seq<char>, password: Seq<u8>) -> Option<bool>;

/// Relies on argon2::verify_encoded: deterministically checks a password
/// against an argon2-encoded hash; its `Err`, meaning the encoded string
/// itself is malformed, is mapped to `None` here.
#[verifier::external_body]
fn argon2_verify(hash: &str, password: &[u8]) -> (r: Option<bool>)
    ensures
        r == argon2_outcome(hash@, password@),
{
    match argon2::verify_encoded(hash, password) {
        Ok(matched) => Some(matched),
        Err(_) => None,
    }
}

/// Relies on rand's thread-local generator with the Alphanumeric
/// distribution: exactly 74 characters, each from the ASCII alphanumeric
/// set. The value is random, so nothing more is promised of it.
#[verifier::external_body]
fn random_cookie() -> (r: String)
    ensures
        r@.len() == 74,
{
    rand::thread_rng()
        .sample_iter(&rand::distributions::Alphanumeric)
        .take(74)
        .map(char::from)
        .collect()
}

/// Whether two string slices hold the same characters.
fn str_eq(a: &str, b: &str) -> (r: bool)
    ensures
        r == (a@ == b@),
{
    let alen = a.unicode_len();
    let blen = b.unicode_len();
    if alen != blen {
        return false;
    }
    let mut i: usize = 0;
    while i < alen
        invariant
            alen == a@.len(),
            blen == b@.len(),
            alen == blen,
            0 <= i <= alen,
            forall|j: int| 0 <= j < i ==> a@[j] == b@[j],
        decreases alen - i,
    {
        if a.get_char(i) != b.get_char(i) {
            return false;
        }
        i += 1;
    }
    proof {
        assert(a@ =~= b@);
    }
    true
}

/// The authentication engine: the credentials table read at startup, and
/// every session cookie handed out since.
pub struct Engine {
    pub users: Vec<(String, String)>,
    pub allowed: Vec<String>,
}

impl Engine {
    /// Builds the engine from the credential entries read out of the store:
    /// each user with an argon2-encoded password hash. No session is live.
    pub fn new(users: Vec<(String, String)>) -> (r: Engine)
        ensures
            r.users == users,
            r.allowed@.len() == 0,
    {
        Engine { users, allowed: Vec::new() }
    }

    /// Whether the engine accepts this user and password: the user has an
    /// entry and argon2 confirms the password against its stored hash.
    pub open spec fn spec_accepts(self, user: Seq<char>, password: Seq<u8>) -> bool {
        match lookup(self.users@, user) {
            Some(hash) => argon2_outcome(hash, password) == Some(true),
            None => false,
        }
    }

    /// Whether `cookie` was handed out by a successful login since startup.
    pub fn is_authorized(&self, cookie: &String) -> (r: bool)
        ensures
            r == has_cookie(self.allowed@, cookie@),
    {
        let n = self.allowed.len();
        let mut i: usize = 0;
        while i < n
            invariant
                n == self.allowed@.len(),
                0 <= i <= n,
                forall|j: int| 0 <= j < i ==> (#[trigger] self.allowed@[j])@ != cookie@,
            decreases n - i,
        {
            if self.allowed[i] == *cookie {
                return true;
            }
            i += 1;
        }
        false
    }

    /// Verifies a login. On success a fresh random session cookie is stored
    /// and returned; on any failure (unknown user, wrong password, or a
    /// malformed stored hash) nothing changes and no cookie is produced.
    pub fn verify(&mut self, user: &str, password: &[u8]) -> (r: Option<String>)
        ensures
            r is Some <==> old(self).spec_accepts(user@, password@),
            final(self).users == old(self).users,
            r is None ==> *final(self) == *old(self),
            r matches Some(cookie) ==> final(self).allowed@ == old(self).allowed@.push(cookie)
                && cookie@.len() == 74,
    {
        let n = self.users.len();
        let mut i: usize = 0;
        while i < n
            invariant
                n == self.users@.len(),
                0 <= i <= n,
                self == old(self),
                forall|j: int| 0 <= j < i ==> (#[trigger] self.users@[j]).0@ != user@,
            decreases n - i,
        {
            if str_eq(self.users[i].0.as_str(), user) {
                proof {
                    lemma_lookup_scan(self.users@, user@, i as int);
                    assert(lookup(self.users@, user@) == Some(self.users@[i as int].1@));
                }
                let outcome = argon2_verify(self.users[i].1.as_str(), password);
                let accepted = match outcome {
                    Some(true) => true,
                    _ => false,
                };
                if accepted {
                    let cookie = random_cookie();
                    self.allowed.push(cookie.clone());
                    return Some(cookie);
                } else {
                    return None;
                }
            }
            i += 1;
        }
        proof {
            lemma_lookup_scan(self.users@, user@, n as int);
        }
        None
    }
}

/// Scanning the credentials table forward past non-matching entries does
/// not change what a lookup finds.
proof fn lemma_lookup_scan(users: Seq<(String, String)>, user: Seq<char>, i: int)
    requires
        0 <= i <= users.len(),
        forall|j: int| 0 <= j < i ==> (#[trigger] users[j]).0@ != user,
    ensures
        lookup(users, user) == lookup_from(users, user, i),
    decreases i,
{
    if i > 0 {
        lemma_lookup_scan(users, user, i - 1);
        assert(lookup_from(users, user, i - 1) == lookup_from(users, user, i));
    }
}

} // verus!
