//! The key files of a node: who may read them, what they hold, and how a new one is made.
use vstd::prelude::*;
use vstd::string::*;
use crate::text::{decimal, decimal_text, octal, octal_text};

verus! {

/// The permissions of a key file: only its owner may read or write it.
pub const MAX_MODE: u32 = 0o600;

/// `ed25519_dalek::SigningKey`: a key that signs.
#[verifier::external_type_specification]
#[verifier::external_body]
pub struct ExSigningKey(ed25519_dalek::SigningKey);

/// The secret that a signing key holds.
pub uninterp spec fn secret_of(key: ed25519_dalek::SigningKey) -> Seq<u8>;

/// `SigningKey::from_bytes`: the key with this secret.
pub assume_specification[ ed25519_dalek::SigningKey::from_bytes ](
    secret_key: &ed25519_dalek::SecretKey,
) -> (r: ed25519_dalek::SigningKey)
    ensures
        secret_of(r) == secret_key@,
;

/// `rand::rng` and `RngExt::fill`: thirty-two random bytes. Nothing is promised of them.
#[verifier::external_body]
pub(crate) fn random_seed() -> (r: [u8; 32]) {
    let mut seed = [0u8; 32];
    rand::RngExt::fill(&mut rand::rng(), &mut seed);
    seed
}

/// Why there is no key.
#[derive(Debug, PartialEq, Eq)]
pub enum KeyError {
    /// Others than its owner may use the file.
    TooPermissive {
        /// The file.
        path: String,
        /// Its permissions.
        mode: u32,
    },
    /// The file does not hold a seed.
    WrongLength {
        /// The file.
        path: String,
        /// How many bytes it holds.
        len: usize,
    },
    /// The file, or what is known of it, could not be read.
    Read {
        /// The file.
        path: String,
        /// Why.
        source: String,
    },
    /// A new file could not be written.
    Write {
        /// The file.
        path: String,
        /// Why.
        source: String,
    },
}

impl KeyError {
    /// The message for an operator.
    pub open spec fn printed(&self) -> Seq<char> {
        match *self {
            KeyError::TooPermissive { path, mode } => "key file "@ + path@ + " has permissions "@
                + octal(mode as nat) + ", wider than the required 0600"@,
            KeyError::WrongLength { path, len } => "key file "@ + path@ + " holds "@ + decimal(
                len as nat,
            ) + " bytes, expected a 32-byte seed"@,
            KeyError::Read { path, source } => "failed to read key file "@ + path@ + ": "@
                + source@,
            KeyError::Write { path, source } => "failed to write key file "@ + path@ + ": "@
                + source@,
        }
    }

    /// The message for an operator.
    pub fn message(&self) -> (r: String)
        ensures
            r@ == self.printed(),
    {
        match self {
            KeyError::TooPermissive { path, mode } => {
                let mut r = String::from_str("key file ");
                r.append(path.as_str());
                r.append(" has permissions ");
                r.append(octal_text(*mode as u64).as_str());
                r.append(", wider than the required 0600");
                r
            },
            KeyError::WrongLength { path, len } => {
                let mut r = String::from_str("key file ");
                r.append(path.as_str());
                r.append(" holds ");
                r.append(decimal_text(*len as u64).as_str());
                r.append(" bytes, expected a 32-byte seed");
                r
            },
            KeyError::Read { path, source } => {
                let mut r = String::from_str("failed to read key file ");
                r.append(path.as_str());
                r.append(": ");
                r.append(source.as_str());
                r
            },
            KeyError::Write { path, source } => {
                let mut r = String::from_str("failed to write key file ");
                r.append(path.as_str());
                r.append(": ");
                r.append(source.as_str());
                r
            },
        }
    }
}

/// The permissions let somebody do more than the owner's reading and writing.
pub open spec fn is_too_wide(mode: u32) -> bool {
    (mode & 0o777) & !MAX_MODE != 0
}

/// A file's type and its special bits do not count, and a narrower file is fine.
pub proof fn only_permissions_count(mode: u32, kind: u32)
    ensures
        is_too_wide(mode) == (mode & 0o177 != 0),
        is_too_wide((mode & 0o777) | (kind & !0o777u32)) == is_too_wide(mode),
{
    assert(((mode & 0o777) & !0o600u32 != 0) == (mode & 0o177 != 0)) by (bit_vector);
    let other: u32 = (mode & 0o777) | (kind & !0o777u32);
    assert((other & 0o777) == (mode & 0o777)) by (bit_vector)
        requires
            other == (mode & 0o777) | (kind & !0o777u32),
    ;
}

/// What was found where a key file should be.
#[derive(Debug, PartialEq, Eq)]
pub enum KeyFile {
    /// A file with these permissions.
    Exists(u32),
    /// No file.
    Missing,
    /// That could not be told.
    Unknown(String),
}

/// What to do about a key file.
#[derive(Debug, Clone, Copy, PartialEq, Eq, Structural)]
pub enum KeyStep {
    /// Read it.
    Read,
    /// Make a new key and write it.
    Generate,
}

/// What to do about the key file at `path`, given what was found there: a file that others may use
/// is refused without being read, and a missing one is made.
pub fn load_or_generate(path: &str, found: &KeyFile) -> (r: Result<KeyStep, KeyError>)
    ensures
        match *found {
            KeyFile::Exists(mode) => if is_too_wide(mode) {
                match r {
                    Err(KeyError::TooPermissive { path: p, mode: m }) => p@ == path@ && m == mode
                        & 0o777,
                    _ => false,
                }
            } else {
                r is Ok && r->Ok_0 is Read
            },
            KeyFile::Missing => r is Ok && r->Ok_0 is Generate,
            KeyFile::Unknown(reason) => match r {
                Err(KeyError::Read { path: p, source }) => p@ == path@ && source@ == reason@,
                _ => false,
            },
        },
{
    match found {
        KeyFile::Exists(mode) => {
            let mode: u32 = *mode & 0o777;
            if mode & !MAX_MODE != 0 {
                Err(KeyError::TooPermissive { path: path.to_owned(), mode })
            } else {
                Ok(KeyStep::Read)
            }
        },
        KeyFile::Missing => Ok(KeyStep::Generate),
        KeyFile::Unknown(reason) => Err(
            KeyError::Read { path: path.to_owned(), source: reason.clone() },
        ),
    }
}

/// The key in the file at `path`, given its permissions and what came of reading it.
pub fn read_existing(path: &str, mode: u32, read: Result<Vec<u8>, String>) -> (r: Result<
    ed25519_dalek::SigningKey,
    KeyError,
>)
    ensures
        is_too_wide(mode) ==> match r {
            Err(KeyError::TooPermissive { path: p, mode: m }) => p@ == path@ && m == mode & 0o777,
            _ => false,
        },
        !is_too_wide(mode) ==> match read {
            Err(reason) => match r {
                Err(KeyError::Read { path: p, source }) => p@ == path@ && source@ == reason@,
                _ => false,
            },
            Ok(bytes) => if bytes@.len() == 32 {
                r is Ok && secret_of(r->Ok_0) == bytes@
            } else {
                match r {
                    Err(KeyError::WrongLength { path: p, len }) => p@ == path@ && len
                        == bytes@.len(),
                    _ => false,
                }
            },
        },
{
    match load_or_generate(path, &KeyFile::Exists(mode)) {
        Err(error) => {
            return Err(error);
        },
        Ok(_) => {},
    }
    let bytes = match read {
        Ok(bytes) => bytes,
        Err(reason) => {
            return Err(KeyError::Read { path: path.to_owned(), source: reason });
        },
    };
    if bytes.len() != 32 {
        return Err(KeyError::WrongLength { path: path.to_owned(), len: bytes.len() });
    }
    let mut seed: [u8; 32] = [0; 32];
    let mut i: usize = 0;
    while i < 32
        invariant
            i <= 32,
            bytes@.len() == 32,
            forall|j: int| 0 <= j < i ==> #[trigger] seed@[j] == bytes@[j],
        decreases 32 - i,
    {
        seed[i] = bytes[i];
        i += 1;
    }
    assert(seed@ =~= bytes@);
    Ok(ed25519_dalek::SigningKey::from_bytes(&seed))
}

/// A new key, and the seed to write down for it.
pub fn generate_new() -> (r: ([u8; 32], ed25519_dalek::SigningKey))
    ensures
        secret_of(r.1) == r.0@,
{
    let seed = random_seed();
    let key = ed25519_dalek::SigningKey::from_bytes(&seed);
    (seed, key)
}

} // verus!
