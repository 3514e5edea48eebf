//! The secret that signs session cookies: 32 bytes that are generated once and kept.

use crate::crypto::random_32;
use crate::text::concat3;
use crate::text::decimal;
use crate::text::format_usize;
use vstd::prelude::*;

verus! {

/// Length of the secret in bytes.
pub const SECRET_LEN: usize = 32;

/// Why there is no secret.
#[derive(Debug, Clone, Copy, PartialEq, Eq, Structural)]
pub enum SecretError {
    /// The kept secret has another length.
    WrongLength(usize),
    /// The system has no random bytes to give.
    NoRandomness,
}

impl SecretError {
    /// The error in words, for the secret at the path.
    pub fn message(&self, path: &str) -> (r: String)
        ensures
            r@ == (match *self {
                SecretError::WrongLength(n) => "web-secret at "@ + path@ + " has wrong length "@
                    + decimal(n as nat) + " (expected 32)"@,
                SecretError::NoRandomness => "OS RNG failure generating web-secret"@,
            }),
    {
        match self {
            SecretError::WrongLength(n) => {
                let mut out = concat3("web-secret at ", path, " has wrong length ");
                let len = format_usize(*n);
                out.append(len.as_str());
                out.append(" (expected 32)");
                out
            },
            SecretError::NoRandomness => "OS RNG failure generating web-secret".to_owned(),
        }
    }
}

/// A secret, and whether it is new and has yet to be kept.
#[derive(Debug, Clone)]
pub struct LoadedSecret {
    pub bytes: Vec<u8>,
    pub fresh: bool,
}

/// What `secret_of` makes of the kept secret and the bytes that were drawn for a new one.
pub open spec fn is_secret_of(
    kept: Option<Vec<u8>>,
    drawn: Option<Seq<u8>>,
    r: Result<LoadedSecret, SecretError>,
) -> bool {
    match kept {
        Some(bytes) => if bytes@.len() == SECRET_LEN {
            r matches Ok(s) && s.bytes@ == bytes@ && !s.fresh
        } else {
            r == Err::<LoadedSecret, SecretError>(SecretError::WrongLength(bytes.len()))
        },
        None => match drawn {
            Some(b) => r matches Ok(s) && s.bytes@ == b && s.fresh,
            None => r == Err::<LoadedSecret, SecretError>(SecretError::NoRandomness),
        },
    }
}

/// The bytes that were drawn, if any were.
pub open spec fn drawn_bytes(drawn: Option<Vec<u8>>) -> Option<Seq<u8>> {
    match drawn {
        Some(b) => Some(b@),
        None => None,
    }
}

/// The kept secret or, where none is kept, the bytes that were drawn for a new one.
pub fn secret_of(kept: Option<Vec<u8>>, drawn: Option<Vec<u8>>) -> (r: Result<
    LoadedSecret,
    SecretError,
>)
    requires
        drawn matches Some(b) ==> b@.len() == SECRET_LEN,
    ensures
        is_secret_of(kept, drawn_bytes(drawn), r),
{
    match kept {
        Some(bytes) => {
            if bytes.len() != SECRET_LEN {
                return Err(SecretError::WrongLength(bytes.len()));
            }
            Ok(LoadedSecret { bytes, fresh: false })
        },
        None => match drawn {
            Some(bytes) => Ok(LoadedSecret { bytes, fresh: true }),
            None => Err(SecretError::NoRandomness),
        },
    }
}

/// The kept secret, or 32 random bytes where none is kept. Which bytes are drawn, and
/// whether there are any, is chance.
pub fn load_or_create(kept: Option<Vec<u8>>) -> (r: Result<LoadedSecret, SecretError>)
    ensures
        exists|drawn: Option<Seq<u8>>| #[trigger]
            is_secret_of(kept, drawn, r) && (drawn matches Some(b) ==> b.len() == SECRET_LEN),
{
    let drawn = match kept {
        Some(_) => None,
        None => random_32(),
    };
    let ghost bytes = drawn_bytes(drawn);
    let r = secret_of(kept, drawn);
    assert(is_secret_of(kept, bytes, r));
    r
}

/// A kept secret of 32 bytes is used as it is, and one of another length is refused; only
/// where none is kept is a new one made of the bytes that were drawn.
pub proof fn law_kept_secret_is_used(
    kept: Option<Vec<u8>>,
    drawn: Option<Vec<u8>>,
    r: Result<LoadedSecret, SecretError>,
)
    requires
        call_ensures(secret_of, (kept, drawn), r),
    ensures
        kept matches Some(b) ==> b@.len() == 32 ==> (r matches Ok(s) && s.bytes@ == b@
            && !s.fresh),
        kept matches Some(b) ==> b@.len() != 32 ==> (r matches Err(SecretError::WrongLength(n))
            && n == b@.len()),
        kept is None ==> (drawn matches Some(d) ==> (r matches Ok(s) && s.bytes@ == d@
            && s.fresh)),
        kept is None && drawn is None ==> r matches Err(SecretError::NoRandomness),
{
}

} // verus!
