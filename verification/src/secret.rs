//! What comes of decrypting a secret. The library opens no secret itself:
//! it says which one a target needs, and takes what came of opening it.

use vstd::prelude::*;
use vstd::string::*;

verus! {

/// Something that turns ciphertext into plaintext. The library calls none:
/// whoever runs it opens the secrets with one, and hands over what came of
/// it.
pub trait Decrpytor {
    fn decrypt(&self, bytes: &[u8]) -> Result<Vec<u8>, AgeDecryptionError>;
}

/// Why a secret could not be decrypted.
#[derive(Debug)]
pub enum AgeDecryptionError {
    /// The plaintext could not be read to its end.
    IOError(std::io::Error),
    /// The file is no age file, or the key does not open it; what `age`
    /// says of it.
    AgeError(String),
    /// The file is encrypted to a passphrase, not to a key.
    PassphraseProtected,
}

/// How far decrypting a file got.
#[derive(Debug)]
pub enum Decryption {
    /// The file is no age file; what `age` says of it.
    NoAgeFile(String),
    /// The file is encrypted to a passphrase.
    ForPassphrase,
    /// The key does not open the file; what `age` says of it.
    NotOpened(String),
    /// The plaintext could not be read to its end.
    NotRead(std::io::Error),
    /// The plaintext.
    Done(Vec<u8>),
}

/// What decrypting comes to, given how far it got: the plaintext if it was
/// read to its end, else the failure of the step that failed.
pub fn decrypted(outcome: Decryption) -> (r: Result<Vec<u8>, AgeDecryptionError>)
    ensures
        match outcome {
            Decryption::NoAgeFile(why) => r matches Err(AgeDecryptionError::AgeError(e)) && e
                == why,
            Decryption::ForPassphrase => r matches Err(AgeDecryptionError::PassphraseProtected),
            Decryption::NotOpened(why) => r matches Err(AgeDecryptionError::AgeError(e)) && e
                == why,
            Decryption::NotRead(cause) => r matches Err(AgeDecryptionError::IOError(e)) && e
                == cause,
            Decryption::Done(plaintext) => r == Ok::<Vec<u8>, AgeDecryptionError>(plaintext),
        },
{
    match outcome {
        Decryption::NoAgeFile(why) => Err(AgeDecryptionError::AgeError(why)),
        Decryption::ForPassphrase => Err(AgeDecryptionError::PassphraseProtected),
        Decryption::NotOpened(why) => Err(AgeDecryptionError::AgeError(why)),
        Decryption::NotRead(cause) => Err(AgeDecryptionError::IOError(cause)),
        Decryption::Done(plaintext) => Ok(plaintext),
    }
}

} // verus!
