//! AWS: the configuration of the command line tools and their credentials.

use super::git::plain_file;
use super::{join_path, path_below};
use crate::dotfile::unstructured::Unstructured;
use crate::dotfile::{entry_views, Dotfile, Entry};
use crate::secret::AgeDecryptionError;
use crate::{Config, DecryptError};
use vstd::prelude::*;
use vstd::string::*;

verus! {

/// The files that the target is made from.
pub struct AwsAssets {
    /// The content of `.aws/config`.
    pub config: Vec<u8>,
    /// The content of `.aws/credentials`, encrypted.
    pub credentials: Vec<u8>,
}

/// What the target declares below `home`, given the credentials in the
/// clear.
pub open spec fn declared(home: Seq<char>, config: Seq<u8>, credentials: Seq<u8>) -> Seq<Entry> {
    seq![
        (path_below(home, ".aws/config"@), plain_file(config)),
        (path_below(home, ".aws/credentials"@), plain_file(credentials)),
    ]
}

/// The declarations of the target below `home_dir`, given the credentials in
/// the clear.
pub fn declarations(home_dir: &str, config: Vec<u8>, credentials: Vec<u8>) -> (r: Vec<
    (String, Dotfile),
>)
    ensures
        entry_views(r@) == declared(home_dir@, config@, credentials@),
{
    let mut r: Vec<(String, Dotfile)> = Vec::new();
    r.push((join_path(home_dir, ".aws/config"), Dotfile::Unstructured(Unstructured::new(config))));
    r.push(
        (
            join_path(home_dir, ".aws/credentials"),
            Dotfile::Unstructured(Unstructured::new(credentials)),
        ),
    );
    assert(entry_views(r@) =~= declared(home_dir@, config@, credentials@));
    r
}

/// What the target comes to, given what came of decrypting its secret:
/// the two files declared below the home directory, with the credentials as
/// they were decrypted; or the error that names the credentials and says why
/// they were not decrypted.
pub open spec fn declares(
    config: &Config,
    assets: &AwsAssets,
    decrypted: Result<Vec<u8>, AgeDecryptionError>,
    r: Result<Vec<(String, Dotfile)>, DecryptError>,
) -> bool {
    match decrypted {
        Ok(credentials) => r matches Ok(entries) && entry_views(entries@) == declared(
            config.home_view(),
            assets.config@,
            credentials@,
        ),
        Err(error) => r matches Err(e) && e.path@ == "config/aws/credentials.rage"@ && e.error
            == error,
    }
}

/// The secret of the target, to be decrypted: the credentials.
pub fn secret(assets: &AwsAssets) -> (r: &Vec<u8>)
    ensures
        r@ == assets.credentials@,
{
    &assets.credentials
}

/// The declarations of the target, given what came of decrypting its
/// secret: the two files are declared below the home directory. Where the
/// credentials were not decrypted, the error names them and says why.
pub fn dotfiles(
    config: &Config,
    assets: &AwsAssets,
    decrypted: Result<Vec<u8>, AgeDecryptionError>,
) -> (r: Result<Vec<(String, Dotfile)>, DecryptError>)
    ensures
        declares(config, assets, decrypted, r),
{
    match decrypted {
        Ok(credentials) => Ok(
            declarations(config.home_dir().as_str(), assets.config.clone(), credentials),
        ),
        Err(error) => Err(
            DecryptError { path: String::from_str("config/aws/credentials.rage"), error },
        ),
    }
}

} // verus!
