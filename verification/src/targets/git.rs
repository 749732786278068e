//! Git: the configuration of git, the GPG key that signs commits, and the
//! global ignore file.

use super::{join_path, path_below};
use crate::dotfile::unstructured::{Unstructured, UnstructuredView, DEFAULT_MODE};
use crate::dotfile::{entry_views, Dotfile, DotfileView, Entry};
use crate::secret::AgeDecryptionError;
use crate::{Config, DecryptError};
use vstd::prelude::*;
use vstd::string::*;

verus! {

/// The files that the target is made from.
pub struct GitAssets {
    /// The content of `.gitconfig`.
    pub git_config: Vec<u8>,
    /// The GPG key, encrypted.
    pub private_gpg: Vec<u8>,
    /// The content of `.gitignore`.
    pub global_gitignore: Vec<u8>,
}

/// The declaration of a file with the given bytes and the default mode.
pub open spec fn plain_file(content: Seq<u8>) -> DotfileView {
    DotfileView::Unstructured(UnstructuredView { content, permissions: DEFAULT_MODE })
}

/// What the target declares below `home`, given the GPG key in the clear.
pub open spec fn declared(
    home: Seq<char>,
    git_config: Seq<u8>,
    gpg_key: Seq<u8>,
    global_gitignore: Seq<u8>,
) -> Seq<Entry> {
    seq![
        (path_below(home, ".gitconfig"@), plain_file(git_config)),
        (path_below(home, ".gpg/private.gpg"@), plain_file(gpg_key)),
        (path_below(home, ".gitignore"@), plain_file(global_gitignore)),
    ]
}

/// The declarations of the target below `home_dir`, given the GPG key in
/// the clear.
pub fn declarations(
    home_dir: &str,
    git_config: Vec<u8>,
    gpg_key: Vec<u8>,
    global_gitignore: Vec<u8>,
) -> (r: Vec<(String, Dotfile)>)
    ensures
        entry_views(r@) == declared(home_dir@, git_config@, gpg_key@, global_gitignore@),
{
    let mut r: Vec<(String, Dotfile)> = Vec::new();
    r.push((join_path(home_dir, ".gitconfig"), Dotfile::Unstructured(Unstructured::new(git_config))));
    r.push(
        (join_path(home_dir, ".gpg/private.gpg"), Dotfile::Unstructured(Unstructured::new(gpg_key))),
    );
    r.push(
        (
            join_path(home_dir, ".gitignore"),
            Dotfile::Unstructured(Unstructured::new(global_gitignore)),
        ),
    );
    assert(entry_views(r@) =~= declared(home_dir@, git_config@, gpg_key@, global_gitignore@));
    r
}

/// What the target comes to, given what came of decrypting its secret:
/// the three files declared below the home directory, with the GPG key as
/// it was decrypted; or the error that names the key and says why it was
/// not decrypted.
pub open spec fn declares(
    config: &Config,
    assets: &GitAssets,
    decrypted: Result<Vec<u8>, AgeDecryptionError>,
    r: Result<Vec<(String, Dotfile)>, DecryptError>,
) -> bool {
    match decrypted {
        Ok(gpg_key) => r matches Ok(entries) && entry_views(entries@) == declared(
            config.home_view(),
            assets.git_config@,
            gpg_key@,
            assets.global_gitignore@,
        ),
        Err(error) => r matches Err(e) && e.path@ == "config/private.gpg.rage"@ && e.error
            == error,
    }
}

/// The secret of the target, to be decrypted: the GPG key.
pub fn secret(assets: &GitAssets) -> (r: &Vec<u8>)
    ensures
        r@ == assets.private_gpg@,
{
    &assets.private_gpg
}

/// The declarations of the target, given what came of decrypting its
/// secret: the three files are declared below the home directory. Where the
/// key was not decrypted, the error names it and says why.
pub fn dotfiles(
    config: &Config,
    assets: &GitAssets,
    decrypted: Result<Vec<u8>, AgeDecryptionError>,
) -> (r: Result<Vec<(String, Dotfile)>, DecryptError>)
    ensures
        declares(config, assets, decrypted, r),
{
    match decrypted {
        Ok(gpg_key) => Ok(
            declarations(
                config.home_dir().as_str(),
                assets.git_config.clone(),
                gpg_key,
                assets.global_gitignore.clone(),
            ),
        ),
        Err(error) => Err(DecryptError { path: String::from_str("config/private.gpg.rage"), error }),
    }
}

} // verus!
