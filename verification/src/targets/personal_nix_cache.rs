//! The personal Nix cache: `nix.conf` is told of the cache, and a hook signs
//! and uploads what was built.

use crate::dotfile::nix_conf::{NixConf, NixConfView};
use crate::dotfile::unstructured::{Unstructured, UnstructuredView};
use crate::dotfile::{entry_views, Dotfile, DotfileView, Entry};
use crate::secret::AgeDecryptionError;
use crate::{Config, DecryptError, Region, RegionView};
use vstd::prelude::*;
use vstd::string::*;
use vstd::utf8::*;

verus! {

/// The mode of the hook: anyone may run it.
pub const HOOK_MODE: u32 = 0o777;

/// The mode of the signing key: only its owner may read it.
pub const SECRET_KEY_MODE: u32 = 0o600;

/// The caches that there are, and the key that their content is signed with.
pub struct CacheSettings {
    /// The cache to use at home.
    pub home_substituter: String,
    /// The AWS region that has a cache.
    pub aws_region: String,
    /// The cache to use in that region.
    pub aws_substituter: String,
    /// The public key of the caches.
    pub trusted_public_key: String,
}

/// The files that the target is made from.
pub struct CacheAssets {
    /// The key that signs what is uploaded, encrypted.
    pub secret_key: Vec<u8>,
}

/// The cache to use in `region`, if there is one.
pub open spec fn substituter_in(
    region: RegionView,
    home_substituter: Seq<char>,
    aws_region: Seq<char>,
    aws_substituter: Seq<char>,
) -> Option<Seq<char>> {
    match region {
        RegionView::Home => Some(home_substituter),
        RegionView::AWS { region } => if region == aws_region {
            Some(aws_substituter)
        } else {
            None
        },
    }
}

/// The cache to use in `region`, if there is one.
pub fn substituter_for(region: &Region, settings: &CacheSettings) -> (r: Option<String>)
    ensures
        match r {
            Some(s) => Some(s@),
            None => None,
        } == substituter_in(
            region@,
            settings.home_substituter@,
            settings.aws_region@,
            settings.aws_substituter@,
        ),
{
    match region {
        Region::Home => Some(settings.home_substituter.clone()),
        Region::AWS { region } => {
            if *region == settings.aws_region {
                Some(settings.aws_substituter.clone())
            } else {
                None
            }
        },
    }
}

/// The hook that signs what was built and copies it to `substituter`.
pub open spec fn hook_script(substituter: Seq<char>) -> Seq<char> {
    "#!/usr/bin/env bash\nset -eu\nset -f # disable globbing\nexport IFS=' '\n\necho \"Signing paths\" $OUT_PATHS\nnix store sign --recursive --key-file /etc/nix/secret-key $OUT_PATHS\necho \"Uploading paths\" $OUT_PATHS\nexec nix copy --to '"@
        + substituter + "' $OUT_PATHS\n"@
}

/// The hook that signs what was built and copies it to `substituter`.
pub fn post_build_hook(substituter: &str) -> (script: String)
    ensures
        script@ == hook_script(substituter@),
{
    String::from_str(
        "#!/usr/bin/env bash\nset -eu\nset -f # disable globbing\nexport IFS=' '\n\necho \"Signing paths\" $OUT_PATHS\nnix store sign --recursive --key-file /etc/nix/secret-key $OUT_PATHS\necho \"Uploading paths\" $OUT_PATHS\nexec nix copy --to '",
    ).concat(substituter).concat("' $OUT_PATHS\n")
}

/// What `nix.conf` is to hold for the cache `substituter`.
pub open spec fn cache_conf(substituter: Seq<char>, trusted_public_key: Seq<char>) -> NixConfView {
    NixConfView {
        substituters: seq![substituter],
        trusted_public_keys: seq![trusted_public_key],
        post_build_hook: Some("/etc/nix/post-build-hook"@),
        secret_key_files: seq!["/etc/nix/secret-key"@],
    }
}

/// What the target declares for the cache `substituter`, given the signing
/// key in the clear.
pub open spec fn declared(
    substituter: Seq<char>,
    trusted_public_key: Seq<char>,
    secret_key: Seq<u8>,
) -> Seq<Entry> {
    seq![
        ("/etc/nix/nix.conf"@, DotfileView::NixConf(cache_conf(substituter, trusted_public_key))),
        (
            "/etc/nix/post-build-hook"@,
            DotfileView::Unstructured(
                UnstructuredView {
                    content: encode_utf8(hook_script(substituter)),
                    permissions: HOOK_MODE,
                },
            ),
        ),
        (
            "/etc/nix/secret-key"@,
            DotfileView::Unstructured(
                UnstructuredView { content: secret_key, permissions: SECRET_KEY_MODE },
            ),
        ),
    ]
}

/// A list that holds one string.
fn one(s: String) -> (list: Vec<String>)
    ensures
        list@ == seq![s],
{
    let mut list: Vec<String> = Vec::new();
    list.push(s);
    list
}

/// The declarations of the target for the cache `substituter`, given the
/// signing key in the clear.
pub fn declarations(substituter: String, trusted_public_key: String, secret_key: Vec<u8>) -> (r:
    Vec<(String, Dotfile)>)
    ensures
        entry_views(r@) == declared(substituter@, trusted_public_key@, secret_key@),
{
    let hook = post_build_hook(substituter.as_str());
    let nix_conf = NixConf::new().with_secret_key_files(
        one(String::from_str("/etc/nix/secret-key")),
    ).with_post_build_hook(String::from_str("/etc/nix/post-build-hook")).with_substituters(
        one(substituter),
    ).with_trusted_public_keys(one(trusted_public_key));
    proof {
        let conf = cache_conf(substituter@, trusted_public_key@);
        assert(nix_conf@.substituters =~= conf.substituters);
        assert(nix_conf@.trusted_public_keys =~= conf.trusted_public_keys);
        assert(nix_conf@.secret_key_files =~= conf.secret_key_files);
    }
    let mut r: Vec<(String, Dotfile)> = Vec::new();
    r.push((String::from_str("/etc/nix/nix.conf"), Dotfile::NixConf(nix_conf)));
    r.push(
        (
            String::from_str("/etc/nix/post-build-hook"),
            Dotfile::Unstructured(Unstructured::new_utf8(hook).with_permissions(HOOK_MODE)),
        ),
    );
    r.push(
        (
            String::from_str("/etc/nix/secret-key"),
            Dotfile::Unstructured(Unstructured::new(secret_key).with_permissions(SECRET_KEY_MODE)),
        ),
    );
    assert(entry_views(r@) =~= declared(substituter@, trusted_public_key@, secret_key@));
    r
}

/// The cache that the settings give the region of `config`.
pub open spec fn cache_of(config: &Config, settings: &CacheSettings) -> Option<Seq<char>> {
    substituter_in(
        config.region_view(),
        settings.home_substituter@,
        settings.aws_region@,
        settings.aws_substituter@,
    )
}

/// What the target comes to, given what came of decrypting its secret.
/// Where the region has no cache it is nothing, whatever came of the
/// secret. Else it is `nix.conf`, the hook and the signing key as it was
/// decrypted; or the error that names the key and says why it was not
/// decrypted.
pub open spec fn declares(
    config: &Config,
    settings: &CacheSettings,
    decrypted: Result<Vec<u8>, AgeDecryptionError>,
    r: Result<Vec<(String, Dotfile)>, DecryptError>,
) -> bool {
    match cache_of(config, settings) {
        None => r matches Ok(entries) && entries@.len() == 0,
        Some(substituter) => match decrypted {
            Ok(secret_key) => r matches Ok(entries) && entry_views(entries@) == declared(
                substituter,
                settings.trusted_public_key@,
                secret_key@,
            ),
            Err(error) => r matches Err(e) && e.path@ == "config/nix-secret-key.rage"@ && e.error
                == error,
        },
    }
}

/// The secret of the target, to be decrypted: the signing key, where the
/// region has a cache; none where it has not.
pub fn secret<'a>(config: &Config, settings: &CacheSettings, assets: &'a CacheAssets) -> (r:
    Option<&'a Vec<u8>>)
    ensures
        match cache_of(config, settings) {
            Some(_) => r matches Some(ciphertext) && ciphertext@ == assets.secret_key@,
            None => r is None,
        },
{
    match substituter_for(config.region(), settings) {
        Some(_) => Some(&assets.secret_key),
        None => None,
    }
}

/// The declarations of the target, given what came of decrypting its
/// secret: nothing where the region has no cache, and the secret is not
/// looked at then; else `nix.conf`, the hook and the signing key. Where the
/// key was not decrypted, the error names it and says why.
pub fn dotfiles(
    config: &Config,
    settings: &CacheSettings,
    decrypted: Result<Vec<u8>, AgeDecryptionError>,
) -> (r: Result<Vec<(String, Dotfile)>, DecryptError>)
    ensures
        declares(config, settings, decrypted, r),
{
    match substituter_for(config.region(), settings) {
        None => Ok(Vec::new()),
        Some(substituter) => match decrypted {
            Ok(secret_key) => Ok(
                declarations(substituter, settings.trusted_public_key.clone(), secret_key),
            ),
            Err(error) => Err(
                DecryptError { path: String::from_str("config/nix-secret-key.rage"), error },
            ),
        },
    }
}

} // verus!
