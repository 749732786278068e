use dotfiles::dotfile::engine::Action;
use dotfiles::dotfile::{Dotfile, MergeError};
use dotfiles::secret::{decrypted, AgeDecryptionError, Decrpytor, Decryption};
use dotfiles::targets::git::GitAssets;
use dotfiles::targets::personal_nix_cache::{CacheAssets, CacheSettings};
use dotfiles::targets::{aws, git, join_path, personal_nix_cache};
use dotfiles::{
    all_targets, bootstrap, expand_default_targets, parse_region, report, Assets, BootStrapError,
    Config, DecryptError, InitConfigError, Prepared, Region, Target,
};

/// The base64 of `the key file`.
const KEY_BASE64: &str = "dGhlIGtleSBmaWxl";

fn config(region: Region) -> Config {
    Config::new(region, KEY_BASE64.to_string(), Some("/home/me".to_string())).unwrap()
}

fn settings() -> CacheSettings {
    CacheSettings {
        home_substituter: "s3://home".to_string(),
        aws_region: "us-east-2".to_string(),
        aws_substituter: "s3://ohio".to_string(),
        trusted_public_key: "cache:key".to_string(),
    }
}

fn content(dotfile: &Dotfile) -> Vec<u8> {
    dotfile.apply(b"").unwrap().unwrap_or_default()
}

fn paths(entries: &[(String, Dotfile)]) -> Vec<&str> {
    entries.iter().map(|(p, _)| p.as_str()).collect()
}

fn no_cache() -> Region {
    Region::AWS {
        region: "eu-west-1".to_string(),
    }
}

fn assets() -> Assets {
    Assets {
        git: GitAssets {
            git_config: b"[user]".to_vec(),
            private_gpg: b"gpg key, encrypted".to_vec(),
            global_gitignore: b"target/".to_vec(),
        },
        cache: CacheAssets {
            secret_key: b"signing key, encrypted".to_vec(),
        },
        cache_settings: settings(),
    }
}

/// A decryptor that takes `, encrypted` off the end of what it is given.
struct Suffix;

impl Decrpytor for Suffix {
    fn decrypt(&self, bytes: &[u8]) -> Result<Vec<u8>, AgeDecryptionError> {
        match bytes.strip_suffix(b", encrypted") {
            Some(plaintext) => Ok(plaintext.to_vec()),
            None => Err(AgeDecryptionError::AgeError("no age file".to_string())),
        }
    }
}

/// What `target` comes to with the decryptor of these tests.
fn contribution(
    target: Target,
    config: &Config,
    assets: &Assets,
) -> Result<Vec<(String, Dotfile)>, DecryptError> {
    match target.prepare(config, assets) {
        Prepared::Declared(entries) => Ok(entries),
        Prepared::Sealed(secret) => target.bootstrap_dotfiles(config, assets, Suffix.decrypt(&secret)),
    }
}

fn contributions(
    targets: Vec<Target>,
    config: &Config,
    assets: &Assets,
) -> Vec<Result<Vec<(String, Dotfile)>, DecryptError>> {
    targets
        .into_iter()
        .map(|target| contribution(target, config, assets))
        .collect()
}

#[test]
fn targets_in_their_order() {
    assert_eq!(all_targets(), vec![Target::PersonalNixCache, Target::Git]);
    assert_eq!(expand_default_targets(vec![]), all_targets());
    assert_eq!(expand_default_targets(vec![Target::Git]), vec![Target::Git]);
    assert_eq!(
        expand_default_targets(vec![Target::Git, Target::PersonalNixCache]),
        vec![Target::Git, Target::PersonalNixCache]
    );
}

#[test]
fn regions_by_name() {
    assert_eq!(parse_region("home").unwrap(), Region::Home);
    assert_eq!(
        parse_region("aws-us-east-2").unwrap(),
        Region::AWS {
            region: "us-east-2".to_string()
        }
    );
    assert_eq!(
        parse_region("aws-").unwrap(),
        Region::AWS {
            region: "".to_string()
        }
    );
    assert_eq!(parse_region("homes").unwrap_err().0, "homes");
    assert_eq!(parse_region("").unwrap_err().0, "");
    assert_eq!(parse_region("AWS-x").unwrap_err().0, "AWS-x");
}

#[test]
fn paths_below_home() {
    assert_eq!(join_path("/home/me", ".gitconfig"), "/home/me/.gitconfig");
    assert_eq!(join_path("/home/me/", ".aws/config"), "/home/me/.aws/config");
    assert_eq!(join_path("/", ".bashrc"), "/.bashrc");
    assert_eq!(join_path("", ".bashrc"), ".bashrc");
}

#[test]
fn config_needs_a_home_directory() {
    assert!(matches!(
        Config::new(Region::Home, KEY_BASE64.to_string(), None),
        Err(InitConfigError::NoHomeDir)
    ));
    assert!(matches!(
        Config::new(Region::Home, "not base64!".to_string(), None),
        Err(InitConfigError::NoHomeDir)
    ));
}

#[test]
fn config_needs_base64() {
    assert!(matches!(
        Config::new(
            Region::Home,
            "not base64!".to_string(),
            Some("/home/me".to_string())
        ),
        Err(InitConfigError::Base64DecodeError(_))
    ));
}

#[test]
fn config_holds_what_the_base64_stands_for() {
    let config = config(Region::AWS {
        region: "eu".to_string(),
    });
    assert_eq!(config.home_dir(), "/home/me");
    assert_eq!(
        config.region(),
        &Region::AWS {
            region: "eu".to_string()
        }
    );
    assert_eq!(config.ssh_private_key(), &b"the key file".to_vec());
    // what is base64 is taken, whether or not it is a key
    let config = Config::new(Region::Home, "aGVsbG8=".to_string(), Some("/".to_string())).unwrap();
    assert_eq!(config.ssh_private_key(), &b"hello".to_vec());
    let config = Config::new(Region::Home, String::new(), Some("/".to_string())).unwrap();
    assert!(config.ssh_private_key().is_empty());
}

#[test]
fn outcome_of_decrypting_step_by_step() {
    assert!(matches!(
        decrypted(Decryption::NoAgeFile("no age file".to_string())),
        Err(AgeDecryptionError::AgeError(ref why)) if why == "no age file"
    ));
    assert!(matches!(
        decrypted(Decryption::ForPassphrase),
        Err(AgeDecryptionError::PassphraseProtected)
    ));
    assert!(matches!(
        decrypted(Decryption::NotOpened("wrong key".to_string())),
        Err(AgeDecryptionError::AgeError(ref why)) if why == "wrong key"
    ));
    assert!(matches!(
        decrypted(Decryption::NotRead(std::io::Error::new(
            std::io::ErrorKind::UnexpectedEof,
            "cut"
        ))),
        Err(AgeDecryptionError::IOError(ref e)) if e.kind() == std::io::ErrorKind::UnexpectedEof
    ));
    assert_eq!(decrypted(Decryption::Done(vec![1, 2])).unwrap(), vec![1, 2]);
}

#[test]
fn git_declares_three_files_below_home() {
    let assets = assets().git;
    assert_eq!(git::secret(&assets), &b"gpg key, encrypted".to_vec());
    let entries = git::dotfiles(&config(Region::Home), &assets, Ok(b"gpg key".to_vec())).unwrap();
    assert_eq!(
        paths(&entries),
        vec![
            "/home/me/.gitconfig",
            "/home/me/.gpg/private.gpg",
            "/home/me/.gitignore"
        ]
    );
    assert_eq!(content(&entries[0].1), b"[user]".to_vec());
    assert_eq!(content(&entries[1].1), b"gpg key".to_vec());
    assert_eq!(content(&entries[2].1), b"target/".to_vec());
    assert!(entries.iter().all(|(_, d)| d.file_permission() == 0o644));
}

#[test]
fn git_passes_on_why_its_secret_was_not_decrypted() {
    let failed = Err(AgeDecryptionError::AgeError("wrong key".to_string()));
    let error = git::dotfiles(&config(Region::Home), &assets().git, failed).unwrap_err();
    assert_eq!(error.path, "config/private.gpg.rage");
    assert!(matches!(error.error, AgeDecryptionError::AgeError(ref why) if why == "wrong key"));
    let failed = Err(AgeDecryptionError::PassphraseProtected);
    let error = git::dotfiles(&config(Region::Home), &assets().git, failed).unwrap_err();
    assert_eq!(error.path, "config/private.gpg.rage");
    assert!(matches!(error.error, AgeDecryptionError::PassphraseProtected));
}

#[test]
fn aws_declares_two_files_below_home() {
    let assets = aws::AwsAssets {
        config: b"[default]".to_vec(),
        credentials: b"sealed".to_vec(),
    };
    assert_eq!(aws::secret(&assets), &b"sealed".to_vec());
    let entries =
        aws::dotfiles(&config(Region::Home), &assets, Ok(b"credentials".to_vec())).unwrap();
    assert_eq!(
        paths(&entries),
        vec!["/home/me/.aws/config", "/home/me/.aws/credentials"]
    );
    assert_eq!(content(&entries[0].1), b"[default]".to_vec());
    assert_eq!(content(&entries[1].1), b"credentials".to_vec());
    let cut = std::io::Error::new(std::io::ErrorKind::UnexpectedEof, "cut");
    let error = aws::dotfiles(
        &config(Region::Home),
        &assets,
        Err(AgeDecryptionError::IOError(cut)),
    )
    .unwrap_err();
    assert_eq!(error.path, "config/aws/credentials.rage");
    assert!(matches!(
        error.error,
        AgeDecryptionError::IOError(ref e) if e.kind() == std::io::ErrorKind::UnexpectedEof
    ));
}

#[test]
fn cache_of_each_region() {
    let settings = settings();
    assert_eq!(
        personal_nix_cache::substituter_for(&Region::Home, &settings),
        Some("s3://home".to_string())
    );
    assert_eq!(
        personal_nix_cache::substituter_for(
            &Region::AWS {
                region: "us-east-2".to_string()
            },
            &settings
        ),
        Some("s3://ohio".to_string())
    );
    assert_eq!(
        personal_nix_cache::substituter_for(
            &Region::AWS {
                region: "eu-west-1".to_string()
            },
            &settings
        ),
        None
    );
}

const HOOK: &str = "#!/usr/bin/env bash\nset -eu\nset -f # disable globbing\nexport IFS=' '\n\necho \"Signing paths\" $OUT_PATHS\nnix store sign --recursive --key-file /etc/nix/secret-key $OUT_PATHS\necho \"Uploading paths\" $OUT_PATHS\nexec nix copy --to 's3://home' $OUT_PATHS\n";

#[test]
fn hook_copies_to_the_cache() {
    assert_eq!(personal_nix_cache::post_build_hook("s3://home"), HOOK);
}

#[test]
fn cache_target_declares_conf_hook_and_key() {
    let entries = personal_nix_cache::dotfiles(
        &config(Region::Home),
        &settings(),
        Ok(b"signing key".to_vec()),
    )
    .unwrap();
    assert_eq!(
        paths(&entries),
        vec![
            "/etc/nix/nix.conf",
            "/etc/nix/post-build-hook",
            "/etc/nix/secret-key"
        ]
    );
    assert_eq!(
        String::from_utf8(content(&entries[0].1)).unwrap(),
        "substituters = s3://home\ntrusted-public-keys = cache:key\npost-build-hook = /etc/nix/post-build-hook\nsecret-key-files = /etc/nix/secret-key"
    );
    assert_eq!(String::from_utf8(content(&entries[1].1)).unwrap(), HOOK);
    assert_eq!(content(&entries[2].1), b"signing key".to_vec());
    let modes: Vec<u32> = entries.iter().map(|(_, d)| d.file_permission()).collect();
    assert_eq!(modes, vec![0o644, 0o777, 0o600]);
}

#[test]
fn cache_target_passes_on_why_its_secret_was_not_decrypted() {
    let ohio = Region::AWS {
        region: "us-east-2".to_string(),
    };
    for region in [Region::Home, ohio] {
        let failed = Err(AgeDecryptionError::AgeError("no age file".to_string()));
        let error = personal_nix_cache::dotfiles(&config(region), &settings(), failed).unwrap_err();
        assert_eq!(error.path, "config/nix-secret-key.rage");
        assert!(
            matches!(error.error, AgeDecryptionError::AgeError(ref why) if why == "no age file")
        );
    }
}

#[test]
fn cache_target_declares_nothing_without_a_cache() {
    let assets = assets().cache;
    assert_eq!(
        personal_nix_cache::secret(&config(no_cache()), &settings(), &assets),
        None
    );
    assert_eq!(
        personal_nix_cache::secret(&config(Region::Home), &settings(), &assets),
        Some(&b"signing key, encrypted".to_vec())
    );
    // the secret is not looked at
    let opened = Ok(b"signing key".to_vec());
    assert!(
        personal_nix_cache::dotfiles(&config(no_cache()), &settings(), opened)
            .unwrap()
            .is_empty()
    );
    let failed = Err(AgeDecryptionError::PassphraseProtected);
    assert!(
        personal_nix_cache::dotfiles(&config(no_cache()), &settings(), failed)
            .unwrap()
            .is_empty()
    );
}

#[test]
fn targets_say_which_secret_they_need() {
    let assets = assets();
    assert!(matches!(
        Target::Git.prepare(&config(Region::Home), &assets),
        Prepared::Sealed(ref secret) if secret == b"gpg key, encrypted"
    ));
    assert!(matches!(
        Target::Git.prepare(&config(no_cache()), &assets),
        Prepared::Sealed(ref secret) if secret == b"gpg key, encrypted"
    ));
    assert!(matches!(
        Target::PersonalNixCache.prepare(&config(Region::Home), &assets),
        Prepared::Sealed(ref secret) if secret == b"signing key, encrypted"
    ));
    assert!(matches!(
        Target::PersonalNixCache.prepare(&config(no_cache()), &assets),
        Prepared::Declared(ref entries) if entries.is_empty()
    ));
}

#[test]
fn targets_declare_what_their_modules_declare() {
    let assets = assets();
    let config = config(Region::Home);
    let entries = Target::Git
        .bootstrap_dotfiles(&config, &assets, Ok(b"gpg key".to_vec()))
        .unwrap();
    assert_eq!(paths(&entries)[1], "/home/me/.gpg/private.gpg");
    assert_eq!(content(&entries[1].1), b"gpg key".to_vec());
    let entries = Target::PersonalNixCache
        .bootstrap_dotfiles(&config, &assets, Ok(b"signing key".to_vec()))
        .unwrap();
    assert_eq!(paths(&entries)[2], "/etc/nix/secret-key");
    assert_eq!(content(&entries[2].1), b"signing key".to_vec());
    let error = Target::PersonalNixCache
        .bootstrap_dotfiles(&config, &assets, Err(AgeDecryptionError::PassphraseProtected))
        .unwrap_err();
    assert_eq!(error.path, "config/nix-secret-key.rage");
}

#[test]
fn bootstrap_starts_with_the_first_path() {
    let config = config(Region::Home);
    let assets = assets();
    let (_, action) = bootstrap(contributions(all_targets(), &config, &assets)).unwrap();
    assert!(matches!(action, Action::Read { ref path } if path == "/etc/nix/nix.conf"));
    let (_, action) = bootstrap(contributions(vec![Target::Git], &config, &assets)).unwrap();
    assert!(matches!(action, Action::Read { ref path } if path == "/home/me/.gitconfig"));
    let (_, action) = bootstrap(vec![]).unwrap();
    assert!(matches!(action, Action::Finished { ref changed } if changed.is_empty()));
    // a target that is asked twice declares the same twice, which merges
    let twice = contributions(vec![Target::Git, Target::Git], &config, &assets);
    let (_, action) = bootstrap(twice).unwrap();
    assert!(matches!(action, Action::Read { ref path } if path == "/home/me/.gitconfig"));
}

#[test]
fn bootstrap_without_a_declaration_is_finished_at_its_start() {
    let config = config(no_cache());
    let targets = vec![Target::PersonalNixCache, Target::PersonalNixCache];
    let (_, action) = bootstrap(contributions(targets, &config, &assets())).unwrap();
    assert!(matches!(action, Action::Finished { ref changed } if changed.is_empty()));
    let (_, action) = bootstrap(vec![Ok(vec![]), Ok(vec![])]).unwrap();
    assert!(matches!(action, Action::Finished { ref changed } if changed.is_empty()));
}

#[test]
fn bootstrap_ends_with_the_first_secret_that_was_not_decrypted() {
    let mut broken = assets();
    broken.git.private_gpg = b"garbage".to_vec();
    let config = config(Region::Home);
    match bootstrap(contributions(all_targets(), &config, &broken)) {
        Err(BootStrapError::DecryptError(e)) => {
            assert_eq!(e.path, "config/private.gpg.rage");
            assert!(matches!(e.error, AgeDecryptionError::AgeError(ref why) if why == "no age file"));
        }
        other => panic!("unexpected: {:?}", other.map(|_| ())),
    }
    // the first failure is the one that is reported, whatever comes behind it
    let first = DecryptError {
        path: "first".to_string(),
        error: AgeDecryptionError::PassphraseProtected,
    };
    let second = DecryptError {
        path: "second".to_string(),
        error: AgeDecryptionError::AgeError("wrong key".to_string()),
    };
    let opaque = Dotfile::Unstructured(dotfiles::dotfile::unstructured::Unstructured::new(vec![1]));
    let given = vec![
        Ok(vec![("/etc/x".to_string(), opaque)]),
        Err(first),
        Ok(vec![]),
        Err(second),
    ];
    match bootstrap(given) {
        Err(BootStrapError::DecryptError(e)) => {
            assert_eq!(e.path, "first");
            assert!(matches!(e.error, AgeDecryptionError::PassphraseProtected));
        }
        other => panic!("unexpected: {:?}", other.map(|_| ())),
    }
}

#[test]
fn bootstrap_ends_with_the_declarations_that_do_not_merge() {
    let opaque = Dotfile::Unstructured(dotfiles::dotfile::unstructured::Unstructured::new(vec![1]));
    let structured = Dotfile::NixConf(dotfiles::dotfile::nix_conf::NixConf::new());
    let given = vec![
        Ok(vec![("/etc/x".to_string(), opaque)]),
        Ok(vec![("/etc/x".to_string(), structured)]),
    ];
    match bootstrap(given) {
        Err(BootStrapError::MergeError(MergeError::MergeConflict { reason })) => {
            assert_eq!(reason, "/etc/x: can't merge dotfiles with different types");
        }
        other => panic!("unexpected: {:?}", other.map(|_| ())),
    }
}

#[test]
fn report_of_a_run() {
    assert_eq!(report(&vec![]), vec!["no files changed".to_string()]);
    assert_eq!(
        report(&vec!["/a".to_string(), "/b c".to_string()]),
        vec![
            "changed files: ".to_string(),
            "- /a".to_string(),
            "- /b c".to_string()
        ]
    );
}
