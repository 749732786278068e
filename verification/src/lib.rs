//! Dotfiles, declared by targets, merged into one declaration for each path
//! and applied to the files that are there.

use vstd::prelude::*;
use vstd::string::*;

pub mod dotfile;
pub mod nix;
pub mod secret;
pub mod targets;
pub mod text;
pub mod vars;

use dotfile::engine::{apply_dotfiles, Action, Applier};
use dotfile::{merge_dotfiles, Dotfile, MergeError};
use secret::AgeDecryptionError;
use targets::git::GitAssets;
use targets::personal_nix_cache::{CacheAssets, CacheSettings};
use text::{from_chars, remove_prefix, same_text, to_chars};

verus! {

/// A group of dotfiles that can be set up independently of the others.
#[derive(Debug, Copy, Clone, PartialEq, Eq, PartialOrd, Ord)]
pub enum Target {
    PersonalNixCache,
    Git,
}

/// Every target, in the order in which a full run sets them up.
pub fn all_targets() -> (targets: Vec<Target>)
    ensures
        targets@ == seq![Target::PersonalNixCache, Target::Git],
{
    let mut targets: Vec<Target> = Vec::new();
    targets.push(Target::PersonalNixCache);
    targets.push(Target::Git);
    targets
}

/// The targets to set up: those that were asked for, or all of them where
/// none was.
pub fn expand_default_targets(targets: Vec<Target>) -> (r: Vec<Target>)
    ensures
        r@ == if targets.len() == 0 {
            seq![Target::PersonalNixCache, Target::Git]
        } else {
            targets@
        },
{
    if targets.len() == 0 {
        all_targets()
    } else {
        targets
    }
}

/// Where the machine stands.
#[derive(Debug, Clone, PartialEq, Eq, PartialOrd, Ord)]
pub enum Region {
    Home,
    AWS { region: String },
}

/// What a [`Region`] says.
pub enum RegionView {
    Home,
    AWS { region: Seq<char> },
}

impl View for Region {
    type V = RegionView;

    open spec fn view(&self) -> RegionView {
        match self {
            Region::Home => RegionView::Home,
            Region::AWS { region } => RegionView::AWS { region: region@ },
        }
    }
}

/// A text that names no region.
#[derive(Debug)]
pub struct RegionParserError(pub String);

/// The region that `input` names: `home`, or `aws-` and the name of an AWS
/// region behind it.
pub open spec fn region_named(input: Seq<char>) -> Option<RegionView> {
    if input == "home"@ {
        Some(RegionView::Home)
    } else if "aws-"@.is_prefix_of(input) {
        Some(RegionView::AWS { region: input.skip("aws-"@.len() as int) })
    } else {
        None
    }
}

/// Reads a region from its name. A text that names none comes back in the
/// error.
pub fn parse_region(input: &str) -> (r: Result<Region, RegionParserError>)
    ensures
        match region_named(input@) {
            Some(region) => r matches Ok(parsed) && parsed@ == region,
            None => r matches Err(e) && e.0@ == input@,
        },
{
    let text = to_chars(input);
    if same_text(&text, &to_chars("home")) {
        Ok(Region::Home)
    } else {
        match remove_prefix(&text, &to_chars("aws-")) {
            Some(aws_region) => Ok(Region::AWS { region: from_chars(&aws_region) }),
            None => Err(RegionParserError(String::from_str(input))),
        }
    }
}

/// What the targets need to know of the machine.
pub struct Config {
    region: Region,
    ssh_private_key: Vec<u8>,
    home_dir: String,
}

/// `base64::DecodeError`: why a text is no base64.
#[verifier::external_type_specification]
#[verifier::external_body]
pub struct ExBase64DecodeError(base64::DecodeError);

/// Why a [`Config`] could not be made.
#[derive(Debug)]
pub enum InitConfigError {
    /// The home directory is not known.
    NoHomeDir,
    /// The SSH key is not given in base64.
    Base64DecodeError(base64::DecodeError),
}

/// What the standard base64 alphabet, with padding, decodes `input` to, if
/// it is base64.
pub uninterp spec fn base64_decoded(input: Seq<u8>) -> Option<Seq<u8>>;

/// `Engine::decode` of `base64::engine::general_purpose::STANDARD`: the
/// bytes that the input decodes to, or the error for an input that is no
/// base64. What it returns depends on the input alone.
#[verifier::external_body]
fn decode_base64(input: &[u8]) -> (r: Result<Vec<u8>, base64::DecodeError>)
    ensures
        match r {
            Ok(bytes) => base64_decoded(input@) == Some(bytes@),
            Err(_) => base64_decoded(input@) is None,
        },
{
    base64::Engine::decode(&base64::engine::general_purpose::STANDARD, input)
}

impl Config {
    /// The region of the machine.
    pub closed spec fn region_view(&self) -> RegionView {
        self.region@
    }

    /// The home directory of the user.
    pub closed spec fn home_view(&self) -> Seq<char> {
        self.home_dir@
    }

    /// The bytes of the file that holds the SSH key.
    pub closed spec fn key_view(&self) -> Seq<u8> {
        self.ssh_private_key@
    }

    /// The region of the machine.
    pub fn region(&self) -> (r: &Region)
        ensures
            r@ == self.region_view(),
    {
        &self.region
    }

    /// The home directory of the user.
    pub fn home_dir(&self) -> (r: &String)
        ensures
            r@ == self.home_view(),
    {
        &self.home_dir
    }

    /// The bytes of the file that holds the SSH key. Whoever opens the
    /// secrets reads the key from them.
    pub fn ssh_private_key(&self) -> (r: &Vec<u8>)
        ensures
            r@ == self.key_view(),
    {
        &self.ssh_private_key
    }

    /// Puts together what the targets need: the region, the home directory
    /// and the file of the SSH key that opens the secrets, given in base64.
    /// The home directory is looked at first, then the base64. The key is
    /// held as the bytes that the base64 stands for.
    pub fn new(region: Region, ssh_private_key_base64: String, home_dir: Option<String>) -> (r:
        Result<Self, InitConfigError>)
        ensures
            match (home_dir, base64_decoded(encode(ssh_private_key_base64@))) {
                (None, _) => r matches Err(InitConfigError::NoHomeDir),
                (Some(_), None) => r matches Err(InitConfigError::Base64DecodeError(_)),
                (Some(home), Some(key)) => {
                    &&& r matches Ok(config)
                    &&& config.region_view() == region@
                    &&& config.home_view() == home@
                    &&& config.key_view() == key
                },
            },
    {
        let home_dir = match home_dir {
            Some(home_dir) => home_dir,
            None => {
                return Err(InitConfigError::NoHomeDir);
            },
        };
        match decode_base64(ssh_private_key_base64.as_str().as_bytes()) {
            Ok(ssh_private_key) => Ok(Self { region, ssh_private_key, home_dir }),
            Err(e) => Err(InitConfigError::Base64DecodeError(e)),
        }
    }
}

/// The bytes of a text in UTF-8.
pub open spec fn encode(text: Seq<char>) -> Seq<u8> {
    vstd::utf8::encode_utf8(text)
}

/// A secret that could not be decrypted, and why.
#[derive(Debug)]
pub struct DecryptError {
    pub path: String,
    pub error: AgeDecryptionError,
}

/// Why the declarations of a run could not be put together.
#[derive(Debug)]
pub enum BootStrapError {
    /// A target could not decrypt one of its secrets.
    DecryptError(DecryptError),
    /// Two targets declare what does not go together.
    MergeError(MergeError),
}

/// The files and settings that the targets are made from.
pub struct Assets {
    pub git: GitAssets,
    pub cache: CacheAssets,
    pub cache_settings: CacheSettings,
}

/// What a target comes to before any secret is opened.
pub enum Prepared {
    /// The target has no secret to open: what it declares.
    Declared(Vec<(String, Dotfile)>),
    /// The target has a secret to open: its ciphertext.
    Sealed(Vec<u8>),
}

impl Target {
    /// The secret that the target needs decrypted, if it needs one: the GPG
    /// key for git, and the signing key for the cache in a region that has
    /// one.
    pub open spec fn secret_of(self, config: &Config, assets: &Assets) -> Option<Seq<u8>> {
        match self {
            Target::PersonalNixCache => match targets::personal_nix_cache::cache_of(
                config,
                &assets.cache_settings,
            ) {
                Some(_) => Some(assets.cache.secret_key@),
                None => None,
            },
            Target::Git => Some(assets.git.private_gpg@),
        }
    }

    /// Whether `r` is what the target comes to, given what came of
    /// decrypting its secret: what the function of its module declares for
    /// the files and settings that belong to it.
    pub open spec fn declares(
        self,
        config: &Config,
        assets: &Assets,
        decrypted: Result<Vec<u8>, AgeDecryptionError>,
        r: Result<Vec<(String, Dotfile)>, DecryptError>,
    ) -> bool {
        match self {
            Target::PersonalNixCache => targets::personal_nix_cache::declares(
                config,
                &assets.cache_settings,
                decrypted,
                r,
            ),
            Target::Git => targets::git::declares(config, &assets.git, decrypted, r),
        }
    }

    /// What the target comes to before any secret is opened: the secret
    /// that it needs decrypted, or, where it needs none, what it declares.
    pub fn prepare(self, config: &Config, assets: &Assets) -> (r: Prepared)
        ensures
            match self.secret_of(config, assets) {
                Some(ciphertext) => r matches Prepared::Sealed(secret) && secret@ == ciphertext,
                None => r matches Prepared::Declared(entries) && forall|
                    decrypted: Result<Vec<u8>, AgeDecryptionError>,
                |
                    #[trigger] self.declares(
                        config,
                        assets,
                        decrypted,
                        Ok::<Vec<(String, Dotfile)>, DecryptError>(entries),
                    ),
            },
    {
        match self {
            Target::PersonalNixCache => match targets::personal_nix_cache::secret(
                config,
                &assets.cache_settings,
                &assets.cache,
            ) {
                Some(secret) => Prepared::Sealed(secret.clone()),
                None => Prepared::Declared(Vec::new()),
            },
            Target::Git => Prepared::Sealed(targets::git::secret(&assets.git).clone()),
        }
    }

    /// What the target declares, given what came of decrypting its secret:
    /// what the function of its module declares for the files and settings
    /// that belong to it. A target that needs no secret does not look at
    /// `decrypted`.
    pub fn bootstrap_dotfiles(
        self,
        config: &Config,
        assets: &Assets,
        decrypted: Result<Vec<u8>, AgeDecryptionError>,
    ) -> (r: Result<Vec<(String, Dotfile)>, DecryptError>)
        ensures
            self.declares(config, assets, decrypted, r),
    {
        match self {
            Target::PersonalNixCache => targets::personal_nix_cache::dotfiles(
                config,
                &assets.cache_settings,
                decrypted,
            ),
            Target::Git => targets::git::dotfiles(config, &assets.git, decrypted),
        }
    }
}

/// A contribution: what a target declares, or the secret that it could not
/// have decrypted.
pub type Contribution = Result<Vec<(String, Dotfile)>, DecryptError>;

/// The place of the first of `contributions` that failed, if one did.
pub open spec fn first_failure(contributions: Seq<Contribution>) -> Option<int>
    decreases contributions.len(),
{
    if contributions.len() == 0 {
        None
    } else {
        match first_failure(contributions.drop_last()) {
            Some(i) => Some(i),
            None => if contributions.last() is Err {
                Some(contributions.len() - 1)
            } else {
                None
            },
        }
    }
}

/// The first failure stands where a contribution failed and none did
/// before; where there is none, no contribution failed.
pub proof fn lemma_first_failure(contributions: Seq<Contribution>)
    ensures
        match first_failure(contributions) {
            Some(i) => 0 <= i < contributions.len() && contributions[i] is Err && forall|k: int|
                0 <= k < i ==> (#[trigger] contributions[k]) is Ok,
            None => forall|k: int|
                0 <= k < contributions.len() ==> (#[trigger] contributions[k]) is Ok,
        },
    decreases contributions.len(),
{
    if contributions.len() > 0 {
        let init = contributions.drop_last();
        lemma_first_failure(init);
        match first_failure(init) {
            Some(i) => {
                assert forall|k: int| 0 <= k < i implies (#[trigger] contributions[k]) is Ok by {
                    assert(init[k] == contributions[k]);
                }
            },
            None => {
                assert forall|k: int| 0 <= k < init.len() implies (
                    #[trigger] contributions[k]
                ) is Ok by {
                    assert(init[k] == contributions[k]);
                }
            },
        }
    }
}

/// What `contributions` declare, one after the other; one that failed
/// declares nothing.
pub open spec fn declared_by(contributions: Seq<Contribution>) -> Seq<Seq<dotfile::Entry>> {
    Seq::new(
        contributions.len(),
        |i: int|
            match contributions[i] {
                Ok(entries) => dotfile::entry_views(entries@),
                Err(_) => Seq::empty(),
            },
    )
}

/// Whether `run` is the start of applying `entries`: nothing is applied or
/// written yet, and the action is to read the first path, or to finish where
/// there is no declaration.
pub open spec fn starts(run: (Applier, Action), entries: Seq<dotfile::Entry>) -> bool {
    &&& run.0.wf()
    &&& run.0.entries() == entries
    &&& run.0.position() == 0
    &&& run.0.changed() == Seq::<Seq<char>>::empty()
    &&& if entries.len() > 0 {
        run.1 matches Action::Read { path } && path@ == entries[0].0
    } else {
        run.1 matches Action::Finished { changed } && changed@.len() == 0
    }
}

/// Puts together what the targets came to, merges it into one declaration
/// for each path and starts applying it. The contributions are taken in
/// their order. The first that failed ends the run with its error, whatever
/// the others are. Where none failed, a declaration that does not merge
/// ends the run with the reason; else the run starts on the merged
/// declarations.
pub fn bootstrap(contributions: Vec<Contribution>) -> (r: Result<(Applier, Action), BootStrapError>)
    ensures
        match first_failure(contributions@) {
            Some(i) => r matches Err(BootStrapError::DecryptError(e)) && contributions[i] == Err::<
                Vec<(String, Dotfile)>,
                DecryptError,
            >(e),
            None => match dotfile::merged_contributions(declared_by(contributions@)) {
                Ok(all) => r matches Ok(run) && starts(run, all) && dotfile::unique_paths(all),
                Err(why) => r matches Err(
                    BootStrapError::MergeError(MergeError::MergeConflict { reason }),
                ) && reason@ == why,
            },
        },
{
    let mut dotfiles_vec: Vec<Vec<(String, Dotfile)>> = Vec::new();
    for contribution in it: contributions
        invariant
            it.seq() == contributions@,
            dotfiles_vec@.len() == it.index(),
            forall|k: int|
                0 <= k < it.index() ==> contributions@[k] == Ok::<
                    Vec<(String, Dotfile)>,
                    DecryptError,
                >(#[trigger] dotfiles_vec@[k]),
    {
        let ghost n = it.index() as int;
        match contribution {
            Ok(dotfiles) => {
                dotfiles_vec.push(dotfiles);
            },
            Err(e) => {
                proof {
                    lemma_first_failure(contributions@);
                    assert(contributions@[n] is Err);
                    assert forall|k: int| 0 <= k < n implies (#[trigger] contributions@[k]) is Ok by {
                        assert(contributions@[k] == Ok::<Vec<(String, Dotfile)>, DecryptError>(
                            dotfiles_vec@[k],
                        ));
                    }
                }
                return Err(BootStrapError::DecryptError(e));
            },
        }
    }
    proof {
        lemma_first_failure(contributions@);
        assert forall|k: int| 0 <= k < contributions@.len() implies (
            #[trigger] contributions@[k]
        ) is Ok by {
            assert(contributions@[k] == Ok::<Vec<(String, Dotfile)>, DecryptError>(
                dotfiles_vec@[k],
            ));
        }
        assert(dotfile::contribution_views(dotfiles_vec@) =~= declared_by(contributions@)) by {
            assert forall|k: int| 0 <= k < contributions@.len() implies declared_by(
                contributions@,
            )[k] == dotfile::entry_views(dotfiles_vec@[k]@) by {
                assert(contributions@[k] == Ok::<Vec<(String, Dotfile)>, DecryptError>(
                    dotfiles_vec@[k],
                ));
            }
        }
    }
    match merge_dotfiles(dotfiles_vec) {
        Ok(dotfiles) => Ok(apply_dotfiles(dotfiles)),
        Err(e) => Err(BootStrapError::MergeError(e)),
    }
}

/// What a run reports, line by line: that nothing changed, or the paths
/// that were written.
pub open spec fn reported(changed: Seq<Seq<char>>) -> Seq<Seq<char>> {
    if changed.len() == 0 {
        seq!["no files changed"@]
    } else {
        seq!["changed files: "@] + Seq::new(changed.len(), |i: int| "- "@ + changed[i])
    }
}

/// What a run that wrote the paths `changed_files` reports, line by line.
pub fn report(changed_files: &Vec<String>) -> (lines: Vec<String>)
    ensures
        text::string_views(lines@) == reported(
            text::string_views(changed_files@),
        ),
{
    let mut lines: Vec<String> = Vec::new();
    if changed_files.len() == 0 {
        lines.push(String::from_str("no files changed"));
        assert(text::string_views(lines@) =~= seq!["no files changed"@]);
    } else {
        lines.push(String::from_str("changed files: "));
        let ghost changed = text::string_views(changed_files@);
        let mut i: usize = 0;
        assert(text::string_views(lines@) =~= seq!["changed files: "@] + Seq::new(
            0,
            |k: int| "- "@ + changed[k],
        ));
        while i < changed_files.len()
            invariant
                i <= changed_files.len(),
                changed == text::string_views(changed_files@),
                text::string_views(lines@) == seq!["changed files: "@] + Seq::new(
                    i as nat,
                    |k: int| "- "@ + changed[k],
                ),
            decreases changed_files.len() - i,
        {
            let line = String::from_str("- ").concat(changed_files[i].as_str());
            let ghost before = text::string_views(lines@);
            assert(line@ == "- "@ + changed[i as int]);
            lines.push(line);
            assert(text::string_views(lines@) =~= before.push(line@));
            i += 1;
            assert(text::string_views(lines@) =~= seq!["changed files: "@] + Seq::new(
                i as nat,
                |k: int| "- "@ + changed[k],
            ));
        }
    }
    lines
}

} // verus!
