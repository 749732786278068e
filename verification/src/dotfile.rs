//! Dotfile declarations: what they are, how two of them merge, and what
//! applying one does to the bytes of a file.

use crate::text::{first_place, lemma_first_place, to_bytes, to_chars};
use nix_conf::{NixConf, NixConfView};
use unstructured::{Unstructured, UnstructuredView};
use vstd::prelude::*;
use vstd::string::*;
use vstd::utf8::*;

pub mod engine;
pub mod nix_conf;
pub mod stability;
pub mod unstructured;

verus! {

/// Why two declarations for one path could not be merged.
#[derive(Debug, PartialEq, Eq)]
pub enum MergeError {
    MergeConflict { reason: String },
}

/// `std::io::Error`, carried through as it came from the file system.
#[verifier::external_type_specification]
#[verifier::external_body]
pub struct ExIoError(std::io::Error);

/// Why a declaration could not be applied.
#[derive(Debug)]
pub enum ApplyError {
    /// The file does not hold text in the encoding that the declaration needs.
    TextEncoding { expected_encoding: &'static str, message: String },
    /// The declaration contradicts what the file holds.
    Other(MergeError),
    /// The file system refused `operation` on `path`.
    IO { path: String, operation: String, err: std::io::Error },
}

/// What applying a declaration to the bytes of a file comes to.
pub enum Applied {
    /// The file holds what the declaration asks for: nothing is written.
    Unchanged,
    /// The file is to hold these bytes.
    Write(Seq<u8>),
    /// The declaration needs text, and the file does not hold UTF-8.
    NotText,
    /// The file sets a value that the declaration contradicts; the reason.
    Conflict(Seq<char>),
}

/// What `String::from_utf8` reports of bytes that are not UTF-8.
pub uninterp spec fn utf8_error_message(bytes: Seq<u8>) -> Seq<char>;

/// Whether `result`, returned for a file with the bytes `old`, is the
/// outcome `expected`.
pub open spec fn is_outcome(
    result: Result<Option<Vec<u8>>, ApplyError>,
    expected: Applied,
    old: Seq<u8>,
) -> bool {
    match expected {
        Applied::Unchanged => result matches Ok(None),
        Applied::Write(bytes) => result matches Ok(Some(new_content)) && new_content@ == bytes,
        Applied::NotText => {
            &&& result matches Err(ApplyError::TextEncoding { expected_encoding, message })
            &&& expected_encoding@ == "utf8"@
            &&& message@ == utf8_error_message(old)
        },
        Applied::Conflict(why) => {
            &&& result matches Err(ApplyError::Other(MergeError::MergeConflict { reason }))
            &&& reason@ == why
        },
    }
}

/// `String::from_utf8`, with the text of its error. The bytes are accepted
/// exactly when they are UTF-8, and the string then holds the characters
/// that they encode; what the error says depends on the bytes alone.
#[verifier::external_body]
fn text_from_utf8(bytes: Vec<u8>) -> (r: Result<String, String>)
    ensures
        r is Ok <==> valid_utf8(bytes@),
        r matches Ok(text) ==> text@ == decode_utf8(bytes@),
        r matches Err(message) ==> message@ == utf8_error_message(bytes@),
{
    match String::from_utf8(bytes) {
        Ok(text) => Ok(text),
        Err(err) => Err(err.to_string()),
    }
}

/// Applies `consume` to the text that `old_content` holds and returns what it
/// gives in UTF-8. Bytes that are not UTF-8 are an encoding error; an error
/// of `consume` is handed on.
pub fn apply_utf8<F>(old_content: &[u8], consume: F) -> (r: Result<
    Option<Vec<u8>>,
    ApplyError,
>) where F: FnOnce(Vec<char>) -> Result<Option<Vec<char>>, MergeError>
    requires
        forall|text: Vec<char>| call_requires(consume, (text,)),
    ensures
        !valid_utf8(old_content@) ==> is_outcome(r, Applied::NotText, old_content@),
        valid_utf8(old_content@) ==> exists|
            text: Vec<char>,
            new_text: Result<Option<Vec<char>>, MergeError>,
        |
            {
                &&& text@ == decode_utf8(old_content@)
                &&& call_ensures(consume, (text,), new_text)
                &&& match new_text {
                    Ok(None) => r matches Ok(None),
                    Ok(Some(chars)) => r matches Ok(Some(bytes)) && bytes@ == encode_utf8(
                        chars@,
                    ),
                    Err(e) => r matches Err(ApplyError::Other(other)) && other == e,
                }
            },
{
    match text_from_utf8(vstd::slice::slice_to_vec(old_content)) {
        Err(message) => Err(ApplyError::TextEncoding { expected_encoding: "utf8", message }),
        Ok(old_text) => {
            let text = to_chars(old_text.as_str());
            let ghost given = text;
            let new_text = consume(text);
            let ghost returned = new_text;
            let r = match new_text {
                Ok(None) => Ok(None),
                Ok(Some(chars)) => Ok(Some(to_bytes(&chars))),
                Err(e) => Err(ApplyError::Other(e)),
            };
            assert(call_ensures(consume, (given,), returned));
            r
        },
    }
}

/// A declaration of what one file must hold.
#[derive(Debug)]
pub enum Dotfile {
    /// The file holds exactly these bytes.
    Unstructured(Unstructured),
    /// The file is a `nix.conf` that sets at least these keys.
    NixConf(NixConf),
}

/// What a [`Dotfile`] declares.
pub enum DotfileView {
    Unstructured(UnstructuredView),
    NixConf(NixConfView),
}

impl View for Dotfile {
    type V = DotfileView;

    open spec fn view(&self) -> DotfileView {
        match self {
            Dotfile::Unstructured(file) => DotfileView::Unstructured(file@),
            Dotfile::NixConf(conf) => DotfileView::NixConf(conf@),
        }
    }
}

/// What applying `dotfile` to a file with the bytes `old` comes to.
pub open spec fn applied(dotfile: DotfileView, old: Seq<u8>) -> Applied {
    match dotfile {
        DotfileView::Unstructured(file) => unstructured::applied(file, old),
        DotfileView::NixConf(conf) => nix_conf::applied(conf, old),
    }
}

/// Why declarations of two kinds do not merge.
pub open spec fn different_types_reason() -> Seq<char> {
    "can't merge dotfiles with different types"@
}

/// What two declarations for one path come to together, or why they do not
/// merge. Declarations of two kinds never merge; two opaque files merge if
/// they hold the same bytes, and the first one's mode stays; two structured
/// ones merge unless they set different hooks.
pub open spec fn merged(x: DotfileView, y: DotfileView) -> Result<DotfileView, Seq<char>> {
    match (x, y) {
        (DotfileView::Unstructured(a), DotfileView::Unstructured(b)) => {
            if a.content == b.content {
                Ok(x)
            } else {
                Err(unstructured::different_content_reason())
            }
        },
        (DotfileView::NixConf(a), DotfileView::NixConf(b)) => {
            if nix_conf::conflicting(a.post_build_hook, b.post_build_hook) {
                Err(nix_conf::conflict_reason("post_build_hook"@))
            } else {
                Ok(DotfileView::NixConf(nix_conf::merged(a, b)))
            }
        },
        _ => Err(different_types_reason()),
    }
}

impl Dotfile {
    /// The bytes that a file with `old_content` must hold instead, or `None`
    /// where it holds them already. Nothing is read or written here.
    pub fn apply(&self, old_content: &[u8]) -> (r: Result<Option<Vec<u8>>, ApplyError>)
        ensures
            is_outcome(r, applied(self@, old_content@), old_content@),
    {
        match self {
            Dotfile::Unstructured(file) => file.apply(old_content),
            Dotfile::NixConf(conf) => conf.apply(old_content),
        }
    }

    /// The mode bits that the file gets whenever it is written.
    pub fn file_permission(&self) -> (mode: u32)
        ensures
            mode == file_mode(self@),
    {
        match self {
            Dotfile::Unstructured(file) => file.file_permission(),
            Dotfile::NixConf(conf) => conf.file_permission(),
        }
    }

    /// Takes `y` into this declaration. Where the two do not merge, nothing
    /// changes and the reason is reported.
    pub fn merge(&mut self, y: Dotfile) -> (r: Result<(), MergeError>)
        ensures
            match merged(old(self)@, y@) {
                Ok(united) => r is Ok && final(self)@ == united,
                Err(why) => {
                    &&& r matches Err(MergeError::MergeConflict { reason })
                    &&& reason@ == why
                    &&& *final(self) == *old(self)
                },
            },
    {
        match (self, y) {
            (Dotfile::Unstructured(mine), Dotfile::Unstructured(other)) => mine.merge(other),
            (Dotfile::NixConf(mine), Dotfile::NixConf(other)) => mine.merge(other),
            _ => Err(
                MergeError::MergeConflict {
                    reason: String::from_str("can't merge dotfiles with different types"),
                },
            ),
        }
    }
}

/// The mode bits that a declaration asks for.
pub open spec fn file_mode(dotfile: DotfileView) -> u32 {
    match dotfile {
        DotfileView::Unstructured(file) => file.permissions,
        DotfileView::NixConf(_) => nix_conf::NIX_CONF_MODE,
    }
}

/// A path with what is declared for it.
pub type Entry = (Seq<char>, DotfileView);

/// The paths and declarations that a list of pairs holds.
pub open spec fn entry_views(entries: Seq<(String, Dotfile)>) -> Seq<Entry> {
    Seq::new(entries.len(), |i: int| (entries[i].0@, entries[i].1@))
}

/// The paths and declarations that a list of contributions holds.
pub open spec fn contribution_views(contributions: Seq<Vec<(String, Dotfile)>>) -> Seq<
    Seq<Entry>,
> {
    Seq::new(contributions.len(), |i: int| entry_views(contributions[i]@))
}

/// No path stands twice in `entries`.
pub open spec fn unique_paths(entries: Seq<Entry>) -> bool {
    forall|i: int, j: int|
        0 <= i < j < entries.len() ==> (#[trigger] entries[i]).0 != (#[trigger] entries[j]).0
}

/// The reason for which two declarations for `path` do not merge, as the
/// merge of all contributions gives it: the path, a colon and a space, and
/// the reason that the declarations give.
pub open spec fn at_path(path: Seq<char>, why: Seq<char>) -> Seq<char> {
    path + ": "@ + why
}

/// `merged` with one more declaration taken in: behind the others where its
/// path is new, else merged into what is declared for that path. Where the
/// two do not merge, the reason names the path.
pub open spec fn with_entry(merged_so_far: Seq<Entry>, entry: Entry) -> Result<
    Seq<Entry>,
    Seq<char>,
> {
    match first_place(merged_so_far, entry.0) {
        None => Ok(merged_so_far.push(entry)),
        Some(i) => match merged(merged_so_far[i].1, entry.1) {
            Ok(united) => Ok(merged_so_far.update(i, (entry.0, united))),
            Err(why) => Err(at_path(entry.0, why)),
        },
    }
}

/// `merged_so_far` with the declarations of `entries` taken in, first to
/// last, or the reason for which the first of them that fails does not merge.
pub open spec fn with_entries(merged_so_far: Seq<Entry>, entries: Seq<Entry>) -> Result<
    Seq<Entry>,
    Seq<char>,
>
    decreases entries.len(),
{
    if entries.len() == 0 {
        Ok(merged_so_far)
    } else {
        match with_entries(merged_so_far, entries.drop_last()) {
            Ok(so_far) => with_entry(so_far, entries.last()),
            Err(why) => Err(why),
        }
    }
}

/// The declarations of all `contributions` merged, first to last, one
/// declaration for each path in the order in which the paths first occur; or
/// the reason for which the first declaration that fails does not merge.
pub open spec fn merged_contributions(contributions: Seq<Seq<Entry>>) -> Result<
    Seq<Entry>,
    Seq<char>,
>
    decreases contributions.len(),
{
    if contributions.len() == 0 {
        Ok(Seq::empty())
    } else {
        match merged_contributions(contributions.drop_last()) {
            Ok(so_far) => with_entries(so_far, contributions.last()),
            Err(why) => Err(why),
        }
    }
}

/// Taking declarations in keeps the paths apart.
pub proof fn lemma_with_entry_unique(merged_so_far: Seq<Entry>, entry: Entry)
    requires
        unique_paths(merged_so_far),
    ensures
        with_entry(merged_so_far, entry) matches Ok(next) ==> unique_paths(next),
{
    lemma_first_place(merged_so_far, entry.0);
}

/// Taking declarations in keeps the paths apart.
pub proof fn lemma_with_entries_unique(merged_so_far: Seq<Entry>, entries: Seq<Entry>)
    requires
        unique_paths(merged_so_far),
    ensures
        with_entries(merged_so_far, entries) matches Ok(next) ==> unique_paths(next),
    decreases entries.len(),
{
    if entries.len() > 0 {
        lemma_with_entries_unique(merged_so_far, entries.drop_last());
        if let Ok(so_far) = with_entries(merged_so_far, entries.drop_last()) {
            lemma_with_entry_unique(so_far, entries.last());
        }
    }
}

/// A merged mapping holds each path once.
pub proof fn lemma_merged_contributions_unique(contributions: Seq<Seq<Entry>>)
    ensures
        merged_contributions(contributions) matches Ok(all) ==> unique_paths(all),
    decreases contributions.len(),
{
    if contributions.len() > 0 {
        lemma_merged_contributions_unique(contributions.drop_last());
        if let Ok(so_far) = merged_contributions(contributions.drop_last()) {
            lemma_with_entries_unique(so_far, contributions.last());
        }
    }
}

/// Where `path` stands in `entries`, if it does.
pub fn find_path(entries: &Vec<(String, Dotfile)>, path: &String) -> (found: Option<usize>)
    ensures
        match found {
            Some(i) => i < entries.len() && first_place(entry_views(entries@), path@) == Some(
                i as int,
            ),
            None => first_place(entry_views(entries@), path@) is None,
        },
{
    let mut i: usize = 0;
    while i < entries.len()
        invariant
            i <= entries.len(),
            forall|k: int| 0 <= k < i ==> (#[trigger] entry_views(entries@)[k]).0 != path@,
        decreases entries.len() - i,
    {
        if entries[i].0 == *path {
            proof {
                lemma_first_place(entry_views(entries@), path@);
                assert(entry_views(entries@)[i as int].0 == path@);
            }
            return Some(i);
        }
        i += 1;
    }
    proof {
        lemma_first_place(entry_views(entries@), path@);
    }
    None
}

/// Merges the contributions of all targets into one declaration for each
/// path. Contributions are taken first to last, and so are the declarations
/// of each. The first declaration that does not merge with what is declared
/// for its path ends the merge; the reason names the path and says why the
/// two do not merge, and nothing else is returned then.
pub fn merge_dotfiles(dotfiles: Vec<Vec<(String, Dotfile)>>) -> (r: Result<
    Vec<(String, Dotfile)>,
    MergeError,
>)
    ensures
        match merged_contributions(contribution_views(dotfiles@)) {
            Ok(all) => r matches Ok(result) && entry_views(result@) == all && unique_paths(all),
            Err(why) => r matches Err(MergeError::MergeConflict { reason }) && reason@ == why,
        },
{
    let mut result: Vec<(String, Dotfile)> = Vec::new();
    let ghost all = contribution_views(dotfiles@);
    assert(all.take(0) =~= Seq::<Seq<Entry>>::empty());
    assert(entry_views(result@) =~= Seq::<Entry>::empty());
    for dotfile_map in outer: dotfiles
        invariant
            outer.seq() == dotfiles@,
            all == contribution_views(dotfiles@),
            merged_contributions(all.take(outer.index() as int)) == Ok::<Seq<Entry>, Seq<char>>(
                entry_views(result@),
            ),
    {
        let ghost n = outer.index() as int;
        let ghost entries = entry_views(dotfile_map@);
        let ghost start = entry_views(result@);
        proof {
            assert(all.take(n + 1).drop_last() =~= all.take(n));
            assert(all.take(n + 1).last() == entries);
            assert(entries.take(0) =~= Seq::<Entry>::empty());
        }
        for entry in inner: dotfile_map
            invariant
                inner.seq() == dotfile_map@,
                entries == entry_views(dotfile_map@),
                with_entries(start, entries.take(inner.index() as int)) == Ok::<
                    Seq<Entry>,
                    Seq<char>,
                >(entry_views(result@)),
                merged_contributions(all.take(n + 1)) == with_entries(start, entries),
                all == contribution_views(dotfiles@),
                0 <= n < dotfiles@.len(),
        {
            let ghost k = inner.index() as int;
            let ghost so_far = entry_views(result@);
            proof {
                assert(entries.take(k + 1).drop_last() =~= entries.take(k));
                assert(entries.take(k + 1).last() == (entry.0@, entry.1@));
            }
            let (path, dotfile) = entry;
            let ghost declared = dotfile@;
            assert(all.len() == dotfiles@.len());
            match find_path(&result, &path) {
                None => {
                    result.push((path, dotfile));
                    assert(entry_views(result@) =~= so_far.push((path@, dotfile@)));
                },
                Some(i) => {
                    let ghost before = so_far[i as int].1;
                    assert(before == result@[i as int].1@);
                    let slot = &mut result[i];
                    match slot.1.merge(dotfile) {
                        Ok(_) => {
                            slot.0 = path;
                        },
                        Err(MergeError::MergeConflict { reason }) => {
                            proof {
                                reveal_strlit(": ");
                                assert(with_entry(so_far, (path@, declared)) == Err::<
                                    Seq<Entry>,
                                    Seq<char>,
                                >(at_path(path@, reason@)));
                                lemma_with_entries_fail(start, entries, k + 1);
                                lemma_merged_contributions_fail(all, n + 1);
                            }
                            let reason = path.concat(": ").concat(reason.as_str());
                            return Err(MergeError::MergeConflict { reason });
                        },
                    }
                    assert(entry_views(result@) =~= so_far.update(
                        i as int,
                        (path@, merged(before, declared)->Ok_0),
                    ));
                },
            }
        }
        assert(entries.take(entries.len() as int) =~= entries);
    }
    proof {
        assert(all.take(all.len() as int) =~= all);
        lemma_merged_contributions_unique(all);
    }
    Ok(result)
}

/// A merge that fails part of the way fails as a whole, for the same reason.
pub proof fn lemma_with_entries_fail(merged_so_far: Seq<Entry>, entries: Seq<Entry>, n: int)
    requires
        0 <= n <= entries.len(),
        with_entries(merged_so_far, entries.take(n)) is Err,
    ensures
        with_entries(merged_so_far, entries) == with_entries(merged_so_far, entries.take(n)),
    decreases entries.len() - n,
{
    if n == entries.len() {
        assert(entries.take(n) =~= entries);
    } else {
        assert(entries.take(n + 1).drop_last() =~= entries.take(n));
        lemma_with_entries_fail(merged_so_far, entries, n + 1);
    }
}

/// A merge that fails part of the way fails as a whole, for the same reason.
pub proof fn lemma_merged_contributions_fail(contributions: Seq<Seq<Entry>>, n: int)
    requires
        0 <= n <= contributions.len(),
        merged_contributions(contributions.take(n)) is Err,
    ensures
        merged_contributions(contributions) == merged_contributions(contributions.take(n)),
    decreases contributions.len() - n,
{
    if n == contributions.len() {
        assert(contributions.take(n) =~= contributions);
    } else {
        assert(contributions.take(n + 1).drop_last() =~= contributions.take(n));
        lemma_merged_contributions_fail(contributions, n + 1);
    }
}

/// Two structured declarations that set different hooks never merge,
/// whichever is taken into the other.
pub proof fn lemma_different_hooks_conflict(a: NixConfView, b: NixConfView)
    requires
        a.post_build_hook is Some,
        b.post_build_hook is Some,
        a.post_build_hook != b.post_build_hook,
    ensures
        merged(DotfileView::NixConf(a), DotfileView::NixConf(b)) == Err::<
            DotfileView,
            Seq<char>,
        >(nix_conf::conflict_reason("post_build_hook"@)),
        merged(DotfileView::NixConf(b), DotfileView::NixConf(a)) == Err::<
            DotfileView,
            Seq<char>,
        >(nix_conf::conflict_reason("post_build_hook"@)),
{
}

/// Two structured declarations merge to the same declaration, or fail to
/// merge, whichever is taken into the other.
pub proof fn lemma_merged_structured_commutes(a: NixConfView, b: NixConfView)
    ensures
        merged(DotfileView::NixConf(a), DotfileView::NixConf(b)) == merged(
            DotfileView::NixConf(b),
            DotfileView::NixConf(a),
        ),
{
    nix_conf::lemma_merged_commutes(a, b);
}

/// An opaque declaration and a structured one never merge, whichever is
/// taken into the other.
pub proof fn lemma_different_types_conflict(file: UnstructuredView, conf: NixConfView)
    ensures
        merged(DotfileView::Unstructured(file), DotfileView::NixConf(conf)) == Err::<
            DotfileView,
            Seq<char>,
        >(different_types_reason()),
        merged(DotfileView::NixConf(conf), DotfileView::Unstructured(file)) == Err::<
            DotfileView,
            Seq<char>,
        >(different_types_reason()),
{
}

/// Whether applying `dotfile` to a file with the bytes `old` writes what a
/// second application reads as it was written. An opaque file always does;
/// a structured one does where its list values hold no white space and the
/// lines that are written come back as lines when the text is read again,
/// and where it sets no key and writes the empty file.
pub open spec fn writes_stably(dotfile: DotfileView, old: Seq<u8>) -> bool {
    match dotfile {
        DotfileView::Unstructured(_) => true,
        DotfileView::NixConf(conf) => {
            ||| {
                &&& stability::lists_are_unbroken(conf)
                &&& crate::text::lines(nix_conf::patched_text(conf, decode_utf8(old)))
                    == nix_conf::patched_lines(conf, crate::text::lines(decode_utf8(old)))
            }
            ||| {
                &&& stability::declares_nothing(conf)
                &&& nix_conf::patched_text(conf, decode_utf8(old)).len() == 0
            }
        },
    }
}

/// Applying a declaration to what applying it wrote changes nothing.
pub proof fn lemma_applied_twice(dotfile: DotfileView, old: Seq<u8>)
    requires
        applied(dotfile, old) is Write,
        writes_stably(dotfile, old),
    ensures
        applied(dotfile, applied(dotfile, old)->Write_0) == Applied::Unchanged,
{
    match dotfile {
        DotfileView::Unstructured(file) => {
            unstructured::lemma_applied_twice(file, old);
        },
        DotfileView::NixConf(conf) => {
            if stability::declares_nothing(conf) && nix_conf::patched_text(
                conf,
                decode_utf8(old),
            ).len() == 0 {
                stability::lemma_applied_twice_to_nothing(conf, old);
            } else {
                stability::lemma_applied_twice(conf, old);
            }
        },
    }
}

} // verus!
